use km_package_builder::names::artist_and_title;

/// The two spellings the corpus writes, which differ only in space around the seam.
#[test]
fn the_first_dash_is_the_seam_spaced_or_not() {
    assert_eq!(
        artist_and_title("Bob Seger-Night moves"),
        Some(("Bob Seger".to_owned(), "Night moves".to_owned()))
    );
    assert_eq!(
        artist_and_title("Bob Marley - Natural Mystic 1982"),
        Some(("Bob Marley".to_owned(), "Natural Mystic 1982".to_owned()))
    );
}

/// A song's own dashes are inside its name.
#[test]
fn a_later_dash_stays_in_the_title() {
    assert_eq!(
        artist_and_title("Bob Dylan-A Hard Rain's A-Gonna Fall"),
        Some((
            "Bob Dylan".to_owned(),
            "A Hard Rain's A-Gonna Fall".to_owned()
        ))
    );
}

/// A file name is a name like any other, and its underscores are not this rule's business.
#[test]
fn a_file_name_splits_and_keeps_its_underscores() {
    assert_eq!(
        artist_and_title("bob_marley-zimbabwe"),
        Some(("bob_marley".to_owned(), "zimbabwe".to_owned()))
    );
}

#[test]
fn a_name_with_no_dash_holds_no_artist() {
    for name in ["Corcovado", "Garota de Ipanema", "", "   "] {
        assert_eq!(artist_and_title(name), None, "{name} has no seam");
    }
}

/// Half a split is not a split.
#[test]
fn a_name_missing_a_half_is_left_alone() {
    for name in ["-Zimbabwe", "Zimbabwe-", " - ", "-"] {
        assert_eq!(artist_and_title(name), None, "{name} is half a name");
    }
}

/// An en dash and an em dash are typography, and neither is the seam.
#[test]
fn only_the_ascii_hyphen_cuts() {
    assert_eq!(artist_and_title("Bob Marley – Zimbabwe"), None);
    assert_eq!(artist_and_title("Bob Marley — Zimbabwe"), None);
}

/// Space around each half is trimmed away, wherever it is.
#[test]
fn each_half_is_trimmed() {
    assert_eq!(
        artist_and_title("  Tom Jobim  -  Wave  "),
        Some(("Tom Jobim".to_owned(), "Wave".to_owned()))
    );
}
