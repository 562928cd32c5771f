use km_package_builder::bulk::{
    bulk_favorite_step, bulk_language_step, favorites_said, find_favorite, free_numbers,
    named_song, package_from_filter_step, package_row, replace_refused, replace_request, written,
    BulkFavoriteDecision, BulkLanguageDecision, FromFilterDecision, Nothing, ReplaceAsk,
    ReplaceRefusal, ReplaceRefused, Written,
};
use km_package_builder::bulk::{restore_request, RestorePolicy};
use km_package_builder::form::Fields;
use km_package_builder::model::FavoriteNode;

fn favorite(id: i64, name: &str, temporary: bool) -> FavoriteNode {
    FavoriteNode { id, name: name.to_owned(), song_count: 3, second_copies: 0, temporary }
}

#[test]
fn filing_asks_for_a_favorite_then_counts_then_confirms_then_writes() {
    let favs = [favorite(3, "Bossa", false), favorite(7, "Later", true)];
    assert_eq!(
        bulk_favorite_step(None, false, false, true, 0, None, &favs, 0),
        BulkFavoriteDecision::ChooseAFavorite
    );
    assert_eq!(
        bulk_favorite_step(Some(3), false, false, true, 0, None, &favs, 0),
        BulkFavoriteDecision::Read { count_matching: true }
    );
    assert_eq!(
        bulk_favorite_step(Some(3), false, false, true, 0, Some(0), &favs, 2),
        BulkFavoriteDecision::Nothing(Nothing::Matches)
    );
    assert_eq!(
        bulk_favorite_step(Some(3), false, false, false, 0, Some(50), &favs, 2),
        BulkFavoriteDecision::Nothing(Nothing::Ticked)
    );
    assert_eq!(
        bulk_favorite_step(Some(9), true, false, false, 2, Some(0), &favs, 0),
        BulkFavoriteDecision::FavoriteGone
    );
    assert_eq!(
        bulk_favorite_step(Some(7), true, false, false, 2, Some(0), &favs, 0),
        BulkFavoriteDecision::Confirm { count: 2, favorite_at: 1, removing: true, whole_corpus: false }
    );
    assert_eq!(
        bulk_favorite_step(Some(3), false, false, true, 0, Some(40), &favs, 0),
        BulkFavoriteDecision::Confirm { count: 40, favorite_at: 0, removing: false, whole_corpus: true }
    );
    assert_eq!(
        bulk_favorite_step(Some(3), true, true, true, 0, None, &favs, 0),
        BulkFavoriteDecision::Write { favorite: 3, file: false, whole_filter: true }
    );
    assert_eq!(written(0), Written::NothingChanged);
    assert_eq!(written(4), Written::Changed(4));
}

#[test]
fn a_language_write_has_three_ways_of_finding_nothing() {
    assert_eq!(
        bulk_language_step(Some(false), false, false, true, 0, None, 0),
        BulkLanguageDecision::NotALanguage
    );
    assert_eq!(
        bulk_language_step(Some(true), false, false, false, 0, None, 0),
        BulkLanguageDecision::Read { count_matching: false, count_ticked: false }
    );
    assert_eq!(
        bulk_language_step(Some(true), false, false, false, 0, Some(0), 0),
        BulkLanguageDecision::Nothing(Nothing::Ticked)
    );
    assert_eq!(
        bulk_language_step(Some(true), true, false, false, 3, Some(0), 0),
        BulkLanguageDecision::Nothing(Nothing::TickedUnset)
    );
    assert_eq!(
        bulk_language_step(None, false, false, true, 0, Some(0), 1),
        BulkLanguageDecision::Nothing(Nothing::Matches)
    );
    assert_eq!(
        bulk_language_step(None, true, false, true, 0, Some(12), 0),
        BulkLanguageDecision::Confirm { count: 12, ticked_chip: false, no_language_yet: true, whole_corpus: false }
    );
    assert_eq!(
        bulk_language_step(None, false, false, true, 0, Some(12), 0),
        BulkLanguageDecision::Confirm { count: 12, ticked_chip: false, no_language_yet: false, whole_corpus: true }
    );
    assert_eq!(
        bulk_language_step(Some(true), true, true, false, 3, None, 0),
        BulkLanguageDecision::Write { whole_filter: false, only_unset: true }
    );
}

#[test]
fn a_package_from_a_filter_is_refused_in_order_and_offers_only_a_filed_list() {
    let favs = [favorite(3, "Bossa", false), favorite(7, "Later", true)];
    assert_eq!(
        package_from_filter_step("   ", "", false, None, None, &favs, false),
        FromFilterDecision::NameThePackage
    );
    assert_eq!(
        package_from_filter_step("日本語", "", false, None, None, &favs, false),
        FromFilterDecision::NoFileName
    );
    assert_eq!(
        package_from_filter_step("Brasil", "brasil", false, None, Some(3), &favs, false),
        FromFilterDecision::Read
    );
    assert_eq!(
        package_from_filter_step("Brasil", "brasil", false, Some((0, true)), Some(3), &favs, false),
        FromFilterDecision::NothingMatches
    );
    assert_eq!(
        package_from_filter_step("Brasil", "brasil", false, Some((5, true)), Some(3), &favs, false),
        FromFilterDecision::NameTaken
    );
    assert_eq!(
        package_from_filter_step("Brasil", "brasil", false, Some((5, false)), Some(3), &favs, false),
        FromFilterDecision::Confirm { count: 5, source_at: Some(0) }
    );
    assert_eq!(
        package_from_filter_step("Brasil", "brasil", false, Some((5, false)), Some(7), &favs, false),
        FromFilterDecision::Confirm { count: 5, source_at: None }
    );
    assert_eq!(
        package_from_filter_step("Brasil", "brasil", true, None, Some(3), &favs, true),
        FromFilterDecision::Create { source: Some(3) }
    );
    assert_eq!(
        package_from_filter_step("Brasil", "brasil", true, None, Some(3), &favs, false),
        FromFilterDecision::Create { source: None }
    );
    assert_eq!(free_numbers(999, 500), 500);
    assert_eq!(free_numbers(999, 1), 999);
    assert_eq!(free_numbers(999, 2000), 1);
    assert_eq!(find_favorite(&favs, 7), Some(1));
    assert_eq!(find_favorite(&favs, 8), None);
}

#[test]
fn a_package_form_defaults_what_was_left_blank() {
    let row = package_row(&Fields::parse("name=Rock"), "a1b2c3", 999, false);
    assert_eq!(row.version, "1.0.0");
    assert_eq!(row.name, "Rock");
    assert_eq!(row.volume_format, "vol{n}");
    assert_eq!(row.start_number, 1);
    assert_eq!(row.default_language.as_deref(), Some("en"));

    let row = package_row(
        &Fields::parse("version=2.0.0&volume_format=%20&start_number=5000&default_language=xx&publisher=Me"),
        "id",
        999,
        false,
    );
    assert_eq!(row.name, "id");
    assert_eq!(row.version, "2.0.0");
    assert_eq!(row.volume_format, "vol{n}");
    assert_eq!(row.start_number, 999);
    assert_eq!(row.default_language, None);
    assert_eq!(row.publisher.as_deref(), Some("Me"));

    let row = package_row(&Fields::parse("start_number=0&default_language=pt"), "id", 999, true);
    assert_eq!(row.start_number, 1);
    assert_eq!(row.default_language.as_deref(), Some("pt"));
}

#[test]
fn a_replace_form_names_a_slot_and_a_number() {
    assert_eq!(replace_request(&Fields::parse("number=3")), Err(ReplaceAsk::ChooseAPackage));
    assert_eq!(replace_request(&Fields::parse("slot=nonsense&number=3")), Err(ReplaceAsk::ChooseAPackage));
    assert_eq!(replace_request(&Fields::parse("slot=2%23brasil&number=x")), Err(ReplaceAsk::NotANumber));
    assert_eq!(
        replace_request(&Fields::parse("slot=2%23brasil&number=12&song_id=abc")),
        Ok(("brasil".to_owned(), 2, 12, "abc".to_owned()))
    );
    assert_eq!(
        replace_request(&Fields::parse("slot=2%23brasil&number=12")),
        Ok(("brasil".to_owned(), 2, 12, String::new()))
    );
}

#[test]
fn a_replacement_names_songs_and_refusals_name_the_right_number() {
    assert_eq!(named_song("Corcovado", Some("Tom Jobim")), "Corcovado \u{2014} Tom Jobim");
    assert_eq!(named_song("Corcovado", Some("")), "Corcovado");
    assert_eq!(named_song("Corcovado", None), "Corcovado");
    assert_eq!(replace_refused(&ReplaceRefusal::Empty("vol1".to_owned()), 4), (ReplaceRefused::Empty, 4));
    assert_eq!(
        replace_refused(&ReplaceRefusal::AlreadyIn("vol1".to_owned(), 9), 4),
        (ReplaceRefused::AlreadyIn, 9)
    );
    assert_eq!(replace_refused(&ReplaceRefusal::SameSong, 4), (ReplaceRefused::SameSong, 4));
    assert_eq!(replace_refused(&ReplaceRefusal::Merged, 4), (ReplaceRefused::Merged, 4));
    assert_eq!(favorites_said(&[]), None);
    assert_eq!(
        favorites_said(&["Bossa".to_owned(), "Later".to_owned()]),
        Some((2, "Bossa, Later".to_owned()))
    );
}

#[test]
fn nothing_is_written_before_it_is_confirmed_and_a_stale_source_box_is_ignored() {
    let favs = [favorite(3, "Bossa", false), favorite(7, "Later", true)];
    for read in [None, Some(0), Some(12)] {
        for whole in [false, true] {
            assert!(!matches!(
                bulk_favorite_step(Some(3), false, false, whole, 4, read, &favs, 1),
                BulkFavoriteDecision::Write { .. }
            ));
            assert!(!matches!(
                bulk_language_step(Some(true), true, false, whole, 4, read, 1),
                BulkLanguageDecision::Write { .. }
            ));
        }
    }
    for read in [None, Some((0, false)), Some((9, false)), Some((9, true))] {
        assert!(!matches!(
            package_from_filter_step("Brasil", "brasil", false, read, Some(3), &favs, true),
            FromFilterDecision::Create { .. }
        ));
    }
    // The box was drawn for list 3, and the filter has since been narrowed further.
    assert_eq!(
        package_from_filter_step("Brasil", "brasil", true, None, None, &favs, true),
        FromFilterDecision::Create { source: None }
    );
}

#[test]
fn a_restore_form_names_a_backup_and_says_whether_it_overwrites() {
    assert_eq!(
        restore_request(&Fields::parse("path=old%20tunes.json&overwrite=on")),
        Some(("old tunes.json".to_owned(), RestorePolicy::Overwrite))
    );
    assert_eq!(
        restore_request(&Fields::parse("path=backup.json")),
        Some(("backup.json".to_owned(), RestorePolicy::FillBlanks))
    );
    assert_eq!(restore_request(&Fields::parse("overwrite=on")), None);
}
