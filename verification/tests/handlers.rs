use km_package_builder::browse::{page_links, FilterQuery, PageLinks, PageNumber, PAGE_SIZE};
use km_package_builder::filter::{CopiesFilter, SuitabilityFilter};
use km_package_builder::form::Fields;
use km_package_builder::requests::{browser_target, supplied_id, ReplyQuery};

fn query() -> FilterQuery {
    FilterQuery {
        q: "jobim".to_owned(),
        artist: "Tom Jobim".to_owned(),
        suitability: "8-10".to_owned(),
        initial: "C".to_owned(),
        favorited: "out".to_owned(),
        favorite: "3".to_owned(),
        language: "ja".to_owned(),
        copies: "2-10".to_owned(),
        added: "7d".to_owned(),
        filename: Some("1".to_owned()),
        sort: "title".to_owned(),
        ..FilterQuery::default()
    }
}

/// [`page_links`] as the browse list calls it.
fn browse_links(offset: u32, total: u32, has_more: bool) -> PageLinks {
    let query = query();
    page_links(offset, total, PAGE_SIZE, has_more, |page| {
        query.with_offset(page * PAGE_SIZE, total)
    })
}

/// Every filter has to survive a page turn.
#[test]
fn paging_keeps_every_filter_it_was_given() {
    let links = browse_links(100, 1000, true);
    let numbered: Vec<&String> = links.pages.iter().map(|page| &page.query).collect();
    for link in [&links.previous, &links.next, &links.first, &links.last]
        .into_iter()
        .chain(numbered)
        .filter(|link| !link.is_empty())
    {
        assert!(link.contains("q=jobim"), "{link}");
        assert!(link.contains("artist=Tom+Jobim"), "{link}");
        assert!(link.contains("initial=C"), "{link}");
        assert!(link.contains("favorited=out"), "{link}");
        assert!(link.contains("favorite=3"), "{link}");
        assert!(link.contains("language=ja"), "{link}");
        assert!(link.contains("copies=2-10"), "{link}");
        assert!(link.contains("added=7d"), "{link}");
        assert!(link.contains("sort=title"), "{link}");
        assert!(link.contains("filename=1"), "{link}");
    }
}

/// Every filter has to survive the trip through a form body, too.
#[test]
fn a_filter_written_to_a_query_reads_back_the_same_from_a_body() {
    let original = query();
    let round = FilterQuery::from_body(&original.rebuild(0, "", None)).expect("read it back");
    assert_eq!(round.to_form(&[], &[]), original.to_form(&[], &[]));

    let bar = "q=&artist=&suitability=&user_score=&initial=&favorite=&melody=\
               &encoding_source=&granularity=&kind=&language=&copies=&added=&sort=";
    assert_eq!(
        FilterQuery::from_body(bar)
            .expect("read the bar")
            .to_form(&[], &[]),
        FilterQuery::default().to_form(&[], &[])
    );
}

/// A body of ticked rows is still a body the filter can be read out of.
#[test]
fn the_ticked_rows_riding_along_do_not_stop_the_filter_being_read() {
    let body = "song_id=a&score=1&song_id=b&score=&title=x&row_artist=y&name=z\
                &song_id=c&suitability=8-10&tags=bossa";
    let query = FilterQuery::from_body(body).expect("the filter survives the company it keeps");
    assert_eq!(query.suitability, "8-10");
    assert_eq!(query.tags, "bossa");

    assert!(FilterQuery::from_body("tags=a&tags=b").is_err());
}

/// The row language select must not be named `language`.
#[test]
fn a_row_language_select_can_ride_in_the_same_body_as_the_filter_bar() {
    let body = "song_id=a&row_language=pt&song_id=b&row_language=&song_id=c&row_language=ja\
                &language=ja&tags=bossa";
    let query = FilterQuery::from_body(body).expect("the rows' own selects are ignored");
    assert_eq!(query.language, "ja", "the bar's own value, not a row's");
    assert_eq!(query.tags, "bossa");

    assert!(FilterQuery::from_body("language=pt&language=ja&tags=bossa").is_err());
}

/// The row's artist box must not be named `artist`.
#[test]
fn a_row_artist_box_can_ride_in_the_same_body_as_the_filter_bar() {
    let body = "song_id=a&title=Wave&row_artist=Tom+Jobim\
                &artist=Dire+Straits&tags=bossa";
    let query = FilterQuery::from_body(body).expect("the row's own box is ignored");
    assert_eq!(
        query.artist, "Dire Straits",
        "the bar's own value, not the row being edited"
    );
    assert_eq!(query.tags, "bossa");

    assert!(FilterQuery::from_body("artist=Tom+Jobim&artist=Dire+Straits").is_err());
}

/// `?copies=2+` narrows, and `?duplicates=1` does not.
#[test]
fn the_two_or_more_bucket_narrows_and_the_retired_checkbox_does_not() {
    let linked = FilterQuery::from_body("copies=2%2B&tags=bossa").expect("read it");
    assert_eq!(
        CopiesFilter::parse(&linked.copies),
        CopiesFilter::AtLeastTwo
    );
    assert_eq!(linked.to_form(&[], &[]).copies, "2+");
    assert!(linked.rebuild(0, "", None).contains("copies=2%2B"));

    let checkbox = FilterQuery::from_body("duplicates=1&tags=bossa").expect("read it");
    assert_eq!(CopiesFilter::parse(&checkbox.copies), CopiesFilter::Any);
    assert_eq!(checkbox.to_form(&[], &[]).copies, "");
    let rebuilt = checkbox.rebuild(0, "", None);
    assert!(!rebuilt.contains("duplicates"), "{rebuilt}");
    assert!(rebuilt.contains("tags=bossa"), "{rebuilt}");

    let kept = FilterQuery::from_body("copies=2-10").expect("read it");
    assert_eq!(CopiesFilter::parse(&kept.copies), CopiesFilter::TwoToTen);
}

/// `min_score` is not read at all, and the rest of the filter still is.
#[test]
fn an_old_min_score_link_is_ignored_rather_than_read() {
    let old = FilterQuery::from_body("min_score=9&tags=bossa").expect("read it");
    assert_eq!(
        old.suitability(),
        SuitabilityFilter::Any,
        "the retired ladder no longer narrows anything"
    );
    assert_eq!(old.to_form(&[], &[]).suitability, "");

    let rebuilt = old.rebuild(0, "", None);
    assert!(rebuilt.contains("tags=bossa"), "{rebuilt}");
    assert!(!rebuilt.contains("min_score"), "{rebuilt}");

    let both = FilterQuery::from_body("min_score=9&suitability=0-4").expect("read it");
    assert_eq!(both.suitability(), SuitabilityFilter::Low);
}

#[test]
fn the_ends_of_the_list_hide_the_buttons_that_would_not_move() {
    let first = browse_links(0, 1000, true);
    assert!(first.previous.is_empty());
    assert!(first.first.is_empty());
    assert!(first.next.contains("offset=50"));

    let last = browse_links(950, 1000, false);
    assert!(last.next.is_empty());
    assert!(last.last.is_empty(), "the window already reaches the end");
    assert!(last.previous.contains("offset=900"));

    let only = browse_links(0, 40, false);
    assert_eq!(only.pages.len(), 1);
    assert!(only.pages[0].current);
    assert!(only.pages[0].query.is_empty());
    assert_eq!(
        PageLinks {
            pages: Vec::new(),
            ..only
        },
        PageLinks::default()
    );
}

/// The numbers are a window of five either side, with the ends drawn only beyond it.
#[test]
fn the_numbers_are_a_window_around_the_page_being_shown() {
    let links = browse_links(1000, 5000, true);
    let numbers: Vec<u32> = links.pages.iter().map(|page| page.number).collect();
    assert_eq!(numbers, (16..=26).collect::<Vec<_>>());

    let here: Vec<&PageNumber> = links.pages.iter().filter(|page| page.current).collect();
    assert_eq!(here.len(), 1, "exactly one page is the one being shown");
    assert_eq!(here[0].number, 21);
    assert!(here[0].query.is_empty(), "and it is a label, not a button");

    assert!(links.first.is_empty() || !links.first.contains("offset="));
    assert!(links.last.contains("offset=4950"), "{}", links.last);

    let near_start = browse_links(100, 5000, true);
    let numbers: Vec<u32> = near_start.pages.iter().map(|page| page.number).collect();
    assert_eq!(numbers, (1..=8).collect::<Vec<_>>());
    assert!(near_start.first.is_empty(), "page 1 is already in view");
}

/// A total that lags a scan cannot draw a *last* button behind the page it was pressed from.
#[test]
fn a_stale_total_never_points_the_last_button_backwards() {
    let links = browse_links(500, 100, true);
    let numbers: Vec<u32> = links.pages.iter().map(|page| page.number).collect();
    assert_eq!(
        numbers.last(),
        Some(&12),
        "the window has to reach past the page being shown: {numbers:?}"
    );
    assert!(links.last.is_empty(), "the end is inside the window");
}

/// Whether there is a next page is the database's answer, not the carried total's.
#[test]
fn a_stale_total_cannot_hide_a_page_that_is_there() {
    let links = browse_links(950, 1000, true);
    assert!(links.next.contains("offset=1000"), "{}", links.next);

    let links = browse_links(100, 99_999, false);
    assert!(links.next.is_empty(), "{}", links.next);
    assert!(links.last.contains("offset="), "{}", links.last);
}

/// A page turn carries the count forward; clearing a filter throws it away.
#[test]
fn the_count_travels_with_the_pages_but_not_past_a_filter_change() {
    let links = browse_links(500, 1000, true);
    assert!(links.next.contains("total=1000"), "{}", links.next);
    assert!(links.previous.contains("total=1000"), "{}", links.previous);
    assert!(links.first.contains("total=1000"), "{}", links.first);
    assert!(links.last.contains("total=1000"), "{}", links.last);
    for page in &links.pages {
        assert!(
            page.query.is_empty() || page.query.contains("total=1000"),
            "{}",
            page.query
        );
    }

    let mut query = query();
    query.total = Some(1000);
    assert!(
        !query.without("language").contains("total="),
        "{}",
        query.without("language")
    );
}

/// The numbers never stop behind the page being shown, against a total that lags a scan.
#[test]
fn the_window_never_ends_behind_the_page_it_is_drawn_for() {
    let links = browse_links(5_000, 1_000, true);
    let numbers: Vec<u32> = links.pages.iter().map(|page| page.number).collect();
    assert!(numbers.contains(&101), "{numbers:?}");
    assert_eq!(numbers.last(), Some(&102), "{numbers:?}");
    assert!(links.next.contains("offset=5050"), "{}", links.next);
}

/// Clearing the language leaves every other filter alone, and puts the reader back on page one.
#[test]
fn clearing_one_filter_keeps_the_others_and_starts_again_at_the_top() {
    let mut query = query();
    query.offset = Some(300);
    let cleared = query.without("language");
    assert!(!cleared.contains("language="), "{cleared}");
    assert!(!cleared.contains("offset="), "{cleared}");
    assert!(cleared.contains("q=jobim"), "{cleared}");
    assert!(cleared.contains("initial=C"), "{cleared}");
    assert!(cleared.contains("filename=1"), "{cleared}");
}

/// Opening in a browser takes the page it is given only if it is one of ours.
#[test]
fn open_in_browser_takes_the_page_it_is_given_only_if_it_is_ours() {
    let base = "http://127.0.0.1:8178/";

    assert_eq!(
        browser_target(Some("http://127.0.0.1:8178/songs?q=jobim&offset=150"), base),
        "http://127.0.0.1:8178/songs?q=jobim&offset=150"
    );

    assert_eq!(browser_target(None, base), base);
    assert_eq!(browser_target(Some(""), base), base);
    assert_eq!(browser_target(Some("https://example.com/"), base), base);
    assert_eq!(
        browser_target(Some("file:///C:/Windows/notepad.exe"), base),
        base
    );
    assert_eq!(browser_target(Some("http://127.0.0.1:81780/x"), base), base);
}

/// The file-name box says how the list is drawn and nothing about which songs are in it.
#[test]
fn showing_file_names_is_not_a_filter() {
    let plain = FilterQuery::default().to_filter();
    let asked = FilterQuery {
        filename: Some("1".to_owned()),
        ..FilterQuery::default()
    };
    assert_eq!(format!("{:?}", asked.to_filter()), format!("{plain:?}"));
    assert!(asked.to_form(&[], &[]).filename);
}

/// The file names are off until the box asks for them.
#[test]
fn file_names_are_hidden_until_the_box_asks_for_them() {
    assert!(!FilterQuery::default().filenames());
    assert!(!FilterQuery::default().to_form(&[], &[]).filename);

    let on = FilterQuery {
        filename: Some("1".to_owned()),
        ..FilterQuery::default()
    };
    assert!(on.filenames());
    assert!(on.to_form(&[], &[]).filename);
}

/// Turning them on survives a page turn and a *clear all*; leaving them off says nothing.
#[test]
fn the_file_name_box_survives_paging_and_clearing() {
    let on = FilterQuery {
        filename: Some("1".to_owned()),
        q: "jobim".to_owned(),
        ..FilterQuery::default()
    };
    let next = on.with_offset(100, 4200);
    assert!(next.contains("filename=1"), "{next}");

    let cleared = on.only_view();
    assert!(cleared.contains("filename=1"), "{cleared}");
    assert!(!cleared.contains("q="), "{cleared}");

    let off = FilterQuery::default().with_offset(100, 4200);
    assert!(!off.contains("filename"), "{off}");
    assert!(!FilterQuery::default().only_view().contains("filename"));
}

/// The create form no longer sends an id, and an absent one means *generate*.
#[test]
fn a_create_form_that_names_no_id_is_asking_for_a_generated_one() {
    for body in ["name=Rock", "name=Rock&id=", "name=Rock&id=%20%20"] {
        assert_eq!(
            supplied_id(&Fields::parse(body)),
            None,
            "{body} should be asking for a generated id"
        );
    }
}

/// ...and an id that *is* supplied is honored.
#[test]
fn an_id_that_was_supplied_is_kept_rather_than_replaced() {
    assert_eq!(
        supplied_id(&Fields::parse("id=classic-rock-01&name=Rock")).as_deref(),
        Some("classic-rock-01")
    );
    assert_eq!(
        supplied_id(&Fields::parse("id=%20a1b2c3%20")).as_deref(),
        Some("a1b2c3")
    );
}

#[test]
fn only_an_explicit_request_gets_a_row_back_instead_of_a_message() {
    assert!(
        ReplyQuery {
            reply_as: Some("row".to_owned())
        }
        .wants_row()
    );
    assert!(!ReplyQuery::default().wants_row());
    assert!(
        !ReplyQuery {
            reply_as: Some("something else".to_owned())
        }
        .wants_row()
    );
}

use km_package_builder::browse::ChipKind;
use km_package_builder::model::FavoriteNode;

fn chips_of(query: FilterQuery) -> Vec<(String, ChipKind, String, String)> {
    query
        .active(&[])
        .into_iter()
        .map(|c| (c.key, c.kind, c.value, c.remove))
        .collect()
}

/// Nonsense narrows nothing, so it leaves no chip behind.
#[test]
fn nonsense_leaves_no_chip() {
    for query in [
        FilterQuery { initial: "ZZ".to_owned(), ..FilterQuery::default() },
        FilterQuery { copies: "lots".to_owned(), ..FilterQuery::default() },
        FilterQuery { language: "Klingon".to_owned(), ..FilterQuery::default() },
        FilterQuery { artist: "   ".to_owned(), ..FilterQuery::default() },
        FilterQuery { favorited: "either".to_owned(), ..FilterQuery::default() },
    ] {
        assert!(query.active(&[]).is_empty(), "{query:?}");
    }
}

/// One chip per tag, each taking off only its own tag.
#[test]
fn each_tag_is_a_chip_of_its_own() {
    let chips = chips_of(FilterQuery {
        tags: "rock,brasil".to_owned(),
        ..FilterQuery::default()
    });
    assert_eq!(chips.len(), 2);
    assert_eq!(chips[0].0, "tag:brasil");
    assert_eq!(chips[0].3, "tags=rock");
    assert_eq!(chips[1].0, "tag:rock");
    assert_eq!(chips[1].3, "tags=brasil");
}

/// Every chip of a full filter is drawn in the bar's order, and each link drops only its own.
#[test]
fn every_filter_shows_as_a_chip_in_order() {
    let favorites = [FavoriteNode {
        id: 3,
        name: "Bossa".to_owned(),
        song_count: 10,
        second_copies: 0,
        temporary: false,
    }];
    let query = FilterQuery {
        q: " jobim ".to_owned(),
        artist: "Tom Jobim".to_owned(),
        initial: "c".to_owned(),
        suitability: "8-10".to_owned(),
        user_score: "7".to_owned(),
        melody: "yes".to_owned(),
        kind: "midi".to_owned(),
        language: "pt".to_owned(),
        granularity: "linelevel".to_owned(),
        encoding_source: "fallback".to_owned(),
        favorite: "3".to_owned(),
        favorited: "1".to_owned(),
        copies: "2+".to_owned(),
        added: "30d+".to_owned(),
        versions: "all".to_owned(),
        unpackaged: Some(String::new()),
        ..FilterQuery::default()
    };
    let chips = query.active(&favorites);
    let kinds: Vec<ChipKind> = chips.iter().map(|c| c.kind).collect();
    assert_eq!(
        kinds,
        vec![
            ChipKind::Words,
            ChipKind::By,
            ChipKind::Initial,
            ChipKind::Suitability,
            ChipKind::ScoreAtLeast,
            ChipKind::MelodyFound,
            ChipKind::MidiOnly,
            ChipKind::Language,
            ChipKind::LyricsPerLine,
            ChipKind::Encoding,
            ChipKind::InFavorite,
            ChipKind::Favorited,
            ChipKind::Copies,
            ChipKind::Added,
            ChipKind::Versions,
            ChipKind::NotPackaged,
        ]
    );
    let values: Vec<&str> = chips.iter().map(|c| c.value.as_str()).collect();
    assert_eq!(
        values,
        vec!["jobim", "Tom Jobim", "C", "8-10", "7", "", "", "pt", "", "guessed", "Bossa", "in",
             "2+", "30d+", "all", ""]
    );
    for chip in &chips {
        let key = format!("{}=", chip.key);
        assert!(!chip.remove.contains(&key), "{} still in {}", chip.key, chip.remove);
    }
}

/// A lyric timing nothing recognizes shows as it came, and the filters after it keep their chips.
#[test]
fn an_unrecognized_timing_shows_as_it_came_beside_the_others() {
    let chips = chips_of(FilterQuery {
        granularity: "wordlevel".to_owned(),
        copies: "2-10".to_owned(),
        ..FilterQuery::default()
    });
    assert_eq!(chips.len(), 2, "{chips:?}");
    assert_eq!(chips[0].1, ChipKind::Granularity);
    assert_eq!(chips[0].2, "wordlevel");
    assert_eq!(chips[1].1, ChipKind::Copies);
    assert_eq!(chips[1].2, "2-10");
}

/// A favorite nobody can name shows its id.
#[test]
fn an_unknown_favorite_is_named_by_its_id() {
    let chips = chips_of(FilterQuery {
        favorite: "99".to_owned(),
        ..FilterQuery::default()
    });
    assert_eq!(chips[0].1, ChipKind::InFavorite);
    assert_eq!(chips[0].2, "99");
}

/// The band shows as a chip naming which band, and its link takes the band off; *any* is no chip.
#[test]
fn the_suitability_band_shows_as_a_removable_chip() {
    let query = FilterQuery {
        suitability: "0-4".to_owned(),
        ..FilterQuery::default()
    };
    let chips = query.active(&[]);
    assert_eq!(chips.len(), 1, "{chips:?}");
    assert_eq!(chips[0].kind, ChipKind::Suitability);
    assert_eq!(chips[0].value, "0-4");
    assert!(!chips[0].remove.contains("suitability"), "{:?}", chips[0]);
    assert!(FilterQuery::default().active(&[]).is_empty());
}

/// The language shows as a chip naming it, the two sentinels read as themselves, and nonsense
/// leaves nothing.
#[test]
fn the_language_filter_shows_as_a_removable_chip() {
    let chips = FilterQuery {
        language: "ja".to_owned(),
        ..FilterQuery::default()
    }
    .active(&[]);
    let chip = chips
        .iter()
        .find(|chip| chip.kind == ChipKind::Language && chip.value == "ja")
        .unwrap_or_else(|| panic!("a chip naming the language; got {chips:?}"));
    assert!(!chip.remove.contains("language="), "{}", chip.remove);

    for value in ["unset", "set"] {
        let chips = FilterQuery {
            language: value.to_owned(),
            ..FilterQuery::default()
        }
        .active(&[]);
        assert!(
            chips.iter().any(|chip| chip.kind == ChipKind::Language && chip.value == value),
            "{value}: {chips:?}"
        );
    }

    let chips = FilterQuery {
        language: "Klingon".to_owned(),
        ..FilterQuery::default()
    }
    .active(&[]);
    assert!(chips.is_empty(), "got {chips:?}");
}

/// The artist shows as a chip naming whose songs, and comes off again; whitespace is no artist.
#[test]
fn the_artist_filter_shows_as_a_removable_chip() {
    let chips = FilterQuery {
        artist: "Tom Jobim".to_owned(),
        ..FilterQuery::default()
    }
    .active(&[]);
    let chip = chips
        .iter()
        .find(|chip| chip.kind == ChipKind::By && chip.value == "Tom Jobim")
        .unwrap_or_else(|| panic!("a chip naming the artist; got {chips:?}"));
    assert!(!chip.remove.contains("artist="), "{}", chip.remove);

    let chips = FilterQuery {
        artist: "   ".to_owned(),
        ..FilterQuery::default()
    }
    .active(&[]);
    assert!(chips.is_empty(), "got {chips:?}");
}

/// The letter, copies and added filters each show as a chip, and nonsense leaves none.
#[test]
fn the_letter_and_copies_filters_show_as_removable_chips() {
    let chip_for = |query: FilterQuery, kind: ChipKind, value: &str| {
        let chips = query.active(&[]);
        let found = chips
            .iter()
            .find(|chip| chip.kind == kind && chip.value == value)
            .unwrap_or_else(|| panic!("a {kind:?} chip reading {value:?}; got {chips:?}"));
        found.remove.clone()
    };

    for value in ["C", "0-9", "#"] {
        let remove = chip_for(
            FilterQuery { initial: value.to_owned(), ..FilterQuery::default() },
            ChipKind::Initial,
            value,
        );
        assert!(!remove.contains("initial="), "{remove}");
    }
    for value in ["1", "2-10", "10+", "2+"] {
        let remove = chip_for(
            FilterQuery { copies: value.to_owned(), ..FilterQuery::default() },
            ChipKind::Copies,
            value,
        );
        assert!(!remove.contains("copies="), "{remove}");
    }
    for value in ["1d", "7d", "30d", "30d+"] {
        let remove = chip_for(
            FilterQuery { added: value.to_owned(), ..FilterQuery::default() },
            ChipKind::Added,
            value,
        );
        assert!(!remove.contains("added="), "{remove}");
    }
    for query in [
        FilterQuery { initial: "ZZ".to_owned(), ..FilterQuery::default() },
        FilterQuery { copies: "lots".to_owned(), ..FilterQuery::default() },
    ] {
        assert!(query.active(&[]).is_empty());
    }
}

/// Both filed arms show as chips, and the retired spelling folds onto the one it meant.
#[test]
fn both_filed_filters_show_as_removable_chips() {
    for (value, shown) in [("in", "in"), ("1", "in"), ("out", "out")] {
        let query = FilterQuery {
            favorited: value.to_owned(),
            ..FilterQuery::default()
        };
        let chips = query.active(&[]);
        assert_eq!(chips.len(), 1, "{value:?}: {chips:?}");
        assert_eq!(chips[0].kind, ChipKind::Favorited);
        assert_eq!(chips[0].value, shown, "{value:?}");
        assert!(!chips[0].remove.contains("favorited"), "{:?}", chips[0]);
    }

    let old = FilterQuery::from_body("favorited=1").expect("read it");
    let rebuilt = old.rebuild(0, "", None);
    assert!(rebuilt.contains("favorited=in"), "{rebuilt}");
    assert!(!rebuilt.contains("favorited=1"), "{rebuilt}");
    assert_eq!(old.to_form(&[], &[]).favorited, "in");

    for nonsense in ["0", "yes", "either"] {
        let query = FilterQuery {
            favorited: nonsense.to_owned(),
            ..FilterQuery::default()
        };
        assert!(query.active(&[]).is_empty(), "{nonsense}");
    }
}

/// A link that drops one filter reads back as the filter without it, and writes the same link.
#[test]
fn a_link_with_one_filter_dropped_reads_back_without_it() {
    let original = FilterQuery {
        tags: "Rock, bossa,rock".to_owned(),
        add_tag: "Samba".to_owned(),
        ..query()
    };
    for dropped in ["", "q", "artist", "tags", "tag:rock", "favorited", "filename"] {
        let link = original.rebuild(0, dropped, None);
        let read = FilterQuery::from_body(&link).expect("a link reads back");
        assert_eq!(read.rebuild(0, "", None), link, "dropping {dropped:?}");
    }
    let paged = original.rebuild(100, "", Some(4200));
    let read = FilterQuery::from_body(&paged).expect("a paged link reads back");
    assert_eq!(read.rebuild(0, "", None), original.rebuild(0, "", None));
    assert_eq!(read.offset, Some(100));
    assert_eq!(read.total, Some(4200));
}

/// An added tag with a comma in it names no tag, so the link written for it reads back all the same.
#[test]
fn a_link_whose_added_tag_holds_a_comma_reads_back() {
    let original = FilterQuery { add_tag: "samba,bossa".to_owned(), ..query() };
    let link = original.rebuild(0, "", None);
    let read = FilterQuery::from_body(&link).expect("a link reads back");
    assert_eq!(read.rebuild(0, "", None), link);
    assert_eq!(read.to_form(&[], &[]), original.to_form(&[], &[]));
}
