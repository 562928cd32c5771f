use km_package_builder::browse::FilterQuery;
use km_package_builder::form::Fields;
use km_package_builder::requests::{
    add_says, marks_for, parse_replace_slot, replace_slot, were, without_page, Added, BulkAction,
    LyricQuery, Redraw, ReplyQuery, SimilarNarrowing, SimilarQuery, VolumeQuery,
};

/// The last number a singer can dial.
const HIGHEST: u32 = 999;

#[test]
fn a_slot_reads_back_as_the_package_and_volume() {
    let slot = replace_slot("brasil#1", 3);
    assert_eq!(slot, "3#brasil#1");
    assert_eq!(parse_replace_slot(&slot), Some(("brasil#1".to_owned(), 3)));
    assert_eq!(parse_replace_slot("0#brasil"), None);
    assert_eq!(parse_replace_slot("2#"), None);
    assert_eq!(parse_replace_slot("brasil"), None);
    assert_eq!(parse_replace_slot("x#brasil"), None);
}

#[test]
fn the_page_comes_off_and_nothing_else_does() {
    assert_eq!(without_page("q=a&offset=50&total=9"), "q=a&total=9");
    assert_eq!(without_page("offset=50"), "");
    assert_eq!(without_page("q=offset%3D1"), "q=offset%3D1");
}

#[test]
fn a_hint_change_sends_new_numbers_and_clears_the_lost_ones() {
    let hinted = vec!["b".to_owned(), "c".to_owned()];
    let previous = vec!["a".to_owned(), "b".to_owned()];
    let marks = marks_for(&hinted, &previous).marks;
    assert_eq!(
        marks,
        vec![
            ("b".to_owned(), "1".to_owned()),
            ("c".to_owned(), "2".to_owned()),
            ("a".to_owned(), String::new()),
        ]
    );
}

#[test]
fn a_count_of_one_was_and_others_were() {
    assert_eq!(were(1), "was");
    assert_eq!(were(0), "were");
    assert_eq!(were(2), "were");
}

#[test]
fn an_absent_or_zero_volume_is_the_first() {
    assert_eq!(VolumeQuery { volume: None }.number(), 1);
    assert_eq!(VolumeQuery { volume: Some(0) }.number(), 1);
    assert_eq!(VolumeQuery { volume: Some(3) }.number(), 3);
}

#[test]
fn a_lyric_search_pages_with_one_field() {
    let q = LyricQuery { q: "quiet nights".to_owned(), offset: Some(25) };
    assert_eq!(q.with_offset(50), "q=quiet+nights&offset=50");
    assert_eq!(q.with_offset(0), "q=quiet+nights");
    let search = q.to_search();
    assert_eq!(search.limit, 25);
    assert_eq!(search.offset, 25);
}

fn remembered() -> SimilarNarrowing {
    SimilarNarrowing {
        suitability: "5-7".to_owned(),
        kind: "midi".to_owned(),
        granularity: String::new(),
        copies: "1".to_owned(),
        versions: String::new(),
    }
}

#[test]
fn a_link_naming_no_narrowing_takes_the_remembered_one() {
    let link = SimilarQuery::from_fields(&Fields::parse("title=Wave"));
    // The bar's selects always send their fields, so a body is always the bar speaking.
    assert!(link.suitability.is_some());
    let bare = SimilarQuery {
        title: "Wave".to_owned(),
        artist: String::new(),
        from: String::new(),
        suitability: None,
        kind: None,
        granularity: None,
        copies: None,
        versions: None,
    };
    let (narrowed, keep) = bare.narrowed(remembered());
    assert!(keep.is_none());
    assert_eq!(narrowed.suitability(), "5-7");
    assert_eq!(narrowed.kind(), "midi");
    assert_eq!(narrowed.title, "Wave");

    let spoken = SimilarQuery::from_fields(&Fields::parse("title=Wave&suitability=8-10&versions=all"));
    let (narrowed, keep) = spoken.narrowed(remembered());
    let keep = keep.expect("the bar spoke");
    assert_eq!(keep.suitability, "8-10");
    assert_eq!(keep.versions, "all");
    assert_eq!(narrowed.suitability(), "8-10");
    assert_eq!(narrowed.to_form().suitability, "8-10");
    assert_eq!(narrowed.to_form().versions, "all");
}

#[test]
fn a_titles_action_redraws_what_it_was_asked_to() {
    let hits = ReplyQuery { reply_as: Some("hits".to_owned()) };
    assert!(matches!(Redraw::from_body(&hits, "title=Wave"), Ok(Redraw::Hits(_))));
    let rows = ReplyQuery::default();
    match Redraw::from_body(&rows, "q=jobim&offset=50") {
        Ok(Redraw::Rows(q)) => assert_eq!(q.q, "jobim"),
        other => panic!("{other:?}"),
    }
    assert!(Redraw::from_body(&rows, "q=a&q=b").is_err());
    let _ = FilterQuery::default();
}

/// An add names the reason a song did not go in, because the reasons have different remedies.
#[test]
fn an_add_names_the_reason_a_song_did_not_go_in() {
    let all_in = add_says(&Added { added: 3, ..Default::default() }, HIGHEST);
    assert_eq!(all_in, (true, "Added 3.".to_owned()));

    let one_there = add_says(&Added { added: 1, already: 1, ..Default::default() }, HIGHEST).1;
    assert!(one_there.contains("1 was already in it."), "{one_there}");
    let two_there = add_says(&Added { added: 1, already: 2, ..Default::default() }, HIGHEST).1;
    assert!(two_there.contains("2 were already in it."), "{two_there}");

    let no_room = add_says(&Added { added: 1, no_room: 2, ..Default::default() }, HIGHEST).1;
    assert!(no_room.contains("2 did not fit."), "{no_room}");
    assert!(no_room.contains("Re-flow"), "{no_room}");
    assert!(!no_room.contains("already in it"), "{no_room}");

    let full = add_says(&Added { no_room: 1, full: true, ..Default::default() }, HIGHEST).1;
    assert!(full.contains("is full."), "{full}");
    assert!(!full.contains("Re-flow"), "{full}");

    let both = add_says(
        &Added { added: 2, already: 1, clashed: 1, ..Default::default() },
        HIGHEST,
    )
    .1;
    assert!(both.contains("1 was already in it."), "{both}");
    assert!(both.contains("1 of them is another file"), "{both}");
}

/// A batch that placed nothing reads as a failure, whatever the sentence says.
#[test]
fn a_batch_that_placed_nothing_reads_as_a_failure() {
    assert!(!add_says(&Added { no_room: 2, ..Default::default() }, HIGHEST).0);
    assert!(!add_says(&Added { already: 2, ..Default::default() }, HIGHEST).0);
    assert!(add_says(&Added { added: 1, no_room: 1, ..Default::default() }, HIGHEST).0);
}

#[test]
fn an_add_says_the_highest_number_and_every_clause_in_order() {
    let (ok, text) = add_says(
        &Added { added: 4, already: 1, no_room: 2, full: false, clashed: 2 },
        HIGHEST,
    );
    assert!(ok);
    assert_eq!(
        text,
        "Added 4. 1 was already in it. 2 did not fit. This package's numbers already reach 999, \
         the last one a singer can dial. Give it a lower first number on its own page and press \
         Re-flow, which moves every song down and frees the numbers above. 2 of them are another \
         file of a song this package already had \u{2014} kept, because two takes of one song can \
         be two songs."
    );
    let full = add_says(&Added { no_room: 1, full: true, ..Default::default() }, HIGHEST).1;
    assert_eq!(
        full,
        "Added 0. 1 did not fit. A volume holds 999 songs and this package's last one is full. \
         Source the package from favorites and a sync starts the next volume."
    );
}

#[test]
fn a_first_pass_reads_the_bar_and_a_confirmed_one_the_counted_set() {
    let body = "q=rock&scope=matching&song_id=a&song_id=b";
    let first = BulkAction::from_parts(FilterQuery::default(), false, body).expect("the bar reads");
    assert_eq!(first.query.q, "rock");
    assert!(first.whole_filter);
    assert_eq!(first.ticked, vec!["a".to_owned(), "b".to_owned()]);
    assert!(!first.confirmed);
    assert_eq!(first.form.one("scope"), Some("matching"));

    let counted = FilterQuery { q: "jazz".to_owned(), ..FilterQuery::default() };
    let confirmed = BulkAction::from_parts(counted, true, "q=rock&song_id=c").expect("confirmed");
    assert_eq!(confirmed.query.q, "jazz");
    assert!(!confirmed.whole_filter);
    assert_eq!(confirmed.ticked, vec!["c".to_owned()]);

    let refused = BulkAction::from_parts(FilterQuery::default(), false, "q=a&q=b");
    assert!(refused.is_err());
    let counted_anyway = BulkAction::from_parts(FilterQuery::default(), true, "q=a&q=b");
    assert!(counted_anyway.is_ok());
}
