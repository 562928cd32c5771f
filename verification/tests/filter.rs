use km_package_builder::browse::FilterQuery;
use km_package_builder::filter::{
    tag_list, tags_with, AddedFilter, CopiesFilter, FavoritedFilter, Initial, LanguageFilter,
    ScoreFilter, SuitabilityFilter, VersionsFilter,
};
use km_package_builder::form::{parse_i64, parse_u32, Fields, NumberError};

#[test]
fn each_band_reads_back_from_its_spelling() {
    for f in [
        SuitabilityFilter::Any,
        SuitabilityFilter::High,
        SuitabilityFilter::Middle,
        SuitabilityFilter::Low,
    ] {
        assert_eq!(SuitabilityFilter::parse(f.as_str()), f);
    }
    assert_eq!(SuitabilityFilter::parse("9"), SuitabilityFilter::Any);
    for f in [
        CopiesFilter::Any,
        CopiesFilter::One,
        CopiesFilter::TwoToTen,
        CopiesFilter::MoreThanTen,
        CopiesFilter::AtLeastTwo,
    ] {
        assert_eq!(CopiesFilter::parse(f.as_str()), f);
    }
    for f in [
        AddedFilter::Any,
        AddedFilter::LastDay,
        AddedFilter::LastWeek,
        AddedFilter::LastMonth,
        AddedFilter::Older,
    ] {
        assert_eq!(AddedFilter::parse(f.as_str()), f);
    }
    assert_eq!(VersionsFilter::parse("all").as_str(), "all");
    assert_eq!(VersionsFilter::parse("ALL"), VersionsFilter::Collapsed);
}

/// The checkbox's `1` folds onto `in`, and is written as `in` from then on.
#[test]
fn the_retired_filed_spelling_folds_onto_in() {
    assert_eq!(FavoritedFilter::parse("1"), FavoritedFilter::In);
    assert_eq!(FavoritedFilter::parse("1").as_str(), "in");
    assert_eq!(FavoritedFilter::parse("out"), FavoritedFilter::Out);
    for nonsense in ["0", "yes", "either"] {
        assert_eq!(FavoritedFilter::parse(nonsense), FavoritedFilter::Any);
    }
    let old = FilterQuery::from_body("favorited=1").expect("read it");
    let rebuilt = old.rebuild(0, "", None);
    assert!(rebuilt.contains("favorited=in"), "{rebuilt}");
    assert_eq!(old.to_form(&[], &[]).favorited, "in");
}

/// A digit from the old ten-button strip folds onto `0-9`.
#[test]
fn a_single_digit_initial_folds_onto_the_number_button() {
    assert_eq!(Initial::parse("7"), Initial::Number);
    assert_eq!(Initial::parse("7").as_str(), "0-9");
    assert_eq!(Initial::parse("C").as_str(), "C");
    assert_eq!(Initial::parse("c").as_str(), "C");
    assert_eq!(Initial::parse("#"), Initial::Symbol);
    assert_eq!(Initial::parse("ZZ"), Initial::Any);
    let q = FilterQuery {
        initial: "7".to_owned(),
        ..FilterQuery::default()
    };
    assert!(q.rebuild(0, "", None).contains("initial=0-9"));
}

#[test]
fn languages_and_scores_read_their_own_shapes() {
    assert_eq!(LanguageFilter::parse("ja").as_str(), "ja");
    assert_eq!(LanguageFilter::parse("unset").as_str(), "unset");
    assert_eq!(LanguageFilter::parse("set").as_str(), "set");
    assert_eq!(LanguageFilter::parse("Klingon"), LanguageFilter::Any);
    assert_eq!(LanguageFilter::parse("JA"), LanguageFilter::Any);
    assert_eq!(ScoreFilter::parse("7").as_str(), "7");
    assert_eq!(ScoreFilter::parse("+7").as_str(), "7");
    assert_eq!(ScoreFilter::parse("11"), ScoreFilter::Any);
    assert_eq!(ScoreFilter::parse("set").as_str(), "set");
    assert_eq!(ScoreFilter::parse("unset").as_str(), "unset");
    assert_eq!(ScoreFilter::parse("x").as_str(), "");
}

#[test]
fn tags_are_folded_sorted_and_each_held_once() {
    assert_eq!(tag_list("rock, Brasil,,rock"), vec!["brasil", "rock"]);
    assert_eq!(tag_list(""), Vec::<String>::new());
    assert_eq!(tags_with("rock,brasil", "Bossa"), vec!["bossa", "brasil", "rock"]);
    assert_eq!(tags_with("rock", "rock"), vec!["rock"]);
    assert_eq!(tags_with("rock", "  "), vec!["rock"]);
}

/// A chip's ✕ on one tag takes off that tag and no other.
#[test]
fn one_tag_comes_off_and_the_others_stay() {
    let q = FilterQuery {
        tags: "rock,brasil".to_owned(),
        add_tag: "bossa".to_owned(),
        ..FilterQuery::default()
    };
    assert!(q.rebuild(0, "", None).contains("tags=bossa%2Cbrasil%2Crock"));
    assert!(q.without("tag:brasil").contains("tags=bossa%2Crock"));
    assert!(!q.without("tags").contains("tags="));
    assert!(!q.rebuild(0, "", None).contains("add_tag"));
}

#[test]
fn numbers_read_as_std_reads_them() {
    assert_eq!(parse_u32("42"), Ok(42));
    assert_eq!(parse_u32("+42"), Ok(42));
    assert_eq!(parse_u32("4294967295"), Ok(u32::MAX));
    assert_eq!(parse_u32("4294967296"), Err(NumberError::TooLarge));
    assert_eq!(parse_u32(""), Err(NumberError::Empty));
    assert_eq!(parse_u32("-1"), Err(NumberError::InvalidDigit));
    assert_eq!(parse_u32("+"), Err(NumberError::InvalidDigit));
    assert_eq!(parse_u32("1x"), Err(NumberError::InvalidDigit));
    for text in ["42", "+42", "4294967295", "4294967296", "", "-1", "+", "1x", "007"] {
        assert_eq!(parse_u32(text).ok(), text.parse::<u32>().ok(), "{text}");
    }
    for text in ["42", "-42", "+42", "9223372036854775807", "-9223372036854775808",
                 "9223372036854775808", "-9223372036854775809", "", "-", "+", "4a"] {
        assert_eq!(parse_i64(text), text.parse::<i64>().ok(), "{text}");
    }
}

/// A number that does not read is an error, worded as the parser words it.
#[test]
fn an_unreadable_offset_is_refused_and_says_why() {
    let error = FilterQuery::from_body("offset=abc").expect_err("refused");
    assert_eq!(
        error,
        "could not read the filter from the form: invalid digit found in string"
    );
    let error = FilterQuery::from_body("offset=&tags=x").expect_err("refused");
    assert_eq!(
        error,
        "could not read the filter from the form: cannot parse integer from empty string"
    );
    let error = FilterQuery::from_body("tags=a&tags=b").expect_err("refused");
    assert_eq!(error, "could not read the filter from the form: duplicate field `tags`");
    let read = FilterQuery::from_body("offset=150&total=4200").expect("read it");
    assert_eq!(read.offset, Some(150));
    assert_eq!(read.total, Some(4200));
}

#[test]
fn the_first_value_under_a_key_is_the_one_read() {
    let fields = Fields::parse("title=A&title=B&song_id=1&song_id=2&flag=");
    assert_eq!(fields.one("title"), Some("A"));
    assert_eq!(fields.text("missing"), "");
    assert!(fields.has("flag"));
    assert!(!fields.has("missing"));
    assert_eq!(fields.all("song_id"), vec!["1", "2"]);
}

#[test]
fn a_text_with_a_comma_names_no_tag() {
    assert_eq!(tags_with("rock", "samba,bossa"), vec!["rock"]);
    assert_eq!(tags_with("", " , "), Vec::<String>::new());
}
