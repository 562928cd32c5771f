use std::collections::HashSet;

use km_package_builder::lyric::{match_query, probe_words, probes, Shingles, PROBES, SHINGLE};

/// One run of kept lines, as the word runs of a lyric come: its folded words in order.
fn run(words: &[String]) -> Vec<String> {
    words.to_vec()
}

fn numbered(count: usize) -> Vec<String> {
    (0..count).map(|nth| format!("word{nth}")).collect()
}

/// The floor a caller asks for, below which a lyric is not compared.
const FLOOR: usize = 20;

#[test]
fn the_rarest_phrase_of_a_stretch_is_the_one_asked_for() {
    let words = numbered(30);
    let phrases = probes(&[run(&words)], FLOOR);
    assert_eq!(phrases[0].join(" "), "word0 word1 word2");
    assert_eq!(phrases[1].join(" "), "word1 word2 word3");

    let held_by: Vec<(String, u64)> = probe_words(&phrases)
        .into_iter()
        .map(|word| {
            let rare = word == "word3";
            (word, if rare { 1 } else { 9_000 })
        })
        .collect();
    let query = match_query(&phrases, &held_by).expect("enough words");
    assert!(
        query.starts_with("\"word1 word2 word3\""),
        "the stretch took its commoner phrase: {query}"
    );
}

#[test]
fn a_stretch_of_equally_common_phrases_takes_its_first() {
    let words = numbered(30);
    let query = match_query(&probes(&[run(&words)], FLOOR), &[]).expect("enough words");
    assert!(query.starts_with("\"word0 word1 word2\""), "{query}");
}

#[test]
fn a_short_song_asks_for_every_stretch_it_has() {
    let words = numbered(FLOOR);
    let query = match_query(&probes(&[run(&words)], FLOOR), &[]).expect("just over the floor");
    let terms: Vec<&str> = query.split(" OR ").collect();
    let unique: HashSet<&&str> = terms.iter().collect();
    assert_eq!(terms.len(), unique.len(), "{query}");
    assert!(terms.len() <= PROBES);
}

#[test]
fn too_few_words_ask_for_nothing() {
    let words: Vec<String> = ["la", "la", "la"].iter().map(|w| w.to_string()).collect();
    assert!(probes(&[run(&words)], FLOOR).is_empty());
    assert!(match_query(&probes(&[run(&words)], FLOOR), &[]).is_none());
}

#[test]
fn no_phrase_spans_two_runs() {
    let first: Vec<String> = ["she", "walked", "in", "from", "the", "rain"]
        .iter()
        .map(|w| w.to_string())
        .collect();
    let second = numbered(24);
    let phrases = probes(&[run(&first), run(&second)], FLOOR);
    assert!(!phrases.is_empty());
    for phrase in &phrases {
        assert_eq!(phrase.len(), SHINGLE);
        assert!(!phrase.join(" ").contains("rain word0"), "{phrase:?}");
    }
}

#[test]
fn a_repeated_phrase_is_offered_once() {
    let chorus: Vec<String> = ["and", "we", "danced", "all", "night"]
        .iter()
        .map(|w| w.to_string())
        .collect();
    let verse = numbered(20);
    let phrases = probes(&[run(&verse), run(&chorus), run(&chorus), run(&chorus)], FLOOR);
    let unique: HashSet<String> = phrases.iter().map(|p| p.join(" ")).collect();
    assert_eq!(unique.len(), phrases.len());
    let query = match_query(&phrases, &[]).expect("a query");
    let terms: Vec<&str> = query.split(" OR ").collect();
    let unique_terms: HashSet<&str> = terms.iter().copied().collect();
    assert_eq!(terms.len(), unique_terms.len(), "{query}");
    assert_eq!(terms.len(), PROBES);
}

#[test]
fn a_quote_in_a_word_is_taken_out_of_its_term() {
    let words: Vec<String> = ["a\"b", "c", "d"].iter().map(|w| w.to_string()).collect();
    let query = match_query(&[words], &[]).expect("one phrase");
    assert_eq!(query, "\"ab c d\"");
}

#[test]
fn no_phrases_is_no_query() {
    assert!(match_query(&[], &[]).is_none());
}

#[test]
fn the_words_asked_about_are_each_named_once() {
    let phrases = probes(&[run(&numbered(30))], FLOOR);
    let words = probe_words(&phrases);
    let unique: HashSet<&String> = words.iter().collect();
    assert_eq!(words.len(), unique.len());
    assert_eq!(words.len(), 30);
}

/// Verses enough to clear the floor, in lines nothing drops.
fn verses(count: usize) -> String {
    (0..count)
        .map(|nth| {
            format!(
                "she walked in from the rain number {nth}\n\
                 and nobody knew her name at all {nth}\n\
                 the band played on until the morning {nth}"
            )
        })
        .collect::<Vec<_>>()
        .join("\n")
}

/// The runs of kept lines these fixtures make: every line is kept but a sequencer's card, which
/// ends one run and starts the next, and the words are folded to lower case.
fn runs_of(lyrics: &str) -> Vec<Vec<String>> {
    let mut runs = vec![Vec::new()];
    for line in lyrics.lines() {
        if line.starts_with("Sequenced by") {
            runs.push(Vec::new());
            continue;
        }
        for word in line.split_whitespace() {
            let folded: String = word
                .chars()
                .filter(|c| c.is_alphanumeric())
                .flat_map(|c| c.to_lowercase())
                .collect();
            if !folded.is_empty() {
                runs.last_mut().unwrap().push(folded);
            }
        }
    }
    runs.retain(|run| !run.is_empty());
    runs
}

/// The whole query for a lyric, with nothing known about how rare any word is.
fn query_for(lyrics: &str) -> Option<String> {
    match_query(&probes(&runs_of(lyrics), FLOOR), &[])
}

#[test]
fn no_phrase_crosses_a_dropped_line() {
    let lyrics = format!(
        "she walked in from the rain\n\
         Sequenced by Somebody, 123 Any Street, Anytown\n\
         {}",
        verses(4)
    );
    let phrases = probes(&runs_of(&lyrics), FLOOR);
    assert!(!phrases.is_empty());
    for phrase in &phrases {
        let joined = phrase.join(" ");
        assert!(
            !joined.contains("rain she"),
            "a phrase spanned the dropped line: {joined}"
        );
    }
}

#[test]
fn the_query_is_phrases_the_index_can_answer() {
    let query = query_for(&verses(5)).expect("enough words");
    assert!(query.starts_with('"'), "{query}");
    assert_eq!(
        query.matches(" OR ").count(),
        PROBES - 1,
        "a song this long has a phrase to spare for each stretch: {query}"
    );
    for term in query.split(" OR ") {
        assert_eq!(term.trim_matches('"').split(' ').count(), SHINGLE, "{term}");
    }
}

#[test]
fn the_phrases_are_spread_across_the_song() {
    let query = query_for(&verses(5)).expect("enough words");
    let tail = verses(5);
    let tail: String = tail.lines().skip(3).collect::<Vec<_>>().join(" ");
    let still_there = query
        .split(" OR ")
        .filter(|term| tail.contains(term.trim_matches('"')))
        .count();
    assert!(
        still_there >= PROBES / 2,
        "a file missing its first verse matched only {still_there} phrases"
    );
}

#[test]
fn a_repeated_chorus_is_asked_for_once() {
    let chorus = "and the band played on and on forever more tonight";
    let with_repeats = format!("{}\n{chorus}\n{chorus}\n{chorus}", verses(4));
    let query = query_for(&with_repeats).expect("enough words");
    let terms: Vec<&str> = query.split(" OR ").collect();
    let unique: HashSet<&str> = terms.iter().copied().collect();
    assert_eq!(terms.len(), unique.len(), "{query}");
}

#[test]
fn too_few_words_have_no_runs_to_compare() {
    assert!(Shingles::of(None).is_none());
}

#[test]
fn a_song_shares_every_run_with_itself_and_a_chorus_is_one_run() {
    let words = numbered(10);
    let mine = Shingles::of(Some(&words)).expect("words");
    assert_eq!(mine.len(), 8);
    assert_eq!(mine.overlap(&mine), (8, 8));

    let mut sung_twice = numbered(10);
    sung_twice.extend(numbered(10));
    let twice = Shingles::of(Some(&sung_twice)).expect("words");
    // The wrap from the last word back to the first makes two more runs, and no repeat counts.
    assert_eq!(twice.len(), 10);
    assert_eq!(mine.overlap(&twice), (8, 10));

    let other: Vec<String> = (0..10).map(|nth| format!("other{nth}")).collect();
    let theirs = Shingles::of(Some(&other)).expect("words");
    assert_eq!(mine.overlap(&theirs), (0, 16));

    let short = Shingles::of(Some(&numbered(2))).expect("a list, however short");
    assert_eq!(short.len(), 0);
}
