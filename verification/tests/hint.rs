use km_package_builder::hint::{order, Key};

/// Every value here leaves room above it, so one test can raise each key in turn.
fn key(id: &str) -> Key {
    Key {
        id: id.to_owned(),
        suitability: Some(8),
        lyrics: Some(2),
        sync: Some(2),
        arrangement: Some(1),
        channel_count: Some(8),
        encoding_source: Some("detected".to_owned()),
        file_count: 1,
    }
}

type Decider = (&'static str, fn(&mut Key));

fn deciders() -> Vec<Decider> {
    vec![
        ("suitability", |k| k.suitability = Some(10)),
        ("lyrics", |k| k.lyrics = Some(3)),
        ("sync", |k| k.sync = Some(3)),
        ("arrangement", |k| k.arrangement = Some(2)),
        ("channels", |k| k.channel_count = Some(12)),
        ("encoding", |k| k.encoding_source = Some("declared".to_owned())),
        ("copies", |k| k.file_count = 4),
    ]
}

#[test]
fn each_key_in_turn_decides_when_everything_before_it_is_equal() {
    for (name, better) in deciders() {
        let mut winner = key("b-loses-on-id");
        better(&mut winner);
        let ordered = order(vec![key("a-wins-on-id"), winner]);
        assert_eq!(ordered[0], "b-loses-on-id", "{name} did not decide");
    }
}

#[test]
fn an_unmeasured_row_sorts_where_the_worst_measured_one_does_and_not_first() {
    let mut unmeasured = key("unmeasured");
    unmeasured.suitability = None;
    unmeasured.lyrics = None;
    unmeasured.sync = None;
    unmeasured.arrangement = None;
    unmeasured.channel_count = None;
    unmeasured.encoding_source = None;
    let ordered = order(vec![unmeasured, key("measured")]);
    assert_eq!(ordered, vec!["measured", "unmeasured"]);
}

#[test]
fn the_same_songs_give_the_same_order_whichever_way_they_arrive() {
    let one = key("aaa");
    let two = key("bbb");
    let three = key("ccc");
    let forwards = order(vec![one.clone(), two.clone(), three.clone()]);
    let backwards = order(vec![three, two, one]);
    assert_eq!(forwards, backwards);
    assert_eq!(forwards, vec!["aaa", "bbb", "ccc"]);
}

#[test]
fn a_guessed_encoding_loses_to_a_declared_one_and_to_valid_utf8() {
    let mut declared = key("declared");
    declared.encoding_source = Some("declared".to_owned());
    let mut utf8 = key("utf8");
    utf8.encoding_source = Some("utf8".to_owned());
    let mut fallback = key("fallback");
    fallback.encoding_source = Some("fallback".to_owned());
    let ordered = order(vec![fallback, utf8, declared]);
    assert_eq!(ordered, vec!["declared", "utf8", "fallback"]);
}

/// The law that the order ignores how the keys arrived, on every rearrangement of four.
#[test]
fn every_arrival_order_gives_one_answer() {
    let mut a = key("a");
    a.suitability = Some(9);
    let mut b = key("b");
    b.lyrics = None;
    let c = key("c");
    let mut d = key("d");
    d.file_count = 7;
    let all = [a, b, c, d];
    let expected = order(all.to_vec());
    let orders = [[0, 1, 2, 3], [3, 2, 1, 0], [1, 3, 0, 2], [2, 0, 3, 1]];
    for o in orders {
        let keys: Vec<Key> = o.iter().map(|&i| all[i].clone()).collect();
        assert_eq!(order(keys), expected);
    }
    assert_eq!(expected, vec!["a", "d", "c", "b"]);
}

#[test]
fn nothing_to_order_is_an_empty_order() {
    assert!(order(Vec::new()).is_empty());
}
