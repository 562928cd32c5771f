use km_package_builder::model::{
    encode, format_duration, language_name, nicest_path, score_text, similar_url, song_language,
    tidied, tidy,
    words_url, youtube_query,
    CdgFacts, PackageRow, ScanStatus, SongKind, SongRow, VideoFacts,
};

#[test]
fn a_song_with_an_artist_is_always_searchable() {
    assert_eq!(
        youtube_query("CORCOVAD", Some("Tom Jobim"), "x/CORCOVAD.kar").as_deref(),
        Some("Tom Jobim CORCOVAD")
    );
}

#[test]
fn a_title_that_is_only_the_filename_is_not_worth_searching_for() {
    assert!(youtube_query("CORCOVAD", None, "x/CORCOVAD.kar").is_none());
    assert!(youtube_query("AMD0123", None, "x/other.kar").is_none());
    assert!(youtube_query("", None, "x/other.kar").is_none());
}

#[test]
fn a_real_title_is_searchable_without_an_artist() {
    assert_eq!(
        youtube_query("Águas de Março", None, "x/AGUAS.kar").as_deref(),
        Some("Águas de Março")
    );
    assert_eq!(
        youtube_query("Corcovado", None, "x/CORCOVAD.kar").as_deref(),
        Some("Corcovado")
    );
}

#[test]
fn an_empty_artist_does_not_rescue_a_filename_title() {
    assert!(youtube_query("CORCOVAD", Some("   "), "x/CORCOVAD.kar").is_none());
}

#[test]
fn queries_are_percent_encoded() {
    assert_eq!(encode("Tom Jobim"), "Tom+Jobim");
    assert_eq!(encode("Águas"), "%C3%81guas");
    assert_eq!(encode("a&b=c"), "a%26b%3Dc");
}

#[test]
fn a_path_that_does_not_exist_is_shown_as_it_came() {
    let path = "/definitely/not/here";
    assert_eq!(tidy(path), path);
}

#[test]
fn the_prettiest_of_several_copies_is_the_one_worth_showing() {
    assert_eq!(
        nicest_path("new3/karaoke1/CORCOVAD.KAR\nBrasil/Corcovado - Tom Jobim.kar"),
        "Brasil/Corcovado - Tom Jobim.kar"
    );
    assert_eq!(
        nicest_path("Brasil/Corcovado - Tom Jobim.kar\nnew3/karaoke1/CORCOVAD.KAR"),
        "Brasil/Corcovado - Tom Jobim.kar"
    );
    assert_eq!(nicest_path("x/00123.mid\ny/Rosinha.mid"), "y/Rosinha.mid");
}

#[test]
fn one_copy_is_its_own_best_copy_and_none_is_empty() {
    assert_eq!(nicest_path("only/ONE.KAR"), "only/ONE.KAR");
    assert_eq!(nicest_path(""), "");
}

#[test]
fn equally_shaped_names_break_the_tie_the_same_way_every_time() {
    let paths = "deep/nested/folder/Some Song.kar\na/Some Song.kar";
    assert_eq!(nicest_path(paths), "a/Some Song.kar");
    let reversed = "a/Some Song.kar\ndeep/nested/folder/Some Song.kar";
    assert_eq!(nicest_path(reversed), "a/Some Song.kar");
}

#[test]
fn an_unset_score_shows_as_nothing_at_all() {
    assert_eq!(score_text(None), "");
    assert_eq!(score_text(Some(0)), "0");
    assert_eq!(score_text(Some(10)), "10");
}

#[test]
fn durations_read_as_minutes_and_seconds() {
    assert_eq!(format_duration(0), "—");
    assert_eq!(format_duration(65_000), "1:05");
    assert_eq!(format_duration(203_800), "3:23");
}

#[test]
fn an_unfamiliar_scan_status_is_a_failure_not_a_success() {
    assert_eq!(ScanStatus::from_str("ok"), ScanStatus::Parsed);
    assert_eq!(ScanStatus::from_str("not_midi"), ScanStatus::NotMidi);
    assert_eq!(ScanStatus::from_str("something new"), ScanStatus::Panicked);
}

// -- further cases -----------------------------------------------------------------------

#[test]
fn every_scan_status_reads_back_from_its_spelling() {
    for status in [
        ScanStatus::Parsed,
        ScanStatus::NotMidi,
        ScanStatus::Panicked,
    ] {
        assert_eq!(ScanStatus::from_str(status.as_str()), status);
    }
    assert_eq!(ScanStatus::Parsed.as_str(), "ok");
}

#[test]
fn every_kind_reads_back_from_its_spelling() {
    for kind in [SongKind::Midi, SongKind::Video, SongKind::Cdg, SongKind::UltraStar] {
        assert_eq!(SongKind::from_str(kind.as_str()), kind);
        assert_eq!(SongKind::filter(kind.as_str()), Some(kind));
    }
    assert_eq!(SongKind::filter(""), None);
    assert_eq!(SongKind::filter("karaoke"), None);
}

#[test]
fn the_verbatim_prefix_comes_off_a_resolved_path() {
    assert_eq!(
        tidied("x", Some("\\\\?\\C:\\tunes".to_owned())),
        "C:\\tunes"
    );
    assert_eq!(tidied("x", Some("/tunes".to_owned())), "/tunes");
    assert_eq!(tidied("relative/x", None), "relative/x");
}

#[test]
fn a_words_link_carries_only_the_encoded_id() {
    assert_eq!(words_url("a b&c"), "/similar-words?from=a+b%26c");
}

#[test]
fn a_picture_size_reads_width_by_height() {
    let video = VideoFacts {
        width: 1920,
        height: 1080,
        frame_rate_milli: 29970,
        video_codec: "h264".to_owned(),
        audio_codec: "aac".to_owned(),
    };
    assert_eq!(video.resolution(), "1920x1080");
}

#[test]
fn a_whole_frame_rate_has_no_fraction_and_a_fractional_one_is_left_to_the_float() {
    let mut video = VideoFacts {
        width: 640,
        height: 480,
        frame_rate_milli: 25000,
        video_codec: "h264".to_owned(),
        audio_codec: "aac".to_owned(),
    };
    assert_eq!(video.whole_frame_rate(), Some("25".to_owned()));
    video.frame_rate_milli = 0;
    assert_eq!(video.whole_frame_rate(), Some("0".to_owned()));
    video.frame_rate_milli = 29970;
    assert_eq!(video.whole_frame_rate(), None);
}

#[test]
fn durations_under_a_minute_and_over_an_hour() {
    assert_eq!(format_duration(999), "0:00");
    assert_eq!(format_duration(59_999), "0:59");
    assert_eq!(format_duration(3_600_000), "60:00");
}

#[test]
fn a_package_name_is_numbered_once_it_has_two_volumes() {
    let mut row = PackageRow::new("a1b2c3", "Brasil");
    assert_eq!(row.id, "a1b2c3");
    assert_eq!(row.version, "1.0.0");
    assert_eq!(row.volume_name(), "Brasil", "one volume is just the name");
    row.number_one_volume = true;
    assert_eq!(row.volume_name(), "Brasil vol1");
    row.number_one_volume = false;
    row.volumes = 3;
    row.volume = 2;
    row.volume_format = "- part {n} of {n}".to_owned();
    assert_eq!(row.volume_name(), "Brasil - part 2 of 2");
}

fn pair(graphics_ms: u32, graphics_short_by_ms: u32) -> CdgFacts {
    CdgFacts {
        graphics_path: "a/b.cdg".to_owned(),
        sample_rate: 44_100,
        channels: 2,
        packets: 1000,
        graphics_ms,
        graphics_short_by_ms,
        tiles_written: 10,
        unknown_instructions: 0,
    }
}

/// The whole seconds are what `{:.0}` writes of the seconds as a float, halves included.
#[test]
fn the_graphics_summary_rounds_as_a_float_would() {
    for ms in [0u32, 499, 500, 1_500, 2_500, 182_499, 182_500, 183_500, 183_501, 999_999] {
        let seconds = f64::from(ms) / 1000.0;
        assert_eq!(pair(ms, 0).graphics_summary(), format!("{seconds:.0}s, to the end"), "{ms}");
    }
    for short in [1u32, 500, 1_500, 59_999] {
        let early = f64::from(short) / 1000.0;
        assert_eq!(
            pair(200_000, short).graphics_summary(),
            format!("200s, stopping {early:.0}s early"),
            "{short}"
        );
    }
    assert_eq!(
        pair(120_000, 60_000).graphics_summary(),
        "120s, stopping 60s early — suspect a mispairing"
    );
}

fn row_with_paths(path: &str, paths: &str) -> SongRow {
    SongRow {
        id: "abc123".to_owned(),
        title: "Corcovado".to_owned(),
        artist: None,
        language: Some("pt".to_owned()),
        tags: Vec::new(),
        hint: None,
        artist_title: String::new(),
        melody_title: String::new(),
        versions_title: String::new(),
        favorite_title: String::new(),
        path_said: String::new(),
        likeness_percent: None,
        searched_from: false,
        edited: false,
        duration_ms: 200_000,
        suitability: Some(8),
        kind: SongKind::Midi,
        user_score: None,
        favorite_count: 0,
        permanent_count: 0,
        melody_channel: None,
        file_count: 1,
        version_count: 1,
        duplicate_of: None,
        has_words: false,
        path: path.to_owned(),
        paths: paths.to_owned(),
        from_filename: false,
    }
}

#[test]
fn the_file_name_is_the_prettiest_copys_name_without_its_folders() {
    let song = row_with_paths(
        "new3/karaoke1/CORCOVAD.KAR",
        "new3/karaoke1/CORCOVAD.KAR\nBrasil/Corcovado - Tom Jobim.kar",
    );
    assert_eq!(song.file_name(), "Corcovado - Tom Jobim.kar");
    assert!(song.file_name().ends_with(".kar"));
}

#[test]
fn a_file_at_the_root_is_its_own_name() {
    let song = row_with_paths("CORCOVAD.KAR", "CORCOVAD.KAR");
    assert_eq!(song.file_name(), "CORCOVAD.KAR");
}

#[test]
fn a_row_with_no_copies_listed_falls_back_to_its_one_path() {
    let song = row_with_paths("a/b/Rosinha.mid", "");
    assert_eq!(song.file_name(), "Rosinha.mid");
}

#[test]
fn a_backslash_is_an_ordinary_character_in_a_stored_path() {
    let song = row_with_paths("odd/AC\\DC - Jailbreak.kar", "");
    assert_eq!(song.file_name(), "AC\\DC - Jailbreak.kar");
}

#[test]
fn a_row_says_its_likeness_as_a_rounded_percentage() {
    let mut song = row_with_paths("a.kar", "");
    assert_eq!(song.likeness_text(), "");
    assert!(!song.likeness_is_high());
    song.likeness_percent = Some(90);
    assert_eq!(song.likeness_text(), "90%");
    assert!(!song.likeness_is_high());
    song.likeness_percent = Some(91);
    assert!(song.likeness_is_high());
}

#[test]
fn a_row_shows_its_language_place_and_score_as_text() {
    let mut song = row_with_paths("a.kar", "");
    assert_eq!(song.language_text(), "pt");
    assert_eq!(song.hint_text(), "");
    assert_eq!(song.user_score_text(), "");
    assert_eq!(song.duration(), "3:20");
    song.language = None;
    song.hint = Some(7);
    song.user_score = Some(9);
    assert_eq!(song.language_text(), "");
    assert_eq!(song.hint_text(), "7");
    assert_eq!(song.user_score_text(), "9");
}

#[test]
fn a_row_links_its_artist_words_and_a_search() {
    let mut song = row_with_paths("x/CORCOVAD.kar", "");
    assert_eq!(song.artist_url(), "");
    assert_eq!(song.words_url(), "");
    assert!(song.searchable());
    song.artist = Some("  Tom Jobim ".to_owned());
    song.has_words = true;
    assert_eq!(song.artist_url(), "/songs?artist=Tom+Jobim");
    assert_eq!(song.words_url(), "/similar-words?from=abc123");
    assert_eq!(
        song.youtube_url(),
        "https://www.youtube.com/results?search_query=Tom+Jobim+Corcovado"
    );
    song.artist = Some("   ".to_owned());
    assert_eq!(song.artist_url(), "");
}

/// The whole percentage a row carries for a likeness, rounded to the nearest.
fn percent_of(likeness: f32) -> Option<u32> {
    Some((likeness * 100.0).round() as u32)
}

/// Green means more than nine in ten, and a row off the similar-names list says nothing.
#[test]
fn the_likeness_is_a_percentage_and_green_above_ninety() {
    let mut row = row_with_paths("a/X.kar", "a/X.kar");
    assert_eq!(row.likeness_text(), "");
    assert!(!row.likeness_is_high());

    row.likeness_percent = percent_of(0.904);
    assert_eq!(row.likeness_text(), "90%");
    assert!(!row.likeness_is_high());

    row.likeness_percent = percent_of(0.912);
    assert_eq!(row.likeness_text(), "91%");
    assert!(row.likeness_is_high());
}

#[test]
fn a_similar_names_link_carries_the_trimmed_names_and_the_id() {
    assert_eq!(
        similar_url(" Corcovado ", " Tom Jobim ", "abc 123", true),
        "/similar?title=Corcovado&artist=Tom+Jobim&from=abc+123"
    );
    assert_eq!(
        similar_url("Corcovado", "   ", "abc", true),
        "/similar?title=Corcovado&from=abc"
    );
    assert_eq!(similar_url("Corcovado", "Tom Jobim", "abc", false), "");

    let mut row = row_with_paths("a.kar", "");
    assert_eq!(row.similar_url(true), "/similar?title=Corcovado&from=abc123");
    row.artist = Some("Jobim".to_owned());
    assert_eq!(row.similar_url(true), "/similar?title=Corcovado&artist=Jobim&from=abc123");
    assert_eq!(row.similar_url(false), "");
}

#[test]
fn a_language_is_named_by_the_table_or_shown_as_stored() {
    assert_eq!(language_name(None, Some("Portuguese")), "");
    assert_eq!(language_name(Some("pt"), Some("Portuguese")), "Portuguese");
    assert_eq!(language_name(Some("xx-later"), None), "xx-later");

    let mut row = row_with_paths("a.kar", "");
    assert_eq!(row.language_name(Some("Portuguese")), "Portuguese");
    assert_eq!(row.language_name(None), "pt");
    row.language = None;
    assert_eq!(row.language_name(Some("Portuguese")), "");
}

#[test]
fn a_row_offers_its_language_to_the_picker() {
    let mut row = row_with_paths("a.kar", "");
    assert_eq!(song_language(&row), Some("pt"));
    row.language = None;
    assert_eq!(song_language(&row), None);
}

#[test]
fn copies_that_tie_on_shape_and_length_break_the_tie_on_the_path() {
    let forward = nicest_path("b/Some Song.kar\na/Some Song.kar");
    let backward = nicest_path("a/Some Song.kar\nb/Some Song.kar");
    assert_eq!(forward, "a/Some Song.kar");
    assert_eq!(backward, "a/Some Song.kar");
}
