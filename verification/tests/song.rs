use km_package_builder::song::{song_said, LanguageSaid, MelodyFacts, MelodySaid, SongFacts, SongSaid};

fn plain() -> SongFacts {
    SongFacts {
        language_detected: false,
        declared: false,
        declaration_is_default: false,
        melody: None,
        cdg_unknown_instructions: None,
        files: 1,
    }
}

#[test]
fn the_language_sentence_follows_what_was_detected_and_declared() {
    let say = |detected, declared, default| {
        song_said(
            &SongFacts {
                language_detected: detected,
                declared,
                declaration_is_default: default,
                ..plain()
            },
            0,
        )
        .language
    };
    assert_eq!(say(true, true, true), LanguageSaid::DeclaredDefault);
    assert_eq!(say(true, true, false), LanguageSaid::Declared);
    assert_eq!(say(true, false, false), LanguageSaid::FromEncoding);
    assert_eq!(say(false, true, false), LanguageSaid::UnknownCode);
    assert_eq!(say(false, false, true), LanguageSaid::Nothing);
}

#[test]
fn a_midi_song_says_how_its_melody_was_found() {
    let say = |channel, has_confidence, abstained_why| {
        song_said(
            &SongFacts {
                melody: Some(MelodyFacts { channel, has_confidence, abstained_why }),
                ..plain()
            },
            2,
        )
        .melody
    };
    assert_eq!(say(Some(4), true, false), Some(MelodySaid::ChannelWithConfidence(4)));
    assert_eq!(say(Some(4), false, true), Some(MelodySaid::Channel(4)));
    assert_eq!(say(None, false, true), Some(MelodySaid::NotFoundBecause));
    assert_eq!(say(None, true, false), Some(MelodySaid::NotFound));
    assert_eq!(song_said(&plain(), 2).melody, None);
}

#[test]
fn a_graphics_pair_mentions_unknown_instructions_only_when_there_are_some() {
    let said = song_said(&SongFacts { cdg_unknown_instructions: Some(0), files: 2, ..plain() }, 3);
    assert_eq!(
        said,
        SongSaid {
            language: LanguageSaid::Nothing,
            melody: None,
            cdg: true,
            cdg_unknown: None,
            files: 2,
            versions: 3,
        }
    );
    let said = song_said(&SongFacts { cdg_unknown_instructions: Some(7), ..plain() }, 1);
    assert_eq!(said.cdg_unknown, Some(7));
    assert!(!song_said(&plain(), 1).cdg);
}
