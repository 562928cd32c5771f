//! Which sentences a song's page says about it, and with which numbers: the wording itself belongs
//! to the locale, the choice between sentences is made here.

use vstd::prelude::*;

verus! {

/// What the page knows of how a song's MIDI melody was found.
#[derive(Debug, Clone, Copy, PartialEq, Eq, Structural)]
pub struct MelodyFacts {
    /// The channel picked as the melody, when one was.
    pub channel: Option<u8>,
    /// Whether a confidence came with the pick.
    pub has_confidence: bool,
    /// Whether the analysis said why it picked none.
    pub abstained_why: bool,
}

/// What the song page's sentences are chosen from.
#[derive(Debug, Clone, Copy, PartialEq, Eq, Structural)]
pub struct SongFacts {
    /// Whether the song's language was detected.
    pub language_detected: bool,
    /// Whether the file declares a language code.
    pub declared: bool,
    /// Whether the declared code is the one the format writes when nobody chose.
    pub declaration_is_default: bool,
    /// The melody facts, for a MIDI song; `None` for any other kind.
    pub melody: Option<MelodyFacts>,
    /// The count of graphics instructions this build does not implement, for an MP3+G pair;
    /// `None` for any other kind.
    pub cdg_unknown_instructions: Option<u32>,
    /// How many files the song is.
    pub files: usize,
}

/// Which sentence says where the song's language came from.
#[derive(Debug, Clone, Copy, PartialEq, Eq, Structural)]
pub enum LanguageSaid {
    /// Detected, and the file declares the format's default code: the name and that code.
    DeclaredDefault,
    /// Detected, and the file declares a code of its own: the name and the code.
    Declared,
    /// Detected from the text's encoding alone: the name.
    FromEncoding,
    /// Not detected, and the file declares a code nobody knows: the code.
    UnknownCode,
    /// Nothing to say.
    Nothing,
}

/// Which sentence says how the melody was found.
#[derive(Debug, Clone, Copy, PartialEq, Eq, Structural)]
pub enum MelodySaid {
    /// This channel, and how sure the pick is.
    ChannelWithConfidence(u8),
    /// This channel.
    Channel(u8),
    /// None found, and why.
    NotFoundBecause,
    /// None found.
    NotFound,
}

/// The sentences a song page says, with the numbers that go into them.
#[derive(Debug, Clone, Copy, PartialEq, Eq, Structural)]
pub struct SongSaid {
    /// Where the language came from.
    pub language: LanguageSaid,
    /// How the melody was found, for a MIDI song; the suitability parts and the content counts are
    /// said exactly when this is.
    pub melody: Option<MelodySaid>,
    /// Whether the graphics' length, audio and drawing are said, for an MP3+G pair.
    pub cdg: bool,
    /// The unimplemented instructions, said only when there were some.
    pub cdg_unknown: Option<u32>,
    /// The count in the files heading.
    pub files: i64,
    /// The count in the versions heading.
    pub versions: i64,
}

/// A count as the sentences take it: the largest `i64` when it does not fit.
pub open spec fn count_said(n: nat) -> i64 {
    if n > i64::MAX {
        i64::MAX
    } else {
        n as i64
    }
}

/// Where the language came from, as the page says it.
pub open spec fn language_said_of(facts: SongFacts) -> LanguageSaid {
    if facts.language_detected {
        if facts.declared {
            if facts.declaration_is_default {
                LanguageSaid::DeclaredDefault
            } else {
                LanguageSaid::Declared
            }
        } else {
            LanguageSaid::FromEncoding
        }
    } else if facts.declared {
        LanguageSaid::UnknownCode
    } else {
        LanguageSaid::Nothing
    }
}

/// How the melody was found, as the page says it.
pub open spec fn melody_said_of(m: MelodyFacts) -> MelodySaid {
    match m.channel {
        Some(c) => if m.has_confidence {
            MelodySaid::ChannelWithConfidence(c)
        } else {
            MelodySaid::Channel(c)
        },
        None => if m.abstained_why {
            MelodySaid::NotFoundBecause
        } else {
            MelodySaid::NotFound
        },
    }
}

/// What the song page says of a song that has `versions` versions.
pub open spec fn song_said_of(facts: SongFacts, versions: nat) -> SongSaid {
    SongSaid {
        language: language_said_of(facts),
        melody: match facts.melody {
            Some(m) => Some(melody_said_of(m)),
            None => None,
        },
        cdg: facts.cdg_unknown_instructions is Some,
        cdg_unknown: match facts.cdg_unknown_instructions {
            Some(u) => if u > 0 {
                Some(u)
            } else {
                None
            },
            None => None,
        },
        files: count_said(facts.files as nat),
        versions: count_said(versions),
    }
}

fn count_of(n: usize) -> (c: i64)
    ensures
        c == count_said(n as nat),
{
    if n as u64 > 9223372036854775807u64 {
        i64::MAX
    } else {
        n as i64
    }
}

/// Which sentences the song page says, and with which numbers.
pub fn song_said(facts: &SongFacts, versions: usize) -> (said: SongSaid)
    ensures
        said == song_said_of(*facts, versions as nat),
{
    let language = if facts.language_detected {
        if facts.declared {
            if facts.declaration_is_default {
                LanguageSaid::DeclaredDefault
            } else {
                LanguageSaid::Declared
            }
        } else {
            LanguageSaid::FromEncoding
        }
    } else if facts.declared {
        LanguageSaid::UnknownCode
    } else {
        LanguageSaid::Nothing
    };
    let melody = match facts.melody {
        Some(m) => Some(
            match m.channel {
                Some(c) => if m.has_confidence {
                    MelodySaid::ChannelWithConfidence(c)
                } else {
                    MelodySaid::Channel(c)
                },
                None => if m.abstained_why {
                    MelodySaid::NotFoundBecause
                } else {
                    MelodySaid::NotFound
                },
            },
        ),
        None => None,
    };
    let cdg_unknown = match facts.cdg_unknown_instructions {
        Some(u) => if u > 0 {
            Some(u)
        } else {
            None
        },
        None => None,
    };
    SongSaid {
        language,
        melody,
        cdg: facts.cdg_unknown_instructions.is_some(),
        cdg_unknown,
        files: count_of(facts.files),
        versions: count_of(versions),
    }
}

} // verus!
