//! The row types the database stores and the view types the pages render, and the small rules
//! that decide how a row is shown: which copy's name, how long, whether it is worth searching for.

use vstd::prelude::*;
/// Percent-encodes a value for a URL, as a form submits it.
pub use crate::text::encode;
use vstd::string::StringSliceAdditionalSpecFns;

use crate::text::{
    ascii_digit, chars_of, contains_char, decimal, decimal_of, encoded_bytes, find_last,
    is_digit, is_lower_case, is_white_space, last_index_of, lemma_last_index_of_bounds, lowercase,
    push_all, push_str, replace_all, replace_chars, same_ignoring_ascii_case, split_chars, split_on,
    str_eq, string_of, trim, trim_chars, eq_ignore_ascii_case, slice_of, chars_lt, chars_less,
    lemma_chars_lt_total, lemma_chars_lt_transitive,
};

verus! {

broadcast use vstd::string::group_string_axioms;

// -- what kind of song ---------------------------------------------------------------------

/// What kind of song a row describes: a MIDI file, a video file, an MP3+G pair, or an UltraStar
/// song, and nothing else.
#[derive(Debug, Clone, Copy, PartialEq, Eq, Structural)]
pub enum SongKind {
    /// A MIDI or `.kar` file, parsed and analyzed.
    Midi,
    /// A video file, probed rather than analyzed.
    Video,
    /// An MP3 and a `.cdg` of the same stem, probed as a pair.
    Cdg,
    /// An UltraStar `.txt` and the MP3 its header names.
    UltraStar,
}

impl Default for SongKind {
    /// MIDI, which is what the column's own default says.
    fn default() -> (kind: Self)
        ensures
            kind == SongKind::Midi,
    {
        SongKind::Midi
    }
}

/// The spelling stored in the database.
pub open spec fn kind_spelling(kind: SongKind) -> Seq<char> {
    match kind {
        SongKind::Midi => "midi"@,
        SongKind::Video => "video"@,
        SongKind::Cdg => "cdg"@,
        SongKind::UltraStar => "ultrastar"@,
    }
}

/// What a stored spelling reads back as: an unfamiliar value is MIDI.
pub open spec fn kind_read(value: Seq<char>) -> SongKind {
    if value == "video"@ {
        SongKind::Video
    } else if value == "cdg"@ {
        SongKind::Cdg
    } else if value == "ultrastar"@ {
        SongKind::UltraStar
    } else {
        SongKind::Midi
    }
}

/// What a filter's `kind` parameter reads as: one of the spellings, or `None` for every kind.
pub open spec fn kind_filter(value: Seq<char>) -> Option<SongKind> {
    if value == "midi"@ {
        Some(SongKind::Midi)
    } else if value == "video"@ {
        Some(SongKind::Video)
    } else if value == "cdg"@ {
        Some(SongKind::Cdg)
    } else if value == "ultrastar"@ {
        Some(SongKind::UltraStar)
    } else {
        None
    }
}

/// The message key a page writes for a kind.
pub open spec fn kind_key(kind: SongKind) -> Seq<char> {
    match kind {
        SongKind::Midi => "kind-midi"@,
        SongKind::Video => "kind-video"@,
        SongKind::Cdg => "kind-cdg"@,
        SongKind::UltraStar => "kind-ultrastar"@,
    }
}

impl SongKind {
    /// The spelling stored in the database.
    pub fn as_str(self) -> (s: &'static str)
        ensures
            s@ == kind_spelling(self),
    {
        match self {
            SongKind::Midi => "midi",
            SongKind::Video => "video",
            SongKind::Cdg => "cdg",
            SongKind::UltraStar => "ultrastar",
        }
    }

    /// Reads back what [`Self::as_str`] wrote. An unfamiliar value reads as MIDI, which is the safe
    /// direction and what the column's own default says.
    pub fn from_str(value: &str) -> (kind: Self)
        ensures
            kind == kind_read(value@),
    {
        if str_eq(value, "video") {
            SongKind::Video
        } else if str_eq(value, "cdg") {
            SongKind::Cdg
        } else if str_eq(value, "ultrastar") {
            SongKind::UltraStar
        } else {
            SongKind::Midi
        }
    }

    /// Reads a filter's `kind` parameter: one of the spellings, or `None` for every kind, so a
    /// hand-edited query string shows every kind rather than an empty page with no reason.
    pub fn filter(value: &str) -> (kind: Option<Self>)
        ensures
            kind == kind_filter(value@),
    {
        if str_eq(value, "midi") {
            Some(SongKind::Midi)
        } else if str_eq(value, "video") {
            Some(SongKind::Video)
        } else if str_eq(value, "cdg") {
            Some(SongKind::Cdg)
        } else if str_eq(value, "ultrastar") {
            Some(SongKind::UltraStar)
        } else {
            None
        }
    }

    /// Whether this is a video song.
    pub fn is_video(self) -> (b: bool)
        ensures
            b == (self == SongKind::Video),
    {
        matches!(self, SongKind::Video)
    }

    /// Whether this is an MP3+G song.
    pub fn is_cdg(self) -> (b: bool)
        ensures
            b == (self == SongKind::Cdg),
    {
        matches!(self, SongKind::Cdg)
    }

    /// Whether this is a MIDI song — the only kind with an analysis behind it.
    pub fn is_midi(self) -> (b: bool)
        ensures
            b == (self == SongKind::Midi),
    {
        matches!(self, SongKind::Midi)
    }

    /// Whether the machine draws this song's words, rather than the song bringing its own picture.
    pub fn draws_words(self) -> (b: bool)
        ensures
            b == (self == SongKind::Midi || self == SongKind::UltraStar),
    {
        matches!(self, SongKind::Midi | SongKind::UltraStar)
    }

    /// Which sentence a page writes for this.
    pub fn key(self) -> (s: &'static str)
        ensures
            s@ == kind_key(self),
    {
        match self {
            SongKind::Midi => "kind-midi",
            SongKind::Video => "kind-video",
            SongKind::Cdg => "kind-cdg",
            SongKind::UltraStar => "kind-ultrastar",
        }
    }
}

/// **What is stored reads back as what was written**, and a filter's parameter names the kind
/// its spelling names.
pub proof fn law_kind_spelling_reads_back(kind: SongKind)
    ensures
        kind_read(kind_spelling(kind)) == kind,
        kind_filter(kind_spelling(kind)) == Some(kind),
{
    reveal_strlit("midi");
    reveal_strlit("video");
    reveal_strlit("cdg");
    reveal_strlit("ultrastar");
    assert("midi"@[0] != "video"@[0]);
    assert("midi"@[0] != "cdg"@[0]);
    assert("midi"@[0] != "ultrastar"@[0]);
    assert("video"@[0] != "cdg"@[0]);
    assert("video"@[0] != "ultrastar"@[0]);
    assert("cdg"@[0] != "ultrastar"@[0]);
}

// -- how a scan went -----------------------------------------------------------------------

/// What happened when the scanner last looked at a file.
#[derive(Debug, Clone, Copy, PartialEq, Eq, Structural)]
pub enum ScanStatus {
    /// Parsed and analyzed. (Stored as `ok`.)
    Parsed,
    /// The bytes could not be read from disk.
    Unreadable,
    /// The bytes are not a MIDI file.
    NotMidi,
    /// The bytes are not a video file ffmpeg can read, or carry no video or audio stream.
    NotVideo,
    /// A video file, in a build with no `video` feature.
    VideoUnsupported,
    /// An MP3 with no `.cdg` beside it. Playable audio, and no words: not a song.
    MissingGraphics,
    /// A `.cdg` with no audio beside it: words, and nothing to sing them over.
    OrphanGraphics,
    /// The audio half of a pair could not be decoded.
    NotAudio,
    /// The CD+G stream is unreadable, or never draws a tile.
    BadGraphics,
    /// An UltraStar file this project does not play.
    BadUltraStar,
    /// An UltraStar file whose named audio is not beside it, is not MP3, or is a video.
    UltraStarAudio,
    /// Parsing panicked. Kept as a status rather than allowed to end the scan.
    Panicked,
}

/// The spelling stored in the database.
pub open spec fn status_spelling(status: ScanStatus) -> Seq<char> {
    match status {
        ScanStatus::Parsed => "ok"@,
        ScanStatus::Unreadable => "unreadable"@,
        ScanStatus::NotMidi => "not_midi"@,
        ScanStatus::NotVideo => "not_video"@,
        ScanStatus::VideoUnsupported => "video_unsupported"@,
        ScanStatus::MissingGraphics => "missing_graphics"@,
        ScanStatus::OrphanGraphics => "orphan_graphics"@,
        ScanStatus::NotAudio => "not_audio"@,
        ScanStatus::BadGraphics => "bad_graphics"@,
        ScanStatus::BadUltraStar => "bad_ultrastar"@,
        ScanStatus::UltraStarAudio => "ultrastar_audio"@,
        ScanStatus::Panicked => "panicked"@,
    }
}

/// What a stored spelling reads back as: an unfamiliar value is a failure, not a success.
pub open spec fn status_read(value: Seq<char>) -> ScanStatus {
    if value == "ok"@ {
        ScanStatus::Parsed
    } else if value == "unreadable"@ {
        ScanStatus::Unreadable
    } else if value == "not_midi"@ {
        ScanStatus::NotMidi
    } else if value == "not_video"@ {
        ScanStatus::NotVideo
    } else if value == "video_unsupported"@ {
        ScanStatus::VideoUnsupported
    } else if value == "missing_graphics"@ {
        ScanStatus::MissingGraphics
    } else if value == "orphan_graphics"@ {
        ScanStatus::OrphanGraphics
    } else if value == "not_audio"@ {
        ScanStatus::NotAudio
    } else if value == "bad_graphics"@ {
        ScanStatus::BadGraphics
    } else if value == "bad_ultrastar"@ {
        ScanStatus::BadUltraStar
    } else if value == "ultrastar_audio"@ {
        ScanStatus::UltraStarAudio
    } else {
        ScanStatus::Panicked
    }
}

/// The message key a page writes for a status.
pub open spec fn status_key(status: ScanStatus) -> Seq<char> {
    match status {
        ScanStatus::Parsed => "failure-parsed"@,
        ScanStatus::Unreadable => "failure-unreadable"@,
        ScanStatus::NotMidi => "failure-not-midi"@,
        ScanStatus::NotVideo => "failure-not-video"@,
        ScanStatus::VideoUnsupported => "failure-video-unsupported"@,
        ScanStatus::MissingGraphics => "failure-missing-graphics"@,
        ScanStatus::OrphanGraphics => "failure-orphan-graphics"@,
        ScanStatus::NotAudio => "failure-not-audio"@,
        ScanStatus::BadGraphics => "failure-bad-graphics"@,
        ScanStatus::BadUltraStar => "failure-bad-ultrastar"@,
        ScanStatus::UltraStarAudio => "failure-ultrastar-audio"@,
        ScanStatus::Panicked => "failure-panicked"@,
    }
}

impl ScanStatus {
    /// The spelling stored in the database.
    pub fn as_str(self) -> (s: &'static str)
        ensures
            s@ == status_spelling(self),
    {
        match self {
            ScanStatus::Parsed => "ok",
            ScanStatus::Unreadable => "unreadable",
            ScanStatus::NotMidi => "not_midi",
            ScanStatus::NotVideo => "not_video",
            ScanStatus::VideoUnsupported => "video_unsupported",
            ScanStatus::MissingGraphics => "missing_graphics",
            ScanStatus::OrphanGraphics => "orphan_graphics",
            ScanStatus::NotAudio => "not_audio",
            ScanStatus::BadGraphics => "bad_graphics",
            ScanStatus::BadUltraStar => "bad_ultrastar",
            ScanStatus::UltraStarAudio => "ultrastar_audio",
            ScanStatus::Panicked => "panicked",
        }
    }

    /// Reads back what [`Self::as_str`] wrote. An unfamiliar value is treated as a failure rather
    /// than a success, which is the safe direction.
    pub fn from_str(value: &str) -> (status: Self)
        ensures
            status == status_read(value@),
    {
        if str_eq(value, "ok") {
            ScanStatus::Parsed
        } else if str_eq(value, "unreadable") {
            ScanStatus::Unreadable
        } else if str_eq(value, "not_midi") {
            ScanStatus::NotMidi
        } else if str_eq(value, "not_video") {
            ScanStatus::NotVideo
        } else if str_eq(value, "video_unsupported") {
            ScanStatus::VideoUnsupported
        } else if str_eq(value, "missing_graphics") {
            ScanStatus::MissingGraphics
        } else if str_eq(value, "orphan_graphics") {
            ScanStatus::OrphanGraphics
        } else if str_eq(value, "not_audio") {
            ScanStatus::NotAudio
        } else if str_eq(value, "bad_graphics") {
            ScanStatus::BadGraphics
        } else if str_eq(value, "bad_ultrastar") {
            ScanStatus::BadUltraStar
        } else if str_eq(value, "ultrastar_audio") {
            ScanStatus::UltraStarAudio
        } else {
            ScanStatus::Panicked
        }
    }

    /// Which sentence a page writes for this: a key rather than the sentence, so the page writes
    /// the words in its own language.
    pub fn key(self) -> (s: &'static str)
        ensures
            s@ == status_key(self),
    {
        match self {
            ScanStatus::Parsed => "failure-parsed",
            ScanStatus::Unreadable => "failure-unreadable",
            ScanStatus::NotMidi => "failure-not-midi",
            ScanStatus::NotVideo => "failure-not-video",
            ScanStatus::VideoUnsupported => "failure-video-unsupported",
            ScanStatus::MissingGraphics => "failure-missing-graphics",
            ScanStatus::OrphanGraphics => "failure-orphan-graphics",
            ScanStatus::NotAudio => "failure-not-audio",
            ScanStatus::BadGraphics => "failure-bad-graphics",
            ScanStatus::BadUltraStar => "failure-bad-ultrastar",
            ScanStatus::UltraStarAudio => "failure-ultrastar-audio",
            ScanStatus::Panicked => "failure-panicked",
        }
    }
}

/// **What is stored reads back as what was written**, for every status.
pub proof fn law_status_spelling_reads_back(status: ScanStatus)
    ensures
        status_read(status_spelling(status)) == status,
{
    reveal_strlit("ok");
    reveal_strlit("unreadable");
    reveal_strlit("not_midi");
    reveal_strlit("not_video");
    reveal_strlit("video_unsupported");
    reveal_strlit("missing_graphics");
    reveal_strlit("orphan_graphics");
    reveal_strlit("not_audio");
    reveal_strlit("bad_graphics");
    reveal_strlit("bad_ultrastar");
    reveal_strlit("ultrastar_audio");
    reveal_strlit("panicked");
    assert("ok"@.len() != "unreadable"@.len());
    assert("ok"@.len() != "not_midi"@.len());
    assert("ok"@.len() != "not_video"@.len());
    assert("ok"@.len() != "video_unsupported"@.len());
    assert("ok"@.len() != "missing_graphics"@.len());
    assert("ok"@.len() != "orphan_graphics"@.len());
    assert("ok"@.len() != "not_audio"@.len());
    assert("ok"@.len() != "bad_graphics"@.len());
    assert("ok"@.len() != "bad_ultrastar"@.len());
    assert("ok"@.len() != "ultrastar_audio"@.len());
    assert("ok"@.len() != "panicked"@.len());
    assert("ok"@ != "unreadable"@);
    assert("unreadable"@.len() != "not_midi"@.len());
    assert("unreadable"@.len() != "not_video"@.len());
    assert("unreadable"@.len() != "video_unsupported"@.len());
    assert("unreadable"@.len() != "missing_graphics"@.len());
    assert("unreadable"@.len() != "orphan_graphics"@.len());
    assert("unreadable"@.len() != "not_audio"@.len());
    assert("unreadable"@.len() != "bad_graphics"@.len());
    assert("unreadable"@.len() != "bad_ultrastar"@.len());
    assert("unreadable"@.len() != "ultrastar_audio"@.len());
    assert("unreadable"@.len() != "panicked"@.len());
    assert("unreadable"@ != "not_midi"@);
    assert("not_midi"@.len() != "not_video"@.len());
    assert("not_midi"@.len() != "video_unsupported"@.len());
    assert("not_midi"@.len() != "missing_graphics"@.len());
    assert("not_midi"@.len() != "orphan_graphics"@.len());
    assert("not_midi"@.len() != "not_audio"@.len());
    assert("not_midi"@.len() != "bad_graphics"@.len());
    assert("not_midi"@.len() != "bad_ultrastar"@.len());
    assert("not_midi"@.len() != "ultrastar_audio"@.len());
    assert("not_midi"@[0] != "panicked"@[0]);
    assert("not_midi"@ != "not_video"@);
    assert("not_video"@.len() != "video_unsupported"@.len());
    assert("not_video"@.len() != "missing_graphics"@.len());
    assert("not_video"@.len() != "orphan_graphics"@.len());
    assert("not_video"@[4] != "not_audio"@[4]);
    assert("not_video"@.len() != "bad_graphics"@.len());
    assert("not_video"@.len() != "bad_ultrastar"@.len());
    assert("not_video"@.len() != "ultrastar_audio"@.len());
    assert("not_video"@.len() != "panicked"@.len());
    assert("not_video"@ != "video_unsupported"@);
    assert("video_unsupported"@.len() != "missing_graphics"@.len());
    assert("video_unsupported"@.len() != "orphan_graphics"@.len());
    assert("video_unsupported"@.len() != "not_audio"@.len());
    assert("video_unsupported"@.len() != "bad_graphics"@.len());
    assert("video_unsupported"@.len() != "bad_ultrastar"@.len());
    assert("video_unsupported"@.len() != "ultrastar_audio"@.len());
    assert("video_unsupported"@.len() != "panicked"@.len());
    assert("video_unsupported"@ != "missing_graphics"@);
    assert("missing_graphics"@.len() != "orphan_graphics"@.len());
    assert("missing_graphics"@.len() != "not_audio"@.len());
    assert("missing_graphics"@.len() != "bad_graphics"@.len());
    assert("missing_graphics"@.len() != "bad_ultrastar"@.len());
    assert("missing_graphics"@.len() != "ultrastar_audio"@.len());
    assert("missing_graphics"@.len() != "panicked"@.len());
    assert("missing_graphics"@ != "orphan_graphics"@);
    assert("orphan_graphics"@.len() != "not_audio"@.len());
    assert("orphan_graphics"@.len() != "bad_graphics"@.len());
    assert("orphan_graphics"@.len() != "bad_ultrastar"@.len());
    assert("orphan_graphics"@[0] != "ultrastar_audio"@[0]);
    assert("orphan_graphics"@.len() != "panicked"@.len());
    assert("orphan_graphics"@ != "not_audio"@);
    assert("not_audio"@.len() != "bad_graphics"@.len());
    assert("not_audio"@.len() != "bad_ultrastar"@.len());
    assert("not_audio"@.len() != "ultrastar_audio"@.len());
    assert("not_audio"@.len() != "panicked"@.len());
    assert("not_audio"@ != "bad_graphics"@);
    assert("bad_graphics"@.len() != "bad_ultrastar"@.len());
    assert("bad_graphics"@.len() != "ultrastar_audio"@.len());
    assert("bad_graphics"@.len() != "panicked"@.len());
    assert("bad_graphics"@ != "bad_ultrastar"@);
    assert("bad_ultrastar"@.len() != "ultrastar_audio"@.len());
    assert("bad_ultrastar"@.len() != "panicked"@.len());
    assert("bad_ultrastar"@ != "ultrastar_audio"@);
    assert("ultrastar_audio"@.len() != "panicked"@.len());
    assert("ultrastar_audio"@ != "panicked"@);
    assert("panicked"@ != "ok"@);
}


// -- what a scan learned -------------------------------------------------------------------

/// The suitability of a song of any kind, and what it is made of.
#[derive(Debug)]
pub struct SuitabilityFacts {
    /// Suitability, 0 to 10.
    pub value: u8,
    /// Its four components: lyrics, sync, channels, arrangement.
    pub breakdown: (u8, u8, u8, u8),
    /// Everything wrong with the file, as JSON.
    pub warnings: String,
}

/// Everything about a song that only an UltraStar file has.
#[derive(Debug, Clone)]
pub struct UltraStarFacts {
    /// Lyric lines.
    pub line_count: u32,
    /// Lyric syllables.
    pub syllable_count: u32,
    /// The encoding the file was read in.
    pub det_encoding: String,
    /// How that encoding was arrived at.
    pub det_encoding_source: String,
}

/// Everything about a song that only an MP3+G pair has.
#[derive(Debug, Clone)]
pub struct CdgFacts {
    /// The `.cdg`'s path under the scanned root.
    pub graphics_path: String,
    /// Audio sample rate.
    pub sample_rate: u32,
    /// Audio channels, before the downmix to stereo the feed carries.
    pub channels: u16,
    /// Whole 24-byte packets in the graphics stream.
    pub packets: u32,
    /// How long the graphics run. **Not the song's length.**
    pub graphics_ms: u32,
    /// How far the graphics stop short of the audio.
    pub graphics_short_by_ms: u32,
    /// Tiles the stream draws. **Zero means the pair has no words in it.**
    pub tiles_written: u32,
    /// CD+G instructions this build does not implement. Diagnostic, never a quality signal.
    pub unknown_instructions: u32,
}

/// Milliseconds as whole seconds, as `{:.0}` writes the seconds: to the nearest, and a half to
/// the even neighbour.
pub open spec fn rounded_seconds(ms: nat) -> nat {
    let q = ms / 1000;
    let r = ms % 1000;
    if r > 500 || (r == 500 && q % 2 == 1) {
        q + 1
    } else {
        q
    }
}

/// What [`CdgFacts::graphics_summary`] says.
pub open spec fn graphics_summary_of(graphics_ms: nat, short_by_ms: nat) -> Seq<char> {
    let seconds = decimal(rounded_seconds(graphics_ms));
    if short_by_ms == 0 {
        seconds + "s, to the end"@
    } else if short_by_ms < 60000 {
        seconds + "s, stopping "@ + decimal(rounded_seconds(short_by_ms)) + "s early"@
    } else {
        seconds + "s, stopping "@ + decimal(rounded_seconds(short_by_ms))
            + "s early \u{2014} suspect a mispairing"@
    }
}

fn rounded_secs(ms: u32) -> (s: u64)
    ensures
        s as nat == rounded_seconds(ms as nat),
{
    let q = (ms / 1000) as u64;
    let r = ms % 1000;
    if r > 500 || (r == 500 && q % 2 == 1) {
        q + 1
    } else {
        q
    }
}

impl CdgFacts {
    /// How long the words run, and how far short of the audio they stop.
    ///
    /// One phrase rather than two numbers: a few seconds short is ordinary — the words end before
    /// the outro does — and a minute or more is what a `.cdg` paired with the wrong song looks like.
    pub fn graphics_summary(&self) -> (out: String)
        ensures
            out@ == graphics_summary_of(self.graphics_ms as nat, self.graphics_short_by_ms as nat),
    {
        let mut out = decimal_of(rounded_secs(self.graphics_ms));
        let short = self.graphics_short_by_ms;
        if short == 0 {
            push_str(&mut out, "s, to the end");
        } else {
            push_str(&mut out, "s, stopping ");
            let early = decimal_of(rounded_secs(short));
            push_all(&mut out, early.as_slice());
            if short < 60000 {
                push_str(&mut out, "s early");
            } else {
                push_str(&mut out, "s early \u{2014} suspect a mispairing");
            }
        }
        string_of(out.as_slice())
    }
}

/// Everything about a song that only a video has, straight from a probe.
#[derive(Debug, Clone)]
pub struct VideoFacts {
    /// Picture width in pixels.
    pub width: u32,
    /// Picture height in pixels.
    pub height: u32,
    /// Frames per second times 1000, so the common 29.97 survives being written down.
    pub frame_rate_milli: u32,
    /// The video codec, spelled as ffmpeg spells it.
    pub video_codec: String,
    /// The audio codec, spelled the same way.
    pub audio_codec: String,
}

impl VideoFacts {
    /// The picture size as `1920x1080`.
    pub fn resolution(&self) -> (out: String)
        ensures
            out@ == decimal(self.width as nat) + "x"@ + decimal(self.height as nat),
    {
        let mut out = decimal_of(self.width as u64);
        push_str(&mut out, "x");
        let h = decimal_of(self.height as u64);
        push_all(&mut out, h.as_slice());
        string_of(out.as_slice())
    }

    /// Frames per second as text when it is a whole number, with no trailing `.000`; nothing when
    /// it has a fraction, which is written from the binary value of a float and is the caller's.
    pub fn whole_frame_rate(&self) -> (out: Option<String>)
        ensures
            match out {
                Some(t) => self.frame_rate_milli % 1000 == 0 && t@ == decimal((self.frame_rate_milli
                    / 1000) as nat),
                None => self.frame_rate_milli % 1000 != 0,
            },
    {
        if self.frame_rate_milli % 1000 != 0 {
            return None;
        }
        let d = decimal_of((self.frame_rate_milli / 1000) as u64);
        Some(string_of(d.as_slice()))
    }
}

// -- links ---------------------------------------------------------------------------------

/// A value as it travels in a link: its UTF-8 bytes, percent-encoded.
pub open spec fn in_link(value: Seq<char>) -> Seq<char> {
    encoded_bytes(vstd::utf8::encode_utf8(value))
}

/// What [`similar_url`] gives for names that hold something to search for.
pub open spec fn similar_url_text(title: Seq<char>, artist: Seq<char>, id: Seq<char>) -> Seq<char> {
    "/similar?title="@ + in_link(trim(title)) + (if trim(artist).len() > 0 {
        "&artist="@ + in_link(trim(artist))
    } else {
        Seq::<char>::empty()
    }) + "&from="@ + in_link(id)
}

/// Where the similar-names button goes for one song, headed by that song, or nothing when its names
/// hold nothing to search for. `searchable` is whether the similar-names search can make a query of
/// `title` and `artist`; the names travel trimmed, and an artist that is only blanks stays out.
pub fn similar_url(title: &str, artist: &str, id: &str, searchable: bool) -> (url: String)
    ensures
        url@ == if searchable {
            similar_url_text(title@, artist@, id@)
        } else {
            Seq::<char>::empty()
        },
{
    if !searchable {
        return String::new();
    }
    let t = crate::text::trimmed(title);
    let mut out = chars_of("/similar?title=");
    let e = encode(t.as_str());
    push_str(&mut out, e.as_str());
    let a = crate::text::trimmed(artist);
    if chars_of(a.as_str()).len() > 0 {
        push_str(&mut out, "&artist=");
        let ea = encode(a.as_str());
        push_str(&mut out, ea.as_str());
    }
    push_str(&mut out, "&from=");
    let ei = encode(id);
    push_str(&mut out, ei.as_str());
    string_of(out.as_slice())
}

/// What [`language_name`] shows: nothing for no tag, the table's name for a tag it knows, and the
/// tag as stored for one it does not.
pub open spec fn language_name_of(tag: Option<Seq<char>>, named: Option<Seq<char>>) -> Seq<char> {
    match tag {
        None => Seq::<char>::empty(),
        Some(t) => match named {
            Some(n) => n,
            None => t,
        },
    }
}

/// The language of a tag, for a cell's tooltip. `named` is what the language table calls `tag`,
/// when it knows it; a tag it does not know is shown as stored, so a value written by a later build
/// is shown rather than swallowed.
pub fn language_name<'a>(tag: Option<&'a str>, named: Option<&'a str>) -> (out: &'a str)
    ensures
        out@ == language_name_of(
            match tag {
                Some(t) => Some(t@),
                None => None,
            },
            match named {
                Some(n) => Some(n@),
                None => None,
            },
        ),
{
    match tag {
        None => {
            proof {
                reveal_strlit("");
            }
            ""
        },
        Some(t) => match named {
            Some(n) => n,
            None => t,
        },
    }
}

/// The same-words search for one song, headed by that song: an id and nothing else.
pub fn words_url(id: &str) -> (url: String)
    ensures
        url@ == "/similar-words?from="@ + encoded_bytes(id.spec_bytes()),
{
    let mut out = chars_of("/similar-words?from=");
    let e = encode(id);
    push_str(&mut out, e.as_str());
    string_of(out.as_slice())
}

/// What [`score_text`] writes: the number, or nothing at all.
pub open spec fn score_text_of(score: Option<u8>) -> Seq<char> {
    match score {
        Some(n) => decimal(n as nat),
        None => seq![],
    }
}

/// A hand-set score as text: the number, or nothing at all when nobody has said.
pub fn score_text(score: Option<u8>) -> (out: String)
    ensures
        out@ == score_text_of(score),
{
    match score {
        Some(n) => {
            let v = decimal_of(n as u64);
            string_of(v.as_slice())
        },
        None => string_of(&[]),
    }
}

// -- names on disk -------------------------------------------------------------------------

/// The last component of a forward-slash path, as `Path::file_name` reads one: empty and `.`
/// components are skipped, and a path ending in `..` or holding no component has no name.
pub open spec fn file_name_of(s: Seq<char>) -> Option<Seq<char>>
    decreases s.len(),
{
    let k = last_index_of(s, '/');
    let seg = s.skip(k + 1);
    if seg.len() == 0 || seg == seq!['.'] {
        if k < 0 || k >= s.len() {
            None
        } else {
            file_name_of(s.take(k))
        }
    } else if seg == seq!['.', '.'] {
        None
    } else {
        Some(seg)
    }
}

/// A file name without its extension, as `Path::file_stem` gives it: everything before the last
/// `.`, unless that is nothing.
pub open spec fn stem_of(name: Seq<char>) -> Seq<char> {
    let k = last_index_of(name, '.');
    if k <= 0 {
        name
    } else {
        name.take(k)
    }
}

/// A path's file stem, or nothing when it has no file name.
pub open spec fn file_stem_of(path: Seq<char>) -> Seq<char> {
    match file_name_of(path) {
        Some(name) => stem_of(name),
        None => seq![],
    }
}

/// Where a path's file name lies, if it has one.
pub(crate) fn file_name_range(v: &[char]) -> (r: Option<(usize, usize)>)
    ensures
        match r {
            Some((a, b)) => a <= b <= v@.len() && file_name_of(v@) == Some(v@.subrange(a as int, b as int)),
            None => file_name_of(v@) is None,
        },
{
    let mut end = v.len();
    proof {
        assert(v@.take(end as int) =~= v@);
    }
    loop
        invariant
            end <= v@.len(),
            file_name_of(v@.take(end as int)) == file_name_of(v@),
        decreases end,
    {
        let ghost t = v@.take(end as int);
        let k = find_last(v, '/', end);
        proof {
            lemma_last_index_of_bounds(t, '/');
        }
        let start = match k {
            Some(k) => k + 1,
            None => 0,
        };
        proof {
            assert(t.skip(last_index_of(t, '/') + 1) =~= v@.subrange(start as int, end as int));
        }
        let seg_len = end - start;
        let is_dot = seg_len == 1 && v[start] == '.';
        let is_dot_dot = seg_len == 2 && v[start] == '.' && v[start + 1] == '.';
        proof {
            let seg = v@.subrange(start as int, end as int);
            if seg_len == 1 {
                assert(seg[0] == v@[start as int]);
                if is_dot {
                    assert(seg =~= seq!['.']);
                } else {
                    assert(seg[0] != seq!['.'][0]);
                }
            } else {
                assert(seg.len() != seq!['.'].len());
            }
            if seg_len == 2 {
                assert(seg[0] == v@[start as int]);
                assert(seg[1] == v@[start + 1]);
                if is_dot_dot {
                    assert(seg =~= seq!['.', '.']);
                } else {
                    assert(seg[0] != seq!['.', '.'][0] || seg[1] != seq!['.', '.'][1]);
                }
            } else {
                assert(seg.len() != seq!['.', '.'].len());
            }
        }
        if seg_len == 0 || is_dot {
            match k {
                None => {
                    return None;
                },
                Some(k) => {
                    proof {
                        assert(t.take(k as int) =~= v@.take(k as int));
                    }
                    end = k;
                },
            }
        } else if is_dot_dot {
            return None;
        } else {
            return Some((start, end));
        }
    }
}

/// The characters of a path's file stem.
fn file_stem_chars(v: &[char]) -> (stem: Vec<char>)
    ensures
        stem@ == file_stem_of(v@),
{
    match file_name_range(v) {
        None => Vec::new(),
        Some((a, b)) => {
            let name = slice_of(v, a, b);
            match find_last(name.as_slice(), '.', name.len()) {
                Some(k) => {
                    proof {
                        assert(name@.take(name@.len() as int) =~= name@);
                    }
                    if k == 0 {
                        name
                    } else {
                        slice_of(name.as_slice(), 0, k)
                    }
                },
                None => {
                    proof {
                        assert(name@.take(name@.len() as int) =~= name@);
                    }
                    name
                },
            }
        },
    }
}

/// Whether any character is lower case.
pub open spec fn has_lowercase(s: Seq<char>) -> bool {
    exists|i: int| 0 <= i < s.len() && lowercase(#[trigger] s[i])
}

fn any_lower_case(v: &[char]) -> (b: bool)
    ensures
        b == has_lowercase(v@),
{
    let mut i: usize = 0;
    while i < v.len()
        invariant
            i <= v@.len(),
            forall|j: int| 0 <= j < i ==> !lowercase(#[trigger] v@[j]),
        decreases v@.len() - i,
    {
        if is_lower_case(v[i]) {
            return true;
        }
        i = i + 1;
    }
    false
}

/// Whether every character is an ASCII digit (true of nothing at all).
pub open spec fn all_digits(s: Seq<char>) -> bool {
    forall|i: int| 0 <= i < s.len() ==> is_digit(#[trigger] s[i])
}

fn every_digit(v: &[char]) -> (b: bool)
    ensures
        b == all_digits(v@),
{
    let mut i: usize = 0;
    while i < v.len()
        invariant
            i <= v@.len(),
            forall|j: int| 0 <= j < i ==> is_digit(#[trigger] v@[j]),
        decreases v@.len() - i,
    {
        if !ascii_digit(v[i]) {
            return false;
        }
        i = i + 1;
    }
    true
}

/// How much a path's own name looks like a song title rather than an 8.3 stub.
///
/// Spaces, underscores or dashes are worth 4, a lower-case letter 2, anything that is not all
/// digits 1; the shape counts 64 times over, and the stem's length, capped at 63, breaks a tie
/// between equally shaped names without ever outweighing the shape.
pub open spec fn name_quality_of(path: Seq<char>) -> int {
    let stem = file_stem_of(path);
    let shaped = stem.contains(' ') || stem.contains('_') || stem.contains('-');
    let score = (if shaped { 4int } else { 0int }) + (if has_lowercase(stem) { 2int } else { 0int }) + (
    if !all_digits(stem) { 1int } else { 0int });
    score * 64 + if stem.len() < 63 { stem.len() as int } else { 63int }
}

fn name_quality(path: &[char]) -> (q: u32)
    ensures
        q as int == name_quality_of(path@),
{
    let stem = file_stem_chars(path);
    let s = stem.as_slice();
    let mut score: u32 = 0;
    if contains_char(s, ' ') || contains_char(s, '_') || contains_char(s, '-') {
        score = score + 4;
    }
    if any_lower_case(s) {
        score = score + 2;
    }
    if !every_digit(s) {
        score = score + 1;
    }
    let len = if stem.len() < 63 { stem.len() as u32 } else { 63 };
    score * 64 + len
}

/// A path's length in bytes, which is what `str::len` counts.
pub open spec fn byte_len(s: Seq<char>) -> nat {
    vstd::utf8::encode_utf8(s).len()
}

/// `p` is at least as good a name to show as `b`: a better shape; or as good a shape and shorter
/// in bytes; or as good and as long, and not after `b` in character order, so that the last tie is
/// broken by the paths themselves.
pub open spec fn shows_better(p: Seq<char>, b: Seq<char>) -> bool {
    name_quality_of(p) > name_quality_of(b) || (name_quality_of(p) == name_quality_of(b) && (byte_len(p)
        < byte_len(b) || (byte_len(p) == byte_len(b) && !chars_lt(b, p))))
}

/// Showing better orders every pair of paths, passes along, and holds both ways only of a path and
/// itself.
proof fn lemma_shows_better_orders(x: Seq<char>, y: Seq<char>, z: Seq<char>)
    ensures
        shows_better(x, y) || shows_better(y, x),
        shows_better(x, y) && shows_better(y, z) ==> shows_better(x, z),
        shows_better(x, y) && shows_better(y, x) ==> x == y,
{
    lemma_chars_lt_total(x, y);
    lemma_chars_lt_total(y, z);
    lemma_chars_lt_total(x, z);
    if chars_lt(z, x) && chars_lt(x, y) {
        lemma_chars_lt_transitive(z, x, y);
    }
    if chars_lt(z, x) && x == y {
    }
    if chars_lt(y, x) && chars_lt(z, y) {
        lemma_chars_lt_transitive(z, y, x);
    }
}

/// The name worth showing out of a list of copies, taken in turn: a later copy replaces the one
/// held when it shows at least as well, and empty entries are passed over.
pub open spec fn best_of(ps: Seq<Seq<char>>) -> Seq<char>
    decreases ps.len(),
{
    if ps.len() == 0 {
        seq![]
    } else {
        let b = best_of(ps.drop_last());
        let p = ps.last();
        if p.len() == 0 {
            b
        } else if b.len() == 0 {
            p
        } else if shows_better(p, b) {
            p
        } else {
            b
        }
    }
}

/// The best-looking path out of a newline-separated list of copies.
pub open spec fn nicest_of(paths: Seq<char>) -> Seq<char> {
    best_of(split_on(paths, '\n'))
}

/// The best-looking path out of a newline-separated list of copies.
///
/// The corpus files one recording under several names — `CORCOVAD.KAR` in one folder and
/// `Corcovado - Tom Jobim.kar` in another — and the one worth showing is the one a person would
/// recognize. Ties break on the shortest whole path and then on the path itself, the smaller
/// first, so the answer does not depend on the order the copies were listed in.
///
/// This decides what is *shown* and nothing else.
pub fn nicest_path(paths: &str) -> (best: String)
    ensures
        best@ == nicest_of(paths@),
{
    let v = chars_of(paths);
    let pieces = split_chars(v.as_slice(), '\n');
    let ghost ps = pieces@.map_values(|p: Vec<char>| p@);
    let mut best: Vec<char> = Vec::new();
    let mut best_quality: u32 = 0;
    let mut best_len: usize = 0;
    let mut i: usize = 0;
    while i < pieces.len()
        invariant
            i <= pieces@.len(),
            ps == pieces@.map_values(|p: Vec<char>| p@),
            best@ == best_of(ps.take(i as int)),
            best@.len() > 0 ==> best_quality as int == name_quality_of(best@) && best_len as nat
                == byte_len(best@),
        decreases pieces@.len() - i,
    {
        let p = &pieces[i];
        proof {
            assert(ps.take(i + 1).drop_last() =~= ps.take(i as int));
            assert(ps.take(i + 1).last() == p@);
        }
        if p.len() > 0 {
            let q = name_quality(p.as_slice());
            let text = string_of(p.as_slice());
            let len = text.as_str().as_bytes().len();
            proof {
                assert(len as nat == byte_len(p@));
            }
            let wins = best.len() == 0 || q > best_quality || (q == best_quality && (len < best_len || (len
                == best_len && !chars_less(best.as_slice(), p.as_slice()))));
            if wins {
                best = slice_of(p.as_slice(), 0, p.len());
                proof {
                    assert(best@ =~= p@);
                }
                best_quality = q;
                best_len = len;
            }
        }
        i = i + 1;
    }
    proof {
        assert(ps.take(pieces@.len() as int) =~= ps);
    }
    string_of(best.as_slice())
}

proof fn lemma_best_of_is_a_best(ps: Seq<Seq<char>>)
    ensures
        best_of(ps).len() == 0 <==> (forall|i: int| 0 <= i < ps.len() ==> #[trigger] ps[i].len() == 0),
        best_of(ps).len() > 0 ==> ps.contains(best_of(ps)),
        forall|i: int| 0 <= i < ps.len() && #[trigger] ps[i].len() > 0 ==> shows_better(best_of(ps), ps[i]),
    decreases ps.len(),
{
    if ps.len() > 0 {
        let init = ps.drop_last();
        lemma_best_of_is_a_best(init);
        let b = best_of(init);
        let p = ps.last();
        lemma_shows_better_orders(p, b, p);
        crate::text::lemma_chars_lt_irreflexive(p);
        assert forall|i: int| 0 <= i < init.len() implies ps[i] == #[trigger] init[i] by {}
        if b.len() > 0 {
            let k = choose|k: int| 0 <= k < init.len() && init[k] == b;
            assert(ps[k] == b);
        }
        assert(ps[ps.len() - 1] == p);
        if !(forall|i: int| 0 <= i < ps.len() ==> #[trigger] ps[i].len() == 0) {
            let j = choose|j: int| 0 <= j < ps.len() && #[trigger] ps[j].len() != 0;
            if j < init.len() {
                assert(init[j].len() != 0);
            }
        }
        let best = best_of(ps);
        assert forall|i: int| 0 <= i < ps.len() && #[trigger] ps[i].len() > 0 implies shows_better(best, ps[i]) by {
            if i < init.len() {
                assert(init[i].len() > 0);
                assert(shows_better(b, init[i]));
                lemma_shows_better_orders(p, b, init[i]);
            }
        }
    }
}

/// The nicest path does not depend on the order the copies were listed in: two listings of the
/// same copies show the same one.
pub proof fn law_the_nicest_copy_ignores_the_listing_order(a: Seq<Seq<char>>, b: Seq<Seq<char>>)
    requires
        a.to_set() == b.to_set(),
    ensures
        best_of(a) == best_of(b),
{
    lemma_best_of_is_a_best(a);
    lemma_best_of_is_a_best(b);
    let x = best_of(a);
    let y = best_of(b);
    if x.len() == 0 && y.len() > 0 {
        assert(b.contains(y));
        assert(a.to_set().contains(y));
        let k = choose|k: int| 0 <= k < a.len() && a[k] == y;
        assert(a[k].len() > 0);
    } else if y.len() == 0 && x.len() > 0 {
        assert(a.contains(x));
        assert(b.to_set().contains(x));
        let k = choose|k: int| 0 <= k < b.len() && b[k] == x;
        assert(b[k].len() > 0);
    } else if x.len() > 0 && y.len() > 0 {
        assert(b.to_set().contains(x));
        assert(a.to_set().contains(y));
        let kx = choose|k: int| 0 <= k < b.len() && b[k] == x;
        let ky = choose|k: int| 0 <= k < a.len() && a[k] == y;
        let ix = choose|k: int| 0 <= k < a.len() && a[k] == x;
        assert(shows_better(y, b[kx]));
        assert(shows_better(x, a[ky]));
        lemma_shows_better_orders(x, y, x);
    }
}

/// Whether a stem is shaped like a title: words split by a space, an underscore or a dash.
pub open spec fn worded(stem: Seq<char>) -> bool {
    stem.contains(' ') || stem.contains('_') || stem.contains('-')
}

/// **What makes a name look like a title, in order of weight**: words split by a space, an
/// underscore or a dash outweigh everything else; then a lower-case letter; then not being all
/// digits; and only between names alike in all three does the longer stem (up to 63 characters)
/// look better. Between copies of one song, the better-looking one is shown, whichever way they
/// were listed.
pub proof fn law_a_title_like_name_is_shown(p: Seq<char>, q: Seq<char>)
    ensures
        worded(file_stem_of(p)) && !worded(file_stem_of(q)) ==> name_quality_of(p) > name_quality_of(q),
        worded(file_stem_of(p)) == worded(file_stem_of(q)) && has_lowercase(file_stem_of(p))
            && !has_lowercase(file_stem_of(q)) ==> name_quality_of(p) > name_quality_of(q),
        worded(file_stem_of(p)) == worded(file_stem_of(q)) && has_lowercase(file_stem_of(p))
            == has_lowercase(file_stem_of(q)) && !all_digits(file_stem_of(p)) && all_digits(
            file_stem_of(q),
        ) ==> name_quality_of(p) > name_quality_of(q),
        worded(file_stem_of(p)) == worded(file_stem_of(q)) && has_lowercase(file_stem_of(p))
            == has_lowercase(file_stem_of(q)) && all_digits(file_stem_of(p)) == all_digits(file_stem_of(q))
            && file_stem_of(q).len() < file_stem_of(p).len() && file_stem_of(q).len() < 63
            ==> name_quality_of(p) > name_quality_of(q),
        p.len() > 0 && q.len() > 0 && name_quality_of(p) > name_quality_of(q) ==> best_of(seq![p, q]) == p
            && best_of(seq![q, p]) == p,
{
    if p.len() > 0 && q.len() > 0 && name_quality_of(p) > name_quality_of(q) {
        let a = seq![p, q];
        let b = seq![q, p];
        assert(a.drop_last() =~= seq![p]);
        assert(b.drop_last() =~= seq![q]);
        assert(seq![p].drop_last() =~= Seq::<Seq<char>>::empty());
        assert(seq![q].drop_last() =~= Seq::<Seq<char>>::empty());
        assert(best_of(Seq::<Seq<char>>::empty()) =~= Seq::<char>::empty());
        assert(best_of(seq![p]) == p);
        assert(best_of(seq![q]) == q);
    }
}

/// Between two names that look equally like titles, the path shorter in bytes is shown; between
/// two as long, the one first in character order; whichever way the two were listed.
pub proof fn law_a_shorter_path_is_shown_between_equal_names(p: Seq<char>, q: Seq<char>)
    requires
        p.len() > 0,
        q.len() > 0,
        name_quality_of(p) == name_quality_of(q),
    ensures
        byte_len(p) < byte_len(q) ==> best_of(seq![p, q]) == p && best_of(seq![q, p]) == p,
        byte_len(p) == byte_len(q) && chars_lt(p, q) ==> best_of(seq![p, q]) == p && best_of(seq![q, p]) == p,
{
    let a = seq![p, q];
    let b = seq![q, p];
    assert(a.drop_last() =~= seq![p]);
    assert(b.drop_last() =~= seq![q]);
    assert(seq![p].drop_last() =~= Seq::<Seq<char>>::empty());
    assert(seq![q].drop_last() =~= Seq::<Seq<char>>::empty());
    assert(best_of(Seq::<Seq<char>>::empty()) =~= Seq::<char>::empty());
    assert(best_of(seq![p]) == p);
    assert(best_of(seq![q]) == q);
    crate::text::lemma_chars_lt_irreflexive(p);
    lemma_chars_lt_total(p, q);
}

/// Two newline-separated listings of the same copies, in whatever order, show the same path.
pub proof fn law_a_reordered_listing_shows_the_same_copy(first: Seq<char>, second: Seq<char>)
    requires
        split_on(first, '\n').to_set() == split_on(second, '\n').to_set(),
    ensures
        nicest_of(first) == nicest_of(second),
{
    law_the_nicest_copy_ignores_the_listing_order(split_on(first, '\n'), split_on(second, '\n'));
}

// -- lengths -------------------------------------------------------------------------------

/// What [`format_duration`] writes: `m:ss`, or a dash for a file that claims no length.
pub open spec fn duration_text(ms: nat) -> Seq<char> {
    if ms == 0 {
        "\u{2014}"@
    } else {
        let s = ms / 1000;
        decimal(s / 60) + seq![':'] + seq![
            crate::text::digit_char((s % 60) / 10),
            crate::text::digit_char((s % 60) % 10),
        ]
    }
}

/// **A duration reads back as the whole seconds it was written from**: for a file that claims a
/// length, the minutes before the colon read back as a number, the two digits after it are seconds
/// under a minute, and minutes and seconds together are the whole seconds in the length.
pub proof fn law_a_duration_reads_back_as_its_seconds(ms: u32)
    requires
        ms > 0,
    ensures
        ({
            let t = duration_text(ms as nat);
            let n = t.len() as int;
            &&& n >= 4
            &&& t[n - 3] == ':'
            &&& 48 <= t[n - 2] as int <= 53
            &&& 48 <= t[n - 1] as int <= 57
            &&& crate::form::u32_value(t.take(n - 3)) matches Ok(m) && m * 60 + 10 * (t[n - 2] as int - 48)
                + (t[n - 1] as int - 48) == ms / 1000
        }),
{
    let secs = (ms / 1000) as nat;
    let m = secs / 60;
    let t = duration_text(ms as nat);
    crate::round_trip::lemma_decimal_digits(m);
    crate::round_trip::lemma_decimal_reads_back(m);
    let n = t.len() as int;
    assert(t.take(n - 3) =~= decimal(m));
    assert(t[n - 3] == ':');
    assert(t[n - 2] as int == 48 + (secs % 60) / 10);
    assert(t[n - 1] as int == 48 + (secs % 60) % 10);
}

/// Milliseconds as `m:ss`.
pub fn format_duration(ms: u32) -> (out: String)
    ensures
        out@ == duration_text(ms as nat),
{
    if ms == 0 {
        return crate::text::owned("\u{2014}");
    }
    let seconds = ms / 1000;
    let mut out = decimal_of((seconds / 60) as u64);
    out.push(':');
    let rest = seconds % 60;
    out.push((48u8 + (rest / 10) as u8) as char);
    out.push((48u8 + (rest % 10) as u8) as char);
    string_of(out.as_slice())
}

// -- searching elsewhere -------------------------------------------------------------------

/// Whether a title is just the file's own name dressed up: the file's stem in another case, or
/// no spaces and no lower-case letters, which is the shape of a truncated 8.3 name.
pub open spec fn looks_like_filename_of(title: Seq<char>, path: Seq<char>) -> bool {
    let stem = file_stem_of(path);
    (stem.len() > 0 && same_ignoring_ascii_case(stem, title)) || (!title.contains(' ')
        && !has_lowercase(title))
}

fn looks_like_a_filename(title: &[char], path: &[char]) -> (b: bool)
    ensures
        b == looks_like_filename_of(title@, path@),
{
    let stem = file_stem_chars(path);
    if stem.len() > 0 && eq_ignore_ascii_case(stem.as_slice(), title) {
        return true;
    }
    !contains_char(title, ' ') && !any_lower_case(title)
}

/// What [`youtube_query`] searches for.
///
/// With an artist, the artist and whatever title there is. Without one, the title alone, unless it
/// is empty or only the file's name.
pub open spec fn youtube_query_of(title: Seq<char>, artist: Option<Seq<char>>, path: Seq<char>) -> Option<
    Seq<char>,
> {
    let t = trim(title);
    let a = match artist {
        Some(x) => if trim(x).len() > 0 {
            Some(trim(x))
        } else {
            None
        },
        None => None,
    };
    match a {
        Some(a) => Some(
            if t.len() == 0 {
                a
            } else {
                a + seq![' '] + t
            },
        ),
        None => if t.len() == 0 || looks_like_filename_of(t, path) {
            None
        } else {
            Some(t)
        },
    }
}

/// The characters of a text that may be missing.
pub open spec fn optional_text(text: Option<&str>) -> Option<Seq<char>> {
    match text {
        Some(t) => Some(t@),
        None => None,
    }
}

/// The text to search YouTube for, or `None` when there is nothing worth searching for.
///
/// A title that is only the file's name is not a song title — the corpus is full of `CORCOVAD` and
/// `AMD0123` — and with an artist the title no longer has to stand alone.
pub fn youtube_query(title: &str, artist: Option<&str>, path: &str) -> (q: Option<String>)
    ensures
        match q {
            Some(s) => youtube_query_of(title@, optional_text(artist), path@) == Some(s@),
            None => youtube_query_of(title@, optional_text(artist), path@) is None,
        },
{
    let tv = chars_of(title);
    let t = trim_chars(tv.as_slice());
    let a: Option<Vec<char>> = match artist {
        Some(x) => {
            let xv = chars_of(x);
            let xt = trim_chars(xv.as_slice());
            if xt.len() > 0 {
                Some(xt)
            } else {
                None
            }
        },
        None => None,
    };
    let pv = chars_of(path);
    match a {
        Some(a) => {
            if t.len() == 0 {
                Some(string_of(a.as_slice()))
            } else {
                let mut out = a;
                out.push(' ');
                push_all(&mut out, t.as_slice());
                Some(string_of(out.as_slice()))
            }
        },
        None => {
            if t.len() == 0 || looks_like_a_filename(t.as_slice(), pv.as_slice()) {
                None
            } else {
                Some(string_of(t.as_slice()))
            }
        },
    }
}

// -- absolute paths ------------------------------------------------------------------------

/// The prefix `canonicalize` puts on a Windows path: `\\?\`.
pub open spec fn verbatim_prefix() -> Seq<char> {
    seq!['\\', '\\', '?', '\\']
}

/// A path as a person recognizes it, given what `canonicalize` made of it: the path as it came when
/// it could not be resolved, else the resolved path without the verbatim prefix.
pub open spec fn tidied_of(path: Seq<char>, canonical: Option<Seq<char>>) -> Seq<char> {
    match canonical {
        None => path,
        Some(c) => if c.len() >= 4 && c.take(4) == verbatim_prefix() {
            c.skip(4)
        } else {
            c
        },
    }
}

/// Calls `Path::canonicalize` and reads the result back with `to_string_lossy`.
///
/// What it answers depends on the disk, so nothing is claimed of it: `None` when the path cannot be
/// resolved, else some absolute path.
#[verifier::external_body]
fn canonical_form(path: &str) -> (c: Option<String>) {
    std::path::Path::new(path).canonicalize().ok().map(|p| p.to_string_lossy().into_owned())
}

/// The characters of an owned text that may be missing.
pub open spec fn optional_string(text: Option<String>) -> Option<Seq<char>> {
    match text {
        Some(t) => Some(t@),
        None => None,
    }
}

/// A path in the form a person recognizes, given what `canonicalize` answered for it.
pub fn tidied(path: &str, canonical: Option<String>) -> (out: String)
    ensures
        out@ == tidied_of(path@, optional_string(canonical)),
{
    match canonical {
        None => crate::text::owned(path),
        Some(c) => {
            let v = chars_of(c.as_str());
            if v.len() >= 4 && v[0] == '\\' && v[1] == '\\' && v[2] == '?' && v[3] == '\\' {
                let rest = slice_of(v.as_slice(), 4, v.len());
                proof {
                    assert(v@.take(4) =~= verbatim_prefix());
                    assert(rest@ =~= v@.skip(4));
                }
                string_of(rest.as_slice())
            } else {
                proof {
                    if v@.len() >= 4 && v@.take(4) == verbatim_prefix() {
                        assert(v@.take(4)[0] == v@[0]);
                        assert(v@.take(4)[1] == v@[1]);
                        assert(v@.take(4)[2] == v@[2]);
                        assert(v@.take(4)[3] == v@[3]);
                    }
                }
                c
            }
        },
    }
}

/// An absolute path in the form a person recognizes.
///
/// `canonicalize` on Windows returns `\\?\C:\…`, which nobody types and nobody recognizes, so the
/// prefix is taken off. A path that cannot be canonicalised is returned as it came, because a path
/// that does not exist yet is still worth showing.
pub fn tidy(path: &str) -> (out: String)
    ensures
        exists|c: Option<Seq<char>>| out@ == tidied_of(path@, c),
{
    let canonical = canonical_form(path);
    tidied(path, canonical)
}

// -- favorites, saved filters, packages ----------------------------------------------------

/// One favorite, as a page draws it.
#[derive(Debug, Clone)]
pub struct FavoriteNode {
    /// Row id.
    pub id: i64,
    /// What the list is called, and the only thing any control labels it by.
    pub name: String,
    /// How many songs are in it.
    pub song_count: u32,
    /// Of those, how many are a second version of a song already in this same list.
    pub second_copies: u32,
    /// Whether this list is scaffolding for a later pass rather than a filing.
    pub temporary: bool,
}

/// A filter somebody named.
#[derive(Debug, Clone)]
pub struct SavedFilter {
    /// Row id, which the forget route takes.
    pub id: i64,
    /// What somebody called it.
    pub name: String,
    /// The query string with no leading `?`. **Empty is a real value and means the whole corpus.**
    pub query: String,
}

impl Default for SavedFilter {
    fn default() -> (f: Self)
        ensures
            f.id == 0,
            f.name@ == Seq::<char>::empty(),
            f.query@ == Seq::<char>::empty(),
    {
        SavedFilter { id: 0, name: String::new(), query: String::new() }
    }
}

/// What a volume format writes the volume's number as.
pub const VOLUME_NUMBER: &'static str = "{n}";

/// The volume format a package starts with. A word before the number, because a bare number lands
/// beside the version in a file name and `brasil-2-1.0.0` reads as one run of digits.
pub const DEFAULT_VOLUME_FORMAT: &'static str = "vol{n}";

/// A package being curated, seen through one of its volumes.
#[derive(Debug, Clone)]
pub struct PackageRow {
    /// Stable package identifier. The first volume's id is the same value.
    pub id: String,
    /// Display name.
    pub name: String,
    /// This volume's version string.
    pub version: String,
    /// Who made it.
    pub publisher: Option<String>,
    /// The first song number this volume assigns when numbering automatically.
    pub start_number: u32,
    /// Files any song that names no language of its own under this code, in the package only.
    pub default_language: Option<String>,
    /// Where this volume's `.kmpkg` was last written.
    pub out_path: Option<String>,
    /// When this volume was last built.
    pub built_at: Option<String>,
    /// How many songs this volume holds.
    pub song_count: u32,
    /// Which volume this row shows, from 1.
    pub volume: u32,
    /// This volume's own id, which a build writes into its manifest and a machine banks.
    pub volume_id: String,
    /// How many volumes the package has.
    pub volumes: u32,
    /// How many songs the whole package holds.
    pub total_songs: u32,
    /// How a volume's number is written after the name, with `{n}` standing for the number.
    pub volume_format: String,
    /// Numbers the volume while the package has only one, for a set that will outgrow 999 songs.
    pub number_one_volume: bool,
}

/// What [`PackageRow::volume_name`] calls a volume.
pub open spec fn volume_name_of(row: PackageRow) -> Seq<char> {
    if row.volumes > 1 || row.number_one_volume {
        row.name@ + seq![' '] + replace_all(row.volume_format@, "{n}"@, decimal(row.volume as nat))
    } else {
        row.name@
    }
}

impl PackageRow {
    /// A row for a package that does not exist yet, which the create form and an import fill in.
    pub fn new(id: &str, name: &str) -> (row: Self)
        ensures
            row.id@ == id@,
            row.name@ == name@,
            row.version@ == "1.0.0"@,
            row.publisher is None,
            row.start_number == 1,
            row.default_language matches Some(l) && l@ == "en"@,
            row.out_path is None,
            row.built_at is None,
            row.song_count == 0,
            row.volume == 1,
            row.volume_id@ == id@,
            row.volumes == 1,
            row.total_songs == 0,
            row.volume_format@ == "vol{n}"@,
            !row.number_one_volume,
    {
        PackageRow {
            id: crate::text::owned(id),
            name: crate::text::owned(name),
            version: crate::text::owned("1.0.0"),
            publisher: None,
            start_number: 1,
            default_language: Some(crate::text::owned("en")),
            out_path: None,
            built_at: None,
            song_count: 0,
            volume: 1,
            volume_id: crate::text::owned(id),
            volumes: 1,
            total_songs: 0,
            volume_format: crate::text::owned(DEFAULT_VOLUME_FORMAT),
            number_one_volume: false,
        }
    }

    /// What this volume's file and manifest are called: the package's name while it has one
    /// volume, and numbered once it has two, every volume alike: `Brasil vol1`, `Brasil vol2`.
    pub fn volume_name(&self) -> (out: String)
        ensures
            out@ == volume_name_of(*self),
    {
        if self.volumes > 1 || self.number_one_volume {
            let mut out = chars_of(self.name.as_str());
            out.push(' ');
            let format = chars_of(self.volume_format.as_str());
            let pat = chars_of(VOLUME_NUMBER);
            proof {
                reveal_strlit("{n}");
            }
            let number = decimal_of(self.volume as u64);
            let replaced = replace_chars(format.as_slice(), pat.as_slice(), number.as_slice());
            push_all(&mut out, replaced.as_slice());
            string_of(out.as_slice())
        } else {
            self.name.clone()
        }
    }
}

/// A song carrying something a person typed, flat, for a backup to write down.
#[derive(Debug, Clone)]
pub struct HandSetSong {
    /// The content hash of the file's bytes, which is the song's id and a backup's rejoin key.
    pub id: String,
    /// The title somebody typed.
    pub title: Option<String>,
    /// The performer somebody typed.
    pub artist: Option<String>,
    /// The language somebody chose, as an ISO 639-1 tag.
    pub language: Option<String>,
    /// The lyric encoding somebody pinned.
    pub lyric_encoding: Option<String>,
    /// The transposition to apply by default.
    pub default_transpose: Option<i64>,
    /// Whether to draw the song's words. `None` is *nobody has said*.
    pub lyrics_hidden: Option<bool>,
    /// The corrections somebody decided on, as stored JSON.
    pub fixes: Option<String>,
    /// The melody channel somebody named.
    pub melody_chosen: Option<String>,
    /// How good a karaoke file somebody said this is, 0-10. `None` is unset, which is not 0.
    pub user_score: Option<i64>,
    /// Whatever somebody wrote about it.
    pub notes: Option<String>,
    /// The song this one was folded into, when somebody said they are the same recording.
    pub merged_into: Option<String>,
    /// What this song is called here, for a report to name it by. Never restored.
    pub seen_as: String,
}

/// One member of a package.
#[derive(Debug, Clone)]
pub struct PackageMember {
    /// The queueing number.
    pub number: u32,
    /// The song's content hash.
    pub song_id: String,
    /// Title as it would be written into the package.
    pub title: String,
    /// Performer as it would be written into the package.
    pub artist: Option<String>,
    /// The language to act on, as the browse column draws it.
    pub language: Option<String>,
    /// Automatic suitability, or `None` for a video song, which has none.
    pub suitability: Option<u8>,
    /// What a person rated the song.
    pub user_score: Option<u8>,
    /// Which channel carries the tune, when one was found.
    pub melody_channel: Option<u8>,
    /// Length in milliseconds.
    pub duration_ms: u32,
    /// The file this entry reads from, when it still exists.
    pub path: Option<String>,
}

impl PackageMember {
    /// Length as `m:ss`.
    pub fn duration(&self) -> (out: String)
        ensures
            out@ == duration_text(self.duration_ms as nat),
    {
        format_duration(self.duration_ms)
    }

    /// The language of this member's tag, for the cell's tooltip; `named` is what the language
    /// table calls the tag, when it knows it.
    pub fn language_name<'a>(&'a self, named: Option<&'a str>) -> (out: &'a str)
        ensures
            out@ == language_name_of(
                match self.language {
                    Some(l) => Some(l@),
                    None => None,
                },
                match named {
                    Some(n) => Some(n@),
                    None => None,
                },
            ),
    {
        let tag: Option<&str> = match &self.language {
            Some(l) => Some(l.as_str()),
            None => None,
        };
        language_name(tag, named)
    }
}

/// One warning, as stored in the `warnings` JSON column.
#[derive(Debug, Clone)]
pub struct StoredWarning {
    /// Machine-readable code.
    pub code: String,
    /// What is wrong, in words a packager can act on.
    pub message: String,
}


// -- one row of the browse table -----------------------------------------------------------

/// One row of the browse table.
#[derive(Debug)]
pub struct SongRow {
    /// Content hash.
    pub id: String,
    /// The title to show: hand-typed if there is one, detected otherwise.
    pub title: String,
    /// The performer to show, if any is known.
    pub artist: Option<String>,
    /// Whether the shown title or artist was typed by a person.
    pub edited: bool,
    /// Length in milliseconds.
    pub duration_ms: u32,
    /// What kind of song this is.
    pub kind: SongKind,
    /// Automatic suitability, 0 to 10; a flat 10 for a song made to be sung to.
    pub suitability: Option<u8>,
    /// The person's own rating, when they have given one.
    pub user_score: Option<u8>,
    /// How many favorites it is in.
    pub favorite_count: u32,
    /// Of those, how many are not a working list.
    pub permanent_count: u32,
    /// The melody channel, when one was found.
    pub melody_channel: Option<u8>,
    /// How many files on disk are byte-identical copies of this.
    pub file_count: u32,
    /// How many files look like this same recording, itself included.
    pub version_count: u32,
    /// The version the song list shows in this one's place, when this one is hidden behind it.
    pub duplicate_of: Option<String>,
    /// Whether the song has any words at all.
    pub has_words: bool,
    /// The first file's path, for the open and play actions.
    pub path: String,
    /// Every copy's path, newline-separated.
    pub paths: String,
    /// Whether the title is only the file's name.
    pub from_filename: bool,
    /// The language to act on, as its code.
    pub language: Option<String>,
    /// What this song is filed under, sorted.
    pub tags: Vec<String>,
    /// Where this song sits in the quality hint, when one has been asked for.
    pub hint: Option<u32>,
    /// What the artist link says it would show.
    pub artist_title: String,
    /// What the melody tick says.
    pub melody_title: String,
    /// What the versions badge says.
    pub versions_title: String,
    /// What the favorites button says.
    pub favorite_title: String,
    /// The title's tooltip.
    pub path_said: String,
    /// How alike this song's name is to the one searched for, as a whole percentage rounded to the
    /// nearest, on the similar-names list and `None` on every other.
    pub likeness_percent: Option<u32>,
    /// Whether this is the song a similar-names search started from.
    pub searched_from: bool,
}

/// A row's language as a text, for marking the picker's options.
pub fn song_language(song: &SongRow) -> (language: Option<&str>)
    ensures
        match (language, song.language) {
            (Some(shown), Some(tag)) => shown@ == tag@,
            (None, None) => true,
            _ => false,
        },
{
    match &song.language {
        Some(tag) => Some(tag.as_str()),
        None => None,
    }
}

/// The copy a row's title shows on hover: its one path when no copies are listed, else the nicest.
pub open spec fn display_path_of(path: Seq<char>, paths: Seq<char>) -> Seq<char> {
    if paths.len() == 0 {
        path
    } else {
        nicest_of(paths)
    }
}

/// What follows the last `/`, or the whole text when there is none.
pub open spec fn last_segment(s: Seq<char>) -> Seq<char> {
    let k = last_index_of(s, '/');
    if k < 0 {
        s
    } else {
        s.skip(k + 1)
    }
}

impl SongRow {
    /// The likeness as a whole percentage and a sign, or nothing when the row has none.
    pub fn likeness_text(&self) -> (out: String)
        ensures
            out@ == match self.likeness_percent {
                Some(p) => decimal(p as nat) + "%"@,
                None => Seq::<char>::empty(),
            },
    {
        match self.likeness_percent {
            Some(p) => {
                let mut out = decimal_of(p as u64);
                push_str(&mut out, "%");
                string_of(out.as_slice())
            },
            None => String::new(),
        }
    }

    /// Whether the likeness is high enough to draw in the color that means good: above 90%.
    pub fn likeness_is_high(&self) -> (b: bool)
        ensures
            b == (self.likeness_percent matches Some(p) && p > 90),
    {
        match self.likeness_percent {
            Some(p) => p > 90,
            None => false,
        }
    }

    /// The language of this row's tag, for the cell's tooltip; `named` is what the language table
    /// calls the tag, when it knows it.
    pub fn language_name<'a>(&'a self, named: Option<&'a str>) -> (out: &'a str)
        ensures
            out@ == language_name_of(
                match self.language {
                    Some(l) => Some(l@),
                    None => None,
                },
                match named {
                    Some(n) => Some(n@),
                    None => None,
                },
            ),
    {
        let tag: Option<&str> = match &self.language {
            Some(l) => Some(l.as_str()),
            None => None,
        };
        language_name(tag, named)
    }

    /// Where the similar-names button goes for this row, from the names it shows; `searchable` is
    /// whether the similar-names search can make a query of them.
    pub fn similar_url(&self, searchable: bool) -> (out: String)
        ensures
            out@ == if searchable {
                similar_url_text(
                    self.title@,
                    match self.artist {
                        Some(a) => a@,
                        None => Seq::<char>::empty(),
                    },
                    self.id@,
                )
            } else {
                Seq::<char>::empty()
            },
    {
        match &self.artist {
            Some(a) => similar_url(self.title.as_str(), a.as_str(), self.id.as_str(), searchable),
            None => {
                let none = String::new();
                similar_url(self.title.as_str(), none.as_str(), self.id.as_str(), searchable)
            },
        }
    }

    /// This row's language as the select spells it, or nothing when it has none.
    pub fn language_text(&self) -> (out: String)
        ensures
            out@ == match self.language {
                Some(l) => l@,
                None => Seq::<char>::empty(),
            },
    {
        match &self.language {
            Some(l) => l.clone(),
            None => String::new(),
        }
    }

    /// Length as `m:ss`, or a dash when the file claims none.
    pub fn duration(&self) -> (out: String)
        ensures
            out@ == duration_text(self.duration_ms as nat),
    {
        format_duration(self.duration_ms)
    }

    /// The person's rating as text, blank when they have not given one.
    pub fn user_score_text(&self) -> (out: String)
        ensures
            out@ == score_text_of(self.user_score),
    {
        score_text(self.user_score)
    }

    /// This row's place in the quality hint as text, empty when it has none.
    pub fn hint_text(&self) -> (out: String)
        ensures
            out@ == match self.hint {
                Some(at) => decimal(at as nat),
                None => Seq::<char>::empty(),
            },
    {
        match self.hint {
            Some(at) => {
                let v = decimal_of(at as u64);
                string_of(v.as_slice())
            },
            None => String::new(),
        }
    }

    /// The path to show when somebody hovers the title: the copy worth showing.
    pub fn display_path(&self) -> (out: String)
        ensures
            out@ == display_path_of(self.path@, self.paths@),
    {
        if chars_of(self.paths.as_str()).len() == 0 {
            self.path.clone()
        } else {
            nicest_path(self.paths.as_str())
        }
    }

    /// The name of that copy, without its folders: split on `/`, because stored paths are relative
    /// with forward slashes on every platform and a `\` is an ordinary character in a name.
    pub fn file_name(&self) -> (out: String)
        ensures
            out@ == last_segment(display_path_of(self.path@, self.paths@)),
    {
        let d = self.display_path();
        let v = chars_of(d.as_str());
        match find_last(v.as_slice(), '/', v.len()) {
            Some(k) => {
                proof {
                    assert(v@.take(v@.len() as int) =~= v@);
                }
                let rest = slice_of(v.as_slice(), k + 1, v.len());
                proof {
                    assert(rest@ =~= v@.skip(k + 1));
                }
                string_of(rest.as_slice())
            },
            None => {
                proof {
                    assert(v@.take(v@.len() as int) =~= v@);
                }
                d
            },
        }
    }

    /// Where clicking this row's artist goes, or nothing when there is nothing to click: the artist
    /// alone, replacing the filter.
    pub fn artist_url(&self) -> (out: String)
        ensures
            out@ == match self.artist {
                Some(a) => if trim(a@).len() > 0 {
                    "/songs?artist="@ + encoded_bytes(vstd::utf8::encode_utf8(trim(a@)))
                } else {
                    Seq::<char>::empty()
                },
                None => Seq::<char>::empty(),
            },
    {
        match &self.artist {
            Some(a) => {
                let t = crate::text::trimmed(a.as_str());
                if chars_of(t.as_str()).len() > 0 {
                    let mut out = chars_of("/songs?artist=");
                    let e = encode(t.as_str());
                    push_str(&mut out, e.as_str());
                    string_of(out.as_slice())
                } else {
                    String::new()
                }
            },
            None => String::new(),
        }
    }

    /// What hovering the title says.
    pub fn path_tooltip(&self) -> (out: String)
        ensures
            out@ == self.path_said@,
    {
        self.path_said.clone()
    }

    /// Where the same-words button goes, or nothing for a song with no words.
    pub fn words_url(&self) -> (out: String)
        ensures
            out@ == if self.has_words {
                "/similar-words?from="@ + encoded_bytes(vstd::utf8::encode_utf8(self.id@))
            } else {
                Seq::<char>::empty()
            },
    {
        if self.has_words {
            words_url(self.id.as_str())
        } else {
            String::new()
        }
    }

    /// The artist a YouTube search uses, if any.
    pub open spec fn artist_seen(&self) -> Option<Seq<char>> {
        match self.artist {
            Some(a) => Some(a@),
            None => None,
        }
    }

    /// Whether a YouTube search would be worth offering.
    pub fn searchable(&self) -> (b: bool)
        ensures
            b == (youtube_query_of(self.title@, self.artist_seen(), self.path@) is Some),
    {
        let artist: Option<&str> = match &self.artist {
            Some(a) => Some(a.as_str()),
            None => None,
        };
        youtube_query(self.title.as_str(), artist, self.path.as_str()).is_some()
    }

    /// The YouTube search address, or nothing when there is nothing worth searching for.
    pub fn youtube_url(&self) -> (out: String)
        ensures
            out@ == match youtube_query_of(self.title@, self.artist_seen(), self.path@) {
                Some(q) => "https://www.youtube.com/results?search_query="@ + encoded_bytes(
                    vstd::utf8::encode_utf8(q),
                ),
                None => Seq::<char>::empty(),
            },
    {
        let artist: Option<&str> = match &self.artist {
            Some(a) => Some(a.as_str()),
            None => None,
        };
        match youtube_query(self.title.as_str(), artist, self.path.as_str()) {
            Some(q) => {
                let mut out = chars_of("https://www.youtube.com/results?search_query=");
                let e = encode(q.as_str());
                push_str(&mut out, e.as_str());
                string_of(out.as_slice())
            },
            None => String::new(),
        }
    }
}

} // verus!
