//! How a run is shaped: whether it shows a window, an icon in the bar, a browser tab, and whether a
//! folder named on the command line is opened before the server answers, all from which executable
//! is running, what this build can do, and the flags a person typed. And the page shown when
//! starting fails where nothing else could say so.

use vstd::prelude::*;
use crate::text::{chars_of, string_of, push_all, push_str, replace_all, replace_chars, find_last,
    last_index_of, same_ignoring_ascii_case, eq_ignore_ascii_case};
use crate::model::{file_name_of, file_name_range};

verus! {

/// What this program is called to a person reading it with room.
pub const APP_NAME: &'static str = "KaraokeMachine Package Builder";

/// What this program is called on an icon, where nine characters is the whole budget.
pub const APP_NAME_SHORT: &'static str = "KM Package Builder";

/// The port the server listens on unless told otherwise: one past the karaoke app's own.
pub const DEFAULT_PORT: u16 = 8178;

/// Which of the two executables is running. Not a flag: a person chooses which icon to
/// double-click or which name to type.
#[derive(Debug, Clone, Copy, PartialEq, Eq, Structural)]
pub enum Shell {
    /// `km-package-builder`: a window of its own, where the build has one.
    Windowed,
    /// `km-package-builder-console`: never a window; the browser-served tool.
    Console,
}

/// What the build this run is part of can do, fixed when it was compiled.
#[derive(Debug, Clone, Copy, PartialEq, Eq, Structural)]
pub struct Build {
    /// Whether the build has a window to open (the `desktop` feature).
    pub has_window: bool,
    /// Whether it runs on Windows, where a windowed executable is a GUI-subsystem image.
    pub on_windows: bool,
}

/// The command line, as the flags a person typed.
#[derive(Debug)]
pub struct Cli {
    /// The folder of karaoke files to curate, or its `.kmbuild` file. Without it, the picker.
    pub root: Option<String>,
    /// Create the database in this folder if it does not exist.
    pub init: bool,
    /// Port to listen on.
    pub port: u16,
    /// Listen on every network interface rather than loopback only.
    pub lan: bool,
    /// The karaoke machine to test-play songs on and install packages to, for this run only.
    pub machine: Option<String>,
    /// Start a scan as soon as the server is up.
    pub scan: bool,
    /// Save everything edited in this folder to a file, then exit.
    pub backup: Option<String>,
    /// Restore a backup into this folder's database, then exit.
    pub restore: Option<String>,
    /// With a restore, replace existing values instead of only filling in blanks.
    pub overwrite: bool,
    /// Read every song again and update what the analysis says, then exit.
    pub reanalyze: bool,
    /// Open a browser at the address once the server is listening.
    pub open: bool,
    /// Show the page in a browser rather than in a window of its own.
    pub browser: bool,
    /// Start on the Open page rather than reopening the folder from last time.
    pub pick: bool,
    /// Make `.kmbuild` files open with this executable, then exit.
    pub register: bool,
    /// Undo a registration, then exit.
    pub unregister: bool,
    /// Also write this run's log to a file.
    pub log_file: bool,
    /// Send this run's log to the log viewer at this address.
    pub ecapplog: Option<String>,
    /// How much to say: each `-v` once more.
    pub verbose: u8,
}

/// Whether this run will put the page in a window of its own: the windowed executable of a build
/// that has one, unless `--browser` declines it or `--lan` serves a house nobody is sitting at.
pub fn will_have_a_window(shell: Shell, build: Build, cli: &Cli) -> (b: bool)
    ensures
        b == (shell == Shell::Windowed && build.has_window && !cli.browser && !cli.lan),
{
    shell == Shell::Windowed && build.has_window && !cli.browser && !cli.lan
}

/// Whether this executable detaches from the shell that started it: a GUI-subsystem image, which
/// is the windowed executable of a windowed build on Windows. It says nothing about whether a
/// window opens.
pub fn detaches_from_the_shell(shell: Shell, build: Build) -> (b: bool)
    ensures
        b == (shell == Shell::Windowed && build.on_windows && build.has_window),
{
    shell == Shell::Windowed && build.on_windows && build.has_window
}

/// Whether this run puts an icon in the bar. It does not depend on the window: a run that declined
/// one is exactly the run with nothing else to show for itself.
pub fn will_have_a_tray(shell: Shell, build: Build) -> (b: bool)
    ensures
        b == (shell == Shell::Windowed && build.has_window),
{
    shell == Shell::Windowed && build.has_window
}

/// Whether to hand the address to a browser once the server is listening: when asked to, or when
/// nobody can read the address, unless a window is about to show the page.
pub fn will_open_a_browser(shell: Shell, build: Build, cli: &Cli, nowhere_to_talk: bool) -> (b: bool)
    ensures
        b == (!(shell == Shell::Windowed && build.has_window && !cli.browser && !cli.lan) && (cli.open
            || nowhere_to_talk)),
{
    !will_have_a_window(shell, build, cli) && (cli.open || nowhere_to_talk)
}

/// Whether a folder named on the command line is opened before the server answers, or handed to
/// the Open page as a job: deferred only for the double-click, where a refusal returned out of
/// `main` would be read by nobody; eager wherever a sentence printed would be seen, and for every
/// flag that names a corpus it cannot act on until it is open.
pub fn opens_eagerly(shell: Shell, build: Build, cli: &Cli, nowhere_to_talk: bool) -> (b: bool)
    ensures
        b == (!(shell == Shell::Windowed && build.has_window && !cli.browser && !cli.lan)
            || !nowhere_to_talk || cli.init || cli.scan || cli.backup is Some || cli.restore is Some
            || cli.reanalyze),
{
    !will_have_a_window(shell, build, cli) || !nowhere_to_talk || cli.init || cli.scan
        || cli.backup.is_some() || cli.restore.is_some() || cli.reanalyze
}

/// A window and a browser tab are never both opened for one run: a window is the page being shown,
/// so it satisfies `--open` rather than competing with it.
pub proof fn law_never_a_window_and_a_browser(shell: Shell, build: Build, browser: bool, lan: bool, open: bool, nowhere_to_talk: bool)
    ensures
        !((shell == Shell::Windowed && build.has_window && !browser && !lan) && (!(shell == Shell::Windowed
            && build.has_window && !browser && !lan) && (open || nowhere_to_talk))),
        shell == Shell::Console ==> !(shell == Shell::Windowed && build.has_window && !browser && !lan),
{
}

// -- the failure page ----------------------------------------------------------------------

/// A text with the three characters that would end the element it sits in written as entities:
/// `&` first, so an entity written for one of the others is not written over.
pub open spec fn escaped(s: Seq<char>) -> Seq<char> {
    replace_all(replace_all(replace_all(s, "&"@, "&amp;"@), "<"@, "&lt;"@), ">"@, "&gt;"@)
}

/// The three characters that would otherwise end the element they are sitting in.
pub fn escape_html(text: &str) -> (out: String)
    ensures
        out@ == escaped(text@),
{
    let v = chars_of(text);
    let amp = chars_of("&");
    let lt = chars_of("<");
    let gt = chars_of(">");
    proof {
        reveal_strlit("&");
        reveal_strlit("<");
        reveal_strlit(">");
    }
    let a = replace_chars(v.as_slice(), amp.as_slice(), chars_of("&amp;").as_slice());
    let b = replace_chars(a.as_slice(), lt.as_slice(), chars_of("&lt;").as_slice());
    let c = replace_chars(b.as_slice(), gt.as_slice(), chars_of("&gt;").as_slice());
    string_of(c.as_slice())
}

/// The page the failure window shows, before the message and heading are put in.
pub open spec fn failure_page(title: Seq<char>, heading: Seq<char>, message: Seq<char>) -> Seq<char> {
    "<!doctype html>\n<meta charset=\"utf-8\">\n<title>"@ + title + "</title>\n<style>\n  :root { color-scheme: light dark; }\n  body {\n    margin: 0; padding: 2rem;\n    font: 15px/1.5 system-ui, -apple-system, \"Segoe UI\", sans-serif;\n    background: #fbfbfb; color: #1c1c1c;\n  }\n  h1 { margin: 0 0 0.75rem; font-size: 1.15rem; font-weight: 600; }\n  p { margin: 0; white-space: pre-wrap; }\n  @media (prefers-color-scheme: dark) {\n    body { background: #1e1e1e; color: #e8e8e8; }\n  }\n</style>\n<h1>"@
        + heading + "</h1>\n<p>"@ + message + "</p>\n"@
}

/// The one-sentence page the failure window shows: self-contained, because the server that serves
/// the stylesheet is the thing that did not start, and every text in it escaped. `heading` is the
/// sentence saying the program could not start, in the person's language.
pub fn failure_html(message: &str, heading: &str) -> (page: String)
    ensures
        page@ == failure_page(escaped(APP_NAME@), escaped(heading@), escaped(message@)),
{
    let mut out = chars_of("<!doctype html>\n<meta charset=\"utf-8\">\n<title>");
    let title = escape_html(APP_NAME);
    push_str(&mut out, title.as_str());
    push_str(&mut out, "</title>\n<style>\n  :root { color-scheme: light dark; }\n  body {\n    margin: 0; padding: 2rem;\n    font: 15px/1.5 system-ui, -apple-system, \"Segoe UI\", sans-serif;\n    background: #fbfbfb; color: #1c1c1c;\n  }\n  h1 { margin: 0 0 0.75rem; font-size: 1.15rem; font-weight: 600; }\n  p { margin: 0; white-space: pre-wrap; }\n  @media (prefers-color-scheme: dark) {\n    body { background: #1e1e1e; color: #e8e8e8; }\n  }\n</style>\n<h1>");
    let h = escape_html(heading);
    push_str(&mut out, h.as_str());
    push_str(&mut out, "</h1>\n<p>");
    let m = escape_html(message);
    push_str(&mut out, m.as_str());
    push_str(&mut out, "</p>\n");
    string_of(out.as_slice())
}

proof fn lemma_replacing_removes(s: Seq<char>, c: char, rep: Seq<char>)
    requires
        !rep.contains(c),
    ensures
        !replace_all(s, seq![c], rep).contains(c),
    decreases s.len(),
{
    if s.len() >= 1 {
        if s.take(1) == seq![c] {
            lemma_replacing_removes(s.skip(1), c, rep);
            let r = replace_all(s.skip(1), seq![c], rep);
            assert forall|i: int| 0 <= i < (rep + r).len() implies (rep + r)[i] != c by {
                if i < rep.len() {
                    assert((rep + r)[i] == rep[i]);
                } else {
                    assert((rep + r)[i] == r[i - rep.len()]);
                }
            }
        } else {
            lemma_replacing_removes(s.drop_first(), c, rep);
            assert(s.take(1)[0] == s[0]);
            assert(s[0] != c) by {
                if s[0] == c {
                    assert(s.take(1) =~= seq![c]);
                }
            }
            let r = replace_all(s.drop_first(), seq![c], rep);
            assert forall|i: int| 0 <= i < (seq![s[0]] + r).len() implies (seq![s[0]] + r)[i] != c by {
                if i > 0 {
                    assert((seq![s[0]] + r)[i] == r[i - 1]);
                }
            }
        }
    }
}

proof fn lemma_replacing_keeps_out(s: Seq<char>, c: char, rep: Seq<char>, d: char)
    requires
        !s.contains(d),
        !rep.contains(d),
    ensures
        !replace_all(s, seq![c], rep).contains(d),
    decreases s.len(),
{
    if s.len() >= 1 {
        if s.take(1) == seq![c] {
            assert forall|i: int| 0 <= i < s.skip(1).len() implies s.skip(1)[i] != d by {
                assert(s.skip(1)[i] == s[i + 1]);
            }
            lemma_replacing_keeps_out(s.skip(1), c, rep, d);
            let r = replace_all(s.skip(1), seq![c], rep);
            assert forall|i: int| 0 <= i < (rep + r).len() implies (rep + r)[i] != d by {
                if i < rep.len() {
                    assert((rep + r)[i] == rep[i]);
                } else {
                    assert((rep + r)[i] == r[i - rep.len()]);
                }
            }
        } else {
            assert forall|i: int| 0 <= i < s.drop_first().len() implies s.drop_first()[i] != d by {
                assert(s.drop_first()[i] == s[i + 1]);
            }
            lemma_replacing_keeps_out(s.drop_first(), c, rep, d);
            let r = replace_all(s.drop_first(), seq![c], rep);
            assert(s[0] != d);
            assert forall|i: int| 0 <= i < (seq![s[0]] + r).len() implies (seq![s[0]] + r)[i] != d by {
                if i > 0 {
                    assert((seq![s[0]] + r)[i] == r[i - 1]);
                }
            }
        }
    }
}

/// Whatever the message, an escaped text holds no `<` and no `>`, so it cannot end the element it
/// is put in or open another.
pub proof fn law_an_escaped_text_holds_no_angle_brackets(s: Seq<char>)
    ensures
        !escaped(s).contains('<'),
        !escaped(s).contains('>'),
{
    reveal_strlit("&");
    reveal_strlit("<");
    reveal_strlit(">");
    reveal_strlit("&amp;");
    reveal_strlit("&lt;");
    reveal_strlit("&gt;");
    let a = replace_all(s, "&"@, "&amp;"@);
    assert("<"@ =~= seq!['<']);
    assert(">"@ =~= seq!['>']);
    assert("&"@ =~= seq!['&']);
    assert(!"&lt;"@.contains('<')) by {
        assert forall|i: int| 0 <= i < "&lt;"@.len() implies "&lt;"@[i] != '<' by {}
    }
    assert(!"&gt;"@.contains('>')) by {
        assert forall|i: int| 0 <= i < "&gt;"@.len() implies "&gt;"@[i] != '>' by {}
    }
    assert(!"&gt;"@.contains('<')) by {
        assert forall|i: int| 0 <= i < "&gt;"@.len() implies "&gt;"@[i] != '<' by {}
    }
    lemma_replacing_removes(a, '<', "&lt;"@);
    let b = replace_all(a, "<"@, "&lt;"@);
    lemma_replacing_removes(b, '>', "&gt;"@);
    lemma_replacing_keeps_out(b, '>', "&gt;"@, '<');
}


// -- which path names a corpus -------------------------------------------------------------

/// The extension of a corpus's database file, `.kmbuild`, without its dot.
pub const DATABASE_EXTENSION: &'static str = "kmbuild";

/// A file name's extension, as `Path::extension` reads it: what follows the last `.`, unless that
/// `.` starts the name.
pub open spec fn extension_of(name: Seq<char>) -> Option<Seq<char>> {
    let k = last_index_of(name, '.');
    if k <= 0 {
        None
    } else {
        Some(name.skip(k + 1))
    }
}

/// Whether a path's file name carries the database's extension, in any case: a double-clicked
/// document arrives in whatever case the file was made with.
pub open spec fn names_a_database_file(path: Seq<char>) -> bool {
    match file_name_of(path) {
        Some(name) => match extension_of(name) {
            Some(ext) => same_ignoring_ascii_case(ext, DATABASE_EXTENSION@),
            None => false,
        },
        None => false,
    }
}

/// Whether a path names a corpus's database file by its extension, `.kmbuild` in any case.
pub fn names_a_database(path: &str) -> (b: bool)
    ensures
        b == names_a_database_file(path@),
{
    let v = chars_of(path);
    match file_name_range(v.as_slice()) {
        None => false,
        Some((a, b)) => {
            let name = crate::text::slice_of(v.as_slice(), a, b);
            proof {
                assert(name@ =~= v@.subrange(a as int, b as int));
            }
            match find_last(name.as_slice(), '.', name.len()) {
                None => {
                    proof {
                        assert(name@.take(name@.len() as int) =~= name@);
                    }
                    false
                },
                Some(k) => {
                    proof {
                        assert(name@.take(name@.len() as int) =~= name@);
                    }
                    if k == 0 {
                        false
                    } else {
                        let ext = crate::text::slice_of(name.as_slice(), k + 1, name.len());
                        proof {
                            assert(ext@ =~= name@.skip(k + 1));
                        }
                        let want = chars_of(DATABASE_EXTENSION);
                        eq_ignore_ascii_case(ext.as_slice(), want.as_slice())
                    }
                },
            }
        },
    }
}


// -- how much a run says -------------------------------------------------------------------

/// This library's own tracing target.
pub const SELF_TARGET: &'static str = "km_package_builder";

/// Dependencies that speak once per file, held down to errors: an MP3 demuxer announces itself on
/// every pair a scan opens.
pub const QUIET_DEPENDENCIES: &'static str = "symphonia_bundle_mp3=error,symphonia_core=error";

/// The tracing filter a run asks for: `RUST_LOG` whole when it is set; else the settings file's
/// level when nobody typed `-v`; else the ladder, where the default is plain `info` with the noisy
/// dependencies held down, `-v` adds this tool's own debug stream, and `-vv` or more asks for
/// everything.
pub open spec fn log_filter_of(verbose: u8, rust_log: Option<Seq<char>>, settings_level: Option<Seq<char>>) -> Seq<char> {
    match rust_log {
        Some(f) => f,
        None => match settings_level {
            Some(level) if verbose == 0 => level,
            _ => if verbose == 0 {
                "info,"@ + QUIET_DEPENDENCIES@
            } else if verbose == 1 {
                "info,"@ + SELF_TARGET@ + "=debug,"@ + QUIET_DEPENDENCIES@
            } else {
                "debug,"@ + SELF_TARGET@ + "=trace"@
            },
        },
    }
}

/// The tracing filter this run asks for, given how many `-v` were typed, what `RUST_LOG` holds if
/// it is set, and the level the settings file names if it names a readable one.
pub fn log_filter(verbose: u8, rust_log: Option<&str>, settings_level: Option<&str>) -> (filter: String)
    ensures
        filter@ == log_filter_of(verbose, crate::model::optional_text(rust_log), crate::model::optional_text(settings_level)),
{
    if let Some(f) = rust_log {
        return crate::text::owned(f);
    }
    if verbose == 0 {
        if let Some(level) = settings_level {
            return crate::text::owned(level);
        }
    }
    let mut out: Vec<char>;
    if verbose == 0 {
        out = chars_of("info,");
        push_str(&mut out, QUIET_DEPENDENCIES);
    } else if verbose == 1 {
        out = chars_of("info,");
        push_str(&mut out, SELF_TARGET);
        push_str(&mut out, "=debug,");
        push_str(&mut out, QUIET_DEPENDENCIES);
    } else {
        out = chars_of("debug,");
        push_str(&mut out, SELF_TARGET);
        push_str(&mut out, "=trace");
    }
    string_of(out.as_slice())
}

} // verus!
