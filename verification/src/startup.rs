//! The order a start goes in, as steps: each step takes what the last piece of outside work found
//! and says what to do next. The work itself (resolving a path, looking for last time's folder,
//! asking whether a console is there, checking for a database, binding the socket) is the caller's.
//!
//! Registering and its opposite come first and leave. Everything that can refuse the start comes
//! before the socket is bound, so no address is printed for a server that is about to exit. The
//! three flags that do one job and leave (backup, restore, reanalyze) leave before the bind too.

use vstd::prelude::*;
use crate::text::{chars_of, string_of, push_str, push_all, decimal, decimal_of};
use crate::shell::{Shell, Build, Cli, opens_eagerly, detaches_from_the_shell, will_open_a_browser,
    will_have_a_tray, will_have_a_window};

verus! {

/// Where a start has got to, and what it has learned so far: whether a folder was named and
/// resolved (`root`), whether last time's folder is there to reopen (`reopen`), and whether nothing
/// printed will be read (`quiet`).
#[derive(Debug, Clone, Copy, PartialEq, Eq, Structural)]
pub enum Stage {
    /// Nothing done yet.
    Begun,
    /// Waiting for what the path on the command line refers to.
    Resolving,
    /// Waiting for last time's folder.
    Rooted { root: bool },
    /// Waiting to learn whether anything printed will be read.
    Placed { root: bool, reopen: bool },
    /// Waiting for the named folder's database to be found.
    Checking { root: bool, reopen: bool, quiet: bool },
    /// Waiting for the socket.
    Binding { root: bool, reopen: bool, quiet: bool },
    /// The start has done what it does; the last action says what that was.
    Over,
}

/// What the path on the command line turned out to name.
#[derive(Debug, Clone, Copy, PartialEq, Eq, Structural)]
pub enum RootFound {
    /// No path was named.
    NoneNamed,
    /// A folder, or the `.kmbuild` file inside one.
    Folder,
    /// Neither.
    NotAFolder,
}

/// How binding the socket went.
#[derive(Debug, Clone, Copy, PartialEq, Eq, Structural)]
pub enum BindOutcome {
    /// Listening.
    Listening,
    /// Something else already listens on the address.
    Taken,
    /// Any other failure.
    Failed,
}

/// What the last piece of outside work found.
#[derive(Debug, Clone, Copy, PartialEq, Eq, Structural)]
pub enum Event {
    /// The start was asked for.
    Begin,
    /// What the path on the command line names.
    Root(RootFound),
    /// Whether last time's folder is still there and still openable.
    Reopen(bool),
    /// Whether nothing printed will be read: a process launched with no console behind it.
    WhereToTalk(bool),
    /// Whether the named folder holds a database this build opens.
    Database(bool),
    /// How binding went.
    Bound(BindOutcome),
}

/// Why a start stops short.
#[derive(Debug, Clone, Copy, PartialEq, Eq, Structural)]
pub enum Refusal {
    /// The path named is neither a folder nor a `.kmbuild` file.
    NotAFolder,
    /// The named folder holds no database to open, in the checker's own words.
    NoDatabase,
    /// `--reanalyze` in an executable that hands the prompt back before it starts.
    ReanalyzeHandsBackThePrompt,
    /// The address is taken.
    AddressTaken,
    /// Binding failed some other way.
    CouldNotBind,
}

/// How the folder this run is about gets opened.
#[derive(Debug, Clone, Copy, PartialEq, Eq, Structural)]
pub enum Opening {
    /// No folder: the Open page is where one is chosen.
    Nothing,
    /// Last time's folder, as a job the Open page shows finishing.
    Reopen,
    /// The named folder, as a job the Open page shows, so a refusal lands where it is seen.
    AsJob,
    /// The named folder, opened before serving; `create` makes its database first.
    Now { create: bool },
}

/// What a run that serves does once it is listening.
#[derive(Debug, Clone, Copy, PartialEq, Eq, Structural)]
pub struct Plan {
    /// How the folder is opened.
    pub opening: Opening,
    /// Whether to hand the address to a browser.
    pub open_browser: bool,
    /// Whether to warn that every interface is listening.
    pub warn_lan: bool,
    /// Whether to say that `--scan` waits for a folder to be chosen.
    pub scan_needs_folder: bool,
    /// Whether to start a scan as soon as the folder is open.
    pub scan_now: bool,
    /// Whether an event loop with an icon in the bar takes the main thread.
    pub tray: bool,
    /// Whether that loop shows the page in a window of its own.
    pub window: bool,
}

/// What to do next.
#[derive(Debug, Clone, Copy, PartialEq, Eq, Structural)]
pub enum Action {
    /// Associate `.kmbuild` files with this executable, then exit.
    Register,
    /// Take the association back off, then exit.
    Unregister,
    /// Find out what the path on the command line names.
    ResolveRoot,
    /// Look for last time's folder.
    FindFolderToReopen,
    /// Find out whether anything printed will be read.
    AskWhereToTalk,
    /// Make sure the named folder holds a database before anything is bound.
    RequireDatabase,
    /// Take the backup and make the restore asked for, then exit.
    BackupAndExit,
    /// Read every song again, then exit.
    ReanalyzeAndExit,
    /// Listen on the address the command line chose.
    Bind,
    /// Stop, for this reason.
    Refuse(Refusal),
    /// Serve, as planned.
    Serve(Plan),
    /// Nothing: this step was not waiting for that.
    Ignore,
}

/// The plan for a run that is listening.
pub open spec fn plan_of(shell: Shell, build: Build, cli: Cli, root: bool, reopen: bool, quiet: bool) -> Plan {
    let eager = opens_eagerly_spec(shell, build, cli, quiet);
    Plan {
        opening: if root {
            if eager {
                Opening::Now { create: cli.init }
            } else {
                Opening::AsJob
            }
        } else if reopen {
            Opening::Reopen
        } else {
            Opening::Nothing
        },
        open_browser: !window_spec(shell, build, cli) && (cli.open || quiet),
        warn_lan: cli.lan,
        scan_needs_folder: !root && cli.scan,
        scan_now: root && eager && cli.scan,
        tray: shell == Shell::Windowed && build.has_window,
        window: window_spec(shell, build, cli),
    }
}

/// Whether this run shows a window of its own, as [`will_have_a_window`] says.
pub open spec fn window_spec(shell: Shell, build: Build, cli: Cli) -> bool {
    shell == Shell::Windowed && build.has_window && !cli.browser && !cli.lan
}

/// Whether a named folder is opened before serving, as [`opens_eagerly`] says.
pub open spec fn opens_eagerly_spec(shell: Shell, build: Build, cli: Cli, quiet: bool) -> bool {
    !window_spec(shell, build, cli) || !quiet || cli.init || cli.scan || cli.backup is Some
        || cli.restore is Some || cli.reanalyze
}

/// Once nothing is left that could refuse the folder: the flags that do one job and leave, or the
/// bind.
pub open spec fn after_check(shell: Shell, build: Build, cli: Cli, root: bool, reopen: bool, quiet: bool) -> (Stage, Action) {
    if cli.backup is Some || cli.restore is Some {
        (Stage::Over, Action::BackupAndExit)
    } else if cli.reanalyze {
        if shell == Shell::Windowed && build.on_windows && build.has_window {
            (Stage::Over, Action::Refuse(Refusal::ReanalyzeHandsBackThePrompt))
        } else {
            (Stage::Over, Action::ReanalyzeAndExit)
        }
    } else {
        (Stage::Binding { root, reopen, quiet }, Action::Bind)
    }
}

/// The step a start takes from `stage` on `event`.
pub open spec fn next_step(shell: Shell, build: Build, cli: Cli, stage: Stage, event: Event) -> (Stage, Action) {
    match (stage, event) {
        (Stage::Begun, Event::Begin) => if cli.register {
            (Stage::Over, Action::Register)
        } else if cli.unregister {
            (Stage::Over, Action::Unregister)
        } else {
            (Stage::Resolving, Action::ResolveRoot)
        },
        (Stage::Resolving, Event::Root(found)) => match found {
            RootFound::NotAFolder => (Stage::Over, Action::Refuse(Refusal::NotAFolder)),
            RootFound::NoneNamed => if !cli.pick {
                (Stage::Rooted { root: false }, Action::FindFolderToReopen)
            } else {
                (Stage::Placed { root: false, reopen: false }, Action::AskWhereToTalk)
            },
            RootFound::Folder => (Stage::Placed { root: true, reopen: false }, Action::AskWhereToTalk),
        },
        (Stage::Rooted { root }, Event::Reopen(found)) => (
            Stage::Placed { root, reopen: found },
            Action::AskWhereToTalk,
        ),
        (Stage::Placed { root, reopen }, Event::WhereToTalk(quiet)) => if root && !cli.init
            && opens_eagerly_spec(shell, build, cli, quiet) {
            (Stage::Checking { root, reopen, quiet }, Action::RequireDatabase)
        } else {
            after_check(shell, build, cli, root, reopen, quiet)
        },
        (Stage::Checking { root, reopen, quiet }, Event::Database(there)) => if there {
            after_check(shell, build, cli, root, reopen, quiet)
        } else {
            (Stage::Over, Action::Refuse(Refusal::NoDatabase))
        },
        (Stage::Binding { root, reopen, quiet }, Event::Bound(outcome)) => match outcome {
            BindOutcome::Taken => (Stage::Over, Action::Refuse(Refusal::AddressTaken)),
            BindOutcome::Failed => (Stage::Over, Action::Refuse(Refusal::CouldNotBind)),
            BindOutcome::Listening => (Stage::Over, Action::Serve(plan_of(shell, build, cli, root, reopen, quiet))),
        },
        _ => (stage, Action::Ignore),
    }
}

fn plan(shell: Shell, build: Build, cli: &Cli, root: bool, reopen: bool, quiet: bool) -> (p: Plan)
    ensures
        p == plan_of(shell, build, *cli, root, reopen, quiet),
{
    let eager = opens_eagerly(shell, build, cli, quiet);
    let opening = if root {
        if eager {
            Opening::Now { create: cli.init }
        } else {
            Opening::AsJob
        }
    } else if reopen {
        Opening::Reopen
    } else {
        Opening::Nothing
    };
    Plan {
        opening,
        open_browser: will_open_a_browser(shell, build, cli, quiet),
        warn_lan: cli.lan,
        scan_needs_folder: !root && cli.scan,
        scan_now: root && eager && cli.scan,
        tray: will_have_a_tray(shell, build),
        window: will_have_a_window(shell, build, cli),
    }
}

fn checked(shell: Shell, build: Build, cli: &Cli, root: bool, reopen: bool, quiet: bool) -> (r: (Stage, Action))
    ensures
        r == after_check(shell, build, *cli, root, reopen, quiet),
{
    if cli.backup.is_some() || cli.restore.is_some() {
        (Stage::Over, Action::BackupAndExit)
    } else if cli.reanalyze {
        if detaches_from_the_shell(shell, build) {
            (Stage::Over, Action::Refuse(Refusal::ReanalyzeHandsBackThePrompt))
        } else {
            (Stage::Over, Action::ReanalyzeAndExit)
        }
    } else {
        (Stage::Binding { root, reopen, quiet }, Action::Bind)
    }
}

/// The next step of a start: from where it has got to and what the last piece of outside work
/// found, where it gets to and what to do.
pub fn next(shell: Shell, build: Build, cli: &Cli, stage: Stage, event: Event) -> (r: (Stage, Action))
    ensures
        r == next_step(shell, build, *cli, stage, event),
{
    match (stage, event) {
        (Stage::Begun, Event::Begin) => if cli.register {
            (Stage::Over, Action::Register)
        } else if cli.unregister {
            (Stage::Over, Action::Unregister)
        } else {
            (Stage::Resolving, Action::ResolveRoot)
        },
        (Stage::Resolving, Event::Root(found)) => match found {
            RootFound::NotAFolder => (Stage::Over, Action::Refuse(Refusal::NotAFolder)),
            RootFound::NoneNamed => if !cli.pick {
                (Stage::Rooted { root: false }, Action::FindFolderToReopen)
            } else {
                (Stage::Placed { root: false, reopen: false }, Action::AskWhereToTalk)
            },
            RootFound::Folder => (Stage::Placed { root: true, reopen: false }, Action::AskWhereToTalk),
        },
        (Stage::Rooted { root }, Event::Reopen(found)) => (
            Stage::Placed { root, reopen: found },
            Action::AskWhereToTalk,
        ),
        (Stage::Placed { root, reopen }, Event::WhereToTalk(quiet)) => if root && !cli.init
            && opens_eagerly(shell, build, cli, quiet) {
            (Stage::Checking { root, reopen, quiet }, Action::RequireDatabase)
        } else {
            checked(shell, build, cli, root, reopen, quiet)
        },
        (Stage::Checking { root, reopen, quiet }, Event::Database(there)) => if there {
            checked(shell, build, cli, root, reopen, quiet)
        } else {
            (Stage::Over, Action::Refuse(Refusal::NoDatabase))
        },
        (Stage::Binding { root, reopen, quiet }, Event::Bound(outcome)) => match outcome {
            BindOutcome::Taken => (Stage::Over, Action::Refuse(Refusal::AddressTaken)),
            BindOutcome::Failed => (Stage::Over, Action::Refuse(Refusal::CouldNotBind)),
            BindOutcome::Listening => (Stage::Over, Action::Serve(plan(shell, build, cli, root, reopen, quiet))),
        },
        _ => (stage, Action::Ignore),
    }
}

// -- what holds of every start -------------------------------------------------------------

/// A refusal ends the start: nothing is done after it.
pub proof fn law_a_refusal_is_the_last_step(shell: Shell, build: Build, cli: Cli, stage: Stage, event: Event)
    ensures
        next_step(shell, build, cli, stage, event).1 is Refuse ==> next_step(shell, build, cli, stage, event).0 == Stage::Over,
{
}

/// Nothing is bound before the named folder's database has been found, wherever a refusal would be
/// read: once it is known whether anything printed is read, a start that opens the named folder
/// eagerly asks for the check and not for the socket.
pub proof fn law_the_database_is_checked_before_the_bind(shell: Shell, build: Build, cli: Cli, reopen: bool, quiet: bool)
    requires
        !cli.init,
        opens_eagerly_spec(shell, build, cli, quiet),
    ensures
        next_step(shell, build, cli, Stage::Placed { root: true, reopen }, Event::WhereToTalk(quiet))
            == (Stage::Checking { root: true, reopen, quiet }, Action::RequireDatabase),
{
}

/// The executable that hands the prompt back never reads the corpus again; it says which one to use.
pub proof fn law_a_detached_run_never_reanalyzes(shell: Shell, build: Build, cli: Cli, stage: Stage, event: Event)
    requires
        shell == Shell::Windowed && build.on_windows && build.has_window,
    ensures
        next_step(shell, build, cli, stage, event).1 != Action::ReanalyzeAndExit,
{
}

/// Registering and unregistering do their one job and nothing else: the start is over at once.
pub proof fn law_registering_does_nothing_else(shell: Shell, build: Build, cli: Cli)
    requires
        cli.register || cli.unregister,
    ensures
        next_step(shell, build, cli, Stage::Begun, Event::Begin).0 == Stage::Over,
        next_step(shell, build, cli, Stage::Begun, Event::Begin).1 == (if cli.register {
            Action::Register
        } else {
            Action::Unregister
        }),
{
}

/// The flags that do one job with a folder and leave (backup, restore, reanalyze) never reach the
/// socket, from any step.
pub proof fn law_a_one_job_run_never_binds(shell: Shell, build: Build, cli: Cli, stage: Stage, event: Event)
    requires
        cli.backup is Some || cli.restore is Some || cli.reanalyze,
    ensures
        next_step(shell, build, cli, stage, event).1 != Action::Bind,
{
}

/// **A scan asked for on the command line starts as soon as the named folder is open**: a run that
/// serves with `--scan` and a folder opens that folder before serving (making its database first
/// only with `--init`) and scans it at once; with no folder it says the scan waits for one; and
/// no run scans unless asked.
pub proof fn law_a_scan_asked_for_starts_with_the_folder(
    shell: Shell,
    build: Build,
    cli: Cli,
    root: bool,
    reopen: bool,
    quiet: bool,
)
    ensures
        next_step(shell, build, cli, Stage::Binding { root, reopen, quiet }, Event::Bound(BindOutcome::Listening)).1
            matches Action::Serve(p) && p.scan_now == (root && cli.scan) && p.scan_needs_folder == (!root
            && cli.scan) && (root && cli.scan ==> p.opening == Opening::Now { create: cli.init }),
{
}

/// What a listening run serves: a named folder, or else last time's, or else nothing; every
/// interface warned about exactly when `--lan` asked for them; a window and a browser tab never
/// both; and a browser whenever `--open` asked and no window shows the page.
pub proof fn law_a_listening_run_serves_what_was_asked(
    shell: Shell,
    build: Build,
    cli: Cli,
    root: bool,
    reopen: bool,
    quiet: bool,
)
    ensures
        next_step(shell, build, cli, Stage::Binding { root, reopen, quiet }, Event::Bound(BindOutcome::Listening)).1
            matches Action::Serve(p) && (root ==> p.opening is Now || p.opening is AsJob) && (!root && reopen
            ==> p.opening == Opening::Reopen) && (!root && !reopen ==> p.opening == Opening::Nothing)
            && p.warn_lan == cli.lan && !(p.window && p.open_browser) && (cli.open && !p.window
            ==> p.open_browser) && (p.window ==> shell == Shell::Windowed) && (shell == Shell::Console
            ==> !p.tray),
        next_step(shell, build, cli, Stage::Binding { root, reopen, quiet }, Event::Bound(BindOutcome::Listening)).0
            == Stage::Over,
{
}

// -- what a start says ---------------------------------------------------------------------

/// The address a run listens on, as a socket address is written: every interface with `--lan`,
/// loopback otherwise.
pub open spec fn listen_address_text(lan: bool, port: u16) -> Seq<char> {
    (if lan {
        "0.0.0.0:"@
    } else {
        "127.0.0.1:"@
    }) + decimal(port as nat)
}

/// The address the command line asks to listen on.
pub fn listen_address(lan: bool, port: u16) -> (out: String)
    ensures
        out@ == listen_address_text(lan, port),
{
    let mut v = if lan {
        chars_of("0.0.0.0:")
    } else {
        chars_of("127.0.0.1:")
    };
    let n = decimal_of(port as u64);
    push_all(&mut v, n.as_slice());
    string_of(v.as_slice())
}

/// The address to print and to hand a browser: always the loopback form, because `0.0.0.0` is not
/// an address anything can connect to, with the port the socket really bound.
pub fn page_url(port: u16) -> (out: String)
    ensures
        out@ == "http://127.0.0.1:"@ + decimal(port as nat) + "/"@,
{
    let mut v = chars_of("http://127.0.0.1:");
    let n = decimal_of(port as u64);
    push_all(&mut v, n.as_slice());
    push_str(&mut v, "/");
    string_of(v.as_slice())
}

/// The refusal for a path that is neither a folder nor a `.kmbuild` file.
pub fn not_a_folder(given: &str) -> (out: String)
    ensures
        out@ == given@ + " is not a folder or a .kmbuild file"@,
{
    let mut v = chars_of(given);
    push_str(&mut v, " is not a folder or a .kmbuild file");
    string_of(v.as_slice())
}

/// The refusal for `--reanalyze` in the executable that hands the prompt back, naming the two ways
/// that work.
pub const REANALYZE_REFUSAL: &'static str = "--reanalyze reads for many minutes and reports as it goes, and this program hands the prompt back before it starts.\n  Either use Re-analyze the songs on the Scan page, which is the same work with a progress bar,\n  or run the console one, which waits and prints:\n    km-package-builder-console <folder> --reanalyze";

/// The refusal for `--backup` or `--restore` with no folder to work on.
pub const BACKUP_NEEDS_A_FOLDER: &'static str = "--backup and --restore need the folder to work on:\n  km-package-builder <folder> --backup <file>";

/// The refusal for `--reanalyze` with no folder to work on.
pub const REANALYZE_NEEDS_A_FOLDER: &'static str = "--reanalyze needs the folder to work on:\n  km-package-builder <folder> --reanalyze";

/// The refusal for an address something already listens on: what is true, and the way out of each
/// case, without claiming to know what is listening.
pub fn address_taken(lan: bool, port: u16) -> (out: String)
    ensures
        out@ == "something is already listening on "@ + listen_address_text(lan, port)
            + ". If it is a package builder, use the window it already has \u{2014} its Open page opens another folder \u{2014} or quit it first. Otherwise start this one with --port."@,
{
    let mut v = chars_of("something is already listening on ");
    let a = listen_address(lan, port);
    push_str(&mut v, a.as_str());
    push_str(
        &mut v,
        ". If it is a package builder, use the window it already has \u{2014} its Open page opens another folder \u{2014} or quit it first. Otherwise start this one with --port.",
    );
    string_of(v.as_slice())
}

/// What a failure to bind is said under, before the system's own reason.
pub fn binding(lan: bool, port: u16) -> (out: String)
    ensures
        out@ == "binding "@ + listen_address_text(lan, port),
{
    let mut v = chars_of("binding ");
    let a = listen_address(lan, port);
    push_str(&mut v, a.as_str());
    string_of(v.as_slice())
}

} // verus!
