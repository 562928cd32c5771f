use km_package_builder::shell::{Build, Cli, Shell, DEFAULT_PORT};
use km_package_builder::startup::{
    address_taken, binding, listen_address, next, not_a_folder, page_url, Action, BindOutcome,
    Event, Opening, Refusal, RootFound, Stage, REANALYZE_REFUSAL,
};

const HEADLESS: Build = Build { has_window: false, on_windows: false };
const WINDOWED_ON_WINDOWS: Build = Build { has_window: true, on_windows: true };

fn plain() -> Cli {
    Cli {
        root: None,
        init: false,
        port: DEFAULT_PORT,
        lan: false,
        machine: None,
        scan: false,
        backup: None,
        restore: None,
        overwrite: false,
        reanalyze: false,
        open: false,
        browser: false,
        pick: false,
        register: false,
        unregister: false,
        log_file: false,
        ecapplog: None,
        verbose: 0,
    }
}

/// Walks a start through `events`, returning every action asked for.
fn walk(shell: Shell, build: Build, cli: &Cli, events: &[Event]) -> Vec<Action> {
    let mut stage = Stage::Begun;
    let mut actions = Vec::new();
    for event in events {
        let (after, action) = next(shell, build, cli, stage, *event);
        stage = after;
        actions.push(action);
    }
    actions
}

#[test]
fn registering_is_the_whole_run() {
    let cli = Cli { register: true, ..plain() };
    assert_eq!(next(Shell::Console, HEADLESS, &cli, Stage::Begun, Event::Begin), (Stage::Over, Action::Register));
    let cli = Cli { unregister: true, ..plain() };
    assert_eq!(next(Shell::Console, HEADLESS, &cli, Stage::Begun, Event::Begin), (Stage::Over, Action::Unregister));
}

#[test]
fn a_named_folder_is_checked_then_bound_then_opened_at_once() {
    let cli = Cli { root: Some("/tunes".to_owned()), ..plain() };
    let actions = walk(
        Shell::Console,
        HEADLESS,
        &cli,
        &[
            Event::Begin,
            Event::Root(RootFound::Folder),
            Event::WhereToTalk(false),
            Event::Database(true),
            Event::Bound(BindOutcome::Listening),
        ],
    );
    assert_eq!(actions[0], Action::ResolveRoot);
    assert_eq!(actions[1], Action::AskWhereToTalk);
    assert_eq!(actions[2], Action::RequireDatabase);
    assert_eq!(actions[3], Action::Bind);
    match actions[4] {
        Action::Serve(plan) => {
            assert_eq!(plan.opening, Opening::Now { create: false });
            assert!(!plan.open_browser);
            assert!(!plan.tray);
            assert!(!plan.window);
        }
        other => panic!("expected to serve, got {other:?}"),
    }
}

#[test]
fn a_folder_without_a_database_is_refused_before_anything_is_bound() {
    let cli = Cli { root: Some("/tunes".to_owned()), ..plain() };
    let actions = walk(
        Shell::Console,
        HEADLESS,
        &cli,
        &[Event::Begin, Event::Root(RootFound::Folder), Event::WhereToTalk(false), Event::Database(false)],
    );
    assert_eq!(actions[3], Action::Refuse(Refusal::NoDatabase));
    assert!(!actions.contains(&Action::Bind));
}

#[test]
fn a_path_that_is_no_folder_is_refused_at_once() {
    let cli = Cli { root: Some("/nowhere.txt".to_owned()), ..plain() };
    assert_eq!(
        next(Shell::Console, HEADLESS, &cli, Stage::Resolving, Event::Root(RootFound::NotAFolder)),
        (Stage::Over, Action::Refuse(Refusal::NotAFolder))
    );
    assert_eq!(not_a_folder("/nowhere.txt"), "/nowhere.txt is not a folder or a .kmbuild file");
}

#[test]
fn with_no_folder_named_last_times_is_looked_for_unless_pick_asks_for_the_list() {
    let actions = walk(
        Shell::Console,
        HEADLESS,
        &plain(),
        &[
            Event::Begin,
            Event::Root(RootFound::NoneNamed),
            Event::Reopen(true),
            Event::WhereToTalk(false),
            Event::Bound(BindOutcome::Listening),
        ],
    );
    assert_eq!(actions[1], Action::FindFolderToReopen);
    assert_eq!(actions[2], Action::AskWhereToTalk);
    assert_eq!(actions[3], Action::Bind);
    match actions[4] {
        Action::Serve(plan) => assert_eq!(plan.opening, Opening::Reopen),
        other => panic!("expected to serve, got {other:?}"),
    }

    let pick = Cli { pick: true, scan: true, ..plain() };
    let actions = walk(
        Shell::Console,
        HEADLESS,
        &pick,
        &[Event::Begin, Event::Root(RootFound::NoneNamed), Event::WhereToTalk(false), Event::Bound(BindOutcome::Listening)],
    );
    assert_eq!(actions[1], Action::AskWhereToTalk);
    match actions[3] {
        Action::Serve(plan) => {
            assert_eq!(plan.opening, Opening::Nothing);
            assert!(plan.scan_needs_folder);
            assert!(!plan.scan_now);
        }
        other => panic!("expected to serve, got {other:?}"),
    }
}

#[test]
fn a_double_clicked_folder_opens_as_a_job_without_a_check() {
    let cli = Cli { root: Some("/tunes".to_owned()), ..plain() };
    let actions = walk(
        Shell::Windowed,
        WINDOWED_ON_WINDOWS,
        &cli,
        &[Event::Begin, Event::Root(RootFound::Folder), Event::WhereToTalk(true), Event::Bound(BindOutcome::Listening)],
    );
    assert_eq!(actions[2], Action::Bind);
    match actions[3] {
        Action::Serve(plan) => {
            assert_eq!(plan.opening, Opening::AsJob);
            assert!(plan.tray);
            assert!(plan.window);
            assert!(!plan.open_browser, "a window is the page, so no browser as well");
        }
        other => panic!("expected to serve, got {other:?}"),
    }
}

#[test]
fn the_one_job_flags_leave_before_the_bind() {
    let cli = Cli { root: Some("/tunes".to_owned()), backup: Some("b.json".to_owned()), ..plain() };
    let actions = walk(
        Shell::Console,
        HEADLESS,
        &cli,
        &[Event::Begin, Event::Root(RootFound::Folder), Event::WhereToTalk(false), Event::Database(true)],
    );
    assert_eq!(actions[3], Action::BackupAndExit);

    let cli = Cli { root: Some("/tunes".to_owned()), reanalyze: true, ..plain() };
    let actions = walk(
        Shell::Console,
        WINDOWED_ON_WINDOWS,
        &cli,
        &[Event::Begin, Event::Root(RootFound::Folder), Event::WhereToTalk(false), Event::Database(true)],
    );
    assert_eq!(actions[3], Action::ReanalyzeAndExit);

    let actions = walk(
        Shell::Windowed,
        WINDOWED_ON_WINDOWS,
        &cli,
        &[Event::Begin, Event::Root(RootFound::Folder), Event::WhereToTalk(false), Event::Database(true)],
    );
    assert_eq!(actions[3], Action::Refuse(Refusal::ReanalyzeHandsBackThePrompt));
    assert!(REANALYZE_REFUSAL.contains("km-package-builder-console <folder> --reanalyze"));
}

#[test]
fn a_taken_address_is_refused_in_words_and_other_failures_keep_their_context() {
    let stage = Stage::Binding { root: false, reopen: false, quiet: false };
    assert_eq!(
        next(Shell::Console, HEADLESS, &plain(), stage, Event::Bound(BindOutcome::Taken)),
        (Stage::Over, Action::Refuse(Refusal::AddressTaken))
    );
    assert_eq!(
        next(Shell::Console, HEADLESS, &plain(), stage, Event::Bound(BindOutcome::Failed)),
        (Stage::Over, Action::Refuse(Refusal::CouldNotBind))
    );
    assert_eq!(
        address_taken(false, 8178),
        "something is already listening on 127.0.0.1:8178. If it is a package builder, use the \
         window it already has \u{2014} its Open page opens another folder \u{2014} or quit it first. \
         Otherwise start this one with --port."
    );
    assert_eq!(binding(true, 9000), "binding 0.0.0.0:9000");
}

#[test]
fn the_printed_address_is_always_loopback() {
    assert_eq!(listen_address(true, 8178), "0.0.0.0:8178");
    assert_eq!(listen_address(false, 8178), "127.0.0.1:8178");
    assert_eq!(page_url(8178), "http://127.0.0.1:8178/");
    assert_eq!(page_url(0), "http://127.0.0.1:0/");
}

#[test]
fn an_event_nothing_waits_for_changes_nothing() {
    assert_eq!(
        next(Shell::Console, HEADLESS, &plain(), Stage::Begun, Event::Database(true)),
        (Stage::Begun, Action::Ignore)
    );
    assert_eq!(
        next(Shell::Console, HEADLESS, &plain(), Stage::Over, Event::Begin),
        (Stage::Over, Action::Ignore)
    );
}
