use km_package_builder::shell::{
    detaches_from_the_shell, escape_html, failure_html, log_filter, names_a_database, opens_eagerly,
    will_have_a_tray,
    will_have_a_window, will_open_a_browser, Build, Cli, Shell, DEFAULT_PORT, QUIET_DEPENDENCIES,
};

/// The command line as a person typed it, written the way the parser would have filled it in.
fn cli(args: &[&str]) -> Cli {
    let mut cli = Cli {
        root: None,
        init: false,
        port: DEFAULT_PORT,
        lan: false,
        machine: None,
        scan: false,
        backup: None,
        restore: None,
        overwrite: false,
        reanalyze: false,
        open: false,
        browser: false,
        pick: false,
        register: false,
        unregister: false,
        log_file: false,
        ecapplog: None,
        verbose: 0,
    };
    let mut rest = args.iter();
    while let Some(arg) = rest.next() {
        match *arg {
            "--init" => cli.init = true,
            "--scan" => cli.scan = true,
            "--lan" => cli.lan = true,
            "--open" => cli.open = true,
            "--browser" => cli.browser = true,
            "--reanalyze" => cli.reanalyze = true,
            "--backup" => cli.backup = rest.next().map(|s| s.to_string()),
            "--restore" => cli.restore = rest.next().map(|s| s.to_string()),
            other => panic!("not a flag these tests use: {other}"),
        }
    }
    cli
}

const WINDOWED_BUILD: Build = Build { has_window: true, on_windows: true };
const BUILD_WITHOUT_A_WINDOW: Build = Build { has_window: false, on_windows: false };

fn shape(shell: Shell, build: Build, args: &[&str], nowhere_to_talk: bool) -> (bool, bool) {
    let cli = cli(args);
    (
        will_have_a_window(shell, build, &cli),
        will_open_a_browser(shell, build, &cli, nowhere_to_talk),
    )
}

#[test]
fn only_the_windowed_executable_hands_its_prompt_back() {
    for build in [WINDOWED_BUILD, BUILD_WITHOUT_A_WINDOW, Build { has_window: true, on_windows: false }] {
        assert!(
            !detaches_from_the_shell(Shell::Console, build),
            "the console twin waits, on every platform"
        );
        assert_eq!(
            detaches_from_the_shell(Shell::Windowed, build),
            build.on_windows && build.has_window,
            "the windowed one detaches exactly where it is a GUI-subsystem image"
        );
    }
}

#[test]
fn a_window_is_shown_instead_of_a_browser_and_never_as_well_as_one() {
    let b = WINDOWED_BUILD;
    assert_eq!(shape(Shell::Windowed, b, &[], true), (true, false));
    assert_eq!(shape(Shell::Windowed, b, &[], false), (true, false));
    assert_eq!(shape(Shell::Windowed, b, &["--open"], false), (true, false));
    assert_eq!(shape(Shell::Windowed, b, &["--browser"], false), (false, false));
    assert_eq!(shape(Shell::Windowed, b, &["--browser", "--open"], false), (false, true));
    assert_eq!(shape(Shell::Windowed, b, &["--browser"], true), (false, true));
    assert_eq!(shape(Shell::Windowed, b, &["--lan"], false), (false, false));
    assert_eq!(shape(Shell::Console, b, &[], true), (false, true));
    assert_eq!(shape(Shell::Console, b, &["--open"], false), (false, true));
    assert_eq!(shape(Shell::Console, b, &[], false), (false, false));
}

#[test]
fn the_failure_window_escapes_the_message_it_is_given() {
    let page = failure_html(
        "D:\\tunes\\rock & <roll>\\x.kmbuild is not a folder",
        "KaraokeMachine Package Builder could not start",
    );

    assert!(page.contains("rock &amp; &lt;roll&gt;"), "{page}");
    assert!(!page.contains("<roll>"), "the raw angle brackets reached the document: {page}");
    assert!(page.contains("D:\\tunes\\"), "{page}");
    assert!(page.contains("x.kmbuild is not a folder"), "{page}");
    assert!(page.starts_with("<!doctype html>"), "{page}");
}

#[test]
fn a_folder_opens_as_a_job_only_where_a_refusal_would_be_seen() {
    for build in [WINDOWED_BUILD, BUILD_WITHOUT_A_WINDOW] {
        let decide = |shell: Shell, args: &[&str], nowhere_to_talk: bool| {
            opens_eagerly(shell, build, &cli(args), nowhere_to_talk)
        };

        assert_eq!(decide(Shell::Windowed, &[], true), !build.has_window);
        assert!(decide(Shell::Windowed, &[], false));
        for flags in [
            &["--init"][..],
            &["--scan"][..],
            &["--backup", "out.json"][..],
            &["--restore", "in.json"][..],
            &["--reanalyze"][..],
        ] {
            assert!(decide(Shell::Windowed, flags, true), "{flags:?}");
        }
        assert!(decide(Shell::Windowed, &["--browser"], true));
        assert!(decide(Shell::Windowed, &["--lan"], true));
        assert!(decide(Shell::Console, &[], true));
        assert!(decide(Shell::Console, &[], false));
        assert!(decide(Shell::Console, &["--scan"], true));
    }
}

#[test]
fn the_icon_in_the_bar_does_not_depend_on_there_being_a_window() {
    let b = WINDOWED_BUILD;
    let decide = |shell: Shell, args: &[&str]| {
        (will_have_a_tray(shell, b), will_have_a_window(shell, b, &cli(args)))
    };
    assert_eq!(decide(Shell::Windowed, &[]), (true, true));
    assert_eq!(decide(Shell::Windowed, &["--browser"]), (true, false));
    assert_eq!(decide(Shell::Windowed, &["--lan"]), (true, false));
    assert_eq!(decide(Shell::Console, &[]), (false, false));
    assert_eq!(decide(Shell::Console, &["--browser"]), (false, false));
}

#[test]
fn a_build_with_no_window_has_no_icon_in_the_bar_either() {
    assert!(!will_have_a_tray(Shell::Windowed, BUILD_WITHOUT_A_WINDOW));
    assert!(!will_have_a_tray(Shell::Console, BUILD_WITHOUT_A_WINDOW));
}

#[test]
fn a_build_with_no_window_still_opens_a_browser_for_a_double_click() {
    let b = BUILD_WITHOUT_A_WINDOW;
    assert_eq!(shape(Shell::Windowed, b, &[], true), (false, true));
    assert_eq!(shape(Shell::Windowed, b, &["--open"], false), (false, true));
    assert_eq!(shape(Shell::Windowed, b, &[], false), (false, false));
    assert_eq!(shape(Shell::Windowed, b, &["--browser"], true), (false, true));
}

#[test]
fn escaping_writes_the_three_characters_as_entities() {
    assert_eq!(escape_html("a & b < c > d"), "a &amp; b &lt; c &gt; d");
    assert_eq!(escape_html("&lt;"), "&amp;lt;");
    assert_eq!(escape_html("plain"), "plain");
}

#[test]
fn a_database_file_is_named_by_its_extension_in_any_case() {
    assert!(names_a_database("/tunes/karaoke/corpus.kmbuild"));
    assert!(names_a_database("/tunes/karaoke/CORPUS.KMBUILD"));
    assert!(!names_a_database("/tunes/karaoke/notes.txt"));
    assert!(!names_a_database("/tunes/karaoke/.kmbuild"));
    assert!(!names_a_database("/tunes/karaoke"));
    assert!(!names_a_database("/tunes/x.kmbuild/.."));
    assert!(names_a_database("/tunes/x.kmbuild/."));
}

/// A shipped build says nothing at `debug` unless asked, and the settings file is the rung below
/// the flag.
#[test]
fn verbosity_and_settings_choose_a_filter() {
    use_filter_cases();
}

fn use_filter_cases() {
    let quiet = "symphonia_bundle_mp3=error,symphonia_core=error";
    assert_eq!(log_filter(0, None, None), format!("info,{quiet}"));
    assert_eq!(log_filter(1, None, None), format!("info,km_package_builder=debug,{quiet}"));
    assert_eq!(log_filter(2, None, None), "debug,km_package_builder=trace");
    assert_eq!(log_filter(5, None, None), "debug,km_package_builder=trace");
    assert_eq!(log_filter(0, None, Some("debug")), "debug");
    assert_eq!(
        log_filter(0, None, Some("warn,km_package_builder=trace")),
        "warn,km_package_builder=trace"
    );
    assert_eq!(log_filter(1, None, Some("debug")), format!("info,km_package_builder=debug,{quiet}"));
    assert_eq!(log_filter(3, Some("trace"), Some("debug")), "trace");
    assert_eq!(QUIET_DEPENDENCIES, quiet);
}

#[test]
fn turning_the_entities_back_gives_the_escaped_text() {
    for t in ["rock & <roll>", "&lt;", "a&&b<<>>", "", "&amp;gt;"] {
        let e = escape_html(t);
        assert!(!e.contains('<') && !e.contains('>'));
        assert_eq!(e.replace("&lt;", "<").replace("&gt;", ">").replace("&amp;", "&"), t);
    }
    assert_eq!(escape_html("rock & <roll>"), "rock &amp; &lt;roll&gt;");
}
