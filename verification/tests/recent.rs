use km_package_builder::recent::{paths_match, paths_match_where, Entry, Recent, KEEP};

#[test]
fn remembering_moves_rather_than_duplicates() {
    let mut recent = Recent::default();
    recent.remember("/a", 1, 1);
    recent.remember("/b", 2, 2);
    recent.remember("/b", 9, 9);

    assert_eq!(recent.folders.len(), 2);
    assert_eq!(recent.folders[0].path, "/b");
    assert_eq!(recent.folders[0].songs, 9);
}

/// The list is capped, which is what makes an unwanted entry an eviction rather than clutter.
#[test]
fn the_list_stays_a_list() {
    let mut recent = Recent::default();
    for n in 0..KEEP + 5 {
        recent.remember(&format!("/corpus-{n}"), 0, 0);
    }
    assert_eq!(recent.folders.len(), KEEP);
    assert_eq!(
        recent.folders[0].path,
        format!("/corpus-{}", KEEP + 4),
        "the newest is first"
    );
}

/// Opening a folder again moves it to the top with the counts it now has.
#[test]
fn opening_a_folder_again_moves_it_up_rather_than_duplicating_it() {
    let mut recent = Recent::default();
    recent.remember("/tunes/karaoke", 1, 1);
    recent.remember("/tunes/other", 0, 0);
    recent.remember("/tunes/karaoke", 120_500, 310_400);

    assert_eq!(recent.folders.len(), 2);
    assert_eq!(recent.folders[0].path, "/tunes/karaoke");
    assert_eq!(recent.folders[0].songs, 120_500);
}

/// A list built by hand has nowhere to be written.
#[test]
fn a_list_built_by_hand_is_kept_nowhere() {
    assert!(Recent::default().file.is_none());
}

/// Paths are compared the way `Path` compares them: component by component.
#[test]
fn the_same_folder_spelled_two_ways_is_one_entry() {
    assert!(paths_match("/tunes/karaoke", "/tunes/karaoke/"));
    assert!(paths_match("/tunes//karaoke", "/tunes/./karaoke"));
    assert!(!paths_match("/tunes/karaoke", "tunes/karaoke"));
    assert!(!paths_match("./tunes", "tunes"));
    assert!(!paths_match("/tunes/a", "/tunes/b"));

    let mut recent = Recent::default();
    recent.remember("/tunes/karaoke/", 1, 1);
    recent.remember("/tunes//karaoke", 2, 2);
    assert_eq!(recent.folders.len(), 1);
    assert_eq!(recent.folders[0].path, "/tunes//karaoke");
    assert_eq!(recent.folders[0].songs, 2);
}

/// Forgetting a folder takes out every entry naming it and keeps the rest in order.
#[test]
fn forgetting_takes_the_folder_out() {
    let mut recent = Recent {
        folders: vec![
            Entry { path: "/a".to_owned(), songs: 1, files: 1 },
            Entry { path: "/b".to_owned(), songs: 2, files: 2 },
            Entry { path: "/c".to_owned(), songs: 3, files: 3 },
        ],
        file: Some("/tmp/recent.json".to_owned()),
    };
    recent.forget("/b/");
    let paths: Vec<&str> = recent.folders.iter().map(|e| e.path.as_str()).collect();
    assert_eq!(paths, vec!["/a", "/c"]);
    assert_eq!(recent.file.as_deref(), Some("/tmp/recent.json"));
}

/// Remembering and then forgetting a folder leaves what forgetting alone would have.
#[test]
fn forgetting_undoes_remembering() {
    let mut recent = Recent::default();
    recent.remember("/a", 1, 1);
    recent.remember("/b", 2, 2);
    recent.remember("/c", 3, 3);
    recent.forget("/c");
    let paths: Vec<&str> = recent.folders.iter().map(|e| e.path.as_str()).collect();
    assert_eq!(paths, vec!["/b", "/a"]);
}

/// A run told where to keep its list keeps it there.
#[test]
fn a_named_file_is_where_the_list_goes() {
    assert_eq!(
        km_package_builder::recent::file_for(Some("/tunes/scratch/recent.json")),
        Some("/tunes/scratch/recent.json".to_owned())
    );
}

/// ...and a run told to keep it nowhere keeps no list.
#[test]
fn an_empty_setting_means_no_list_at_all() {
    assert!(km_package_builder::recent::file_for(Some("")).is_none());
}

/// Unset is still the file this machine has always kept, named only and never opened.
#[test]
fn an_unset_variable_still_means_the_config_directory() {
    if let Some(file) = km_package_builder::recent::file_for(None) {
        assert!(file.ends_with("recent.json"), "{file}");
        assert!(file.contains("km-package-builder"), "{file}");
    }
}

/// Where `\` separates components, as on Windows, a trailing one makes no second folder; where it
/// does not, it is part of the name.
#[test]
fn a_backslash_separates_only_where_the_platform_says_so() {
    assert!(paths_match_where("C:\\tunes\\karaoke\\", "C:\\tunes\\karaoke", true));
    assert!(paths_match_where("C:\\tunes\\karaoke", "C:/tunes//karaoke", true));
    assert!(!paths_match_where("C:\\tunes\\karaoke\\", "C:\\tunes\\karaoke", false));
    assert!(!paths_match_where("\\tunes", "tunes", true));
    assert!(paths_match_where("/tunes/karaoke/", "/tunes/karaoke", false));
    assert_eq!(
        paths_match("C:\\tunes\\karaoke\\", "C:\\tunes\\karaoke"),
        std::path::Path::new("C:\\tunes\\karaoke\\") == std::path::Path::new("C:\\tunes\\karaoke")
    );
}
