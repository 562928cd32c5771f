use km_package_builder::register::{
    desktop_entry, document_icon, icon_file, icon_folder, icon_sizes, mime_definition,
    open_command, outside_a_bundle, unregister, CONSOLE_SUFFIX, ICON_NAME, MIME_TYPE, PROG_ID,
};
use km_package_builder::shell::APP_NAME_SHORT;

#[test]
fn the_mime_definition_names_the_extension_and_the_type() {
    let xml = mime_definition();
    assert!(xml.starts_with("<?xml version=\"1.0\" encoding=\"UTF-8\"?>\n"));
    assert!(xml.contains("<mime-type type=\"application/x-km-package-builder\">"));
    assert!(xml.contains("<glob pattern=\"*.kmbuild\"/>"));
    assert!(xml.contains("<comment>Karaoke corpus</comment>"));
    assert!(xml.ends_with("</mime-info>\n"));
    assert_eq!(MIME_TYPE, "application/x-km-package-builder");
}

#[test]
fn the_desktop_entry_opens_one_file_with_this_executable() {
    let entry = desktop_entry("/opt/km/km-package-builder");
    assert_eq!(
        entry,
        format!(
            "[Desktop Entry]\nType=Application\nName={APP_NAME_SHORT}\n\
             Comment=Browse karaoke files and curate them into packages\n\
             Exec=/opt/km/km-package-builder %f\nTryExec=/opt/km/km-package-builder\n\
             Icon=km-package-builder\nTerminal=false\nCategories=AudioVideo;Audio;Utility;\n\
             MimeType=application/x-km-package-builder;\n"
        )
    );
}

#[test]
fn the_icons_go_in_the_theme_folder_of_their_size() {
    assert_eq!(icon_sizes(), vec![16, 32, 48, 64, 128, 256]);
    assert_eq!(icon_folder(48), "48x48/apps");
    assert_eq!(icon_file(256), "256x256/apps/km-package-builder.png");
    assert_eq!(ICON_NAME, "km-package-builder");
}

#[test]
fn the_windows_values_quote_the_executable_and_the_file() {
    assert_eq!(
        open_command("C:\\Tools\\km package builder.exe"),
        "\"C:\\Tools\\km package builder.exe\" \"%1\""
    );
    assert_eq!(document_icon("C:\\km.exe"), "\"C:\\km.exe\",0");
    assert_eq!(PROG_ID, "KaraokeMachine.PackageBuilder");
    assert_eq!(CONSOLE_SUFFIX, "-console");
}

#[test]
fn a_bundle_says_what_to_do_instead() {
    let refused = unregister().expect_err("there is nothing a command can take back");
    assert_eq!(
        refused,
        format!("on macOS the file type belongs to the bundle. Move {APP_NAME_SHORT}.app to the Trash to remove it.")
    );
    let outside = outside_a_bundle();
    assert!(outside.starts_with("this is not inside a .app bundle"));
    assert!(outside.contains(&format!("Use {APP_NAME_SHORT}.app -- ")));
}
