//! What telling the operating system about `.kmbuild` files writes.
//!
//! Registering associates the extension with this executable, per user and never machine-wide:
//! on Linux a MIME definition, a desktop entry and the icons under `~/.local/share`; on Windows three
//! keys under `HKEY_CURRENT_USER\Software\Classes`. macOS declares the file type in the bundle, so
//! there is nothing for a command to write and both directions only say so. The text of each of
//! those files and values is built here; writing them is the caller's.

use vstd::prelude::*;
use crate::text::{chars_of, string_of, push_str, decimal, decimal_of};
use crate::shell::APP_NAME_SHORT;

verus! {

/// The MIME type `.kmbuild` files are given on Linux. `x-` because it is not registered with IANA,
/// and it names this product rather than the format.
pub const MIME_TYPE: &'static str = "application/x-km-package-builder";

/// The icon-theme name the desktop entry points at, and the basename each icon is installed under.
pub const ICON_NAME: &'static str = "km-package-builder";

/// The class name the extension points at in the Windows registry: `Vendor.Product`, which is the
/// convention and says in `regedit` who put it there.
pub const PROG_ID: &'static str = "KaraokeMachine.PackageBuilder";

/// What the console twin is called, next to the windowed executable it belongs to.
pub const CONSOLE_SUFFIX: &'static str = "-console";

/// The sizes, in pixels, the icon is installed at.
pub fn icon_sizes() -> (sizes: Vec<u32>)
    ensures
        sizes@ == seq![16u32, 32, 48, 64, 128, 256],
{
    let sizes: Vec<u32> = vec![16, 32, 48, 64, 128, 256];
    sizes
}

/// What [`mime_definition`] writes: the extension, the type's name and a description a person reads.
pub open spec fn mime_definition_text() -> Seq<char> {
    "<?xml version=\"1.0\" encoding=\"UTF-8\"?>\n"@
        + "<mime-info xmlns=\"http://www.freedesktop.org/standards/shared-mime-info\">\n"@
        + "  <mime-type type=\""@ + MIME_TYPE@ + "\">\n"@
        + "    <comment>Karaoke corpus</comment>\n"@
        + "    <glob pattern=\"*.kmbuild\"/>\n"@
        + "  </mime-type>\n"@
        + "</mime-info>\n"@
}

/// The MIME definition installed as `mime/packages/km-package-builder.xml`.
pub fn mime_definition() -> (out: String)
    ensures
        out@ == mime_definition_text(),
{
    let mut v: Vec<char> = Vec::new();
    push_str(&mut v, "<?xml version=\"1.0\" encoding=\"UTF-8\"?>\n");
    push_str(&mut v, "<mime-info xmlns=\"http://www.freedesktop.org/standards/shared-mime-info\">\n");
    push_str(&mut v, "  <mime-type type=\"");
    push_str(&mut v, MIME_TYPE);
    push_str(&mut v, "\">\n");
    push_str(&mut v, "    <comment>Karaoke corpus</comment>\n");
    push_str(&mut v, "    <glob pattern=\"*.kmbuild\"/>\n");
    push_str(&mut v, "  </mime-type>\n");
    push_str(&mut v, "</mime-info>\n");
    string_of(v.as_slice())
}

/// What [`desktop_entry`] writes for the executable at `exe`.
pub open spec fn desktop_entry_text(exe: Seq<char>) -> Seq<char> {
    "[Desktop Entry]\n"@ + "Type=Application\n"@ + "Name="@ + APP_NAME_SHORT@ + "\n"@
        + "Comment=Browse karaoke files and curate them into packages\n"@ + "Exec="@ + exe
        + " %f\n"@ + "TryExec="@ + exe + "\n"@ + "Icon="@ + ICON_NAME@ + "\n"@
        + "Terminal=false\n"@ + "Categories=AudioVideo;Audio;Utility;\n"@ + "MimeType="@
        + MIME_TYPE@ + ";\n"@
}

/// The desktop entry installed as `applications/km-package-builder.desktop`: what opens a
/// `.kmbuild`, under the short name a launcher has room for. `%f` is the one local file a
/// double-click delivers.
pub fn desktop_entry(exe: &str) -> (out: String)
    ensures
        out@ == desktop_entry_text(exe@),
{
    let mut v: Vec<char> = Vec::new();
    push_str(&mut v, "[Desktop Entry]\n");
    push_str(&mut v, "Type=Application\n");
    push_str(&mut v, "Name=");
    push_str(&mut v, APP_NAME_SHORT);
    push_str(&mut v, "\n");
    push_str(&mut v, "Comment=Browse karaoke files and curate them into packages\n");
    push_str(&mut v, "Exec=");
    push_str(&mut v, exe);
    push_str(&mut v, " %f\n");
    push_str(&mut v, "TryExec=");
    push_str(&mut v, exe);
    push_str(&mut v, "\n");
    push_str(&mut v, "Icon=");
    push_str(&mut v, ICON_NAME);
    push_str(&mut v, "\n");
    push_str(&mut v, "Terminal=false\n");
    push_str(&mut v, "Categories=AudioVideo;Audio;Utility;\n");
    push_str(&mut v, "MimeType=");
    push_str(&mut v, MIME_TYPE);
    push_str(&mut v, ";\n");
    string_of(v.as_slice())
}

/// The folder, under the `hicolor` theme, that holds the icon of one size.
pub open spec fn icon_folder_text(size: u32) -> Seq<char> {
    decimal(size as nat) + "x"@ + decimal(size as nat) + "/apps"@
}

/// The folder under the `hicolor` theme an icon of `size` pixels goes in, such as `48x48/apps`.
pub fn icon_folder(size: u32) -> (out: String)
    ensures
        out@ == icon_folder_text(size),
{
    let n = decimal_of(size as u64);
    let mut v: Vec<char> = Vec::new();
    crate::text::push_all(&mut v, n.as_slice());
    push_str(&mut v, "x");
    crate::text::push_all(&mut v, n.as_slice());
    push_str(&mut v, "/apps");
    string_of(v.as_slice())
}

/// Where, under the `hicolor` theme, the icon of `size` pixels is installed.
pub fn icon_file(size: u32) -> (out: String)
    ensures
        out@ == icon_folder_text(size) + "/"@ + ICON_NAME@ + ".png"@,
{
    let folder = icon_folder(size);
    let mut v = chars_of(folder.as_str());
    push_str(&mut v, "/");
    push_str(&mut v, ICON_NAME);
    push_str(&mut v, ".png");
    string_of(v.as_slice())
}

/// The value of the class's `DefaultIcon` key on Windows: the executable's own first icon, so a
/// `.kmbuild` wears this tool's mark with nothing extra to ship.
pub fn document_icon(exe: &str) -> (out: String)
    ensures
        out@ == "\""@ + exe@ + "\",0"@,
{
    let mut v: Vec<char> = Vec::new();
    push_str(&mut v, "\"");
    push_str(&mut v, exe);
    push_str(&mut v, "\",0");
    string_of(v.as_slice())
}

/// The class's `shell\open\command` on Windows: the executable and the file, each quoted, because
/// a corpus path with a space in it is the normal case and an unquoted one arrives split.
pub fn open_command(exe: &str) -> (out: String)
    ensures
        out@ == "\""@ + exe@ + "\" \"%1\""@,
{
    let mut v: Vec<char> = Vec::new();
    push_str(&mut v, "\"");
    push_str(&mut v, exe);
    push_str(&mut v, "\" \"%1\"");
    string_of(v.as_slice())
}

/// What registering outside a `.app` bundle on macOS answers: there the bundle declares the file
/// type, so a bare executable has nothing to register.
pub open spec fn outside_a_bundle_text() -> Seq<char> {
    "this is not inside a .app bundle, and on macOS the file type is declared by the bundle rather than by a command. Use "@
        + APP_NAME_SHORT@
        + ".app -- the one the setup package put in /Applications, or the one staged beside this folder."@
}

/// The refusal registering gives on macOS when this executable is not inside a bundle.
pub fn outside_a_bundle() -> (out: String)
    ensures
        out@ == outside_a_bundle_text(),
{
    let mut v: Vec<char> = Vec::new();
    push_str(
        &mut v,
        "this is not inside a .app bundle, and on macOS the file type is declared by the bundle rather than by a command. Use ",
    );
    push_str(&mut v, APP_NAME_SHORT);
    push_str(
        &mut v,
        ".app -- the one the setup package put in /Applications, or the one staged beside this folder.",
    );
    string_of(v.as_slice())
}

/// What unregistering on macOS answers: the file type belongs to the bundle, so removing the bundle
/// is what removes it.
pub open spec fn bundle_owns_it_text() -> Seq<char> {
    "on macOS the file type belongs to the bundle. Move "@ + APP_NAME_SHORT@
        + ".app to the Trash to remove it."@
}

/// Unregistering where the declaration lives in the bundle (macOS): always refused, with the
/// sentence saying what to do instead.
pub fn unregister() -> (r: Result<(), String>)
    ensures
        r matches Err(e) && e@ == bundle_owns_it_text(),
{
    let mut v: Vec<char> = Vec::new();
    push_str(&mut v, "on macOS the file type belongs to the bundle. Move ");
    push_str(&mut v, APP_NAME_SHORT);
    push_str(&mut v, ".app to the Trash to remove it.");
    Err(string_of(v.as_slice()))
}

} // verus!
