//! Where the tool keeps its files, what it writes into them, and the texts it shows
//! after a capture.
use vstd::prelude::*;

verus! {

/// Joining a relative path component as `std::path::PathBuf::push` does on Unix: no
/// separator after an empty base or after a base that already ends with `/`.
pub open spec fn join_spec(base: Seq<char>, part: Seq<char>) -> Seq<char> {
    if base.len() == 0 {
        part
    } else if base.last() == '/' {
        base + part
    } else {
        base + seq!['/'] + part
    }
}

/// `s` starts with `p`.
pub open spec fn starts_with_spec(s: Seq<char>, p: Seq<char>) -> bool {
    p.len() <= s.len() && s.subrange(0, p.len() as int) == p
}

/// Appends the relative component `part` to the path `base`.
pub fn join_path(base: &str, part: &str) -> (r: String)
    ensures
        r@ == join_spec(base@, part@),
{
    let n = base.unicode_len();
    let mut r = base.to_string();
    proof {
        reveal_strlit("/");
    }
    if n > 0 && base.get_char(n - 1) != '/' {
        r.append("/");
    }
    r.append(part);
    r
}

/// Whether `s` starts with `p`.
pub fn starts_with(s: &str, p: &str) -> (r: bool)
    ensures
        r == starts_with_spec(s@, p@),
{
    let n = p.unicode_len();
    if n > s.unicode_len() {
        return false;
    }
    let mut i: usize = 0;
    while i < n
        invariant
            n == p@.len(),
            n <= s@.len(),
            i <= n,
            forall|j: int| 0 <= j < i ==> s@[j] == p@[j],
        decreases n - i,
    {
        if s.get_char(i) != p.get_char(i) {
            assert(s@.subrange(0, n as int)[i as int] != p@[i as int]);
            return false;
        }
        i = i + 1;
    }
    assert(s@.subrange(0, n as int) =~= p@);
    true
}

/// The home directory: the value of `HOME`, or `.` when it is not set.
pub fn home_dir(home: Option<String>) -> (r: String)
    ensures
        home matches Some(h) ==> r@ == h@,
        home is None ==> r@ == "."@,
{
    match home {
        Some(h) => h,
        None => ".".to_string(),
    }
}

/// Directory of the configuration file: `~/.config/mosaic`.
pub fn config_dir(home: &str) -> (r: String)
    ensures
        r@ == join_spec(join_spec(home@, ".config"@), "mosaic"@),
{
    let d = join_path(home, ".config");
    join_path(&d, "mosaic")
}

/// The configuration file: `~/.config/mosaic/config.json`.
pub fn config_file(home: &str) -> (r: String)
    ensures
        r@ == join_spec(join_spec(join_spec(home@, ".config"@), "mosaic"@), "config.json"@),
{
    let d = config_dir(home);
    join_path(&d, "config.json")
}

/// The pictures directory: `~/Pictures`.
pub fn pictures_dir(home: &str) -> (r: String)
    ensures
        r@ == join_spec(home@, "Pictures"@),
{
    join_path(home, "Pictures")
}

/// Default directory for screenshots: `~/Pictures` when it exists, else the home directory.
pub fn default_save_dir(home: &str, pictures_exists: bool) -> (r: String)
    ensures
        pictures_exists ==> r@ == join_spec(home@, "Pictures"@),
        !pictures_exists ==> r@ == home@,
{
    if pictures_exists {
        pictures_dir(home)
    } else {
        home.to_string()
    }
}

/// Directory of the icon: `~/.local/share/icons`.
pub fn icon_dir(home: &str) -> (r: String)
    ensures
        r@ == join_spec(join_spec(join_spec(home@, ".local"@), "share"@), "icons"@),
{
    let a = join_path(home, ".local");
    let b = join_path(&a, "share");
    join_path(&b, "icons")
}

/// The icon file: `~/.local/share/icons/mosaic.png`.
pub fn icon_file(home: &str) -> (r: String)
    ensures
        r@ == join_spec(
            join_spec(join_spec(join_spec(home@, ".local"@), "share"@), "icons"@),
            "mosaic.png"@,
        ),
{
    let d = icon_dir(home);
    join_path(&d, "mosaic.png")
}

/// The text of a desktop entry that starts `exe` with the icon `icon`; the application
/// menu entry also names its category.
pub open spec fn desktop_entry_spec(exe: Seq<char>, icon: Seq<char>, with_category: bool) -> Seq<char> {
    let body = "[Desktop Entry]\nType=Application\nName=Mosaic\nExec="@ + exe + "\nIcon="@ + icon
        + "\nComment=Region-Based Scrolling Capture\nTerminal=false\n"@;
    if with_category {
        body + "Categories=Utility;\n"@
    } else {
        body
    }
}

/// The autostart entry is an application entry named Mosaic that runs `exe` with the icon
/// `icon`, and the application menu entry is the same text followed by its category line.
pub proof fn lemma_desktop_entry_text(exe: Seq<char>, icon: Seq<char>)
    ensures
        desktop_entry_spec(exe, icon, false) == "[Desktop Entry]\nType=Application\nName=Mosaic\nExec="@
            + exe + "\nIcon="@ + icon + "\nComment=Region-Based Scrolling Capture\nTerminal=false\n"@,
        desktop_entry_spec(exe, icon, true) == desktop_entry_spec(exe, icon, false)
            + "Categories=Utility;\n"@,
{
}

/// Builds the text of a desktop entry.
pub fn desktop_entry(exe: &str, icon: &str, with_category: bool) -> (r: String)
    ensures
        r@ == desktop_entry_spec(exe@, icon@, with_category),
{
    let mut r = "[Desktop Entry]\nType=Application\nName=Mosaic\nExec=".to_string();
    r.append(exe);
    r.append("\nIcon=");
    r.append(icon);
    r.append("\nComment=Region-Based Scrolling Capture\nTerminal=false\n");
    if with_category {
        r.append("Categories=Utility;\n");
    }
    r
}

/// What to do with the autostart entry.
pub enum AutostartChange {
    /// Write this text into the entry.
    Write(String),
    /// Remove the entry.
    Remove,
    /// Leave it alone.
    Keep,
}

/// The autostart directory to create, the entry file in it, and the change to make.
pub struct AutostartPlan {
    pub dir: String,
    pub file: String,
    pub change: AutostartChange,
}

/// Turning autostart on writes an entry for the running executable (when its path is
/// known) into `~/.config/autostart/mosaic.desktop`; turning it off removes that file.
/// The directory is created either way.
pub fn update_autostart(enabled: bool, home: &str, current_exe: Option<&str>) -> (r: AutostartPlan)
    ensures
        r.dir@ == join_spec(join_spec(home@, ".config"@), "autostart"@),
        r.file@ == join_spec(r.dir@, "mosaic.desktop"@),
        enabled && current_exe is Some ==> (r.change matches AutostartChange::Write(text)
            && text@ == desktop_entry_spec(
            current_exe.unwrap()@,
            join_spec(
                join_spec(join_spec(join_spec(home@, ".local"@), "share"@), "icons"@),
                "mosaic.png"@,
            ),
            false,
        )),
        enabled && current_exe is None ==> r.change is Keep,
        !enabled ==> r.change is Remove,
{
    let c = join_path(home, ".config");
    let dir = join_path(&c, "autostart");
    let file = join_path(&dir, "mosaic.desktop");
    let change = if enabled {
        match current_exe {
            Some(exe) => {
                let icon = icon_file(home);
                AutostartChange::Write(desktop_entry(exe, &icon, false))
            },
            None => AutostartChange::Keep,
        }
    } else {
        AutostartChange::Remove
    };
    AutostartPlan { dir, file, change }
}

/// The files of the application menu entry: the icon directory and file, the menu
/// directory and entry file, and the entry's text.
pub struct DesktopEntryPlan {
    pub icon_dir: String,
    pub icon_file: String,
    pub app_dir: String,
    pub entry_file: String,
    pub content: String,
}

/// The application menu entry for the running executable `exe`: the icon goes to
/// `~/.local/share/icons/mosaic.png` and the entry to
/// `~/.local/share/applications/mosaic.desktop`.
pub fn ensure_desktop_entry(home: &str, exe: &str) -> (r: DesktopEntryPlan)
    ensures
        r.icon_dir@ == join_spec(join_spec(join_spec(home@, ".local"@), "share"@), "icons"@),
        r.icon_file@ == join_spec(r.icon_dir@, "mosaic.png"@),
        r.app_dir@ == join_spec(join_spec(join_spec(home@, ".local"@), "share"@), "applications"@),
        r.entry_file@ == join_spec(r.app_dir@, "mosaic.desktop"@),
        r.content@ == desktop_entry_spec(exe@, r.icon_file@, true),
{
    let idir = icon_dir(home);
    let ifile = join_path(&idir, "mosaic.png");
    let a = join_path(home, ".local");
    let b = join_path(&a, "share");
    let app_dir = join_path(&b, "applications");
    let entry_file = join_path(&app_dir, "mosaic.desktop");
    let content = desktop_entry(exe, &ifile, true);
    DesktopEntryPlan { icon_dir: idir, icon_file: ifile, app_dir, entry_file, content }
}

/// The entry is written unless the file already holds exactly the wanted text.
pub fn desktop_entry_needs_write(existing: Option<String>, content: &String) -> (r: bool)
    ensures
        r == (match existing {
            Some(e) => e@ != content@,
            None => true,
        }),
{
    match existing {
        Some(e) => !(e == *content),
        None => true,
    }
}

/// File name of a saved screenshot: `<prefix>_<timestamp>.png`.
pub fn screenshot_file_name(prefix: &str, timestamp: &str) -> (r: String)
    ensures
        r@ == prefix@ + "_"@ + timestamp@ + ".png"@,
{
    let mut r = prefix.to_string();
    r.append("_");
    r.append(timestamp);
    r.append(".png");
    r
}

/// Title of the notification after saving: scrolling captures (file prefix starting with
/// `scroll`) and screen captures are told apart.
pub fn capture_summary(prefix: &str) -> (r: &'static str)
    ensures
        starts_with_spec(prefix@, "scroll"@) ==> r@ == "Scrolling Capture Done"@,
        !starts_with_spec(prefix@, "scroll"@) ==> r@ == "Screen Capture Done"@,
{
    if starts_with(prefix, "scroll") {
        "Scrolling Capture Done"
    } else {
        "Screen Capture Done"
    }
}

/// Body of the notification after saving `file_name`, mentioning the clipboard when the
/// image was copied there too.
pub fn capture_body(file_name: &str, copied_to_clipboard: bool) -> (r: String)
    ensures
        copied_to_clipboard ==> r@ == "Image saved to "@ + file_name@ + " and copied to clipboard!"@,
        !copied_to_clipboard ==> r@ == "Image saved to "@ + file_name@,
{
    let mut r = "Image saved to ".to_string();
    r.append(file_name);
    if copied_to_clipboard {
        r.append(" and copied to clipboard!");
    }
    r
}

} // verus!
