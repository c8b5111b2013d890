use redscript_dap::path::{file_name, has_extension, join, parent};

#[test]
fn file_names() {
    assert_eq!(file_name("c:\\game\\r6\\scripts\\main.reds").as_deref(), Some("main.reds"));
    assert_eq!(file_name("scripts/sub\\a.script").as_deref(), Some("a.script"));
    assert_eq!(file_name("main.reds").as_deref(), Some("main.reds"));
    assert_eq!(file_name("c:main.reds").as_deref(), Some("main.reds"));
    assert_eq!(file_name("dir\\").as_deref(), Some("dir"));
    assert_eq!(file_name("dir\\.").as_deref(), Some("dir"));
    assert_eq!(file_name("\\\\server\\share\\x.reds").as_deref(), Some("x.reds"));
}

#[test]
fn paths_without_a_file_name() {
    assert_eq!(file_name(""), None);
    assert_eq!(file_name("."), None);
    assert_eq!(file_name(".."), None);
    assert_eq!(file_name("dir\\.."), None);
    assert_eq!(file_name("c:\\"), None);
    assert_eq!(file_name("c:"), None);
    assert_eq!(file_name("/"), None);
    assert_eq!(file_name("\\\\server\\share"), None);
    assert_eq!(file_name("\\\\server\\share\\"), None);
}

#[test]
fn extensions() {
    assert!(has_extension("r6\\scripts\\main.reds", "reds"));
    assert!(has_extension("a.b.reds", "reds"));
    assert!(has_extension("main.reds\\", "reds"));
    assert!(has_extension("a.", ""));
    assert!(!has_extension("main.REDS", "reds"));
    assert!(!has_extension("main.script", "reds"));
    assert!(!has_extension("main.reds\\other", "reds"));
    assert!(!has_extension(".reds", "reds"));
    assert!(!has_extension("reds", "reds"));
    assert!(!has_extension("..", ""));
    assert!(!has_extension("", ""));
}

#[test]
fn parents() {
    assert_eq!(parent("c:\\game\\bin\\x64\\game.exe").as_deref(), Some("c:\\game\\bin\\x64"));
    assert_eq!(parent("c:\\game\\bin\\").as_deref(), Some("c:\\game"));
    assert_eq!(parent("c:\\game").as_deref(), Some("c:\\"));
    assert_eq!(parent("c:game").as_deref(), Some("c:"));
    assert_eq!(parent("game\\.\\bin").as_deref(), Some("game"));
    assert_eq!(parent("game").as_deref(), Some(""));
    assert_eq!(parent("..").as_deref(), Some(""));
    assert_eq!(parent("\\\\server\\share\\game").as_deref(), Some("\\\\server\\share\\"));
    assert_eq!(parent("\\\\server\\game").as_deref(), None);
    assert_eq!(parent("\\\\game").as_deref(), Some("\\"));
}

#[test]
fn paths_without_a_parent() {
    assert_eq!(parent(""), None);
    assert_eq!(parent("c:\\"), None);
    assert_eq!(parent("c:"), None);
    assert_eq!(parent("/"), None);
    assert_eq!(parent("\\\\server\\share"), None);
}

#[test]
fn joining() {
    assert_eq!(join("c:\\game", "tools"), "c:\\game\\tools");
    assert_eq!(join("c:\\", "tools"), "c:\\tools");
    assert_eq!(join("c:", "tools"), "c:tools");
    assert_eq!(join("game/", "tools"), "game/tools");
    assert_eq!(join("", "tools"), "tools");
    assert_eq!(join("game", ""), "game\\");
    assert_eq!(join("\\\\server\\share", "x"), "\\\\server\\share\\x");
}

#[test]
fn joining_paths_that_stand_alone() {
    assert_eq!(join("c:\\game", "d:\\other"), "d:\\other");
    assert_eq!(join("c:\\game", "d:other"), "d:other");
    assert_eq!(join("c:\\game", "\\\\server\\share\\x"), "\\\\server\\share\\x");
    assert_eq!(join("c:\\game", "\\other"), "c:\\other");
    assert_eq!(join("game", "/other"), "/other");
    assert_eq!(join("\\\\server\\share\\game", "\\x"), "\\\\server\\share\\x");
}

#[test]
fn file_names_of_verbatim_paths() {
    assert_eq!(
        file_name("\\\\?\\UNC\\server\\share\\x.reds").as_deref(),
        Some("x.reds")
    );
    assert_eq!(file_name("\\\\?\\C:\\a/b.reds").as_deref(), Some("a/b.reds"));
    assert_eq!(file_name("\\\\?\\C:/foo/bar").as_deref(), Some("foo/bar"));
    assert_eq!(file_name("\\\\?\\name\\x").as_deref(), Some("x"));
    assert_eq!(file_name("\\\\?\\C:foo\\x").as_deref(), Some("x"));
    assert_eq!(file_name("\\\\?\\UNC\\server\\share"), None);
    assert_eq!(file_name("\\\\?\\UNC\\server"), None);
    assert_eq!(file_name("\\\\?\\C:"), None);
    assert_eq!(file_name("\\\\?\\C:foo"), None);
    assert_eq!(file_name("\\\\?\\foo/bar"), None);
    assert_eq!(file_name("\\\\?\\C:\\a\\."), None);
    assert_eq!(file_name("\\\\?\\C:\\a\\.."), None);
}

#[test]
fn verbatim_paths_are_written_with_backslashes() {
    // with other separators these go to the share `C:` on the machine `?`
    assert_eq!(file_name("//?/C:/a/b.reds").as_deref(), Some("b.reds"));
    assert_eq!(file_name("\\\\?/C:\\a/b.reds").as_deref(), Some("b.reds"));
    assert_eq!(parent("//?/C:/a").as_deref(), Some("//?/C:/"));
    assert_eq!(join("//?/C:/a", "../b"), "//?/C:/a\\../b");
}

#[test]
fn file_names_on_devices() {
    assert_eq!(file_name("\\\\.\\"), None);
    assert_eq!(file_name("\\\\.\\COM1"), None);
    assert_eq!(file_name("//./COM1/x").as_deref(), Some("x"));
    assert_eq!(parent("\\\\.\\\\x").as_deref(), Some("\\\\.\\\\"));
    assert_eq!(parent("\\\\.\\COM1"), None);
    assert_eq!(join("\\\\.\\", "x"), "\\\\.\\x");
    assert_eq!(join("\\\\.\\COM1", "x"), "\\\\.\\COM1\\x");
}

#[test]
fn extensions_of_verbatim_paths() {
    assert!(has_extension("\\\\?\\C:\\a/b.reds", "reds"));
    assert!(has_extension("\\\\?\\C:\\b.reds\\", "reds"));
    assert!(!has_extension("\\\\?\\C:\\b.reds\\.", "reds"));
    assert!(!has_extension("\\\\?\\b.reds", "reds"));
}

#[test]
fn parents_of_verbatim_paths() {
    assert_eq!(
        parent("\\\\?\\UNC\\s\\h\\g.exe").as_deref(),
        Some("\\\\?\\UNC\\s\\h\\")
    );
    assert_eq!(parent("\\\\?\\UNC\\s\\h\\"), None);
    assert_eq!(parent("\\\\?\\UNC\\s\\"), None);
    assert_eq!(parent("\\\\?\\UNC\\s"), None);
    assert_eq!(parent("\\\\?\\C:\\a\\b").as_deref(), Some("\\\\?\\C:\\a"));
    assert_eq!(parent("\\\\?\\C:\\a\\.").as_deref(), Some("\\\\?\\C:\\a"));
    assert_eq!(parent("\\\\?\\C:\\a/b").as_deref(), Some("\\\\?\\C:\\"));
    assert_eq!(parent("\\\\?\\C:/foo/bar").as_deref(), Some("\\\\?\\C:/"));
    assert_eq!(parent("\\\\?\\C:\\"), None);
    assert_eq!(parent("\\\\?\\name"), None);
}

#[test]
fn dot_behind_a_drive() {
    assert_eq!(parent("c:."), None);
    assert_eq!(parent("c:.\\"), None);
    assert_eq!(parent("c:.\\a").as_deref(), Some("c:."));
    assert_eq!(parent("c:..").as_deref(), Some("c:"));
    assert_eq!(parent(".").as_deref(), Some(""));
}

#[test]
fn joining_to_verbatim_paths() {
    let base = "\\\\?\\C:\\g";
    assert_eq!(join(base, "tools"), "\\\\?\\C:\\g\\tools");
    assert_eq!(join(base, "a/../b.script"), "\\\\?\\C:\\g\\b.script");
    assert_eq!(join(base, "./a//b/."), "\\\\?\\C:\\g\\a\\b");
    assert_eq!(join(base, "."), "\\\\?\\C:\\g");
    assert_eq!(join(base, ".."), "\\\\?\\C:\\");
    assert_eq!(join(base, "../../x"), "\\\\?\\C:\\x");
    assert_eq!(join(base, "/x/./y"), "\\\\?\\C:\\x\\y");
    assert_eq!(join(base, "\\"), "\\\\?\\C:\\");
    assert_eq!(join(base, ""), "\\\\?\\C:\\g\\");
    assert_eq!(join(base, "d:\\x"), "d:\\x");
    assert_eq!(join("\\\\?\\C:", "a"), "\\\\?\\C:\\a");
    assert_eq!(join("\\\\?\\C:", "."), "\\\\?\\C:");
    assert_eq!(join("\\\\?\\C:/", "."), "\\\\?\\C:\\");
    assert_eq!(join("\\\\?\\UNC\\s\\h", "../x"), "\\\\?\\UNC\\s\\h\\x");
    assert_eq!(join("c:\\g", "\\\\?\\D:\\x"), "\\\\?\\D:\\x");
}

#[test]
fn components_of_a_verbatim_base_stay() {
    assert_eq!(join("\\\\?\\C:\\a\\.", "b"), "\\\\?\\C:\\a\\.\\b");
    assert_eq!(join("\\\\?\\C:\\a\\.", ".."), "\\\\?\\C:\\a\\.");
    assert_eq!(join("\\\\?\\C:\\a\\..", ".."), "\\\\?\\C:\\a\\..");
    assert_eq!(join("\\\\?\\C:\\a\\\\b/", "c"), "\\\\?\\C:\\a\\b/\\c");
}
