use redscript_dap::mapping::{FunctionId, FunctionMapping, SourceFileInfo};

const EXE: &str = "C:\\Games\\Cyberpunk 2077\\bin\\x64\\Cyberpunk2077.exe";

fn id(n: u64) -> FunctionId {
    FunctionId { parent: 1, name: n }
}

fn file(index: u32, path: &str) -> SourceFileInfo {
    SourceFileInfo {
        index,
        path: path.to_owned(),
    }
}

fn place(m: &FunctionMapping, f: FunctionId) -> Option<(String, u32)> {
    m.get(f).map(|p| (p.file_path().to_owned(), p.line()))
}

fn sample() -> FunctionMapping {
    let mut m = FunctionMapping::new();
    let a = file(0, "r6\\scripts\\a.reds");
    let b = file(1, "r6\\scripts\\b.reds");
    m.add(id(10), &a, None, 10);
    m.add(id(30), &a, None, 30);
    m.add(id(20), &a, None, 20);
    m.add(id(5), &b, None, 5);
    m
}

#[test]
fn functions_without_a_class() {
    assert_eq!(FunctionId::from_func(Some(3), 4, 9), FunctionId { parent: 3, name: 4 });
    assert_eq!(FunctionId::from_func(None, 4, 9), FunctionId { parent: 9, name: 4 });
}

#[test]
fn nothing_in_an_empty_mapping() {
    let m = FunctionMapping::new();
    assert_eq!(m.get_by_loc("a.reds", 5), None);
    assert_eq!(m.get_by_file("a.reds"), vec![]);
    assert!(m.get(id(1)).is_none());
}

#[test]
fn line_lies_in_the_function_that_starts_last() {
    let m = sample();
    assert_eq!(m.get_by_loc("r6\\scripts\\a.reds", 9), None);
    assert_eq!(m.get_by_loc("r6\\scripts\\a.reds", 10), Some(id(10)));
    assert_eq!(m.get_by_loc("r6\\scripts\\a.reds", 19), Some(id(10)));
    assert_eq!(m.get_by_loc("r6\\scripts\\a.reds", 20), Some(id(20)));
    assert_eq!(m.get_by_loc("r6\\scripts\\a.reds", 29), Some(id(20)));
    assert_eq!(m.get_by_loc("r6\\scripts\\a.reds", u32::MAX), Some(id(30)));
    assert_eq!(m.get_by_loc("r6\\scripts\\b.reds", 4), None);
    assert_eq!(m.get_by_loc("r6\\scripts\\b.reds", 100), Some(id(5)));
    assert_eq!(m.get_by_loc("r6\\scripts\\c.reds", 100), None);
}

#[test]
fn functions_of_a_file_from_the_last_on() {
    let m = sample();
    assert_eq!(m.get_by_file("r6\\scripts\\a.reds"), vec![id(30), id(20), id(10)]);
    assert_eq!(m.get_by_file("r6\\scripts\\b.reds"), vec![id(5)]);
    assert_eq!(m.get_by_file("r6\\scripts"), vec![]);
    assert_eq!(
        m.get_fns_preceding_line("r6\\scripts\\a.reds", 25),
        vec![id(20), id(10)]
    );
}

#[test]
fn first_of_the_preceding_functions() {
    let m = sample();
    for line in [0, 9, 10, 15, 20, 30, 31] {
        let all = m.get_fns_preceding_line("r6\\scripts\\a.reds", line);
        assert_eq!(m.get_by_loc("r6\\scripts\\a.reds", line), all.first().copied());
    }
}

#[test]
fn letter_case_does_not_count() {
    let m = sample();
    assert_eq!(m.get_by_loc("R6\\Scripts\\A.REDS", 12), Some(id(10)));
    assert_eq!(m.get_by_file("R6\\SCRIPTS\\B.reds"), vec![id(5)]);
}

#[test]
fn other_letters_are_found_in_lower_case_only() {
    let mut m = FunctionMapping::new();
    m.add(id(1), &file(0, "É.reds"), None, 1);
    assert_eq!(place(&m, id(1)), Some(("é.reds".to_owned(), 1)));
    assert_eq!(m.get_by_loc("é.reds", 1), Some(id(1)));
    assert_eq!(m.get_by_loc("é.REDS", 1), Some(id(1)));
    assert_eq!(m.get_by_loc("É.reds", 1), None);
}

#[test]
fn moved_function_leaves_its_place() {
    let mut m = sample();
    m.add(id(10), &file(1, "ignored"), None, 50);
    assert_eq!(place(&m, id(10)), Some(("r6\\scripts\\b.reds".to_owned(), 50)));
    assert_eq!(m.get_by_loc("r6\\scripts\\a.reds", 15), None);
    assert_eq!(m.get_by_loc("r6\\scripts\\b.reds", 50), Some(id(10)));
    assert_eq!(m.get_by_file("r6\\scripts\\a.reds"), vec![id(30), id(20)]);
}

#[test]
fn taken_place_frees_its_function() {
    let mut m = sample();
    m.add(id(99), &file(0, "ignored"), None, 20);
    assert_eq!(place(&m, id(99)), Some(("r6\\scripts\\a.reds".to_owned(), 20)));
    assert!(m.get(id(20)).is_none());
    assert_eq!(m.get_by_loc("r6\\scripts\\a.reds", 25), Some(id(99)));
    assert_eq!(place(&m, id(10)), Some(("r6\\scripts\\a.reds".to_owned(), 10)));
}

#[test]
fn moved_onto_another_function() {
    let mut m = sample();
    m.add(id(10), &file(0, "ignored"), None, 20);
    assert_eq!(place(&m, id(10)), Some(("r6\\scripts\\a.reds".to_owned(), 20)));
    assert!(m.get(id(20)).is_none());
    assert_eq!(m.get_by_file("r6\\scripts\\a.reds"), vec![id(30), id(10)]);
}

#[test]
fn added_twice_at_the_same_place() {
    let mut m = sample();
    m.add(id(10), &file(0, "ignored"), None, 10);
    assert_eq!(place(&m, id(10)), Some(("r6\\scripts\\a.reds".to_owned(), 10)));
    assert_eq!(
        m.get_by_file("r6\\scripts\\a.reds"),
        vec![id(30), id(20), id(10)]
    );
}

#[test]
fn redscript_files_lie_where_the_game_says() {
    let mut m = FunctionMapping::new();
    m.add(id(1), &file(0, "R6\\Scripts\\Main.reds"), Some(EXE), 7);
    assert_eq!(place(&m, id(1)), Some(("r6\\scripts\\main.reds".to_owned(), 7)));
}

#[test]
fn other_files_lie_below_redmod() {
    let mut m = FunctionMapping::new();
    m.add(id(1), &file(0, "Core\\AI\\Main.script"), Some(EXE), 7);
    let path = "c:\\games\\cyberpunk 2077\\tools\\redmod\\scripts\\core\\ai\\main.script";
    assert_eq!(place(&m, id(1)), Some((path.to_owned(), 7)));
    assert_eq!(m.get_by_loc(path, 8), Some(id(1)));
    // the extension counts with its case
    m.add(id(2), &file(1, "a.REDS"), Some(EXE), 1);
    let path = "c:\\games\\cyberpunk 2077\\tools\\redmod\\scripts\\a.reds";
    assert_eq!(place(&m, id(2)), Some((path.to_owned(), 1)));
}

#[test]
fn other_files_without_a_game_directory() {
    let mut m = FunctionMapping::new();
    m.add(id(1), &file(0, "Core\\Main.script"), None, 7);
    m.add(id(2), &file(1, "Core\\Other.script"), Some("C:\\x64\\Game.exe"), 7);
    assert_eq!(place(&m, id(1)), Some(("core\\main.script".to_owned(), 7)));
    assert_eq!(place(&m, id(2)), Some(("core\\other.script".to_owned(), 7)));
}

#[test]
fn path_of_a_file_stays() {
    let mut m = FunctionMapping::new();
    m.add(id(1), &file(4, "a.reds"), None, 1);
    m.add(id(2), &file(4, "b.reds"), None, 2);
    assert_eq!(place(&m, id(2)), Some(("a.reds".to_owned(), 2)));
    assert_eq!(m.get_by_file("a.reds"), vec![id(2), id(1)]);
}

#[test]
fn two_directions_agree() {
    let mut m = FunctionMapping::new();
    for n in 0..40u64 {
        let f = file((n % 3) as u32, ["a.reds", "b.reds", "c.reds"][(n % 3) as usize]);
        m.add(id(n % 17), &f, None, (n * 7 % 11) as u32);
    }
    for n in 0..17u64 {
        if let Some((path, line)) = place(&m, id(n)) {
            assert_eq!(m.get_by_loc(&path, line), Some(id(n)));
        }
    }
    for path in ["a.reds", "b.reds", "c.reds"] {
        for f in m.get_by_file(path) {
            assert_eq!(place(&m, f).map(|p| p.0), Some(path.to_owned()));
        }
    }
}

#[test]
fn games_on_verbatim_paths() {
    let mut m = FunctionMapping::new();
    let exe = "\\\\?\\C:\\g\\bin\\x64\\c.exe";
    m.add(id(1), &file(0, "a/../b.script"), Some(exe), 1);
    m.add(id(2), &file(1, "Core\\.\\a.script"), Some(exe), 1);
    let scripts = "\\\\?\\c:\\g\\tools\\redmod\\scripts";
    assert_eq!(place(&m, id(1)), Some((format!("{scripts}\\b.script"), 1)));
    assert_eq!(place(&m, id(2)), Some((format!("{scripts}\\core\\a.script"), 1)));
    // this one lies right on its share
    m.add(id(3), &file(2, "a.script"), Some("\\\\?\\UNC\\s\\h\\g.exe"), 1);
    assert_eq!(place(&m, id(3)), Some(("a.script".to_owned(), 1)));
}

#[test]
fn games_on_shares() {
    let mut m = FunctionMapping::new();
    let exe = "\\\\s\\h\\bin\\x64\\c.exe";
    m.add(id(1), &file(0, "a.script"), Some(exe), 1);
    assert_eq!(
        place(&m, id(1)),
        Some(("\\\\s\\h\\tools\\redmod\\scripts\\a.script".to_owned(), 1))
    );
}

#[test]
fn recorded_paths_are_in_lower_case() {
    let mut m = FunctionMapping::new();
    m.add(id(1), &file(0, "R6\\A.reds"), None, 3);
    m.add(id(2), &file(1, "\u{212a}.reds"), None, 4);
    m.add(id(3), &file(2, "Core\\X.script"), Some(EXE), 5);
    assert_eq!(place(&m, id(2)), Some(("k.reds".to_owned(), 4)));
    for n in 1..4 {
        let (path, line) = place(&m, id(n)).unwrap();
        assert_eq!(path, path.to_lowercase());
        assert_eq!(m.get_by_loc(&path, line), Some(id(n)));
        assert_eq!(m.get_by_file(&path), vec![id(n)]);
    }
}

#[test]
fn path_of_a_file_stays_whatever_is_added() {
    let mut m = FunctionMapping::new();
    m.add(id(1), &file(4, "a.reds"), None, 1);
    for n in 0..10 {
        m.add(id(n), &file(n as u32, "other.script"), Some(EXE), 7);
    }
    m.add(id(50), &file(4, "b.script"), Some(EXE), 9);
    assert_eq!(place(&m, id(50)), Some(("a.reds".to_owned(), 9)));
}
