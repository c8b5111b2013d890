use redscript_dap::source::{SourceRef, Standing};

#[test]
fn places_are_in_lower_case() {
    let place = SourceRef::new("R6\\Main.Reds", 12);
    assert_eq!(place.file_path(), "r6\\main.reds");
    assert_eq!(place.line(), 12);
    assert_eq!(SourceRef::new("É.REDS", 1).file_path(), "é.reds");
}

#[test]
fn places_as_given() {
    let place = SourceRef::new_unchecked("R6\\Main.Reds".to_owned(), 3);
    assert_eq!(place.file_path(), "R6\\Main.Reds");
    assert_eq!(place.line(), 3);
}

#[test]
fn later_lines_come_first() {
    let early = SourceRef::new("a", 1);
    let late = SourceRef::new("a", 2);
    assert_eq!(late.compare(&early), Standing::Before);
    assert_eq!(early.compare(&late), Standing::After);
    assert_eq!(early.compare(&early.clone()), Standing::Same);
    assert!(late < early);
    assert!(early > late);
    assert!(early == early.clone());
    assert!(early != late);
}

#[test]
fn files_are_in_order() {
    let a = SourceRef::new("a", 1);
    let ab = SourceRef::new("ab", 9);
    let b = SourceRef::new("b", 9);
    let accented = SourceRef::new("é", 9);
    assert_eq!(a.compare(&ab), Standing::Before);
    assert_eq!(ab.compare(&b), Standing::Before);
    assert_eq!(a.compare(&b), Standing::Before);
    assert_eq!(b.compare(&accented), Standing::Before);
    assert_eq!(accented.compare(&a), Standing::After);
}

#[test]
fn order_agrees_with_the_bytes_of_paths() {
    let paths = ["", "a", "a.reds", "ab", "b", "z", "é", "ł", "\u{ffff}", "\u{10000}"];
    for (i, p) in paths.iter().enumerate() {
        for (j, q) in paths.iter().enumerate() {
            let expected = if i < j {
                Standing::Before
            } else if i == j {
                Standing::Same
            } else {
                Standing::After
            };
            let a = SourceRef::new_unchecked(p.to_string(), 5);
            let b = SourceRef::new_unchecked(q.to_string(), 5);
            assert_eq!(p.cmp(q), i.cmp(&j));
            assert_eq!(a.compare(&b), expected);
        }
    }
}
