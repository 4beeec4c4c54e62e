use lew::toolbar::Selection;

#[test]
fn selection_length_and_emptiness() {
    let s = Selection { start: 3, end: 7 };
    assert_eq!(s.len(), 4);
    assert!(!s.is_empty());
    let caret = Selection { start: 5, end: 5 };
    assert_eq!(caret.len(), 0);
    assert!(caret.is_empty());
    assert_eq!(Selection::default(), Selection { start: 0, end: 0 });
}

#[test]
fn selection_shift() {
    let s = Selection { start: 3, end: 7 };
    assert_eq!(s + 2, Selection { start: 5, end: 9 });
    assert_eq!(s - 3, Selection { start: 0, end: 4 });
}

#[test]
fn selection_from_range() {
    assert_eq!(Selection::from(2..6), Selection { start: 2, end: 6 });
}

#[test]
fn selection_field_wise_arithmetic() {
    let a = Selection { start: 3, end: 7 };
    let b = Selection { start: 1, end: 2 };
    assert_eq!(a + b, Selection { start: 4, end: 9 });
    assert_eq!(a - b, Selection { start: 2, end: 5 });
}
