use lew::rich::{utf8_len, RichEditor, RichEditorProps};

fn editor(text: &str, caret_index: usize) -> RichEditor {
    RichEditor::create(&RichEditorProps {
        id: "e".to_string(),
        class: "lew-editor".to_string(),
        caret_index,
        text: text.to_string(),
    })
}

#[test]
fn create_copies_the_properties() {
    let e = editor("héllo", 3);
    assert_eq!(e.id, "e");
    assert_eq!(e.class, "lew-editor");
    assert_eq!(e.caret_index, 3);
    assert_eq!(e.text, "héllo");
}

#[test]
fn changed_takes_new_properties() {
    let mut e = editor("a", 0);
    let redraw = e.changed(&RichEditorProps {
        id: "f".to_string(),
        class: "c".to_string(),
        caret_index: 1,
        text: "b".to_string(),
    });
    assert!(redraw);
    assert_eq!((e.id.as_str(), e.class.as_str(), e.caret_index, e.text.as_str()), ("f", "c", 1, "b"));
}

#[test]
fn caret_boundary_check() {
    assert!(editor("héllo", 3).caret_on_boundary());
    assert!(!editor("héllo", 2).caret_on_boundary());
    assert!(editor("héllo", 6).caret_on_boundary());
    assert!(!editor("héllo", 7).caret_on_boundary());
}

#[test]
fn text_around_the_caret() {
    let e = editor("héllo", 3);
    assert_eq!(e.text_before_caret(), "hé");
    assert_eq!(e.text_after_caret(), "llo");
    let e = editor("héllo", 0);
    assert_eq!(e.text_before_caret(), "");
    assert_eq!(e.text_after_caret(), "héllo");
    let e = editor("héllo", 6);
    assert_eq!(e.text_before_caret(), "héllo");
    assert_eq!(e.text_after_caret(), "");
}

#[test]
fn char_widths_around_the_caret() {
    let e = editor("aé日😀", 3);
    assert_eq!(e.before_char_len(), 2);
    assert_eq!(e.after_char_len(), 3);
    let e = editor("aé日😀", 6);
    assert_eq!(e.before_char_len(), 3);
    assert_eq!(e.after_char_len(), 4);
    let e = editor("aé日😀", 0);
    assert_eq!(e.before_char_len(), 0);
    assert_eq!(e.after_char_len(), 1);
    let e = editor("aé日😀", 10);
    assert_eq!(e.before_char_len(), 4);
    assert_eq!(e.after_char_len(), 0);
}

#[test]
fn utf8_lengths() {
    assert_eq!(utf8_len('a'), 1);
    assert_eq!(utf8_len('é'), 2);
    assert_eq!(utf8_len('日'), 3);
    assert_eq!(utf8_len('😀'), 4);
    assert_eq!(utf8_len('\u{7F}'), 1);
    assert_eq!(utf8_len('\u{80}'), 2);
    assert_eq!(utf8_len('\u{7FF}'), 2);
    assert_eq!(utf8_len('\u{800}'), 3);
    assert_eq!(utf8_len('\u{FFFF}'), 3);
    assert_eq!(utf8_len('\u{10000}'), 4);
}

#[test]
fn typing_inserts_at_the_caret() {
    let mut e = editor("hé!", 3);
    e.type_item("llö");
    assert_eq!(e.text, "héllö!");
    assert_eq!(e.caret_index, 7);
    e.type_item("");
    assert_eq!(e.text, "héllö!");
    assert_eq!(e.caret_index, 7);
}

#[test]
fn deleting_before_the_caret() {
    let mut e = editor("a日b", 4);
    assert!(e.delete_char_before_caret());
    assert_eq!(e.text, "ab");
    assert_eq!(e.caret_index, 1);
    assert!(e.delete_char_before_caret());
    assert_eq!(e.text, "b");
    assert_eq!(e.caret_index, 0);
    assert!(!e.delete_char_before_caret());
    assert_eq!(e.text, "b");
    assert_eq!(e.caret_index, 0);
}

#[test]
fn moving_the_caret() {
    let mut e = editor("é😀", 0);
    assert!(!e.move_before());
    assert_eq!(e.caret_index, 0);
    assert!(e.move_after());
    assert_eq!(e.caret_index, 2);
    assert!(e.move_after());
    assert_eq!(e.caret_index, 6);
    assert!(!e.move_after());
    assert_eq!(e.caret_index, 6);
    assert!(e.move_before());
    assert_eq!(e.caret_index, 2);
    assert_eq!(e.text, "é😀");
}
