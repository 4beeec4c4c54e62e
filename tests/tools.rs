use lew::toolbar::tool::{
    Bold, BulletedList, Code, Header, ImageLink, Italic, Link, OrderedList, Quote, TaskList, Tool,
};
use lew::toolbar::{Selection, UnselectedApplyMode};

fn sel(start: usize, end: usize) -> Selection {
    Selection { start, end }
}

fn check_fresh(tool: &Tool, title: &str, size: u32, mode: UnselectedApplyMode) {
    assert_eq!(tool.textarea_selector, ".lew-simple__textarea");
    assert_eq!(tool.class, "lew-simple__tool_button");
    assert_eq!(tool.title, title);
    assert_eq!(tool.size, size);
    assert_eq!(tool.mode, mode);
}

#[test]
fn tools_start_with_their_defaults() {
    check_fresh(&Header::new().0, "Header", 16, UnselectedApplyMode::Line);
    check_fresh(&Bold::new().0, "Bold", 16, UnselectedApplyMode::Word);
    check_fresh(&Italic::new().0, "Italic", 16, UnselectedApplyMode::Word);
    check_fresh(&Quote::new().0, "Quote", 16, UnselectedApplyMode::FromWordToEndLine);
    check_fresh(&Code::new().0, "Code", 16, UnselectedApplyMode::Word);
    check_fresh(&Link::new().0, "Link", 16, UnselectedApplyMode::Word);
    check_fresh(&ImageLink::new().0, "Image link", 16, UnselectedApplyMode::Word);
    check_fresh(&BulletedList::new().0, "Bulleted list", 16, UnselectedApplyMode::FromWordToEndLine);
    check_fresh(&OrderedList::new().0, "Ordered list", 16, UnselectedApplyMode::FromWordToEndLine);
    check_fresh(&TaskList::new().0, "Task list", 24, UnselectedApplyMode::FromWordToEndLine);
}

#[test]
fn builders_change_one_field_each() {
    let b = Bold::new().with_textarea_selector("#editor > textarea");
    assert_eq!(b.0.textarea_selector, "#editor > textarea");
    assert_eq!(b.0.title, "Bold");
    let b = b.with_class("button").with_title("Strong").with_size(24);
    assert_eq!(b.0.class, "button");
    assert_eq!(b.0.title, "Strong");
    assert_eq!(b.0.size, 24);
    assert_eq!(b.0.textarea_selector, "#editor > textarea");
    assert_eq!(b.0.mode, UnselectedApplyMode::Word);

    let q = Quote::new().with_size(20).with_class("q");
    assert_eq!(q.0.size, 20);
    assert_eq!(q.0.class, "q");
    assert_eq!(q.0.title, "Quote");
    let t = TaskList::new().with_title("Todo").with_textarea_selector("textarea");
    assert_eq!(t.0.title, "Todo");
    assert_eq!(t.0.textarea_selector, "textarea");
    let h = Header::new().with_class("h").with_size(8).with_title("H").with_textarea_selector("x");
    assert_eq!((h.0.class.as_str(), h.0.size, h.0.title.as_str()), ("h", 8, "H"));
    let i = Italic::new().with_class("i").with_size(9).with_title("I").with_textarea_selector("y");
    assert_eq!((i.0.class.as_str(), i.0.size, i.0.textarea_selector.as_str()), ("i", 9, "y"));
    let c = Code::new().with_class("c").with_size(10).with_title("C").with_textarea_selector("z");
    assert_eq!((c.0.class.as_str(), c.0.size, c.0.title.as_str()), ("c", 10, "C"));
    let l = Link::new().with_class("l").with_size(11).with_title("L").with_textarea_selector("w");
    assert_eq!((l.0.class.as_str(), l.0.size, l.0.textarea_selector.as_str()), ("l", 11, "w"));
    let m = ImageLink::new().with_class("m").with_size(12).with_title("M").with_textarea_selector("v");
    assert_eq!((m.0.class.as_str(), m.0.size, m.0.title.as_str()), ("m", 12, "M"));
    let u = BulletedList::new().with_class("u").with_size(13).with_title("U").with_textarea_selector("t");
    assert_eq!((u.0.class.as_str(), u.0.size, u.0.textarea_selector.as_str()), ("u", 13, "t"));
    let o = OrderedList::new().with_class("o").with_size(14).with_title("O").with_textarea_selector("s");
    assert_eq!((o.0.class.as_str(), o.0.size, o.0.title.as_str()), ("o", 14, "O"));
    let k = TaskList::new().with_class("k").with_size(15);
    assert_eq!((k.0.class.as_str(), k.0.size), ("k", 15));
}

#[test]
fn bold_toggles_a_word_at_the_caret() {
    let tool = Bold::new();
    let r = tool.apply("hello".to_string(), sel(2, 2));
    assert_eq!(r, ("**hello**".to_string(), sel(4, 4)));
    assert_eq!(tool.apply(r.0, r.1), ("hello".to_string(), sel(2, 2)));
}

#[test]
fn italic_wraps_selection() {
    let r = Italic::new().apply("a b".to_string(), sel(2, 3));
    assert_eq!(r, ("a *b*".to_string(), sel(3, 4)));
}

#[test]
fn header_prefixes_the_caret_line() {
    let tool = Header::new();
    let r = tool.apply("one\ntwo".to_string(), sel(5, 5));
    assert_eq!(r, ("one\n### two".to_string(), sel(9, 9)));
    assert_eq!(tool.apply(r.0, r.1), ("one\ntwo".to_string(), sel(5, 5)));
}

#[test]
fn quote_toggles_selected_lines() {
    let tool = Quote::new();
    let r = tool.apply("a\nb".to_string(), sel(0, 3));
    assert_eq!(r, ("> a\n> b".to_string(), sel(2, 7)));
    assert_eq!(tool.apply(r.0, r.1), ("a\nb".to_string(), sel(0, 3)));
}

#[test]
fn code_is_inline_within_a_line() {
    let tool = Code::new();
    let r = tool.apply("x y".to_string(), sel(2, 3));
    assert_eq!(r, ("x `y`".to_string(), sel(3, 4)));
    assert_eq!(tool.apply(r.0, r.1), ("x y".to_string(), sel(2, 3)));
}

#[test]
fn code_is_fenced_across_lines() {
    let r = Code::new().apply("a\nb".to_string(), sel(0, 3));
    assert_eq!(r, ("\n```\na\nb\n```\n".to_string(), sel(5, 8)));
}

#[test]
fn link_toggles_at_the_caret() {
    let tool = Link::new();
    let r = tool.apply("see docs".to_string(), sel(6, 6));
    assert_eq!(r, ("see [docs]()".to_string(), sel(7, 7)));
    assert_eq!(tool.apply(r.0, r.1), ("see docs".to_string(), sel(6, 6)));
}

#[test]
fn image_link_wraps_selection() {
    let tool = ImageLink::new();
    let r = tool.apply("cat".to_string(), sel(0, 3));
    assert_eq!(r, ("![cat]()".to_string(), sel(2, 5)));
    assert_eq!(tool.apply(r.0, r.1), ("cat".to_string(), sel(0, 3)));
}

#[test]
fn bulleted_list_toggles_lines() {
    let tool = BulletedList::new();
    let r = tool.apply("a\nb\nc".to_string(), sel(0, 5));
    assert_eq!(r, ("- a\n- b\n- c".to_string(), sel(2, 11)));
    assert_eq!(tool.apply(r.0, r.1), ("a\nb\nc".to_string(), sel(0, 5)));
}

#[test]
fn ordered_list_prefixes_lines() {
    let tool = OrderedList::new();
    let r = tool.apply("x\ny".to_string(), sel(0, 3));
    assert_eq!(r, ("1. x\n1. y".to_string(), sel(3, 9)));
    assert_eq!(tool.apply(r.0, r.1), ("x\ny".to_string(), sel(0, 3)));
}

#[test]
fn task_list_toggles_at_the_caret() {
    let tool = TaskList::new();
    let r = tool.apply("buy milk".to_string(), sel(0, 0));
    assert_eq!(r, ("- [ ] buy milk".to_string(), sel(6, 6)));
    assert_eq!(tool.apply(r.0, r.1), ("buy milk".to_string(), sel(0, 0)));
}

#[test]
fn code_fences_only_a_selection_with_a_line_break() {
    let r = Code::new().apply("ab\ncd".to_string(), sel(1, 2));
    assert_eq!(r, ("a`b`\ncd".to_string(), sel(2, 3)));
}
