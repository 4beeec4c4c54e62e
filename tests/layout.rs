use lew::toolbar::{ReplaceFmt, Selection, UnselectedApplyMode};

fn around(prefix: &str, suffix: &str) -> ReplaceFmt {
    ReplaceFmt::Around(prefix.to_string(), suffix.to_string())
}

fn start_line(prefix: &str) -> ReplaceFmt {
    ReplaceFmt::StartLine(prefix.to_string())
}

fn sel(start: usize, end: usize) -> Selection {
    Selection { start, end }
}

fn run(fmt: &ReplaceFmt, text: &str, s: Selection, mode: UnselectedApplyMode) -> (String, Selection) {
    fmt.layout(text.to_string(), s, mode)
}

fn chars(text: &str) -> Vec<char> {
    text.chars().collect()
}

#[test]
fn insertion_example() {
    let r = run(&around("**", "**"), "hello world", sel(0, 5), UnselectedApplyMode::Word);
    assert_eq!(r, ("**hello** world".to_string(), sel(2, 7)));
}

#[test]
fn toggle_off_example() {
    let r = run(&around("**", "**"), "**hello** world", sel(2, 7), UnselectedApplyMode::Word);
    assert_eq!(r, ("hello world".to_string(), sel(0, 5)));
}

#[test]
fn empty_selection_word_expansion() {
    let text = chars("type *italic* here");
    let r = UnselectedApplyMode::Word.expand(&text, sel(7, 7));
    assert_eq!(r, sel(5, 13));
    let word: String = text[r.start..r.end].iter().collect();
    assert_eq!(word, "*italic*");
    assert!(word.contains("italic"));
}

#[test]
fn empty_selection_word_expansion_then_toggle() {
    let r = run(&around("*", "*"), "type *italic* here", sel(7, 7), UnselectedApplyMode::Word);
    assert_eq!(r, ("type italic here".to_string(), sel(6, 6)));
}

#[test]
fn line_prefix_multi_line_example() {
    let fmt = start_line("> ");
    let r = run(&fmt, "a\nb\nc", sel(0, 5), UnselectedApplyMode::FromWordToEndLine);
    assert_eq!(r, ("> a\n> b\n> c".to_string(), sel(2, 11)));
    let back = run(&fmt, &r.0, r.1, UnselectedApplyMode::FromWordToEndLine);
    assert_eq!(back, ("a\nb\nc".to_string(), sel(0, 5)));
}

#[test]
fn boundary_at_buffer_edges() {
    let r = UnselectedApplyMode::Line.expand(&chars("abc\ndef"), sel(0, 0));
    assert_eq!(r, sel(0, 3));
    let r = UnselectedApplyMode::Line.expand(&chars("\nabc"), sel(0, 0));
    assert_eq!(r, sel(0, 0));
    let r = UnselectedApplyMode::Line.expand(&chars(""), sel(0, 0));
    assert_eq!(r, sel(0, 0));
    let r = UnselectedApplyMode::Word.expand(&chars("abc def"), sel(7, 7));
    assert_eq!(r, sel(4, 7));
}

#[test]
fn expansion_modes_differ() {
    let text = chars("one two\nthree four");
    assert_eq!(UnselectedApplyMode::Word.expand(&text, sel(5, 5)), sel(4, 7));
    assert_eq!(UnselectedApplyMode::Line.expand(&text, sel(5, 5)), sel(0, 7));
    assert_eq!(UnselectedApplyMode::FromWordToEndLine.expand(&text, sel(10, 10)), sel(8, 18));
    assert_eq!(UnselectedApplyMode::FromWordToEndLine.expand(&text, sel(5, 5)), sel(4, 7));
}

#[test]
fn non_empty_selection_is_not_expanded() {
    let text = chars("one two");
    assert_eq!(UnselectedApplyMode::Word.expand(&text, sel(1, 2)), sel(1, 2));
}

#[test]
fn boundary_predicates() {
    assert!(UnselectedApplyMode::Word.is_start_boundary(' '));
    assert!(UnselectedApplyMode::Word.is_end_boundary('\t'));
    assert!(UnselectedApplyMode::Word.is_end_boundary('\n'));
    assert!(!UnselectedApplyMode::Line.is_start_boundary(' '));
    assert!(UnselectedApplyMode::Line.is_end_boundary('\n'));
    assert!(UnselectedApplyMode::FromWordToEndLine.is_start_boundary(' '));
    assert!(!UnselectedApplyMode::FromWordToEndLine.is_end_boundary(' '));
    assert!(!UnselectedApplyMode::Word.is_start_boundary('x'));
    assert!(UnselectedApplyMode::Word.is_start_boundary('\u{3000}'));
}

#[test]
fn default_mode_is_word() {
    assert!(matches!(UnselectedApplyMode::default(), UnselectedApplyMode::Word));
}

#[test]
fn around_caret_insertion_and_removal() {
    let fmt = around("**", "**");
    let r = run(&fmt, "say hello now", sel(6, 6), UnselectedApplyMode::Word);
    assert_eq!(r, ("say **hello** now".to_string(), sel(8, 8)));
    let back = run(&fmt, &r.0, r.1, UnselectedApplyMode::Word);
    assert_eq!(back, ("say hello now".to_string(), sel(6, 6)));
}

#[test]
fn around_on_empty_buffer() {
    let r = run(&around("**", "**"), "", sel(0, 0), UnselectedApplyMode::Word);
    assert_eq!(r, ("****".to_string(), sel(2, 2)));
    let r = run(&start_line("> "), "", sel(0, 0), UnselectedApplyMode::Line);
    assert_eq!(r, ("> ".to_string(), sel(2, 2)));
}

#[test]
fn around_whole_buffer_inner_removal() {
    let r = run(&around("**", "**"), "**a**", sel(0, 5), UnselectedApplyMode::Word);
    assert_eq!(r, ("a".to_string(), sel(0, 1)));
}

#[test]
fn around_strips_one_marker_pair_only() {
    let r = run(&around("*", "*"), "**a**", sel(2, 3), UnselectedApplyMode::Word);
    assert_eq!(r, ("*a*".to_string(), sel(1, 2)));
}

#[test]
fn around_caret_inner_removal_at_buffer_end() {
    let r = run(&around("*", "*"), "*a*", sel(3, 3), UnselectedApplyMode::Word);
    assert_eq!(r, ("a".to_string(), sel(2, 2)));
}

#[test]
fn around_with_different_markers() {
    let fmt = around("[", "]()");
    let r = run(&fmt, "see docs", sel(4, 8), UnselectedApplyMode::Word);
    assert_eq!(r, ("see [docs]()".to_string(), sel(5, 9)));
    let back = run(&fmt, &r.0, r.1, UnselectedApplyMode::Word);
    assert_eq!(back, ("see docs".to_string(), sel(4, 8)));
}

#[test]
fn around_header_with_empty_suffix() {
    let fmt = around("### ", "");
    let r = run(&fmt, "Title", sel(0, 0), UnselectedApplyMode::Line);
    assert_eq!(r, ("### Title".to_string(), sel(4, 4)));
    let back = run(&fmt, &r.0, r.1, UnselectedApplyMode::Line);
    assert_eq!(back, ("Title".to_string(), sel(0, 0)));
}

#[test]
fn unicode_selection_offsets_are_characters() {
    let fmt = around("**", "**");
    let r = run(&fmt, "héllo wörld", sel(6, 11), UnselectedApplyMode::Word);
    assert_eq!(r, ("héllo **wörld**".to_string(), sel(8, 13)));
    let back = run(&fmt, &r.0, r.1, UnselectedApplyMode::Word);
    assert_eq!(back, ("héllo wörld".to_string(), sel(6, 11)));
    let r = run(&fmt, "日本語 テキスト", sel(5, 5), UnselectedApplyMode::Word);
    assert_eq!(r, ("日本語 **テキスト**".to_string(), sel(7, 7)));
    assert!(r.1.end <= r.0.chars().count());
}

#[test]
fn start_line_strips_every_line_of_a_fresh_block() {
    let r = run(&start_line("> "), "> a\n> b", sel(0, 7), UnselectedApplyMode::Line);
    assert_eq!(r, ("a\nb".to_string(), sel(0, 3)));
}

#[test]
fn start_line_strips_block_starting_at_line_break() {
    let r = run(&start_line("> "), "> a\n> b", sel(3, 7), UnselectedApplyMode::Line);
    assert_eq!(r, ("> a\nb".to_string(), sel(1, 3)));
}

#[test]
fn start_line_inserts_leading_line_break() {
    let r = run(&start_line("- "), "x y", sel(2, 3), UnselectedApplyMode::FromWordToEndLine);
    assert_eq!(r, ("x \n- y".to_string(), sel(5, 6)));
}

#[test]
fn start_line_caret_round_trip() {
    let fmt = start_line("> ");
    let r = run(&fmt, "hello", sel(2, 2), UnselectedApplyMode::FromWordToEndLine);
    assert_eq!(r, ("> hello".to_string(), sel(4, 4)));
    let back = run(&fmt, &r.0, r.1, UnselectedApplyMode::FromWordToEndLine);
    assert_eq!(back, ("hello".to_string(), sel(2, 2)));
}

#[test]
fn start_line_caret_shifts_with_inserted_line_break() {
    let r = run(&start_line("1. "), "a b", sel(3, 3), UnselectedApplyMode::FromWordToEndLine);
    assert_eq!(r, ("a \n1. b".to_string(), sel(7, 7)));
}

#[test]
fn start_line_caret_strip_moves_back_at_most_the_prefix() {
    let r = run(&start_line("> "), "> abc", sel(1, 1), UnselectedApplyMode::Line);
    assert_eq!(r, ("abc".to_string(), sel(0, 0)));
    let r = run(&start_line("> "), "> abc", sel(4, 4), UnselectedApplyMode::Line);
    assert_eq!(r, ("abc".to_string(), sel(2, 2)));
}

#[test]
fn start_line_only_newline_counts_as_line_start() {
    let r = run(&start_line("> "), "a ", sel(2, 2), UnselectedApplyMode::Line);
    assert_eq!(r, ("> a ".to_string(), sel(4, 4)));
    let r = run(&start_line("> "), "x b", sel(2, 3), UnselectedApplyMode::Line);
    assert_eq!(r, ("x \n> b".to_string(), sel(5, 6)));
}

#[test]
fn start_line_partial_prefix_does_not_toggle_off() {
    let r = run(&start_line("- [ ] "), "- a", sel(0, 3), UnselectedApplyMode::Line);
    assert_eq!(r, ("- [ ] - a".to_string(), sel(6, 9)));
}

#[test]
fn start_line_trailing_newline_gives_empty_last_line() {
    let r = run(&start_line("- "), "a\n", sel(0, 2), UnselectedApplyMode::Line);
    assert_eq!(r, ("- a\n- ".to_string(), sel(2, 6)));
}

#[test]
fn selections_start_before_end_after_every_operation() {
    let fmts = [around("**", "**"), around("*", "*"), start_line("> "), start_line("- [ ] ")];
    let texts = ["", "a", "> a\n> b\nc", "**x** y", "ü\nö\n", "- [ ] a\n- [ ] b"];
    let modes = [UnselectedApplyMode::Word, UnselectedApplyMode::Line, UnselectedApplyMode::FromWordToEndLine];
    for fmt in fmts.iter() {
        for text in texts.iter() {
            let n = text.chars().count();
            for mode in modes.iter() {
                for start in 0..=n {
                    for end in start..=n {
                        let r = run(fmt, text, sel(start, end), *mode);
                        assert!(r.1.start <= r.1.end);
                    }
                }
            }
        }
    }
}

#[test]
fn replace_fmt_from_marker_pair() {
    let fmt = ReplaceFmt::from(("**".to_string(), "**".to_string()));
    let r = run(&fmt, "hello world", sel(6, 11), UnselectedApplyMode::Word);
    assert_eq!(r, ("hello **world**".to_string(), sel(8, 13)));
}

#[test]
fn word_boundaries_are_unicode_white_space() {
    let text = chars("a\u{00A0}bc\u{2003}d");
    assert_eq!(UnselectedApplyMode::Word.expand(&text, sel(3, 3)), sel(2, 4));
    let text = chars("a\u{200B}b");
    assert_eq!(UnselectedApplyMode::Word.expand(&text, sel(1, 1)), sel(0, 3));
}
