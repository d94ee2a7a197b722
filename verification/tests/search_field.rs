use kettle::ui::search_field::{text_runs, SearchField, TextSpan};

fn typed(text: &str) -> SearchField {
    let mut field = SearchField::new();
    field.replace_text(None, text);
    field
}

#[test]
fn typing_appends_at_the_cursor() {
    let mut field = typed("rip");
    field.replace_text(None, "grep");
    assert_eq!(field.content(), "ripgrep");
    assert_eq!(field.selected_text_range(), (7..7, false));
    field.clear();
    assert_eq!(field.content(), "");
}

#[test]
fn arrows_step_over_whole_graphemes() {
    // "e" + combining acute, then a family emoji: two graphemes.
    let mut field = typed("e\u{301}👨‍👩‍👧");
    field.left();
    assert_eq!(field.selected_text_range().0, 2..2);
    field.left();
    assert_eq!(field.selected_text_range().0, 0..0);
    field.left();
    assert_eq!(field.selected_text_range().0, 0..0);
    field.right();
    assert_eq!(field.selected_text_range().0, 2..2);
    field.end();
    field.backspace();
    assert_eq!(field.content(), "e\u{301}");
    field.home();
    field.delete();
    assert_eq!(field.content(), "");
}

#[test]
fn shift_arrows_grow_and_reverse_the_selection() {
    let mut field = typed("abc");
    field.select_left();
    field.select_left();
    assert_eq!(field.selected_text_range(), (1..3, true));
    assert_eq!(field.copy().as_deref(), Some("bc"));
    field.select_right();
    field.select_right();
    field.select_right();
    assert_eq!(field.selected_text_range(), (3..3, true));
    field.home();
    field.select_right();
    assert_eq!(field.selected_text_range(), (0..1, false));
    field.left();
    assert_eq!(field.selected_text_range(), (0..0, false));
}

#[test]
fn select_all_then_type_replaces_everything() {
    let mut field = typed("wget");
    field.select_all();
    assert_eq!(field.copy().as_deref(), Some("wget"));
    field.replace_text(None, "jq");
    assert_eq!(field.content(), "jq");
    assert_eq!(field.copy(), None);
}

#[test]
fn cut_removes_what_it_copies_and_paste_stays_on_one_line() {
    let mut field = typed("ripgrep");
    field.select_all();
    assert_eq!(field.cut().as_deref(), Some("ripgrep"));
    assert_eq!(field.content(), "");
    assert_eq!(field.cut(), None);
    field.paste("a\r\nb\nc");
    assert_eq!(field.content(), "a  b c");
}

#[test]
fn marked_text_is_replaced_by_the_committed_text() {
    let mut field = typed("go ");
    field.replace_and_mark_text(None, "ｋ", Some(1..1));
    assert_eq!(field.content(), "go ｋ");
    assert_eq!(field.marked_text_range(), Some(3..4));
    assert_eq!(field.selected_text_range(), (4..4, false));
    field.replace_and_mark_text(None, "か", None);
    assert_eq!(field.content(), "go か");
    field.replace_text(None, "蚊");
    assert_eq!(field.content(), "go 蚊");
    assert_eq!(field.marked_text_range(), None);
    field.replace_and_mark_text(None, "x", None);
    field.unmark_text();
    assert_eq!(field.marked_text_range(), None);
}

#[test]
fn input_methods_address_text_in_utf16() {
    let field = typed("a🍺b");
    // the beer mug is two UTF-16 units and four bytes
    assert_eq!(field.text_for_range(1..3), ("🍺".to_string(), 1..3));
    // an offset inside the surrogate pair lands at the start of the character
    assert_eq!(field.text_for_range(2..4), ("🍺b".to_string(), 1..4));
    let mut field = field;
    field.replace_text(Some(1..3), "-");
    assert_eq!(field.content(), "a-b");
}

#[test]
fn marked_text_is_drawn_as_its_own_run() {
    assert_eq!(text_runs(5, None), vec![TextSpan { len: 5, underlined: false }]);
    assert_eq!(text_runs(0, None), vec![TextSpan { len: 0, underlined: false }]);
    assert_eq!(
        text_runs(10, Some(2..5)),
        vec![
            TextSpan { len: 2, underlined: false },
            TextSpan { len: 3, underlined: true },
            TextSpan { len: 5, underlined: false },
        ]
    );
    assert_eq!(text_runs(4, Some(0..4)), vec![TextSpan { len: 4, underlined: true }]);
    assert_eq!(text_runs(4, Some(1..1)), vec![TextSpan { len: 1, underlined: false }, TextSpan { len: 3, underlined: false }]);
}
