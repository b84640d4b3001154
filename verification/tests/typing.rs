use potyi::typing::{text_route, TextContext, TextRoute};

fn context() -> TextContext {
    TextContext {
        consumed: false,
        terminal_focused: false,
        terminal_output_focused: false,
        vim: false,
        vim_suppressed: false,
        vim_insert: false,
        emacs: false,
        bar_active: false,
        single_cursor: true,
        empty_line: false,
    }
}

#[test]
fn typed_text_reaches_the_focused_consumer() {
    let cx = context();
    assert_eq!(text_route(cx, "", "a"), TextRoute::Document);
    assert_eq!(text_route(cx, "", ""), TextRoute::Ignore);
    assert_eq!(text_route(TextContext { consumed: true, ..cx }, "", "a"), TextRoute::Ignore);
    assert_eq!(text_route(TextContext { terminal_focused: true, ..cx }, "", "a"), TextRoute::Terminal);
    let output = TextContext { terminal_focused: true, terminal_output_focused: true, ..cx };
    assert_eq!(text_route(output, "", "a"), TextRoute::Ignore);
    assert_eq!(text_route(TextContext { vim: true, ..cx }, "", "a"), TextRoute::Ignore);
    assert_eq!(text_route(TextContext { vim: true, vim_insert: true, ..cx }, "", "a"), TextRoute::Document);
}

#[test]
fn colons_open_and_leave_the_command_bar() {
    let cx = context();
    assert_eq!(text_route(TextContext { empty_line: true, ..cx }, "", ":"), TextRoute::OpenBar);
    assert_eq!(text_route(cx, "", ":"), TextRoute::Document);
    let bar = TextContext { bar_active: true, ..cx };
    assert_eq!(text_route(bar, ":", ":"), TextRoute::ColonIntoDocument);
    assert_eq!(text_route(bar, ":go", "t"), TextRoute::Bar);
    assert_eq!(text_route(TextContext { emacs: true, ..bar }, ":", ":"), TextRoute::Bar);
}
