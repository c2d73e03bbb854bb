use typstfmt::context::{reindent_text, Context, Style};

#[test]
fn collapsing_write_squeezes_spaces_and_blank_lines() {
    let mut ctx = Context::default();
    ctx.write_collapsing("a  b   c");
    assert_eq!(ctx.buffer(), "a b c");
    let mut ctx = Context::default();
    ctx.write_collapsing("a\n\n\n\nb");
    assert_eq!(ctx.buffer(), "a\n\nb");
}

#[test]
fn collapsing_state_carries_across_writes() {
    let mut ctx = Context::default();
    ctx.write_collapsing("a ");
    ctx.write_collapsing(" b");
    assert_eq!(ctx.buffer(), "a b");
}

#[test]
fn raw_write_keeps_everything_and_loses_context() {
    let mut ctx = Context::default();
    ctx.write_raw("a  b\n\n\n");
    assert_eq!(ctx.buffer(), "a  b\n\n\n");
}

#[test]
fn raw_reindented_prefixes_inner_lines() {
    let mut ctx = Context::default().with_indent_level(2);
    ctx.write_raw_reindented("a\nb\nc");
    assert_eq!(ctx.buffer(), "a\n  b\n  c");
    assert_eq!(reindent_text("x\ny", ">>"), "x\n>>y");
}

#[test]
fn indent_steps_move_by_the_style_width() {
    let mut ctx = Context::default().with_style(Style { indent: 3 });
    assert_eq!(ctx.indent_level(), 0);
    ctx.inc_indent();
    ctx.inc_indent();
    assert_eq!(ctx.indent_level(), 6);
    ctx.dec_indent();
    assert_eq!(ctx.indent_level(), 3);
    ctx.newline_with_indent();
    assert_eq!(ctx.buffer(), "\n   ");
    assert_eq!(ctx.indent_string(), "   ");
}

#[test]
fn update_indent_applies_the_given_function() {
    let mut ctx = Context::default().with_indent_level(4);
    ctx.update_indent(|i| i / 2);
    assert_eq!(ctx.indent_level(), 2);
}

#[test]
fn with_indent_comes_back_down() {
    let ctx = Context::default().with_buffer("f(");
    let ctx = Context::with_indent(ctx, |mut c| {
        c.newline_with_indent();
        c.push("a, b");
        c
    });
    let mut ctx = ctx;
    ctx.newline_with_indent();
    ctx.push(")");
    assert_eq!(ctx.buffer(), "f(\n    a, b\n)");
}

#[test]
fn plain_cursor_writes() {
    let mut ctx = Context::default();
    ctx.push("x");
    ctx.space(None);
    ctx.push("y");
    ctx.space(Some(3));
    ctx.newline();
    ctx.indent();
    assert_eq!(ctx.buffer(), "x y   \n    ");
}
