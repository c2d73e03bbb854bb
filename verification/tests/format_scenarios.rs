use typstfmt::config::{Config, IdentSpace};

fn tiny_line_config() -> Config {
    Config { max_line_length: 1, ..Config::default() }
}

#[test]
fn call_gets_standard_separators() {
    assert_eq!(typstfmt::format("#f(1,2,3)", Config::default()), "#f(1, 2, 3)");
}

#[test]
fn long_call_breaks_with_trailing_comma() {
    assert_eq!(
        typstfmt::format("#f(1,this_is_absurdly_long,3)", tiny_line_config()),
        "#f(\n  1,\n  this_is_absurdly_long,\n  3,\n)"
    );
}

#[test]
fn single_argument_call_does_not_break() {
    assert_eq!(
        typstfmt::format("#f(this_is_absurdly_long)", tiny_line_config()),
        "#f(this_is_absurdly_long)"
    );
}

#[test]
fn single_element_sequence_keeps_trailing_comma() {
    assert_eq!(typstfmt::format("#(auto,)", Config::default()), "#(auto,)");
}

#[test]
fn disabled_region_is_preserved_verbatim() {
    let out = typstfmt::format(
        "// format:off\n#f(x : [p])\n// format:on\nnotp",
        Config::default(),
    );
    assert!(out.contains("#f(x : [p])"), "preserved region was changed: {out:?}");
}

#[test]
fn empty_code_block_collapses() {
    assert_eq!(typstfmt::format("#{  }", Config::default()), "#{ }");
}

#[test]
fn legacy_disable_marker_is_honoured() {
    let out = typstfmt::format(
        "notp // typstfmt::off\n#f(x : [p])\n// typstfmt::on\nnotp",
        Config::default(),
    );
    assert!(out.contains("#f(x : [p])"), "preserved region was changed: {out:?}");
}

#[test]
fn unmatched_disable_marker_preserves_to_end() {
    let out = typstfmt::format("a  b\n// format:off\n#f(x : [p])", Config::default());
    assert!(out.contains("#f(x : [p])"), "unmatched marker stopped early: {out:?}");
    assert!(out.starts_with("a b"), "text before the marker must still format: {out:?}");
}

#[test]
fn named_argument_gets_canonical_colon() {
    assert_eq!(typstfmt::format("#f(x : 1)", Config::default()), "#f(x: 1)");
}

#[test]
fn trailing_comma_dropped_on_short_call() {
    assert_eq!(typstfmt::format("#f(1,2,)", Config::default()), "#f(1, 2)");
}

#[test]
fn output_never_has_space_before_newline() {
    let out = typstfmt::format("a  \nb   \n\n\nc", Config::default());
    assert!(!out.contains(" \n"), "space before newline survived: {out:?}");
}

#[test]
fn format_is_deterministic_and_idempotent_here() {
    let cfg = Config::default();
    for s in [
        "#f(1,2,3)",
        "#(auto,)",
        "#{  }",
        "some  text   here",
        "#let x = 4",
        "// format:off\n#f(x : [p])\n// format:on\nnotp",
    ] {
        let once = typstfmt::format(s, cfg);
        let twice = typstfmt::format(&once, cfg);
        assert_eq!(once, twice, "not idempotent on {s:?}");
    }
}

#[test]
fn let_binding_is_kept() {
    assert_eq!(typstfmt::format("#let x = 4", Config::default()), "#let x = 4");
}

#[test]
fn binary_operator_gets_single_spaces() {
    assert_eq!(typstfmt::format("#{1+2}", Config::default()), "#{ 1 + 2 }");
}

#[test]
fn markup_reflow_wraps_long_lines() {
    let cfg = Config { max_line_length: 10, ..Config::default() };
    let out = typstfmt::format("aaaa bbbb cccc dddd", cfg);
    assert_eq!(out, "aaaa bbbb\ncccc dddd");
}

#[test]
fn markup_reflow_off_keeps_line_breaks() {
    let cfg = Config { wrap_text: false, ..Config::default() };
    let out = typstfmt::format("aaaa\nbbbb", cfg);
    assert_eq!(out, "aaaa\nbbbb");
}

#[test]
fn paragraph_break_is_one_blank_line() {
    let out = typstfmt::format("one\n\n\n\ntwo", Config::default());
    assert_eq!(out, "one\n\ntwo");
}

#[test]
fn tabs_indent_unit_is_used_when_breaking() {
    let cfg = Config { indent: IdentSpace::Tabs, max_line_length: 1, ..Config::default() };
    assert_eq!(typstfmt::format("#f(1,2)", cfg), "#f(\n\t1,\n\t2,\n)");
}

#[test]
fn math_alignment_pads_to_common_column() {
    let out = typstfmt::format("$ x &= 1 \\\nlong &= 2 $", Config::default());
    assert!(out.contains("x    &= 1"), "alignment padding missing: {out:?}");
    assert!(out.contains("long &= 2"), "second line changed: {out:?}");
}

#[test]
fn table_call_groups_positional_arguments_in_rows() {
    let out = typstfmt::format("#table(columns: 2, a, b, c, d)", Config::default());
    assert_eq!(out, "#table(\n  columns: 2,\n  a, b,\n  c, d,\n)");
}

#[test]
fn grid_call_infers_row_width_from_square_root() {
    let out = typstfmt::format("#grid(a, b, c, d)", Config::default());
    assert_eq!(out, "#grid(\n  a, b,\n  c, d,\n)");
}

#[test]
fn short_call_to_other_names_stays_tight() {
    assert_eq!(
        typstfmt::format("#foo(columns: 2, a, b, c, d)", Config::default()),
        "#foo(columns: 2, a, b, c, d)"
    );
}

#[test]
fn content_block_gets_single_spaces() {
    assert_eq!(typstfmt::format("#[ text ]", Config::default()), "#[ text ]");
    assert_eq!(typstfmt::format("#[  text  ]", Config::default()), "#[ text ]");
}

#[test]
fn empty_content_block_collapses() {
    assert_eq!(typstfmt::format("#[]", Config::default()), "#[]");
}

#[test]
fn inline_equation_keeps_its_shape() {
    assert_eq!(typstfmt::format("$x$", Config::default()), "$x$");
    assert_eq!(typstfmt::format("$ x $", Config::default()), "$ x $");
}

#[test]
fn conditional_chain_is_one_unit() {
    let out = typstfmt::format("#if x [a] else if y [b] else [c]", Config::default());
    assert!(out.contains("else if"), "chain was split: {out:?}");
    assert!(!out.contains("\n"), "chain left one line: {out:?}");
}

#[test]
fn table_call_reads_array_valued_columns() {
    let out = typstfmt::format("#table(columns: (a, b), q, r, s, t)", Config::default());
    assert_eq!(out, "#table(\n  columns: (a, b),\n  q, r,\n  s, t,\n)");
}

#[test]
fn table_call_with_spread_columns_falls_back_to_square_root() {
    let out = typstfmt::format("#table(columns: (..c,), q, r, s, t)", Config::default());
    assert_eq!(out, "#table(\n  columns: (..c,),\n  q, r,\n  s, t,\n)");
}
