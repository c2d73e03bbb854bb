use typstfmt::compare::{parses_the_same, tree_are_equal};
use typstfmt::config::Config;
use typstfmt::convert::{map_tree, source_tree};

#[test]
fn comma_gets_ignored_in_comparison() {
    assert!(parses_the_same("#f(1,2,)", "#f(1,2)"));
    assert!(parses_the_same("#f(1,{g(1,2,3,)},)", "#f(1,{g(1,2,3)})"));
}

#[test]
fn feature() {
    let s = "#[ text ]";
    let node = typst_syntax::parse(s);
    let tree = map_tree(&node, 64);
    assert_eq!(tree.text(), s);
}

#[test]
fn test_preserve_pass() {
    let snippets = [
        "notp // typstfmt::off\n#f(x : [p]) \n// typstfmt::on\nnotp ",
        "#f([notp], // typstfmt::off\n)\n// typstfmt::off\n// typstfmt::on\np\n// typstfmt::on\nnotp",
        "\n// typstfmt::off\n#[\n// typstfmt::off\n#[\n// typstfmt::off\n#[\n// typstfmt::off\ntext\n]\n]\n]\n// typstfmt::on\n// typstfmt::on\n// typstfmt::on\ntext\n// typstfmt::on\ntext\n",
    ];
    for snippet in snippets {
        let out = typstfmt::format(snippet, Config::default());
        assert!(
            parses_the_same(snippet, &out),
            "structure changed for {snippet:?}: {out:?}"
        );
    }
    // the marked call keeps its spacing; the text outside is formatted
    let out = typstfmt::format(snippets[0], Config::default());
    assert!(out.contains("#f(x : [p])"), "preserved region was changed: {out:?}");
}

#[test]
fn trees_compare_up_to_separators_and_whitespace() {
    let a = source_tree("#f(1,  2)");
    let b = source_tree("#f(1, 2,)");
    let c = source_tree("#g(1, 2)");
    assert!(tree_are_equal(&a, &b));
    assert!(!tree_are_equal(&a, &c));
}

#[test]
fn formatting_preserves_structure() {
    for s in [
        "#f(1,2,3)",
        "#f(1,this_is_absurdly_long,3)",
        "#(auto,)",
        "#{  }",
        "#let x = 4",
        "#{1+2}",
        "some  text\n\nmore text",
        "#f(x : [p])",
    ] {
        let out = typstfmt::format(s, Config::default());
        assert!(parses_the_same(s, &out), "structure changed for {s:?}: {out:?}");
    }
}

#[test]
fn error_tokens_pass_through() {
    let s = "#f(";
    let out = typstfmt::format(s, Config::default());
    assert!(parses_the_same(s, &out), "malformed input was corrupted: {out:?}");
}

#[test]
fn config_default_values() {
    let c = Config::default();
    assert_eq!(c.max_line_length, 80);
    assert!(c.wrap_text);
    assert!(!c.pack_consecutive_args);
    assert_eq!(typstfmt::config::IdentSpace::Spaces(2).get(3), "      ");
    assert_eq!(typstfmt::config::IdentSpace::Tabs.get(2), "\t\t");
}

#[test]
fn more_constructs_keep_their_structure() {
    for s in [
        "= A heading",
        "#if x [a] else if y [b] else [c]",
        "$ x + y $",
        "#for v in list [#v]",
        "- one\n- two",
        "#table(columns: 2, a, b, c, d)",
        "*bold* _emph_",
    ] {
        let out = typstfmt::format(s, typstfmt::config::Config::default());
        assert!(parses_the_same(s, &out), "structure changed for {s:?}: {out:?}");
    }
}

#[test]
fn battery_of_constructs_keeps_structure() {
    for s in [
        "#set text(a: 1)\nhello",
        "+ one\n+ two",
        "/ term: description",
        "= Heading\nbody text",
        "#{ let x = 1\nlet y = 2 }",
        "#(1, 2, 3)",
        "#(a: 1, b: 2)",
        "#x.y(z)",
        "a b\nc\n\nd",
        "$ a^2 + b $",
        "#f[trailing]",
        "#\"a string\"",
        "#while x [b]",
        "#let f(u, v) = u + v",
        "not bold *bold*",
        "#v(1fr)",
        "#show: it => it",
    ] {
        let out = typstfmt::format(s, typstfmt::config::Config::default());
        assert!(parses_the_same(s, &out), "structure changed for {s:?}: {out:?}");
    }
}

#[test]
fn raw_block_is_preserved_verbatim() {
    let s = "```\ncode   kept\n```";
    let out = typstfmt::format(s, typstfmt::config::Config::default());
    assert!(out.contains("code   kept"), "raw block was changed: {out:?}");
}

fn battery() -> Vec<&'static str> {
    vec![
        "#let x = [a\nb]",
        "#align(center)[text]",
        "#if true {1} else {2}",
        "#for i in (1, 2) { x }",
        "q #quote[a] q",
        "_em_ and *st*",
        "`inline raw`",
        "$ (a+b)/c $",
        "#f(g(h(1)))",
        "#let x = if true {1} else {2}",
        "= T <lab>",
        "#[a // c\nb]",
        "#{\n// only a comment\n}",
        "#f()[a][b]",
        "one\n\ntwo\n\nthree",
        "#heading(level: 2)[x]",
    ]
}

#[test]
fn second_battery_keeps_structure() {
    for s in battery() {
        let out = typstfmt::format(s, typstfmt::config::Config::default());
        assert!(parses_the_same(s, &out), "structure changed for {s:?}: {out:?}");
    }
}

#[test]
fn second_battery_is_idempotent() {
    let cfg = typstfmt::config::Config::default();
    for s in battery() {
        let once = typstfmt::format(s, cfg);
        let twice = typstfmt::format(&once, cfg);
        assert_eq!(once, twice, "not idempotent on {s:?}");
    }
}

#[test]
fn third_battery_keeps_structure_and_idempotence() {
    let cfg = typstfmt::config::Config::default();
    for s in [
        "#show heading: it => it",
        "see @ref here <label>",
        "#let x = (1,)",
        "h\u{e9}llo w\u{f6}rld  spaced",
        "#f(..args)",
        "/ a: b\n/ c: d",
        "#table(columns: (1fr, 1fr), a, b, c, d)",
        "#{ if x { 1 } }",
        "#box(width: 2cm)[in a box]",
    ] {
        let out = typstfmt::format(s, cfg);
        assert!(parses_the_same(s, &out), "structure changed for {s:?}: {out:?}");
        let twice = typstfmt::format(&out, cfg);
        assert_eq!(out, twice, "not idempotent on {s:?}");
    }
}
