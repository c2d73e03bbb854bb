use typstfmt::compare::parses_the_same;
use typstfmt::config::Config;

#[test]
fn preserve_inside_arguments_and_blocks() {
    let cfg = Config::default();
    for s in [
        "#f( // format:off\n1,2 ,\n// format:on\n3)",
        "#{\n// format:off\nlet x =1\n// format:on\n}",
        "a\n// format:off\nb   c\n// format:on\nd",
        "// format:off\neverything  stays\nas it is",
    ] {
        let out = typstfmt::format(s, cfg);
        assert!(parses_the_same(s, &out), "structure changed for {s:?}: {out:?}");
        let twice = typstfmt::format(&out, cfg);
        assert_eq!(out, twice, "not idempotent on {s:?}: {out:?}");
    }
    let out = typstfmt::format("a\n// format:off\nb   c\n// format:on\nd", cfg);
    assert!(out.contains("b   c"), "region was reformatted: {out:?}");
}
