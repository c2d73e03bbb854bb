use typstfmt::config::Config;
use typstfmt::writer::{get_matching_pairs, MarkKind, Writer};

#[test]
fn test_indent() {
    let snippet = "\n#[\ntext #[\ntext\n]\n]".to_string();
    let expected = "\n#[\n  text #[\n    text\n  ]\n]";

    let mi1 = "\n#[".len();
    let mi2 = "\n#[\ntext #[".len();
    let md2 = "\n#[\ntext #[\ntext\n".len();
    let md1 = "\n#[\ntext #[\ntext\n]\n".len();

    let mut w = Writer::new(Config::default(), snippet);
    w.marks = vec![
        MarkKind::Indent.to_mark(mi1),
        MarkKind::Indent.to_mark(mi2),
        MarkKind::Dedent.to_mark(md2),
        MarkKind::Dedent.to_mark(md1),
    ];
    w.post_process_indents();
    assert!(w.buffer == expected);
}

#[test]
fn test_preserve() {
    let snippet = "\n#[\ntext #[\ntext\n]\n]".to_string();
    let expected = "\n#[\n  text #[\ntext\n  ]\n]";

    let mi1 = "\n#[".len();
    let mi2 = "\n#[\ntext #[".len();
    let md2 = "\n#[\ntext #[\ntext\n".len();
    let md1 = "\n#[\ntext #[\ntext\n]\n".len();
    let preserve = "\n#[\ntext #[\n".len();
    let stop_preserve = "\n#[\ntext #[\ntext\n".len();

    let mut w = Writer::new(Config::default(), snippet);
    w.marks = vec![
        MarkKind::Indent.to_mark(mi1),
        MarkKind::Indent.to_mark(mi2),
        MarkKind::Dedent.to_mark(md2),
        MarkKind::Dedent.to_mark(md1),
        MarkKind::Preserve.to_mark(preserve),
        MarkKind::StopPreserve.to_mark(stop_preserve),
    ];
    w.post_process_indents();
    assert!(w.buffer == expected);
}

#[test]
fn test_get_pairs() {
    let mi1 = "\n#[".len();
    let mi2 = "\n#[\ntext #[".len();
    let md2 = "\n#[\ntext #[\ntext\n".len();
    let md1 = "\n#[\ntext #[\ntext\n]\n".len();
    let preserve = "\n#[\ntext #[\n".len();
    let stop_preserve = "\n#[\ntext #[\ntext".len();

    let mut w = Writer::new(Config::default(), String::new());

    w.marks = vec![
        MarkKind::Indent.to_mark(mi1),
        MarkKind::Indent.to_mark(mi2),
        MarkKind::Dedent.to_mark(md2),
        MarkKind::Dedent.to_mark(md1),
        MarkKind::Preserve.to_mark(preserve),
        MarkKind::StopPreserve.to_mark(stop_preserve),
    ];

    let res = get_matching_pairs(&w.marks, MarkKind::Indent, MarkKind::Dedent);
    assert!(
        res == vec![
            (MarkKind::Indent.to_mark(mi1), MarkKind::Dedent.to_mark(md1)),
            (MarkKind::Indent.to_mark(mi2), MarkKind::Dedent.to_mark(md2)),
        ]
    );
    let res = get_matching_pairs(&w.marks, MarkKind::Preserve, MarkKind::StopPreserve);
    assert!(
        res == vec![
            (MarkKind::Preserve.to_mark(preserve), MarkKind::StopPreserve.to_mark(stop_preserve)),
        ]
    );
}

#[test]
fn rewind_drops_text_and_later_marks() {
    let mut w = Writer::new(Config::default(), String::new());
    w.push_str("hello");
    let m = w.get_mark();
    w.push_str(" world");
    w.mark_indent();
    w.rewind(m);
    assert_eq!(w.buffer, "hello");
    assert!(w.marks.is_empty());
}

#[test]
fn wrap_preserve_brackets_a_region() {
    let mut w = Writer::new(Config::default(), String::new());
    w.push_str("head ");
    let m = w.get_mark();
    w.push_str("kept");
    w.wrap_preserve(m);
    assert_eq!(w.marks.len(), 2);
    assert_eq!(w.marks[0], MarkKind::Preserve.to_mark(5));
    assert_eq!(w.marks[1], MarkKind::StopPreserve.to_mark(9));
}

#[test]
fn push_str_with_limit_breaks_at_the_limit() {
    let mut cfg = Config::default();
    cfg.max_line_length = 5;
    let mut w = Writer::new(cfg, String::new());
    w.push_str("abcd");
    w.push_str_with_limit("ef");
    assert_eq!(w.buffer, "abcd\nef");
    let mut w2 = Writer::new(cfg, String::new());
    w2.push_str("ab");
    w2.push_str_with_limit("c");
    assert_eq!(w2.buffer, "abc");
}

#[test]
fn get_matching_pairs_ignores_unclosed_opening() {
    let marks = vec![MarkKind::Indent.to_mark(0), MarkKind::Indent.to_mark(2), MarkKind::Dedent.to_mark(4)];
    let res = get_matching_pairs(&marks, MarkKind::Indent, MarkKind::Dedent);
    assert!(res == vec![(MarkKind::Indent.to_mark(2), MarkKind::Dedent.to_mark(4))]);
}
