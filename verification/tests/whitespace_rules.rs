use typstfmt::utils::{
    collapse_space_runs, first_line_length, last_line_length, limit_blank_lines,
    max_line_length, remove_trailing_spaces,
};

#[test]
fn one_space_is_unchanged() {
    assert_eq!(collapse_space_runs("#{ }"), "#{ }");
    assert_eq!(collapse_space_runs("some\n\nsome"), "some\n\nsome");
    assert_eq!(collapse_space_runs("some \n \n some"), "some \n \n some");
}

#[test]
fn more_than_on_becomes_one() {
    assert_eq!(collapse_space_runs("#{  }"), "#{ }");
    assert_eq!(collapse_space_runs("some \n  \n some"), "some \n \n some");
    assert_eq!(collapse_space_runs("#{   }"), "#{ }");
    assert_eq!(collapse_space_runs("m  m"), "m m");
    assert_eq!(collapse_space_runs("some \n \n  some"), "some \n \n some");
    assert_eq!(collapse_space_runs("some  \n \n some"), "some \n \n some");
    assert_eq!(collapse_space_runs("some  \n  \n some"), "some \n \n some");
    assert_eq!(collapse_space_runs("some  \n  \n some  "), "some \n \n some ");
}

#[test]
fn rules_dont_insert_weird_space() {
    assert_eq!(collapse_space_runs("#{  }\n"), "#{ }\n");
}

#[test]
fn one_space_dont_insert_weird_space() {
    assert_eq!(collapse_space_runs("#{  }\n"), "#{ }\n");
}

#[test]
fn no_space_when_line_ends_dont_insert_weird_space() {
    assert_eq!(remove_trailing_spaces("#{  }  \n"), "#{  }\n");
}

#[test]
fn removes_trailing_space() {
    assert_eq!(
        remove_trailing_spaces("Some markup  \n                And then some"),
        "Some markup\n                And then some"
    );
}

#[test]
fn no_space_when_line_ends_removes_trailing_space() {
    assert_eq!(
        remove_trailing_spaces("Some markup  \n                And then some"),
        "Some markup\n                And then some"
    );
}

#[test]
fn dont_eat_too_much() {
    assert_eq!(remove_trailing_spaces("some \n \n  some"), "some\n\n  some");
}

#[test]
fn rules_dont_eat_too_much() {
    assert_eq!(remove_trailing_spaces("some \n \n  some"), "some\n\n  some");
}

#[test]
fn more_than_one_rule() {
    let collapsed = collapse_space_runs("#{  }  \n");
    assert_eq!(remove_trailing_spaces(&collapsed), "#{ }\n");
}

#[test]
fn cleanup_keeps_spaces_at_end_of_text() {
    assert_eq!(remove_trailing_spaces("some  "), "some  ");
}

#[test]
fn blank_lines_clamp_to_one() {
    assert_eq!(limit_blank_lines("a\n\n\n\nb"), "a\n\nb");
    assert_eq!(limit_blank_lines("a\n\nb"), "a\n\nb");
    assert_eq!(limit_blank_lines("a\nb"), "a\nb");
}

#[test]
fn line_lengths_count_characters() {
    assert_eq!(max_line_length("ab\ncdef\ng"), 4);
    assert_eq!(last_line_length("ab\ncdef"), 4);
    assert_eq!(last_line_length("ab\n"), 0);
    assert_eq!(first_line_length("ab\ncdef"), 2);
    assert_eq!(max_line_length(""), 0);
}
