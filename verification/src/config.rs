//! Formatting options, immutable for the duration of one `format` call.

use vstd::prelude::*;

verus! {

/// What one level of indentation is made of.
#[derive(Clone, Copy, Debug, PartialEq, Eq, Structural)]
pub enum IdentSpace {
    /// One tab character per level.
    Tabs,
    /// The given number of spaces per level.
    Spaces(usize),
}

/// The sequence of characters that `level` levels of the given indent unit
/// occupy: `level` tabs, or `level * n` spaces.
pub open spec fn indent_chars(unit: IdentSpace, level: nat) -> Seq<char> {
    match unit {
        IdentSpace::Tabs => Seq::new(level, |i: int| '\t'),
        IdentSpace::Spaces(n) => Seq::new((level * n) as nat, |i: int| ' '),
    }
}

impl IdentSpace {
    /// The indentation string for `level` nested levels.
    pub fn get(&self, level: usize) -> (r: String)
        requires
            match *self {
                IdentSpace::Tabs => level <= usize::MAX,
                IdentSpace::Spaces(n) => level * n <= usize::MAX,
            },
        ensures
            r@ == indent_chars(*self, level as nat),
    {
        let mut s = String::new();
        match *self {
            IdentSpace::Tabs => {
                let mut i: usize = 0;
                while i < level
                    invariant
                        i <= level,
                        s@ == Seq::new(i as nat, |j: int| '\t'),
                    decreases level - i,
                {
                    s.append("\t");
                    proof {
                        reveal_strlit("\t");
                        assert(s@ =~= Seq::new((i + 1) as nat, |j: int| '\t'));
                    }
                    i = i + 1;
                }
                proof {
                    assert(s@ =~= indent_chars(*self, level as nat));
                }
            },
            IdentSpace::Spaces(n) => {
                let mut i: usize = 0;
                while i < level
                    invariant
                        i <= level,
                        level * n <= usize::MAX,
                        s@ == Seq::new((i * n) as nat, |j: int| ' '),
                    decreases level - i,
                {
                    let mut k: usize = 0;
                    proof {
                        assert((i + 1) * n <= level * n) by (nonlinear_arith)
                            requires i + 1 <= level, n >= 0;
                        assert(i * n + n == (i + 1) * n) by (nonlinear_arith);
                    }
                    while k < n
                        invariant
                            k <= n,
                            i * n + n <= usize::MAX,
                            s@ == Seq::new((i * n + k) as nat, |j: int| ' '),
                        decreases n - k,
                    {
                        s.append(" ");
                        proof {
                            reveal_strlit(" ");
                            assert(s@ =~= Seq::new((i * n + k + 1) as nat, |j: int| ' '));
                        }
                        k = k + 1;
                    }
                    proof {
                        assert(s@ =~= Seq::new(((i + 1) * n) as nat, |j: int| ' '));
                    }
                    i = i + 1;
                }
                proof {
                    assert(s@ =~= indent_chars(*self, level as nat));
                }
            },
        }
        s
    }
}

/// The level `get_checked` really renders: `level` itself, unless that many
/// space units would pass the machine limit, in which case the largest
/// level that fits.
pub open spec fn checked_level(unit: IdentSpace, level: usize) -> usize {
    match unit {
        IdentSpace::Tabs => level,
        IdentSpace::Spaces(n) => if n == 0 || level <= usize::MAX as int / n as int {
            level
        } else {
            (usize::MAX as int / n as int) as usize
        },
    }
}

impl IdentSpace {
    /// The indentation string for `level` levels, shortened if the machine
    /// limit would be passed; it holds nothing but spaces and tabs.
    pub fn get_checked(&self, level: usize) -> (r: String)
        ensures
            r@ == indent_chars(*self, checked_level(*self, level) as nat),
            forall|q: int| 0 <= q < r@.len() ==> #[trigger] r@[q] == ' ' || r@[q] == '\t',
    {
        match *self {
            IdentSpace::Tabs => {
                let r = self.get(level);
                proof {
                    assert(forall|q: int|
                        0 <= q < r@.len() ==> #[trigger] r@[q] == ' ' || r@[q] == '\t');
                }
                r
            },
            IdentSpace::Spaces(n) => {
                let cap: usize = if n == 0 {
                    0
                } else {
                    usize::MAX / n
                };
                let capped: usize = if n == 0 || level <= cap {
                    level
                } else {
                    cap
                };
                proof {
                    if n == 0 {
                        assert(capped * n == 0) by (nonlinear_arith)
                            requires n == 0;
                    } else {
                        assert(capped <= usize::MAX as int / n as int);
                        assert(capped * n <= usize::MAX) by (nonlinear_arith)
                            requires n > 0, capped <= usize::MAX as int / n as int;
                    }
                }
                let r = self.get(capped);
                proof {
                    assert(forall|q: int|
                        0 <= q < r@.len() ==> #[trigger] r@[q] == ' ' || r@[q] == '\t');
                }
                r
            },
        }
    }
}

/// The options of one formatting run.
#[derive(Clone, Copy, Debug, PartialEq, Eq, Structural)]
pub struct Config {
    /// The indent unit used when a construct breaks over several lines.
    pub indent: IdentSpace,
    /// Lines longer than this make a construct choose its breaking rendering.
    pub max_line_length: usize,
    /// Reflow markup text so that lines stay under `max_line_length`.
    pub wrap_text: bool,
    /// When breaking an argument list, keep several short consecutive items
    /// on one line instead of one item per line.
    pub pack_consecutive_args: bool,
}

impl Config {
    /// Whether the options are usable: the line limit must leave room for at
    /// least one character plus a break, and an indent unit must have a
    /// bounded width.
    pub open spec fn wf(self) -> bool {
        &&& self.max_line_length > 1
        &&& match self.indent {
            IdentSpace::Tabs => true,
            IdentSpace::Spaces(n) => n <= 64,
        }
    }
}

impl Default for Config {
    /// Two spaces of indent, 80 columns, text wrapping on, no packing.
    fn default() -> (c: Config)
        ensures
            c == (Config {
                indent: IdentSpace::Spaces(2),
                max_line_length: 80,
                wrap_text: true,
                pack_consecutive_args: false,
            }),
            c.wf(),
    {
        Config {
            indent: IdentSpace::Spaces(2),
            max_line_length: 80,
            wrap_text: true,
            pack_consecutive_args: false,
        }
    }
}

} // verus!
