//! The stateful output cursor.
//!
//! All writes go through a [`Context`]: the collapsing path squeezes space
//! runs to one space and line-break runs to at most two, guided by two
//! counters; the raw paths append exactly what they are given and reset the
//! counters to a "context lost" state. A buffer written only through the
//! collapsing path never holds two adjacent spaces or three adjacent line
//! breaks.

use vstd::prelude::*;

use crate::strconv::str_chars;
use crate::utils::trailing_newlines;

verus! {

/// Style parameters of a [`Context`].
#[derive(Clone, Copy, Debug, PartialEq, Eq, Structural)]
pub struct Style {
    /// The number of spaces one indent step adds.
    pub indent: usize,
}

impl Default for Style {
    /// Four spaces per indent step.
    fn default() -> (s: Style)
        ensures
            s.indent == 4,
    {
        Style { indent: 4 }
    }
}

/// `count` spaces.
pub open spec fn spaces(count: int) -> Seq<char> {
    Seq::new(count as nat, |i: int| ' ')
}

/// The buffer invariant of the collapsing path: no two adjacent spaces and
/// no three adjacent line breaks.
pub open spec fn collapsed(s: Seq<char>) -> bool {
    &&& forall|i: int| 0 <= i && i + 1 < s.len() ==> !(#[trigger] s[i] == ' ' && s[i + 1] == ' ')
    &&& forall|i: int|
        0 <= i && i + 2 < s.len() ==> !(#[trigger] s[i] == '\n' && s[i + 1] == '\n' && s[i + 2]
            == '\n')
}

/// One character through the collapsing writer: the new buffer and counters.
pub open spec fn coll_write(buf: Seq<char>, js: bool, cn: int, s: Seq<char>) -> (
    Seq<char>,
    bool,
    int,
)
    decreases s.len(),
{
    if s.len() == 0 {
        (buf, js, cn)
    } else {
        let c = s[0];
        let st = if c == ' ' {
            if js {
                (buf, js, cn)
            } else {
                (buf.push(' '), true, cn)
            }
        } else if c == '\n' {
            if cn >= 2 {
                (buf, js, cn)
            } else {
                (buf.push('\n'), true, cn + 1)
            }
        } else {
            (buf.push(c), false, 0int)
        };
        coll_write(st.0, st.1, st.2, s.skip(1))
    }
}

/// The counters describe the buffer: a cleared space flag means the buffer
/// does not end in a space, and the newline counter bounds the trailing
/// line breaks.
pub open spec fn counters_ok(buf: Seq<char>, js: bool, cn: int) -> bool {
    &&& (!js ==> (buf.len() == 0 || buf.last() != ' '))
    &&& trailing_newlines(buf) <= cn
}

proof fn lemma_trail_push(buf: Seq<char>, c: char)
    ensures
        trailing_newlines(buf.push(c)) == if c == '\n' {
            trailing_newlines(buf) + 1
        } else {
            0nat
        },
{
    assert(buf.push(c).drop_last() =~= buf);
    assert(buf.push(c).last() == c);
}

proof fn lemma_collapsed_push(buf: Seq<char>, c: char)
    requires
        collapsed(buf),
        c == ' ' ==> buf.len() == 0 || buf.last() != ' ',
        c == '\n' ==> trailing_newlines(buf) <= 1,
    ensures
        collapsed(buf.push(c)),
{
    let nb = buf.push(c);
    assert forall|i: int| 0 <= i && i + 1 < nb.len() implies !(#[trigger] nb[i] == ' ' && nb[i + 1]
        == ' ') by {
        if i + 1 == nb.len() - 1 {
            assert(nb[i] == buf[buf.len() - 1]);
        }
    }
    assert forall|i: int| 0 <= i && i + 2 < nb.len() implies !(#[trigger] nb[i] == '\n' && nb[i + 1]
        == '\n' && nb[i + 2] == '\n') by {
        if i + 2 == nb.len() - 1 {
            if nb[i] == '\n' && nb[i + 1] == '\n' && nb[i + 2] == '\n' {
                assert(buf.last() == '\n');
                assert(buf.drop_last().last() == buf[buf.len() - 2]);
                assert(trailing_newlines(buf.drop_last()) >= 1);
                assert(trailing_newlines(buf) >= 2);
            }
        }
    }
}

/// Writing through the collapsing path keeps the buffer invariant and the
/// counters truthful.
pub proof fn lemma_coll_write_invariant(buf: Seq<char>, js: bool, cn: int, s: Seq<char>)
    requires
        collapsed(buf),
        counters_ok(buf, js, cn),
        cn <= 2,
    ensures
        collapsed(coll_write(buf, js, cn, s).0),
        counters_ok(
            coll_write(buf, js, cn, s).0,
            coll_write(buf, js, cn, s).1,
            coll_write(buf, js, cn, s).2,
        ),
        coll_write(buf, js, cn, s).2 <= 2,
    decreases s.len(),
{
    if s.len() > 0 {
        let c = s[0];
        if c == ' ' {
            if js {
                lemma_coll_write_invariant(buf, js, cn, s.skip(1));
            } else {
                lemma_collapsed_push(buf, ' ');
                lemma_trail_push(buf, ' ');
                lemma_coll_write_invariant(buf.push(' '), true, cn, s.skip(1));
            }
        } else if c == '\n' {
            if cn >= 2 {
                lemma_coll_write_invariant(buf, js, cn, s.skip(1));
            } else {
                lemma_collapsed_push(buf, '\n');
                lemma_trail_push(buf, '\n');
                lemma_coll_write_invariant(buf.push('\n'), true, cn + 1, s.skip(1));
            }
        } else {
            lemma_collapsed_push(buf, c);
            lemma_trail_push(buf, c);
            lemma_coll_write_invariant(buf.push(c), false, 0, s.skip(1));
        }
    }
}

/// `s` with the indent string inserted after every line break.
pub open spec fn reindent(s: Seq<char>, ind: Seq<char>) -> Seq<char>
    decreases s.len(),
{
    if s.len() == 0 {
        Seq::empty()
    } else {
        let r = reindent(s.drop_last(), ind);
        if s.last() == '\n' {
            r.push('\n') + ind
        } else {
            r.push(s.last())
        }
    }
}

/// `s` with the given indent inserted after every line break.
pub fn reindent_text(s: &str, ind: &str) -> (r: String)
    ensures
        r@ == reindent(s@, ind@),
{
    let v = str_chars(s);
    let n = v.len();
    let mut out = String::new();
    let mut i: usize = 0;
    proof {
        assert(out@ =~= reindent(v@.subrange(0, 0), ind@));
    }
    while i < n
        invariant
            i <= n,
            n == v@.len(),
            v@ == s@,
            out@ == reindent(v@.subrange(0, i as int), ind@),
        decreases n - i,
    {
        let c = v[i];
        proof {
            assert(v@.subrange(0, i + 1).drop_last() =~= v@.subrange(0, i as int));
            assert(v@.subrange(0, i + 1).last() == v@[i as int]);
        }
        if c == '\n' {
            out.append("\n");
            out.append(ind);
            proof {
                reveal_strlit("\n");
                assert(reindent(v@.subrange(0, i as int), ind@) + "\n"@ + ind@ =~= reindent(
                    v@.subrange(0, i as int),
                    ind@,
                ).push('\n') + ind@);
            }
        } else {
            let one_v = vec![c];
            let one = crate::strconv::chars_string(&one_v);
            out.append(one.as_str());
            proof {
                assert(one_v@ =~= seq![c]);
                assert(reindent(v@.subrange(0, i as int), ind@) + seq![v@[i as int]] =~= reindent(
                    v@.subrange(0, i as int),
                    ind@,
                ).push(v@[i as int]));
            }
        }
        i = i + 1;
    }
    proof {
        assert(v@.subrange(0, n as int) =~= v@);
    }
    out
}

/// The output cursor: the buffer grown so far, the style, the current
/// indent, the two collapsing counters, and the preserve-mode flag.
#[derive(Debug)]
pub struct Context {
    /// The output text produced so far.
    pub buffer: String,
    /// The style in force.
    pub style: Style,
    /// The current indentation, in spaces.
    pub indent_level: usize,
    /// The buffer ends in a space or line break written by the collapsing
    /// path; a further collapsible space would be dropped.
    pub just_spaced: bool,
    /// How many line breaks the collapsing path believes the buffer ends
    /// with, capped at two.
    pub consec_newlines: u8,
    /// Writes are currently copying a preserved region verbatim.
    pub preserve_mode: bool,
}

impl Default for Context {
    /// An empty buffer with the default style and no indentation.
    fn default() -> (c: Context)
        ensures
            c@ == Seq::<char>::empty(),
            c.style() == (Style { indent: 4 }),
            c.indent_level() == 0,
            c.flags() == (false, 0int, false),
    {
        Context {
            buffer: String::new(),
            style: Style::default(),
            indent_level: 0,
            just_spaced: false,
            consec_newlines: 0,
            preserve_mode: false,
        }
    }
}

impl View for Context {
    type V = Seq<char>;

    /// A context is seen as the text it has produced.
    open spec fn view(&self) -> Seq<char> {
        self.buffer@
    }
}

impl Context {
    /// The style in force.
    pub open spec fn style(&self) -> Style {
        self.style
    }

    /// The collapsing counters and the preserve-mode flag.
    pub open spec fn flags(&self) -> (bool, int, bool) {
        (self.just_spaced, self.consec_newlines as int, self.preserve_mode)
    }

    /// The whole well-formedness of the cursor: counters describe the
    /// buffer, the buffer obeys the collapsing invariant.
    pub open spec fn wf(&self) -> bool {
        &&& collapsed(self.buffer@)
        &&& counters_ok(self.buffer@, self.just_spaced, self.consec_newlines as int)
        &&& self.consec_newlines <= 2
    }

    /// The same context with another style.
    pub fn with_style(self, style: Style) -> (c: Context)
        ensures
            c@ == self@,
            c.style() == style,
            c.indent_level() == self.indent_level(),
            c.flags() == self.flags(),
    {
        let mut me = self;
        me.style = style;
        me
    }

    /// The same context with another indent level.
    pub fn with_indent_level(self, indent: usize) -> (c: Context)
        ensures
            c@ == self@,
            c.style() == self.style(),
            c.indent_level() == indent,
            c.flags() == self.flags(),
    {
        let mut me = self;
        me.indent_level = indent;
        me
    }

    /// The same context with the buffer replaced; the counters are cleared,
    /// since nothing is known of the new text.
    pub fn with_buffer(self, buffer: &str) -> (c: Context)
        ensures
            c@ == buffer@,
            c.style() == self.style(),
            c.indent_level() == self.indent_level(),
            c.flags() == (false, 0int, self.flags().2),
    {
        let mut me = self;
        me.buffer = buffer.to_owned();
        me.just_spaced = false;
        me.consec_newlines = 0;
        me
    }

    /// The text produced so far.
    pub fn buffer(&self) -> (r: &str)
        ensures
            r@ == self@,
    {
        self.buffer.as_str()
    }

    /// The current indentation, in spaces.
    #[verifier::when_used_as_spec(spec_indent_level)]
    pub fn indent_level(&self) -> (r: usize)
        ensures
            r == self.spec_indent_level(),
    {
        self.indent_level
    }

    /// The current indentation, in spaces (specification view).
    pub open spec fn spec_indent_level(&self) -> usize {
        self.indent_level
    }

    /// Appends one indent step of spaces; a raw write.
    pub fn indent(&mut self)
        ensures
            final(self)@ == old(self)@ + spaces(old(self).style().indent as int),
            final(self).style() == old(self).style(),
            final(self).indent_level() == old(self).indent_level(),
            final(self).flags() == (false, 0int, old(self).flags().2),
    {
        let count = self.style.indent;
        self.push_spaces(count);
    }

    /// Appends `count` spaces; a raw write.
    fn push_spaces(&mut self, count: usize)
        ensures
            final(self)@ == old(self)@ + spaces(count as int),
            final(self).style() == old(self).style(),
            final(self).indent_level() == old(self).indent_level(),
            final(self).flags() == (false, 0int, old(self).flags().2),
    {
        let mut i: usize = 0;
        proof {
            assert(self.buffer@ + spaces(0) =~= self.buffer@);
        }
        while i < count
            invariant
                i <= count,
                self.buffer@ == old(self).buffer@ + spaces(i as int),
                self.style == old(self).style,
                self.indent_level == old(self).indent_level,
                self.just_spaced == old(self).just_spaced,
                self.consec_newlines == old(self).consec_newlines,
                self.preserve_mode == old(self).preserve_mode,
            decreases count - i,
        {
            self.buffer.append(" ");
            proof {
                reveal_strlit(" ");
                assert(old(self).buffer@ + spaces(i as int) + " "@ =~= old(self).buffer@ + spaces(
                    i + 1,
                ));
            }
            i = i + 1;
        }
        self.just_spaced = false;
        self.consec_newlines = 0;
    }

    /// Appends `s` exactly as given; a raw write, so the counters reset to
    /// the "context lost" state.
    pub fn push(&mut self, s: &str)
        ensures
            final(self)@ == old(self)@ + s@,
            final(self).style() == old(self).style(),
            final(self).indent_level() == old(self).indent_level(),
            final(self).flags() == (false, 0int, old(self).flags().2),
    {
        self.buffer.append(s);
        self.just_spaced = false;
        self.consec_newlines = 0;
    }

    /// Appends a line break followed by the current indentation.
    pub fn newline_with_indent(&mut self)
        ensures
            final(self)@ == old(self)@ + seq!['\n'] + spaces(old(self).indent_level() as int),
            final(self).style() == old(self).style(),
            final(self).indent_level() == old(self).indent_level(),
            final(self).flags() == (false, 0int, old(self).flags().2),
    {
        self.newline();
        let count = self.indent_level;
        self.push_spaces(count);
        proof {
            reveal_strlit("\n");
            assert(old(self).buffer@ + "\n"@ =~= old(self).buffer@ + seq!['\n']);
        }
    }

    /// Appends a line break; a raw write.
    pub fn newline(&mut self)
        ensures
            final(self)@ == old(self)@ + seq!['\n'],
            final(self).style() == old(self).style(),
            final(self).indent_level() == old(self).indent_level(),
            final(self).flags() == (false, 0int, old(self).flags().2),
    {
        self.push("\n");
        proof {
            reveal_strlit("\n");
            assert(old(self).buffer@ + "\n"@ =~= old(self).buffer@ + seq!['\n']);
        }
    }

    /// Appends `count` spaces, one when `None`; a raw write.
    pub fn space(&mut self, count: Option<usize>)
        ensures
            final(self)@ == old(self)@ + spaces(
                match count {
                    Option::Some(c) => c as int,
                    Option::None => 1int,
                },
            ),
            final(self).style() == old(self).style(),
            final(self).indent_level() == old(self).indent_level(),
            final(self).flags() == (false, 0int, old(self).flags().2),
    {
        match count {
            Option::Some(c) => self.push_spaces(c),
            Option::None => self.push_spaces(1),
        }
    }

    /// Replaces the indent level by what the given function makes of it.
    pub fn update_indent<F: FnOnce(usize) -> usize>(&mut self, update_fn: F)
        requires
            update_fn.requires((old(self).spec_indent_level(),)),
        ensures
            update_fn.ensures(
                (old(self).spec_indent_level(),),
                final(self).spec_indent_level(),
            ),
            final(self)@ == old(self)@,
            final(self).style() == old(self).style(),
            final(self).flags() == old(self).flags(),
    {
        self.indent_level = update_fn(self.indent_level);
    }

    /// Raises the indent level by one step, stopping at the numeric limit.
    pub fn inc_indent(&mut self)
        ensures
            final(self).indent_level() as int == if old(self).indent_level() + old(
                self,
            ).style().indent <= usize::MAX {
                old(self).indent_level() + old(self).style().indent
            } else {
                usize::MAX as int
            },
            final(self)@ == old(self)@,
            final(self).buffer == old(self).buffer,
            final(self).style() == old(self).style(),
            final(self).flags() == old(self).flags(),
            *final(self) == Context::spec_inc_indent(*old(self)),
    {
        if self.indent_level <= usize::MAX - self.style.indent {
            self.indent_level = self.indent_level + self.style.indent;
        } else {
            self.indent_level = usize::MAX;
        }
        proof {
            assert(*self =~= Context::spec_inc_indent(*old(self)));
        }
    }

    /// Lowers the indent level by one step, stopping at zero.
    pub fn dec_indent(&mut self)
        ensures
            final(self).indent_level() as int == if old(self).indent_level() >= old(
                self,
            ).style().indent {
                old(self).indent_level() - old(self).style().indent
            } else {
                0int
            },
            final(self)@ == old(self)@,
            final(self).buffer == old(self).buffer,
            final(self).style() == old(self).style(),
            final(self).flags() == old(self).flags(),
            *final(self) == Context::spec_dec_indent(*old(self)),
    {
        if self.indent_level >= self.style.indent {
            self.indent_level = self.indent_level - self.style.indent;
        } else {
            self.indent_level = 0;
        }
        proof {
            assert(*self =~= Context::spec_dec_indent(*old(self)));
        }
    }

    /// The cursor with its indent raised by one step, nothing else changed.
    pub open spec fn spec_inc_indent(c: Context) -> Context {
        Context {
            indent_level: if c.indent_level + c.style.indent <= usize::MAX {
                (c.indent_level + c.style.indent) as usize
            } else {
                usize::MAX
            },
            ..c
        }
    }

    /// The cursor with its indent lowered by one step, nothing else changed.
    pub open spec fn spec_dec_indent(c: Context) -> Context {
        Context {
            indent_level: if c.indent_level >= c.style.indent {
                (c.indent_level - c.style.indent) as usize
            } else {
                0
            },
            ..c
        }
    }

    /// Runs the given step at one more indent level, then comes back down:
    /// the result is what the step made of the raised cursor, lowered again.
    pub fn with_indent<F: FnOnce(Context) -> Context>(ctx: Context, f: F) -> (r: Context)
        requires
            forall|mid: Context| f.requires((mid,)),
        ensures
            exists|mid: Context|
                #[trigger] f.ensures((Context::spec_inc_indent(ctx),), mid) && r == Context::spec_dec_indent(mid),
    {
        let mut c = ctx;
        c.inc_indent();
        let c = f(c);
        let ghost mid = c;
        let mut c = c;
        c.dec_indent();
        proof {
            assert(f.ensures((Context::spec_inc_indent(ctx),), mid) && c == Context::spec_dec_indent(mid));
        }
        c
    }

    /// The current indentation as a string of spaces.
    pub fn indent_string(&self) -> (r: String)
        ensures
            r@ == spaces(self.indent_level() as int),
    {
        let mut s = String::new();
        let mut i: usize = 0;
        proof {
            assert(s@ =~= spaces(0));
        }
        while i < self.indent_level
            invariant
                i <= self.indent_level,
                s@ == spaces(i as int),
            decreases self.indent_level - i,
        {
            s.append(" ");
            proof {
                reveal_strlit(" ");
                assert(spaces(i as int) + " "@ =~= spaces(i + 1));
            }
            i = i + 1;
        }
        s
    }

    /// Whether writes are currently copying a preserved region.
    pub fn preserve_mode(&self) -> (r: bool)
        ensures
            r == self.flags().2,
    {
        self.preserve_mode
    }

    /// Turns preserve mode on or off.
    pub fn set_preserve_mode(&mut self, on: bool)
        ensures
            final(self)@ == old(self)@,
            final(self).style() == old(self).style(),
            final(self).indent_level() == old(self).indent_level(),
            final(self).flags() == (old(self).flags().0, old(self).flags().1, on),
    {
        self.preserve_mode = on;
    }

    /// Appends `s` with space runs collapsed to one space and line-break
    /// runs clamped to two, guided by and updating the counters. Writing
    /// only through this path keeps the buffer free of double spaces and
    /// triple line breaks.
    pub fn write_collapsing(&mut self, s: &str)
        ensures
            ({
                let r = coll_write(
                    old(self)@,
                    old(self).flags().0,
                    old(self).flags().1,
                    s@,
                );
                final(self)@ == r.0 && final(self).flags() == (r.1, r.2, old(self).flags().2)
            }),
            final(self).style() == old(self).style(),
            final(self).indent_level() == old(self).indent_level(),
            old(self).wf() ==> final(self).wf(),
    {
        proof {
            if old(self).wf() {
                lemma_coll_write_invariant(
                    old(self).buffer@,
                    old(self).just_spaced,
                    old(self).consec_newlines as int,
                    s@,
                );
            }
        }
        let v = str_chars(s);
        let n = v.len();
        let mut i: usize = 0;
        proof {
            assert(v@.skip(0) =~= v@);
        }
        while i < n
            invariant
                i <= n,
                n == v@.len(),
                v@ == s@,
                self.style == old(self).style,
                self.indent_level == old(self).indent_level,
                self.preserve_mode == old(self).preserve_mode,
                coll_write(
                    self.buffer@,
                    self.just_spaced,
                    self.consec_newlines as int,
                    v@.skip(i as int),
                ) == coll_write(
                    old(self).buffer@,
                    old(self).just_spaced,
                    old(self).consec_newlines as int,
                    s@,
                ),
            decreases n - i,
        {
            let c = v[i];
            proof {
                assert(v@.skip(i as int)[0] == v@[i as int]);
                assert(v@.skip(i as int).skip(1) =~= v@.skip(i + 1));
            }
            let ghost pre_buf = self.buffer@;
            if c == ' ' {
                if !self.just_spaced {
                    self.buffer.append(" ");
                    proof {
                        reveal_strlit(" ");
                        assert(self.buffer@ =~= pre_buf.push(' '));
                    }
                    self.just_spaced = true;
                }
            } else if c == '\n' {
                if self.consec_newlines < 2 {
                    self.buffer.append("\n");
                    proof {
                        reveal_strlit("\n");
                        assert(self.buffer@ =~= pre_buf.push('\n'));
                    }
                    self.just_spaced = true;
                    self.consec_newlines = self.consec_newlines + 1;
                }
            } else {
                let one_v = vec![c];
                let one = crate::strconv::chars_string(&one_v);
                self.buffer.append(one.as_str());
                proof {
                    assert(one_v@ =~= seq![c]);
                    assert(self.buffer@ =~= pre_buf.push(c));
                }
                self.just_spaced = false;
                self.consec_newlines = 0;
            }
            i = i + 1;
        }
        proof {
            assert(v@.skip(n as int) =~= Seq::<char>::empty());
        }
    }

    /// Appends `s` exactly as given and loses the collapsing context.
    pub fn write_raw(&mut self, s: &str)
        ensures
            final(self)@ == old(self)@ + s@,
            final(self).style() == old(self).style(),
            final(self).indent_level() == old(self).indent_level(),
            final(self).flags() == (false, 0int, old(self).flags().2),
    {
        self.push(s);
    }

    /// Appends `s` with every line after the first prefixed by the current
    /// indentation; a raw write.
    pub fn write_raw_reindented(&mut self, s: &str)
        ensures
            final(self)@ == old(self)@ + reindent(s@, spaces(old(self).indent_level() as int)),
            final(self).style() == old(self).style(),
            final(self).indent_level() == old(self).indent_level(),
            final(self).flags() == (false, 0int, old(self).flags().2),
    {
        let ind = self.indent_string();
        let v = str_chars(s);
        let n = v.len();
        let mut out = String::new();
        let mut i: usize = 0;
        proof {
            assert(out@ =~= reindent(v@.subrange(0, 0), ind@));
        }
        while i < n
            invariant
                i <= n,
                n == v@.len(),
                v@ == s@,
                ind@ == spaces(self.indent_level() as int),
                out@ == reindent(v@.subrange(0, i as int), ind@),
                self == old(self),
            decreases n - i,
        {
            let c = v[i];
            proof {
                assert(v@.subrange(0, i + 1).drop_last() =~= v@.subrange(0, i as int));
                assert(v@.subrange(0, i + 1).last() == v@[i as int]);
            }
            if c == '\n' {
                out.append("\n");
                out.append(ind.as_str());
                proof {
                    reveal_strlit("\n");
                    assert(reindent(v@.subrange(0, i as int), ind@) + "\n"@ + ind@ =~= reindent(
                        v@.subrange(0, i as int),
                        ind@,
                    ).push('\n') + ind@);
                }
            } else {
                let one_v = vec![c];
                let one = crate::strconv::chars_string(&one_v);
                out.append(one.as_str());
                proof {
                    assert(one_v@ =~= seq![c]);
                    assert(reindent(v@.subrange(0, i as int), ind@) + seq![v@[i as int]]
                        =~= reindent(v@.subrange(0, i as int), ind@).push(v@[i as int]));
                }
            }
            i = i + 1;
        }
        proof {
            assert(v@.subrange(0, n as int) =~= v@);
        }
        self.push(out.as_str());
    }
}

} // verus!
