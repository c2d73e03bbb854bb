//! The mark-based writer.
//!
//! Rendering writes text and drops marks into the stream: indent/dedent
//! marks bracket regions whose lines get one more indent step, and
//! preserve/stop-preserve marks bracket lines that must stay exactly as
//! written. A post-processing pass matches the marks and prefixes each
//! line with its indentation.

use vstd::prelude::*;

use crate::config::{checked_level, indent_chars, Config, IdentSpace};
use crate::strconv::{chars_string, str_chars};
use crate::utils::last_line_len;

verus! {

/// What a mark asks of the post-processing pass.
#[derive(Clone, Copy, Debug, PartialEq, Eq, Structural)]
pub enum MarkKind {
    /// Lines after this point get one more indent step.
    Indent,
    /// Closes the region of the matching `Indent`.
    Dedent,
    /// Lines from here on are kept exactly as written.
    Preserve,
    /// Closes the region of the matching `Preserve`.
    StopPreserve,
}

/// A mark dropped at a character position of the output.
#[derive(Clone, Copy, Debug, PartialEq, Eq, Structural)]
pub struct Mark {
    /// What the mark asks for.
    pub kind: MarkKind,
    /// The character position it was dropped at.
    pub pos: usize,
}

impl MarkKind {
    /// This kind of mark at the given position.
    pub fn to_mark(self, pos: usize) -> (m: Mark)
        ensures
            m == (Mark { kind: self, pos }),
    {
        Mark { kind: self, pos }
    }
}

/// The index of the closing mark that matches an opening one, scanning from
/// `j` with `c` still-unclosed inner openings; -1 when none closes it.
pub open spec fn find_close(ms: Seq<Mark>, open: MarkKind, close: MarkKind, j: int, c: int) -> int
    decreases ms.len() - j,
{
    if j >= ms.len() || j < 0 {
        -1
    } else if ms[j].kind == open {
        find_close(ms, open, close, j + 1, c + 1)
    } else if ms[j].kind == close {
        if c == 0 {
            j
        } else {
            find_close(ms, open, close, j + 1, c - 1)
        }
    } else {
        find_close(ms, open, close, j + 1, c)
    }
}

/// The matched pairs among the first `k` marks: each opening mark of kind
/// `open`, with the closing mark of kind `close` that balances it.
pub open spec fn pairs_upto(ms: Seq<Mark>, open: MarkKind, close: MarkKind, k: int) -> Seq<
    (Mark, Mark),
>
    decreases k,
{
    if k <= 0 {
        Seq::empty()
    } else {
        let r = pairs_upto(ms, open, close, k - 1);
        if ms[k - 1].kind == open {
            let j = find_close(ms, open, close, k, 0);
            if j >= 0 {
                r.push((ms[k - 1], ms[j]))
            } else {
                r
            }
        } else {
            r
        }
    }
}

/// All matched (opening, closing) pairs of the given kinds, in the order
/// the opening marks appear. An opening mark with no balancing closing mark
/// yields no pair.
pub fn get_matching_pairs(marks: &Vec<Mark>, opening_kind: MarkKind, closing_kind: MarkKind) -> (r:
    Vec<(Mark, Mark)>)
    ensures
        r@ == pairs_upto(marks@, opening_kind, closing_kind, marks@.len() as int),
{
    let n = marks.len();
    let mut res: Vec<(Mark, Mark)> = Vec::new();
    let mut i: usize = 0;
    while i < n
        invariant
            i <= n,
            n == marks@.len(),
            res@ == pairs_upto(marks@, opening_kind, closing_kind, i as int),
        decreases n - i,
    {
        if marks[i].kind == opening_kind {
            let mut j: usize = i + 1;
            let mut c: u64 = 0;
            let mut found: bool = false;
            while j < n && !found
                invariant
                    i + 1 <= j <= n,
                    n == marks@.len(),
                    c <= j,
                    !found ==> find_close(marks@, opening_kind, closing_kind, j as int, c as int)
                        == find_close(marks@, opening_kind, closing_kind, i + 1, 0),
                    found ==> j < n && marks@[j as int].kind == closing_kind && j as int
                        == find_close(marks@, opening_kind, closing_kind, i + 1, 0),
                decreases n - j, 1int - (if found { 1int } else { 0int }),
            {
                if marks[j].kind == opening_kind {
                    c = c + 1;
                    j = j + 1;
                } else if marks[j].kind == closing_kind {
                    if c == 0 {
                        found = true;
                    } else {
                        c = c - 1;
                        j = j + 1;
                    }
                } else {
                    j = j + 1;
                }
            }
            if found {
                res.push((marks[i], marks[j]));
            } else {
                proof {
                    assert(find_close(marks@, opening_kind, closing_kind, n as int, c as int)
                        == -1);
                }
            }
        }
        i = i + 1;
    }
    res
}

/// The number of line breaks in `s`.
pub open spec fn count_nl(s: Seq<char>) -> nat
    decreases s.len(),
{
    if s.len() == 0 {
        0
    } else if s.last() == '\n' {
        count_nl(s.drop_last()) + 1
    } else {
        count_nl(s.drop_last())
    }
}

/// The line (counted from zero) that character position `pos` lies on;
/// positions past the end count as the last line.
pub open spec fn line_of(s: Seq<char>, pos: int) -> int {
    if pos <= s.len() {
        count_nl(s.subrange(0, if pos < 0 { 0int } else { pos })) as int
    } else {
        count_nl(s) as int
    }
}

/// The first `j` characters of `out` are the first `i` characters of
/// `orig` with runs of spaces or tabs inserted at line starts, ending at a
/// line start exactly when `at_start`; insertions happen only at the very
/// beginning or right after a line break.
pub open spec fn indent_only_rel(
    orig: Seq<char>,
    out: Seq<char>,
    i: int,
    j: int,
    at_start: bool,
) -> bool
    decreases j,
{
    if j <= 0 {
        i == 0 && j == 0 && at_start
    } else {
        let c = out[j - 1];
        ||| (at_start && (c == ' ' || c == '\t') && indent_only_rel(orig, out, i, j - 1, true))
        ||| (at_start == (c == '\n') && i > 0 && c == orig[i - 1] && (indent_only_rel(
            orig,
            out,
            i - 1,
            j - 1,
            true,
        ) || indent_only_rel(orig, out, i - 1, j - 1, false)))
    }
}

proof fn lemma_indent_rel_ext(orig: Seq<char>, out1: Seq<char>, out2: Seq<char>, j: int)
    requires
        j <= out1.len(),
        j <= out2.len(),
        forall|q: int| 0 <= q < j ==> out1[q] == out2[q],
    ensures
        forall|ii: int, sst: bool|
            indent_only_rel(orig, out1, ii, j, sst) == #[trigger] indent_only_rel(
                orig,
                out2,
                ii,
                j,
                sst,
            ),
    decreases j,
{
    if j > 0 {
        lemma_indent_rel_ext(orig, out1, out2, j - 1);
        assert forall|ii: int, sst: bool|
            indent_only_rel(orig, out1, ii, j, sst) == #[trigger] indent_only_rel(
                orig,
                out2,
                ii,
                j,
                sst,
            ) by {
            assert(out1[j - 1] == out2[j - 1]);
            assert(indent_only_rel(orig, out1, ii, j - 1, true) == indent_only_rel(
                orig,
                out2,
                ii,
                j - 1,
                true,
            ));
            assert(indent_only_rel(orig, out1, ii - 1, j - 1, true) == indent_only_rel(
                orig,
                out2,
                ii - 1,
                j - 1,
                true,
            ));
            assert(indent_only_rel(orig, out1, ii - 1, j - 1, false) == indent_only_rel(
                orig,
                out2,
                ii - 1,
                j - 1,
                false,
            ));
        }
    }
}

/// `out` is `orig` with runs of spaces or tabs inserted at line starts and
/// nothing else changed.
pub open spec fn only_indent_inserted(orig: Seq<char>, out: Seq<char>) -> bool {
    ||| indent_only_rel(orig, out, orig.len() as int, out.len() as int, true)
    ||| indent_only_rel(orig, out, orig.len() as int, out.len() as int, false)
}

proof fn lemma_count_nl_le(s: Seq<char>)
    ensures
        count_nl(s) <= s.len(),
    decreases s.len(),
{
    if s.len() > 0 {
        lemma_count_nl_le(s.drop_last());
    }
}

proof fn lemma_count_nl_mono(s: Seq<char>, i: int)
    requires
        0 <= i <= s.len(),
    ensures
        count_nl(s.subrange(0, i)) <= count_nl(s),
    decreases s.len(),
{
    if i == s.len() {
        assert(s.subrange(0, i) =~= s);
    } else {
        assert(s.drop_last().subrange(0, i) =~= s.subrange(0, i));
        lemma_count_nl_mono(s.drop_last(), i);
    }
}

/// An indent pair covers line `k`: strictly after the opening mark's line,
/// up to and excluding the closing mark's line.
pub open spec fn pair_covers(s: Seq<char>, p: (Mark, Mark), k: int) -> bool {
    line_of(s, p.0.pos as int) + 1 <= k < line_of(s, p.1.pos as int)
}

/// A preserve pair holds line `k`: from the opening mark's line up to and
/// excluding the closing mark's line.
pub open spec fn pair_preserves(s: Seq<char>, p: (Mark, Mark), k: int) -> bool {
    line_of(s, p.0.pos as int) <= k < line_of(s, p.1.pos as int)
}

/// How many of the first `m` indent pairs cover line `k`.
pub open spec fn level_upto(s: Seq<char>, ps: Seq<(Mark, Mark)>, m: int, k: int) -> nat
    decreases m,
{
    if m <= 0 {
        0
    } else {
        level_upto(s, ps, m - 1, k) + if pair_covers(s, ps[m - 1], k) {
            1nat
        } else {
            0nat
        }
    }
}

/// The indent level of line `k`: how many matched indent pairs cover it.
pub open spec fn line_level(s: Seq<char>, ps: Seq<(Mark, Mark)>, k: int) -> nat {
    level_upto(s, ps, ps.len() as int, k)
}

/// Whether one of the first `m` preserve pairs holds line `k`.
pub open spec fn pres_upto(s: Seq<char>, ps: Seq<(Mark, Mark)>, m: int, k: int) -> bool
    decreases m,
{
    if m <= 0 {
        false
    } else {
        pres_upto(s, ps, m - 1, k) || pair_preserves(s, ps[m - 1], k)
    }
}

/// Whether a matched preserve pair holds line `k`.
pub open spec fn line_preserved(s: Seq<char>, ps: Seq<(Mark, Mark)>, k: int) -> bool {
    pres_upto(s, ps, ps.len() as int, k)
}

/// The prefix line `k` receives: its level's indentation, or nothing when
/// no pair covers it or a preserve pair holds it.
pub open spec fn line_prefix(
    s: Seq<char>,
    ind_ps: Seq<(Mark, Mark)>,
    pres_ps: Seq<(Mark, Mark)>,
    unit: IdentSpace,
    k: int,
) -> Seq<char> {
    let lvl = line_level(s, ind_ps, k);
    if lvl > 0 && !line_preserved(s, pres_ps, k) {
        indent_chars(unit, checked_level(unit, lvl as usize) as nat)
    } else {
        Seq::empty()
    }
}

/// The indented buffer from position `i` on: each character copied, with
/// its line's prefix inserted wherever a line starts.
pub open spec fn emit_from(
    v: Seq<char>,
    i: int,
    k: int,
    at_start: bool,
    ind_ps: Seq<(Mark, Mark)>,
    pres_ps: Seq<(Mark, Mark)>,
    unit: IdentSpace,
) -> Seq<char>
    decreases v.len() - i,
{
    if i < 0 || i >= v.len() {
        Seq::empty()
    } else {
        (if at_start {
            line_prefix(v, ind_ps, pres_ps, unit, k)
        } else {
            Seq::empty()
        }) + seq![v[i]] + emit_from(
            v,
            i + 1,
            if v[i] == '\n' {
                k + 1
            } else {
                k
            },
            v[i] == '\n',
            ind_ps,
            pres_ps,
            unit,
        )
    }
}

/// The whole buffer with every line's indent prefix inserted.
pub open spec fn indented_buffer(
    v: Seq<char>,
    ind_ps: Seq<(Mark, Mark)>,
    pres_ps: Seq<(Mark, Mark)>,
    unit: IdentSpace,
) -> Seq<char> {
    emit_from(v, 0, 0, true, ind_ps, pres_ps, unit)
}

/// The writer: the output grown so far, the options, and the marks dropped
/// into it.
#[derive(Debug)]
pub struct Writer {
    /// The options of this run.
    pub config: Config,
    /// The output text produced so far.
    pub buffer: String,
    /// The marks dropped so far, in the order they were dropped.
    pub marks: Vec<Mark>,
}

impl Writer {
    /// A writer over the given initial buffer, with no marks.
    pub fn new(config: Config, buffer: String) -> (w: Writer)
        ensures
            w.config == config,
            w.buffer == buffer,
            w.marks@.len() == 0,
    {
        Writer { config, buffer, marks: Vec::new() }
    }

    /// The current position: the number of characters written so far.
    pub fn get_mark(&self) -> (r: usize)
        ensures
            r == self.buffer@.len(),
    {
        self.buffer.as_str().unicode_len()
    }

    /// Drops the text written after `mark` and every mark dropped at or
    /// past it: a mark sitting exactly on the rewind point was introduced
    /// after the position was taken, so it goes too.
    pub fn rewind(&mut self, mark: usize)
        ensures
            final(self).buffer@ == old(self).buffer@.subrange(
                0,
                if mark <= old(self).buffer@.len() {
                    mark as int
                } else {
                    old(self).buffer@.len() as int
                },
            ),
            final(self).marks@ == old(self).marks@.filter(|m: Mark| m.pos < mark),
            final(self).config == old(self).config,
    {
        let len = self.buffer.as_str().unicode_len();
        let keep = if mark <= len {
            mark
        } else {
            len
        };
        let cut = self.buffer.as_str().substring_char(0, keep).to_owned();
        self.buffer = cut;
        let mut kept: Vec<Mark> = Vec::new();
        let n = self.marks.len();
        let mut i: usize = 0;
        proof {
            assert(old(self).marks@.subrange(0, 0).filter(|m: Mark| m.pos < mark)
                =~= Seq::<Mark>::empty());
        }
        while i < n
            invariant
                i <= n,
                n == self.marks@.len(),
                self.marks == old(self).marks,
                kept@ == old(self).marks@.subrange(0, i as int).filter(|m: Mark| m.pos < mark),
            decreases n - i,
        {
            let m = self.marks[i];
            proof {
                let pre = old(self).marks@.subrange(0, i as int);
                let cur = old(self).marks@.subrange(0, i + 1);
                assert(cur.drop_last() =~= pre);
                assert(cur.last() == old(self).marks@[i as int]);
                reveal(Seq::filter);
            }
            if m.pos < mark {
                kept.push(m);
            }
            i = i + 1;
        }
        proof {
            assert(old(self).marks@.subrange(0, n as int) =~= old(self).marks@);
        }
        self.marks = kept;
    }

    /// Drops an indent mark at the current position.
    pub fn mark_indent(&mut self)
        ensures
            final(self).marks@ == old(self).marks@.push(
                Mark { kind: MarkKind::Indent, pos: old(self).buffer@.len() as usize },
            ),
            final(self).buffer == old(self).buffer,
            final(self).config == old(self).config,
    {
        let pos = self.get_mark();
        self.marks.push(MarkKind::Indent.to_mark(pos));
    }

    /// Drops a dedent mark at the current position.
    pub fn mark_dedent(&mut self)
        ensures
            final(self).marks@ == old(self).marks@.push(
                Mark { kind: MarkKind::Dedent, pos: old(self).buffer@.len() as usize },
            ),
            final(self).buffer == old(self).buffer,
            final(self).config == old(self).config,
    {
        let pos = self.get_mark();
        self.marks.push(MarkKind::Dedent.to_mark(pos));
    }

    /// Drops a preserve mark at the current position.
    pub fn mark_preserve(&mut self)
        ensures
            final(self).marks@ == old(self).marks@.push(
                Mark { kind: MarkKind::Preserve, pos: old(self).buffer@.len() as usize },
            ),
            final(self).buffer == old(self).buffer,
            final(self).config == old(self).config,
    {
        let pos = self.get_mark();
        self.marks.push(MarkKind::Preserve.to_mark(pos));
    }

    /// Drops a stop-preserve mark at the current position.
    pub fn mark_stop_preserve(&mut self)
        ensures
            final(self).marks@ == old(self).marks@.push(
                Mark { kind: MarkKind::StopPreserve, pos: old(self).buffer@.len() as usize },
            ),
            final(self).buffer == old(self).buffer,
            final(self).config == old(self).config,
    {
        let pos = self.get_mark();
        self.marks.push(MarkKind::StopPreserve.to_mark(pos));
    }

    /// Brackets everything written since `mark` in preserve marks, so the
    /// post-processing pass leaves those lines untouched.
    pub fn wrap_preserve(&mut self, mark: usize)
        ensures
            final(self).marks@ == old(self).marks@.push(
                Mark { kind: MarkKind::Preserve, pos: mark },
            ).push(Mark { kind: MarkKind::StopPreserve, pos: old(self).buffer@.len() as usize }),
            final(self).buffer == old(self).buffer,
            final(self).config == old(self).config,
    {
        let pos = self.get_mark();
        self.marks.push(MarkKind::Preserve.to_mark(mark));
        self.marks.push(MarkKind::StopPreserve.to_mark(pos));
    }

    /// Appends `s` exactly as given.
    pub fn push_str(&mut self, s: &str)
        ensures
            final(self).buffer@ == old(self).buffer@ + s@,
            final(self).marks == old(self).marks,
            final(self).config == old(self).config,
    {
        self.buffer.append(s);
    }

    /// Appends `s`, breaking the line first when the current line would
    /// reach the configured limit; an empty `s` does nothing.
    pub fn push_str_with_limit(&mut self, s: &str)
        ensures
            final(self).buffer@ == old(self).buffer@ + (if s@.len() == 0 {
                Seq::<char>::empty()
            } else if last_line_len(old(self).buffer@) + s@.len()
                >= old(self).config.max_line_length {
                seq!['\n'] + s@
            } else {
                s@
            }),
            final(self).marks == old(self).marks,
            final(self).config == old(self).config,
    {
        let slen = s.unicode_len();
        if slen == 0 {
            return ;
        }
        let line = crate::utils::last_line_length(self.buffer.as_str());
        proof {
            crate::utils::lemma_last_line_le(self.buffer@);
        }
        let needs_break: bool = if slen >= self.config.max_line_length {
            true
        } else {
            line >= self.config.max_line_length - slen
        };
        if needs_break {
            self.new_line();
            self.buffer.append(s);
            proof {
                reveal_strlit("\n");
                assert(old(self).buffer@ + "\n"@ + s@ =~= old(self).buffer@ + (seq!['\n'] + s@));
            }
        } else {
            self.buffer.append(s);
        }
    }

    /// Appends a line break.
    pub fn new_line(&mut self)
        ensures
            final(self).buffer@ == old(self).buffer@ + seq!['\n'],
            final(self).marks == old(self).marks,
            final(self).config == old(self).config,
    {
        self.buffer.append("\n");
        proof {
            reveal_strlit("\n");
            assert(old(self).buffer@ + "\n"@ =~= old(self).buffer@ + seq!['\n']);
        }
    }

    /// Appends a space.
    pub fn space(&mut self)
        ensures
            final(self).buffer@ == old(self).buffer@ + seq![' '],
            final(self).marks == old(self).marks,
            final(self).config == old(self).config,
    {
        self.buffer.append(" ");
        proof {
            reveal_strlit(" ");
            assert(old(self).buffer@ + " "@ =~= old(self).buffer@ + seq![' ']);
        }
    }

    /// The length of the last line written, counted in characters (Unicode
    /// code points, untrimmed); the measure every breaking decision of this
    /// library uses.
    pub fn last_line_length(&self) -> (r: usize)
        ensures
            r == last_line_len(self.buffer@),
    {
        crate::utils::last_line_length(self.buffer.as_str())
    }

    /// Matches the indent/dedent and preserve/stop-preserve marks and
    /// prefixes every line inside an indent region (the opening mark's own
    /// line excepted) with one indent step per region around it; lines
    /// inside a preserve region are left exactly as written. The result is
    /// exactly the buffer with each line's prefix inserted; nothing but
    /// indentation is inserted, and every line break survives. The marks
    /// are consumed by the pass.
    pub fn post_process_indents(&mut self)
        requires
            old(self).buffer@.len() < usize::MAX,
        ensures
            final(self).config == old(self).config,
            final(self).marks@.len() == 0,
            final(self).buffer@ == indented_buffer(
                old(self).buffer@,
                pairs_upto(
                    old(self).marks@,
                    MarkKind::Indent,
                    MarkKind::Dedent,
                    old(self).marks@.len() as int,
                ),
                pairs_upto(
                    old(self).marks@,
                    MarkKind::Preserve,
                    MarkKind::StopPreserve,
                    old(self).marks@.len() as int,
                ),
                old(self).config.indent,
            ),
            count_nl(final(self).buffer@) == count_nl(old(self).buffer@),
            only_indent_inserted(old(self).buffer@, final(self).buffer@),
    {
        let ind_pairs = get_matching_pairs(&self.marks, MarkKind::Indent, MarkKind::Dedent);
        let pres_pairs = get_matching_pairs(
            &self.marks,
            MarkKind::Preserve,
            MarkKind::StopPreserve,
        );
        let ghost gip = ind_pairs@;
        let ghost gpp = pres_pairs@;
        let v = str_chars(self.buffer.as_str());
        let n = v.len();
        let ghost unit = self.config.indent;

        // the line each character position lies on
        let mut line_no: Vec<usize> = Vec::new();
        let mut cur: usize = 0;
        let mut i: usize = 0;
        proof {
            assert(v@.subrange(0, 0) =~= Seq::<char>::empty());
        }
        while i < n
            invariant
                i <= n,
                n == v@.len(),
                n < usize::MAX,
                line_no@.len() == i,
                cur as int == count_nl(v@.subrange(0, i as int)),
                cur <= i,
                forall|p: int| 0 <= p < i ==> #[trigger] line_no@[p] as int == count_nl(
                    v@.subrange(0, p),
                ),
            decreases n - i,
        {
            line_no.push(cur);
            proof {
                assert(v@.subrange(0, i + 1).drop_last() =~= v@.subrange(0, i as int));
                assert(v@.subrange(0, i + 1).last() == v@[i as int]);
            }
            if v[i] == '\n' {
                cur = cur + 1;
            }
            i = i + 1;
        }
        proof {
            assert(v@.subrange(0, n as int) =~= v@);
        }
        let last_line = cur;

        // indent level of each line, and whether a preserve pair holds it
        let mut levels: Vec<usize> = Vec::new();
        let mut preserved: Vec<bool> = Vec::new();
        let num_lines: usize = last_line + 1;
        let mut k: usize = 0;
        while k < num_lines
            invariant
                k <= num_lines,
                n == v@.len(),
                n < usize::MAX,
                line_no@.len() == n,
                last_line as int == count_nl(v@),
                num_lines == last_line + 1,
                forall|p: int| 0 <= p < n ==> #[trigger] line_no@[p] as int == count_nl(
                    v@.subrange(0, p),
                ),
                gip == ind_pairs@,
                gpp == pres_pairs@,
                levels@.len() == k,
                preserved@.len() == k,
                forall|m: int| 0 <= m < k ==> #[trigger] levels@[m] as int == line_level(v@, gip, m),
                forall|m: int| 0 <= m < k ==> #[trigger] preserved@[m] == line_preserved(
                    v@,
                    gpp,
                    m,
                ),
            decreases num_lines - k,
        {
            let mut lvl: usize = 0;
            let mut pi: usize = 0;
            while pi < ind_pairs.len()
                invariant
                    pi <= ind_pairs@.len(),
                    n == v@.len(),
                    n < usize::MAX,
                    line_no@.len() == n,
                    last_line as int == count_nl(v@),
                    forall|p: int| 0 <= p < n ==> #[trigger] line_no@[p] as int == count_nl(
                        v@.subrange(0, p),
                    ),
                    lvl as int == level_upto(v@, ind_pairs@, pi as int, k as int),
                    lvl <= pi,
                decreases ind_pairs@.len() - pi,
            {
                let (a, b) = (ind_pairs[pi].0, ind_pairs[pi].1);
                let la = line_at(&line_no, last_line, a.pos);
                let lb = line_at(&line_no, last_line, b.pos);
                proof {
                    assert(v@.subrange(0, n as int) =~= v@);
                    lemma_count_nl_le(v@);
                    if (a.pos as int) < n {
                        lemma_count_nl_mono(v@, a.pos as int);
                    }
                    if (b.pos as int) < n {
                        lemma_count_nl_mono(v@, b.pos as int);
                    }
                    assert(la as int == line_of(v@, a.pos as int));
                    assert(lb as int == line_of(v@, b.pos as int));
                    assert(la <= last_line);
                }
                if la + 1 <= k && k < lb {
                    lvl = lvl + 1;
                }
                pi = pi + 1;
            }
            let mut pres: bool = false;
            let mut qi: usize = 0;
            while qi < pres_pairs.len()
                invariant
                    qi <= pres_pairs@.len(),
                    n == v@.len(),
                    n < usize::MAX,
                    line_no@.len() == n,
                    last_line as int == count_nl(v@),
                    forall|p: int| 0 <= p < n ==> #[trigger] line_no@[p] as int == count_nl(
                        v@.subrange(0, p),
                    ),
                    pres == pres_upto(v@, pres_pairs@, qi as int, k as int),
                decreases pres_pairs@.len() - qi,
            {
                let (a, b) = (pres_pairs[qi].0, pres_pairs[qi].1);
                let la = line_at(&line_no, last_line, a.pos);
                let lb = line_at(&line_no, last_line, b.pos);
                proof {
                    assert(v@.subrange(0, n as int) =~= v@);
                    lemma_count_nl_le(v@);
                    if (a.pos as int) < n {
                        lemma_count_nl_mono(v@, a.pos as int);
                    }
                    if (b.pos as int) < n {
                        lemma_count_nl_mono(v@, b.pos as int);
                    }
                    assert(la as int == line_of(v@, a.pos as int));
                    assert(lb as int == line_of(v@, b.pos as int));
                }
                if la <= k && k < lb {
                    pres = true;
                }
                qi = qi + 1;
            }
            levels.push(lvl);
            preserved.push(pres);
            k = k + 1;
        }

        // rebuild, inserting the indent prefix at each line start
        let mut out: Vec<char> = Vec::new();
        let mut i: usize = 0;
        let mut line: usize = 0;
        let mut at_start: bool = true;
        proof {
            assert(v@.subrange(0, 0) =~= Seq::<char>::empty());
        }
        while i < n
            invariant
                i <= n,
                n == v@.len(),
                n < usize::MAX,
                num_lines == levels@.len(),
                num_lines == preserved@.len(),
                last_line as int == count_nl(v@),
                num_lines == last_line + 1,
                gip == ind_pairs@,
                gpp == pres_pairs@,
                unit == self.config.indent,
                forall|m: int| 0 <= m < num_lines ==> #[trigger] levels@[m] as int == line_level(
                    v@,
                    gip,
                    m,
                ),
                forall|m: int| 0 <= m < num_lines ==> #[trigger] preserved@[m] == line_preserved(
                    v@,
                    gpp,
                    m,
                ),
                line as int == count_nl(v@.subrange(0, i as int)),
                at_start == (i == 0 || v@[i - 1] == '\n'),
                count_nl(out@) == count_nl(v@.subrange(0, i as int)),
                indent_only_rel(v@, out@, i as int, out@.len() as int, at_start),
                out@ + emit_from(v@, i as int, line as int, at_start, gip, gpp, unit) == emit_from(
                    v@,
                    0,
                    0,
                    true,
                    gip,
                    gpp,
                    unit,
                ),
            decreases n - i,
        {
            proof {
                lemma_count_nl_mono(v@, i as int);
                assert(line <= last_line);
            }
            let ghost round_entry = out@;
            if at_start {
                let lvl = levels[line];
                let pres = preserved[line];
                if lvl > 0 && !pres {
                    let prefix = self.config.indent.get_checked(lvl);
                    let pv = str_chars(prefix.as_str());
                    proof {
                        assert(pv@ == line_prefix(v@, gip, gpp, unit, line as int));
                        assert(out@ =~= round_entry + pv@.subrange(0, 0));
                    }
                    let mut t: usize = 0;
                    while t < pv.len()
                        invariant
                            t <= pv@.len(),
                            n == v@.len(),
                            i < n,
                            count_nl(out@) == count_nl(v@.subrange(0, i as int)),
                            forall|q: int|
                                0 <= q < pv@.len() ==> #[trigger] pv@[q] == ' ' || pv@[q] == '\t',
                            indent_only_rel(v@, out@, i as int, out@.len() as int, true),
                            out@ == round_entry + pv@.subrange(0, t as int),
                        decreases pv@.len() - t,
                    {
                        let ghost pre_out = out@;
                        out.push(pv[t]);
                        proof {
                            assert(out@.drop_last() =~= pre_out);
                            assert(out@.last() == pv@[t as int]);
                            lemma_indent_rel_ext(v@, pre_out, out@, pre_out.len() as int);
                            assert(indent_only_rel(v@, out@, i as int, pre_out.len() as int, true));
                            assert(indent_only_rel(v@, out@, i as int, out@.len() as int, true));
                            assert(out@ =~= round_entry + pv@.subrange(0, t + 1));
                        }
                        t = t + 1;
                    }
                    proof {
                        assert(pv@.subrange(0, pv@.len() as int) =~= pv@);
                    }
                } else {
                    proof {
                        assert(line_prefix(v@, gip, gpp, unit, line as int) =~= Seq::<
                            char,
                        >::empty());
                        assert(out@ =~= round_entry + line_prefix(v@, gip, gpp, unit, line as int));
                    }
                }
            }
            let ghost prefix_emitted = if at_start {
                line_prefix(v@, gip, gpp, unit, line as int)
            } else {
                Seq::<char>::empty()
            };
            proof {
                assert(out@ == round_entry + prefix_emitted);
            }
            let c = v[i];
            let ghost pre_out = out@;
            out.push(c);
            proof {
                assert(v@.subrange(0, i + 1).drop_last() =~= v@.subrange(0, i as int));
                assert(v@.subrange(0, i + 1).last() == v@[i as int]);
                assert(out@.drop_last() =~= pre_out);
                assert(out@.last() == v@[i as int]);
                lemma_indent_rel_ext(v@, pre_out, out@, pre_out.len() as int);
                assert(indent_only_rel(v@, out@, i as int, pre_out.len() as int, at_start));
                assert(indent_only_rel(v@, out@, i + 1, out@.len() as int, c == '\n'));
                // one unfolding step of the rendering
                let rest = emit_from(
                    v@,
                    i + 1,
                    if c == '\n' {
                        line + 1
                    } else {
                        line as int
                    },
                    c == '\n',
                    gip,
                    gpp,
                    unit,
                );
                assert(emit_from(v@, i as int, line as int, at_start, gip, gpp, unit)
                    == prefix_emitted + seq![v@[i as int]] + rest);
                assert(out@ =~= round_entry + (prefix_emitted + seq![v@[i as int]]));
                assert(out@ + rest =~= round_entry + (prefix_emitted + seq![v@[i as int]] + rest));
            }
            at_start = c == '\n';
            if at_start {
                line = line + 1;
            }
            i = i + 1;
        }
        proof {
            assert(v@.subrange(0, n as int) =~= v@);
            assert(emit_from(v@, n as int, line as int, at_start, gip, gpp, unit) =~= Seq::<
                char,
            >::empty());
            assert(out@ + emit_from(v@, n as int, line as int, at_start, gip, gpp, unit) =~= out@);
        }
        self.buffer = chars_string(&out);
        self.marks = Vec::new();
    }
}

/// The line that character position `pos` lies on, `last_line` for
/// positions at or past the end.
fn line_at(line_no: &Vec<usize>, last_line: usize, pos: usize) -> (r: usize)
    ensures
        r == if pos < line_no@.len() {
            line_no@[pos as int]
        } else {
            last_line
        },
{
    if pos < line_no.len() {
        line_no[pos]
    } else {
        last_line
    }
}

} // verus!
