//! Line measurements and the whitespace-normalisation passes.
//!
//! Lengths are counted in characters — Unicode code points, not grapheme
//! clusters, the simpler of the two measures the design allows — and lines
//! are measured untrimmed. Three passes normalise whitespace:
//! space runs collapse to one space, blank-line runs clamp to one blank
//! line, and spaces standing directly before a line break are removed
//! (the final cleanup of every formatting run).

use vstd::prelude::*;

use crate::strconv::{chars_string, str_chars};

verus! {

/// Number of characters after the last line break (the whole text when it
/// has none).
pub open spec fn last_line_len(s: Seq<char>) -> nat
    decreases s.len(),
{
    if s.len() == 0 {
        0
    } else if s.last() == '\n' {
        0
    } else {
        last_line_len(s.drop_last()) + 1
    }
}

/// Number of characters of the longest line.
pub open spec fn max_line_len(s: Seq<char>) -> nat
    decreases s.len(),
{
    if s.len() == 0 {
        0
    } else {
        let m = max_line_len(s.drop_last());
        if last_line_len(s) > m {
            last_line_len(s)
        } else {
            m
        }
    }
}

/// Number of characters before the first line break (the whole text when it
/// has none).
pub open spec fn first_line_len(s: Seq<char>) -> nat
    decreases s.len(),
{
    if s.len() == 0 {
        0
    } else if s[0] == '\n' {
        0
    } else {
        first_line_len(s.skip(1)) + 1
    }
}

pub proof fn lemma_last_line_le(s: Seq<char>)
    ensures
        last_line_len(s) <= s.len(),
    decreases s.len(),
{
    if s.len() > 0 {
        lemma_last_line_le(s.drop_last());
    }
}

/// The length in characters of the last line of `s`.
pub fn last_line_length(s: &str) -> (r: usize)
    ensures
        r == last_line_len(s@),
{
    let v = str_chars(s);
    let n = v.len();
    let mut i: usize = 0;
    let mut cur: usize = 0;
    proof {
        assert(v@.subrange(0, 0) =~= Seq::<char>::empty());
    }
    while i < n
        invariant
            i <= n,
            n == v@.len(),
            cur == last_line_len(v@.subrange(0, i as int)),
            cur <= i,
        decreases n - i,
    {
        let c = v[i];
        proof {
            assert(v@.subrange(0, i + 1).drop_last() =~= v@.subrange(0, i as int));
            assert(v@.subrange(0, i + 1).last() == v@[i as int]);
        }
        if c == '\n' {
            cur = 0;
        } else {
            cur = cur + 1;
        }
        i = i + 1;
    }
    proof {
        assert(v@.subrange(0, n as int) =~= v@);
    }
    cur
}

/// The length in characters of the longest line of `s`.
pub fn max_line_length(s: &str) -> (r: usize)
    ensures
        r == max_line_len(s@),
{
    let v = str_chars(s);
    let n = v.len();
    let mut i: usize = 0;
    let mut cur: usize = 0;
    let mut best: usize = 0;
    proof {
        assert(v@.subrange(0, 0) =~= Seq::<char>::empty());
    }
    while i < n
        invariant
            i <= n,
            n == v@.len(),
            cur == last_line_len(v@.subrange(0, i as int)),
            best == max_line_len(v@.subrange(0, i as int)),
            cur <= i,
            best <= i,
        decreases n - i,
    {
        let c = v[i];
        proof {
            assert(v@.subrange(0, i + 1).drop_last() =~= v@.subrange(0, i as int));
            assert(v@.subrange(0, i + 1).last() == v@[i as int]);
        }
        if c == '\n' {
            cur = 0;
        } else {
            cur = cur + 1;
        }
        if cur > best {
            best = cur;
        }
        i = i + 1;
    }
    proof {
        assert(v@.subrange(0, n as int) =~= v@);
    }
    best
}

/// The length in characters of the first line of `s`.
pub fn first_line_length(s: &str) -> (r: usize)
    ensures
        r == first_line_len(s@),
{
    let v = str_chars(s);
    let n = v.len();
    let mut i: usize = 0;
    while i < n && v[i] != '\n'
        invariant
            i <= n,
            n == v@.len(),
            forall|j: int| 0 <= j < i ==> v@[j] != '\n',
        decreases n - i,
    {
        i = i + 1;
    }
    proof {
        lemma_first_line_at(v@, i as int);
    }
    i
}

proof fn lemma_first_line_at(s: Seq<char>, k: int)
    requires
        0 <= k <= s.len(),
        forall|j: int| 0 <= j < k ==> s[j] != '\n',
        k == s.len() || s[k] == '\n',
    ensures
        first_line_len(s) == k,
    decreases k,
{
    if k > 0 {
        lemma_first_line_at(s.skip(1), k - 1);
    }
}

/// Whether `s` holds a line break.
pub open spec fn has_nl(s: Seq<char>) -> bool {
    exists|i: int| 0 <= i < s.len() && s[i] == '\n'
}

/// Whether `s` holds a line break.
pub fn contains_newline(s: &str) -> (r: bool)
    ensures
        r == has_nl(s@),
{
    let v = str_chars(s);
    let n = v.len();
    let mut i: usize = 0;
    while i < n
        invariant
            i <= n,
            n == v@.len(),
            v@ == s@,
            forall|j: int| 0 <= j < i ==> v@[j] != '\n',
        decreases n - i,
    {
        if v[i] == '\n' {
            return true;
        }
        i = i + 1;
    }
    false
}

/// `s` with every run of spaces shortened to a single space.
pub open spec fn collapse_spaces(s: Seq<char>) -> Seq<char>
    decreases s.len(),
{
    if s.len() == 0 {
        Seq::empty()
    } else {
        let r = collapse_spaces(s.drop_last());
        if s.last() == ' ' && s.len() >= 2 && s[s.len() - 2] == ' ' {
            r
        } else {
            r.push(s.last())
        }
    }
}

/// Shortens every run of spaces to a single space, leaving all other
/// characters (line breaks included) in place.
pub fn collapse_space_runs(s: &str) -> (r: String)
    ensures
        r@ == collapse_spaces(s@),
{
    let v = str_chars(s);
    let n = v.len();
    let mut out: Vec<char> = Vec::new();
    let mut i: usize = 0;
    proof {
        assert(v@.subrange(0, 0) =~= Seq::<char>::empty());
    }
    while i < n
        invariant
            i <= n,
            n == v@.len(),
            out@ == collapse_spaces(v@.subrange(0, i as int)),
        decreases n - i,
    {
        let c = v[i];
        proof {
            assert(v@.subrange(0, i + 1).drop_last() =~= v@.subrange(0, i as int));
            assert(v@.subrange(0, i + 1).last() == v@[i as int]);
        }
        if c == ' ' && i > 0 && v[i - 1] == ' ' {
            // the run already produced its one space
        } else {
            out.push(c);
        }
        i = i + 1;
    }
    proof {
        assert(v@.subrange(0, n as int) =~= v@);
    }
    chars_string(&out)
}

/// No two adjacent spaces.
pub open spec fn no_double_space(s: Seq<char>) -> bool {
    forall|i: int| 0 <= i && i + 1 < s.len() ==> !(#[trigger] s[i] == ' ' && s[i + 1] == ' ')
}

proof fn lemma_collapse_clean(s: Seq<char>)
    ensures
        no_double_space(collapse_spaces(s)),
        collapse_spaces(s).len() > 0 && collapse_spaces(s).last() == ' ' ==> s.len() > 0
            && s.last() == ' ',
    decreases s.len(),
{
    if s.len() > 0 {
        lemma_collapse_clean(s.drop_last());
        let c0 = collapse_spaces(s.drop_last());
        if s.last() == ' ' && s.len() >= 2 && s[s.len() - 2] == ' ' {
        } else {
            let c = c0.push(s.last());
            assert forall|i: int| 0 <= i && i + 1 < c.len() implies !(#[trigger] c[i] == ' ' && c[i
                + 1] == ' ') by {
                if i + 1 == c.len() - 1 {
                    if c[i] == ' ' && c[i + 1] == ' ' {
                        assert(c0.last() == ' ');
                        assert(s.drop_last().last() == s[s.len() - 2]);
                    }
                }
            }
        }
    }
}

proof fn lemma_collapse_of_clean(s: Seq<char>)
    requires
        no_double_space(s),
    ensures
        collapse_spaces(s) == s,
    decreases s.len(),
{
    if s.len() > 0 {
        assert(no_double_space(s.drop_last())) by {
            assert(forall|i: int|
                0 <= i && i + 1 < s.drop_last().len() ==> #[trigger] s.drop_last()[i] == s[i]
                    && s.drop_last()[i + 1] == s[i + 1]);
        }
        lemma_collapse_of_clean(s.drop_last());
        if s.last() == ' ' && s.len() >= 2 && s[s.len() - 2] == ' ' {
            assert(false);
        }
        assert(collapse_spaces(s) =~= s);
    }
}

/// Collapsing space runs leaves nothing of its own kind behind: its result
/// has no two adjacent spaces, a text already in that shape passes through
/// unchanged, and collapsing twice is the same as collapsing once.
pub proof fn lemma_collapse_idempotent(s: Seq<char>)
    ensures
        no_double_space(collapse_spaces(s)),
        no_double_space(s) ==> collapse_spaces(s) == s,
        collapse_spaces(collapse_spaces(s)) == collapse_spaces(s),
{
    lemma_collapse_clean(s);
    if no_double_space(s) {
        lemma_collapse_of_clean(s);
    }
    lemma_collapse_of_clean(collapse_spaces(s));
}

/// `s` with every run of three or more line breaks shortened to two.
pub open spec fn clamp_newlines(s: Seq<char>) -> Seq<char>
    decreases s.len(),
{
    if s.len() == 0 {
        Seq::empty()
    } else {
        let r = clamp_newlines(s.drop_last());
        if s.last() == '\n' && s.len() >= 3 && s[s.len() - 2] == '\n' && s[s.len() - 3] == '\n' {
            r
        } else {
            r.push(s.last())
        }
    }
}

/// Shortens every run of three or more line breaks to exactly two, so at
/// most one blank line survives.
pub fn limit_blank_lines(s: &str) -> (r: String)
    ensures
        r@ == clamp_newlines(s@),
{
    let v = str_chars(s);
    let n = v.len();
    let mut out: Vec<char> = Vec::new();
    let mut i: usize = 0;
    proof {
        assert(v@.subrange(0, 0) =~= Seq::<char>::empty());
    }
    while i < n
        invariant
            i <= n,
            n == v@.len(),
            out@ == clamp_newlines(v@.subrange(0, i as int)),
        decreases n - i,
    {
        let c = v[i];
        proof {
            assert(v@.subrange(0, i + 1).drop_last() =~= v@.subrange(0, i as int));
            assert(v@.subrange(0, i + 1).last() == v@[i as int]);
        }
        if c == '\n' && i > 1 && v[i - 1] == '\n' && v[i - 2] == '\n' {
            // already emitted the blank line
        } else {
            out.push(c);
        }
        i = i + 1;
    }
    proof {
        assert(v@.subrange(0, n as int) =~= v@);
    }
    chars_string(&out)
}

/// No three adjacent line breaks.
pub open spec fn no_triple_newline(s: Seq<char>) -> bool {
    forall|i: int|
        0 <= i && i + 2 < s.len() ==> !(#[trigger] s[i] == '\n' && s[i + 1] == '\n' && s[i + 2]
            == '\n')
}

/// The number of line breaks `s` ends with.
pub open spec fn trailing_newlines(s: Seq<char>) -> nat
    decreases s.len(),
{
    if s.len() == 0 {
        0
    } else if s.last() == '\n' {
        trailing_newlines(s.drop_last()) + 1
    } else {
        0
    }
}

proof fn lemma_trail_le(s: Seq<char>)
    ensures
        trailing_newlines(s) <= s.len(),
    decreases s.len(),
{
    if s.len() > 0 {
        lemma_trail_le(s.drop_last());
    }
}

proof fn lemma_trail_two(s: Seq<char>)
    requires
        trailing_newlines(s) >= 2,
    ensures
        s.len() >= 2,
        s[s.len() - 1] == '\n',
        s[s.len() - 2] == '\n',
{
    lemma_trail_le(s);
    assert(s.last() == '\n');
    assert(trailing_newlines(s.drop_last()) >= 1);
    assert(s.drop_last().last() == '\n');
    assert(s.drop_last().last() == s[s.len() - 2]);
}

proof fn lemma_clamp_clean(s: Seq<char>)
    ensures
        no_triple_newline(clamp_newlines(s)),
        trailing_newlines(clamp_newlines(s)) == if trailing_newlines(s) > 2 {
            2nat
        } else {
            trailing_newlines(s)
        },
    decreases s.len(),
{
    if s.len() > 0 {
        lemma_clamp_clean(s.drop_last());
        let c0 = clamp_newlines(s.drop_last());
        if s.last() == '\n' && s.len() >= 3 && s[s.len() - 2] == '\n' && s[s.len() - 3] == '\n' {
            assert(s.drop_last().last() == s[s.len() - 2]);
            assert(s.drop_last().drop_last().last() == s[s.len() - 3]);
            assert(trailing_newlines(s.drop_last()) >= 2) by {
                assert(trailing_newlines(s.drop_last()) == trailing_newlines(s.drop_last().drop_last()) + 1);
            }
        } else {
            let c = c0.push(s.last());
            assert(c.drop_last() =~= c0);
            if s.last() == '\n' {
                assert(trailing_newlines(s.drop_last()) <= 1) by {
                    if trailing_newlines(s.drop_last()) >= 2 {
                        lemma_trail_two(s.drop_last());
                        assert(s.drop_last()[s.len() - 2] == s[s.len() - 2]);
                        assert(s.drop_last()[s.len() - 3] == s[s.len() - 3]);
                    }
                }
            }
            assert forall|i: int| 0 <= i && i + 2 < c.len() implies !(#[trigger] c[i] == '\n' && c[i
                + 1] == '\n' && c[i + 2] == '\n') by {
                if i + 2 == c.len() - 1 {
                    if c[i] == '\n' && c[i + 1] == '\n' && c[i + 2] == '\n' {
                        assert(c0.last() == '\n');
                        assert(c0.drop_last().last() == c0[c0.len() - 2]);
                        assert(trailing_newlines(c0) == trailing_newlines(c0.drop_last()) + 1);
                        assert(trailing_newlines(c0.drop_last()) >= 1) by {
                            assert(c0.drop_last().last() == '\n');
                        }
                        assert(trailing_newlines(c0) >= 2);
                    }
                }
            }
        }
    }
}

proof fn lemma_clamp_of_clean(s: Seq<char>)
    requires
        no_triple_newline(s),
    ensures
        clamp_newlines(s) == s,
    decreases s.len(),
{
    if s.len() > 0 {
        assert(no_triple_newline(s.drop_last())) by {
            assert(forall|i: int|
                0 <= i && i + 2 < s.drop_last().len() ==> #[trigger] s.drop_last()[i] == s[i]
                    && s.drop_last()[i + 1] == s[i + 1] && s.drop_last()[i + 2] == s[i + 2]);
        }
        lemma_clamp_of_clean(s.drop_last());
        if s.last() == '\n' && s.len() >= 3 && s[s.len() - 2] == '\n' && s[s.len() - 3] == '\n' {
            assert(false);
        }
        assert(clamp_newlines(s) =~= s);
    }
}

/// Clamping blank lines leaves nothing of its own kind behind: its result
/// has no three adjacent line breaks, a text already in that shape passes
/// through unchanged, and clamping twice is the same as clamping once.
pub proof fn lemma_clamp_idempotent(s: Seq<char>)
    ensures
        no_triple_newline(clamp_newlines(s)),
        no_triple_newline(s) ==> clamp_newlines(s) == s,
        clamp_newlines(clamp_newlines(s)) == clamp_newlines(s),
{
    lemma_clamp_clean(s);
    if no_triple_newline(s) {
        lemma_clamp_of_clean(s);
    }
    lemma_clamp_of_clean(clamp_newlines(s));
}

/// The character at `i` is a space that, together with the spaces after it,
/// stands directly before a line break; the final cleanup removes it.
pub open spec fn drops_at(s: Seq<char>, i: int) -> bool
    decreases s.len() - i,
{
    if i < 0 || i >= s.len() {
        false
    } else if s[i] != ' ' {
        false
    } else if i + 1 == s.len() {
        false
    } else if s[i + 1] == '\n' {
        true
    } else if s[i + 1] == ' ' {
        drops_at(s, i + 1)
    } else {
        false
    }
}

/// The first `n` characters of `s` after the final cleanup.
pub open spec fn strip_upto(s: Seq<char>, n: int) -> Seq<char>
    decreases n,
{
    if n <= 0 {
        Seq::empty()
    } else if drops_at(s, n - 1) {
        strip_upto(s, n - 1)
    } else {
        strip_upto(s, n - 1).push(s[n - 1])
    }
}

/// `s` with every run of spaces standing directly before a line break
/// removed: the final cleanup of a formatting run.
pub open spec fn strip_trailing_spaces(s: Seq<char>) -> Seq<char> {
    strip_upto(s, s.len() as int)
}

/// No space stands directly before a line break.
pub open spec fn no_space_before_newline(s: Seq<char>) -> bool {
    forall|i: int| 0 <= i && i + 1 < s.len() ==> !(#[trigger] s[i] == ' ' && s[i + 1] == '\n')
}

proof fn lemma_drops_needs_space_nl(s: Seq<char>, i: int)
    requires
        drops_at(s, i),
    ensures
        !no_space_before_newline(s),
    decreases s.len() - i,
{
    if s[i + 1] == '\n' {
        assert(s[i] == ' ' && s[i + 1] == '\n');
    } else {
        lemma_drops_needs_space_nl(s, i + 1);
    }
}

proof fn lemma_strip_upto_of_clean(s: Seq<char>, n: int)
    requires
        0 <= n <= s.len(),
        no_space_before_newline(s),
    ensures
        strip_upto(s, n) == s.subrange(0, n),
    decreases n,
{
    if n == 0 {
        assert(strip_upto(s, 0) =~= s.subrange(0, 0));
    } else {
        if drops_at(s, n - 1) {
            lemma_drops_needs_space_nl(s, n - 1);
        }
        lemma_strip_upto_of_clean(s, n - 1);
        assert(strip_upto(s, n) =~= s.subrange(0, n));
    }
}

proof fn lemma_strip_upto_clean(s: Seq<char>, n: int)
    requires
        0 <= n <= s.len(),
    ensures
        no_space_before_newline(strip_upto(s, n)),
        strip_upto(s, n).len() > 0 && strip_upto(s, n).last() == ' ' ==> (s[n - 1] == ' '
            && !drops_at(s, n - 1)),
    decreases n,
{
    if n > 0 {
        lemma_strip_upto_clean(s, n - 1);
        let prev = strip_upto(s, n - 1);
        if drops_at(s, n - 1) {
            // nothing is appended; if the kept text ended in a space, that
            // space would itself stand before the dropped run and drop too
            if prev.len() > 0 && prev.last() == ' ' {
                assert(s[n - 2] == ' ' && !drops_at(s, n - 2));
                assert(drops_at(s, n - 2));
            }
        } else {
            let cur = prev.push(s[n - 1]);
            if s[n - 1] == '\n' {
                if prev.len() > 0 && prev.last() == ' ' {
                    assert(s[n - 2] == ' ' && !drops_at(s, n - 2));
                    assert(drops_at(s, n - 2));
                }
                assert(no_space_before_newline(cur)) by {
                    assert(forall|i: int|
                        0 <= i && i + 1 < prev.len() ==> #[trigger] cur[i] == prev[i] && cur[i + 1]
                            == prev[i + 1]);
                }
            } else {
                assert(no_space_before_newline(cur)) by {
                    assert(forall|i: int|
                        0 <= i && i + 1 < prev.len() ==> #[trigger] cur[i] == prev[i] && cur[i + 1]
                            == prev[i + 1]);
                }
            }
        }
    }
}

/// The final cleanup leaves nothing of its own kind behind: its result has
/// no space before a line break, and a text already in that shape passes
/// through unchanged. Hence cleaning twice is the same as cleaning once.
pub proof fn lemma_strip_idempotent(s: Seq<char>)
    ensures
        no_space_before_newline(strip_trailing_spaces(s)),
        no_space_before_newline(s) ==> strip_trailing_spaces(s) == s,
        strip_trailing_spaces(strip_trailing_spaces(s)) == strip_trailing_spaces(s),
{
    lemma_strip_upto_clean(s, s.len() as int);
    if no_space_before_newline(s) {
        lemma_strip_upto_of_clean(s, s.len() as int);
        assert(strip_trailing_spaces(s) =~= s);
    }
    let t = strip_trailing_spaces(s);
    lemma_strip_upto_of_clean(t, t.len() as int);
    assert(strip_trailing_spaces(t) =~= t);
}

proof fn lemma_run_all_drop(s: Seq<char>, a: int, b: int)
    requires
        0 <= a <= b < s.len(),
        forall|k: int| a <= k < b ==> s[k] == ' ',
        s[b] == '\n',
    ensures
        forall|k: int| a <= k < b ==> drops_at(s, k),
    decreases b - a,
{
    if a < b {
        lemma_run_all_drop(s, a + 1, b);
        assert(drops_at(s, b - 1));
        assert forall|k: int| a <= k < b implies drops_at(s, k) by {
            if k == a && a + 1 < b {
                assert(drops_at(s, a + 1));
            }
        }
    }
}

proof fn lemma_run_none_drop(s: Seq<char>, a: int, b: int)
    requires
        0 <= a <= b <= s.len(),
        forall|k: int| a <= k < b ==> s[k] == ' ',
        b == s.len() || (s[b] != '\n' && s[b] != ' '),
    ensures
        forall|k: int| a <= k < b ==> !drops_at(s, k),
    decreases b - a,
{
    if a < b {
        lemma_run_none_drop(s, a + 1, b);
        assert(!drops_at(s, b - 1));
        assert forall|k: int| a <= k < b implies !drops_at(s, k) by {
            if k < b - 1 {
                assert(s[k] == ' ');
                assert(s[k + 1] == ' ');
                assert(!drops_at(s, k + 1));
                assert(!drops_at(s, k));
            }
        }
    }
}

/// Removes every run of spaces that stands directly before a line break;
/// spaces at the very end of the text stay.
pub fn remove_trailing_spaces(s: &str) -> (r: String)
    ensures
        r@ == strip_trailing_spaces(s@),
        no_space_before_newline(r@),
{
    let v = str_chars(s);
    let n = v.len();
    let mut out: Vec<char> = Vec::new();
    let mut i: usize = 0;
    while i < n
        invariant
            i <= n,
            n == v@.len(),
            out@ == strip_upto(v@, i as int),
        decreases n - i,
    {
        let c = v[i];
        if c == ' ' {
            let mut j: usize = i;
            while j < n && v[j] == ' '
                invariant
                    i <= j <= n,
                    n == v@.len(),
                    forall|k: int| i <= k < j ==> v@[k] == ' ',
                decreases n - j,
            {
                j = j + 1;
            }
            if j < n && v[j] == '\n' {
                proof {
                    lemma_run_all_drop(v@, i as int, j as int);
                    lemma_strip_run(v@, i as int, j as int);
                }
                i = j;
            } else {
                proof {
                    lemma_run_none_drop(v@, i as int, j as int);
                }
                let mut k: usize = i;
                while k < j
                    invariant
                        i <= k <= j <= n,
                        n == v@.len(),
                        forall|m: int| i <= m < j ==> v@[m] == ' ' && !drops_at(v@, m),
                        out@ == strip_upto(v@, k as int),
                    decreases j - k,
                {
                    out.push(v[k]);
                    k = k + 1;
                }
                i = j;
            }
        } else {
            proof {
                assert(!drops_at(v@, i as int));
            }
            out.push(c);
            i = i + 1;
        }
    }
    proof {
        lemma_strip_upto_clean(v@, n as int);
    }
    chars_string(&out)
}

proof fn lemma_strip_run(s: Seq<char>, a: int, b: int)
    requires
        0 <= a <= b <= s.len(),
        forall|k: int| a <= k < b ==> drops_at(s, k),
    ensures
        strip_upto(s, b) == strip_upto(s, a),
    decreases b - a,
{
    if a < b {
        lemma_strip_run(s, a, b - 1);
    }
}

} // verus!
