//! The table-like call formatter.
//!
//! A call like `table(...)` with four or more arguments reads better as a
//! grid: named arguments come first, one per line, and the positional
//! arguments follow in rows. The row width comes from an explicit integer
//! `columns` argument, or failing that from the integer square root of the
//! number of positional arguments.

use vstd::prelude::*;

use crate::args::is_arg_item;
use crate::config::{indent_chars, Config};
use crate::context::reindent;
use crate::node::{FmtKind, FmtNode};

verus! {

/// The value of a decimal digit string.
pub open spec fn dec_val(s: Seq<char>) -> int
    decreases s.len(),
{
    if s.len() == 0 {
        0
    } else {
        dec_val(s.drop_last()) * 10 + (s.last() as int - '0' as int)
    }
}

/// Every character is a decimal digit.
pub open spec fn all_digits(s: Seq<char>) -> bool {
    forall|i: int| 0 <= i < s.len() ==> '0' <= #[trigger] s[i] <= '9'
}

proof fn lemma_dec_val_nonneg(s: Seq<char>)
    requires
        all_digits(s),
    ensures
        dec_val(s) >= 0,
    decreases s.len(),
{
    if s.len() > 0 {
        assert(all_digits(s.drop_last())) by {
            assert(forall|i: int|
                0 <= i < s.drop_last().len() ==> #[trigger] s.drop_last()[i] == s[i]);
        }
        lemma_dec_val_nonneg(s.drop_last());
    }
}

proof fn lemma_dec_val_mono(s: Seq<char>, k: int)
    requires
        0 <= k <= s.len(),
        all_digits(s),
    ensures
        dec_val(s) >= dec_val(s.subrange(0, k)),
    decreases s.len() - k,
{
    if k == s.len() {
        assert(s.subrange(0, k) =~= s);
    } else {
        assert(all_digits(s.drop_last())) by {
            assert(forall|i: int|
                0 <= i < s.drop_last().len() ==> #[trigger] s.drop_last()[i] == s[i]);
        }
        lemma_dec_val_nonneg(s.drop_last());
        lemma_dec_val_mono(s.drop_last(), k);
        assert(s.drop_last().subrange(0, k) =~= s.subrange(0, k));
        assert(dec_val(s) >= dec_val(s.drop_last()));
    }
}

/// Reads a decimal number: `Some` exactly on a nonempty all-digit text
/// whose value fits the machine, `None` otherwise.
pub fn parse_usize(s: &str) -> (r: Option<usize>)
    ensures
        match r {
            Option::Some(v) => s@.len() > 0 && all_digits(s@) && v as int == dec_val(s@),
            Option::None => s@.len() == 0 || !all_digits(s@) || dec_val(s@) > usize::MAX,
        },
{
    let v = crate::strconv::str_chars(s);
    let n = v.len();
    if n == 0 {
        return Option::None;
    }
    let mut val: usize = 0;
    let mut i: usize = 0;
    proof {
        assert(v@.subrange(0, 0) =~= Seq::<char>::empty());
    }
    while i < n
        invariant
            i <= n,
            n == v@.len(),
            v@ == s@,
            all_digits(v@.subrange(0, i as int)),
            val as int == dec_val(v@.subrange(0, i as int)),
        decreases n - i,
    {
        let c = v[i];
        if c < '0' || c > '9' {
            proof {
                assert(!all_digits(s@));
            }
            return Option::None;
        }
        let d = (c as u32 - '0' as u32) as usize;
        proof {
            assert(v@.subrange(0, i + 1).drop_last() =~= v@.subrange(0, i as int));
            assert(v@.subrange(0, i + 1).last() == v@[i as int]);
        }
        if val > (usize::MAX - d) / 10 {
            proof {
                assert(val * 10 + d > usize::MAX) by (nonlinear_arith)
                    requires
                        val > (usize::MAX - d) as int / 10,
                        0 <= d <= 9,
                ;
                assert(dec_val(v@.subrange(0, i + 1)) > usize::MAX);
                if all_digits(s@) {
                    lemma_dec_val_mono(s@, i + 1);
                }
            }
            return Option::None;
        }
        proof {
            assert(val * 10 + d <= usize::MAX) by (nonlinear_arith)
                requires
                    val <= (usize::MAX - d) as int / 10,
                    0 <= d <= 9,
            ;
        }
        val = val * 10 + d;
        i = i + 1;
    }
    proof {
        assert(v@.subrange(0, n as int) =~= v@);
    }
    Option::Some(val)
}

/// The integer square root: the largest value whose square is at most `n`.
pub open spec fn isqrt_spec(n: nat) -> nat
    decreases n,
{
    if n == 0 {
        0
    } else {
        let p = isqrt_spec((n - 1) as nat);
        if (p + 1) * (p + 1) <= n {
            p + 1
        } else {
            p
        }
    }
}

proof fn lemma_isqrt_bounds(n: nat)
    ensures
        isqrt_spec(n) * isqrt_spec(n) <= n,
        n < (isqrt_spec(n) + 1) * (isqrt_spec(n) + 1),
    decreases n,
{
    let q = isqrt_spec(n);
    if n == 0 {
        assert(q == 0);
        assert(q * q <= n && n < (q + 1) * (q + 1)) by (nonlinear_arith)
            requires
                q == 0,
                n == 0,
        ;
    } else {
        lemma_isqrt_bounds((n - 1) as nat);
        let p = isqrt_spec((n - 1) as nat);
        if (p + 1) * (p + 1) <= n {
            assert(q == p + 1);
            assert((p + 2) * (p + 2) > n) by (nonlinear_arith)
                requires
                    ((n - 1) as nat) < (p + 1) * (p + 1),
                    p >= 0,
                    n >= 1,
            ;
            assert(q * q <= n && n < (q + 1) * (q + 1)) by (nonlinear_arith)
                requires
                    q == p + 1,
                    (p + 1) * (p + 1) <= n,
                    n < (p + 2) * (p + 2),
            ;
        } else {
            assert(q == p);
            assert(q * q <= n && n < (q + 1) * (q + 1)) by (nonlinear_arith)
                requires
                    q == p,
                    p * p <= ((n - 1) as nat),
                    !((p + 1) * (p + 1) <= n),
                    n >= 1,
            ;
        }
    }
}

proof fn lemma_isqrt_unique(n: nat, r: nat)
    requires
        r * r <= n,
        n < (r + 1) * (r + 1),
    ensures
        r == isqrt_spec(n),
{
    lemma_isqrt_bounds(n);
    let q = isqrt_spec(n);
    if r < q {
        assert((r + 1) * (r + 1) <= q * q) by (nonlinear_arith)
            requires
                r + 1 <= q,
                r >= 0,
        ;
    } else if q < r {
        assert((q + 1) * (q + 1) <= r * r) by (nonlinear_arith)
            requires
                q + 1 <= r,
                q >= 0,
        ;
    }
}

/// The integer square root: the largest `r` with `r * r <= n`.
pub fn isqrt(n: usize) -> (r: usize)
    ensures
        r * r <= n,
        n < (r + 1) * (r + 1),
        r as nat == isqrt_spec(n as nat),
{
    let mut r: usize = 0;
    while r < n && r + 1 <= n / (r + 1)
        invariant
            r * r <= n,
            r <= n,
        decreases n - r,
    {
        proof {
            assert((r + 1) * (r + 1) <= n) by (nonlinear_arith)
                requires
                    r + 1 <= n as int / (r + 1) as int,
                    r + 1 >= 1,
                    n >= 0,
            ;
        }
        r = r + 1;
    }
    proof {
        if r < n {
            assert(n < (r + 1) * (r + 1)) by (nonlinear_arith)
                requires
                    (r + 1) as int > n as int / (r + 1) as int,
                    r + 1 >= 1,
                    n >= 0,
            ;
        } else {
            assert(n < (r + 1) * (r + 1)) by (nonlinear_arith)
                requires
                    r >= n,
                    n >= 0,
                    r * r <= n,
            ;
        }
        lemma_isqrt_unique(n as nat, r as nat);
    }
    r
}

/// The named item carries the name `columns`.
pub open spec fn named_is_columns(nm: FmtNode) -> bool {
    exists|j: int|
        0 <= j < nm.children@.len() && nm.children@[j].kind == FmtKind::Ident
            && nm.children@[j].text@ == "columns"@
}

/// The first `Named` child at or after `i` that names `columns`; -1 if none.
pub open spec fn idx_columns_named(cs: Seq<FmtNode>, i: int) -> int
    decreases cs.len() - i,
{
    if i < 0 || i >= cs.len() {
        -1
    } else if cs[i].kind == FmtKind::Named && named_is_columns(cs[i]) {
        i
    } else {
        idx_columns_named(cs, i + 1)
    }
}

/// Whether a spread argument is among the children.
pub open spec fn has_spread(cs: Seq<FmtNode>) -> bool {
    exists|j: int| 0 <= j < cs.len() && cs[j].kind == FmtKind::Spread
}

/// The column count readable from a `columns` value, scanning the named
/// item's children from `i`: the element count of a spread-free array, or
/// an integer literal of at least one; -1 when neither is found.
pub open spec fn col_value_at(cs: Seq<FmtNode>, i: int) -> int
    decreases cs.len() - i,
{
    if i < 0 || i >= cs.len() {
        -1
    } else if cs[i].kind == FmtKind::Array && !has_spread(cs[i].children@)
        && crate::args::count_items(cs[i].children@) >= 1 {
        crate::args::count_items(cs[i].children@) as int
    } else if cs[i].text@.len() > 0 && all_digits(cs[i].text@) && 1 <= dec_val(cs[i].text@)
        <= usize::MAX {
        dec_val(cs[i].text@)
    } else {
        col_value_at(cs, i + 1)
    }
}

/// The number of positional items among the children.
pub open spec fn count_positional(cs: Seq<FmtNode>) -> nat
    decreases cs.len(),
{
    if cs.len() == 0 {
        0
    } else {
        count_positional(cs.drop_last()) + if is_arg_item(cs.last().kind) && cs.last().kind
            != FmtKind::Named {
            1nat
        } else {
            0nat
        }
    }
}

/// The row width of a table-like argument list: the explicit `columns`
/// count when one is readable, else the integer square root of the number
/// of positional arguments, at least one.
pub open spec fn spec_table_columns(args: FmtNode) -> int {
    let ci = idx_columns_named(args.children@, 0);
    let explicit = if ci >= 0 {
        col_value_at(args.children@[ci].children@, 0)
    } else {
        -1
    };
    if explicit >= 1 {
        explicit
    } else {
        let s = isqrt_spec(count_positional(args.children@));
        if s == 0 {
            1
        } else {
            s as int
        }
    }
}

proof fn lemma_count_items_le(cs: Seq<FmtNode>)
    ensures
        crate::args::count_items(cs) <= cs.len(),
    decreases cs.len(),
{
    if cs.len() > 0 {
        lemma_count_items_le(cs.drop_last());
    }
}

/// Whether the named item carries the name `columns`.
fn named_is_columns_x(nm: &FmtNode) -> (r: bool)
    ensures
        r == named_is_columns(*nm),
{
    let n = nm.children.len();
    let mut i: usize = 0;
    while i < n
        invariant
            i <= n,
            n == nm.children@.len(),
            forall|j: int|
                0 <= j < i ==> !(#[trigger] nm.children@[j].kind == FmtKind::Ident
                    && nm.children@[j].text@ == "columns"@),
        decreases n - i,
    {
        if nm.children[i].kind == FmtKind::Ident && nm.children[i].text.eq(
            &"columns".to_owned(),
        ) {
            return true;
        }
        i = i + 1;
    }
    false
}

fn find_columns_named(children: &Vec<FmtNode>, i: usize) -> (r: Option<usize>)
    ensures
        match r {
            Option::Some(j) => j as int == idx_columns_named(children@, i as int) && j
                < children@.len(),
            Option::None => idx_columns_named(children@, i as int) == -1,
        },
    decreases children@.len() - i,
{
    if i >= children.len() {
        Option::None
    } else if children[i].kind == FmtKind::Named && named_is_columns_x(&children[i]) {
        Option::Some(i)
    } else {
        find_columns_named(children, i + 1)
    }
}

/// Whether a spread argument is among the children.
fn has_spread_x(children: &Vec<FmtNode>) -> (r: bool)
    ensures
        r == has_spread(children@),
{
    let n = children.len();
    let mut i: usize = 0;
    while i < n
        invariant
            i <= n,
            n == children@.len(),
            forall|j: int| 0 <= j < i ==> children@[j].kind != FmtKind::Spread,
        decreases n - i,
    {
        if children[i].kind == FmtKind::Spread {
            return true;
        }
        i = i + 1;
    }
    false
}

fn col_value_from(children: &Vec<FmtNode>, i: usize) -> (r: Option<usize>)
    ensures
        match r {
            Option::Some(v) => v >= 1 && v as int == col_value_at(children@, i as int),
            Option::None => col_value_at(children@, i as int) == -1,
        },
    decreases children@.len() - i,
{
    if i >= children.len() {
        Option::None
    } else {
        let nd = &children[i];
        if nd.kind == FmtKind::Array && !has_spread_x(&nd.children) {
            let ln = nd.children.len();
            let c = crate::args::count_items_x(&nd.children);
            proof {
                lemma_count_items_le(nd.children@);
            }
            if c >= 1 {
                proof {
                    assert(c as int <= ln as int);
                }
                return Option::Some(c as usize);
            }
        }
        match parse_usize(nd.text.as_str()) {
            Option::Some(v) => {
                if v >= 1 {
                    return Option::Some(v);
                }
            },
            Option::None => {},
        }
        col_value_from(children, i + 1)
    }
}

/// The row width of a table-like call, per the rule of
/// [`spec_table_columns`]; always at least one.
pub fn table_columns(args_node: &FmtNode) -> (r: usize)
    ensures
        r >= 1,
        r as int == spec_table_columns(*args_node),
{
    match find_columns_named(&args_node.children, 0) {
        Option::Some(ci) => {
            match col_value_from(&args_node.children[ci].children, 0) {
                Option::Some(v) => {
                    return v;
                },
                Option::None => {},
            }
        },
        Option::None => {},
    }
    let n = args_node.children.len();
    let mut npos: usize = 0;
    let mut k: usize = 0;
    proof {
        assert(args_node.children@.subrange(0, 0) =~= Seq::<FmtNode>::empty());
    }
    while k < n
        invariant
            k <= n,
            n == args_node.children@.len(),
            npos as int == count_positional(args_node.children@.subrange(0, k as int)),
            npos <= k,
        decreases n - k,
    {
        let kd = args_node.children[k].kind;
        proof {
            assert(args_node.children@.subrange(0, k + 1).drop_last() =~= args_node.children@
                .subrange(0, k as int));
            assert(args_node.children@.subrange(0, k + 1).last() == args_node.children@[k as int]);
        }
        let pos = !(kd == FmtKind::Comma || kd == FmtKind::Space || kd == FmtKind::LeftParen || kd
            == FmtKind::RightParen || kd == FmtKind::LineComment || kd == FmtKind::BlockComment
            || kd == FmtKind::Named);
        if pos {
            npos = npos + 1;
        }
        k = k + 1;
    }
    proof {
        assert(args_node.children@.subrange(0, n as int) =~= args_node.children@);
    }
    let s = isqrt(npos);
    if s == 0 {
        1
    } else {
        s
    }
}

/// Whether child `i` is a positional item of the list.
pub open spec fn is_positional(cs: Seq<FmtNode>, i: int) -> bool {
    is_arg_item(cs[i].kind) && cs[i].kind != FmtKind::Named
}

/// Whether a positional item follows index `i`.
pub open spec fn has_later_pos(cs: Seq<FmtNode>, i: int) -> bool
    decreases cs.len() - i,
{
    if i + 1 >= cs.len() || i + 1 < 0 {
        false
    } else {
        is_positional(cs, i + 1) || has_later_pos(cs, i + 1)
    }
}

/// Whether a positional item follows index `i`.
pub fn has_later_pos_x(children: &Vec<FmtNode>, i: usize) -> (r: bool)
    ensures
        r == has_later_pos(children@, i as int),
    decreases children@.len() - i,
{
    if i >= children.len() || i + 1 >= children.len() {
        false
    } else {
        let kd = children[i + 1].kind;
        let pos = !(kd == FmtKind::Comma || kd == FmtKind::Space || kd == FmtKind::LeftParen || kd
            == FmtKind::RightParen || kd == FmtKind::LineComment || kd == FmtKind::BlockComment
            || kd == FmtKind::Named);
        if pos {
            true
        } else {
            has_later_pos_x(children, i + 1)
        }
    }
}

/// The named arguments among the first `k` children, one per line.
pub open spec fn table_named_upto(cs: Seq<FmtNode>, rs: Seq<Seq<char>>, ind: Seq<char>, k: int)
    -> Seq<char>
    decreases k,
{
    if k <= 0 {
        Seq::empty()
    } else {
        let acc = table_named_upto(cs, rs, ind, k - 1);
        let i = k - 1;
        if cs[i].kind == FmtKind::Named {
            acc + reindent(rs[i], ind) + seq![',', '\n'] + ind
        } else {
            acc
        }
    }
}

/// The positional arguments among the first `k` children, in rows of
/// `cols`, and how many have been placed.
pub open spec fn table_pos_upto(
    cs: Seq<FmtNode>,
    rs: Seq<Seq<char>>,
    ind: Seq<char>,
    cols: int,
    k: int,
) -> (Seq<char>, int)
    decreases k,
{
    if k <= 0 {
        (Seq::empty(), 0int)
    } else {
        let (acc, c) = table_pos_upto(cs, rs, ind, cols, k - 1);
        let i = k - 1;
        if is_positional(cs, i) {
            let c1 = c + 1;
            let sep = if !has_later_pos(cs, i) {
                seq![',', '\n']
            } else if c1 % cols == 0 {
                seq![',', '\n'] + ind
            } else {
                seq![',', ' ']
            };
            (acc + reindent(rs[i], ind) + sep, c1)
        } else {
            (acc, c)
        }
    }
}

/// What `format_args_table` produces.
pub open spec fn table_spec(node: FmtNode, rs: Seq<Seq<char>>, ind: Seq<char>, cols: int) -> Seq<
    char,
> {
    let cs = node.children@;
    seq!['(', '\n'] + ind + table_named_upto(cs, rs, ind, cs.len() as int) + table_pos_upto(
        cs,
        rs,
        ind,
        cols,
        cs.len() as int,
    ).0 + seq![')']
}

/// Renders a table-like argument list: the named arguments first, one per
/// line, then the positional arguments in rows of `cols`.
pub fn format_args_table(node: &FmtNode, children: &Vec<String>, config: &Config, cols: usize) -> (
    r: String)
    requires
        children@.len() == node.children@.len(),
        cols >= 1,
    ensures
        r@ == table_spec(
            *node,
            children@.map_values(|s: String| s@),
            indent_chars(config.indent, 1),
            cols as int,
        ),
{
    let ghost rs = children@.map_values(|s: String| s@);
    let ind = config.indent.get(1);
    proof {
        assert(indent_chars(config.indent, (1usize) as nat) == indent_chars(config.indent, 1));
    }
    let n = node.children.len();
    let mut out = String::new();
    out.append("(\n");
    out.append(ind.as_str());
    proof {
        reveal_strlit("(\n");
        assert(out@ =~= seq!['(', '\n'] + ind@);
    }

    let ghost head = out@;
    let mut i: usize = 0;
    while i < n
        invariant
            i <= n,
            n == node.children@.len(),
            children@.len() == n,
            rs == children@.map_values(|s: String| s@),
            ind@ == indent_chars(config.indent, 1),
            out@ == head + table_named_upto(node.children@, rs, ind@, i as int),
        decreases n - i,
    {
        proof {
            assert(rs[i as int] == children@[i as int]@);
        }
        if node.children[i].kind == FmtKind::Named {
            let re = crate::context::reindent_text(children[i].as_str(), ind.as_str());
            out.append(re.as_str());
            out.append(",\n");
            out.append(ind.as_str());
            proof {
                reveal_strlit(",\n");
                let acc = head + table_named_upto(node.children@, rs, ind@, i as int);
                assert(acc + reindent(rs[i as int], ind@) + ",\n"@ + ind@ =~= acc + (reindent(
                    rs[i as int],
                    ind@,
                ) + seq![',', '\n'] + ind@));
                assert(head + (table_named_upto(node.children@, rs, ind@, i as int) + (reindent(
                    rs[i as int],
                    ind@,
                ) + seq![',', '\n'] + ind@)) =~= acc + (reindent(rs[i as int], ind@) + seq![
                    ',',
                    '\n',
                ] + ind@));
            }
        }
        i = i + 1;
    }

    let ghost mid = out@;
    let mut c: usize = 0;
    let mut i: usize = 0;
    while i < n
        invariant
            i <= n,
            n == node.children@.len(),
            children@.len() == n,
            rs == children@.map_values(|s: String| s@),
            ind@ == indent_chars(config.indent, 1),
            cols >= 1,
            ({
                let st = table_pos_upto(node.children@, rs, ind@, cols as int, i as int);
                out@ == mid + st.0 && c as int == st.1
            }),
            c <= i,
        decreases n - i,
    {
        proof {
            assert(rs[i as int] == children@[i as int]@);
        }
        let kd = node.children[i].kind;
        let pos = !(kd == FmtKind::Comma || kd == FmtKind::Space || kd == FmtKind::LeftParen || kd
            == FmtKind::RightParen || kd == FmtKind::LineComment || kd == FmtKind::BlockComment
            || kd == FmtKind::Named);
        if pos {
            let re = crate::context::reindent_text(children[i].as_str(), ind.as_str());
            out.append(re.as_str());
            c = c + 1;
            let ghost acc = mid + table_pos_upto(
                node.children@,
                rs,
                ind@,
                cols as int,
                i as int,
            ).0 + reindent(rs[i as int], ind@);
            if !has_later_pos_x(&node.children, i) {
                out.append(",\n");
                proof {
                    reveal_strlit(",\n");
                    assert(out@ =~= acc + seq![',', '\n']);
                }
            } else if c % cols == 0 {
                out.append(",\n");
                out.append(ind.as_str());
                proof {
                    reveal_strlit(",\n");
                    assert(out@ =~= acc + (seq![',', '\n'] + ind@));
                }
            } else {
                out.append(", ");
                proof {
                    reveal_strlit(", ");
                    assert(out@ =~= acc + seq![',', ' ']);
                }
            }
        }
        i = i + 1;
    }
    out.append(")");
    proof {
        reveal_strlit(")");
        assert(out@ =~= table_spec(*node, rs, ind@, cols as int));
    }
    out
}

} // verus!
