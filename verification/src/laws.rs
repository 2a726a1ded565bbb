//! Laws of the engine, stated and proved over the specification functions
//! that the public contracts use.

use vstd::prelude::*;

use crate::arg::{ArgView, spec_fallback_text, spec_compare, ComparisonOp};
use crate::directive::{DirView, spec_exec_conditional, spec_repeat, spec_count_of};
use crate::err::ErrView;
use crate::lexer::TokenView;
use crate::numeral::{
    spec_is_numeral, spec_numeral_cmp, spec_cmp_frac, spec_numeral_parts, spec_numeral_scaled,
    lemma_numeral_cmp_orders_values,
};
use crate::parser::{spec_parse, spec_parse_switch, spec_parse_switch_items};
use crate::template::{
    spec_balance, spec_balance_distinct, spec_balance_same, spec_compile, spec_scan_distinct,
    spec_scan_same, spec_render, spec_render_parts,
};
use crate::value::{ValueView, spec_truthy};

verus! {

/// Every parse failure is a `DirectiveParsing` error.
proof fn lemma_switch_items_err(
    ts: Seq<TokenView>,
    i: int,
    cases: Seq<(Seq<char>, Seq<char>)>,
    default: Option<Seq<char>>,
)
    ensures
        spec_parse_switch_items(ts, i, cases, default) matches Err(e) ==> e is DirectiveParsing,
    decreases ts.len() - i,
{
    if 0 <= i < ts.len() && ts[i] is Pipe && i + 1 < ts.len() {
        if ts[i + 1] is Underscore {
            if i + 2 < ts.len() && ts[i + 2] is Arrow && i + 3 < ts.len()
                && crate::lexer::Token::spec_is_value(ts[i + 3]) {
                lemma_switch_items_err(
                    ts,
                    i + 4,
                    cases,
                    Some(crate::lexer::spec_token_text(ts[i + 3])),
                );
            }
        } else if crate::lexer::Token::spec_is_value(ts[i + 1]) {
            if i + 2 < ts.len() && ts[i + 2] is Arrow && i + 3 < ts.len()
                && crate::lexer::Token::spec_is_value(ts[i + 3]) {
                lemma_switch_items_err(
                    ts,
                    i + 4,
                    cases.push(
                        (
                            crate::lexer::spec_token_text(ts[i + 1]),
                            crate::lexer::spec_token_text(ts[i + 3]),
                        ),
                    ),
                    default,
                );
            }
        }
    }
}

/// A rejected directive body always carries a `DirectiveParsing` error,
/// never a `MissingDelimiter`.
pub proof fn lemma_parse_err_is_parsing(ts: Seq<TokenView>)
    ensures
        spec_parse(ts) matches Err(e) ==> e is DirectiveParsing,
{
    if ts.len() >= 4 && crate::parser::spec_has_pipe(ts) {
        if ts.len() > 0 && crate::lexer::Token::spec_is_value(ts[0]) {
            lemma_switch_items_err(ts, 1, Seq::empty(), None);
        }
    }
}

/// A balanced remainder scans to a result that is never `MissingDelimiter`:
/// the scan either succeeds or rejects some directive body.
proof fn lemma_scan_distinct_balanced(
    s: Seq<char>,
    i: int,
    text: Seq<char>,
    body: Seq<char>,
    depth: int,
    acc: Seq<DirView>,
    o: char,
    c: char,
)
    requires
        depth >= 0,
        spec_balance_distinct(s, i, depth, o, c) == 0,
    ensures
        spec_scan_distinct(s, i, text, body, depth, acc, o, c) matches Err(e) ==> e
            is DirectiveParsing,
    decreases s.len() - i,
{
    if i < 0 || i >= s.len() {
    } else if s[i] == '\\' {
        if i + 1 < s.len() {
            if depth == 0 {
                lemma_scan_distinct_balanced(s, i + 2, text.push(s[i + 1]), body, depth, acc, o, c);
            } else {
                lemma_scan_distinct_balanced(s, i + 2, text, body.push(s[i + 1]), depth, acc, o, c);
            }
        } else {
            lemma_scan_distinct_balanced(s, i + 1, text, body, depth, acc, o, c);
        }
    } else if depth == 0 && s[i] == o && i + 1 < s.len() && s[i + 1] == o {
        lemma_scan_distinct_balanced(s, i + 2, text.push(o), body, depth, acc, o, c);
    } else if depth == 0 && s[i] == c && i + 1 < s.len() && s[i + 1] == c {
        lemma_scan_distinct_balanced(s, i + 2, text.push(c), body, depth, acc, o, c);
    } else if s[i] == o {
        if depth == 0 {
            let flushed = if text.len() > 0 {
                acc.push(DirView::Literal(text))
            } else {
                acc
            };
            lemma_scan_distinct_balanced(s, i + 1, Seq::empty(), body, 1, flushed, o, c);
        } else {
            lemma_scan_distinct_balanced(s, i + 1, text, body.push(o), depth + 1, acc, o, c);
        }
    } else if s[i] == c {
        if depth == 0 {
        } else if depth == 1 {
            match crate::template::spec_compile_body(body) {
                Ok(d) => {
                    lemma_scan_distinct_balanced(s, i + 1, text, Seq::empty(), 0, acc.push(d), o, c);
                },
                Err(_) => {
                    lemma_parse_err_is_parsing(crate::lexer::spec_tokenize(body));
                },
            }
        } else {
            lemma_scan_distinct_balanced(s, i + 1, text, body.push(c), depth - 1, acc, o, c);
        }
    } else {
        if depth == 0 {
            lemma_scan_distinct_balanced(s, i + 1, text.push(s[i]), body, depth, acc, o, c);
        } else {
            lemma_scan_distinct_balanced(s, i + 1, text, body.push(s[i]), depth, acc, o, c);
        }
    }
}

/// The same, under one delimiter character.
proof fn lemma_scan_same_balanced(
    s: Seq<char>,
    i: int,
    text: Seq<char>,
    body: Seq<char>,
    inside: bool,
    acc: Seq<DirView>,
    d: char,
)
    requires
        spec_balance_same(s, i, inside, d) == 0,
    ensures
        spec_scan_same(s, i, text, body, inside, acc, d) matches Err(e) ==> e is DirectiveParsing,
    decreases s.len() - i,
{
    if i < 0 || i >= s.len() {
    } else if s[i] == '\\' {
        if i + 1 < s.len() {
            if inside {
                lemma_scan_same_balanced(s, i + 2, text, body.push(s[i + 1]), inside, acc, d);
            } else {
                lemma_scan_same_balanced(s, i + 2, text.push(s[i + 1]), body, inside, acc, d);
            }
        } else {
            lemma_scan_same_balanced(s, i + 1, text, body, inside, acc, d);
        }
    } else if s[i] == d && i + 1 < s.len() && s[i + 1] == d {
        if inside {
            lemma_scan_same_balanced(s, i + 2, text, body.push(d), inside, acc, d);
        } else {
            lemma_scan_same_balanced(s, i + 2, text.push(d), body, inside, acc, d);
        }
    } else if s[i] == d {
        if inside {
            match crate::template::spec_compile_body(body) {
                Ok(dir) => {
                    lemma_scan_same_balanced(s, i + 1, text, Seq::empty(), false, acc.push(dir), d);
                },
                Err(_) => {
                    lemma_parse_err_is_parsing(crate::lexer::spec_tokenize(body));
                },
            }
        } else {
            let flushed = if text.len() > 0 {
                acc.push(DirView::Literal(text))
            } else {
                acc
            };
            lemma_scan_same_balanced(s, i + 1, Seq::empty(), body, true, flushed, d);
        }
    } else {
        if inside {
            lemma_scan_same_balanced(s, i + 1, text, body.push(s[i]), inside, acc, d);
        } else {
            lemma_scan_same_balanced(s, i + 1, text.push(s[i]), body, inside, acc, d);
        }
    }
}

/// Balance invariant: compilation reports a missing delimiter exactly when
/// the balance pass over the source is not zero, and the reported
/// character is the close delimiter for a positive balance and the open
/// delimiter for a negative one.
pub proof fn lemma_balance_invariant(o: char, c: char, s: Seq<char>)
    ensures
        (spec_compile(o, c, s) matches Err(e) && e is MissingDelimiter) <==> spec_balance(s, o, c)
            != 0,
        spec_balance(s, o, c) > 0 ==> spec_compile(o, c, s) == Err::<Seq<DirView>, ErrView>(
            ErrView::MissingDelimiter(c),
        ),
        spec_balance(s, o, c) < 0 ==> spec_compile(o, c, s) == Err::<Seq<DirView>, ErrView>(
            ErrView::MissingDelimiter(o),
        ),
{
    if spec_balance(s, o, c) == 0 {
        if o == c {
            lemma_scan_same_balanced(s, 0, Seq::empty(), Seq::empty(), false, Seq::empty(), o);
        } else {
            lemma_scan_distinct_balanced(
                s,
                0,
                Seq::empty(),
                Seq::empty(),
                0,
                Seq::empty(),
                o,
                c,
            );
        }
    }
}

/// A plain source: ordinary characters and doubled delimiters only — no
/// backslash, no single delimiter.
pub open spec fn spec_plain(s: Seq<char>, i: int, o: char, c: char) -> bool
    decreases s.len() - i,
{
    if i < 0 || i >= s.len() {
        true
    } else if s[i] == o || s[i] == c {
        i + 1 < s.len() && s[i + 1] == s[i] && spec_plain(s, i + 2, o, c)
    } else {
        s[i] != '\\' && spec_plain(s, i + 1, o, c)
    }
}

/// A plain source with each doubled delimiter collapsed to one character.
pub open spec fn spec_collapse(s: Seq<char>, i: int, o: char, c: char) -> Seq<char>
    decreases s.len() - i,
{
    if i < 0 || i >= s.len() {
        Seq::<char>::empty()
    } else if s[i] == o || s[i] == c {
        if i + 1 < s.len() {
            seq![s[i]] + spec_collapse(s, i + 2, o, c)
        } else {
            seq![s[i]]
        }
    } else {
        seq![s[i]] + spec_collapse(s, i + 1, o, c)
    }
}

proof fn lemma_plain_balance_distinct(s: Seq<char>, i: int, o: char, c: char)
    requires
        spec_plain(s, i, o, c),
    ensures
        spec_balance_distinct(s, i, 0, o, c) == 0,
    decreases s.len() - i,
{
    if 0 <= i < s.len() {
        if s[i] == o || s[i] == c {
            lemma_plain_balance_distinct(s, i + 2, o, c);
        } else {
            lemma_plain_balance_distinct(s, i + 1, o, c);
        }
    }
}

proof fn lemma_plain_balance_same(s: Seq<char>, i: int, d: char)
    requires
        spec_plain(s, i, d, d),
    ensures
        spec_balance_same(s, i, false, d) == 0,
    decreases s.len() - i,
{
    if 0 <= i < s.len() {
        if s[i] == d {
            lemma_plain_balance_same(s, i + 2, d);
        } else {
            lemma_plain_balance_same(s, i + 1, d);
        }
    }
}

proof fn lemma_plain_scan_distinct(
    s: Seq<char>,
    i: int,
    text: Seq<char>,
    acc: Seq<DirView>,
    o: char,
    c: char,
)
    requires
        o != c,
        spec_plain(s, i, o, c),
    ensures
        spec_scan_distinct(s, i, text, Seq::empty(), 0, acc, o, c) == (if (text + spec_collapse(
            s,
            i,
            o,
            c,
        )).len() > 0 {
            Ok::<Seq<DirView>, ErrView>(acc.push(DirView::Literal(text + spec_collapse(s, i, o, c))))
        } else {
            Ok::<Seq<DirView>, ErrView>(acc)
        }),
    decreases s.len() - i,
{
    if i < 0 || i >= s.len() {
        assert(text + spec_collapse(s, i, o, c) =~= text);
    } else if s[i] == o || s[i] == c {
        lemma_plain_scan_distinct(s, i + 2, text.push(s[i]), acc, o, c);
        assert(text.push(s[i]) + spec_collapse(s, i + 2, o, c) =~= text + spec_collapse(
            s,
            i,
            o,
            c,
        ));
    } else {
        lemma_plain_scan_distinct(s, i + 1, text.push(s[i]), acc, o, c);
        assert(text.push(s[i]) + spec_collapse(s, i + 1, o, c) =~= text + spec_collapse(
            s,
            i,
            o,
            c,
        ));
    }
}

proof fn lemma_plain_scan_same(s: Seq<char>, i: int, text: Seq<char>, acc: Seq<DirView>, d: char)
    requires
        spec_plain(s, i, d, d),
    ensures
        spec_scan_same(s, i, text, Seq::empty(), false, acc, d) == (if (text + spec_collapse(
            s,
            i,
            d,
            d,
        )).len() > 0 {
            Ok::<Seq<DirView>, ErrView>(acc.push(DirView::Literal(text + spec_collapse(s, i, d, d))))
        } else {
            Ok::<Seq<DirView>, ErrView>(acc)
        }),
    decreases s.len() - i,
{
    if i < 0 || i >= s.len() {
        assert(text + spec_collapse(s, i, d, d) =~= text);
    } else if s[i] == d {
        lemma_plain_scan_same(s, i + 2, text.push(s[i]), acc, d);
        assert(text.push(s[i]) + spec_collapse(s, i + 2, d, d) =~= text + spec_collapse(
            s,
            i,
            d,
            d,
        ));
    } else {
        lemma_plain_scan_same(s, i + 1, text.push(s[i]), acc, d);
        assert(text.push(s[i]) + spec_collapse(s, i + 1, d, d) =~= text + spec_collapse(
            s,
            i,
            d,
            d,
        ));
    }
}

/// Round-trip of literal escaping: a source of ordinary text and doubled
/// delimiters compiles, and rendering it against any context reproduces
/// the source with each doubled delimiter collapsed to one character.
pub proof fn lemma_literal_round_trip(
    o: char,
    c: char,
    s: Seq<char>,
    ctx: Map<Seq<char>, ValueView>,
)
    requires
        spec_plain(s, 0, o, c),
    ensures
        spec_compile(o, c, s) is Ok,
        spec_render(spec_compile(o, c, s)->Ok_0, ctx) == Ok::<Seq<char>, ErrView>(
            spec_collapse(s, 0, o, c),
        ),
{
    let col = spec_collapse(s, 0, o, c);
    if o == c {
        lemma_plain_balance_same(s, 0, o);
        lemma_plain_scan_same(s, 0, Seq::empty(), Seq::empty(), o);
    } else {
        lemma_plain_balance_distinct(s, 0, o, c);
        lemma_plain_scan_distinct(s, 0, Seq::empty(), Seq::empty(), o, c);
    }
    assert(Seq::<char>::empty() + col =~= col);
    let parts = spec_compile(o, c, s)->Ok_0;
    if col.len() > 0 {
        assert(parts =~= Seq::<DirView>::empty().push(DirView::Literal(col)));
        assert(spec_render_parts(parts, 1, Seq::empty() + col, ctx) == Ok::<Seq<char>, ErrView>(
            Seq::empty() + col,
        ));
    } else {
        assert(parts =~= Seq::<DirView>::empty());
        assert(col =~= Seq::<char>::empty());
    }
}

/// Idempotent reuse: what a compiled template renders is a function of its
/// directives and the supplied context alone, so the same template rendered
/// twice against equal contexts yields identical output, and renders
/// against different contexts cannot affect one another.
pub proof fn lemma_render_reuse(
    parts1: Seq<DirView>,
    parts2: Seq<DirView>,
    ctx1: Map<Seq<char>, ValueView>,
    ctx2: Map<Seq<char>, ValueView>,
)
    requires
        parts1 == parts2,
        ctx1 == ctx2,
    ensures
        spec_render(parts1, ctx1) == spec_render(parts2, ctx2),
{
}

/// Repeat boundaries: zero repetitions render nothing, one renders the
/// pattern itself, and `n` repetitions have exactly `n` times the
/// pattern's length.
pub proof fn lemma_repeat_boundary(p: Seq<char>, n: nat)
    ensures
        spec_repeat(p, 0) == Seq::<char>::empty(),
        spec_repeat(p, 1) == p,
        spec_repeat(p, n).len() == n * p.len(),
    decreases n,
{
    assert(spec_repeat(p, 0) + p =~= p);
    if n == 0 {
        assert(n * p.len() == 0) by (nonlinear_arith)
            requires n == 0;
    } else {
        lemma_repeat_boundary(p, (n - 1) as nat);
        assert((n - 1) * p.len() + p.len() == n * p.len()) by (nonlinear_arith);
    }
}

/// A repeat count that is negative, or held in a value that is not an
/// integer, is a render-time error.
pub proof fn lemma_repeat_count_errors(n: Seq<char>, ctx: Map<Seq<char>, ValueView>)
    ensures
        ctx.dom().contains(n) && (ctx[n] matches ValueView::Int(i) && i < 0) ==> spec_count_of(
            ArgView::Variable(n),
            ctx,
        ) is Err,
        ctx.dom().contains(n) && !(ctx[n] is Int) ==> spec_count_of(ArgView::Variable(n), ctx)
            is Err,
{
}

/// Conditional truthiness: a false boolean and zero numeric values select
/// the false branch, any other present value selects the true branch, and
/// an absent condition variable selects the false branch without erroring.
pub proof fn lemma_conditional_truthiness(
    n: Seq<char>,
    then_v: ArgView,
    else_v: ArgView,
    ctx: Map<Seq<char>, ValueView>,
)
    ensures
        !ctx.dom().contains(n) ==> spec_exec_conditional(ArgView::Variable(n), then_v, else_v, ctx)
            == spec_fallback_text(else_v, ctx),
        ctx.dom().contains(n) && !spec_truthy(ctx[n]) ==> spec_exec_conditional(
            ArgView::Variable(n),
            then_v,
            else_v,
            ctx,
        ) == spec_fallback_text(else_v, ctx),
        ctx.dom().contains(n) && spec_truthy(ctx[n]) ==> spec_exec_conditional(
            ArgView::Variable(n),
            then_v,
            else_v,
            ctx,
        ) == spec_fallback_text(then_v, ctx),
        forall|b: bool| !spec_truthy(ValueView::Bool(b)) == !b,
        !spec_truthy(ValueView::Int(0)),
        forall|i: int| i != 0 ==> spec_truthy(ValueView::Int(i)),
{
}

/// The numeric branch of an ordering comparison orders the two texts by
/// their exact numeric value: scaling both numerals to a common number of
/// fraction places, `>` holds exactly when the first scaled value is the
/// greater, and so on for the other ordering operators.
pub proof fn lemma_numeric_comparison_by_value(ls: Seq<char>, rs: Seq<char>, k: nat)
    requires
        spec_is_numeral(ls),
        spec_is_numeral(rs),
        spec_numeral_parts(ls)->Some_0.2.len() <= k,
        spec_numeral_parts(rs)->Some_0.2.len() <= k,
    ensures
        ({
            let va = spec_numeral_scaled(spec_numeral_parts(ls)->Some_0, k);
            let vb = spec_numeral_scaled(spec_numeral_parts(rs)->Some_0, k);
            &&& spec_compare(ComparisonOp::GreaterThan, ls, rs) == (va > vb)
            &&& spec_compare(ComparisonOp::LessThan, ls, rs) == (va < vb)
            &&& spec_compare(ComparisonOp::GreaterThanEquals, ls, rs) == (va >= vb)
            &&& spec_compare(ComparisonOp::LessThanEquals, ls, rs) == (va <= vb)
        }),
{
    lemma_numeral_cmp_orders_values(ls, rs, k);
}

/// Comparison fallback: an ordering comparison is numeric exactly when
/// both resolved texts are decimal numerals, and lexicographic by
/// character otherwise.
pub proof fn lemma_comparison_fallback(ls: Seq<char>, rs: Seq<char>)
    ensures
        spec_is_numeral(ls) && spec_is_numeral(rs) ==> spec_compare(
            ComparisonOp::GreaterThan,
            ls,
            rs,
        ) == (spec_numeral_cmp(ls, rs) > 0),
        !(spec_is_numeral(ls) && spec_is_numeral(rs)) ==> spec_compare(
            ComparisonOp::GreaterThan,
            ls,
            rs,
        ) == (spec_cmp_frac(ls, rs) > 0),
        spec_is_numeral(ls) && spec_is_numeral(rs) ==> spec_compare(
            ComparisonOp::LessThan,
            ls,
            rs,
        ) == (spec_numeral_cmp(ls, rs) < 0),
        !(spec_is_numeral(ls) && spec_is_numeral(rs)) ==> spec_compare(
            ComparisonOp::LessThan,
            ls,
            rs,
        ) == (spec_cmp_frac(ls, rs) < 0),
{
}

} // verus!
