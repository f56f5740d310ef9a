//! The tacit-syntax parser: from a classified token stream to value and
//! function expressions, disambiguating token by token with no
//! backtracking. The specification functions define the grammar over
//! token views; each executable function is proved to return exactly what
//! they say.
use vstd::prelude::*;
use crate::token::{Tok, TokV, view_tok, view_tok_seq, lemma_view_tok_seq,
    B_SEP, B_FACE1, B_FACE2, B_HOUSE, B_TEN, B_MINUS_ONE, B_INF, B_BLOCK,
    B_EMPTY, B_NOTE, B_GRP2, B_GRP3, B_GRP4, B_GRP5, B_BITE2, B_BITE3,
    B_BITE4, B_BITE5};
use crate::ast::{Ve, Fe, Tg, VeV, FeV, TgV, view_ve, view_fe, view_tg,
    view_ve_seq, lemma_view_ve_seq};
use crate::val::clone_bytes;
use crate::model::{sat64, parse_acc};

verus! {

/// The unbounded arity limit: collect things until the fold stops.
pub const NO_LIMIT: usize = usize::MAX;

/// A numeric literal in the compact base-253 encoding, saturating.
pub open spec fn num253(l: Seq<u8>, acc: int) -> int
    decreases l.len(),
{
    if l.len() == 0 {
        acc
    } else {
        num253(l.subrange(1, l.len() as int), sat64(acc * 253 + l[0]))
    }
}

/// The strand of character codes a string literal stands for.
pub open spec fn str_vals(s: Seq<u8>) -> Seq<VeV> {
    Seq::new(s.len(), |i: int| VeV::Num(s[i] as int))
}

/// The value expression a single literal token stands for, if any.
pub open spec fn spec_atom_token(t: TokV) -> Option<VeV> {
    match t {
        TokV::Just(c) => if 48 <= c <= 57 {
            Option::Some(VeV::Num((c - 48) as int))
        } else if c == B_TEN {
            Option::Some(VeV::Num(10))
        } else if c == B_MINUS_ONE {
            Option::Some(VeV::Num(-1))
        } else if c == B_INF || c == B_BLOCK {
            // Infinity and the undefined literal live outside the exact
            // integer plane.
            Option::Some(VeV::Und)
        } else if c == B_EMPTY {
            Option::Some(VeV::Snd(Seq::empty()))
        } else {
            Option::None
        },
        TokV::VarVal(x) => Option::Some(VeV::Var(x)),
        TokV::Chr(x) => Option::Some(
            VeV::Num(if x <= 10 { -(x as int) } else { x as int }),
        ),
        TokV::Chr2(x, y) => Option::Some(
            VeV::Snd(seq![VeV::Num(x as int), VeV::Num(y as int)]),
        ),
        TokV::Num2(x, y) => Option::Some(VeV::Num(x * 253 + y)),
        TokV::Num3(x, y, z) => Option::Some(
            VeV::Num(x * 253 * 253 + y * 253 + z),
        ),
        TokV::Num(l) => Option::Some(VeV::Num(num253(l, 0))),
        TokV::HNum(x) => match parse_acc(x, 0) {
            // Digits parse exactly; a literal with a decimal point is not
            // integer-exact and falls to the undefined literal.
            Option::Some(n) => Option::Some(VeV::Num(n)),
            Option::None => Option::Some(VeV::Und),
        },
        TokV::Str(x) => Option::Some(VeV::Snd(str_vals(x))),
        _ => Option::None,
    }
}

/// The arity cap a value-group glyph carries, or zero.
pub open spec fn group_cap(c: u8) -> int {
    if c == B_GRP2 {
        2
    } else if c == B_GRP3 {
        3
    } else if c == B_GRP4 {
        4
    } else if c == B_GRP5 {
        5
    } else {
        0
    }
}

/// The arity cap a bite-group glyph carries, or zero.
pub open spec fn bite_cap(c: u8) -> int {
    if c == B_BITE2 {
        2
    } else if c == B_BITE3 {
        3
    } else if c == B_BITE4 {
        4
    } else if c == B_BITE5 {
        5
    } else {
        0
    }
}

/// Advance within bounds.
pub open spec fn cap_pos(p: int, len: int) -> int {
    if p <= len {
        p
    } else {
        len
    }
}

/// Parse a value at `pos`: literals, parenthesized sub-expressions,
/// the nominalize marker, and the capped groups.
pub open spec fn spec_value(code: Seq<TokV>, pos: int) -> (int, Option<VeV>)
    decreases code.len() - pos, 1int,
{
    if pos < 0 || pos >= code.len() {
        (0, Option::None)
    } else {
        match code[pos] {
            TokV::Just(40u8) => {
                let (elen, oe) = spec_expression(
                    code,
                    pos + 1,
                    NO_LIMIT as int,
                );
                let after = cap_pos(pos + 1 + elen, code.len() as int);
                let close: int = if after < code.len() && code[after]
                    == TokV::Just(41u8) {
                    1
                } else {
                    0
                };
                (
                    after - pos + close,
                    Option::Some(oe.unwrap_or(VeV::Snd(Seq::empty()))),
                )
            },
            TokV::Just(c) => if c == B_NOTE {
                let (tlen, ot) = spec_thing(code, pos + 1);
                match ot {
                    Option::Some(TgV::Ve(ev)) => (
                        tlen + 1,
                        Option::Some(VeV::Snd(seq![*ev])),
                    ),
                    Option::Some(TgV::Fe(ef)) => (
                        tlen + 1,
                        Option::Some(VeV::Nom(ef)),
                    ),
                    Option::None => (0, Option::None),
                }
            } else if group_cap(c) > 0 {
                let (elen, oe) = spec_expression(code, pos + 1, group_cap(c));
                if oe is Some {
                    (elen + 1, oe)
                } else {
                    (0, Option::None)
                }
            } else if bite_cap(c) > 0 {
                let (elen, oe) = spec_expression_bites(
                    code,
                    pos + 1,
                    bite_cap(c),
                );
                if oe is Some {
                    (elen + 1, oe)
                } else {
                    (0, Option::None)
                }
            } else {
                let p = spec_atom_token(code[pos]);
                (if p is Some { 1int } else { 0int }, p)
            },
            _ => {
                let p = spec_atom_token(code[pos]);
                (if p is Some { 1int } else { 0int }, p)
            },
        }
    }
}

/// Parse a function at `pos`: marker glyphs, assignment targets, monadic
/// adverbs, block literals, and function variables.
pub open spec fn spec_function(code: Seq<TokV>, pos: int) -> (int, Option<FeV>)
    decreases code.len() - pos, 1int,
{
    if pos < 0 || pos >= code.len() {
        (0, Option::None)
    } else {
        match code[pos] {
            TokV::Stmt(c) => if c == B_FACE1 || c == B_FACE2 || c == B_HOUSE {
                (1, Option::Some(FeV::Var(seq![c])))
            } else {
                (0, Option::None)
            },
            TokV::VarSet(v) => (1, Option::Some(FeV::SetVar(v))),
            TokV::VarAv1(name) => {
                let (tlen, ot) = spec_thing(code, pos + 1);
                match ot {
                    Option::Some(t) => (
                        tlen + 1,
                        Option::Some(FeV::Aav1 { v: name, g: Box::new(t) }),
                    ),
                    Option::None => (tlen + 1, Option::None),
                }
            },
            TokV::Just(123u8) => {
                let (bend, b) = spec_pblock(code, pos + 1);
                let after = if bend < pos + 1 {
                    pos + 1
                } else {
                    cap_pos(bend, code.len() as int)
                };
                let close: int = if after < code.len() && code[after]
                    == TokV::Just(125u8) {
                    1
                } else {
                    0
                };
                (after - pos + close, Option::Some(FeV::Dfn(b)))
            },
            TokV::VarFun(v) => (1, Option::Some(FeV::Var(v))),
            _ => (0, Option::None),
        }
    }
}

/// An atom: a value, or failing that a function.
pub open spec fn spec_atom(code: Seq<TokV>, pos: int) -> (int, Option<TgV>)
    decreases code.len() - pos, 2int,
{
    if pos < 0 || pos >= code.len() {
        (0, Option::None)
    } else {
        let (vlen, ov) = spec_value(code, pos);
        match ov {
            Option::Some(ev) => (vlen, Option::Some(TgV::Ve(Box::new(ev)))),
            Option::None => {
                let (flen, of) = spec_function(code, pos);
                match of {
                    Option::Some(ef) => (
                        flen,
                        Option::Some(TgV::Fe(Box::new(ef))),
                    ),
                    Option::None => (0, Option::None),
                }
            },
        }
    }
}

/// A thing: an atom, optionally followed by a dyadic adverb and a second
/// thing, which bind right-recursively.
pub open spec fn spec_thing(code: Seq<TokV>, pos: int) -> (int, Option<TgV>)
    decreases code.len() - pos, 3int,
{
    if pos < 0 || pos >= code.len() {
        (0, Option::None)
    } else {
        let (alen, oa) = spec_atom(code, pos);
        match oa {
            Option::None => (0, Option::None),
            Option::Some(tg) => {
                let after = cap_pos(pos + alen, code.len() as int);
                if after >= pos && after < code.len() && (code[after]
                    matches TokV::VarAv2(_)) {
                    let name = code[after]->VarAv2_0;
                    let (tlen, ot) = spec_thing(code, after + 1);
                    let g = ot.unwrap_or(TgV::Ve(Box::new(VeV::Und)));
                    (
                        after + 1 + tlen - pos,
                        Option::Some(
                            TgV::Fe(
                                Box::new(
                                    FeV::Aav2 {
                                        f: Box::new(tg),
                                        v: name,
                                        g: Box::new(g),
                                    },
                                ),
                            ),
                        ),
                    )
                } else {
                    (alen, Option::Some(tg))
                }
            },
        }
    }
}

/// A thing under a bite budget: each atom spends one bite.
pub open spec fn spec_thing_bites(code: Seq<TokV>, pos: int, bites: int) -> (
    int,
    Option<TgV>,
    int,
)
    decreases code.len() - pos, 3int,
{
    if bites <= 0 || pos < 0 || pos >= code.len() {
        (0, Option::None, 0)
    } else {
        let (alen, oa) = spec_atom(code, pos);
        match oa {
            Option::None => (0, Option::None, 0),
            Option::Some(tg) => {
                let left = bites - 1;
                if left == 0 {
                    (alen, Option::Some(tg), 0)
                } else {
                    let after = cap_pos(pos + alen, code.len() as int);
                    if after >= pos && after < code.len() && (code[after]
                        matches TokV::VarAv2(_)) {
                        let name = code[after]->VarAv2_0;
                        let (tlen, ot, b2) = spec_thing_bites(
                            code,
                            after + 1,
                            left,
                        );
                        let g = ot.unwrap_or(TgV::Ve(Box::new(VeV::Und)));
                        (
                            after + 1 + tlen - pos,
                            Option::Some(
                                TgV::Fe(
                                    Box::new(
                                        FeV::Aav2 {
                                            f: Box::new(tg),
                                            v: name,
                                            g: Box::new(g),
                                        },
                                    ),
                                ),
                            ),
                            b2,
                        )
                    } else {
                        (alen, Option::Some(tg), left)
                    }
                }
            },
        }
    }
}

/// Whether a token opens a statement boundary for the strand rule.
pub open spec fn is_stmt_tok(t: TokV) -> bool {
    t matches TokV::Stmt(_) || t matches TokV::VarSet(_)
}

/// Collect things greedily up to the limit; a bare value-thing directly
/// after a statement-boundary thing ends the expression.
pub open spec fn spec_things(
    code: Seq<TokV>,
    pos: int,
    limit: int,
    count: int,
    last_stmt: bool,
) -> (Seq<TgV>, int)
    decreases code.len() - pos, 4int,
{
    if pos < 0 || pos > code.len() || count >= limit {
        (Seq::empty(), pos)
    } else {
        let (tlen, ot) = spec_thing(code, pos);
        match ot {
            Option::None => (Seq::empty(), pos),
            Option::Some(t) => if (t matches TgV::Ve(_)) && last_stmt {
                (Seq::empty(), pos)
            } else if tlen <= 0 {
                (Seq::empty(), pos)
            } else {
                let stmt_next = pos < code.len() && is_stmt_tok(code[pos]);
                let np = cap_pos(pos + tlen, code.len() as int);
                if np > pos {
                    let (rest, end) = spec_things(
                        code,
                        np,
                        limit,
                        count + 1,
                        stmt_next,
                    );
                    (seq![t] + rest, end)
                } else {
                    (seq![t], np)
                }
            },
        }
    }
}

/// Collect things under a bite budget.
pub open spec fn spec_things_bites(
    code: Seq<TokV>,
    pos: int,
    bites: int,
    last_stmt: bool,
) -> (Seq<TgV>, int)
    decreases code.len() - pos, 4int,
{
    if pos < 0 || pos > code.len() {
        (Seq::empty(), pos)
    } else {
        let (tlen, ot, b2) = spec_thing_bites(code, pos, bites);
        match ot {
            Option::None => (Seq::empty(), pos),
            Option::Some(t) => if (t matches TgV::Ve(_)) && last_stmt {
                (Seq::empty(), pos)
            } else if tlen <= 0 {
                (Seq::empty(), pos)
            } else {
                let stmt_next = pos < code.len() && is_stmt_tok(code[pos]);
                let np = cap_pos(pos + tlen, code.len() as int);
                if np > pos {
                    let (rest, end) = spec_things_bites(
                        code,
                        np,
                        b2,
                        stmt_next,
                    );
                    (seq![t] + rest, end)
                } else {
                    (seq![t], np)
                }
            },
        }
    }
}

/// Pad a capped collection up to its arity with its last thing (or the
/// undefined literal when empty).
pub open spec fn pad_things(things: Seq<TgV>, limit: int) -> Seq<TgV>
    decreases limit - things.len(),
{
    if things.len() >= limit {
        things
    } else {
        let filler = if things.len() == 0 {
            TgV::Ve(Box::new(VeV::Und))
        } else {
            things.last()
        };
        pad_things(things.push(filler), limit)
    }
}

/// The end of the maximal run of value-things from `i`.
pub open spec fn strand_end(things: Seq<TgV>, i: int) -> int
    decreases things.len() - i,
{
    if i < 0 || i >= things.len() {
        things.len() as int
    } else if things[i] matches TgV::Ve(_) {
        strand_end(things, i + 1)
    } else {
        i
    }
}

/// The value payloads of things in `i..j`.
pub open spec fn strand_vals(things: Seq<TgV>, i: int, j: int) -> Seq<VeV>
    decreases j - i,
{
    if i < 0 || i >= j || j > things.len() {
        Seq::empty()
    } else {
        let head = match things[i] {
            TgV::Ve(v) => seq![*v],
            TgV::Fe(_) => Seq::empty(),
        };
        head + strand_vals(things, i + 1, j)
    }
}

/// A maximal run of value-things folded into one value: the single value
/// when the run has length one, a strand otherwise, nothing when empty.
pub open spec fn spec_strand(things: Seq<TgV>, i: int) -> (Option<VeV>, int) {
    let j = strand_end(things, i);
    if j <= i {
        (Option::None, i)
    } else if j == i + 1 {
        (Option::Some(strand_vals(things, i, j)[0]), j)
    } else {
        (Option::Some(VeV::Snd(strand_vals(things, i, j))), j)
    }
}

/// Fold function applications left to right: each function-thing applies
/// monadically, or dyadically when a strand follows.
pub open spec fn spec_fold_apply(things: Seq<TgV>, i: int, acc: VeV) -> VeV
    decreases things.len() - i,
{
    if i < 0 || i >= things.len() {
        acc
    } else {
        match things[i] {
            TgV::Fe(ef) => {
                let (ob, j) = spec_strand(things, i + 1);
                let acc2 = match ob {
                    Option::Some(bv) => VeV::Afn2 {
                        a: Box::new(acc),
                        f: ef,
                        b: Box::new(bv),
                    },
                    Option::None => VeV::Afn1 { a: Box::new(acc), f: ef },
                };
                if j > i && j <= things.len() {
                    spec_fold_apply(things, j, acc2)
                } else {
                    acc2
                }
            },
            TgV::Ve(_) => acc,
        }
    }
}

/// Fold a train chain: each further function composes as a 2-train, or
/// with a strand as a dyadic fork.
pub open spec fn spec_fold_train(things: Seq<TgV>, i: int, acc: FeV) -> FeV
    decreases things.len() - i,
{
    if i < 0 || i >= things.len() {
        acc
    } else {
        match things[i] {
            TgV::Fe(ef) => {
                let (ob, j) = spec_strand(things, i + 1);
                let acc2 = match ob {
                    Option::Some(bv) => FeV::Trn2 {
                        a: Box::new(acc),
                        f: ef,
                        b: Box::new(bv),
                    },
                    Option::None => FeV::Trn1 { a: Box::new(acc), f: ef },
                };
                if j > i && j <= things.len() {
                    spec_fold_train(things, j, acc2)
                } else {
                    acc2
                }
            },
            TgV::Ve(_) => acc,
        }
    }
}

/// Fold a collected sequence of things into one value expression: a
/// leading strand starts an application chain; a leading function starts
/// a train, optionally bound to a trailing strand.
pub open spec fn spec_things_to_expr(things: Seq<TgV>) -> Option<VeV> {
    let (os, j) = spec_strand(things, 0);
    match os {
        Option::Some(start) => Option::Some(spec_fold_apply(things, j, start)),
        Option::None => if things.len() == 0 {
            Option::None
        } else {
            match things[0] {
                TgV::Fe(ef) => {
                    let (ob, j2) = spec_strand(things, 1);
                    let start = match ob {
                        Option::Some(bv) => FeV::Bind {
                            f: ef,
                            b: Box::new(bv),
                        },
                        Option::None => *ef,
                    };
                    Option::Some(
                        VeV::Nom(Box::new(spec_fold_train(things, j2, start))),
                    )
                },
                TgV::Ve(_) => Option::None,
            }
        },
    }
}

/// An expression: collect things, pad under a cap, fold.
pub open spec fn spec_expression(code: Seq<TokV>, pos: int, limit: int) -> (
    int,
    Option<VeV>,
)
    decreases code.len() - pos, 5int,
{
    let (things, end) = spec_things(code, pos, limit, 0, false);
    let padded = if limit != NO_LIMIT as int {
        pad_things(things, limit)
    } else {
        things
    };
    let oe = spec_things_to_expr(padded);
    (if oe is Some { end - pos } else { 0 }, oe)
}

/// An expression under a bite budget.
pub open spec fn spec_expression_bites(
    code: Seq<TokV>,
    pos: int,
    bites: int,
) -> (int, Option<VeV>)
    decreases code.len() - pos, 5int,
{
    let (things, end) = spec_things_bites(code, pos, bites, false);
    let oe = spec_things_to_expr(things);
    (if oe is Some { end - pos } else { 0 }, oe)
}

/// Skip statement separators.
pub open spec fn spec_sep_skip(code: Seq<TokV>, pos: int) -> int
    decreases code.len() - pos, 0int,
{
    if 0 <= pos < code.len() && code[pos] == TokV::Just(B_SEP) {
        spec_sep_skip(code, pos + 1)
    } else {
        cap_pos(if pos < 0 { 0 } else { pos }, code.len() as int)
    }
}

/// A block: expressions separated by statement separators, until no
/// further expression parses.
pub open spec fn spec_pblock(code: Seq<TokV>, pos: int) -> (int, Seq<VeV>)
    decreases code.len() - pos, 6int,
{
    if pos < 0 || pos > code.len() {
        (cap_pos(if pos < 0 { 0 } else { pos }, code.len() as int), Seq::empty())
    } else {
        let p0 = spec_sep_skip(code, pos);
        let p1 = if p0 < pos {
            pos
        } else {
            cap_pos(p0, code.len() as int)
        };
        let (elen, oe) = spec_expression(code, p1, NO_LIMIT as int);
        let np = cap_pos(p1 + elen, code.len() as int);
        match oe {
            Option::Some(e) => if elen > 0 && np > pos {
                let (end, rest) = spec_pblock(code, np);
                (end, seq![e] + rest)
            } else {
                (p1, seq![e])
            },
            Option::None => (p1, Seq::empty()),
        }
    }
}

} // verus!

verus! {

/// The view of an optional value expression.
pub open spec fn view_opt_ve(o: Option<Ve>) -> Option<VeV> {
    match o {
        Option::Some(e) => Option::Some(view_ve(e)),
        Option::None => Option::None,
    }
}

/// The view of an optional function expression.
pub open spec fn view_opt_fe(o: Option<Fe>) -> Option<FeV> {
    match o {
        Option::Some(e) => Option::Some(view_fe(e)),
        Option::None => Option::None,
    }
}

/// The view of an optional thing.
pub open spec fn view_opt_tg(o: Option<Tg>) -> Option<TgV> {
    match o {
        Option::Some(e) => Option::Some(view_tg(e)),
        Option::None => Option::None,
    }
}

/// Bounded advance.
fn add_cap(base: usize, extra: usize, len: usize) -> (r: usize)
    requires
        base <= len,
    ensures
        r as int == cap_pos(base + extra, len as int),
        base <= r <= len,
{
    if extra <= len - base {
        base + extra
    } else {
        len
    }
}

/// Decode a base-253 numeral from position `i`, saturating.
fn num253_x(l: &Vec<u8>, i: usize, acc: i64) -> (r: i64)
    requires
        i <= l@.len(),
    ensures
        r as int == num253(l@.subrange(i as int, l@.len() as int), acc as int),
    decreases l@.len() - i,
{
    if i == l.len() {
        proof {
            assert(l@.subrange(i as int, l@.len() as int) =~= Seq::empty());
        }
        acc
    } else {
        let next = crate::intrn::sat_i128(
            acc as i128 * 253 + l[i] as i128,
        );
        proof {
            let sub = l@.subrange(i as int, l@.len() as int);
            assert(sub[0] == l@[i as int]);
            assert(sub.subrange(1, sub.len() as int) =~= l@.subrange(
                i + 1,
                l@.len() as int,
            ));
        }
        num253_x(l, i + 1, next)
    }
}

/// The value expression a single literal token stands for, if any.
fn atom_token_x(t: &Tok) -> (r: Option<Ve>)
    ensures
        view_opt_ve(r) == spec_atom_token(t@),
{
    match t {
        Tok::Just(c) => {
            if 48 <= *c && *c <= 57 {
                Option::Some(Ve::Num((*c - 48) as i64))
            } else if *c == B_TEN {
                Option::Some(Ve::Num(10))
            } else if *c == B_MINUS_ONE {
                Option::Some(Ve::Num(-1))
            } else if *c == B_INF || *c == B_BLOCK {
                Option::Some(Ve::Und)
            } else if *c == B_EMPTY {
                let l0: Vec<Ve> = Vec::new();
                let ghost gl = l0@;
                let r = Ve::Snd(l0);
                proof {
                    lemma_view_ve_seq(gl);
                    assert(view_ve_seq(gl) =~= Seq::<VeV>::empty());
                    assert(view_ve(r) =~~= VeV::Snd(Seq::empty()));
                }
                Option::Some(r)
            } else {
                Option::None
            }
        },
        Tok::VarVal(x) => Option::Some(Ve::Var(clone_bytes(x))),
        Tok::Chr(x) => Option::Some(
            Ve::Num(if *x <= 10 { -(*x as i64) } else { *x as i64 }),
        ),
        Tok::Chr2(x, y) => {
            let mut l: Vec<Ve> = Vec::new();
            l.push(Ve::Num(*x as i64));
            l.push(Ve::Num(*y as i64));
            let ghost gl = l@;
            let r = Ve::Snd(l);
            proof {
                lemma_view_ve_seq(gl);
                assert(view_ve_seq(gl) =~= seq![
                    VeV::Num(*x as int),
                    VeV::Num(*y as int),
                ]);
                assert(view_ve(r) =~~= VeV::Snd(
                    seq![VeV::Num(*x as int), VeV::Num(*y as int)],
                ));
            }
            Option::Some(r)
        },
        Tok::Num2(x, y) => Option::Some(
            Ve::Num((*x as i64) * 253 + (*y as i64)),
        ),
        Tok::Num3(x, y, z) => Option::Some(
            Ve::Num((*x as i64) * 253 * 253 + (*y as i64) * 253 + (*z as i64)),
        ),
        Tok::Num(l) => {
            proof {
                assert(l@.subrange(0, l@.len() as int) =~= l@);
            }
            Option::Some(Ve::Num(num253_x(l, 0, 0)))
        },
        Tok::HNum(x) => match crate::intrn::parse_acc_x(x, 0, 0) {
            Option::Some(n) => {
                proof {
                    assert(x@.subrange(0, x@.len() as int) =~= x@);
                }
                Option::Some(Ve::Num(n))
            },
            Option::None => {
                proof {
                    assert(x@.subrange(0, x@.len() as int) =~= x@);
                }
                Option::Some(Ve::Und)
            },
        },
        Tok::Str(x) => {
            let mut l: Vec<Ve> = Vec::new();
            let mut i: usize = 0;
            while i < x.len()
                invariant
                    i <= x@.len(),
                    l@.len() == i,
                    forall|j: int|
                        0 <= j < i ==> #[trigger] view_ve(l@[j]) == VeV::Num(
                            x@[j] as int,
                        ),
                decreases x@.len() - i,
            {
                l.push(Ve::Num(x[i] as i64));
                i += 1;
            }
            let ghost gl = l@;
            let r = Ve::Snd(l);
            proof {
                lemma_view_ve_seq(gl);
                assert(view_ve_seq(gl) =~= str_vals(x@));
                assert(view_ve(r) =~~= VeV::Snd(str_vals(x@)));
            }
            Option::Some(r)
        },
        _ => Option::None,
    }
}

/// The arity cap a value-group glyph carries, or zero.
fn group_cap_x(c: u8) -> (r: usize)
    ensures
        r as int == group_cap(c),
{
    if c == B_GRP2 {
        2
    } else if c == B_GRP3 {
        3
    } else if c == B_GRP4 {
        4
    } else if c == B_GRP5 {
        5
    } else {
        0
    }
}

/// The arity cap a bite-group glyph carries, or zero.
fn bite_cap_x(c: u8) -> (r: usize)
    ensures
        r as int == bite_cap(c),
{
    if c == B_BITE2 {
        2
    } else if c == B_BITE3 {
        3
    } else if c == B_BITE4 {
        4
    } else if c == B_BITE5 {
        5
    } else {
        0
    }
}

} // verus!

verus! {

/// Parse a value at `pos`.
#[verifier::rlimit(100)]
#[verifier::spinoff_prover]
fn value_x(code: &Vec<Tok>, pos: usize) -> (r: (usize, Option<Ve>))
    requires
        pos <= code@.len(),
    ensures
        ({
            let (n, oe) = spec_value(view_tok_seq(code@), pos as int);
            r.0 as int == n && view_opt_ve(r.1) == oe
        }),
        pos + r.0 <= code@.len(),
    decreases code@.len() - pos, 1int,
{
    proof {
        lemma_view_tok_seq(code@);
    }
    let len = code.len();
    if pos >= len {
        return (0, Option::None);
    }
    match &code[pos] {
        Tok::Just(c0) => {
            let c = *c0;
            if c == 40u8 {
                let (elen, oe) = expression_at(code, pos + 1, NO_LIMIT);
                let after = add_cap(pos + 1, elen, len);
                let close: usize = if after < len && tok_is_just(
                    &code[after],
                    41u8,
                ) {
                    1
                } else {
                    0
                };
                (
                    after - pos + close,
                    Option::Some(match oe {
                        Option::Some(e) => e,
                        Option::None => {
                            let l0: Vec<Ve> = Vec::new();
                            let ghost gl = l0@;
                            let e = Ve::Snd(l0);
                            proof {
                                lemma_view_ve_seq(gl);
                                assert(view_ve(e) =~~= VeV::Snd(
                                    Seq::empty(),
                                ));
                            }
                            e
                        },
                    }),
                )
            } else if c == B_NOTE {
                let (tlen, ot) = thing_x(code, pos + 1);
                match ot {
                    Option::Some(Tg::Ve(ev)) => {
                        let ghost gev = view_ve(ev);
                        let mut l: Vec<Ve> = Vec::new();
                        l.push(ev);
                        let ghost gl = l@;
                        let e = Ve::Snd(l);
                        proof {
                            lemma_view_ve_seq(gl);
                            assert(view_ve_seq(gl) =~= seq![gev]);
                            assert(view_ve(e) =~~= VeV::Snd(seq![gev]));
                        }
                        (tlen + 1, Option::Some(e))
                    },
                    Option::Some(Tg::Fe(ef)) => (
                        tlen + 1,
                        Option::Some(Ve::Nom(ef)),
                    ),
                    Option::None => (0, Option::None),
                }
            } else if group_cap_x(c) > 0 {
                let cap = group_cap_x(c);
                let (elen, oe) = expression_at(code, pos + 1, cap);
                if oe.is_some() {
                    (elen + 1, oe)
                } else {
                    (0, Option::None)
                }
            } else if bite_cap_x(c) > 0 {
                let cap = bite_cap_x(c);
                let (elen, oe) = expression_bites_at(code, pos + 1, cap);
                if oe.is_some() {
                    (elen + 1, oe)
                } else {
                    (0, Option::None)
                }
            } else {
                let p = atom_token_x(&code[pos]);
                let n: usize = if p.is_some() {
                    1
                } else {
                    0
                };
                (n, p)
            }
        },
        _ => {
            let p = atom_token_x(&code[pos]);
            let n: usize = if p.is_some() {
                1
            } else {
                0
            };
            (n, p)
        },
    }
}

/// Whether a token is the given bare glyph.
fn tok_is_just(t: &Tok, c: u8) -> (r: bool)
    ensures
        r == (t@ == TokV::Just(c)),
{
    match t {
        Tok::Just(x) => *x == c,
        _ => false,
    }
}

/// Parse a function at `pos`.
#[verifier::rlimit(100)]
#[verifier::spinoff_prover]
fn function_x(code: &Vec<Tok>, pos: usize) -> (r: (usize, Option<Fe>))
    requires
        pos <= code@.len(),
    ensures
        ({
            let (n, oe) = spec_function(view_tok_seq(code@), pos as int);
            r.0 as int == n && view_opt_fe(r.1) == oe
        }),
        pos + r.0 <= code@.len(),
    decreases code@.len() - pos, 1int,
{
    proof {
        lemma_view_tok_seq(code@);
    }
    let len = code.len();
    if pos >= len {
        return (0, Option::None);
    }
    match &code[pos] {
        Tok::Stmt(c0) => {
            let c = *c0;
            if c == B_FACE1 || c == B_FACE2 || c == B_HOUSE {
                let mut nm: Vec<u8> = Vec::new();
                nm.push(c);
                let e = Fe::Var(nm);
                proof {
                    assert(view_fe(e) =~~= FeV::Var(seq![c]));
                }
                (1, Option::Some(e))
            } else {
                (0, Option::None)
            }
        },
        Tok::VarSet(v) => (1, Option::Some(Fe::SetVar(clone_bytes(v)))),
        Tok::VarAv1(name) => {
            let (tlen, ot) = thing_x(code, pos + 1);
            match ot {
                Option::Some(t) => (
                    tlen + 1,
                    Option::Some(
                        Fe::Aav1 { v: clone_bytes(name), g: Box::new(t) },
                    ),
                ),
                Option::None => (tlen + 1, Option::None),
            }
        },
        Tok::Just(c0) if *c0 == 123u8 => {
            let (bend, b) = pblock_at(code, pos + 1);
            let after: usize = if bend < pos + 1 {
                pos + 1
            } else if bend <= len {
                bend
            } else {
                len
            };
            let close: usize = if after < len && tok_is_just(
                &code[after],
                125u8,
            ) {
                1
            } else {
                0
            };
            (after - pos + close, Option::Some(Fe::Dfn(b)))
        },
        Tok::VarFun(v) => (1, Option::Some(Fe::Var(clone_bytes(v)))),
        _ => (0, Option::None),
    }
}

/// An atom: a value, or failing that a function.
fn atom_x(code: &Vec<Tok>, pos: usize) -> (r: (usize, Option<Tg>))
    requires
        pos <= code@.len(),
    ensures
        ({
            let (n, ot) = spec_atom(view_tok_seq(code@), pos as int);
            r.0 as int == n && view_opt_tg(r.1) == ot
        }),
        pos + r.0 <= code@.len(),
    decreases code@.len() - pos, 2int,
{
    proof {
        lemma_view_tok_seq(code@);
    }
    if pos >= code.len() {
        return (0, Option::None);
    }
    let (vlen, ov) = value_x(code, pos);
    match ov {
        Option::Some(ev) => (vlen, Option::Some(Tg::Ve(ev))),
        Option::None => {
            let (flen, of) = function_x(code, pos);
            match of {
                Option::Some(ef) => (flen, Option::Some(Tg::Fe(ef))),
                Option::None => (0, Option::None),
            }
        },
    }
}

/// A thing: an atom, optionally followed by a dyadic adverb.
fn thing_x(code: &Vec<Tok>, pos: usize) -> (r: (usize, Option<Tg>))
    requires
        pos <= code@.len(),
    ensures
        ({
            let (n, ot) = spec_thing(view_tok_seq(code@), pos as int);
            r.0 as int == n && view_opt_tg(r.1) == ot
        }),
        pos + r.0 <= code@.len(),
    decreases code@.len() - pos, 3int,
{
    proof {
        lemma_view_tok_seq(code@);
    }
    let len = code.len();
    if pos >= len {
        return (0, Option::None);
    }
    let (alen, oa) = atom_x(code, pos);
    match oa {
        Option::None => (0, Option::None),
        Option::Some(tg) => {
            let after = add_cap(pos, alen, len);
            let is_av2 = after < len && (match &code[after] {
                Tok::VarAv2(_) => true,
                _ => false,
            });
            if is_av2 {
                let name = match &code[after] {
                    Tok::VarAv2(n) => clone_bytes(n),
                    _ => Vec::new(),
                };
                let (tlen, ot) = thing_x(code, after + 1);
                let g = match ot {
                    Option::Some(t) => t,
                    Option::None => Tg::Ve(Ve::Und),
                };
                let r = Tg::Fe(
                    Fe::Aav2 {
                        f: Box::new(tg),
                        v: name,
                        g: Box::new(g),
                    },
                );
                ((after + 1 + tlen) - pos, Option::Some(r))
            } else {
                (alen, Option::Some(tg))
            }
        },
    }
}

/// A thing under a bite budget.
fn thing_bites_x(code: &Vec<Tok>, pos: usize, bites: usize) -> (r: (
    usize,
    Option<Tg>,
    usize,
))
    requires
        pos <= code@.len(),
    ensures
        ({
            let (n, ot, b2) = spec_thing_bites(
                view_tok_seq(code@),
                pos as int,
                bites as int,
            );
            r.0 as int == n && view_opt_tg(r.1) == ot && r.2 as int == b2
        }),
        pos + r.0 <= code@.len(),
    decreases code@.len() - pos, 3int,
{
    proof {
        lemma_view_tok_seq(code@);
    }
    let len = code.len();
    if bites == 0 || pos >= len {
        return (0, Option::None, 0);
    }
    let (alen, oa) = atom_x(code, pos);
    match oa {
        Option::None => (0, Option::None, 0),
        Option::Some(tg) => {
            let left = bites - 1;
            if left == 0 {
                (alen, Option::Some(tg), 0)
            } else {
                let after = add_cap(pos, alen, len);
                let is_av2 = after < len && (match &code[after] {
                    Tok::VarAv2(_) => true,
                    _ => false,
                });
                if is_av2 {
                    let name = match &code[after] {
                        Tok::VarAv2(n) => clone_bytes(n),
                        _ => Vec::new(),
                    };
                    let (tlen, ot, b2) = thing_bites_x(code, after + 1, left);
                    let g = match ot {
                        Option::Some(t) => t,
                        Option::None => Tg::Ve(Ve::Und),
                    };
                    let r = Tg::Fe(
                        Fe::Aav2 {
                            f: Box::new(tg),
                            v: name,
                            g: Box::new(g),
                        },
                    );
                    ((after + 1 + tlen) - pos, Option::Some(r), b2)
                } else {
                    (alen, Option::Some(tg), left)
                }
            }
        },
    }
}

} // verus!

verus! {

/// Collect things greedily up to the limit.
fn things_x(
    code: &Vec<Tok>,
    pos: usize,
    limit: usize,
    count: usize,
    last_stmt: bool,
) -> (r: (Vec<Tg>, usize))
    requires
        pos <= code@.len(),
    ensures
        ({
            let (ts, end) = spec_things(
                view_tok_seq(code@),
                pos as int,
                limit as int,
                count as int,
                last_stmt,
            );
            crate::ast::view_tg_seq(r.0@) == ts && r.1 as int == end
        }),
        pos <= r.1 <= code@.len(),
    decreases code@.len() - pos, 4int,
{
    proof {
        lemma_view_tok_seq(code@);
    }
    let len = code.len();
    if count >= limit {
        let out: Vec<Tg> = Vec::new();
        proof {
            assert(crate::ast::view_tg_seq(out@) =~= Seq::<TgV>::empty());
        }
        return (out, pos);
    }
    let (tlen, ot) = thing_x(code, pos);
    match ot {
        Option::None => {
            let out: Vec<Tg> = Vec::new();
            proof {
                assert(crate::ast::view_tg_seq(out@) =~= Seq::<TgV>::empty());
            }
            (out, pos)
        },
        Option::Some(t) => {
            let t_is_ve = match &t {
                Tg::Ve(_) => true,
                Tg::Fe(_) => false,
            };
            if t_is_ve && last_stmt {
                let out: Vec<Tg> = Vec::new();
                proof {
                    assert(crate::ast::view_tg_seq(out@) =~= Seq::<
                        TgV,
                    >::empty());
                }
                (out, pos)
            } else if tlen == 0 {
                let out: Vec<Tg> = Vec::new();
                proof {
                    assert(crate::ast::view_tg_seq(out@) =~= Seq::<
                        TgV,
                    >::empty());
                }
                (out, pos)
            } else {
                let stmt_next = pos < len && (match &code[pos] {
                    Tok::Stmt(_) => true,
                    Tok::VarSet(_) => true,
                    _ => false,
                });
                let np = add_cap(pos, tlen, len);
                if np > pos {
                    let (rest, end) = things_x(
                        code,
                        np,
                        limit,
                        count + 1,
                        stmt_next,
                    );
                    let ghost gt = view_tg(t);
                    let ghost grestv = rest@;
                    let ghost grest = crate::ast::view_tg_seq(rest@);
                    let mut out: Vec<Tg> = Vec::new();
                    out.push(t);
                    let mut rest2 = rest;
                    out.append(&mut rest2);
                    proof {
                        crate::ast::lemma_view_tg_seq(out@);
                        crate::ast::lemma_view_tg_seq(grestv);
                        assert(crate::ast::view_tg_seq(out@) =~= seq![gt]
                            + grest);
                    }
                    (out, end)
                } else {
                    let mut out: Vec<Tg> = Vec::new();
                    out.push(t);
                    let ghost gt = view_tg(t);
                    proof {
                        crate::ast::lemma_view_tg_seq(out@);
                        assert(crate::ast::view_tg_seq(out@) =~= seq![gt]);
                    }
                    (out, np)
                }
            }
        },
    }
}

/// Collect things under a bite budget.
fn things_bites_x(
    code: &Vec<Tok>,
    pos: usize,
    bites: usize,
    last_stmt: bool,
) -> (r: (Vec<Tg>, usize))
    requires
        pos <= code@.len(),
    ensures
        ({
            let (ts, end) = spec_things_bites(
                view_tok_seq(code@),
                pos as int,
                bites as int,
                last_stmt,
            );
            crate::ast::view_tg_seq(r.0@) == ts && r.1 as int == end
        }),
        pos <= r.1 <= code@.len(),
    decreases code@.len() - pos, 4int,
{
    proof {
        lemma_view_tok_seq(code@);
    }
    let len = code.len();
    let (tlen, ot, b2) = thing_bites_x(code, pos, bites);
    match ot {
        Option::None => {
            let out: Vec<Tg> = Vec::new();
            proof {
                assert(crate::ast::view_tg_seq(out@) =~= Seq::<TgV>::empty());
            }
            (out, pos)
        },
        Option::Some(t) => {
            let t_is_ve = match &t {
                Tg::Ve(_) => true,
                Tg::Fe(_) => false,
            };
            if t_is_ve && last_stmt {
                let out: Vec<Tg> = Vec::new();
                proof {
                    assert(crate::ast::view_tg_seq(out@) =~= Seq::<
                        TgV,
                    >::empty());
                }
                (out, pos)
            } else if tlen == 0 {
                let out: Vec<Tg> = Vec::new();
                proof {
                    assert(crate::ast::view_tg_seq(out@) =~= Seq::<
                        TgV,
                    >::empty());
                }
                (out, pos)
            } else {
                let stmt_next = pos < len && (match &code[pos] {
                    Tok::Stmt(_) => true,
                    Tok::VarSet(_) => true,
                    _ => false,
                });
                let np = add_cap(pos, tlen, len);
                if np > pos {
                    let (rest, end) = things_bites_x(code, np, b2, stmt_next);
                    let ghost gt = view_tg(t);
                    let ghost grestv = rest@;
                    let ghost grest = crate::ast::view_tg_seq(rest@);
                    let mut out: Vec<Tg> = Vec::new();
                    out.push(t);
                    let mut rest2 = rest;
                    out.append(&mut rest2);
                    proof {
                        crate::ast::lemma_view_tg_seq(out@);
                        crate::ast::lemma_view_tg_seq(grestv);
                        assert(crate::ast::view_tg_seq(out@) =~= seq![gt]
                            + grest);
                    }
                    (out, end)
                } else {
                    let mut out: Vec<Tg> = Vec::new();
                    out.push(t);
                    let ghost gt = view_tg(t);
                    proof {
                        crate::ast::lemma_view_tg_seq(out@);
                        assert(crate::ast::view_tg_seq(out@) =~= seq![gt]);
                    }
                    (out, np)
                }
            }
        },
    }
}

/// Pad a capped collection up to its arity.
fn pad_x(things: Vec<Tg>, limit: usize) -> (r: Vec<Tg>)
    ensures
        crate::ast::view_tg_seq(r@) == pad_things(
            crate::ast::view_tg_seq(things@),
            limit as int,
        ),
    decreases limit,
{
    let mut out = things;
    while out.len() < limit
        invariant
            pad_things(crate::ast::view_tg_seq(out@), limit as int)
                == pad_things(
                crate::ast::view_tg_seq(things@),
                limit as int,
            ),
        decreases limit - out.len(),
    {
        proof {
            crate::ast::lemma_view_tg_seq(out@);
        }
        let filler: Tg = if out.len() == 0 {
            Tg::Ve(Ve::Und)
        } else {
            crate::eval::dup_tg(&out[out.len() - 1])
        };
        let ghost before = out@;
        let ghost gf = view_tg(filler);
        out.push(filler);
        proof {
            crate::ast::lemma_view_tg_seq(out@);
            crate::ast::lemma_view_tg_seq(before);
            assert(out@.subrange(0, out@.len() - 1) =~= before);
            assert(crate::ast::view_tg_seq(out@) =~= crate::ast::view_tg_seq(
                before,
            ).push(gf));
            if before.len() == 0 {
                assert(gf == TgV::Ve(Box::new(VeV::Und)));
            } else {
                assert(gf == crate::ast::view_tg_seq(before).last());
            }
        }
    }
    proof {
        crate::ast::lemma_view_tg_seq(out@);
    }
    out
}

} // verus!

verus! {

/// The end of the maximal run of value-things from `i`.
fn strand_end_x(things: &Vec<Tg>, i: usize) -> (r: usize)
    requires
        i <= things@.len(),
    ensures
        r as int == strand_end(crate::ast::view_tg_seq(things@), i as int),
        i <= r <= things@.len(),
    decreases things@.len() - i,
{
    proof {
        crate::ast::lemma_view_tg_seq(things@);
    }
    if i >= things.len() {
        return things.len();
    }
    let is_ve = match &things[i] {
        Tg::Ve(_) => true,
        Tg::Fe(_) => false,
    };
    if is_ve {
        strand_end_x(things, i + 1)
    } else {
        i
    }
}

/// The value payloads of things in `i..j`.
fn strand_vals_x(things: &Vec<Tg>, i: usize, j: usize) -> (r: Vec<Ve>)
    requires
        j <= things@.len(),
    ensures
        view_ve_seq(r@) == strand_vals(
            crate::ast::view_tg_seq(things@),
            i as int,
            j as int,
        ),
    decreases (j as int) - (i as int),
{
    proof {
        crate::ast::lemma_view_tg_seq(things@);
    }
    if i >= j {
        let out: Vec<Ve> = Vec::new();
        proof {
            assert(view_ve_seq(out@) =~= Seq::<VeV>::empty());
        }
        return out;
    }
    let rest = strand_vals_x(things, i + 1, j);
    match &things[i] {
        Tg::Ve(v) => {
            let e = crate::eval::dup_ve(v);
            let ghost ge = view_ve(e);
            let ghost grestv = rest@;
            let ghost grest = view_ve_seq(rest@);
            let mut out: Vec<Ve> = Vec::new();
            out.push(e);
            let mut rest2 = rest;
            out.append(&mut rest2);
            proof {
                lemma_view_ve_seq(out@);
                lemma_view_ve_seq(grestv);
                assert(view_ve_seq(out@) =~= seq![ge] + grest);
            }
            out
        },
        Tg::Fe(_) => {
            proof {
                lemma_view_ve_seq(rest@);
            }
            rest
        },
    }
}

/// A maximal run of value-things folded into one value.
fn strand_x(things: &Vec<Tg>, i: usize) -> (r: (Option<Ve>, usize))
    requires
        i <= things@.len(),
    ensures
        ({
            let (oe, j) = spec_strand(
                crate::ast::view_tg_seq(things@),
                i as int,
            );
            view_opt_ve(r.0) == oe && r.1 as int == j
        }),
        i <= r.1 <= things@.len(),
{
    proof {
        crate::ast::lemma_view_tg_seq(things@);
    }
    let j = strand_end_x(things, i);
    if j <= i {
        (Option::None, i)
    } else {
        let mut vals = strand_vals_x(things, i, j);
        proof {
            lemma_view_ve_seq(vals@);
            lemma_strand_end_ve(crate::ast::view_tg_seq(things@), i as int);
            lemma_strand_vals_len(
                crate::ast::view_tg_seq(things@),
                i as int,
                j as int,
            );
        }
        if j == i + 1 {
            let first = match vals.remove(0) {
                e => e,
            };
            (Option::Some(first), j)
        } else {
            let ghost gv = vals@;
            let e = Ve::Snd(vals);
            proof {
                lemma_view_ve_seq(gv);
                assert(view_ve(e) =~~= VeV::Snd(
                    strand_vals(
                        crate::ast::view_tg_seq(things@),
                        i as int,
                        j as int,
                    ),
                ));
            }
            (Option::Some(e), j)
        }
    }
}

} // verus!

verus! {

/// Inside a value run, the collected payloads count one per position.
proof fn lemma_strand_vals_len(things: Seq<TgV>, i: int, j: int)
    requires
        0 <= i,
        j <= things.len(),
        forall|k: int|
            i <= k < j ==> #[trigger] things[k] matches TgV::Ve(_),
    ensures
        strand_vals(things, i, j).len() == if i < j {
            j - i
        } else {
            0
        },
    decreases j - i,
{
    if 0 <= i < j {
        lemma_strand_vals_len(things, i + 1, j);
    }
}

/// Every position before the strand end holds a value-thing.
proof fn lemma_strand_end_ve(things: Seq<TgV>, i: int)
    requires
        0 <= i,
    ensures
        forall|k: int|
            i <= k < strand_end(things, i) ==> #[trigger] things[k]
                matches TgV::Ve(_),
        i <= things.len() ==> i <= strand_end(things, i) <= things.len(),
    decreases things.len() - i,
{
    if 0 <= i < things.len() {
        if things[i] matches TgV::Ve(_) {
            lemma_strand_end_ve(things, i + 1);
        }
    }
}

} // verus!

verus! {

/// Fold function applications left to right.
fn fold_apply_x(things: &Vec<Tg>, i: usize, acc: Ve) -> (r: Ve)
    requires
        i <= things@.len(),
    ensures
        view_ve(r) == spec_fold_apply(
            crate::ast::view_tg_seq(things@),
            i as int,
            view_ve(acc),
        ),
    decreases things@.len() - i,
{
    proof {
        crate::ast::lemma_view_tg_seq(things@);
    }
    if i >= things.len() {
        return acc;
    }
    match &things[i] {
        Tg::Fe(ef) => {
            let (ob, j) = strand_x(things, i + 1);
            let f = crate::eval::dup_fe(ef);
            let acc2 = match ob {
                Option::Some(bv) => Ve::Afn2 {
                    a: Box::new(acc),
                    f,
                    b: Box::new(bv),
                },
                Option::None => Ve::Afn1 { a: Box::new(acc), f },
            };
            if j > i && j <= things.len() {
                fold_apply_x(things, j, acc2)
            } else {
                acc2
            }
        },
        Tg::Ve(_) => acc,
    }
}

/// Fold a train chain.
fn fold_train_x(things: &Vec<Tg>, i: usize, acc: Fe) -> (r: Fe)
    requires
        i <= things@.len(),
    ensures
        view_fe(r) == spec_fold_train(
            crate::ast::view_tg_seq(things@),
            i as int,
            view_fe(acc),
        ),
    decreases things@.len() - i,
{
    proof {
        crate::ast::lemma_view_tg_seq(things@);
    }
    if i >= things.len() {
        return acc;
    }
    match &things[i] {
        Tg::Fe(ef) => {
            let (ob, j) = strand_x(things, i + 1);
            let f = crate::eval::dup_fe(ef);
            let acc2 = match ob {
                Option::Some(bv) => Fe::Trn2 {
                    a: Box::new(acc),
                    f: Box::new(f),
                    b: Box::new(bv),
                },
                Option::None => Fe::Trn1 {
                    a: Box::new(acc),
                    f: Box::new(f),
                },
            };
            if j > i && j <= things.len() {
                fold_train_x(things, j, acc2)
            } else {
                acc2
            }
        },
        Tg::Ve(_) => acc,
    }
}

/// Fold a collected sequence of things into one value expression.
fn things_to_expr_x(things: &Vec<Tg>) -> (r: Option<Ve>)
    ensures
        view_opt_ve(r) == spec_things_to_expr(
            crate::ast::view_tg_seq(things@),
        ),
{
    proof {
        crate::ast::lemma_view_tg_seq(things@);
    }
    let (os, j) = strand_x(things, 0);
    match os {
        Option::Some(start) => Option::Some(fold_apply_x(things, j, start)),
        Option::None => {
            if things.len() == 0 {
                return Option::None;
            }
            match &things[0] {
                Tg::Fe(ef) => {
                    let (ob, j2) = strand_x(things, 1);
                    let start = match ob {
                        Option::Some(bv) => Fe::Bind {
                            f: Box::new(crate::eval::dup_fe(ef)),
                            b: Box::new(bv),
                        },
                        Option::None => crate::eval::dup_fe(ef),
                    };
                    Option::Some(Ve::Nom(fold_train_x(things, j2, start)))
                },
                Tg::Ve(_) => Option::None,
            }
        },
    }
}

/// An expression from a position: collect, pad under a cap, fold.
pub fn expression_at(code: &Vec<Tok>, pos: usize, limit: usize) -> (r: (
    usize,
    Option<Ve>,
))
    requires
        pos <= code@.len(),
    ensures
        ({
            let (n, oe) = spec_expression(
                view_tok_seq(code@),
                pos as int,
                limit as int,
            );
            r.0 as int == n && view_opt_ve(r.1) == oe
        }),
        pos + r.0 <= code@.len(),
    decreases code@.len() - pos, 5int,
{
    let (things, end) = things_x(code, pos, limit, 0, false);
    let padded = if limit != NO_LIMIT {
        pad_x(things, limit)
    } else {
        things
    };
    let oe = things_to_expr_x(&padded);
    if oe.is_some() {
        (end - pos, oe)
    } else {
        (0, oe)
    }
}

/// An expression under a bite budget, from a position.
pub fn expression_bites_at(code: &Vec<Tok>, pos: usize, bites: usize) -> (r: (
    usize,
    Option<Ve>,
))
    requires
        pos <= code@.len(),
    ensures
        ({
            let (n, oe) = spec_expression_bites(
                view_tok_seq(code@),
                pos as int,
                bites as int,
            );
            r.0 as int == n && view_opt_ve(r.1) == oe
        }),
        pos + r.0 <= code@.len(),
    decreases code@.len() - pos, 5int,
{
    let (things, end) = things_bites_x(code, pos, bites, false);
    let oe = things_to_expr_x(&things);
    if oe.is_some() {
        (end - pos, oe)
    } else {
        (0, oe)
    }
}

/// Skip statement separators.
fn sep_skip_x(code: &Vec<Tok>, pos: usize) -> (r: usize)
    requires
        pos <= code@.len(),
    ensures
        r as int == spec_sep_skip(view_tok_seq(code@), pos as int),
        pos <= r <= code@.len(),
    decreases code@.len() - pos, 0int,
{
    proof {
        lemma_view_tok_seq(code@);
    }
    if pos < code.len() && tok_is_just(&code[pos], B_SEP) {
        sep_skip_x(code, pos + 1)
    } else {
        pos
    }
}

/// A block from a position: expressions separated by statement
/// separators, until none parses; the returned position is where parsing
/// stopped.
pub fn pblock_at(code: &Vec<Tok>, pos: usize) -> (r: (usize, Vec<Ve>))
    requires
        pos <= code@.len(),
    ensures
        ({
            let (end, es) = spec_pblock(view_tok_seq(code@), pos as int);
            r.0 as int == end && view_ve_seq(r.1@) == es
        }),
        r.0 <= code@.len(),
    decreases code@.len() - pos, 6int,
{
    proof {
        lemma_view_tok_seq(code@);
    }
    let p1 = sep_skip_x(code, pos);
    let (elen, oe) = expression_at(code, p1, NO_LIMIT);
    let np = add_cap(p1, elen, code.len());
    match oe {
        Option::Some(e) => {
            if elen > 0 && np > pos {
                let (end, rest) = pblock_at(code, np);
                let ghost ge = view_ve(e);
                let ghost grestv = rest@;
                let ghost grest = view_ve_seq(rest@);
                let mut out: Vec<Ve> = Vec::new();
                out.push(e);
                let mut rest2 = rest;
                out.append(&mut rest2);
                proof {
                    lemma_view_ve_seq(out@);
                    lemma_view_ve_seq(grestv);
                    assert(view_ve_seq(out@) =~= seq![ge] + grest);
                }
                (end, out)
            } else {
                let mut out: Vec<Ve> = Vec::new();
                out.push(e);
                let ghost ge = view_ve(e);
                proof {
                    lemma_view_ve_seq(out@);
                    assert(view_ve_seq(out@) =~= seq![ge]);
                }
                (p1, out)
            }
        },
        Option::None => {
            let out: Vec<Ve> = Vec::new();
            proof {
                assert(view_ve_seq(out@) =~= Seq::<VeV>::empty());
            }
            (p1, out)
        },
    }
}

/// An expression parsed from the start of the stream.
pub fn expression(code: &Vec<Tok>, limit: usize) -> (r: (usize, Option<Ve>))
    ensures
        ({
            let (n, oe) = spec_expression(view_tok_seq(code@), 0, limit as int);
            r.0 as int == n && view_opt_ve(r.1) == oe
        }),
{
    expression_at(code, 0, limit)
}

/// A bite-budgeted expression parsed from the start of the stream.
pub fn expression_bites(code: &Vec<Tok>, bites: usize) -> (r: (
    usize,
    Option<Ve>,
))
    ensures
        ({
            let (n, oe) = spec_expression_bites(
                view_tok_seq(code@),
                0,
                bites as int,
            );
            r.0 as int == n && view_opt_ve(r.1) == oe
        }),
{
    expression_bites_at(code, 0, bites)
}

/// Parse a whole program, returning where parsing stopped alongside the
/// expressions, so a driver can report trailing unconsumed tokens.
pub fn parse_report(code: &Vec<Tok>) -> (r: (usize, Vec<Ve>))
    ensures
        ({
            let (end, es) = spec_pblock(view_tok_seq(code@), 0);
            r.0 as int == end && view_ve_seq(r.1@) == es
        }),
        r.0 <= code@.len(),
{
    pblock_at(code, 0)
}

/// Parse a whole program into its expression sequence.
pub fn parse(code: &Vec<Tok>) -> (r: Vec<Ve>)
    ensures
        view_ve_seq(r@) == spec_pblock(view_tok_seq(code@), 0).1,
{
    let (_, es) = pblock_at(code, 0);
    es
}

} // verus!
