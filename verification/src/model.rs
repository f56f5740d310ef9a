//! The mathematical semantics of the interpreter: a total, fuel-indexed
//! specification evaluator over the ghost value model. Every executable
//! evaluation function in this crate is proved to return exactly what
//! these functions say, so the laws of the language are stated and proved
//! here once.
//!
//! Fuel bounds the recursion depth; when it runs out the result is the
//! undefined sentinel. The executable evaluator threads the same fuel, so
//! the two sides agree at every depth.
use vstd::prelude::*;
use crate::val::{ValV, BindV, AvT};
use crate::ast::{VeV, FeV, TgV};
use crate::env::{EnvV, scopes_lookup, scopes_mutate};
use crate::outside::{gcd_nat, binom_nat, abs_int, rand_of, sample_of};
use crate::token::{B_SIGMA, B_ALPHA, B_BETA, B_SELF};

verus! {

/// Clamp an integer to the representable 64-bit range.
pub open spec fn sat64(x: int) -> int {
    if x > i64::MAX {
        i64::MAX as int
    } else if x < i64::MIN {
        i64::MIN as int
    } else {
        x
    }
}

/// Saturating exponentiation: iterated saturating multiplication, which
/// clamps exactly where the true power leaves the representable range.
pub open spec fn sat_pow(a: int, e: nat) -> int
    decreases e,
{
    if e == 0 {
        1
    } else {
        sat64(a * sat_pow(a, (e - 1) as nat))
    }
}

/// Euclidean division, phrased over a positive divisor.
pub open spec fn ediv_int(x: int, y: int) -> int {
    if y > 0 {
        x / y
    } else {
        -(x / (-y))
    }
}

/// An integer truth value.
pub open spec fn vbool(b: bool) -> ValV {
    ValV::Int(if b { 1int } else { 0int })
}

/// The low byte of an integer, as the dispatcher truncates name codes.
pub open spec fn byte_of(x: int) -> u8 {
    (x % 256) as u8
}

/// Wrapping addition on the seed word.
pub open spec fn wadd(s: u64, d: nat) -> u64 {
    ((s + d) % 0x1_0000_0000_0000_0000) as u64
}

/// The elements a finite value stands for: a list's elements, or the
/// scalar itself as a singleton.
pub open spec fn elems(v: ValV) -> Seq<ValV> {
    match v {
        ValV::Lis { l, .. } => l,
        ValV::Int(_) => seq![v],
        ValV::Und => seq![v],
        _ => Seq::empty(),
    }
}

/// Collect the integer elements of a sequence as truncated bytes,
/// dropping everything else.
pub open spec fn scalar_bytes(l: Seq<ValV>) -> Seq<u8>
    decreases l.len(),
{
    if l.len() == 0 {
        Seq::empty()
    } else {
        let rest = scalar_bytes(l.drop_last());
        match l.last() {
            ValV::Int(x) => rest.push(byte_of(x)),
            _ => rest,
        }
    }
}

/// Decimal digits of a non-negative integer, most significant first.
pub open spec fn dec_digits(n: nat) -> Seq<u8>
    decreases n,
{
    if n < 10 {
        seq![(48 + n) as u8]
    } else {
        dec_digits(n / 10).push((48 + n % 10) as u8)
    }
}

/// Decimal rendering of an integer, with a leading minus when negative.
pub open spec fn int_dec(n: int) -> Seq<u8> {
    if n >= 0 {
        dec_digits(n as nat)
    } else {
        seq![45u8] + dec_digits((-n) as nat)
    }
}

/// The canonical ASCII display of a value.
pub open spec fn spec_display(v: ValV) -> Seq<u8>
    decreases v,
{
    match v {
        ValV::Int(n) => int_dec(n),
        ValV::Und => seq![110u8, 97u8, 110u8],
        ValV::Lis { l, .. } => seq![40u8] + display_list(l) + seq![41u8],
        ValV::Halt(n) => seq![60u8, 101u8, 120u8, 105u8, 116u8, 62u8],
        ValV::DCycle(_) => seq![60u8, 99u8, 121u8, 99u8, 108u8, 101u8, 62u8],
        _ => seq![
            60u8, 102u8, 117u8, 110u8, 99u8, 116u8, 105u8, 111u8, 110u8,
            62u8,
        ],
    }
}

/// Displays of list elements, separated by spaces.
pub open spec fn display_list(l: Seq<ValV>) -> Seq<u8>
    decreases l,
{
    if l.len() == 0 {
        Seq::empty()
    } else if l.len() == 1 {
        spec_display(l[0])
    } else {
        display_list(l.subrange(0, l.len() - 1)) + seq![32u8] + spec_display(
            l[l.len() - 1],
        )
    }
}

/// Parse ASCII digits into a saturated integer, given an accumulator.
pub open spec fn parse_acc(s: Seq<u8>, acc: int) -> Option<int>
    decreases s.len(),
{
    if s.len() == 0 {
        Option::Some(acc)
    } else if 48 <= s[0] <= 57 {
        parse_acc(s.subrange(1, s.len() as int), sat64(acc * 10 + (s[0] - 48)))
    } else {
        Option::None
    }
}

/// Parse a decimal integer with an optional leading minus.
pub open spec fn parse_dec(s: Seq<u8>) -> Option<int> {
    if s.len() == 0 {
        Option::None
    } else if s[0] == 45 {
        match parse_acc(s.subrange(1, s.len() as int), 0) {
            Option::Some(x) => if s.len() == 1 {
                Option::None
            } else {
                Option::Some(sat64(-x))
            },
            Option::None => Option::None,
        }
    } else {
        parse_acc(s, 0)
    }
}

/// Whether a value is pure data, comparable structurally: scalars and
/// lists (cyclic included) of data with data fills.
pub open spec fn deep_data(v: ValV) -> bool
    decreases v,
{
    match v {
        ValV::Int(_) => true,
        ValV::Und => true,
        ValV::Lis { l, fill } => deep_data_seq(l) && deep_data(*fill),
        ValV::DCycle(l) => deep_data_seq(l),
        _ => false,
    }
}

/// Whether every element of a sequence is pure data.
pub open spec fn deep_data_seq(l: Seq<ValV>) -> bool
    decreases l,
{
    if l.len() == 0 {
        true
    } else {
        deep_data_seq(l.drop_last()) && deep_data(l.last())
    }
}

/// Flatten a nested value into its scalars, depth first.
pub open spec fn ravel_val(v: ValV) -> Seq<ValV>
    decreases v, 1nat,
{
    match v {
        ValV::Lis { l, .. } => ravel_seq(l),
        _ => seq![v],
    }
}

/// Flatten each element of a sequence, in order.
pub open spec fn ravel_seq(l: Seq<ValV>) -> Seq<ValV>
    decreases l, 0nat,
{
    if l.len() == 0 {
        Seq::empty()
    } else {
        ravel_seq(l.drop_last()) + ravel_val(l.last())
    }
}

/// Repeat a sequence `k` times.
pub open spec fn repeat_seq(s: Seq<ValV>, k: nat) -> Seq<ValV>
    decreases k,
{
    if k == 0 {
        Seq::empty()
    } else {
        repeat_seq(s, (k - 1) as nat) + s
    }
}

/// The integer values a seeded run of uniform draws below `bound` yields.
pub open spec fn deal_seq(seed: u64, bound: u64, k: nat) -> Seq<ValV>
    decreases k,
{
    if k == 0 {
        Seq::empty()
    } else {
        deal_seq(seed, bound, (k - 1) as nat).push(
            ValV::Int(rand_of(wadd(seed, (k - 1) as nat), bound) as int),
        )
    }
}

/// Sampled indices as integer values.
pub open spec fn index_vals(s: Seq<usize>) -> Seq<ValV> {
    Seq::new(s.len(), |i: int| ValV::Int(s[i] as int))
}

/// Bytes as integer values.
pub open spec fn byte_vals(s: Seq<u8>) -> Seq<ValV> {
    Seq::new(s.len(), |i: int| ValV::Int(s[i] as int))
}

/// Bind a name in the innermost frame; without a frame nothing changes.
pub open spec fn env_set_local(env: EnvV, name: Seq<u8>, val: ValV) -> EnvV {
    if env.frames.len() == 0 {
        env
    } else {
        EnvV {
            frames: env.frames.update(
                env.frames.len() - 1,
                env.frames.last().push(BindV { name, val }),
            ),
            ..env
        }
    }
}

/// Look a name up through the scope stack.
pub open spec fn env_get(env: EnvV, name: Seq<u8>) -> Option<ValV> {
    scopes_lookup(env.frames, name)
}

/// Append bytes to output stream `n`, if that stream exists.
pub open spec fn env_out_write(env: EnvV, n: int, bytes: Seq<u8>) -> EnvV {
    if 0 <= n < env.outs.len() {
        EnvV { outs: env.outs.update(n, env.outs[n] + bytes), ..env }
    } else {
        env
    }
}

/// The fixed list constructor with the undefined fill.
pub open spec fn vlis(l: Seq<ValV>) -> ValV {
    ValV::Lis { l, fill: Box::new(ValV::Und) }
}

/// The pure primitives: every operation here is a function of its
/// operands alone. Anything not integer-exact is the undefined sentinel:
/// the complex-number plane of the language is floating point, which this
/// library does not model.
pub open spec fn spec_prim(v: ValV, a: ValV, b: Option<ValV>) -> ValV {
    let ba = b.unwrap_or(ValV::Und);
    match v {
        ValV::Add => match (a, ba) {
            (ValV::Int(x), ValV::Int(y)) => ValV::Int(sat64(x + y)),
            _ => ValV::Und,
        },
        ValV::Sub => match (a, ba) {
            (ValV::Int(x), ValV::Int(y)) => ValV::Int(sat64(x - y)),
            _ => ValV::Und,
        },
        ValV::Mul => match (a, ba) {
            (ValV::Int(x), ValV::Int(y)) => ValV::Int(sat64(x * y)),
            _ => ValV::Und,
        },
        ValV::Div => ValV::Und,
        ValV::DivE => match (a, ba) {
            (ValV::Int(x), ValV::Int(y)) => if y == 0 {
                ValV::Und
            } else if x == i64::MIN && y == -1 {
                ValV::Int(i64::MAX as int)
            } else {
                ValV::Int(ediv_int(x, y))
            },
            _ => ValV::Und,
        },
        ValV::Mod => match (a, ba) {
            (ValV::Int(x), ValV::Int(y)) => if y == 0 {
                ValV::Und
            } else {
                ValV::Int(x % (abs_int(y) as int))
            },
            _ => ValV::Und,
        },
        ValV::Pow => match (a, ba) {
            (ValV::Int(x), ValV::Int(y)) => if y >= 0 {
                ValV::Int(sat_pow(x, y as nat))
            } else {
                ValV::Und
            },
            _ => ValV::Und,
        },
        ValV::Lt => match (a, ba) {
            (ValV::Int(x), ValV::Int(y)) => vbool(x < y),
            _ => ValV::Und,
        },
        ValV::Eq => match (a, ba) {
            (ValV::Int(x), ValV::Int(y)) => vbool(x == y),
            _ => ValV::Und,
        },
        ValV::Gt => match (a, ba) {
            (ValV::Int(x), ValV::Int(y)) => vbool(x > y),
            _ => ValV::Und,
        },
        ValV::And => vbool(a.as_bool() && ba.as_bool()),
        ValV::Or => vbool(a.as_bool() || ba.as_bool()),
        ValV::Max => match (a, ba) {
            (ValV::Int(x), ValV::Int(y)) => ValV::Int(if x >= y { x } else { y }),
            _ => ValV::Und,
        },
        ValV::Min => match (a, ba) {
            (ValV::Int(x), ValV::Int(y)) => ValV::Int(if x <= y { x } else { y }),
            _ => ValV::Und,
        },
        ValV::BAnd => match (a, ba) {
            (ValV::Int(x), ValV::Int(y)) => ValV::Int(((x as i64) & (y as i64)) as int),
            _ => ValV::Und,
        },
        ValV::BOr => match (a, ba) {
            (ValV::Int(x), ValV::Int(y)) => ValV::Int(((x as i64) | (y as i64)) as int),
            _ => ValV::Und,
        },
        ValV::BXor => match (a, ba) {
            (ValV::Int(x), ValV::Int(y)) => ValV::Int(((x as i64) ^ (y as i64)) as int),
            _ => ValV::Und,
        },
        ValV::BNot => match a {
            ValV::Int(x) => ValV::Int(-x - 1),
            _ => ValV::Und,
        },
        ValV::BRepr => match a {
            ValV::Int(x) => ValV::Lis {
                l: Seq::new(64, |i: int| vbool(((x as i64) >> (i as u64)) & 1 == 1)),
                fill: Box::new(ValV::Int(0)),
            },
            _ => ValV::Und,
        },
        ValV::Gcd => match (a, ba) {
            (ValV::Int(x), ValV::Int(y)) => if (x == i64::MIN && (y == i64::MIN
                || y == 0)) || (x == 0 && y == i64::MIN) {
                ValV::Und
            } else {
                ValV::Int(gcd_nat(abs_int(x), abs_int(y)) as int)
            },
            _ => ValV::Und,
        },
        ValV::Lcm => match (a, ba) {
            (ValV::Int(x), ValV::Int(y)) => if x == 0 || y == 0 {
                ValV::Int(0)
            } else {
                let g = gcd_nat(abs_int(x), abs_int(y));
                let m = (abs_int(x) / g) * abs_int(y);
                if m > i64::MAX {
                    ValV::Und
                } else {
                    ValV::Int(m as int)
                }
            },
            _ => ValV::Und,
        },
        ValV::Binom => match (a, ba) {
            (ValV::Int(x), ValV::Int(y)) => if 0 <= y && 0 <= x && (x <= 66
                || y <= 1 || y >= x - 1) {
                ValV::Int(binom_nat(x as nat, y as nat) as int)
            } else {
                ValV::Und
            },
            _ => ValV::Und,
        },
        ValV::Isnan => vbool(a is Und),
        ValV::Abs => match a {
            ValV::Int(x) => ValV::Int(sat64(if x >= 0 { x } else { -x })),
            _ => ValV::Und,
        },
        ValV::Neg => match a {
            ValV::Int(x) => ValV::Int(sat64(-x)),
            _ => ValV::Und,
        },
        ValV::Round => match a {
            ValV::Int(x) => ValV::Int(x),
            _ => ValV::Und,
        },
        ValV::Ceil => match a {
            ValV::Int(x) => ValV::Int(x),
            _ => ValV::Und,
        },
        ValV::Floor => match a {
            ValV::Int(x) => ValV::Int(x),
            _ => ValV::Und,
        },
        ValV::Sign => match a {
            ValV::Int(x) => ValV::Int(if x > 0 { 1int } else if x < 0 { -1int } else { 0int }),
            _ => ValV::Und,
        },
        ValV::Left => a,
        ValV::Right => b.unwrap_or(a),
        ValV::Len => match a {
            ValV::Int(_) => ValV::Int(1),
            ValV::Und => ValV::Int(1),
            ValV::Lis { l, .. } => ValV::Int(
                if l.len() > i64::MAX { i64::MAX as int } else { l.len() as int },
            ),
            _ => ValV::Und,
        },
        ValV::Shape => match a {
            ValV::Int(_) => ValV::Lis { l: Seq::empty(), fill: Box::new(ValV::Int(1)) },
            ValV::Und => ValV::Lis { l: Seq::empty(), fill: Box::new(ValV::Int(1)) },
            ValV::Lis { l, .. } => ValV::Lis {
                l: seq![
                    ValV::Int(
                        if l.len() > i64::MAX { i64::MAX as int } else { l.len() as int },
                    ),
                ],
                fill: Box::new(ValV::Int(1)),
            },
            _ => ValV::Und,
        },
        ValV::Iota => match a {
            ValV::Int(n) => if n >= 0 {
                vlis(Seq::new(n as nat, |i: int| ValV::Int(i)))
            } else {
                ValV::Und
            },
            ValV::Und => ValV::Und,
            ValV::Lis { .. } => ValV::Und,
            _ => ValV::Av(AvT::Const, Option::None, Box::new(ValV::Und)),
        },
        ValV::Pair => vlis(seq![a, ba]),
        ValV::Enlist => vlis(seq![a]),
        ValV::Ravel => vlis(ravel_val(a)),
        ValV::Concat => if a.is_finite() && ba.is_finite() {
            ValV::Lis { l: elems(a) + elems(ba), fill: Box::new(a.vfill()) }
        } else {
            ValV::Und
        },
        ValV::Reverse => match a {
            ValV::Int(_) => a,
            ValV::Und => a,
            ValV::Lis { l, fill } => ValV::Lis { l: l.reverse(), fill },
            _ => ValV::Und,
        },
        ValV::GetFill => match a {
            ValV::Lis { fill, .. } => *fill,
            _ => ValV::Und,
        },
        ValV::SetFill => match a {
            ValV::Lis { l, .. } => ValV::Lis { l, fill: Box::new(ba) },
            _ => a,
        },
        ValV::Replist => if !a.is_finite() {
            a
        } else {
            match ba {
                ValV::Int(k) => vlis(
                    repeat_seq(elems(a), if k >= 0 { k as nat } else { 0 }),
                ),
                _ => ValV::Und,
            }
        },
        ValV::Cycle => match a {
            ValV::Lis { l, .. } => ValV::DCycle(l),
            ValV::Int(_) => ValV::DCycle(seq![a]),
            ValV::Und => ValV::DCycle(seq![a]),
            _ => a,
        },
        ValV::Match => if deep_data(a) && deep_data(ba) {
            vbool(a == ba)
        } else {
            ValV::Und
        },
        ValV::SortUp => match a {
            ValV::Int(_) => a,
            ValV::Und => a,
            ValV::Lis { l, fill } => match ints_of(l) {
                Option::Some(xs) => ValV::Lis {
                    l: int_vals(sort_ints(xs)),
                    fill,
                },
                Option::None => ValV::Und,
            },
            _ => ValV::Und,
        },
        ValV::SortDown => match a {
            ValV::Int(_) => a,
            ValV::Und => a,
            ValV::Lis { l, fill } => match ints_of(l) {
                Option::Some(xs) => ValV::Lis {
                    l: int_vals(sort_ints(xs).reverse()),
                    fill,
                },
                Option::None => ValV::Und,
            },
            _ => ValV::Und,
        },
        ValV::GradeUp => match a {
            ValV::Lis { l, .. } => match ints_of(l) {
                Option::Some(xs) => if xs.len() <= i64::MAX {
                    vlis(int_vals(grade_up_ints(xs, xs.len() as int)))
                } else {
                    ValV::Und
                },
                Option::None => ValV::Und,
            },
            _ => ValV::Und,
        },
        ValV::GradeDown => match a {
            ValV::Lis { l, .. } => match ints_of(l) {
                Option::Some(xs) => if xs.len() <= i64::MAX {
                    vlis(int_vals(grade_down_ints(xs, xs.len() as int)))
                } else {
                    ValV::Und
                },
                Option::None => ValV::Und,
            },
            _ => ValV::Und,
        },
        ValV::Numfmt => match a {
            ValV::Int(_) => vlis(byte_vals(spec_display(a))),
            ValV::Und => vlis(byte_vals(spec_display(a))),
            _ => ValV::Und,
        },
        ValV::Parse => match a {
            ValV::Int(_) => a,
            ValV::Lis { l, .. } => match parse_dec(scalar_bytes(l)) {
                Option::Some(x) => ValV::Int(x),
                Option::None => ValV::Und,
            },
            _ => ValV::Und,
        },
        ValV::Takeleft => if !a.is_finite() {
            ValV::Und
        } else {
            match ba {
                ValV::Int(k) => if k >= 0 {
                    ValV::Lis {
                        l: Seq::new(k as nat, |i: int| a.vindex(i)),
                        fill: Box::new(a.vfill()),
                    }
                } else {
                    ValV::Lis {
                        l: Seq::new(
                            (-k) as nat,
                            |i: int| a.vindex(a.vlen() + k + i),
                        ),
                        fill: Box::new(a.vfill()),
                    }
                },
                _ => ValV::Und,
            }
        },
        ValV::Takeright => if !a.is_finite() {
            ValV::Und
        } else {
            match ba {
                ValV::Int(k) => if k >= 0 {
                    ValV::Lis {
                        l: Seq::new(
                            k as nat,
                            |i: int| a.vindex(a.vlen() - k + i),
                        ),
                        fill: Box::new(a.vfill()),
                    }
                } else {
                    ValV::Lis {
                        l: Seq::new((-k) as nat, |i: int| a.vindex(i)),
                        fill: Box::new(a.vfill()),
                    }
                },
                _ => ValV::Und,
            }
        },
        ValV::Dropleft => if !a.is_finite() {
            ValV::Und
        } else {
            match ba {
                ValV::Int(k) => if k >= 0 {
                    let n = if k <= a.vlen() { k } else { a.vlen() };
                    ValV::Lis {
                        l: elems(a).subrange(n, a.vlen()),
                        fill: Box::new(a.vfill()),
                    }
                } else {
                    ValV::Und
                },
                _ => ValV::Und,
            }
        },
        ValV::Dropright => if !a.is_finite() {
            ValV::Und
        } else {
            match ba {
                ValV::Int(k) => if k >= 0 {
                    let n = if k <= a.vlen() { k } else { a.vlen() };
                    ValV::Lis {
                        l: elems(a).subrange(0, a.vlen() - n),
                        fill: Box::new(a.vfill()),
                    }
                } else {
                    ValV::Und
                },
                _ => ValV::Und,
            }
        },
        _ => ValV::Und,
    }
}


/// Insert a key into an ascending run, before the first key not below it.
pub open spec fn insert_sorted(x: int, s: Seq<int>) -> Seq<int>
    decreases s.len(),
{
    if s.len() == 0 {
        seq![x]
    } else if x <= s[0] {
        seq![x] + s
    } else {
        seq![s[0]] + insert_sorted(x, s.subrange(1, s.len() as int))
    }
}

/// Ascending insertion sort of a key sequence.
pub open spec fn sort_ints(s: Seq<int>) -> Seq<int>
    decreases s.len(),
{
    if s.len() == 0 {
        Seq::empty()
    } else {
        insert_sorted(s[0], sort_ints(s.subrange(1, s.len() as int)))
    }
}

/// The integer keys of a list, if every element is an exact integer.
pub open spec fn ints_of(l: Seq<ValV>) -> Option<Seq<int>>
    decreases l.len(),
{
    if l.len() == 0 {
        Option::Some(Seq::empty())
    } else {
        match l[0] {
            ValV::Int(x) => match ints_of(l.subrange(1, l.len() as int)) {
                Option::Some(r) => Option::Some(seq![x] + r),
                Option::None => Option::None,
            },
            _ => Option::None,
        }
    }
}

/// Keys as integer values.
pub open spec fn int_vals(s: Seq<int>) -> Seq<ValV> {
    Seq::new(s.len(), |i: int| ValV::Int(s[i]))
}

/// Insert index `i` into an ascending grade, after every index whose key
/// does not exceed its own: a stable placement.
pub open spec fn insert_grade_up(i: int, keys: Seq<int>, g: Seq<int>) -> Seq<
    int,
>
    decreases g.len(),
{
    if g.len() == 0 {
        seq![i]
    } else if 0 <= i < keys.len() && 0 <= g[0] < keys.len() && keys[i]
        < keys[g[0]] {
        seq![i] + g
    } else {
        seq![g[0]] + insert_grade_up(i, keys, g.subrange(1, g.len() as int))
    }
}

/// The ascending grade: the permutation of 0..n that sorts the keys,
/// equal keys keeping their original order.
pub open spec fn grade_up_ints(keys: Seq<int>, n: int) -> Seq<int>
    decreases n,
{
    if n <= 0 {
        Seq::empty()
    } else {
        insert_grade_up(n - 1, keys, grade_up_ints(keys, n - 1))
    }
}

/// Insert index `i` into a descending grade, stably.
pub open spec fn insert_grade_down(i: int, keys: Seq<int>, g: Seq<int>)
    -> Seq<int>
    decreases g.len(),
{
    if g.len() == 0 {
        seq![i]
    } else if 0 <= i < keys.len() && 0 <= g[0] < keys.len() && keys[i]
        > keys[g[0]] {
        seq![i] + g
    } else {
        seq![g[0]] + insert_grade_down(i, keys, g.subrange(1, g.len() as int))
    }
}

/// The descending grade, equal keys keeping their original order.
pub open spec fn grade_down_ints(keys: Seq<int>, n: int) -> Seq<int>
    decreases n,
{
    if n <= 0 {
        Seq::empty()
    } else {
        insert_grade_down(n - 1, keys, grade_down_ints(keys, n - 1))
    }
}

/// First bytes of an input buffer under the reading mode: a line, all of
/// it, or an exact count.
pub open spec fn in_split(buf: Seq<u8>, chars: int) -> (Seq<u8>, Seq<u8>) {
    if chars < 0 {
        // A line: up to and including the first newline.
        let nl = choose_newline(buf, 0);
        (buf.subrange(0, nl), buf.subrange(nl, buf.len() as int))
    } else if chars == i64::MAX {
        (buf, Seq::empty())
    } else {
        let n = if chars <= buf.len() { chars } else { buf.len() as int };
        (buf.subrange(0, n), buf.subrange(n, buf.len() as int))
    }
}

/// Position one past the first newline at or after `i`, or the end.
pub open spec fn choose_newline(buf: Seq<u8>, i: int) -> int
    decreases buf.len() - i,
{
    if i < 0 || i >= buf.len() {
        buf.len() as int
    } else if buf[i] == 10 {
        i + 1
    } else {
        choose_newline(buf, i + 1)
    }
}

/// The primitives that read or change the environment. None of them
/// recurses into evaluation.
pub open spec fn spec_prim_env(v: ValV, a: ValV, b: Option<ValV>, env: EnvV)
    -> (ValV, EnvV) {
    let ba = b.unwrap_or(ValV::Und);
    match v {
        ValV::FSet(name) => (
            b.unwrap_or(a),
            env_set_local(env, name, a),
        ),
        ValV::FCng(name) => match scopes_mutate(env.frames, name, a) {
            Option::Some(fs) => (a, EnvV { frames: fs, ..env }),
            Option::None => (ValV::Und, env),
        },
        ValV::SetVar => if a.is_finite() {
            let name = scalar_bytes(elems(a));
            (ba, env_set_local(env, name, ba))
        } else {
            (ValV::Und, env)
        },
        ValV::Get => if a.is_finite() {
            let name = scalar_bytes(elems(a));
            (env_get(env, name).unwrap_or(ValV::Und), env)
        } else {
            (ValV::Und, env)
        },
        ValV::Print => (
            b.unwrap_or(a),
            env_out_write(env, 0, spec_display(a)),
        ),
        ValV::Println => (
            b.unwrap_or(a),
            env_out_write(env, 0, spec_display(a).push(10u8)),
        ),
        ValV::Exit => match a {
            ValV::Int(n) => (ValV::Halt(n), env),
            _ => (
                ValV::Halt(1),
                env_out_write(env, 1, spec_display(a).push(10u8)),
            ),
        },
        ValV::Out => match ba {
            ValV::Int(n) => if 0 <= n < env.outs.len() && a.is_finite() {
                let bytes = scalar_bytes(elems(a));
                (
                    ValV::Int(
                        if bytes.len() > i64::MAX {
                            i64::MAX as int
                        } else {
                            bytes.len() as int
                        },
                    ),
                    env_out_write(env, n, bytes),
                )
            } else {
                (ValV::Und, env)
            },
            _ => (ValV::Und, env),
        },
        ValV::In => match (a, ba) {
            (ValV::Int(chars), ValV::Int(n)) => if 0 <= n < env.ins.len() {
                let (taken, rest) = in_split(env.ins[n], chars);
                (
                    vlis(byte_vals(taken)),
                    EnvV { ins: env.ins.update(n, rest), ..env },
                )
            } else {
                (ValV::Und, env)
            },
            _ => (ValV::Und, env),
        },
        ValV::Deal => match (a, ba) {
            (ValV::Int(x), ValV::Int(y)) => {
                let k = if y >= 0 { y as nat } else { 0 };
                if x > 0 {
                    (
                        vlis(deal_seq(env.seed, x as u64, k)),
                        EnvV { seed: wadd(env.seed, k), ..env },
                    )
                } else {
                    // Draws outside the integer plane: a list of the
                    // requested length whose every element is undefined.
                    (vlis(Seq::new(k, |i: int| ValV::Und)), env)
                }
            },
            _ => (ValV::Und, env),
        },
        ValV::Sample => match (a, ba) {
            (ValV::Int(x), ValV::Int(y)) => if 0 <= x && x <= usize::MAX
                as int && y >= 0 {
                let k = if y <= x { y } else { x };
                (
                    vlis(index_vals(sample_of(env.seed, x as usize, k as usize))),
                    EnvV { seed: wadd(env.seed, 1), ..env },
                )
            } else {
                (ValV::Und, env)
            },
            _ => (ValV::Und, env),
        },
        _ => (ValV::Und, env),
    }
}

/// Whether a primitive belongs to the environment group above.
pub open spec fn is_env_prim(v: ValV) -> bool {
    match v {
        ValV::FSet(_) => true,
        ValV::FCng(_) => true,
        ValV::SetVar => true,
        ValV::Get => true,
        ValV::Print => true,
        ValV::Println => true,
        ValV::Exit => true,
        ValV::Out => true,
        ValV::In => true,
        ValV::Deal => true,
        ValV::Sample => true,
        _ => false,
    }
}

/// Calling a value on one or two arguments: the heart of the evaluator.
pub open spec fn spec_call(
    v: ValV,
    a: ValV,
    b: Option<ValV>,
    env: EnvV,
    fuel: nat,
) -> (ValV, EnvV)
    decreases fuel,
{
    if fuel == 0 {
        (ValV::Und, env)
    } else {
        let f1 = (fuel - 1) as nat;
        match v {
            ValV::Int(_) => (v, env),
            ValV::Und => (v, env),
            ValV::Lis { .. } => (v, env),
            ValV::Halt(_) => (v, env),
            ValV::DCycle(l) => match a.try_int() {
                Option::Some(n) => if l.len() > 0 && n >= 0 {
                    (l[n % (l.len() as int)], env)
                } else {
                    (ValV::Und, env)
                },
                Option::None => (ValV::Und, env),
            },
            ValV::Bind { f, b: bb } => spec_call(*f, a, Option::Some(*bb), env, f1),
            ValV::Trn2 { a: aa, f } => {
                let (x, e1) = spec_call(*aa, a, b, env, f1);
                spec_call(*f, x, Option::None, e1, f1)
            },
            ValV::Trn3 { a: aa, f, b: bb } => {
                let (x, e1) = spec_call(*aa, a, b, env, f1);
                spec_call(*f, x, Option::Some(*bb), e1, f1)
            },
            ValV::Fork { a: aa, f, b: bb } => {
                let (l, e1) = spec_call(*aa, a, b, env, f1);
                let (r, e2) = spec_call(*bb, a, b, e1, f1);
                spec_call(*f, l, Option::Some(r), e2, f1)
            },
            ValV::AvBuilder(t) => (
                ValV::Av(
                    t,
                    match b {
                        Option::Some(x) => Option::Some(Box::new(x)),
                        Option::None => Option::None,
                    },
                    Box::new(a),
                ),
                env,
            ),
            ValV::Av(t, ff, g) => spec_av(
                t,
                a,
                b,
                match ff {
                    Option::Some(x) => Option::Some(*x),
                    Option::None => Option::None,
                },
                *g,
                env,
                (fuel - 1) as nat,
            ),
            ValV::Dfn { s, loc } => {
                let frame = loc.push(
                    BindV {
                        name: seq![B_SIGMA],
                        val: ValV::Int(if b is Some { 2int } else { 1int }),
                    },
                ).push(BindV { name: seq![B_ALPHA], val: a }).push(
                    BindV { name: seq![B_BETA], val: b.unwrap_or(ValV::Und) },
                ).push(BindV { name: seq![B_SELF], val: v });
                let env1 = EnvV { frames: env.frames.push(frame), ..env };
                let (r, e2) = spec_block(s, env1, f1);
                (r, EnvV { frames: e2.frames.drop_last(), ..e2 })
            },
            ValV::Index => spec_index_depth(a, b.unwrap_or(ValV::Und), env, (fuel - 1) as nat),
            ValV::Call => {
                let bb = b.unwrap_or(ValV::Und);
                if bb.is_scalar() {
                    spec_call(a, bb, Option::None, env, f1)
                } else {
                    match bb {
                        ValV::Lis { l, .. } => spec_call(
                            a,
                            bb.vindex(0),
                            if l.len() > 1 {
                                Option::Some(bb.vindex(1))
                            } else {
                                Option::None
                            },
                            env,
                            f1,
                        ),
                        _ => (ValV::Und, env),
                    }
                }
            },
            _ => if is_env_prim(v) {
                spec_prim_env(v, a, b, env)
            } else {
                (spec_prim(v, a, b), env)
            },
        }
    }
}

/// Indexing, drilling through nested lists when the index is a list; a
/// function value is applied to the index.
pub open spec fn spec_index1(a: ValV, n: ValV, env: EnvV, fuel: nat) -> (
    ValV,
    EnvV,
)
    decreases fuel,
{
    if fuel == 0 {
        (ValV::Und, env)
    } else if a.pure_indexable() {
        match n.try_int() {
            Option::Some(k) => (a.vindex(k), env),
            Option::None => (ValV::Und, env),
        }
    } else {
        spec_call(a, n, Option::None, env, (fuel - 1) as nat)
    }
}

/// Index at depth: a list of indices drills one level per element.
pub open spec fn spec_index_depth(a: ValV, idx: ValV, env: EnvV, fuel: nat)
    -> (ValV, EnvV)
    decreases fuel,
{
    if fuel == 0 {
        (ValV::Und, env)
    } else {
        match idx {
            ValV::Lis { l, .. } => spec_index_list(a, l, env, (fuel - 1) as nat),
            _ => spec_index1(a, idx, env, (fuel - 1) as nat),
        }
    }
}

/// Drill through one index after another.
pub open spec fn spec_index_list(a: ValV, l: Seq<ValV>, env: EnvV, fuel: nat)
    -> (ValV, EnvV)
    decreases fuel,
{
    if fuel == 0 {
        (ValV::Und, env)
    } else if l.len() == 0 {
        (a, env)
    } else {
        let (x, e1) = spec_index1(a, l[0], env, (fuel - 1) as nat);
        spec_index_list(x, l.subrange(1, l.len() as int), e1, (fuel - 1) as nat)
    }
}

/// One adverb application.
pub open spec fn spec_av(
    t: AvT,
    a: ValV,
    b: Option<ValV>,
    f: Option<ValV>,
    g: ValV,
    env: EnvV,
    fuel: nat,
) -> (ValV, EnvV)
    decreases fuel,
{
    if fuel == 0 {
        (ValV::Und, env)
    } else {
        let f1 = (fuel - 1) as nat;
        let fg = f.unwrap_or(g);
        match t {
            AvT::Swap => spec_call(g, b.unwrap_or(a), Option::Some(a), env, f1),
            AvT::Const => (g, env),
            AvT::Monadic => spec_call(g, a, Option::None, env, f1),
            AvT::Each => spec_each(a, b, g, env, (fuel - 1) as nat),
            AvT::EachLeft => spec_each_left(a, b, g, env, (fuel - 1) as nat),
            AvT::Conform => spec_conform(a, b, g, env, (fuel - 1) as nat),
            AvT::Extend => spec_extend(a, b, g, env, (fuel - 1) as nat),
            AvT::Scan => spec_scan(a, b, g, env, (fuel - 1) as nat),
            AvT::ScanPairs => spec_scan_pairs(a, b, g, env, (fuel - 1) as nat),
            AvT::Reduce => spec_reduce(a, b, g, env, (fuel - 1) as nat),
            AvT::Stencil => spec_stencil(a, b, fg, g, env, (fuel - 1) as nat),
            AvT::Valences => spec_call(
                if b is None { fg } else { g },
                a,
                b,
                env,
                f1,
            ),
            AvT::Over => {
                let (l, e1) = spec_call(fg, a, Option::None, env, f1);
                let (r, e2) = spec_call(fg, b.unwrap_or(a), Option::None, e1, f1);
                spec_call(g, l, Option::Some(r), e2, f1)
            },
            AvT::Overleft => {
                let (x, e1) = spec_call(fg, a, Option::None, env, f1);
                spec_call(g, x, Option::Some(b.unwrap_or(a)), e1, f1)
            },
            AvT::Overright => {
                let (x, e1) = spec_call(fg, b.unwrap_or(a), Option::None, env, f1);
                spec_call(g, a, Option::Some(x), e1, f1)
            },
            AvT::Until => spec_until(a, b, fg, g, env, (fuel - 1) as nat),
            AvT::UntilScan => spec_until_scan(a, seq![a], b, fg, g, env, (fuel - 1) as nat),
            AvT::Power => {
                let (numv, e1) = spec_call(fg, a, b, env, f1);
                let k = power_count(numv);
                spec_power_iter(a, k, b, g, e1, (fuel - 1) as nat)
            },
            AvT::PowerScan => {
                let (numv, e1) = spec_call(fg, a, b, env, f1);
                let k = power_count(numv);
                let (vals, e2) = spec_power_scan_iter(a, k, b, g, e1, (fuel - 1) as nat);
                (vlis(vals), e2)
            },
        }
    }
}

/// The iteration count the power adverbs use: a non-negative integer, or
/// zero for anything negative or non-numeric.
pub open spec fn power_count(v: ValV) -> nat {
    match v {
        ValV::Int(x) => if x >= 0 {
            x as nat
        } else {
            0
        },
        _ => 0,
    }
}

/// Elementwise dyadic application over two finite operands.
pub open spec fn spec_each2_range(
    a: ValV,
    b: ValV,
    g: ValV,
    i: int,
    n: int,
    env: EnvV,
    fuel: nat,
) -> (Seq<ValV>, EnvV)
    decreases fuel,
{
    if fuel == 0 || i >= n {
        (Seq::empty(), env)
    } else {
        let (v, e1) = spec_call(
            g,
            a.vindex(i),
            Option::Some(b.vindex(i)),
            env,
            (fuel - 1) as nat,
        );
        let (rest, e2) = spec_each2_range(a, b, g, i + 1, n, e1, (fuel - 1) as nat);
        (seq![v] + rest, e2)
    }
}

/// Elementwise application of `g` with a fixed right operand.
pub open spec fn spec_eachl_range(
    a: ValV,
    b: Option<ValV>,
    g: ValV,
    i: int,
    n: int,
    env: EnvV,
    fuel: nat,
) -> (Seq<ValV>, EnvV)
    decreases fuel,
{
    if fuel == 0 || i >= n {
        (Seq::empty(), env)
    } else {
        let (v, e1) = spec_call(g, a.vindex(i), b, env, (fuel - 1) as nat);
        let (rest, e2) = spec_eachl_range(a, b, g, i + 1, n, e1, (fuel - 1) as nat);
        (seq![v] + rest, e2)
    }
}

/// The deferred broadcast: an unbounded operand turns the iteration into
/// a fork over the conforming combinator.
pub open spec fn defer_fork(a: ValV, b: ValV, g: ValV) -> ValV {
    ValV::Fork {
        a: Box::new(a),
        f: Box::new(ValV::Av(AvT::Conform, Option::None, Box::new(g))),
        b: Box::new(b),
    }
}

/// Each: apply `g` elementwise, broadcasting scalars, deferring on any
/// unbounded operand.
pub open spec fn spec_each(
    a: ValV,
    b: Option<ValV>,
    g: ValV,
    env: EnvV,
    fuel: nat,
) -> (ValV, EnvV)
    decreases fuel,
{
    if fuel == 0 {
        (ValV::Und, env)
    } else {
        let f1 = (fuel - 1) as nat;
        match b {
            Option::Some(bb) => if a.is_scalar() && bb.is_scalar() {
                spec_call(g, a, Option::Some(bb), env, f1)
            } else if !a.is_finite() || !bb.is_finite() {
                (defer_fork(a, bb, g), env)
            } else {
                let n = if a.is_scalar() {
                    bb.vlen()
                } else if bb.is_scalar() {
                    a.vlen()
                } else if a.vlen() >= bb.vlen() {
                    // Align two lists of different length: the shorter
                    // side reads its fill beyond its materialized range.
                    a.vlen()
                } else {
                    bb.vlen()
                };
                let fill = if a.is_scalar() { bb.vfill() } else { a.vfill() };
                let (vals, e1) = spec_each2_range(a, bb, g, 0, n, env, (fuel - 1) as nat);
                (ValV::Lis { l: vals, fill: Box::new(fill) }, e1)
            },
            Option::None => spec_each_left(a, Option::None, g, env, (fuel - 1) as nat),
        }
    }
}

/// Each-left: apply `g` to each element of `a`, keeping `b` whole.
pub open spec fn spec_each_left(
    a: ValV,
    b: Option<ValV>,
    g: ValV,
    env: EnvV,
    fuel: nat,
) -> (ValV, EnvV)
    decreases fuel,
{
    if fuel == 0 {
        (ValV::Und, env)
    } else if a.is_scalar() {
        spec_call(g, a, b, env, (fuel - 1) as nat)
    } else if !a.is_finite() {
        match b {
            Option::Some(bb) => (
                ValV::Fork { a: Box::new(a), f: Box::new(g), b: Box::new(bb) },
                env,
            ),
            Option::None => (
                ValV::Trn2 { a: Box::new(a), f: Box::new(g) },
                env,
            ),
        }
    } else {
        let (vals, e1) = spec_eachl_range(a, b, g, 0, a.vlen(), env, (fuel - 1) as nat);
        (ValV::Lis { l: vals, fill: Box::new(a.vfill()) }, e1)
    }
}

/// Conform, elementwise recursion of both sides together.
pub open spec fn spec_conf2_range(
    a: ValV,
    b: ValV,
    g: ValV,
    i: int,
    n: int,
    env: EnvV,
    fuel: nat,
) -> (Seq<ValV>, EnvV)
    decreases fuel,
{
    if fuel == 0 || i >= n {
        (Seq::empty(), env)
    } else {
        let (v, e1) = spec_conform(
            a.vindex(i),
            Option::Some(b.vindex(i)),
            g,
            env,
            (fuel - 1) as nat,
        );
        let (rest, e2) = spec_conf2_range(a, b, g, i + 1, n, e1, (fuel - 1) as nat);
        (seq![v] + rest, e2)
    }
}

/// Conform: like each, but recursing structurally into nested lists.
pub open spec fn spec_conform(
    a: ValV,
    b: Option<ValV>,
    g: ValV,
    env: EnvV,
    fuel: nat,
) -> (ValV, EnvV)
    decreases fuel,
{
    if fuel == 0 {
        (ValV::Und, env)
    } else {
        let f1 = (fuel - 1) as nat;
        match b {
            Option::Some(bb) => if a.is_scalar() && bb.is_scalar() {
                spec_call(g, a, Option::Some(bb), env, f1)
            } else if !a.is_finite() || !bb.is_finite() {
                (defer_fork(a, bb, g), env)
            } else {
                let n = if a.is_scalar() {
                    bb.vlen()
                } else if bb.is_scalar() {
                    a.vlen()
                } else if a.vlen() >= bb.vlen() {
                    // Align two lists of different length: the shorter
                    // side reads its fill beyond its materialized range.
                    a.vlen()
                } else {
                    bb.vlen()
                };
                let fill = if a.is_scalar() { bb.vfill() } else { a.vfill() };
                let (vals, e1) = spec_conf2_range(a, bb, g, 0, n, env, (fuel - 1) as nat);
                (ValV::Lis { l: vals, fill: Box::new(fill) }, e1)
            },
            Option::None => spec_extend(a, Option::None, g, env, (fuel - 1) as nat),
        }
    }
}

/// Extend, elementwise recursion of the left side.
pub open spec fn spec_ext_range(
    a: ValV,
    b: Option<ValV>,
    g: ValV,
    i: int,
    n: int,
    env: EnvV,
    fuel: nat,
) -> (Seq<ValV>, EnvV)
    decreases fuel,
{
    if fuel == 0 || i >= n {
        (Seq::empty(), env)
    } else {
        let (v, e1) = spec_extend(a.vindex(i), b, g, env, (fuel - 1) as nat);
        let (rest, e2) = spec_ext_range(a, b, g, i + 1, n, e1, (fuel - 1) as nat);
        (seq![v] + rest, e2)
    }
}

/// Extend: recurse into the left operand down to scalars.
pub open spec fn spec_extend(
    a: ValV,
    b: Option<ValV>,
    g: ValV,
    env: EnvV,
    fuel: nat,
) -> (ValV, EnvV)
    decreases fuel,
{
    if fuel == 0 {
        (ValV::Und, env)
    } else if a.is_scalar() {
        spec_call(g, a, b, env, (fuel - 1) as nat)
    } else if !a.is_finite() {
        let conf = ValV::Av(AvT::Conform, Option::None, Box::new(g));
        match b {
            Option::Some(bb) => (
                ValV::Fork {
                    a: Box::new(a),
                    f: Box::new(conf),
                    b: Box::new(bb),
                },
                env,
            ),
            Option::None => (
                ValV::Trn2 { a: Box::new(a), f: Box::new(conf) },
                env,
            ),
        }
    } else {
        let (vals, e1) = spec_ext_range(a, b, g, 0, a.vlen(), env, (fuel - 1) as nat);
        (ValV::Lis { l: vals, fill: Box::new(a.vfill()) }, e1)
    }
}

/// The running fold the scan adverb collects: the values after `acc`.
pub open spec fn spec_scan_rest(
    es: Seq<ValV>,
    i: int,
    acc: ValV,
    g: ValV,
    env: EnvV,
    fuel: nat,
) -> (Seq<ValV>, EnvV)
    decreases fuel,
{
    if fuel == 0 || i >= es.len() {
        (Seq::empty(), env)
    } else {
        let (nv, e1) = spec_call(
            g,
            acc,
            Option::Some(es[i]),
            env,
            (fuel - 1) as nat,
        );
        let (rest, e2) = spec_scan_rest(es, i + 1, nv, g, e1, (fuel - 1) as nat);
        (seq![nv] + rest, e2)
    }
}

/// The fold the reduce adverb computes.
pub open spec fn spec_fold_rest(
    es: Seq<ValV>,
    i: int,
    acc: ValV,
    g: ValV,
    env: EnvV,
    fuel: nat,
) -> (ValV, EnvV)
    decreases fuel,
{
    if fuel == 0 || i >= es.len() {
        (acc, env)
    } else {
        let (nv, e1) = spec_call(
            g,
            acc,
            Option::Some(es[i]),
            env,
            (fuel - 1) as nat,
        );
        spec_fold_rest(es, i + 1, nv, g, e1, (fuel - 1) as nat)
    }
}

/// Scan: the list of partial left-fold results, seeded by `b` if present.
pub open spec fn spec_scan(
    a: ValV,
    b: Option<ValV>,
    g: ValV,
    env: EnvV,
    fuel: nat,
) -> (ValV, EnvV)
    decreases fuel,
{
    if fuel == 0 || !a.is_finite() {
        (ValV::Und, env)
    } else {
        let es = elems(a);
        if es.len() == 0 {
            (b.unwrap_or(ValV::Und), env)
        } else {
            let (v0, e1) = match b {
                Option::Some(bb) => spec_call(
                    g,
                    bb,
                    Option::Some(es[0]),
                    env,
                    (fuel - 1) as nat,
                ),
                Option::None => (es[0], env),
            };
            let (rest, e2) = spec_scan_rest(es, 1, v0, g, e1, (fuel - 1) as nat);
            (vlis(seq![v0] + rest), e2)
        }
    }
}

/// Reduce: the left fold, seeded by `b` if present.
pub open spec fn spec_reduce(
    a: ValV,
    b: Option<ValV>,
    g: ValV,
    env: EnvV,
    fuel: nat,
) -> (ValV, EnvV)
    decreases fuel,
{
    if fuel == 0 || !a.is_finite() {
        (ValV::Und, env)
    } else {
        let es = elems(a);
        if es.len() == 0 {
            (b.unwrap_or(ValV::Und), env)
        } else {
            let (v0, e1) = match b {
                Option::Some(bb) => spec_call(
                    g,
                    bb,
                    Option::Some(es[0]),
                    env,
                    (fuel - 1) as nat,
                ),
                Option::None => (es[0], env),
            };
            spec_fold_rest(es, 1, v0, g, e1, (fuel - 1) as nat)
        }
    }
}

/// The pairwise applications scan-pairs collects.
pub open spec fn spec_pairs_range(
    es: Seq<ValV>,
    i: int,
    g: ValV,
    env: EnvV,
    fuel: nat,
) -> (Seq<ValV>, EnvV)
    decreases fuel,
{
    if fuel == 0 || i >= es.len() {
        (Seq::empty(), env)
    } else {
        let (v, e1) = spec_call(
            g,
            es[i - 1],
            Option::Some(es[i]),
            env,
            (fuel - 1) as nat,
        );
        let (rest, e2) = spec_pairs_range(es, i + 1, g, e1, (fuel - 1) as nat);
        (seq![v] + rest, e2)
    }
}

/// Scan-pairs: apply `g` to each consecutive pair, the first element
/// paired with `b` if present.
pub open spec fn spec_scan_pairs(
    a: ValV,
    b: Option<ValV>,
    g: ValV,
    env: EnvV,
    fuel: nat,
) -> (ValV, EnvV)
    decreases fuel,
{
    if fuel == 0 || !a.is_finite() {
        (ValV::Und, env)
    } else {
        let es = elems(a);
        if es.len() == 0 {
            (ValV::Lis { l: Seq::empty(), fill: Box::new(a.vfill()) }, env)
        } else {
            let (v0, e1) = match b {
                Option::Some(bb) => spec_call(
                    g,
                    bb,
                    Option::Some(es[0]),
                    env,
                    (fuel - 1) as nat,
                ),
                Option::None => (es[0], env),
            };
            let (rest, e2) = spec_pairs_range(es, 1, g, e1, (fuel - 1) as nat);
            (vlis(seq![v0] + rest), e2)
        }
    }
}

/// The window applications the stencil adverb collects.
pub open spec fn spec_stencil_range(
    es: Seq<ValV>,
    i: int,
    count: int,
    size: int,
    b: Option<ValV>,
    g: ValV,
    env: EnvV,
    fuel: nat,
) -> (Seq<ValV>, EnvV)
    decreases fuel,
{
    if fuel == 0 || i >= count {
        (Seq::empty(), env)
    } else {
        let win = vlis(es.subrange(i, i + size));
        let (v, e1) = spec_call(g, win, b, env, (fuel - 1) as nat);
        let (rest, e2) = spec_stencil_range(
            es,
            i + 1,
            count,
            size,
            b,
            g,
            e1,
            (fuel - 1) as nat,
        );
        (seq![v] + rest, e2)
    }
}

/// Stencil: `f` gives a window size, `g` is applied to every contiguous
/// window of that size.
pub open spec fn spec_stencil(
    a: ValV,
    b: Option<ValV>,
    f: ValV,
    g: ValV,
    env: EnvV,
    fuel: nat,
) -> (ValV, EnvV)
    decreases fuel,
{
    if fuel == 0 {
        (ValV::Und, env)
    } else {
        let (szv, e1) = spec_call(f, a, b, env, (fuel - 1) as nat);
        match szv.try_int() {
            Option::None => (vlis(Seq::empty()), e1),
            Option::Some(size) => if !a.is_finite() || size < 0 {
                (vlis(Seq::empty()), e1)
            } else {
                let es = elems(a);
                let count = es.len() + 1 - size;
                let (vals, e2) = spec_stencil_range(
                    es,
                    0,
                    count,
                    size,
                    b,
                    g,
                    e1,
                    (fuel - 1) as nat,
                );
                (vlis(vals), e2)
            },
        }
    }
}

/// Until: iterate `g` until `f` of (new, old) is truthy; the value before
/// the test fired is returned.
pub open spec fn spec_until(
    a: ValV,
    b: Option<ValV>,
    f: ValV,
    g: ValV,
    env: EnvV,
    fuel: nat,
) -> (ValV, EnvV)
    decreases fuel,
{
    if fuel == 0 {
        (ValV::Und, env)
    } else {
        let f1 = (fuel - 1) as nat;
        let (tried, e1) = spec_call(g, a, b, env, f1);
        let (c, e2) = spec_call(f, tried, Option::Some(a), e1, f1);
        if c.as_bool() {
            (a, e2)
        } else {
            spec_until(tried, b, f, g, e2, f1)
        }
    }
}

/// Until-scan: like until, recording every intermediate value, the seed
/// included.
pub open spec fn spec_until_scan(
    a: ValV,
    acc: Seq<ValV>,
    b: Option<ValV>,
    f: ValV,
    g: ValV,
    env: EnvV,
    fuel: nat,
) -> (ValV, EnvV)
    decreases fuel,
{
    if fuel == 0 {
        (ValV::Und, env)
    } else {
        let f1 = (fuel - 1) as nat;
        let (tried, e1) = spec_call(g, a, b, env, f1);
        let (c, e2) = spec_call(f, tried, Option::Some(a), e1, f1);
        if c.as_bool() {
            (vlis(acc), e2)
        } else {
            spec_until_scan(tried, acc.push(tried), b, f, g, e2, f1)
        }
    }
}

/// Power's iteration: apply `g` `k` times.
pub open spec fn spec_power_iter(
    a: ValV,
    k: nat,
    b: Option<ValV>,
    g: ValV,
    env: EnvV,
    fuel: nat,
) -> (ValV, EnvV)
    decreases fuel,
{
    if fuel == 0 || k == 0 {
        (a, env)
    } else {
        let (nv, e1) = spec_call(g, a, b, env, (fuel - 1) as nat);
        spec_power_iter(nv, (k - 1) as nat, b, g, e1, (fuel - 1) as nat)
    }
}

/// Power-scan's trajectory: every state after each of the `k` steps.
pub open spec fn spec_power_scan_iter(
    a: ValV,
    k: nat,
    b: Option<ValV>,
    g: ValV,
    env: EnvV,
    fuel: nat,
) -> (Seq<ValV>, EnvV)
    decreases fuel,
{
    if fuel == 0 || k == 0 {
        (Seq::empty(), env)
    } else {
        let (nv, e1) = spec_call(g, a, b, env, (fuel - 1) as nat);
        let (rest, e2) = spec_power_scan_iter(
            nv,
            (k - 1) as nat,
            b,
            g,
            e1,
            (fuel - 1) as nat,
        );
        (seq![nv] + rest, e2)
    }
}

/// Evaluate one value expression.
pub open spec fn spec_eval_ve(e: VeV, env: EnvV, fuel: nat) -> (ValV, EnvV)
    decreases fuel,
{
    if fuel == 0 {
        (ValV::Und, env)
    } else {
        let f1 = (fuel - 1) as nat;
        match e {
            VeV::Var(n) => (env_get(env, n).unwrap_or(ValV::Und), env),
            VeV::Num(n) => (ValV::Int(n), env),
            VeV::Und => (ValV::Und, env),
            VeV::Snd(l) => {
                let (vals, e1) = spec_eval_snd(l, env, (fuel - 1) as nat);
                (vlis(vals), e1)
            },
            VeV::Nom(f) => spec_eval_fe(*f, env, (fuel - 1) as nat),
            VeV::Afn1 { a, f } => {
                let (av, e1) = spec_eval_ve(*a, env, (fuel - 1) as nat);
                let (fv, e2) = spec_eval_fe(*f, e1, (fuel - 1) as nat);
                spec_call(fv, av, Option::None, e2, f1)
            },
            VeV::Afn2 { a, f, b } => {
                let (av, e1) = spec_eval_ve(*a, env, (fuel - 1) as nat);
                let (fv, e2) = spec_eval_fe(*f, e1, (fuel - 1) as nat);
                let (bv, e3) = spec_eval_ve(*b, e2, (fuel - 1) as nat);
                spec_call(fv, av, Option::Some(bv), e3, f1)
            },
        }
    }
}

/// Evaluate the elements of a strand, left to right.
pub open spec fn spec_eval_snd(l: Seq<VeV>, env: EnvV, fuel: nat) -> (
    Seq<ValV>,
    EnvV,
)
    decreases fuel,
{
    if fuel == 0 || l.len() == 0 {
        (Seq::empty(), env)
    } else {
        let (v, e1) = spec_eval_ve(l[0], env, (fuel - 1) as nat);
        let (rest, e2) = spec_eval_snd(l.subrange(1, l.len() as int), e1, (fuel - 1) as nat);
        (seq![v] + rest, e2)
    }
}

/// Evaluate one function expression to its function value.
pub open spec fn spec_eval_fe(e: FeV, env: EnvV, fuel: nat) -> (ValV, EnvV)
    decreases fuel,
{
    if fuel == 0 {
        (ValV::Und, env)
    } else {
        let f1 = (fuel - 1) as nat;
        match e {
            FeV::Var(n) => (env_get(env, n).unwrap_or(ValV::Und), env),
            FeV::SetVar(n) => (ValV::FSet(n), env),
            FeV::Aav1 { v, g } => {
                let av = env_get(env, v).unwrap_or(ValV::Und);
                let (gv, e1) = spec_eval_tg(*g, env, (fuel - 1) as nat);
                spec_call(av, gv, Option::None, e1, f1)
            },
            FeV::Aav2 { f, v, g } => {
                let av = env_get(env, v).unwrap_or(ValV::Und);
                let (fv, e1) = spec_eval_tg(*f, env, (fuel - 1) as nat);
                let (gv, e2) = spec_eval_tg(*g, e1, (fuel - 1) as nat);
                if *g is Fe {
                    spec_call(av, gv, Option::Some(fv), e2, f1)
                } else {
                    let (h, e3) = spec_call(av, fv, Option::None, e2, f1);
                    spec_call(h, gv, Option::None, e3, f1)
                }
            },
            FeV::Bind { f, b } => {
                let (fv, e1) = spec_eval_fe(*f, env, (fuel - 1) as nat);
                let (bv, e2) = spec_eval_ve(*b, e1, (fuel - 1) as nat);
                (ValV::Bind { f: Box::new(fv), b: Box::new(bv) }, e2)
            },
            FeV::Trn1 { a, f } => {
                let (av, e1) = spec_eval_fe(*a, env, (fuel - 1) as nat);
                let (fv, e2) = spec_eval_fe(*f, e1, (fuel - 1) as nat);
                (ValV::Trn2 { a: Box::new(av), f: Box::new(fv) }, e2)
            },
            FeV::Trn2 { a, f, b } => {
                let (av, e1) = spec_eval_fe(*a, env, (fuel - 1) as nat);
                let (fv, e2) = spec_eval_fe(*f, e1, (fuel - 1) as nat);
                let (bv, e3) = spec_eval_ve(*b, e2, (fuel - 1) as nat);
                (
                    ValV::Trn3 {
                        a: Box::new(av),
                        f: Box::new(fv),
                        b: Box::new(bv),
                    },
                    e3,
                )
            },
            FeV::Dfn(es) => (
                ValV::Dfn { s: es, loc: env.frames.flatten() },
                env,
            ),
        }
    }
}

/// Evaluate a thing.
pub open spec fn spec_eval_tg(t: TgV, env: EnvV, fuel: nat) -> (ValV, EnvV)
    decreases fuel,
{
    if fuel == 0 {
        (ValV::Und, env)
    } else {
        match t {
            TgV::Fe(f) => spec_eval_fe(*f, env, (fuel - 1) as nat),
            TgV::Ve(v) => spec_eval_ve(*v, env, (fuel - 1) as nat),
        }
    }
}

/// Evaluate an expression sequence: each expression in order, keeping the
/// last value; a termination marker short-circuits at once.
pub open spec fn spec_block(es: Seq<VeV>, env: EnvV, fuel: nat) -> (
    ValV,
    EnvV,
)
    decreases fuel,
{
    if fuel == 0 || es.len() == 0 {
        (ValV::Und, env)
    } else {
        let (v, e1) = spec_eval_ve(es[0], env, (fuel - 1) as nat);
        if v is Halt {
            (v, e1)
        } else if es.len() == 1 {
            (v, e1)
        } else {
            spec_block(es.subrange(1, es.len() as int), e1, (fuel - 1) as nat)
        }
    }
}

} // verus!
