//! The general laws of the language, stated once over the specification
//! evaluator and proved for every input.
use vstd::prelude::*;
use crate::val::{ValV, BindV};
use crate::ast::VeV;
use crate::env::EnvV;
use crate::token::{B_SIGMA, B_ALPHA, B_BETA, B_SELF};
use crate::model::{spec_prim, spec_call, spec_scan, spec_reduce,
    spec_scan_rest, spec_fold_rest, spec_stencil_range, spec_power_iter,
    power_count, sat64, elems, vlis, spec_block, spec_eval_ve, spec_each,
    spec_each2_range, insert_sorted, sort_ints, insert_grade_up,
    grade_up_ints, insert_grade_down, grade_down_ints};
use vstd::seq_lib::lemma_multiset_commutative;
use vstd::multiset::Multiset;

verus! {

/// Integer addition saturates: the sum of any two representable integers
/// is the clamp of their exact sum, and always representable itself.
pub proof fn lemma_saturating_add(a: int, b: int)
    requires
        i64::MIN <= a <= i64::MAX,
        i64::MIN <= b <= i64::MAX,
    ensures
        spec_prim(ValV::Add, ValV::Int(a), Option::Some(ValV::Int(b)))
            == ValV::Int(sat64(a + b)),
        i64::MIN <= sat64(a + b) <= i64::MAX,
{
}

/// Indexing a list beyond its materialized length yields its fill.
pub proof fn lemma_fill_index(l: Seq<ValV>, fill: ValV, n: int)
    requires
        n >= l.len() || n < 0,
    ensures
        (ValV::Lis { l, fill: Box::new(fill) }).vindex(n) == fill,
{
}

/// The running fold and the plain fold walk in step: the fold's result
/// is the last partial result the scan records (or the seed, where the
/// scan records nothing), and both leave the environment the same.
pub proof fn lemma_scan_rest_fold(
    es: Seq<ValV>,
    i: int,
    acc: ValV,
    g: ValV,
    env: EnvV,
    fuel: nat,
)
    ensures
        ({
            let (vs, e1) = spec_scan_rest(es, i, acc, g, env, fuel);
            let (rv, e2) = spec_fold_rest(es, i, acc, g, env, fuel);
            e1 == e2 && rv == if vs.len() == 0 {
                acc
            } else {
                vs.last()
            }
        }),
    decreases fuel,
{
    if fuel == 0 || i >= es.len() {
    } else {
        let (nv, e1) = spec_call(
            g,
            acc,
            Option::Some(es[i]),
            env,
            (fuel - 1) as nat,
        );
        lemma_scan_rest_fold(es, i + 1, nv, g, e1, (fuel - 1) as nat);
    }
}

/// Reduce/scan identity: on a non-empty finite operand, the last element
/// of the scan is the reduce, and both evaluations leave the environment
/// the same.
pub proof fn lemma_scan_reduce(
    a: ValV,
    b: Option<ValV>,
    g: ValV,
    env: EnvV,
    fuel: nat,
)
    requires
        a.is_finite(),
        elems(a).len() > 0,
        fuel > 0,
    ensures
        ({
            let (sv, e1) = spec_scan(a, b, g, env, fuel);
            let (rv, e2) = spec_reduce(a, b, g, env, fuel);
            e1 == e2 && (sv matches ValV::Lis { l, .. } && l.len() > 0
                && l.last() == rv)
        }),
{
    let es = elems(a);
    let (v0, e1) = match b {
        Option::Some(bb) => spec_call(
            g,
            bb,
            Option::Some(es[0]),
            env,
            (fuel - 1) as nat,
        ),
        Option::None => (es[0], env),
    };
    lemma_scan_rest_fold(es, 1, v0, g, e1, (fuel - 1) as nat);
}

/// Power with a negative or non-numeric count performs zero applications
/// and returns the operand unchanged.
pub proof fn lemma_power_zero(
    a: ValV,
    b: Option<ValV>,
    g: ValV,
    numv: ValV,
    env: EnvV,
    fuel: nat,
)
    requires
        numv.try_int() is None || (numv.try_int() matches Option::Some(x)
            && x < 0),
    ensures
        power_count(numv) == 0,
        spec_power_iter(a, power_count(numv), b, g, env, fuel) == (a, env),
{
}

/// The stencil applies its function to exactly `count - i` windows when
/// the fuel covers them.
pub proof fn lemma_stencil_count(
    es: Seq<ValV>,
    i: int,
    count: int,
    size: int,
    b: Option<ValV>,
    g: ValV,
    env: EnvV,
    fuel: nat,
)
    requires
        0 <= i <= count,
        fuel >= count - i,
    ensures
        spec_stencil_range(es, i, count, size, b, g, env, fuel).0.len()
            == count - i,
    decreases fuel,
{
    if fuel == 0 || i >= count {
    } else {
        let win = vlis(es.subrange(i, i + size));
        let (v, e1) = spec_call(g, win, b, env, (fuel - 1) as nat);
        lemma_stencil_count(
            es,
            i + 1,
            count,
            size,
            b,
            g,
            e1,
            (fuel - 1) as nat,
        );
    }
}


/// A termination marker short-circuits a block: once an expression yields
/// it, the block's result is that marker and no later expression is
/// evaluated (the environment is exactly the one the marker left).
pub proof fn lemma_exit_short_circuit(
    es: Seq<VeV>,
    env: EnvV,
    fuel: nat,
    c: int,
)
    requires
        fuel > 0,
        es.len() > 0,
        spec_eval_ve(es[0], env, (fuel - 1) as nat).0 == ValV::Halt(c),
    ensures
        spec_block(es, env, fuel) == (
            ValV::Halt(c),
            spec_eval_ve(es[0], env, (fuel - 1) as nat).1,
        ),
{
}

/// Calling a user block pushes one frame carrying the captured scope and
/// the four pseudo-variables, evaluates the body, and pops that frame
/// unconditionally — a termination marker included: the marker is the
/// call's result and the frame is still gone.
pub proof fn lemma_dfn_pops_frame(
    s: Seq<VeV>,
    loc: Seq<BindV>,
    a: ValV,
    b: Option<ValV>,
    env: EnvV,
    fuel: nat,
)
    requires
        fuel > 0,
    ensures
        ({
            let frame = loc.push(
                BindV {
                    name: seq![B_SIGMA],
                    val: ValV::Int(if b is Some { 2int } else { 1int }),
                },
            ).push(BindV { name: seq![B_ALPHA], val: a }).push(
                BindV { name: seq![B_BETA], val: b.unwrap_or(ValV::Und) },
            ).push(
                BindV { name: seq![B_SELF], val: ValV::Dfn { s, loc } },
            );
            let env1 = EnvV { frames: env.frames.push(frame), ..env };
            let (rv, e2) = spec_block(s, env1, (fuel - 1) as nat);
            spec_call(ValV::Dfn { s, loc }, a, b, env, fuel) == (
                rv,
                EnvV { frames: e2.frames.drop_last(), ..e2 },
            )
        }),
{
}


/// Elementwise addition over a range: every position holds the sum of
/// the operands' elements there, and the environment never moves.
pub proof fn lemma_each2_add(
    a: ValV,
    bb: ValV,
    i: int,
    n: int,
    env: EnvV,
    fuel: nat,
)
    requires
        i <= n,
        fuel > n - i,
    ensures
        ({
            let (vs, ev) = spec_each2_range(a, bb, ValV::Add, i, n, env, fuel);
            ev == env && vs.len() == n - i && forall|k: int|
                0 <= k < n - i ==> vs[k] == spec_prim(
                    ValV::Add,
                    a.vindex(i + k),
                    Option::Some(bb.vindex(i + k)),
                )
        }),
    decreases n - i,
{
    if i < n {
        let (v, e1) = spec_call(
            ValV::Add,
            a.vindex(i),
            Option::Some(bb.vindex(i)),
            env,
            (fuel - 1) as nat,
        );
        assert(e1 == env);
        lemma_each2_add(a, bb, i + 1, n, env, (fuel - 1) as nat);
    }
}

/// Broadcasting: addition applied to a scalar and a finite list of
/// length k yields a list of length k carrying the list's fill, whose
/// every element is the scalar plus the corresponding element.
pub proof fn lemma_each_broadcast_add(
    a: ValV,
    l: Seq<ValV>,
    fill: ValV,
    env: EnvV,
    fuel: nat,
)
    requires
        a.is_scalar(),
        fuel > l.len() + 1,
    ensures
        ({
            let bl = ValV::Lis { l, fill: Box::new(fill) };
            let (rv, ev) = spec_each(
                a,
                Option::Some(bl),
                ValV::Add,
                env,
                fuel,
            );
            ev == env && (rv matches ValV::Lis { l: vals, fill: f2 }
                && vals.len() == l.len() && *f2 == fill && forall|k: int|
                0 <= k < l.len() ==> vals[k] == spec_prim(
                    ValV::Add,
                    a,
                    Option::Some(l[k]),
                ))
        }),
{
    let bl = ValV::Lis { l, fill: Box::new(fill) };
    lemma_each2_add(a, bl, 0, l.len() as int, env, (fuel - 1) as nat);
    assert(forall|k: int| 0 <= k < l.len() ==> a.vindex(k) == a);
    assert(forall|k: int|
        0 <= k < l.len() ==> #[trigger] bl.vindex(k) == l[k]);
}


/// The environment and fuel in force when a block reaches expression `i`:
/// the state after evaluating the first `i` expressions in order.
pub open spec fn block_resume(es: Seq<VeV>, env: EnvV, fuel: nat, i: int) -> (
    EnvV,
    nat,
)
    decreases i,
{
    if i <= 0 {
        (env, fuel)
    } else {
        let (e0, f0) = block_resume(es, env, fuel, i - 1);
        if f0 == 0 {
            (e0, 0)
        } else {
            let (v, e1) = spec_eval_ve(es[i - 1], e0, (f0 - 1) as nat);
            (e1, (f0 - 1) as nat)
        }
    }
}

/// Reaching expression `i` spends exactly `i` fuel.
pub proof fn lemma_resume_fuel(es: Seq<VeV>, env: EnvV, fuel: nat, i: int)
    requires
        0 <= i <= fuel,
    ensures
        block_resume(es, env, fuel, i).1 == fuel - i,
    decreases i,
{
    if i > 0 {
        lemma_resume_fuel(es, env, fuel, i - 1);
    }
}

/// Dropping a block's first expression shifts the resume state: position
/// `j` of the rest is position `j + 1` of the whole.
pub proof fn lemma_resume_shift(es: Seq<VeV>, env: EnvV, fuel: nat, j: int)
    requires
        fuel > 0,
        es.len() >= 1,
        0 <= j < es.len(),
    ensures
        block_resume(
            es.subrange(1, es.len() as int),
            spec_eval_ve(es[0], env, (fuel - 1) as nat).1,
            (fuel - 1) as nat,
            j,
        ) == block_resume(es, env, fuel, j + 1),
    decreases j,
{
    reveal_with_fuel(block_resume, 3);
    let rest = es.subrange(1, es.len() as int);
    let e1 = spec_eval_ve(es[0], env, (fuel - 1) as nat).1;
    if j == 0 {
        assert(block_resume(rest, e1, (fuel - 1) as nat, 0) == (
            e1,
            (fuel - 1) as nat,
        ));
    } else {
        lemma_resume_shift(es, env, fuel, j - 1);
        assert(rest[j - 1] == es[j]);
    }
}

/// Exit propagation from any position: if the first `i` expressions of a
/// block yield no termination marker and expression `i` yields one, the
/// block's result is that marker and the later expressions are never
/// evaluated — the environment is exactly the one the marker left.
pub proof fn lemma_exit_at(
    es: Seq<VeV>,
    env: EnvV,
    fuel: nat,
    i: int,
    c: int,
)
    requires
        0 <= i < es.len(),
        fuel > i,
        forall|j: int|
            0 <= j < i ==> !(#[trigger] spec_eval_ve(
                es[j],
                block_resume(es, env, fuel, j).0,
                (fuel - j - 1) as nat,
            ).0 is Halt),
        spec_eval_ve(
            es[i],
            block_resume(es, env, fuel, i).0,
            (fuel - i - 1) as nat,
        ).0 == ValV::Halt(c),
    ensures
        spec_block(es, env, fuel) == (
            ValV::Halt(c),
            spec_eval_ve(
                es[i],
                block_resume(es, env, fuel, i).0,
                (fuel - i - 1) as nat,
            ).1,
        ),
    decreases i,
{
    if i == 0 {
        assert(block_resume(es, env, fuel, 0).0 == env);
    } else {
        let (v0, e1) = spec_eval_ve(es[0], env, (fuel - 1) as nat);
        assert(block_resume(es, env, fuel, 0) == (env, fuel));
        assert(!(spec_eval_ve(
            es[0],
            block_resume(es, env, fuel, 0).0,
            (fuel - 0 - 1) as nat,
        ).0 is Halt));
        assert(!(v0 is Halt));
        let rest = es.subrange(1, es.len() as int);
        assert(es.len() >= 2);
        // The hypotheses shift onto the rest of the block.
        assert forall|j: int| 0 <= j < i - 1 implies !(#[trigger] spec_eval_ve(
            rest[j],
            block_resume(rest, e1, (fuel - 1) as nat, j).0,
            ((fuel - 1) - j - 1) as nat,
        ).0 is Halt) by {
            lemma_resume_shift(es, env, fuel, j);
            assert(rest[j] == es[j + 1]);
            assert(!(spec_eval_ve(
                es[j + 1],
                block_resume(es, env, fuel, j + 1).0,
                (fuel - (j + 1) - 1) as nat,
            ).0 is Halt));
        }
        lemma_resume_shift(es, env, fuel, i - 1);
        assert(rest[i - 1] == es[i]);
        lemma_exit_at(rest, e1, (fuel - 1) as nat, i - 1, c);
    }
}


/// Ascending order over a key sequence.
pub open spec fn sorted_asc(s: Seq<int>) -> bool {
    forall|i: int, j: int|
        #![trigger s[i], s[j]]
        0 <= i <= j < s.len() ==> s[i] <= s[j]
}

/// Inserting into a sorted run keeps it sorted and adds exactly the one
/// key.
pub proof fn lemma_insert_sorted_props(x: int, s: Seq<int>)
    requires
        sorted_asc(s),
    ensures
        sorted_asc(insert_sorted(x, s)),
        insert_sorted(x, s).to_multiset() =~= s.to_multiset().insert(x),
        insert_sorted(x, s).len() == s.len() + 1,
    decreases s.len(),
{
    broadcast use vstd::seq_lib::group_to_multiset_ensures;

    let r = insert_sorted(x, s);
    if s.len() == 0 {
        assert(seq![x] =~= Seq::<int>::empty().push(x));
        assert(r.to_multiset() =~= s.to_multiset().insert(x));
    } else if x <= s[0] {
        assert(r =~= seq![x] + s);
        lemma_multiset_commutative(seq![x], s);
        assert(seq![x] =~= Seq::<int>::empty().push(x));
        assert(seq![x].to_multiset() =~= Multiset::<int>::empty().insert(x));
        assert(Multiset::<int>::empty().insert(x).add(s.to_multiset())
            =~= s.to_multiset().insert(x));
        assert forall|i: int, j: int|
            #![trigger r[i], r[j]]
            0 <= i <= j < r.len() implies r[i] <= r[j] by {
            if i == 0 && j > 0 {
                assert(r[j] == s[j - 1]);
                assert(s[0] <= s[j - 1]);
            }
        }
    } else {
        let rest = s.subrange(1, s.len() as int);
        assert(sorted_asc(rest)) by {
            assert(forall|i: int, j: int|
                #![trigger rest[i], rest[j]]
                0 <= i <= j < rest.len() ==> s[i + 1] <= s[j + 1]);
        }
        lemma_insert_sorted_props(x, rest);
        let t = insert_sorted(x, rest);
        assert(r =~= seq![s[0]] + t);
        // Every key of the inserted run is at least the head.
        assert forall|m: int|
            0 <= m < t.len() implies s[0] <= #[trigger] t[m] by {
            let e = t[m];
            assert(t.contains(e));
            assert(t.to_multiset().count(e) > 0);
            if e == x {
            } else {
                assert(rest.to_multiset().count(e) > 0);
                assert(rest.contains(e));
                let k = choose|k: int| 0 <= k < rest.len() && rest[k] == e;
                assert(s[0] <= s[k + 1]);
            }
        }
        assert forall|i: int, j: int|
            #![trigger r[i], r[j]]
            0 <= i <= j < r.len() implies r[i] <= r[j] by {
            if i == 0 && j > 0 {
                assert(r[j] == t[j - 1]);
            } else if i > 0 {
                assert(r[i] == t[i - 1] && r[j] == t[j - 1]);
            }
        }
        // The one key moved in, nothing else changed.
        lemma_multiset_commutative(seq![s[0]], t);
        lemma_multiset_commutative(seq![s[0]], rest);
        assert(s =~= seq![s[0]] + rest);
        assert(seq![s[0]] =~= Seq::<int>::empty().push(s[0]));
        assert(r.to_multiset() =~= s.to_multiset().insert(x));
    }
}

/// The sort of a key sequence is sorted and is a permutation of it: the
/// ordering law behind the sorting primitives.
pub proof fn lemma_sort_ints_props(s: Seq<int>)
    ensures
        sorted_asc(sort_ints(s)),
        sort_ints(s).to_multiset() =~= s.to_multiset(),
        sort_ints(s).len() == s.len(),
    decreases s.len(),
{
    broadcast use vstd::seq_lib::group_to_multiset_ensures;

    if s.len() > 0 {
        let rest = s.subrange(1, s.len() as int);
        lemma_sort_ints_props(rest);
        lemma_insert_sorted_props(s[0], sort_ints(rest));
        lemma_multiset_commutative(seq![s[0]], rest);
        assert(s =~= seq![s[0]] + rest);
        assert(seq![s[0]] =~= Seq::<int>::empty().push(s[0]));
        assert(sort_ints(s).to_multiset() =~= s.to_multiset());
    }
}


/// Inserting one index into a grade adds exactly that index.
pub proof fn lemma_insert_grade_multiset(
    i: int,
    keys: Seq<int>,
    g: Seq<int>,
    up: bool,
)
    ensures
        up ==> insert_grade_up(i, keys, g).to_multiset()
            =~= g.to_multiset().insert(i),
        !up ==> insert_grade_down(i, keys, g).to_multiset()
            =~= g.to_multiset().insert(i),
    decreases g.len(),
{
    broadcast use vstd::seq_lib::group_to_multiset_ensures;

    let r = if up {
        insert_grade_up(i, keys, g)
    } else {
        insert_grade_down(i, keys, g)
    };
    if g.len() == 0 {
        assert(seq![i] =~= Seq::<int>::empty().push(i));
        assert(r.to_multiset() =~= g.to_multiset().insert(i));
    } else if r == seq![i] + g {
        lemma_multiset_commutative(seq![i], g);
        assert(seq![i] =~= Seq::<int>::empty().push(i));
        assert(r.to_multiset() =~= g.to_multiset().insert(i));
    } else {
        let rest = g.subrange(1, g.len() as int);
        lemma_insert_grade_multiset(i, keys, rest, up);
        let t = if up {
            insert_grade_up(i, keys, rest)
        } else {
            insert_grade_down(i, keys, rest)
        };
        assert(r =~= seq![g[0]] + t);
        lemma_multiset_commutative(seq![g[0]], t);
        lemma_multiset_commutative(seq![g[0]], rest);
        assert(g =~= seq![g[0]] + rest);
        assert(seq![g[0]] =~= Seq::<int>::empty().push(g[0]));
        assert(r.to_multiset() =~= g.to_multiset().insert(i));
    }
}

/// The grade of `n` keys is a permutation of the positions `0..n`: every
/// position appears exactly once, in either direction.
pub proof fn lemma_grade_permutation(keys: Seq<int>, n: int, up: bool)
    requires
        n >= 0,
    ensures
        up ==> grade_up_ints(keys, n).to_multiset() =~= Seq::new(
            n as nat,
            |i: int| i,
        ).to_multiset(),
        !up ==> grade_down_ints(keys, n).to_multiset() =~= Seq::new(
            n as nat,
            |i: int| i,
        ).to_multiset(),
    decreases n,
{
    broadcast use vstd::seq_lib::group_to_multiset_ensures;

    if n > 0 {
        lemma_grade_permutation(keys, n - 1, up);
        lemma_insert_grade_multiset(
            n - 1,
            keys,
            if up {
                grade_up_ints(keys, n - 1)
            } else {
                grade_down_ints(keys, n - 1)
            },
            up,
        );
        assert(Seq::new(n as nat, |i: int| i) =~= Seq::new(
            (n - 1) as nat,
            |i: int| i,
        ).push(n - 1));
    }
}

} // verus!
