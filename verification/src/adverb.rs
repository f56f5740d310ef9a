//! The adverb engine: the combinators that implement implicit iteration
//! and broadcasting. Each function returns exactly what the specification
//! evaluator says.
use vstd::prelude::*;
use std::rc::Rc;
use crate::val::{Val, ValV, view_val, view_val_seq, lemma_view_val_seq, vopt,
    dup_opt, rc_dup, AvT};
use crate::env::Env;
use crate::intrn::{vfopt, elems_of, index_wide2};
use crate::model::{spec_av, spec_each, spec_each_left, spec_conform,
    spec_extend, spec_scan, spec_reduce, spec_scan_pairs, spec_stencil,
    spec_until, spec_until_scan, spec_power_iter, spec_power_scan_iter,
    power_count, spec_each2_range, spec_eachl_range, spec_conf2_range,
    spec_ext_range, spec_scan_rest, spec_fold_rest, spec_pairs_range,
    spec_stencil_range, spec_call, defer_fork, elems, vlis};

verus! {

impl AvT {
    /// Dispatch one adverb application.
    pub fn call(
        &self,
        env: &mut Env,
        a: Val,
        b: Option<Val>,
        f: Option<&Rc<Val>>,
        g: &Rc<Val>,
        fuel: u64,
    ) -> (r: Val)
        ensures
            ({
                let (rv, ev) = spec_av(
                    *self,
                    a@,
                    vopt(b),
                    vfopt(f),
                    g@,
                    old(env)@,
                    fuel as nat,
                );
                r@ == rv && final(env)@ == ev
            }),
            final(env)@.frames.len() == old(env)@.frames.len(),
        decreases fuel,
    {
        if fuel == 0 {
            return Val::Und;
        }
        let f1 = fuel - 1;
        let fg: &Rc<Val> = match f {
            Option::Some(x) => x,
            Option::None => g,
        };
        match self {
            AvT::Swap => {
                let left = match &b {
                    Option::Some(bb) => bb.dup(),
                    Option::None => a.dup(),
                };
                (**g).call(env, left, Option::Some(a), f1)
            },
            AvT::Const => (**g).dup(),
            AvT::Monadic => (**g).call(env, a, Option::None, f1),
            AvT::Each => each(env, a, b, g, f1),
            AvT::EachLeft => each_left(env, a, b, g, f1),
            AvT::Conform => conform(env, a, b, g, f1),
            AvT::Extend => extend(env, a, b, g, f1),
            AvT::Scan => scan(env, a, b, g, f1),
            AvT::ScanPairs => scan_pairs(env, a, b, g, f1),
            AvT::Reduce => reduce(env, a, b, g, f1),
            AvT::Stencil => stencil(env, a, b, fg, g, f1),
            AvT::Valences => {
                let which: &Rc<Val> = if b.is_none() {
                    fg
                } else {
                    g
                };
                (**which).call(env, a, b, f1)
            },
            AvT::Over => {
                let l = (**fg).call(env, a.dup(), Option::None, f1);
                let right = match b {
                    Option::Some(bb) => bb,
                    Option::None => a,
                };
                let r2 = (**fg).call(env, right, Option::None, f1);
                (**g).call(env, l, Option::Some(r2), f1)
            },
            AvT::Overleft => {
                let x = (**fg).call(env, a.dup(), Option::None, f1);
                let right = match b {
                    Option::Some(bb) => bb,
                    Option::None => a,
                };
                (**g).call(env, x, Option::Some(right), f1)
            },
            AvT::Overright => {
                let right = match &b {
                    Option::Some(bb) => bb.dup(),
                    Option::None => a.dup(),
                };
                let x = (**fg).call(env, right, Option::None, f1);
                (**g).call(env, a, Option::Some(x), f1)
            },
            AvT::Until => until(env, a, b, fg, g, f1),
            AvT::UntilScan => {
                let mut acc: Vec<Val> = Vec::new();
                acc.push(a.dup());
                proof {
                    lemma_view_val_seq(acc@);
                    assert(view_val_seq(acc@) =~= seq![a@]);
                }
                until_scan_from(env, a, acc, b, fg, g, f1)
            },
            AvT::Power => {
                let numv = (**fg).call(env, a.dup(), dup_opt(&b), f1);
                let k: u64 = match numv.try_int() {
                    Option::Some(x) => if x >= 0 {
                        x as u64
                    } else {
                        0
                    },
                    Option::None => 0,
                };
                power_iter(env, a, k, b, g, f1)
            },
            AvT::PowerScan => {
                let numv = (**fg).call(env, a.dup(), dup_opt(&b), f1);
                let k: u64 = match numv.try_int() {
                    Option::Some(x) => if x >= 0 {
                        x as u64
                    } else {
                        0
                    },
                    Option::None => 0,
                };
                let ghost genv = env@;
                let vals = power_scan_iter(env, a, k, b, g, f1);
                let ghost gvals = vals@;
                let r = Val::lis(vals);
                proof {
                    lemma_view_val_seq(gvals);
                    assert(r@ =~~= vlis(
                        spec_power_scan_iter(
                            a@,
                            k as nat,
                            vopt(b),
                            g@,
                            genv,
                            f1 as nat,
                        ).0,
                    ));
                }
                r
            },
        }
    }
}

/// Elementwise dyadic application over two finite operands.
fn each2_range(
    env: &mut Env,
    a: &Val,
    bb: &Val,
    g: &Rc<Val>,
    start: usize,
    n: usize,
    fuel: u64,
) -> (r: Vec<Val>)
    requires
        a@.is_finite(),
        bb@.is_finite(),
    ensures
        ({
            let (vs, ev) = spec_each2_range(
                a@,
                bb@,
                g@,
                start as int,
                n as int,
                old(env)@,
                fuel as nat,
            );
            view_val_seq(r@) == vs && final(env)@ == ev
        }),
        final(env)@.frames.len() == old(env)@.frames.len(),
    decreases fuel,
{
    let ghost spec0 = spec_each2_range(
        a@,
        bb@,
        g@,
        start as int,
        n as int,
        old(env)@,
        fuel as nat,
    );
    let mut out: Vec<Val> = Vec::new();
    let mut i = start;
    let mut fl = fuel;
    while fl > 0 && i < n
        invariant
            start <= i,
            fl <= fuel,
            a@.is_finite(),
            bb@.is_finite(),
            spec0 == spec_each2_range(
                a@,
                bb@,
                g@,
                start as int,
                n as int,
                old(env)@,
                fuel as nat,
            ),
            ({
                let (vs, ev) = spec_each2_range(
                    a@,
                    bb@,
                    g@,
                    i as int,
                    n as int,
                    env@,
                    fl as nat,
                );
                spec0.0 == view_val_seq(out@) + vs && spec0.1 == ev
            }),
            env@.frames.len() == old(env)@.frames.len(),
        decreases fl,
    {
        let l = index_wide2(a, i);
        let rr = index_wide2(bb, i);
        let v = (**g).call(env, l, Option::Some(rr), fl - 1);
        let ghost before = out@;
        let ghost gv = v@;
        out.push(v);
        proof {
            lemma_view_val_seq(out@);
            lemma_view_val_seq(before);
            assert(out@.subrange(0, out@.len() - 1) =~= before);
            assert(view_val_seq(out@) =~= view_val_seq(before).push(gv));
            assert(spec0.0 =~= view_val_seq(out@) + spec_each2_range(
                a@,
                bb@,
                g@,
                i + 1,
                n as int,
                env@,
                (fl - 1) as nat,
            ).0);
        }
        i += 1;
        fl -= 1;
    }
    proof {
        assert(spec0.0 =~= view_val_seq(out@));
    }
    out
}

/// Each: apply `g` elementwise, broadcasting scalars, deferring on any
/// unbounded operand.
pub fn each(env: &mut Env, a: Val, b: Option<Val>, g: &Rc<Val>, fuel: u64)
    -> (r: Val)
    ensures
        ({
            let (rv, ev) = spec_each(a@, vopt(b), g@, old(env)@, fuel as nat);
            r@ == rv && final(env)@ == ev
        }),
        final(env)@.frames.len() == old(env)@.frames.len(),
    decreases fuel,
{
    if fuel == 0 {
        return Val::Und;
    }
    let f1 = fuel - 1;
    match b {
        Option::Some(bb) => {
            if a.is_scalar() && bb.is_scalar() {
                (**g).call(env, a, Option::Some(bb), f1)
            } else if !a.is_finite() || !bb.is_finite() {
                let r = Val::Fork {
                    a: a.rc(),
                    f: Val::Av(AvT::Conform, Option::None, rc_dup(g)).rc(),
                    b: bb.rc(),
                };
                proof {
                    assert(r@ =~~= defer_fork(a@, bb@, g@));
                }
                r
            } else {
                let n: usize = if a.is_scalar() {
                    bb.len()
                } else if bb.is_scalar() {
                    a.len()
                } else if a.len() >= bb.len() {
                    a.len()
                } else {
                    bb.len()
                };
                let fill = if a.is_scalar() {
                    bb.fill()
                } else {
                    a.fill()
                };
                let vals = each2_range(env, &a, &bb, g, 0, n, fuel - 1);
                let ghost gvals = vals@;
                let r = Val::lis_fill(vals, fill);
                proof {
                    let (vs, ev) = spec_each(
                        a@,
                        vopt(b),
                        g@,
                        old(env)@,
                        fuel as nat,
                    );
                    assert(r@ =~~= vs);
                }
                r
            }
        },
        Option::None => each_left(env, a, Option::None, g, fuel - 1),
    }
}

/// Elementwise application of `g` with a fixed right operand.
fn eachl_range(
    env: &mut Env,
    a: &Val,
    b: &Option<Val>,
    g: &Rc<Val>,
    start: usize,
    n: usize,
    fuel: u64,
) -> (r: Vec<Val>)
    requires
        a@.is_finite(),
    ensures
        ({
            let (vs, ev) = spec_eachl_range(
                a@,
                vopt(*b),
                g@,
                start as int,
                n as int,
                old(env)@,
                fuel as nat,
            );
            view_val_seq(r@) == vs && final(env)@ == ev
        }),
        final(env)@.frames.len() == old(env)@.frames.len(),
    decreases fuel,
{
    let ghost spec0 = spec_eachl_range(
        a@,
        vopt(*b),
        g@,
        start as int,
        n as int,
        old(env)@,
        fuel as nat,
    );
    let mut out: Vec<Val> = Vec::new();
    let mut i = start;
    let mut fl = fuel;
    while fl > 0 && i < n
        invariant
            start <= i,
            fl <= fuel,
            a@.is_finite(),
            spec0 == spec_eachl_range(
                a@,
                vopt(*b),
                g@,
                start as int,
                n as int,
                old(env)@,
                fuel as nat,
            ),
            ({
                let (vs, ev) = spec_eachl_range(
                    a@,
                    vopt(*b),
                    g@,
                    i as int,
                    n as int,
                    env@,
                    fl as nat,
                );
                spec0.0 == view_val_seq(out@) + vs && spec0.1 == ev
            }),
            env@.frames.len() == old(env)@.frames.len(),
        decreases fl,
    {
        let l = index_wide2(a, i);
        let v = (**g).call(env, l, dup_opt(b), fl - 1);
        let ghost before = out@;
        let ghost gv = v@;
        out.push(v);
        proof {
            lemma_view_val_seq(out@);
            lemma_view_val_seq(before);
            assert(out@.subrange(0, out@.len() - 1) =~= before);
            assert(view_val_seq(out@) =~= view_val_seq(before).push(gv));
            assert(spec0.0 =~= view_val_seq(out@) + spec_eachl_range(
                a@,
                vopt(*b),
                g@,
                i + 1,
                n as int,
                env@,
                (fl - 1) as nat,
            ).0);
        }
        i += 1;
        fl -= 1;
    }
    proof {
        assert(spec0.0 =~= view_val_seq(out@));
    }
    out
}

/// Each-left: apply `g` to each element of `a`, keeping `b` whole.
pub fn each_left(env: &mut Env, a: Val, b: Option<Val>, g: &Rc<Val>, fuel: u64)
    -> (r: Val)
    ensures
        ({
            let (rv, ev) = spec_each_left(
                a@,
                vopt(b),
                g@,
                old(env)@,
                fuel as nat,
            );
            r@ == rv && final(env)@ == ev
        }),
        final(env)@.frames.len() == old(env)@.frames.len(),
    decreases fuel,
{
    if fuel == 0 {
        return Val::Und;
    }
    if a.is_scalar() {
        (**g).call(env, a, b, fuel - 1)
    } else if !a.is_finite() {
        match b {
            Option::Some(bb) => {
                let r = Val::Fork { a: a.rc(), f: rc_dup(g), b: bb.rc() };
                proof {
                    assert(r@ =~~= (ValV::Fork {
                        a: Box::new(a@),
                        f: Box::new(g@),
                        b: Box::new(bb@),
                    }));
                }
                r
            },
            Option::None => {
                let r = Val::Trn2 { a: a.rc(), f: rc_dup(g) };
                proof {
                    assert(r@ =~~= (ValV::Trn2 {
                        a: Box::new(a@),
                        f: Box::new(g@),
                    }));
                }
                r
            },
        }
    } else {
        let n = a.len();
        let fill = a.fill();
        let vals = eachl_range(env, &a, &b, g, 0, n, fuel - 1);
        let r = Val::lis_fill(vals, fill);
        proof {
            let (rv, ev) = spec_each_left(
                a@,
                vopt(b),
                g@,
                old(env)@,
                fuel as nat,
            );
            assert(r@ =~~= rv);
        }
        r
    }
}

/// Conform, elementwise recursion of both sides together.
fn conf2_range(
    env: &mut Env,
    a: &Val,
    bb: &Val,
    g: &Rc<Val>,
    start: usize,
    n: usize,
    fuel: u64,
) -> (r: Vec<Val>)
    requires
        a@.is_finite(),
        bb@.is_finite(),
    ensures
        ({
            let (vs, ev) = spec_conf2_range(
                a@,
                bb@,
                g@,
                start as int,
                n as int,
                old(env)@,
                fuel as nat,
            );
            view_val_seq(r@) == vs && final(env)@ == ev
        }),
        final(env)@.frames.len() == old(env)@.frames.len(),
    decreases fuel,
{
    let ghost spec0 = spec_conf2_range(
        a@,
        bb@,
        g@,
        start as int,
        n as int,
        old(env)@,
        fuel as nat,
    );
    let mut out: Vec<Val> = Vec::new();
    let mut i = start;
    let mut fl = fuel;
    while fl > 0 && i < n
        invariant
            start <= i,
            fl <= fuel,
            a@.is_finite(),
            bb@.is_finite(),
            spec0 == spec_conf2_range(
                a@,
                bb@,
                g@,
                start as int,
                n as int,
                old(env)@,
                fuel as nat,
            ),
            ({
                let (vs, ev) = spec_conf2_range(
                    a@,
                    bb@,
                    g@,
                    i as int,
                    n as int,
                    env@,
                    fl as nat,
                );
                spec0.0 == view_val_seq(out@) + vs && spec0.1 == ev
            }),
            env@.frames.len() == old(env)@.frames.len(),
        decreases fl,
    {
        let l = index_wide2(a, i);
        let rr = index_wide2(bb, i);
        let v = conform(env, l, Option::Some(rr), g, fl - 1);
        let ghost before = out@;
        let ghost gv = v@;
        out.push(v);
        proof {
            lemma_view_val_seq(out@);
            lemma_view_val_seq(before);
            assert(out@.subrange(0, out@.len() - 1) =~= before);
            assert(view_val_seq(out@) =~= view_val_seq(before).push(gv));
            assert(spec0.0 =~= view_val_seq(out@) + spec_conf2_range(
                a@,
                bb@,
                g@,
                i + 1,
                n as int,
                env@,
                (fl - 1) as nat,
            ).0);
        }
        i += 1;
        fl -= 1;
    }
    proof {
        assert(spec0.0 =~= view_val_seq(out@));
    }
    out
}

/// Conform: like each, but recursing structurally into nested lists.
pub fn conform(env: &mut Env, a: Val, b: Option<Val>, g: &Rc<Val>, fuel: u64)
    -> (r: Val)
    ensures
        ({
            let (rv, ev) = spec_conform(
                a@,
                vopt(b),
                g@,
                old(env)@,
                fuel as nat,
            );
            r@ == rv && final(env)@ == ev
        }),
        final(env)@.frames.len() == old(env)@.frames.len(),
    decreases fuel,
{
    if fuel == 0 {
        return Val::Und;
    }
    let f1 = fuel - 1;
    match b {
        Option::Some(bb) => {
            if a.is_scalar() && bb.is_scalar() {
                (**g).call(env, a, Option::Some(bb), f1)
            } else if !a.is_finite() || !bb.is_finite() {
                let r = Val::Fork {
                    a: a.rc(),
                    f: Val::Av(AvT::Conform, Option::None, rc_dup(g)).rc(),
                    b: bb.rc(),
                };
                proof {
                    assert(r@ =~~= defer_fork(a@, bb@, g@));
                }
                r
            } else {
                let n: usize = if a.is_scalar() {
                    bb.len()
                } else if bb.is_scalar() {
                    a.len()
                } else if a.len() >= bb.len() {
                    a.len()
                } else {
                    bb.len()
                };
                let fill = if a.is_scalar() {
                    bb.fill()
                } else {
                    a.fill()
                };
                let vals = conf2_range(env, &a, &bb, g, 0, n, fuel - 1);
                let r = Val::lis_fill(vals, fill);
                proof {
                    let (rv, ev) = spec_conform(
                        a@,
                        vopt(b),
                        g@,
                        old(env)@,
                        fuel as nat,
                    );
                    assert(r@ =~~= rv);
                }
                r
            }
        },
        Option::None => extend(env, a, Option::None, g, fuel - 1),
    }
}

/// Extend, elementwise recursion of the left side.
fn ext_range(
    env: &mut Env,
    a: &Val,
    b: &Option<Val>,
    g: &Rc<Val>,
    start: usize,
    n: usize,
    fuel: u64,
) -> (r: Vec<Val>)
    requires
        a@.is_finite(),
    ensures
        ({
            let (vs, ev) = spec_ext_range(
                a@,
                vopt(*b),
                g@,
                start as int,
                n as int,
                old(env)@,
                fuel as nat,
            );
            view_val_seq(r@) == vs && final(env)@ == ev
        }),
        final(env)@.frames.len() == old(env)@.frames.len(),
    decreases fuel,
{
    let ghost spec0 = spec_ext_range(
        a@,
        vopt(*b),
        g@,
        start as int,
        n as int,
        old(env)@,
        fuel as nat,
    );
    let mut out: Vec<Val> = Vec::new();
    let mut i = start;
    let mut fl = fuel;
    while fl > 0 && i < n
        invariant
            start <= i,
            fl <= fuel,
            a@.is_finite(),
            spec0 == spec_ext_range(
                a@,
                vopt(*b),
                g@,
                start as int,
                n as int,
                old(env)@,
                fuel as nat,
            ),
            ({
                let (vs, ev) = spec_ext_range(
                    a@,
                    vopt(*b),
                    g@,
                    i as int,
                    n as int,
                    env@,
                    fl as nat,
                );
                spec0.0 == view_val_seq(out@) + vs && spec0.1 == ev
            }),
            env@.frames.len() == old(env)@.frames.len(),
        decreases fl,
    {
        let l = index_wide2(a, i);
        let v = extend(env, l, dup_opt(b), g, fl - 1);
        let ghost before = out@;
        let ghost gv = v@;
        out.push(v);
        proof {
            lemma_view_val_seq(out@);
            lemma_view_val_seq(before);
            assert(out@.subrange(0, out@.len() - 1) =~= before);
            assert(view_val_seq(out@) =~= view_val_seq(before).push(gv));
            assert(spec0.0 =~= view_val_seq(out@) + spec_ext_range(
                a@,
                vopt(*b),
                g@,
                i + 1,
                n as int,
                env@,
                (fl - 1) as nat,
            ).0);
        }
        i += 1;
        fl -= 1;
    }
    proof {
        assert(spec0.0 =~= view_val_seq(out@));
    }
    out
}

/// Extend: recurse into the left operand down to scalars.
pub fn extend(env: &mut Env, a: Val, b: Option<Val>, g: &Rc<Val>, fuel: u64)
    -> (r: Val)
    ensures
        ({
            let (rv, ev) = spec_extend(a@, vopt(b), g@, old(env)@, fuel as nat);
            r@ == rv && final(env)@ == ev
        }),
        final(env)@.frames.len() == old(env)@.frames.len(),
    decreases fuel,
{
    if fuel == 0 {
        return Val::Und;
    }
    if a.is_scalar() {
        (**g).call(env, a, b, fuel - 1)
    } else if !a.is_finite() {
        let conf = Val::Av(AvT::Conform, Option::None, rc_dup(g));
        match b {
            Option::Some(bb) => {
                let r = Val::Fork { a: a.rc(), f: conf.rc(), b: bb.rc() };
                proof {
                    assert(r@ =~~= (ValV::Fork {
                        a: Box::new(a@),
                        f: Box::new(ValV::Av(
                            AvT::Conform,
                            Option::None,
                            Box::new(g@),
                        )),
                        b: Box::new(bb@),
                    }));
                }
                r
            },
            Option::None => {
                let r = Val::Trn2 { a: a.rc(), f: conf.rc() };
                proof {
                    assert(r@ =~~= (ValV::Trn2 {
                        a: Box::new(a@),
                        f: Box::new(ValV::Av(
                            AvT::Conform,
                            Option::None,
                            Box::new(g@),
                        )),
                    }));
                }
                r
            },
        }
    } else {
        let n = a.len();
        let fill = a.fill();
        let vals = ext_range(env, &a, &b, g, 0, n, fuel - 1);
        let r = Val::lis_fill(vals, fill);
        proof {
            let (rv, ev) = spec_extend(
                a@,
                vopt(b),
                g@,
                old(env)@,
                fuel as nat,
            );
            assert(r@ =~~= rv);
        }
        r
    }
}

/// The running fold the scan adverb collects.
fn scan_rest(
    env: &mut Env,
    es: &Vec<Val>,
    start: usize,
    acc0: Val,
    g: &Rc<Val>,
    fuel: u64,
) -> (r: Vec<Val>)
    ensures
        ({
            let (vs, ev) = spec_scan_rest(
                view_val_seq(es@),
                start as int,
                acc0@,
                g@,
                old(env)@,
                fuel as nat,
            );
            view_val_seq(r@) == vs && final(env)@ == ev
        }),
        final(env)@.frames.len() == old(env)@.frames.len(),
    decreases fuel,
{
    proof {
        lemma_view_val_seq(es@);
    }
    let ghost esv = view_val_seq(es@);
    let ghost spec0 = spec_scan_rest(
        esv,
        start as int,
        acc0@,
        g@,
        old(env)@,
        fuel as nat,
    );
    let mut out: Vec<Val> = Vec::new();
    let mut i = start;
    let mut acc = acc0;
    let mut fl = fuel;
    while fl > 0 && i < es.len()
        invariant
            start <= i,
            fl <= fuel,
            esv == view_val_seq(es@),
            esv.len() == es@.len(),
            forall|j: int|
                0 <= j < es@.len() ==> #[trigger] esv[j] == view_val(es@[j]),
            spec0 == spec_scan_rest(
                esv,
                start as int,
                acc0@,
                g@,
                old(env)@,
                fuel as nat,
            ),
            ({
                let (vs, ev) = spec_scan_rest(
                    esv,
                    i as int,
                    acc@,
                    g@,
                    env@,
                    fl as nat,
                );
                spec0.0 == view_val_seq(out@) + vs && spec0.1 == ev
            }),
            env@.frames.len() == old(env)@.frames.len(),
        decreases fl,
    {
        let e = es[i].dup();
        let nv = (**g).call(env, acc, Option::Some(e), fl - 1);
        let ghost before = out@;
        out.push(nv.dup());
        proof {
            lemma_view_val_seq(out@);
            lemma_view_val_seq(before);
            assert(out@.subrange(0, out@.len() - 1) =~= before);
            assert(view_val_seq(out@) =~= view_val_seq(before).push(nv@));
            assert(spec0.0 =~= view_val_seq(out@) + spec_scan_rest(
                esv,
                i + 1,
                nv@,
                g@,
                env@,
                (fl - 1) as nat,
            ).0);
        }
        acc = nv;
        i += 1;
        fl -= 1;
    }
    proof {
        assert(view_val_seq(out@) + Seq::<ValV>::empty() =~= view_val_seq(
            out@,
        ));
        assert(spec0.0 =~= view_val_seq(out@));
    }
    out
}

/// The fold the reduce adverb computes.
fn fold_rest(
    env: &mut Env,
    es: &Vec<Val>,
    start: usize,
    acc0: Val,
    g: &Rc<Val>,
    fuel: u64,
) -> (r: Val)
    ensures
        ({
            let (rv, ev) = spec_fold_rest(
                view_val_seq(es@),
                start as int,
                acc0@,
                g@,
                old(env)@,
                fuel as nat,
            );
            r@ == rv && final(env)@ == ev
        }),
        final(env)@.frames.len() == old(env)@.frames.len(),
    decreases fuel,
{
    proof {
        lemma_view_val_seq(es@);
    }
    let ghost esv = view_val_seq(es@);
    let ghost spec0 = spec_fold_rest(
        esv,
        start as int,
        acc0@,
        g@,
        old(env)@,
        fuel as nat,
    );
    let mut i = start;
    let mut acc = acc0;
    let mut fl = fuel;
    while fl > 0 && i < es.len()
        invariant
            start <= i,
            fl <= fuel,
            esv == view_val_seq(es@),
            esv.len() == es@.len(),
            forall|j: int|
                0 <= j < es@.len() ==> #[trigger] esv[j] == view_val(es@[j]),
            spec0 == spec_fold_rest(
                esv,
                start as int,
                acc0@,
                g@,
                old(env)@,
                fuel as nat,
            ),
            spec0 == spec_fold_rest(esv, i as int, acc@, g@, env@, fl as nat),
            env@.frames.len() == old(env)@.frames.len(),
        decreases fl,
    {
        let e = es[i].dup();
        let nv = (**g).call(env, acc, Option::Some(e), fl - 1);
        acc = nv;
        i += 1;
        fl -= 1;
    }
    acc
}

/// Scan: the list of partial left-fold results, seeded by `b` if present.
pub fn scan(env: &mut Env, a: Val, b: Option<Val>, g: &Rc<Val>, fuel: u64)
    -> (r: Val)
    ensures
        ({
            let (rv, ev) = spec_scan(a@, vopt(b), g@, old(env)@, fuel as nat);
            r@ == rv && final(env)@ == ev
        }),
        final(env)@.frames.len() == old(env)@.frames.len(),
    decreases fuel,
{
    if fuel == 0 || !a.is_finite() {
        return Val::Und;
    }
    let es = elems_of(&a);
    proof {
        lemma_view_val_seq(es@);
    }
    if es.len() == 0 {
        return match b {
            Option::Some(bb) => bb,
            Option::None => Val::Und,
        };
    }
    let first = es[0].dup();
    let v0 = match b {
        Option::Some(bb) => (**g).call(
            env,
            bb,
            Option::Some(first),
            fuel - 1,
        ),
        Option::None => first,
    };
    let ghost gv0 = v0@;
    let rest = scan_rest(env, &es, 1, v0.dup(), g, fuel - 1);
    let ghost grestv = rest@;
    let ghost grest = view_val_seq(rest@);
    let mut out: Vec<Val> = Vec::new();
    out.push(v0);
    let mut rest2 = rest;
    out.append(&mut rest2);
    let ghost gout = out@;
    let r = Val::lis(out);
    proof {
        lemma_view_val_seq(gout);
        lemma_view_val_seq(grestv);
        assert(view_val_seq(gout) =~= seq![gv0] + grest);
        let (rv, ev) = spec_scan(a@, vopt(b), g@, old(env)@, fuel as nat);
        assert(r@ =~~= rv);
    }
    r
}

/// Reduce: the left fold, seeded by `b` if present.
pub fn reduce(env: &mut Env, a: Val, b: Option<Val>, g: &Rc<Val>, fuel: u64)
    -> (r: Val)
    ensures
        ({
            let (rv, ev) = spec_reduce(a@, vopt(b), g@, old(env)@, fuel as nat);
            r@ == rv && final(env)@ == ev
        }),
        final(env)@.frames.len() == old(env)@.frames.len(),
    decreases fuel,
{
    if fuel == 0 || !a.is_finite() {
        return Val::Und;
    }
    let es = elems_of(&a);
    proof {
        lemma_view_val_seq(es@);
    }
    if es.len() == 0 {
        return match b {
            Option::Some(bb) => bb,
            Option::None => Val::Und,
        };
    }
    let first = es[0].dup();
    let v0 = match b {
        Option::Some(bb) => (**g).call(
            env,
            bb,
            Option::Some(first),
            fuel - 1,
        ),
        Option::None => first,
    };
    fold_rest(env, &es, 1, v0, g, fuel - 1)
}

/// The pairwise applications scan-pairs collects.
fn pairs_range(
    env: &mut Env,
    es: &Vec<Val>,
    start: usize,
    g: &Rc<Val>,
    fuel: u64,
) -> (r: Vec<Val>)
    requires
        start >= 1,
    ensures
        ({
            let (vs, ev) = spec_pairs_range(
                view_val_seq(es@),
                start as int,
                g@,
                old(env)@,
                fuel as nat,
            );
            view_val_seq(r@) == vs && final(env)@ == ev
        }),
        final(env)@.frames.len() == old(env)@.frames.len(),
    decreases fuel,
{
    proof {
        lemma_view_val_seq(es@);
    }
    let ghost esv = view_val_seq(es@);
    let ghost spec0 = spec_pairs_range(
        esv,
        start as int,
        g@,
        old(env)@,
        fuel as nat,
    );
    let mut out: Vec<Val> = Vec::new();
    let mut i = start;
    let mut fl = fuel;
    while fl > 0 && i < es.len()
        invariant
            1 <= start <= i,
            fl <= fuel,
            esv == view_val_seq(es@),
            esv.len() == es@.len(),
            forall|j: int|
                0 <= j < es@.len() ==> #[trigger] esv[j] == view_val(es@[j]),
            spec0 == spec_pairs_range(
                esv,
                start as int,
                g@,
                old(env)@,
                fuel as nat,
            ),
            ({
                let (vs, ev) = spec_pairs_range(
                    esv,
                    i as int,
                    g@,
                    env@,
                    fl as nat,
                );
                spec0.0 == view_val_seq(out@) + vs && spec0.1 == ev
            }),
            env@.frames.len() == old(env)@.frames.len(),
        decreases fl,
    {
        let l = es[i - 1].dup();
        let rr = es[i].dup();
        let v = (**g).call(env, l, Option::Some(rr), fl - 1);
        let ghost before = out@;
        let ghost gv = v@;
        out.push(v);
        proof {
            lemma_view_val_seq(out@);
            lemma_view_val_seq(before);
            assert(out@.subrange(0, out@.len() - 1) =~= before);
            assert(view_val_seq(out@) =~= view_val_seq(before).push(gv));
            assert(spec0.0 =~= view_val_seq(out@) + spec_pairs_range(
                esv,
                i + 1,
                g@,
                env@,
                (fl - 1) as nat,
            ).0);
        }
        i += 1;
        fl -= 1;
    }
    proof {
        assert(spec0.0 =~= view_val_seq(out@));
    }
    out
}

/// Scan-pairs: apply `g` to each consecutive pair of elements.
pub fn scan_pairs(env: &mut Env, a: Val, b: Option<Val>, g: &Rc<Val>, fuel: u64)
    -> (r: Val)
    ensures
        ({
            let (rv, ev) = spec_scan_pairs(
                a@,
                vopt(b),
                g@,
                old(env)@,
                fuel as nat,
            );
            r@ == rv && final(env)@ == ev
        }),
        final(env)@.frames.len() == old(env)@.frames.len(),
    decreases fuel,
{
    if fuel == 0 || !a.is_finite() {
        return Val::Und;
    }
    let es = elems_of(&a);
    proof {
        lemma_view_val_seq(es@);
    }
    if es.len() == 0 {
        let empty: Vec<Val> = Vec::new();
        let r = Val::lis_fill(empty, a.fill());
        proof {
            let (rv, ev) = spec_scan_pairs(
                a@,
                vopt(b),
                g@,
                old(env)@,
                fuel as nat,
            );
            assert(r@ =~~= rv);
        }
        return r;
    }
    let first = es[0].dup();
    let v0 = match b {
        Option::Some(bb) => (**g).call(
            env,
            bb,
            Option::Some(first),
            fuel - 1,
        ),
        Option::None => first,
    };
    let ghost gv0 = v0@;
    let rest = pairs_range(env, &es, 1, g, fuel - 1);
    let ghost grestv = rest@;
    let ghost grest = view_val_seq(rest@);
    let mut out: Vec<Val> = Vec::new();
    out.push(v0);
    let mut rest2 = rest;
    out.append(&mut rest2);
    let ghost gout = out@;
    let r = Val::lis(out);
    proof {
        lemma_view_val_seq(gout);
        lemma_view_val_seq(grestv);
        assert(view_val_seq(gout) =~= seq![gv0] + grest);
        let (rv, ev) = spec_scan_pairs(a@, vopt(b), g@, old(env)@, fuel as nat);
        assert(r@ =~~= rv);
    }
    r
}

/// One window of the stencil.
fn window_of(es: &Vec<Val>, i: usize, size: usize) -> (r: Val)
    requires
        i + size <= es@.len(),
    ensures
        r@ == vlis(view_val_seq(es@).subrange(i as int, i + size)),
{
    proof {
        lemma_view_val_seq(es@);
    }
    let el = es.len();
    let end: usize = i + size;
    let mut out: Vec<Val> = Vec::new();
    let mut j: usize = i;
    while j < end
        invariant
            end == i + size,
            i <= j <= end,
            end <= es@.len(),
            view_val_seq(es@).len() == es@.len(),
            forall|k: int|
                0 <= k < es@.len() ==> #[trigger] view_val_seq(es@)[k]
                    == view_val(es@[k]),
            out@.len() == j - i,
            forall|k: int|
                0 <= k < j - i ==> #[trigger] view_val(out@[k]) == view_val(
                    es@[i + k],
                ),
        decreases end - j,
    {
        out.push(es[j].dup());
        j += 1;
    }
    let ghost gout = out@;
    let r = Val::lis(out);
    proof {
        lemma_view_val_seq(gout);
        assert(view_val_seq(gout) =~= view_val_seq(es@).subrange(
            i as int,
            i + size,
        ));
        assert(r@ =~~= vlis(view_val_seq(es@).subrange(i as int, i + size)));
    }
    r
}

/// The window applications the stencil adverb collects.
fn stencil_range(
    env: &mut Env,
    es: &Vec<Val>,
    start: usize,
    count: u128,
    size: usize,
    b: &Option<Val>,
    g: &Rc<Val>,
    fuel: u64,
) -> (r: Vec<Val>)
    requires
        count == 0 || count as int + size as int <= es@.len() + 1,
    ensures
        ({
            let (vs, ev) = spec_stencil_range(
                view_val_seq(es@),
                start as int,
                count as int,
                size as int,
                vopt(*b),
                g@,
                old(env)@,
                fuel as nat,
            );
            view_val_seq(r@) == vs && final(env)@ == ev
        }),
        final(env)@.frames.len() == old(env)@.frames.len(),
    decreases fuel,
{
    proof {
        lemma_view_val_seq(es@);
    }
    let ghost esv = view_val_seq(es@);
    let ghost spec0 = spec_stencil_range(
        esv,
        start as int,
        count as int,
        size as int,
        vopt(*b),
        g@,
        old(env)@,
        fuel as nat,
    );
    let mut out: Vec<Val> = Vec::new();
    let el = es.len();
    let mut i: u128 = start as u128;
    let mut fl = fuel;
    while fl > 0 && i < count
        invariant
            start as u128 <= i,
            fl <= fuel,
            el as int == es@.len(),
            count == 0 || count as int + size as int <= es@.len() + 1,
            esv == view_val_seq(es@),
            esv.len() == es@.len(),
            forall|j: int|
                0 <= j < es@.len() ==> #[trigger] esv[j] == view_val(es@[j]),
            spec0 == spec_stencil_range(
                esv,
                start as int,
                count as int,
                size as int,
                vopt(*b),
                g@,
                old(env)@,
                fuel as nat,
            ),
            ({
                let (vs, ev) = spec_stencil_range(
                    esv,
                    i as int,
                    count as int,
                    size as int,
                    vopt(*b),
                    g@,
                    env@,
                    fl as nat,
                );
                spec0.0 == view_val_seq(out@) + vs && spec0.1 == ev
            }),
            env@.frames.len() == old(env)@.frames.len(),
        decreases fl,
    {
        proof {
            assert(i as int + size as int <= es@.len());
            assert(i <= usize::MAX as u128);
        }
        let iu: usize = i as usize;
        let win = window_of(es, iu, size);
        let v = (**g).call(env, win, dup_opt(b), fl - 1);
        let ghost before = out@;
        let ghost gv = v@;
        out.push(v);
        proof {
            lemma_view_val_seq(out@);
            lemma_view_val_seq(before);
            assert(out@.subrange(0, out@.len() - 1) =~= before);
            assert(view_val_seq(out@) =~= view_val_seq(before).push(gv));
            assert(spec0.0 =~= view_val_seq(out@) + spec_stencil_range(
                esv,
                i + 1,
                count as int,
                size as int,
                vopt(*b),
                g@,
                env@,
                (fl - 1) as nat,
            ).0);
        }
        i += 1;
        fl -= 1;
    }
    proof {
        assert(spec0.0 =~= view_val_seq(out@));
    }
    out
}

/// Stencil: `f` gives a window size, `g` is applied to every contiguous
/// window of that size.
#[verifier::rlimit(100)]
#[verifier::spinoff_prover]
pub fn stencil(
    env: &mut Env,
    a: Val,
    b: Option<Val>,
    f: &Rc<Val>,
    g: &Rc<Val>,
    fuel: u64,
) -> (r: Val)
    ensures
        ({
            let (rv, ev) = spec_stencil(
                a@,
                vopt(b),
                f@,
                g@,
                old(env)@,
                fuel as nat,
            );
            r@ == rv && final(env)@ == ev
        }),
        final(env)@.frames.len() == old(env)@.frames.len(),
    decreases fuel,
{
    if fuel == 0 {
        return Val::Und;
    }
    let szv = (**f).call(env, a.dup(), dup_opt(&b), fuel - 1);
    match szv.try_int() {
        Option::None => {
            let empty: Vec<Val> = Vec::new();
            let r = Val::lis(empty);
            proof {
                let (rv, ev) = spec_stencil(
                    a@,
                    vopt(b),
                    f@,
                    g@,
                    old(env)@,
                    fuel as nat,
                );
                assert(r@ =~~= rv);
            }
            r
        },
        Option::Some(size) => {
            if !a.is_finite() || size < 0 {
                let empty: Vec<Val> = Vec::new();
                let r = Val::lis(empty);
                proof {
                    let (rv, ev) = spec_stencil(
                        a@,
                        vopt(b),
                        f@,
                        g@,
                        old(env)@,
                        fuel as nat,
                    );
                    assert(r@ =~~= rv);
                }
                r
            } else {
                let es = elems_of(&a);
                proof {
                    lemma_view_val_seq(es@);
                }
                let oversize = (size as u128) > (es.len() as u128);
                let count: u128 = if oversize {
                    0
                } else {
                    es.len() as u128 + 1 - size as u128
                };
                let size_c: usize = if oversize {
                    0
                } else {
                    size as usize
                };
                let vals = stencil_range(
                    env,
                    &es,
                    0,
                    count,
                    size_c,
                    &b,
                    g,
                    fuel - 1,
                );
                let ghost gvals = vals@;
                let r = Val::lis(vals);
                proof {
                    lemma_view_val_seq(gvals);
                    let (rv, ev) = spec_stencil(
                        a@,
                        vopt(b),
                        f@,
                        g@,
                        old(env)@,
                        fuel as nat,
                    );
                    assert(r@ =~~= rv);
                }
                r
            }
        },
    }
}

/// Until: iterate `g` until `f` of (new, old) is truthy; the value before
/// the test fired is returned.
pub fn until(
    env: &mut Env,
    a: Val,
    b: Option<Val>,
    f: &Rc<Val>,
    g: &Rc<Val>,
    fuel: u64,
) -> (r: Val)
    ensures
        ({
            let (rv, ev) = spec_until(
                a@,
                vopt(b),
                f@,
                g@,
                old(env)@,
                fuel as nat,
            );
            r@ == rv && final(env)@ == ev
        }),
        final(env)@.frames.len() == old(env)@.frames.len(),
    decreases fuel,
{
    let ghost spec0 = spec_until(a@, vopt(b), f@, g@, old(env)@, fuel as nat);
    let mut val = a;
    let mut fl = fuel;
    while fl > 0
        invariant
            fl <= fuel,
            spec0 == spec_until(a@, vopt(b), f@, g@, old(env)@, fuel as nat),
            spec0 == spec_until(
                val@,
                vopt(b),
                f@,
                g@,
                env@,
                fl as nat,
            ),
            env@.frames.len() == old(env)@.frames.len(),
        decreases fl,
    {
        let tried = (**g).call(env, val.dup(), dup_opt(&b), fl - 1);
        let c = (**f).call(env, tried.dup(), Option::Some(val.dup()), fl - 1);
        if c.as_bool() {
            return val;
        }
        val = tried;
        fl -= 1;
    }
    Val::Und
}

/// Until-scan: like until, recording every intermediate value.
pub fn until_scan_from(
    env: &mut Env,
    a: Val,
    acc: Vec<Val>,
    b: Option<Val>,
    f: &Rc<Val>,
    g: &Rc<Val>,
    fuel: u64,
) -> (r: Val)
    ensures
        ({
            let (rv, ev) = spec_until_scan(
                a@,
                view_val_seq(acc@),
                vopt(b),
                f@,
                g@,
                old(env)@,
                fuel as nat,
            );
            r@ == rv && final(env)@ == ev
        }),
        final(env)@.frames.len() == old(env)@.frames.len(),
    decreases fuel,
{
    let ghost spec0 = spec_until_scan(
        a@,
        view_val_seq(acc@),
        vopt(b),
        f@,
        g@,
        old(env)@,
        fuel as nat,
    );
    let mut val = a;
    let mut vals = acc;
    let mut fl = fuel;
    while fl > 0
        invariant
            fl <= fuel,
            spec0 == spec_until_scan(
                a@,
                view_val_seq(acc@),
                vopt(b),
                f@,
                g@,
                old(env)@,
                fuel as nat,
            ),
            spec0 == spec_until_scan(
                val@,
                view_val_seq(vals@),
                vopt(b),
                f@,
                g@,
                env@,
                fl as nat,
            ),
            env@.frames.len() == old(env)@.frames.len(),
        decreases fl,
    {
        let tried = (**g).call(env, val.dup(), dup_opt(&b), fl - 1);
        let c = (**f).call(env, tried.dup(), Option::Some(val.dup()), fl - 1);
        if c.as_bool() {
            let ghost gvals = vals@;
            let r = Val::lis(vals);
            proof {
                assert(r@ =~~= vlis(view_val_seq(gvals)));
            }
            return r;
        }
        let ghost before = vals@;
        vals.push(tried.dup());
        proof {
            lemma_view_val_seq(vals@);
            lemma_view_val_seq(before);
            assert(vals@.subrange(0, vals@.len() - 1) =~= before);
            assert(view_val_seq(vals@) =~= view_val_seq(before).push(tried@));
        }
        val = tried;
        fl -= 1;
    }
    Val::Und
}

/// Until-scan from the seed alone.
pub fn until_scan(
    env: &mut Env,
    a: Val,
    b: Option<Val>,
    f: &Rc<Val>,
    g: &Rc<Val>,
    fuel: u64,
) -> (r: Val)
    ensures
        ({
            let (rv, ev) = spec_until_scan(
                a@,
                seq![a@],
                vopt(b),
                f@,
                g@,
                old(env)@,
                fuel as nat,
            );
            r@ == rv && final(env)@ == ev
        }),
        final(env)@.frames.len() == old(env)@.frames.len(),
{
    let mut acc: Vec<Val> = Vec::new();
    acc.push(a.dup());
    proof {
        lemma_view_val_seq(acc@);
        assert(view_val_seq(acc@) =~= seq![a@]);
    }
    until_scan_from(env, a, acc, b, f, g, fuel)
}

/// Power's iteration: apply `g` `k` times.
pub fn power_iter(
    env: &mut Env,
    a: Val,
    k: u64,
    b: Option<Val>,
    g: &Rc<Val>,
    fuel: u64,
) -> (r: Val)
    ensures
        ({
            let (rv, ev) = spec_power_iter(
                a@,
                k as nat,
                vopt(b),
                g@,
                old(env)@,
                fuel as nat,
            );
            r@ == rv && final(env)@ == ev
        }),
        final(env)@.frames.len() == old(env)@.frames.len(),
    decreases fuel,
{
    let ghost spec0 = spec_power_iter(
        a@,
        k as nat,
        vopt(b),
        g@,
        old(env)@,
        fuel as nat,
    );
    let mut val = a;
    let mut left = k;
    let mut fl = fuel;
    while fl > 0 && left > 0
        invariant
            fl <= fuel,
            spec0 == spec_power_iter(
                a@,
                k as nat,
                vopt(b),
                g@,
                old(env)@,
                fuel as nat,
            ),
            spec0 == spec_power_iter(
                val@,
                left as nat,
                vopt(b),
                g@,
                env@,
                fl as nat,
            ),
            env@.frames.len() == old(env)@.frames.len(),
        decreases fl,
    {
        let nv = (**g).call(env, val, dup_opt(&b), fl - 1);
        val = nv;
        left -= 1;
        fl -= 1;
    }
    val
}

/// Power-scan's trajectory: every state after each step.
pub fn power_scan_iter(
    env: &mut Env,
    a: Val,
    k: u64,
    b: Option<Val>,
    g: &Rc<Val>,
    fuel: u64,
) -> (r: Vec<Val>)
    ensures
        ({
            let (vs, ev) = spec_power_scan_iter(
                a@,
                k as nat,
                vopt(b),
                g@,
                old(env)@,
                fuel as nat,
            );
            view_val_seq(r@) == vs && final(env)@ == ev
        }),
        final(env)@.frames.len() == old(env)@.frames.len(),
    decreases fuel,
{
    let ghost spec0 = spec_power_scan_iter(
        a@,
        k as nat,
        vopt(b),
        g@,
        old(env)@,
        fuel as nat,
    );
    let mut out: Vec<Val> = Vec::new();
    let mut val = a;
    let mut left = k;
    let mut fl = fuel;
    while fl > 0 && left > 0
        invariant
            fl <= fuel,
            spec0 == spec_power_scan_iter(
                a@,
                k as nat,
                vopt(b),
                g@,
                old(env)@,
                fuel as nat,
            ),
            spec0.1 == spec_power_scan_iter(
                val@,
                left as nat,
                vopt(b),
                g@,
                env@,
                fl as nat,
            ).1,
            spec0.0 == view_val_seq(out@) + spec_power_scan_iter(
                val@,
                left as nat,
                vopt(b),
                g@,
                env@,
                fl as nat,
            ).0,
            env@.frames.len() == old(env)@.frames.len(),
        decreases fl,
    {
        let nv = (**g).call(env, val.dup(), dup_opt(&b), fl - 1);
        let ghost before = out@;
        let ghost gv = nv@;
        out.push(nv.dup());
        proof {
            lemma_view_val_seq(out@);
            lemma_view_val_seq(before);
            assert(out@.subrange(0, out@.len() - 1) =~= before);
            assert(view_val_seq(out@) =~= view_val_seq(before).push(gv));
            assert(spec0.0 =~= view_val_seq(out@) + spec_power_scan_iter(
                gv,
                (left - 1) as nat,
                vopt(b),
                g@,
                env@,
                (fl - 1) as nat,
            ).0);
        }
        val = nv;
        left -= 1;
        fl -= 1;
    }
    proof {
        assert(spec0.0 =~= view_val_seq(out@));
    }
    out
}

/// Power: compute an iteration count from `f`, then iterate `g`.
pub fn power(
    env: &mut Env,
    a: Val,
    b: Option<Val>,
    f: &Rc<Val>,
    g: &Rc<Val>,
    fuel: u64,
) -> (r: Val)
    ensures
        ({
            let (rv, ev) = spec_av(
                AvT::Power,
                a@,
                vopt(b),
                Option::Some(f@),
                g@,
                old(env)@,
                (fuel + 1) as nat,
            );
            r@ == rv && final(env)@ == ev
        }),
        final(env)@.frames.len() == old(env)@.frames.len(),
{
    let numv = (**f).call(env, a.dup(), dup_opt(&b), fuel);
    let k: u64 = match numv.try_int() {
        Option::Some(x) => if x >= 0 {
            x as u64
        } else {
            0
        },
        Option::None => 0,
    };
    power_iter(env, a, k, b, g, fuel)
}

/// Power-scan: the full trajectory of the power iteration.
pub fn power_scan(
    env: &mut Env,
    a: Val,
    b: Option<Val>,
    f: &Rc<Val>,
    g: &Rc<Val>,
    fuel: u64,
) -> (r: Val)
    ensures
        ({
            let (rv, ev) = spec_av(
                AvT::PowerScan,
                a@,
                vopt(b),
                Option::Some(f@),
                g@,
                old(env)@,
                (fuel + 1) as nat,
            );
            r@ == rv && final(env)@ == ev
        }),
        final(env)@.frames.len() == old(env)@.frames.len(),
{
    let numv = (**f).call(env, a.dup(), dup_opt(&b), fuel);
    let k: u64 = match numv.try_int() {
        Option::Some(x) => if x >= 0 {
            x as u64
        } else {
            0
        },
        Option::None => 0,
    };
    let ghost genv = env@;
    let vals = power_scan_iter(env, a.dup(), k, b, g, fuel);
    let ghost gvals = vals@;
    let r = Val::lis(vals);
    proof {
        lemma_view_val_seq(gvals);
        assert(r@ =~~= vlis(
            spec_power_scan_iter(
                a@,
                k as nat,
                vopt(b),
                g@,
                genv,
                fuel as nat,
            ).0,
        ));
    }
    r
}

} // verus!
