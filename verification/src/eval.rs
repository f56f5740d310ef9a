//! Evaluation of parsed expressions against an environment.
use vstd::prelude::*;
use std::rc::Rc;
use crate::val::{Val, ValV, view_val, view_val_seq, lemma_view_val_seq,
    view_bind_seq, Binding, clone_bytes, vopt, AvT};
use crate::ast::{Ve, Fe, Tg, VeV, FeV, TgV, view_ve, view_fe, view_tg,
    view_ve_seq, lemma_view_ve_seq};
use crate::env::{Env, EnvV, lemma_view_frame_seq};
use crate::model::{spec_eval_ve, spec_eval_fe, spec_eval_tg, spec_eval_snd,
    spec_block, spec_call, env_get, vlis};

verus! {

/// Evaluate one value expression.
pub fn eval_ve(e: &Ve, env: &mut Env, fuel: u64) -> (r: Val)
    ensures
        ({
            let (rv, ev) = spec_eval_ve(e@, old(env)@, fuel as nat);
            r@ == rv && final(env)@ == ev
        }),
        final(env)@.frames.len() == old(env)@.frames.len(),
    decreases fuel,
{
    if fuel == 0 {
        return Val::Und;
    }
    let f1 = fuel - 1;
    match e {
        Ve::Var(n) => match env.get_var(n) {
            Option::Some(v) => v,
            Option::None => Val::Und,
        },
        Ve::Num(n) => Val::Int(*n),
        Ve::Und => Val::Und,
        Ve::Snd(l) => {
            proof {
                lemma_view_ve_seq(l@);
                assert(view_ve_seq(l@).subrange(0, l@.len() as int)
                    =~= view_ve_seq(l@));
            }
            let vals = eval_snd_from(l, 0, env, f1);
            let ghost gvals = vals@;
            let r = Val::lis(vals);
            proof {
                lemma_view_val_seq(gvals);
                assert(r@ =~~= vlis(
                    spec_eval_snd(
                        crate::ast::view_ve_seq(l@),
                        old(env)@,
                        f1 as nat,
                    ).0,
                ));
            }
            r
        },
        Ve::Nom(f) => eval_fe(f, env, f1),
        Ve::Afn1 { a, f } => {
            let av = eval_ve(&**a, env, f1);
            let fv = eval_fe(f, env, f1);
            fv.call(env, av, Option::None, f1)
        },
        Ve::Afn2 { a, f, b } => {
            let av = eval_ve(&**a, env, f1);
            let fv = eval_fe(f, env, f1);
            let bv = eval_ve(&**b, env, f1);
            fv.call(env, av, Option::Some(bv), f1)
        },
    }
}

/// Evaluate strand elements from a position on.
pub fn eval_snd_from(l: &Vec<Ve>, pos: usize, env: &mut Env, fuel: u64) -> (r: Vec<
    Val,
>)
    requires
        pos <= l@.len(),
    ensures
        ({
            let (vs, ev) = spec_eval_snd(
                view_ve_seq(l@).subrange(pos as int, l@.len() as int),
                old(env)@,
                fuel as nat,
            );
            view_val_seq(r@) == vs && final(env)@ == ev
        }),
        final(env)@.frames.len() == old(env)@.frames.len(),
    decreases fuel,
{
    proof {
        lemma_view_ve_seq(l@);
    }
    let ghost lv = view_ve_seq(l@);
    let ghost spec0 = spec_eval_snd(
        lv.subrange(pos as int, l@.len() as int),
        old(env)@,
        fuel as nat,
    );
    let mut out: Vec<Val> = Vec::new();
    let mut i = pos;
    let mut fl = fuel;
    while fl > 0 && i < l.len()
        invariant
            pos <= i <= l@.len(),
            fl <= fuel,
            lv == view_ve_seq(l@),
            lv.len() == l@.len(),
            forall|j: int|
                0 <= j < l@.len() ==> #[trigger] lv[j] == view_ve(l@[j]),
            spec0 == spec_eval_snd(
                lv.subrange(pos as int, l@.len() as int),
                old(env)@,
                fuel as nat,
            ),
            ({
                let (vs, ev) = spec_eval_snd(
                    lv.subrange(i as int, l@.len() as int),
                    env@,
                    fl as nat,
                );
                spec0.0 == view_val_seq(out@) + vs && spec0.1 == ev
            }),
            env@.frames.len() == old(env)@.frames.len(),
        decreases fl,
    {
        proof {
            let sub = lv.subrange(i as int, l@.len() as int);
            assert(sub[0] == lv[i as int]);
            assert(sub.subrange(1, sub.len() as int) =~= lv.subrange(
                i + 1,
                l@.len() as int,
            ));
        }
        let v = eval_ve(&l[i], env, fl - 1);
        let ghost before = out@;
        let ghost gv = v@;
        out.push(v);
        proof {
            lemma_view_val_seq(out@);
            lemma_view_val_seq(before);
            assert(out@.subrange(0, out@.len() - 1) =~= before);
            assert(view_val_seq(out@) =~= view_val_seq(before).push(gv));
            assert(spec0.0 =~= view_val_seq(out@) + spec_eval_snd(
                lv.subrange(i + 1, l@.len() as int),
                env@,
                (fl - 1) as nat,
            ).0);
        }
        i += 1;
        fl -= 1;
    }
    proof {
        if i == l@.len() {
            assert(lv.subrange(i as int, l@.len() as int) =~= Seq::<
                VeV,
            >::empty());
        }
        assert(spec0.0 =~= view_val_seq(out@));
    }
    out
}

/// Evaluate one function expression to its function value.
#[verifier::rlimit(100)]
#[verifier::spinoff_prover]
pub fn eval_fe(e: &Fe, env: &mut Env, fuel: u64) -> (r: Val)
    ensures
        ({
            let (rv, ev) = spec_eval_fe(e@, old(env)@, fuel as nat);
            r@ == rv && final(env)@ == ev
        }),
        final(env)@.frames.len() == old(env)@.frames.len(),
    decreases fuel,
{
    if fuel == 0 {
        return Val::Und;
    }
    let f1 = fuel - 1;
    match e {
        Fe::Var(n) => match env.get_var(n) {
            Option::Some(v) => v,
            Option::None => Val::Und,
        },
        Fe::SetVar(n) => Val::FSet(clone_bytes(n)),
        Fe::Aav1 { v, g } => {
            let av = match env.get_var(v) {
                Option::Some(x) => x,
                Option::None => Val::Und,
            };
            let gv = eval_tg(&**g, env, f1);
            av.call(env, gv, Option::None, f1)
        },
        Fe::Aav2 { f, v, g } => {
            let av = match env.get_var(v) {
                Option::Some(x) => x,
                Option::None => Val::Und,
            };
            let fv = eval_tg(&**f, env, f1);
            let gv = eval_tg(&**g, env, f1);
            let g_is_fe = match &**g {
                Tg::Fe(_) => true,
                Tg::Ve(_) => false,
            };
            if g_is_fe {
                av.call(env, gv, Option::Some(fv), f1)
            } else {
                let h = av.call(env, fv, Option::None, f1);
                h.call(env, gv, Option::None, f1)
            }
        },
        Fe::Bind { f, b } => {
            let fv = eval_fe(&**f, env, f1);
            let bv = eval_ve(&**b, env, f1);
            let r = Val::Bind { f: fv.rc(), b: bv.rc() };
            proof {
                let (rv, ev) = spec_eval_fe(e@, old(env)@, fuel as nat);
                assert(r@ =~~= rv);
            }
            r
        },
        Fe::Trn1 { a, f } => {
            let av = eval_fe(&**a, env, f1);
            let fv = eval_fe(&**f, env, f1);
            let r = Val::Trn2 { a: av.rc(), f: fv.rc() };
            proof {
                let (rv, ev) = spec_eval_fe(e@, old(env)@, fuel as nat);
                assert(r@ =~~= rv);
            }
            r
        },
        Fe::Trn2 { a, f, b } => {
            let av = eval_fe(&**a, env, f1);
            let fv = eval_fe(&**f, env, f1);
            let bv = eval_ve(&**b, env, f1);
            let r = Val::Trn3 { a: av.rc(), f: fv.rc(), b: bv.rc() };
            proof {
                let (rv, ev) = spec_eval_fe(e@, old(env)@, fuel as nat);
                assert(r@ =~~= rv);
            }
            r
        },
        Fe::Dfn(es) => {
            // Capture the visible scope, outermost bindings first.
            let mut loc: Vec<Binding> = Vec::new();
            let mut i: usize = 0;
            proof {
                lemma_view_frame_seq(env.frames@);
            }
            while i < env.frames.len()
                invariant
                    i <= env.frames@.len(),
                    env == old(env),
                    env@.frames.len() == env.frames@.len(),
                    forall|k: int|
                        0 <= k < env.frames@.len()
                            ==> #[trigger] env@.frames[k]
                            == view_bind_seq(env.frames@[k]@),
                    view_bind_seq(loc@) == env@.frames.subrange(
                        0,
                        i as int,
                    ).flatten(),
                decreases env.frames@.len() - i,
            {
                let ghost before = loc@;
                let fr = &env.frames[i];
                proof {
                    crate::val::lemma_view_bind_seq(fr@);
                }
                let mut j: usize = 0;
                while j < fr.len()
                    invariant
                        j <= fr@.len(),
                        view_bind_seq(fr@).len() == fr@.len(),
                        view_bind_seq(loc@) == view_bind_seq(before)
                            + view_bind_seq(fr@).subrange(0, j as int),
                    decreases fr@.len() - j,
                {
                    let ghost mid = loc@;
                    loc.push(fr[j].dup_binding());
                    proof {
                        crate::val::lemma_view_bind_seq(loc@);
                        crate::val::lemma_view_bind_seq(mid);
                        crate::val::lemma_view_bind_seq(fr@);
                        assert(loc@.subrange(0, loc@.len() - 1) =~= mid);
                        assert(view_bind_seq(loc@) =~= view_bind_seq(before)
                            + view_bind_seq(fr@).subrange(0, j + 1));
                    }
                    j += 1;
                }
                proof {
                    assert(view_bind_seq(fr@).subrange(
                        0,
                        fr@.len() as int,
                    ) =~= view_bind_seq(fr@));
                    assert(env@.frames.subrange(0, i + 1).drop_last()
                        =~= env@.frames.subrange(0, i as int));
                    crate::env::lemma_flatten_push(
                        env@.frames.subrange(0, i as int),
                        env@.frames[i as int],
                    );
                    assert(env@.frames.subrange(0, i + 1)
                        =~= env@.frames.subrange(0, i as int).push(
                        env@.frames[i as int],
                    ));
                }
                i += 1;
            }
            proof {
                assert(env@.frames.subrange(0, env@.frames.len() as int)
                    =~= env@.frames);
            }
            let mut body: Vec<Ve> = Vec::new();
            let mut k: usize = 0;
            while k < es.len()
                invariant
                    k <= es@.len(),
                    *e matches Fe::Dfn(se) && se == *es,
                    body@.len() == k,
                    forall|m: int|
                        0 <= m < k ==> #[trigger] view_ve(body@[m]) == view_ve(
                            es@[m],
                        ),
                decreases es@.len() - k,
            {
                proof {
                    assert(decreases_to!(*e => *es));
                    assert(decreases_to!(*es => es@));
                    assert(decreases_to!(es@ => es@[k as int]));
                }
                body.push(dup_ve(&es[k]));
                k += 1;
            }
            let ghost gbody = body@;
            let ghost gloc = loc@;
            let r = Val::Dfn { s: Rc::new(body), loc: Rc::new(loc) };
            proof {
                lemma_view_ve_seq(gbody);
                lemma_view_ve_seq(es@);
                assert(view_ve_seq(gbody) =~= view_ve_seq(es@));
                let (rv, ev) = spec_eval_fe(e@, old(env)@, fuel as nat);
                assert(r@ =~~= rv);
            }
            r
        },
    }
}

/// Evaluate a thing.
pub fn eval_tg(t: &Tg, env: &mut Env, fuel: u64) -> (r: Val)
    ensures
        ({
            let (rv, ev) = spec_eval_tg(t@, old(env)@, fuel as nat);
            r@ == rv && final(env)@ == ev
        }),
        final(env)@.frames.len() == old(env)@.frames.len(),
    decreases fuel,
{
    if fuel == 0 {
        return Val::Und;
    }
    match t {
        Tg::Fe(f) => eval_fe(f, env, fuel - 1),
        Tg::Ve(v) => eval_ve(v, env, fuel - 1),
    }
}

/// Evaluate an expression sequence: each expression in order, keeping the
/// last value; a termination marker short-circuits at once.
pub fn eval_block(es: &Vec<Ve>, env: &mut Env, fuel: u64) -> (r: Val)
    ensures
        ({
            let (rv, ev) = spec_block(view_ve_seq(es@), old(env)@, fuel as nat);
            r@ == rv && final(env)@ == ev
        }),
        final(env)@.frames.len() == old(env)@.frames.len(),
    decreases fuel,
{
    proof {
        lemma_view_ve_seq(es@);
        assert(view_ve_seq(es@).subrange(0, es@.len() as int) =~= view_ve_seq(
            es@,
        ));
    }
    eval_block_from(es, 0, env, fuel)
}

/// Evaluate an expression sequence from a position on.
pub fn eval_block_from(es: &Vec<Ve>, pos: usize, env: &mut Env, fuel: u64) -> (r:
    Val)
    requires
        pos <= es@.len(),
    ensures
        ({
            let (rv, ev) = spec_block(
                view_ve_seq(es@).subrange(pos as int, es@.len() as int),
                old(env)@,
                fuel as nat,
            );
            r@ == rv && final(env)@ == ev
        }),
        final(env)@.frames.len() == old(env)@.frames.len(),
    decreases fuel,
{
    proof {
        lemma_view_ve_seq(es@);
    }
    let ghost ev_ = view_ve_seq(es@);
    let ghost spec0 = spec_block(
        ev_.subrange(pos as int, es@.len() as int),
        old(env)@,
        fuel as nat,
    );
    let mut i = pos;
    let mut fl = fuel;
    while fl > 0 && i < es.len()
        invariant
            pos <= i <= es@.len(),
            fl <= fuel,
            ev_ == view_ve_seq(es@),
            ev_.len() == es@.len(),
            forall|j: int|
                0 <= j < es@.len() ==> #[trigger] ev_[j] == view_ve(es@[j]),
            spec0 == spec_block(
                ev_.subrange(pos as int, es@.len() as int),
                old(env)@,
                fuel as nat,
            ),
            spec0 == spec_block(
                ev_.subrange(i as int, es@.len() as int),
                env@,
                fl as nat,
            ),
            env@.frames.len() == old(env)@.frames.len(),
        decreases fl,
    {
        proof {
            let sub = ev_.subrange(i as int, es@.len() as int);
            assert(sub[0] == ev_[i as int]);
            assert(sub.subrange(1, sub.len() as int) =~= ev_.subrange(
                i + 1,
                es@.len() as int,
            ));
        }
        let v = eval_ve(&es[i], env, fl - 1);
        proof {
            crate::val::lemma_view_variants(v);
        }
        let halted = match &v {
            Val::Halt(_) => true,
            _ => false,
        };
        if halted {
            return v;
        }
        if i + 1 == es.len() {
            return v;
        }
        i += 1;
        fl -= 1;
    }
    proof {
        if i == es@.len() {
            assert(ev_.subrange(i as int, es@.len() as int) =~= Seq::<
                VeV,
            >::empty());
        }
    }
    Val::Und
}

/// Copy a value expression.
pub fn dup_ve(e: &Ve) -> (r: Ve)
    ensures
        r@ == e@,
    decreases e,
{
    match e {
        Ve::Var(n) => Ve::Var(clone_bytes(n)),
        Ve::Num(n) => Ve::Num(*n),
        Ve::Und => Ve::Und,
        Ve::Snd(l) => {
            let mut out: Vec<Ve> = Vec::new();
            let mut i: usize = 0;
            while i < l.len()
                invariant
                    i <= l@.len(),
                    *e matches Ve::Snd(sl) && sl == *l,
                    out@.len() == i,
                    forall|j: int|
                        0 <= j < i ==> #[trigger] view_ve(out@[j]) == view_ve(
                            l@[j],
                        ),
                decreases l@.len() - i,
            {
                proof {
                    assert(decreases_to!(*e => *l));
                    assert(decreases_to!(*l => l@));
                    assert(decreases_to!(l@ => l@[i as int]));
                }
                out.push(dup_ve(&l[i]));
                i += 1;
            }
            let ghost gout = out@;
            let r = Ve::Snd(out);
            proof {
                lemma_view_ve_seq(gout);
                lemma_view_ve_seq(l@);
                assert(view_ve_seq(gout) =~= view_ve_seq(l@));
                assert(r@ =~~= e@);
            }
            r
        },
        Ve::Nom(f) => Ve::Nom(dup_fe(f)),
        Ve::Afn1 { a, f } => Ve::Afn1 {
            a: Box::new(dup_ve(&**a)),
            f: dup_fe(f),
        },
        Ve::Afn2 { a, f, b } => Ve::Afn2 {
            a: Box::new(dup_ve(&**a)),
            f: dup_fe(f),
            b: Box::new(dup_ve(&**b)),
        },
    }
}

/// Copy a function expression.
pub fn dup_fe(e: &Fe) -> (r: Fe)
    ensures
        r@ == e@,
    decreases e,
{
    match e {
        Fe::Var(n) => Fe::Var(clone_bytes(n)),
        Fe::SetVar(n) => Fe::SetVar(clone_bytes(n)),
        Fe::Aav1 { v, g } => Fe::Aav1 {
            v: clone_bytes(v),
            g: Box::new(dup_tg(&**g)),
        },
        Fe::Aav2 { f, v, g } => Fe::Aav2 {
            f: Box::new(dup_tg(&**f)),
            v: clone_bytes(v),
            g: Box::new(dup_tg(&**g)),
        },
        Fe::Bind { f, b } => Fe::Bind {
            f: Box::new(dup_fe(&**f)),
            b: Box::new(dup_ve(&**b)),
        },
        Fe::Trn1 { a, f } => Fe::Trn1 {
            a: Box::new(dup_fe(&**a)),
            f: Box::new(dup_fe(&**f)),
        },
        Fe::Trn2 { a, f, b } => Fe::Trn2 {
            a: Box::new(dup_fe(&**a)),
            f: Box::new(dup_fe(&**f)),
            b: Box::new(dup_ve(&**b)),
        },
        Fe::Dfn(l) => {
            let mut out: Vec<Ve> = Vec::new();
            let mut i: usize = 0;
            while i < l.len()
                invariant
                    i <= l@.len(),
                    *e matches Fe::Dfn(sl) && sl == *l,
                    out@.len() == i,
                    forall|j: int|
                        0 <= j < i ==> #[trigger] view_ve(out@[j]) == view_ve(
                            l@[j],
                        ),
                decreases l@.len() - i,
            {
                proof {
                    assert(decreases_to!(*e => *l));
                    assert(decreases_to!(*l => l@));
                    assert(decreases_to!(l@ => l@[i as int]));
                }
                out.push(dup_ve(&l[i]));
                i += 1;
            }
            let ghost gout = out@;
            let r = Fe::Dfn(out);
            proof {
                lemma_view_ve_seq(gout);
                lemma_view_ve_seq(l@);
                assert(view_ve_seq(gout) =~= view_ve_seq(l@));
                assert(r@ =~~= e@);
            }
            r
        },
    }
}

/// Copy a thing.
pub fn dup_tg(t: &Tg) -> (r: Tg)
    ensures
        r@ == t@,
    decreases t,
{
    match t {
        Tg::Fe(f) => Tg::Fe(dup_fe(f)),
        Tg::Ve(v) => Tg::Ve(dup_ve(v)),
    }
}

} // verus!
