//! Abstract syntax: value expressions, function expressions, and things.
//!
//! A parsed program is an ordered sequence of value expressions. Value and
//! function expressions are mutually recursive; a thing is either of the
//! two, the unit the expression folder works over.
use vstd::prelude::*;

verus! {

/// A value expression.
#[derive(Debug)]
pub enum Ve {
    /// A value variable, by name.
    Var(Vec<u8>),
    /// An exact integer literal.
    Num(i64),
    /// The undefined-value literal.
    Und,
    /// A strand: an adjacent run of values forming a list literal.
    Snd(Vec<Ve>),
    /// A function expression used as a value.
    Nom(Fe),
    /// Monadic application of a function to one value.
    Afn1 { a: Box<Ve>, f: Fe },
    /// Dyadic application of a function to two values.
    Afn2 { a: Box<Ve>, f: Fe, b: Box<Ve> },
}

/// A function expression.
#[derive(Debug)]
pub enum Fe {
    /// A function variable, by name.
    Var(Vec<u8>),
    /// An assignment target: a function that binds its argument.
    SetVar(Vec<u8>),
    /// Application of a monadic adverb to one thing.
    Aav1 { v: Vec<u8>, g: Box<Tg> },
    /// Application of a dyadic adverb to two things.
    Aav2 { f: Box<Tg>, v: Vec<u8>, g: Box<Tg> },
    /// A function with its right argument pre-supplied.
    Bind { f: Box<Fe>, b: Box<Ve> },
    /// A 2-train: apply `a`, then `f` monadically to the result.
    Trn1 { a: Box<Fe>, f: Box<Fe> },
    /// A 2-train with a bound right argument on the second function.
    Trn2 { a: Box<Fe>, f: Box<Fe>, b: Box<Ve> },
    /// A user-defined block: a captured expression sequence.
    Dfn(Vec<Ve>),
}

/// A thing: either a function expression or a value expression.
#[derive(Debug)]
pub enum Tg {
    Fe(Fe),
    Ve(Ve),
}

/// Ghost mirror of [`Ve`].
#[verifier::ext_equal]
pub enum VeV {
    Var(Seq<u8>),
    Num(int),
    Und,
    Snd(Seq<VeV>),
    Nom(Box<FeV>),
    Afn1 { a: Box<VeV>, f: Box<FeV> },
    Afn2 { a: Box<VeV>, f: Box<FeV>, b: Box<VeV> },
}

/// Ghost mirror of [`Fe`].
#[verifier::ext_equal]
pub enum FeV {
    Var(Seq<u8>),
    SetVar(Seq<u8>),
    Aav1 { v: Seq<u8>, g: Box<TgV> },
    Aav2 { f: Box<TgV>, v: Seq<u8>, g: Box<TgV> },
    Bind { f: Box<FeV>, b: Box<VeV> },
    Trn1 { a: Box<FeV>, f: Box<FeV> },
    Trn2 { a: Box<FeV>, f: Box<FeV>, b: Box<VeV> },
    Dfn(Seq<VeV>),
}

/// Ghost mirror of [`Tg`].
#[verifier::ext_equal]
pub enum TgV {
    Fe(Box<FeV>),
    Ve(Box<VeV>),
}

/// The structural views of a sequence of value expressions.
pub open spec fn view_ve_seq(s: Seq<Ve>) -> Seq<VeV>
    decreases s,
{
    if s.len() == 0 {
        Seq::empty()
    } else {
        view_ve_seq(s.subrange(0, s.len() - 1)).push(view_ve(s[s.len() - 1]))
    }
}

/// The structural view of a value expression.
pub open spec fn view_ve(e: Ve) -> VeV
    decreases e,
{
    match e {
        Ve::Var(n) => VeV::Var(n@),
        Ve::Num(n) => VeV::Num(n as int),
        Ve::Und => VeV::Und,
        Ve::Snd(l) => VeV::Snd(view_ve_seq(l@)),
        Ve::Nom(f) => VeV::Nom(Box::new(view_fe(f))),
        Ve::Afn1 { a, f } => VeV::Afn1 {
            a: Box::new(view_ve(*a)),
            f: Box::new(view_fe(f)),
        },
        Ve::Afn2 { a, f, b } => VeV::Afn2 {
            a: Box::new(view_ve(*a)),
            f: Box::new(view_fe(f)),
            b: Box::new(view_ve(*b)),
        },
    }
}

/// The structural view of a function expression.
pub open spec fn view_fe(e: Fe) -> FeV
    decreases e,
{
    match e {
        Fe::Var(n) => FeV::Var(n@),
        Fe::SetVar(n) => FeV::SetVar(n@),
        Fe::Aav1 { v, g } => FeV::Aav1 { v: v@, g: Box::new(view_tg(*g)) },
        Fe::Aav2 { f, v, g } => FeV::Aav2 {
            f: Box::new(view_tg(*f)),
            v: v@,
            g: Box::new(view_tg(*g)),
        },
        Fe::Bind { f, b } => FeV::Bind {
            f: Box::new(view_fe(*f)),
            b: Box::new(view_ve(*b)),
        },
        Fe::Trn1 { a, f } => FeV::Trn1 {
            a: Box::new(view_fe(*a)),
            f: Box::new(view_fe(*f)),
        },
        Fe::Trn2 { a, f, b } => FeV::Trn2 {
            a: Box::new(view_fe(*a)),
            f: Box::new(view_fe(*f)),
            b: Box::new(view_ve(*b)),
        },
        Fe::Dfn(l) => FeV::Dfn(view_ve_seq(l@)),
    }
}

/// The structural view of a thing.
pub open spec fn view_tg(t: Tg) -> TgV
    decreases t,
{
    match t {
        Tg::Fe(f) => TgV::Fe(Box::new(view_fe(f))),
        Tg::Ve(v) => TgV::Ve(Box::new(view_ve(v))),
    }
}

/// The view of a sequence of value expressions is elementwise.
pub proof fn lemma_view_ve_seq(s: Seq<Ve>)
    ensures
        view_ve_seq(s).len() == s.len(),
        forall|i: int|
            0 <= i < s.len() ==> #[trigger] view_ve_seq(s)[i] == view_ve(s[i]),
    decreases s.len(),
{
    if s.len() > 0 {
        lemma_view_ve_seq(s.subrange(0, s.len() - 1));
    }
}

impl View for Ve {
    type V = VeV;

    open spec fn view(&self) -> VeV {
        view_ve(*self)
    }
}

impl View for Fe {
    type V = FeV;

    open spec fn view(&self) -> FeV {
        view_fe(*self)
    }
}

impl View for Tg {
    type V = TgV;

    open spec fn view(&self) -> TgV {
        view_tg(*self)
    }
}

} // verus!

verus! {

/// The structural views of a sequence of things.
pub open spec fn view_tg_seq(s: Seq<Tg>) -> Seq<TgV>
    decreases s,
{
    if s.len() == 0 {
        Seq::empty()
    } else {
        view_tg_seq(s.subrange(0, s.len() - 1)).push(view_tg(s[s.len() - 1]))
    }
}

/// The view of a sequence of things is elementwise.
pub proof fn lemma_view_tg_seq(s: Seq<Tg>)
    ensures
        view_tg_seq(s).len() == s.len(),
        forall|i: int|
            0 <= i < s.len() ==> #[trigger] view_tg_seq(s)[i] == view_tg(s[i]),
    decreases s.len(),
{
    if s.len() > 0 {
        lemma_view_tg_seq(s.subrange(0, s.len() - 1));
    }
}

} // verus!
