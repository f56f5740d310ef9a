//! The runtime value model: exact integers, the undefined sentinel, filled
//! lists, cyclic lists, function representations, and the termination
//! marker.
//!
//! Every executable value has a ghost mirror [`ValV`] reached through
//! [`View`]; all contracts in this crate speak of the mirror, so equality in
//! specifications is structural (lists compare by their elements, never by
//! allocation identity).
use vstd::prelude::*;
use std::rc::Rc;
use crate::ast::Ve;
use crate::ast::VeV;

verus! {

/// The adverb combinators: a closed set of tags, dispatched exhaustively.
#[derive(Copy, Clone, Debug)]
pub enum AvT {
    Swap, Const, Monadic,
    Each, EachLeft, Conform, Extend,
    Scan, ScanPairs, Reduce, Stencil, Valences,
    Overleft, Overright, Over,
    Until, UntilScan, Power, PowerScan,
}

/// One captured variable binding: a name and its value.
#[derive(Debug)]
pub struct Binding {
    pub name: Vec<u8>,
    pub val: Val,
}

/// Ghost mirror of [`Binding`].
#[verifier::ext_equal]
pub struct BindV {
    pub name: Seq<u8>,
    pub val: ValV,
}

/// A runtime value.
#[derive(Debug)]
pub enum Val {
    /// An exact signed 64-bit integer; arithmetic on two integers saturates.
    Int(i64),
    /// The undefined sentinel: the universal "no valid result" value.
    Und,
    /// A shared immutable list with a declared fill value.
    Lis { l: Rc<Vec<Val>>, fill: Rc<Val> },
    /// A cyclic list: index `n` reads element `n` modulo the length.
    DCycle(Rc<Vec<Val>>),
    /// The termination marker, carrying an exit code.
    Halt(i64),
    /// Assign to a local variable, by name.
    FSet(Vec<u8>),
    /// Mutate an existing binding up the scope chain, by name.
    FCng(Vec<u8>),
    /// A user-defined block: a captured expression sequence and a captured
    /// scope snapshot.
    Dfn { s: Rc<Vec<Ve>>, loc: Rc<Vec<Binding>> },
    /// A function with its right argument pre-supplied.
    Bind { f: Rc<Val>, b: Rc<Val> },
    /// A 2-train: apply `a`, then `f` monadically to the result.
    Trn2 { a: Rc<Val>, f: Rc<Val> },
    /// A 2-train whose second function has a bound right argument.
    Trn3 { a: Rc<Val>, f: Rc<Val>, b: Rc<Val> },
    /// A fork: apply `a` and `b` to the same arguments, combine with `f`.
    Fork { a: Rc<Val>, f: Rc<Val>, b: Rc<Val> },
    /// An adverb awaiting its operand function(s).
    AvBuilder(AvT),
    /// An adverb applied to one or two captured operands.
    Av(AvT, Option<Rc<Val>>, Rc<Val>),
    // The primitive operations, one unit variant each.
    Add, Sub, Mul, Div, DivE, Mod, Pow, Lt, Eq, Gt, And, Or, Max, Min,
    BAnd, BOr, BXor, BNot, BRepr,
    Gcd, Lcm, Binom,
    Get, SetVar, Call,
    Abs, Neg, Round, Ceil, Floor, Isnan, Sign,
    Left, Right, Len, Shape, Index, Iota, Pair, Enlist, Ravel, Concat,
    Reverse, GetFill, SetFill, Replist, Cycle, Match,
    SortUp, SortDown, GradeUp, GradeDown,
    Print, Println, Exit, Numfmt, Parse, Out, In,
    Takeleft, Takeright, Dropleft, Dropright,
    Deal, Sample, Replicate, Encode,
}

/// Ghost mirror of [`Val`]: the mathematical value the contracts speak of.
#[verifier::ext_equal]
pub enum ValV {
    Int(int),
    Und,
    Lis { l: Seq<ValV>, fill: Box<ValV> },
    DCycle(Seq<ValV>),
    Halt(int),
    FSet(Seq<u8>),
    FCng(Seq<u8>),
    Dfn { s: Seq<VeV>, loc: Seq<BindV> },
    Bind { f: Box<ValV>, b: Box<ValV> },
    Trn2 { a: Box<ValV>, f: Box<ValV> },
    Trn3 { a: Box<ValV>, f: Box<ValV>, b: Box<ValV> },
    Fork { a: Box<ValV>, f: Box<ValV>, b: Box<ValV> },
    AvBuilder(AvT),
    Av(AvT, Option<Box<ValV>>, Box<ValV>),
    Add, Sub, Mul, Div, DivE, Mod, Pow, Lt, Eq, Gt, And, Or, Max, Min,
    BAnd, BOr, BXor, BNot, BRepr,
    Gcd, Lcm, Binom,
    Get, SetVar, Call,
    Abs, Neg, Round, Ceil, Floor, Isnan, Sign,
    Left, Right, Len, Shape, Index, Iota, Pair, Enlist, Ravel, Concat,
    Reverse, GetFill, SetFill, Replist, Cycle, Match,
    SortUp, SortDown, GradeUp, GradeDown,
    Print, Println, Exit, Numfmt, Parse, Out, In,
    Takeleft, Takeright, Dropleft, Dropright,
    Deal, Sample, Replicate, Encode,
}

/// The structural views of a sequence of values.
pub open spec fn view_val_seq(s: Seq<Val>) -> Seq<ValV>
    decreases s,
{
    if s.len() == 0 {
        Seq::empty()
    } else {
        view_val_seq(s.subrange(0, s.len() - 1)).push(view_val(s[s.len() - 1]))
    }
}

/// The structural views of a sequence of bindings.
pub open spec fn view_bind_seq(s: Seq<Binding>) -> Seq<BindV>
    decreases s,
{
    if s.len() == 0 {
        Seq::empty()
    } else {
        view_bind_seq(s.subrange(0, s.len() - 1)).push(
            view_binding(s[s.len() - 1]),
        )
    }
}

/// The structural view of a value.
pub open spec fn view_val(v: Val) -> ValV
    decreases v,
{
    match v {
        Val::Int(n) => ValV::Int(n as int),
        Val::Und => ValV::Und,
        Val::Lis { l, fill } => ValV::Lis {
            l: view_val_seq(l@),
            fill: Box::new(view_val(*fill)),
        },
        Val::DCycle(l) => ValV::DCycle(view_val_seq(l@)),
        Val::Halt(n) => ValV::Halt(n as int),
        Val::FSet(n) => ValV::FSet(n@),
        Val::FCng(n) => ValV::FCng(n@),
        Val::Dfn { s, loc } => ValV::Dfn {
            s: crate::ast::view_ve_seq(s@),
            loc: view_bind_seq(loc@),
        },
        Val::Bind { f, b } => ValV::Bind {
            f: Box::new(view_val(*f)),
            b: Box::new(view_val(*b)),
        },
        Val::Trn2 { a, f } => ValV::Trn2 {
            a: Box::new(view_val(*a)),
            f: Box::new(view_val(*f)),
        },
        Val::Trn3 { a, f, b } => ValV::Trn3 {
            a: Box::new(view_val(*a)),
            f: Box::new(view_val(*f)),
            b: Box::new(view_val(*b)),
        },
        Val::Fork { a, f, b } => ValV::Fork {
            a: Box::new(view_val(*a)),
            f: Box::new(view_val(*f)),
            b: Box::new(view_val(*b)),
        },
        Val::AvBuilder(t) => ValV::AvBuilder(t),
        Val::Av(t, f, g) => ValV::Av(
            t,
            match f {
                Option::Some(f) => Option::Some(Box::new(view_val(*f))),
                Option::None => Option::None,
            },
            Box::new(view_val(*g)),
        ),
        Val::Add => ValV::Add,
        Val::Sub => ValV::Sub,
        Val::Mul => ValV::Mul,
        Val::Div => ValV::Div,
        Val::DivE => ValV::DivE,
        Val::Mod => ValV::Mod,
        Val::Pow => ValV::Pow,
        Val::Lt => ValV::Lt,
        Val::Eq => ValV::Eq,
        Val::Gt => ValV::Gt,
        Val::And => ValV::And,
        Val::Or => ValV::Or,
        Val::Max => ValV::Max,
        Val::Min => ValV::Min,
        Val::BAnd => ValV::BAnd,
        Val::BOr => ValV::BOr,
        Val::BXor => ValV::BXor,
        Val::BNot => ValV::BNot,
        Val::BRepr => ValV::BRepr,
        Val::Gcd => ValV::Gcd,
        Val::Lcm => ValV::Lcm,
        Val::Binom => ValV::Binom,
        Val::Get => ValV::Get,
        Val::SetVar => ValV::SetVar,
        Val::Call => ValV::Call,
        Val::Abs => ValV::Abs,
        Val::Neg => ValV::Neg,
        Val::Round => ValV::Round,
        Val::Ceil => ValV::Ceil,
        Val::Floor => ValV::Floor,
        Val::Isnan => ValV::Isnan,
        Val::Sign => ValV::Sign,
        Val::Left => ValV::Left,
        Val::Right => ValV::Right,
        Val::Len => ValV::Len,
        Val::Shape => ValV::Shape,
        Val::Index => ValV::Index,
        Val::Iota => ValV::Iota,
        Val::Pair => ValV::Pair,
        Val::Enlist => ValV::Enlist,
        Val::Ravel => ValV::Ravel,
        Val::Concat => ValV::Concat,
        Val::Reverse => ValV::Reverse,
        Val::GetFill => ValV::GetFill,
        Val::SetFill => ValV::SetFill,
        Val::Replist => ValV::Replist,
        Val::Cycle => ValV::Cycle,
        Val::Match => ValV::Match,
        Val::SortUp => ValV::SortUp,
        Val::SortDown => ValV::SortDown,
        Val::GradeUp => ValV::GradeUp,
        Val::GradeDown => ValV::GradeDown,
        Val::Print => ValV::Print,
        Val::Println => ValV::Println,
        Val::Exit => ValV::Exit,
        Val::Numfmt => ValV::Numfmt,
        Val::Parse => ValV::Parse,
        Val::Out => ValV::Out,
        Val::In => ValV::In,
        Val::Takeleft => ValV::Takeleft,
        Val::Takeright => ValV::Takeright,
        Val::Dropleft => ValV::Dropleft,
        Val::Dropright => ValV::Dropright,
        Val::Deal => ValV::Deal,
        Val::Sample => ValV::Sample,
        Val::Replicate => ValV::Replicate,
        Val::Encode => ValV::Encode,
    }
}

/// The structural view of a binding.
pub open spec fn view_binding(b: Binding) -> BindV
    decreases b,
{
    BindV { name: b.name@, val: view_val(b.val) }
}


/// The view keeps the variant: a value and its ghost mirror are the same
/// kind of thing. Stated for the variant tests the dispatcher's negative
/// cases need.
pub proof fn lemma_view_variants(v: Val)
    ensures
        (view_val(v) is Int) <==> (v is Int),
        (view_val(v) is Und) <==> (v is Und),
        (view_val(v) is Lis) <==> (v is Lis),
        (view_val(v) is DCycle) <==> (v is DCycle),
        (view_val(v) is Halt) <==> (v is Halt),
        (view_val(v) is Add) <==> (v is Add),
        (view_val(v) is Sub) <==> (v is Sub),
        (view_val(v) is Mul) <==> (v is Mul),
        (view_val(v) is Div) <==> (v is Div),
        (view_val(v) is DivE) <==> (v is DivE),
        (view_val(v) is Mod) <==> (v is Mod),
        (view_val(v) is Pow) <==> (v is Pow),
        (view_val(v) is Lt) <==> (v is Lt),
        (view_val(v) is Eq) <==> (v is Eq),
        (view_val(v) is Gt) <==> (v is Gt),
        (view_val(v) is And) <==> (v is And),
        (view_val(v) is Or) <==> (v is Or),
        (view_val(v) is Max) <==> (v is Max),
        (view_val(v) is Min) <==> (v is Min),
        (view_val(v) is BAnd) <==> (v is BAnd),
        (view_val(v) is BOr) <==> (v is BOr),
        (view_val(v) is BXor) <==> (v is BXor),
        (view_val(v) is BNot) <==> (v is BNot),
        (view_val(v) is BRepr) <==> (v is BRepr),
        (view_val(v) is Gcd) <==> (v is Gcd),
        (view_val(v) is Lcm) <==> (v is Lcm),
        (view_val(v) is Binom) <==> (v is Binom),
        (view_val(v) is Get) <==> (v is Get),
        (view_val(v) is SetVar) <==> (v is SetVar),
        (view_val(v) is Call) <==> (v is Call),
        (view_val(v) is Abs) <==> (v is Abs),
        (view_val(v) is Neg) <==> (v is Neg),
        (view_val(v) is Round) <==> (v is Round),
        (view_val(v) is Ceil) <==> (v is Ceil),
        (view_val(v) is Floor) <==> (v is Floor),
        (view_val(v) is Isnan) <==> (v is Isnan),
        (view_val(v) is Sign) <==> (v is Sign),
        (view_val(v) is Left) <==> (v is Left),
        (view_val(v) is Right) <==> (v is Right),
        (view_val(v) is Len) <==> (v is Len),
        (view_val(v) is Shape) <==> (v is Shape),
        (view_val(v) is Index) <==> (v is Index),
        (view_val(v) is Iota) <==> (v is Iota),
        (view_val(v) is Pair) <==> (v is Pair),
        (view_val(v) is Enlist) <==> (v is Enlist),
        (view_val(v) is Ravel) <==> (v is Ravel),
        (view_val(v) is Concat) <==> (v is Concat),
        (view_val(v) is Reverse) <==> (v is Reverse),
        (view_val(v) is GetFill) <==> (v is GetFill),
        (view_val(v) is SetFill) <==> (v is SetFill),
        (view_val(v) is Replist) <==> (v is Replist),
        (view_val(v) is Cycle) <==> (v is Cycle),
        (view_val(v) is Match) <==> (v is Match),
        (view_val(v) is SortUp) <==> (v is SortUp),
        (view_val(v) is SortDown) <==> (v is SortDown),
        (view_val(v) is GradeUp) <==> (v is GradeUp),
        (view_val(v) is GradeDown) <==> (v is GradeDown),
        (view_val(v) is Print) <==> (v is Print),
        (view_val(v) is Println) <==> (v is Println),
        (view_val(v) is Exit) <==> (v is Exit),
        (view_val(v) is Numfmt) <==> (v is Numfmt),
        (view_val(v) is Parse) <==> (v is Parse),
        (view_val(v) is Out) <==> (v is Out),
        (view_val(v) is In) <==> (v is In),
        (view_val(v) is Takeleft) <==> (v is Takeleft),
        (view_val(v) is Takeright) <==> (v is Takeright),
        (view_val(v) is Dropleft) <==> (v is Dropleft),
        (view_val(v) is Dropright) <==> (v is Dropright),
        (view_val(v) is Deal) <==> (v is Deal),
        (view_val(v) is Sample) <==> (v is Sample),
        (view_val(v) is Replicate) <==> (v is Replicate),
        (view_val(v) is Encode) <==> (v is Encode),
        (view_val(v) is FSet) <==> (v is FSet),
        (view_val(v) is FCng) <==> (v is FCng),
        (view_val(v) is Dfn) <==> (v is Dfn),
        (view_val(v) is Bind) <==> (v is Bind),
        (view_val(v) is Trn2) <==> (v is Trn2),
        (view_val(v) is Trn3) <==> (v is Trn3),
        (view_val(v) is Fork) <==> (v is Fork),
        (view_val(v) is AvBuilder) <==> (v is AvBuilder),
        (view_val(v) is Av) <==> (v is Av),
        v matches Val::Int(n) ==> view_val(v) == ValV::Int(n as int),
{
    match v {
        Val::Int(_) => {},
        Val::Und => {},
        Val::Lis { .. } => {},
        Val::DCycle(_) => {},
        Val::Halt(_) => {},
        Val::FSet(_) => {},
        Val::FCng(_) => {},
        Val::Dfn { .. } => {},
        Val::Bind { .. } => {},
        Val::Trn2 { .. } => {},
        Val::Trn3 { .. } => {},
        Val::Fork { .. } => {},
        Val::AvBuilder(_) => {},
        Val::Av(_, _, _) => {},
        Val::Add => {},
        Val::Sub => {},
        Val::Mul => {},
        Val::Div => {},
        Val::DivE => {},
        Val::Mod => {},
        Val::Pow => {},
        Val::Lt => {},
        Val::Eq => {},
        Val::Gt => {},
        Val::And => {},
        Val::Or => {},
        Val::Max => {},
        Val::Min => {},
        Val::BAnd => {},
        Val::BOr => {},
        Val::BXor => {},
        Val::BNot => {},
        Val::BRepr => {},
        Val::Gcd => {},
        Val::Lcm => {},
        Val::Binom => {},
        Val::Get => {},
        Val::SetVar => {},
        Val::Call => {},
        Val::Abs => {},
        Val::Neg => {},
        Val::Round => {},
        Val::Ceil => {},
        Val::Floor => {},
        Val::Isnan => {},
        Val::Sign => {},
        Val::Left => {},
        Val::Right => {},
        Val::Len => {},
        Val::Shape => {},
        Val::Index => {},
        Val::Iota => {},
        Val::Pair => {},
        Val::Enlist => {},
        Val::Ravel => {},
        Val::Concat => {},
        Val::Reverse => {},
        Val::GetFill => {},
        Val::SetFill => {},
        Val::Replist => {},
        Val::Cycle => {},
        Val::Match => {},
        Val::SortUp => {},
        Val::SortDown => {},
        Val::GradeUp => {},
        Val::GradeDown => {},
        Val::Print => {},
        Val::Println => {},
        Val::Exit => {},
        Val::Numfmt => {},
        Val::Parse => {},
        Val::Out => {},
        Val::In => {},
        Val::Takeleft => {},
        Val::Takeright => {},
        Val::Dropleft => {},
        Val::Dropright => {},
        Val::Deal => {},
        Val::Sample => {},
        Val::Replicate => {},
        Val::Encode => {},
    }
}

/// The view of a sequence of values is elementwise.
pub proof fn lemma_view_val_seq(s: Seq<Val>)
    ensures
        view_val_seq(s).len() == s.len(),
        forall|i: int|
            0 <= i < s.len() ==> #[trigger] view_val_seq(s)[i] == view_val(s[i]),
    decreases s.len(),
{
    if s.len() > 0 {
        lemma_view_val_seq(s.subrange(0, s.len() - 1));
    }
}

/// The view of a sequence of bindings is elementwise.
pub proof fn lemma_view_bind_seq(s: Seq<Binding>)
    ensures
        view_bind_seq(s).len() == s.len(),
        forall|i: int|
            0 <= i < s.len() ==> #[trigger] view_bind_seq(s)[i] == view_binding(
                s[i],
            ),
    decreases s.len(),
{
    if s.len() > 0 {
        lemma_view_bind_seq(s.subrange(0, s.len() - 1));
    }
}

impl View for Val {
    type V = ValV;

    open spec fn view(&self) -> ValV {
        view_val(*self)
    }
}

/// Relies on the standard library's `Rc::clone`, which returns a second
/// handle to the same allocation, so the result is the same value.
#[verifier::external_body]
pub fn rc_dup<T>(rc: &Rc<T>) -> (r: Rc<T>)
    ensures
        r == *rc,
{
    Rc::clone(rc)
}

/// The views of an optional value.
pub open spec fn vopt(b: Option<Val>) -> Option<ValV> {
    match b {
        Option::Some(x) => Option::Some(view_val(x)),
        Option::None => Option::None,
    }
}

/// Copy an optional value.
pub fn dup_opt(b: &Option<Val>) -> (r: Option<Val>)
    ensures
        vopt(r) == vopt(*b),
{
    match b {
        Option::Some(x) => Option::Some(x.dup()),
        Option::None => Option::None,
    }
}

/// Copy a byte string.
pub fn clone_bytes(v: &Vec<u8>) -> (r: Vec<u8>)
    ensures
        r@ == v@,
{
    let r = v.clone();
    proof {
        assert(r@ =~= v@);
    }
    r
}

impl ValV {
    /// Scalars are exactly the integer and the undefined sentinel.
    pub open spec fn is_scalar(self) -> bool {
        self matches ValV::Int(_) || self matches ValV::Und
    }

    /// Finite values are scalars and materialized lists; every function
    /// representation and the cyclic list are unbounded.
    pub open spec fn is_finite(self) -> bool {
        self.is_scalar() || self matches ValV::Lis { .. }
    }

    /// The undefined-value predicate.
    pub open spec fn is_nan(self) -> bool {
        self matches ValV::Und
    }

    /// Truthiness: integer zero is false; everything else, the undefined
    /// sentinel included, is true.
    pub open spec fn as_bool(self) -> bool {
        !(self == ValV::Int(0))
    }

    /// The exact integer a value stands for, if any.
    pub open spec fn try_int(self) -> Option<int> {
        match self {
            ValV::Int(n) => Option::Some(n),
            _ => Option::None,
        }
    }

    /// The length a value reports: 1 for scalars, the element count for
    /// lists, and the largest representable count for unbounded values.
    pub open spec fn vlen(self) -> int {
        match self {
            ValV::Int(_) => 1,
            ValV::Und => 1,
            ValV::Lis { l, .. } => l.len() as int,
            _ => usize::MAX as int,
        }
    }

    /// The fill element: declared for lists, undefined for anything else.
    pub open spec fn vfill(self) -> ValV {
        match self {
            ValV::Lis { fill, .. } => *fill,
            _ => ValV::Und,
        }
    }

    /// Whether indexing this value is a pure lookup (no function call).
    pub open spec fn pure_indexable(self) -> bool {
        self.is_finite() || self matches ValV::DCycle(_)
    }

    /// Pure indexing: a scalar broadcasts to itself at every index, a list
    /// yields its element or its fill beyond the end, a cyclic list wraps.
    pub open spec fn vindex(self, n: int) -> ValV {
        match self {
            ValV::Int(k) => ValV::Int(k),
            ValV::Und => ValV::Und,
            ValV::Lis { l, fill } => if 0 <= n < l.len() {
                l[n]
            } else {
                *fill
            },
            ValV::DCycle(l) => if l.len() > 0 && n >= 0 {
                l[n % (l.len() as int)]
            } else {
                ValV::Und
            },
            _ => ValV::Und,
        }
    }
}

impl Val {
    /// Whether this value is a scalar.
    pub fn is_scalar(&self) -> (r: bool)
        ensures
            r == self@.is_scalar(),
    {
        match self {
            Val::Int(_) => true,
            Val::Und => true,
            _ => false,
        }
    }

    /// Whether this value is finite (materializable).
    pub fn is_finite(&self) -> (r: bool)
        ensures
            r == self@.is_finite(),
    {
        match self {
            Val::Int(_) => true,
            Val::Und => true,
            Val::Lis { .. } => true,
            _ => false,
        }
    }

    /// Whether this value is unbounded.
    pub fn is_infinite(&self) -> (r: bool)
        ensures
            r == !self@.is_finite(),
    {
        !self.is_finite()
    }

    /// Whether this value is the undefined sentinel.
    pub fn is_nan(&self) -> (r: bool)
        ensures
            r == self@.is_nan(),
    {
        match self {
            Val::Und => true,
            _ => false,
        }
    }

    /// The general truthiness rule of the language.
    pub fn as_bool(&self) -> (r: bool)
        ensures
            r == self@.as_bool(),
    {
        match self {
            Val::Int(n) => *n != 0,
            _ => true,
        }
    }

    /// The exact integer this value stands for, if any.
    pub fn try_int(&self) -> (r: Option<i64>)
        ensures
            match r {
                Option::Some(n) => self@.try_int() == Option::Some(n as int),
                Option::None => self@.try_int() is None,
            },
    {
        match self {
            Val::Int(n) => Option::Some(*n),
            _ => Option::None,
        }
    }

    /// The reported length of this value.
    pub fn len(&self) -> (r: usize)
        ensures
            r as int == self@.vlen(),
    {
        match self {
            Val::Int(_) => 1,
            Val::Und => 1,
            Val::Lis { l, .. } => {
                proof {
                    lemma_view_val_seq(l@);
                }
                l.len()
            },
            _ => usize::MAX,
        }
    }

    /// The fill element of this value.
    pub fn fill(&self) -> (r: Val)
        ensures
            r@ == self@.vfill(),
    {
        match self {
            Val::Lis { fill, .. } => (**fill).dup(),
            _ => Val::Und,
        }
    }

    /// Pure indexing on scalars, lists, and cyclic lists.
    pub fn index_pure(&self, n: usize) -> (r: Val)
        requires
            self@.pure_indexable(),
        ensures
            r@ == self@.vindex(n as int),
    {
        match self {
            Val::Int(k) => Val::Int(*k),
            Val::Und => Val::Und,
            Val::Lis { l, fill } => {
                proof {
                    lemma_view_val_seq(l@);
                }
                if n < l.len() {
                    l[n].dup()
                } else {
                    (**fill).dup()
                }
            },
            Val::DCycle(l) => {
                proof {
                    lemma_view_val_seq(l@);
                }
                if l.len() > 0 {
                    l[n % l.len()].dup()
                } else {
                    Val::Und
                }
            },
            _ => Val::Und,
        }
    }

    /// A list with the undefined sentinel as its fill.
    pub fn lis(v: Vec<Val>) -> (r: Val)
        ensures
            r@ == (ValV::Lis { l: view_val_seq(v@), fill: Box::new(ValV::Und) }),
    {
        let ghost gv = v@;
        let r = Val::Lis { l: Rc::new(v), fill: Rc::new(Val::Und) };
        proof {
            reveal_with_fuel(view_val, 2);
            assert(r@ =~~= (ValV::Lis {
                l: view_val_seq(gv),
                fill: Box::new(ValV::Und),
            }));
        }
        r
    }

    /// A list with a declared fill element.
    pub fn lis_fill(v: Vec<Val>, fill: Val) -> (r: Val)
        ensures
            r@ == (ValV::Lis { l: view_val_seq(v@), fill: Box::new(fill@) }),
    {
        let ghost gv = v@;
        let ghost gf = fill@;
        let r = Val::Lis { l: Rc::new(v), fill: Rc::new(fill) };
        proof {
            assert(r@ =~~= (ValV::Lis {
                l: view_val_seq(gv),
                fill: Box::new(gf),
            }));
        }
        r
    }

    /// Move this value behind a shared handle.
    pub fn rc(self) -> (r: Rc<Val>)
        ensures
            r@ == self@,
    {
        Rc::new(self)
    }

    /// An integer truth value: 1 for true, 0 for false.
    pub fn bool(b: bool) -> (r: Val)
        ensures
            r@ == ValV::Int(if b { 1int } else { 0int }),
    {
        Val::Int(if b { 1 } else { 0 })
    }

    /// Copy this value; lists and captured structures are shared, so the
    /// copy is cheap and the result is the same value.
    pub fn dup(&self) -> (r: Val)
        ensures
            r@ == self@,
    {
        match self {
            Val::Int(n) => Val::Int(*n),
            Val::Und => Val::Und,
            Val::Lis { l, fill } => Val::Lis { l: rc_dup(l), fill: rc_dup(fill) },
            Val::DCycle(l) => Val::DCycle(rc_dup(l)),
            Val::Halt(n) => Val::Halt(*n),
            Val::FSet(n) => Val::FSet(clone_bytes(n)),
            Val::FCng(n) => Val::FCng(clone_bytes(n)),
            Val::Dfn { s, loc } => Val::Dfn { s: rc_dup(s), loc: rc_dup(loc) },
            Val::Bind { f, b } => Val::Bind { f: rc_dup(f), b: rc_dup(b) },
            Val::Trn2 { a, f } => Val::Trn2 { a: rc_dup(a), f: rc_dup(f) },
            Val::Trn3 { a, f, b } => Val::Trn3 {
                a: rc_dup(a),
                f: rc_dup(f),
                b: rc_dup(b),
            },
            Val::Fork { a, f, b } => Val::Fork {
                a: rc_dup(a),
                f: rc_dup(f),
                b: rc_dup(b),
            },
            Val::AvBuilder(t) => Val::AvBuilder(*t),
            Val::Av(t, f, g) => Val::Av(
                *t,
                match f {
                    Option::Some(f) => Option::Some(rc_dup(f)),
                    Option::None => Option::None,
                },
                rc_dup(g),
            ),
            Val::Add => Val::Add,
            Val::Sub => Val::Sub,
            Val::Mul => Val::Mul,
            Val::Div => Val::Div,
            Val::DivE => Val::DivE,
            Val::Mod => Val::Mod,
            Val::Pow => Val::Pow,
            Val::Lt => Val::Lt,
            Val::Eq => Val::Eq,
            Val::Gt => Val::Gt,
            Val::And => Val::And,
            Val::Or => Val::Or,
            Val::Max => Val::Max,
            Val::Min => Val::Min,
            Val::BAnd => Val::BAnd,
            Val::BOr => Val::BOr,
            Val::BXor => Val::BXor,
            Val::BNot => Val::BNot,
            Val::BRepr => Val::BRepr,
            Val::Gcd => Val::Gcd,
            Val::Lcm => Val::Lcm,
            Val::Binom => Val::Binom,
            Val::Get => Val::Get,
            Val::SetVar => Val::SetVar,
            Val::Call => Val::Call,
            Val::Abs => Val::Abs,
            Val::Neg => Val::Neg,
            Val::Round => Val::Round,
            Val::Ceil => Val::Ceil,
            Val::Floor => Val::Floor,
            Val::Isnan => Val::Isnan,
            Val::Sign => Val::Sign,
            Val::Left => Val::Left,
            Val::Right => Val::Right,
            Val::Len => Val::Len,
            Val::Shape => Val::Shape,
            Val::Index => Val::Index,
            Val::Iota => Val::Iota,
            Val::Pair => Val::Pair,
            Val::Enlist => Val::Enlist,
            Val::Ravel => Val::Ravel,
            Val::Concat => Val::Concat,
            Val::Reverse => Val::Reverse,
            Val::GetFill => Val::GetFill,
            Val::SetFill => Val::SetFill,
            Val::Replist => Val::Replist,
            Val::Cycle => Val::Cycle,
            Val::Match => Val::Match,
            Val::SortUp => Val::SortUp,
            Val::SortDown => Val::SortDown,
            Val::GradeUp => Val::GradeUp,
            Val::GradeDown => Val::GradeDown,
            Val::Print => Val::Print,
            Val::Println => Val::Println,
            Val::Exit => Val::Exit,
            Val::Numfmt => Val::Numfmt,
            Val::Parse => Val::Parse,
            Val::Out => Val::Out,
            Val::In => Val::In,
            Val::Takeleft => Val::Takeleft,
            Val::Takeright => Val::Takeright,
            Val::Dropleft => Val::Dropleft,
            Val::Dropright => Val::Dropright,
            Val::Deal => Val::Deal,
            Val::Sample => Val::Sample,
            Val::Replicate => Val::Replicate,
            Val::Encode => Val::Encode,
        }
    }
}

impl View for Binding {
    type V = BindV;

    open spec fn view(&self) -> BindV {
        view_binding(*self)
    }
}

} // verus!


