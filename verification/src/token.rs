//! The classified token stream that the parser consumes.
//!
//! Tokenizing raw source is outside this crate: the parser works on an
//! ordered sequence of already-classified tokens. Each variant carries the
//! payload the parser needs and nothing else; names are byte strings in the
//! language's one-byte-per-symbol alphabet.
use vstd::prelude::*;

verus! {

/// Code-page byte for the statement separator glyph.
pub const B_SEP: u8 = 250;
/// Code-page bytes for the three marker glyphs that parse as function
/// variables.
pub const B_FACE1: u8 = 1;
pub const B_FACE2: u8 = 2;
pub const B_HOUSE: u8 = 127;
/// Code-page byte for the literal ten glyph.
pub const B_TEN: u8 = 232;
/// Code-page byte for the literal minus-one glyph.
pub const B_MINUS_ONE: u8 = 233;
/// Code-page byte for the infinity glyph.
pub const B_INF: u8 = 236;
/// Code-page byte for the undefined-value glyph.
pub const B_BLOCK: u8 = 219;
/// Code-page byte for the empty-strand glyph.
pub const B_EMPTY: u8 = 237;
/// Code-page byte for the nominalize glyph (wraps a function as a value).
pub const B_NOTE: u8 = 13;
/// Code-page bytes for the four value-group glyphs with arity caps 2..5.
pub const B_GRP2: u8 = 218;
pub const B_GRP3: u8 = 192;
pub const B_GRP4: u8 = 191;
pub const B_GRP5: u8 = 217;
/// Code-page bytes for the four bite-group glyphs with arity caps 2..5.
pub const B_BITE2: u8 = 201;
pub const B_BITE3: u8 = 200;
pub const B_BITE4: u8 = 187;
pub const B_BITE5: u8 = 188;
/// Code-page bytes for the pseudo-variables bound on block entry:
/// valence count, left argument, right argument, self-reference.
pub const B_SIGMA: u8 = 228;
pub const B_ALPHA: u8 = 224;
pub const B_BETA: u8 = 225;
pub const B_SELF: u8 = 159;

/// One classified token.
#[derive(Clone, Debug)]
pub enum Tok {
    /// A bare glyph byte: digits, grouping punctuation, literal glyphs.
    Just(u8),
    /// A statement-separator-like glyph that may also act as a function.
    Stmt(u8),
    /// A value variable.
    VarVal(Vec<u8>),
    /// A function variable.
    VarFun(Vec<u8>),
    /// An assignment target.
    VarSet(Vec<u8>),
    /// A monadic-adverb variable.
    VarAv1(Vec<u8>),
    /// A dyadic-adverb variable.
    VarAv2(Vec<u8>),
    /// A character literal.
    Chr(u8),
    /// A two-character literal, a pair strand.
    Chr2(u8, u8),
    /// A two-byte numeric literal, base 253.
    Num2(u8, u8),
    /// A three-byte numeric literal, base 253.
    Num3(u8, u8, u8),
    /// A numeric literal of any length, base 253.
    Num(Vec<u8>),
    /// A human-readable numeric literal: ASCII digits, possibly one dot.
    HNum(Vec<u8>),
    /// A string literal: a strand of character codes.
    Str(Vec<u8>),
}

} // verus!

verus! {

/// Ghost mirror of [`Tok`].
pub enum TokV {
    Just(u8),
    Stmt(u8),
    VarVal(Seq<u8>),
    VarFun(Seq<u8>),
    VarSet(Seq<u8>),
    VarAv1(Seq<u8>),
    VarAv2(Seq<u8>),
    Chr(u8),
    Chr2(u8, u8),
    Num2(u8, u8),
    Num3(u8, u8, u8),
    Num(Seq<u8>),
    HNum(Seq<u8>),
    Str(Seq<u8>),
}

/// The structural view of a token.
pub open spec fn view_tok(t: Tok) -> TokV {
    match t {
        Tok::Just(c) => TokV::Just(c),
        Tok::Stmt(c) => TokV::Stmt(c),
        Tok::VarVal(n) => TokV::VarVal(n@),
        Tok::VarFun(n) => TokV::VarFun(n@),
        Tok::VarSet(n) => TokV::VarSet(n@),
        Tok::VarAv1(n) => TokV::VarAv1(n@),
        Tok::VarAv2(n) => TokV::VarAv2(n@),
        Tok::Chr(c) => TokV::Chr(c),
        Tok::Chr2(x, y) => TokV::Chr2(x, y),
        Tok::Num2(x, y) => TokV::Num2(x, y),
        Tok::Num3(x, y, z) => TokV::Num3(x, y, z),
        Tok::Num(n) => TokV::Num(n@),
        Tok::HNum(n) => TokV::HNum(n@),
        Tok::Str(n) => TokV::Str(n@),
    }
}

/// The structural views of a token sequence.
pub open spec fn view_tok_seq(s: Seq<Tok>) -> Seq<TokV>
    decreases s,
{
    if s.len() == 0 {
        Seq::empty()
    } else {
        view_tok_seq(s.subrange(0, s.len() - 1)).push(view_tok(s[s.len() - 1]))
    }
}

/// The view of a token sequence is elementwise.
pub proof fn lemma_view_tok_seq(s: Seq<Tok>)
    ensures
        view_tok_seq(s).len() == s.len(),
        forall|i: int|
            0 <= i < s.len() ==> #[trigger] view_tok_seq(s)[i] == view_tok(
                s[i],
            ),
    decreases s.len(),
{
    if s.len() > 0 {
        lemma_view_tok_seq(s.subrange(0, s.len() - 1));
    }
}

impl View for Tok {
    type V = TokV;

    open spec fn view(&self) -> TokV {
        view_tok(*self)
    }
}

} // verus!
