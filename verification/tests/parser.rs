//! The tacit-syntax parser: strands, binds, trains, forks, adverb
//! applications, statement boundaries, and the parsed programs evaluated
//! end to end.
use vemf::token::Tok;
use vemf::ast::{Ve, Fe, Tg};
use vemf::parse::{parse, parse_report, expression, NO_LIMIT};
use vemf::eval::eval_block;
use vemf::env::Env;
use vemf::val::{Val, AvT};
use vemf::intrn::DEFAULT_FUEL;

fn var_fun(name: &[u8]) -> Tok {
    Tok::VarFun(name.to_vec())
}

fn expect_int(v: &Val, want: i64) {
    match v {
        Val::Int(n) => assert_eq!(*n, want),
        other => panic!("expected integer, got {:?}", other),
    }
}

fn expect_ints(v: &Val, want: &[i64]) {
    match v {
        Val::Lis { l, .. } => {
            assert_eq!(l.len(), want.len());
            for (e, w) in l.iter().zip(want.iter()) {
                expect_int(e, *w);
            }
        },
        other => panic!("expected list, got {:?}", other),
    }
}

#[test]
fn strand_parses_to_list_literal() {
    let toks = vec![Tok::Just(b'1'), Tok::Just(b'2'), Tok::Just(b'3')];
    let prog = parse(&toks);
    assert_eq!(prog.len(), 1);
    match &prog[0] {
        Ve::Snd(l) => {
            assert_eq!(l.len(), 3);
            assert!(matches!(l[0], Ve::Num(1)));
            assert!(matches!(l[2], Ve::Num(3)));
        },
        other => panic!("expected strand, got {:?}", other),
    }
}

#[test]
fn bind_parses() {
    // A function followed by a trailing strand becomes a bind.
    let toks = vec![var_fun(b"f"), Tok::Just(b'1')];
    let prog = parse(&toks);
    assert_eq!(prog.len(), 1);
    match &prog[0] {
        Ve::Nom(Fe::Bind { f, b }) => {
            assert!(matches!(&**f, Fe::Var(n) if n == b"f"));
            assert!(matches!(&**b, Ve::Num(1)));
        },
        other => panic!("expected bind, got {:?}", other),
    }
}

#[test]
fn two_train_parses() {
    let toks = vec![var_fun(b"f"), var_fun(b"g")];
    let prog = parse(&toks);
    assert_eq!(prog.len(), 1);
    match &prog[0] {
        Ve::Nom(Fe::Trn1 { a, f }) => {
            assert!(matches!(&**a, Fe::Var(n) if n == b"f"));
            assert!(matches!(&**f, Fe::Var(n) if n == b"g"));
        },
        other => panic!("expected 2-train, got {:?}", other),
    }
}

#[test]
fn fork_parses() {
    let toks = vec![var_fun(b"f"), var_fun(b"g"), Tok::Just(b'1')];
    let prog = parse(&toks);
    assert_eq!(prog.len(), 1);
    match &prog[0] {
        Ve::Nom(Fe::Trn2 { a, f, b }) => {
            assert!(matches!(&**a, Fe::Var(n) if n == b"f"));
            assert!(matches!(&**f, Fe::Var(n) if n == b"g"));
            assert!(matches!(&**b, Ve::Num(1)));
        },
        other => panic!("expected fork, got {:?}", other),
    }
}

#[test]
fn dyadic_adverb_application_parses() {
    // A value thing, a dyadic-adverb variable, and a function thing.
    let toks = vec![
        Tok::Just(b'3'),
        Tok::VarAv2(b"st".to_vec()),
        var_fun(b"g"),
    ];
    let prog = parse(&toks);
    assert_eq!(prog.len(), 1);
    match &prog[0] {
        Ve::Nom(Fe::Aav2 { f, v, g }) => {
            assert_eq!(v, b"st");
            assert!(matches!(&**f, Tg::Ve(Ve::Num(3))));
            assert!(matches!(&**g, Tg::Fe(Fe::Var(n)) if n == b"g"));
        },
        other => panic!("expected adverb application, got {:?}", other),
    }
}

#[test]
fn monadic_adverb_application_parses() {
    let toks = vec![Tok::VarAv1(b"/".to_vec()), var_fun(b"+")];
    let prog = parse(&toks);
    assert_eq!(prog.len(), 1);
    match &prog[0] {
        Ve::Nom(Fe::Aav1 { v, g }) => {
            assert_eq!(v, b"/");
            assert!(matches!(&**g, Tg::Fe(Fe::Var(n)) if n == b"+"));
        },
        other => panic!("expected adverb application, got {:?}", other),
    }
}

#[test]
fn block_literal_parses() {
    let toks = vec![Tok::Just(b'{'), Tok::Just(b'7'), Tok::Just(b'}')];
    let prog = parse(&toks);
    assert_eq!(prog.len(), 1);
    match &prog[0] {
        Ve::Nom(Fe::Dfn(body)) => {
            assert_eq!(body.len(), 1);
            assert!(matches!(body[0], Ve::Num(7)));
        },
        other => panic!("expected block literal, got {:?}", other),
    }
}

#[test]
fn separator_splits_statements() {
    let toks = vec![
        Tok::Just(b'1'),
        Tok::Just(vemf::token::B_SEP),
        Tok::Just(b'2'),
    ];
    let prog = parse(&toks);
    assert_eq!(prog.len(), 2);
    assert!(matches!(prog[0], Ve::Num(1)));
    assert!(matches!(prog[1], Ve::Num(2)));
}

#[test]
fn capped_group_takes_two_things() {
    let toks = vec![
        Tok::Just(vemf::token::B_GRP2),
        Tok::Just(b'1'),
        Tok::Just(b'2'),
        Tok::Just(b'3'),
    ];
    let prog = parse(&toks);
    assert_eq!(prog.len(), 1);
    match &prog[0] {
        Ve::Snd(outer) => {
            assert_eq!(outer.len(), 2);
            match &outer[0] {
                Ve::Snd(inner) => {
                    assert_eq!(inner.len(), 2);
                    assert!(matches!(inner[0], Ve::Num(1)));
                    assert!(matches!(inner[1], Ve::Num(2)));
                },
                other => panic!("expected inner strand, got {:?}", other),
            }
            assert!(matches!(outer[1], Ve::Num(3)));
        },
        other => panic!("expected strand, got {:?}", other),
    }
}

#[test]
fn trailing_tokens_are_reported() {
    let toks = vec![Tok::Just(b'1'), Tok::Just(b'}')];
    let (end, prog) = parse_report(&toks);
    assert_eq!(prog.len(), 1);
    assert_eq!(end, 1);
}

#[test]
fn expression_consumes_and_stops() {
    let toks = vec![Tok::Just(b'1'), Tok::Just(b'2')];
    let (n, oe) = expression(&toks, NO_LIMIT);
    assert_eq!(n, 2);
    assert!(matches!(oe, Some(Ve::Snd(_))));
}

#[test]
fn parse_then_eval_dyadic_plus() {
    // 1 2 3 + 4: a dyadic application of + to the strand and the scalar.
    let toks = vec![
        Tok::Just(b'1'),
        Tok::Just(b'2'),
        Tok::Just(b'3'),
        var_fun(b"+"),
        Tok::Just(b'4'),
    ];
    let prog = parse(&toks);
    assert_eq!(prog.len(), 1);
    match &prog[0] {
        Ve::Afn2 { a, f, b } => {
            assert!(matches!(&**a, Ve::Snd(l) if l.len() == 3));
            assert!(matches!(f, Fe::Var(n) if n == b"+"));
            assert!(matches!(&**b, Ve::Num(4)));
        },
        other => panic!("expected dyadic application, got {:?}", other),
    }
    let mut env = Env::new(1, 0);
    env.set_local(
        b"+".to_vec(),
        Val::Av(AvT::Conform, None, Val::Add.rc()),
    );
    let r = eval_block(&prog, &mut env, DEFAULT_FUEL);
    expect_ints(&r, &[5, 6, 7]);
}

#[test]
fn parse_then_eval_reduce_plus() {
    // The strand 1 2 3 4 under the reduce adverb applied to +.
    let toks = vec![
        Tok::Just(b'1'),
        Tok::Just(b'2'),
        Tok::Just(b'3'),
        Tok::Just(b'4'),
        Tok::VarAv1(b"/".to_vec()),
        var_fun(b"+"),
    ];
    let prog = parse(&toks);
    assert_eq!(prog.len(), 1);
    let mut env = Env::new(1, 0);
    env.set_local(b"/".to_vec(), Val::AvBuilder(AvT::Reduce));
    env.set_local(b"+".to_vec(), Val::Add);
    let r = eval_block(&prog, &mut env, DEFAULT_FUEL);
    expect_int(&r, 10);
}

#[test]
fn reparse_is_stable() {
    // Parsing the same stream twice gives structurally equal programs.
    let toks = vec![
        Tok::Just(b'1'),
        Tok::Just(b'2'),
        var_fun(b"f"),
        Tok::Just(b'3'),
    ];
    let p1 = parse(&toks);
    let p2 = parse(&toks);
    assert_eq!(format!("{:?}", p1), format!("{:?}", p2));
}

// --- Round trips: each construct re-displayed as tokens reparses to a
// --- structurally equal tree.

/// Render a value expression back into a token form that reparses.
fn unparse_ve(e: &Ve, out: &mut Vec<Tok>) {
    match e {
        Ve::Var(n) => out.push(Tok::VarVal(n.clone())),
        Ve::Num(n) => {
            if 0 <= *n && *n <= 9 {
                out.push(Tok::Just(b'0' + *n as u8));
            } else if *n == 10 {
                out.push(Tok::Just(vemf::token::B_TEN));
            } else if *n == -1 {
                out.push(Tok::Just(vemf::token::B_MINUS_ONE));
            } else if *n >= 0 {
                out.push(Tok::HNum(n.to_string().into_bytes()));
            } else if *n >= -10 {
                out.push(Tok::Chr((-*n) as u8));
            } else {
                panic!("literal out of the directly renderable range");
            }
        },
        Ve::Und => out.push(Tok::Just(vemf::token::B_BLOCK)),
        Ve::Snd(l) => {
            out.push(Tok::Just(b'('));
            for x in l {
                unparse_ve(x, out);
            }
            out.push(Tok::Just(b')'));
        },
        Ve::Nom(f) => {
            // A parenthesized function expression reparses to the same
            // nominalized tree, whole, wherever it stands.
            out.push(Tok::Just(b'('));
            unparse_fe(f, out);
            out.push(Tok::Just(b')'));
        },
        Ve::Afn1 { a, f } => {
            unparse_ve(a, out);
            unparse_fe(f, out);
        },
        Ve::Afn2 { a, f, b } => {
            unparse_ve(a, out);
            unparse_fe(f, out);
            unparse_ve(b, out);
        },
    }
}

/// Render a function expression back into a token form that reparses.
fn unparse_fe(e: &Fe, out: &mut Vec<Tok>) {
    match e {
        Fe::Var(n) => out.push(Tok::VarFun(n.clone())),
        Fe::SetVar(n) => out.push(Tok::VarSet(n.clone())),
        Fe::Aav1 { v, g } => {
            out.push(Tok::VarAv1(v.clone()));
            unparse_tg(g, out);
        },
        Fe::Aav2 { f, v, g } => {
            unparse_tg(f, out);
            out.push(Tok::VarAv2(v.clone()));
            unparse_tg(g, out);
        },
        Fe::Bind { f, b } => {
            unparse_fe(f, out);
            unparse_ve(b, out);
        },
        Fe::Trn1 { a, f } => {
            unparse_fe(a, out);
            unparse_fe(f, out);
        },
        Fe::Trn2 { a, f, b } => {
            unparse_fe(a, out);
            unparse_fe(f, out);
            unparse_ve(b, out);
        },
        Fe::Dfn(body) => {
            out.push(Tok::Just(b'{'));
            for (i, x) in body.iter().enumerate() {
                if i > 0 {
                    out.push(Tok::Just(vemf::token::B_SEP));
                }
                unparse_ve(x, out);
            }
            out.push(Tok::Just(b'}'));
        },
    }
}

fn unparse_tg(t: &Tg, out: &mut Vec<Tok>) {
    match t {
        Tg::Fe(f) => unparse_fe(f, out),
        Tg::Ve(v) => unparse_ve(v, out),
    }
}

/// Parse, re-display, reparse: the trees must agree structurally.
fn round_trip(toks: Vec<Tok>) {
    let first = parse(&toks);
    let mut redisplayed: Vec<Tok> = Vec::new();
    for (i, e) in first.iter().enumerate() {
        if i > 0 {
            redisplayed.push(Tok::Just(vemf::token::B_SEP));
        }
        unparse_ve(e, &mut redisplayed);
    }
    let second = parse(&redisplayed);
    assert_eq!(format!("{:?}", first), format!("{:?}", second));
}

#[test]
fn round_trip_strand() {
    round_trip(vec![Tok::Just(b'1'), Tok::Just(b'2'), Tok::Just(b'3')]);
}

#[test]
fn round_trip_bind() {
    round_trip(vec![var_fun(b"f"), Tok::Just(b'1')]);
}

#[test]
fn round_trip_two_train() {
    round_trip(vec![var_fun(b"f"), var_fun(b"g")]);
}

#[test]
fn round_trip_fork() {
    round_trip(vec![var_fun(b"f"), var_fun(b"g"), Tok::Just(b'2')]);
}

#[test]
fn round_trip_adverb_application() {
    round_trip(vec![
        Tok::Just(b'3'),
        Tok::VarAv2(b"st".to_vec()),
        var_fun(b"g"),
    ]);
    round_trip(vec![Tok::VarAv1(b"/".to_vec()), var_fun(b"+")]);
}

#[test]
fn round_trip_application_chain() {
    round_trip(vec![
        Tok::Just(b'1'),
        Tok::Just(b'2'),
        var_fun(b"+"),
        Tok::Just(b'4'),
        var_fun(b"g"),
    ]);
}

#[test]
fn round_trip_block_literal() {
    round_trip(vec![
        Tok::Just(b'{'),
        Tok::Just(b'7'),
        Tok::Just(vemf::token::B_SEP),
        Tok::Just(b'8'),
        Tok::Just(b'}'),
    ]);
}
