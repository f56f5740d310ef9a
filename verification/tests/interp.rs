//! End-to-end exercises of the interpreter core: saturating arithmetic,
//! fills, broadcasting, the fold adverbs, and exit propagation.
use vemf::val::{Val, AvT};
use vemf::env::Env;
use vemf::ast::{Ve, Fe};
use vemf::eval::{eval_ve, eval_block};
use vemf::intrn::DEFAULT_FUEL;

fn ints(xs: &[i64]) -> Val {
    Val::lis(xs.iter().map(|&x| Val::Int(x)).collect())
}

fn expect_int(v: &Val, want: i64) {
    match v {
        Val::Int(n) => assert_eq!(*n, want),
        other => panic!("expected integer, got {:?}", other),
    }
}

fn expect_ints(v: &Val, want: &[i64]) {
    match v {
        Val::Lis { l, .. } => {
            assert_eq!(l.len(), want.len());
            for (e, w) in l.iter().zip(want.iter()) {
                expect_int(e, *w);
            }
        },
        other => panic!("expected list, got {:?}", other),
    }
}

fn fresh_env() -> Env {
    Env::new(2, 7)
}

#[test]
fn saturating_add_clamps() {
    let mut env = fresh_env();
    let r = Val::Add.dyad(&mut env, Val::Int(i64::MAX), Val::Int(1));
    expect_int(&r, i64::MAX);
    let r2 = Val::Add.dyad(&mut env, Val::Int(i64::MIN), Val::Int(-1));
    expect_int(&r2, i64::MIN);
    let r3 = Val::Add.dyad(&mut env, Val::Int(2), Val::Int(3));
    expect_int(&r3, 5);
}

#[test]
fn saturating_mul_and_pow() {
    let mut env = fresh_env();
    let r = Val::Mul.dyad(&mut env, Val::Int(i64::MAX), Val::Int(2));
    expect_int(&r, i64::MAX);
    let r2 = Val::Pow.dyad(&mut env, Val::Int(2), Val::Int(10));
    expect_int(&r2, 1024);
}

#[test]
fn fill_beyond_length() {
    let mut env = fresh_env();
    let a = Val::lis_fill(vec![Val::Int(1), Val::Int(2)], Val::Int(7));
    let r = Val::Index.dyad(&mut env, a, Val::Int(10));
    expect_int(&r, 7);
}

#[test]
fn index_in_range() {
    let mut env = fresh_env();
    let a = ints(&[4, 5, 6]);
    let r = Val::Index.dyad(&mut env, a, Val::Int(1));
    expect_int(&r, 5);
}

#[test]
fn broadcast_scalar_over_list() {
    let mut env = fresh_env();
    let g = Val::Add.rc();
    let r = vemf::adverb::each(
        &mut env,
        Val::Int(4),
        Some(ints(&[1, 2, 3])),
        &g,
        DEFAULT_FUEL,
    );
    expect_ints(&r, &[5, 6, 7]);
}

#[test]
fn scan_last_equals_reduce() {
    let mut env = fresh_env();
    let g = Val::Add.rc();
    let s = vemf::adverb::scan(
        &mut env,
        ints(&[1, 2, 3, 4]),
        None,
        &g,
        DEFAULT_FUEL,
    );
    let r = vemf::adverb::reduce(
        &mut env,
        ints(&[1, 2, 3, 4]),
        None,
        &g,
        DEFAULT_FUEL,
    );
    expect_int(&r, 10);
    match &s {
        Val::Lis { l, .. } => {
            assert_eq!(l.len(), 4);
            expect_int(l.last().unwrap(), 10);
        },
        other => panic!("expected list, got {:?}", other),
    }
}

#[test]
fn reduce_of_strand_is_ten() {
    let mut env = fresh_env();
    let red = Val::Av(AvT::Reduce, None, Val::Add.rc());
    let r = red.monad(&mut env, ints(&[1, 2, 3, 4]));
    expect_int(&r, 10);
}

#[test]
fn power_zero_iterations() {
    let mut env = fresh_env();
    // The count function yields a negative number: zero applications.
    let f = Val::Int(-3).rc();
    let g = Val::Add.rc();
    let r = vemf::adverb::power(
        &mut env,
        Val::Int(42),
        None,
        &f,
        &g,
        DEFAULT_FUEL,
    );
    expect_int(&r, 42);
    // A non-numeric count behaves the same.
    let f2 = Val::Und.rc();
    let r2 = vemf::adverb::power(
        &mut env,
        Val::Int(42),
        None,
        &f2,
        &g,
        DEFAULT_FUEL,
    );
    expect_int(&r2, 42);
}

#[test]
fn stencil_window_count() {
    let mut env = fresh_env();
    let f = Val::Int(3).rc();
    let g = Val::Left.rc();
    let r = vemf::adverb::stencil(
        &mut env,
        ints(&[1, 2, 3, 4, 5, 6, 7]),
        None,
        &f,
        &g,
        DEFAULT_FUEL,
    );
    match &r {
        Val::Lis { l, .. } => {
            assert_eq!(l.len(), 5);
            expect_ints(&l[0], &[1, 2, 3]);
            expect_ints(&l[4], &[5, 6, 7]);
        },
        other => panic!("expected list, got {:?}", other),
    }
}

#[test]
fn until_reaches_fixpoint() {
    let mut env = fresh_env();
    // Iterate max(x, 5)... use Max bound to 5 through Bind.
    let g = Val::Bind { f: Val::Max.rc(), b: Val::Int(5).rc() }.rc();
    let f = Val::Eq.rc();
    let r = vemf::adverb::until(
        &mut env,
        Val::Int(0),
        None,
        &f,
        &g,
        DEFAULT_FUEL,
    );
    expect_int(&r, 5);
}

#[test]
fn dyadic_application_broadcasts() {
    // The strand (1 2 3) applied to + under conform, with 4.
    let mut env = fresh_env();
    env.set_local(
        vec![b'+'],
        Val::Av(AvT::Conform, None, Val::Add.rc()),
    );
    let e = Ve::Afn2 {
        a: Box::new(Ve::Snd(vec![Ve::Num(1), Ve::Num(2), Ve::Num(3)])),
        f: Fe::Var(vec![b'+']),
        b: Box::new(Ve::Num(4)),
    };
    let r = eval_ve(&e, &mut env, DEFAULT_FUEL);
    expect_ints(&r, &[5, 6, 7]);
}

#[test]
fn exit_propagates_and_skips() {
    let mut env = fresh_env();
    env.set_local(vec![b'e'], Val::Exit);
    env.set_local(vec![b'p'], Val::Print);
    let block = vec![
        Ve::Afn1 { a: Box::new(Ve::Num(2)), f: Fe::Var(vec![b'e']) },
        Ve::Afn1 { a: Box::new(Ve::Num(9)), f: Fe::Var(vec![b'p']) },
    ];
    let r = eval_block(&block, &mut env, DEFAULT_FUEL);
    match r {
        Val::Halt(n) => assert_eq!(n, 2),
        other => panic!("expected termination marker, got {:?}", other),
    }
    // The later print never ran: stream 0 is untouched.
    assert!(env.outs[0].is_empty());
}

#[test]
fn assignment_and_lookup() {
    let mut env = fresh_env();
    env.set_local(vec![b's'], Val::FSet(vec![b'x']));
    let block = vec![
        Ve::Afn1 { a: Box::new(Ve::Num(31)), f: Fe::Var(vec![b's']) },
        Ve::Var(vec![b'x']),
    ];
    let r = eval_block(&block, &mut env, DEFAULT_FUEL);
    expect_int(&r, 31);
}

#[test]
fn gcd_lcm_binom() {
    let mut env = fresh_env();
    expect_int(&Val::Gcd.dyad(&mut env, Val::Int(12), Val::Int(18)), 6);
    expect_int(&Val::Gcd.dyad(&mut env, Val::Int(-12), Val::Int(18)), 6);
    expect_int(&Val::Lcm.dyad(&mut env, Val::Int(4), Val::Int(6)), 12);
    expect_int(&Val::Binom.dyad(&mut env, Val::Int(5), Val::Int(2)), 10);
    match Val::Gcd.dyad(&mut env, Val::Int(i64::MIN), Val::Int(0)) {
        Val::Und => {},
        other => panic!("expected undefined, got {:?}", other),
    }
}

#[test]
fn deal_in_range_and_sample_distinct() {
    let mut env = fresh_env();
    let r = Val::Deal.dyad(&mut env, Val::Int(10), Val::Int(6));
    match &r {
        Val::Lis { l, .. } => {
            assert_eq!(l.len(), 6);
            for e in l.iter() {
                match e {
                    Val::Int(n) => assert!(0 <= *n && *n < 10),
                    other => panic!("expected integer, got {:?}", other),
                }
            }
        },
        other => panic!("expected list, got {:?}", other),
    }
    let s = Val::Sample.dyad(&mut env, Val::Int(5), Val::Int(5));
    match &s {
        Val::Lis { l, .. } => {
            assert_eq!(l.len(), 5);
            let mut seen = vec![false; 5];
            for e in l.iter() {
                match e {
                    Val::Int(n) => {
                        assert!(0 <= *n && *n < 5);
                        assert!(!seen[*n as usize]);
                        seen[*n as usize] = true;
                    },
                    other => panic!("expected integer, got {:?}", other),
                }
            }
        },
        other => panic!("expected list, got {:?}", other),
    }
}

#[test]
fn print_appends_display() {
    let mut env = fresh_env();
    let r = Val::Println.monad(&mut env, ints(&[1, 2, 3]));
    expect_ints(&r, &[1, 2, 3]);
    assert_eq!(env.outs[0], b"(1 2 3)\n".to_vec());
}

#[test]
fn match_compares_structurally() {
    let mut env = fresh_env();
    let r = Val::Match.dyad(&mut env, ints(&[1, 2]), ints(&[1, 2]));
    expect_int(&r, 1);
    let r2 = Val::Match.dyad(&mut env, ints(&[1, 2]), ints(&[1, 3]));
    expect_int(&r2, 0);
}

#[test]
fn structural_primitives() {
    let mut env = fresh_env();
    expect_ints(&Val::Reverse.monad(&mut env, ints(&[1, 2, 3])), &[3, 2, 1]);
    expect_ints(&Val::Iota.monad(&mut env, Val::Int(4)), &[0, 1, 2, 3]);
    expect_ints(
        &Val::Concat.dyad(&mut env, ints(&[1, 2]), ints(&[3, 4])),
        &[1, 2, 3, 4],
    );
    expect_ints(&Val::Takeleft.dyad(&mut env, ints(&[1, 2, 3]), Val::Int(2)), &[
        1,
        2,
    ]);
    expect_ints(
        &Val::Dropleft.dyad(&mut env, ints(&[1, 2, 3]), Val::Int(1)),
        &[2, 3],
    );
    expect_int(&Val::Len.monad(&mut env, ints(&[9, 9, 9])), 3);
    expect_int(&Val::Mod.dyad(&mut env, Val::Int(-7), Val::Int(3)), 2);
    expect_int(&Val::DivE.dyad(&mut env, Val::Int(-7), Val::Int(2)), -4);
}

#[test]
fn cyclic_list_indexing() {
    let mut env = fresh_env();
    let c = Val::Cycle.monad(&mut env, ints(&[10, 20, 30]));
    let r = c.monad(&mut env, Val::Int(7));
    expect_int(&r, 20);
}

#[test]
fn numfmt_renders_digits() {
    let mut env = fresh_env();
    let r = Val::Numfmt.monad(&mut env, Val::Int(-42));
    expect_ints(&r, &[b'-' as i64, b'4' as i64, b'2' as i64]);
}

#[test]
fn mismatched_lists_align_by_fill() {
    let mut env = fresh_env();
    let g = Val::Add.rc();
    let a = Val::lis_fill(vec![Val::Int(1), Val::Int(2)], Val::Int(100));
    let b = ints(&[10, 20, 30]);
    let r = vemf::adverb::each(&mut env, a, Some(b), &g, DEFAULT_FUEL);
    // The shorter left side reads its fill beyond its second element.
    expect_ints(&r, &[11, 22, 130]);
}

#[test]
fn binomial_beyond_n_is_zero() {
    let mut env = fresh_env();
    expect_int(&Val::Binom.dyad(&mut env, Val::Int(5), Val::Int(9)), 0);
    expect_int(&Val::Binom.dyad(&mut env, Val::Int(66), Val::Int(33)),
        7219428434016265740);
}

#[test]
fn stencil_zero_size_gives_empty_windows() {
    // A list of length n with window size 0 yields n + 1 applications,
    // each over the empty window.
    let mut env = fresh_env();
    let f = Val::Int(0).rc();
    let g = Val::Left.rc();
    let r = vemf::adverb::stencil(
        &mut env,
        ints(&[7]),
        None,
        &f,
        &g,
        DEFAULT_FUEL,
    );
    match &r {
        Val::Lis { l, .. } => {
            assert_eq!(l.len(), 2);
            expect_ints(&l[0], &[]);
            expect_ints(&l[1], &[]);
        },
        other => panic!("expected list, got {:?}", other),
    }
    // Negative sizes still yield no windows.
    let fneg = Val::Int(-1).rc();
    let r2 = vemf::adverb::stencil(
        &mut env,
        ints(&[1, 2, 3]),
        None,
        &fneg,
        &g,
        DEFAULT_FUEL,
    );
    expect_ints(&r2, &[]);
}

#[test]
fn deal_nonpositive_bound_gives_undefined_list() {
    let mut env = fresh_env();
    let r = Val::Deal.dyad(&mut env, Val::Int(0), Val::Int(3));
    match &r {
        Val::Lis { l, .. } => {
            assert_eq!(l.len(), 3);
            for e in l.iter() {
                assert!(matches!(e, Val::Und));
            }
        },
        other => panic!("expected list, got {:?}", other),
    }
}

#[test]
fn binomial_edges_beyond_table() {
    let mut env = fresh_env();
    expect_int(&Val::Binom.dyad(&mut env, Val::Int(100), Val::Int(0)), 1);
    expect_int(&Val::Binom.dyad(&mut env, Val::Int(100), Val::Int(1)), 100);
    expect_int(&Val::Binom.dyad(&mut env, Val::Int(100), Val::Int(99)), 100);
    expect_int(&Val::Binom.dyad(&mut env, Val::Int(100), Val::Int(100)), 1);
    expect_int(&Val::Binom.dyad(&mut env, Val::Int(100), Val::Int(200)), 0);
}

#[test]
fn sort_and_grade() {
    let mut env = fresh_env();
    expect_ints(
        &Val::SortUp.monad(&mut env, ints(&[3, 1, 2, 1])),
        &[1, 1, 2, 3],
    );
    expect_ints(
        &Val::SortDown.monad(&mut env, ints(&[3, 1, 2, 1])),
        &[3, 2, 1, 1],
    );
    // The ascending grade is stable: equal keys keep their order.
    expect_ints(
        &Val::GradeUp.monad(&mut env, ints(&[3, 1, 2, 1])),
        &[1, 3, 2, 0],
    );
    expect_ints(
        &Val::GradeDown.monad(&mut env, ints(&[3, 1, 2, 1])),
        &[0, 2, 1, 3],
    );
    // A list with a non-integer element cannot be ordered exactly.
    let mixed = Val::lis(vec![Val::Int(1), Val::Und]);
    assert!(matches!(Val::SortUp.monad(&mut env, mixed), Val::Und));
}
