//! The evaluator's dispatcher: calling a value on one or two arguments.
//! Every function here returns exactly what the specification evaluator
//! in [`crate::model`] says.
use vstd::prelude::*;
use std::rc::Rc;
use crate::val::{Val, ValV, view_val, view_val_seq, lemma_view_val_seq, vopt,
    dup_opt, rc_dup, clone_bytes, AvT, Binding};
use crate::env::{Env, EnvV, view_bytes_seq, lemma_view_bytes_seq,
    lemma_view_frame_seq};
use crate::val::view_bind_seq;
use crate::model::{insert_sorted, sort_ints, ints_of, int_vals,
    insert_grade_up, grade_up_ints, insert_grade_down, grade_down_ints,
    elems, byte_of, scalar_bytes, dec_digits, int_dec,
    spec_display, display_list, deep_data, deep_data_seq, spec_prim,
    spec_prim_env, is_env_prim, spec_call, spec_av, spec_index1,
    spec_index_depth, spec_index_list, spec_block, sat64, sat_pow, vbool,
    vlis, wadd, deal_seq, index_vals, byte_vals, env_set_local, env_get,
    env_out_write, in_split, choose_newline, parse_dec, parse_acc,
    ravel_val, ravel_seq, repeat_seq, power_count, ediv_int};
use crate::outside::{gcd_i64, binom_i64, rand_below, sample_idx, abs_int,
    gcd_nat, lemma_gcd_pos, rand_of, sample_of};

verus! {

/// The elements a finite value stands for, materialized.
pub fn elems_of(a: &Val) -> (r: Vec<Val>)
    ensures
        view_val_seq(r@) == elems(a@),
{
    let mut out: Vec<Val> = Vec::new();
    match a {
        Val::Lis { l, .. } => {
            proof {
                lemma_view_val_seq(l@);
            }
            let mut i: usize = 0;
            while i < l.len()
                invariant
                    i <= l@.len(),
                    out@.len() == i,
                    forall|j: int|
                        0 <= j < i ==> #[trigger] view_val(out@[j])
                            == view_val(l@[j]),
                decreases l@.len() - i,
            {
                out.push(l[i].dup());
                i += 1;
            }
            proof {
                lemma_view_val_seq(out@);
                assert(view_val_seq(out@) =~= view_val_seq(l@));
            }
        },
        Val::Int(_) => {
            out.push(a.dup());
            proof {
                lemma_view_val_seq(out@);
                assert(view_val_seq(out@) =~= elems(a@));
            }
        },
        Val::Und => {
            out.push(Val::Und);
            proof {
                lemma_view_val_seq(out@);
                assert(view_val_seq(out@) =~= elems(a@));
            }
        },
        _ => {
            proof {
                lemma_view_val_seq(out@);
                assert(view_val_seq(out@) =~= elems(a@));
            }
        },
    }
    out
}

/// The low byte of an integer.
pub fn byte_trunc(x: i64) -> (r: u8)
    ensures
        r == byte_of(x as int),
{
    if x >= 0 {
        let w = (x as u64) & 0xff;
        proof {
            assert((x as u64) & 0xff == (x as u64) % 256) by (bit_vector);
        }
        w as u8
    } else {
        let neg = ((-1 - x) as u64) & 0xff;
        proof {
            assert(((-1 - x) as u64) & 0xff == ((-1 - x) as u64) % 256)
                by (bit_vector);
            assert((x as int) % 256 == 255 - ((-1 - (x as int)) % 256))
                by (nonlinear_arith);
        }
        (255 - neg) as u8
    }
}

/// Collect the integer elements of a list of values as truncated bytes.
pub fn scalar_bytes_of(l: &Vec<Val>) -> (r: Vec<u8>)
    ensures
        r@ == scalar_bytes(view_val_seq(l@)),
{
    proof {
        lemma_view_val_seq(l@);
    }
    let ghost lv = view_val_seq(l@);
    let mut out: Vec<u8> = Vec::new();
    let mut i: usize = 0;
    while i < l.len()
        invariant
            i <= l@.len(),
            lv == view_val_seq(l@),
            lv.len() == l@.len(),
            forall|j: int|
                0 <= j < l@.len() ==> #[trigger] lv[j] == view_val(l@[j]),
            out@ == scalar_bytes(lv.subrange(0, i as int)),
        decreases l@.len() - i,
    {
        proof {
            assert(lv.subrange(0, i + 1).drop_last() =~= lv.subrange(
                0,
                i as int,
            ));
            assert(lv.subrange(0, i + 1).last() == lv[i as int]);
        }
        match &l[i] {
            Val::Int(x) => {
                out.push(byte_trunc(*x));
            },
            _ => {},
        }
        i += 1;
    }
    proof {
        assert(lv.subrange(0, lv.len() as int) =~= lv);
    }
    out
}

/// Decimal digits of a non-negative number, most significant first.
pub fn dec_digits_of(n: u64) -> (r: Vec<u8>)
    ensures
        r@ == dec_digits(n as nat),
    decreases n,
{
    if n < 10 {
        let mut out: Vec<u8> = Vec::new();
        out.push(48 + n as u8);
        proof {
            assert(out@ =~= dec_digits(n as nat));
        }
        out
    } else {
        let mut out = dec_digits_of(n / 10);
        out.push(48 + (n % 10) as u8);
        out
    }
}

/// Decimal rendering of an integer.
pub fn int_dec_of(n: i64) -> (r: Vec<u8>)
    ensures
        r@ == int_dec(n as int),
{
    if n >= 0 {
        dec_digits_of(n as u64)
    } else {
        let mag: u64 = if n == i64::MIN {
            9223372036854775808u64
        } else {
            (-n) as u64
        };
        let mut out: Vec<u8> = Vec::new();
        out.push(45u8);
        let mut digits = dec_digits_of(mag);
        out.append(&mut digits);
        proof {
            assert(out@ =~= int_dec(n as int));
        }
        out
    }
}

/// The canonical ASCII display of a value.
pub fn display_of(v: &Val) -> (r: Vec<u8>)
    ensures
        r@ == spec_display(v@),
    decreases v,
{
    match v {
        Val::Int(n) => int_dec_of(*n),
        Val::Und => {
            let mut out: Vec<u8> = Vec::new();
            out.push(110u8);
            out.push(97u8);
            out.push(110u8);
            proof {
                assert(out@ =~= spec_display(v@));
            }
            out
        },
        Val::Lis { l, .. } => {
            proof {
                lemma_view_val_seq(l@);
            }
            let ghost lv = view_val_seq(l@);
            let mut out: Vec<u8> = Vec::new();
            out.push(40u8);
            let mut i: usize = 0;
            while i < l.len()
                invariant
                    i <= l@.len(),
                    *v matches Val::Lis { l: vl, .. } && vl == *l,
                    lv == view_val_seq(l@),
                    lv.len() == l@.len(),
                    forall|j: int|
                        0 <= j < l@.len() ==> #[trigger] lv[j] == view_val(
                            l@[j],
                        ),
                    out@ == seq![40u8] + display_list(
                        lv.subrange(0, i as int),
                    ),
                decreases l@.len() - i,
            {
                if i > 0 {
                    out.push(32u8);
                }
                proof {
                    assert(decreases_to!(*v => **l));
                    assert(decreases_to!(**l => l@));
                    assert(decreases_to!(l@ => l@[i as int]));
                }
                let mut d = display_of(&l[i]);
                out.append(&mut d);
                proof {
                    assert(lv.subrange(0, i + 1).subrange(0, i as int)
                        =~= lv.subrange(0, i as int));
                    assert(lv.subrange(0, i + 1)[i as int] == lv[i as int]);
                    assert(out@ =~= seq![40u8] + display_list(
                        lv.subrange(0, i + 1),
                    ));
                }
                i += 1;
            }
            out.push(41u8);
            proof {
                assert(lv.subrange(0, lv.len() as int) =~= lv);
                assert(out@ =~= spec_display(v@));
            }
            out
        },
        Val::Halt(_) => {
            let mut out: Vec<u8> = Vec::new();
            out.push(60u8);
            out.push(101u8);
            out.push(120u8);
            out.push(105u8);
            out.push(116u8);
            out.push(62u8);
            proof {
                assert(out@ =~= spec_display(v@));
            }
            out
        },
        Val::DCycle(_) => {
            let mut out: Vec<u8> = Vec::new();
            out.push(60u8);
            out.push(99u8);
            out.push(121u8);
            out.push(99u8);
            out.push(108u8);
            out.push(101u8);
            out.push(62u8);
            proof {
                assert(out@ =~= spec_display(v@));
            }
            out
        },
        _ => {
            let mut out: Vec<u8> = Vec::new();
            out.push(60u8);
            out.push(102u8);
            out.push(117u8);
            out.push(110u8);
            out.push(99u8);
            out.push(116u8);
            out.push(105u8);
            out.push(111u8);
            out.push(110u8);
            out.push(62u8);
            proof {
                assert(out@ =~= spec_display(v@));
            }
            out
        },
    }
}

/// Every element of a data sequence is data.
proof fn lemma_deep_data_seq(l: Seq<ValV>)
    ensures
        deep_data_seq(l) <==> forall|i: int|
            0 <= i < l.len() ==> #[trigger] deep_data(l[i]),
    decreases l.len(),
{
    if l.len() > 0 {
        lemma_deep_data_seq(l.drop_last());
        assert(forall|i: int|
            0 <= i < l.len() - 1 ==> l.drop_last()[i] == l[i]);
        if forall|i: int| 0 <= i < l.len() ==> #[trigger] deep_data(l[i]) {
            assert(deep_data(l.last()));
        }
    }
}

/// Whether this value is pure data, comparable structurally.
pub fn deep_data_of(v: &Val) -> (r: bool)
    ensures
        r == deep_data(v@),
    decreases v,
{
    match v {
        Val::Int(_) => true,
        Val::Und => true,
        Val::Lis { l, fill } => {
            let ghost lv = view_val_seq(l@);
            proof {
                lemma_view_val_seq(l@);
                lemma_deep_data_seq(lv);
            }
            let mut i: usize = 0;
            let mut ok = true;
            while i < l.len()
                invariant
                    i <= l@.len(),
                    *v matches Val::Lis { l: vl, .. } && vl == *l,
                    lv == view_val_seq(l@),
                    lv.len() == l@.len(),
                    forall|j: int|
                        0 <= j < l@.len() ==> #[trigger] lv[j] == view_val(
                            l@[j],
                        ),
                    ok == forall|j: int|
                        0 <= j < i ==> #[trigger] deep_data(lv[j]),
                decreases l@.len() - i,
            {
                proof {
                    assert(decreases_to!(*v => **l));
                    assert(decreases_to!(**l => l@));
                    assert(decreases_to!(l@ => l@[i as int]));
                }
                let d = deep_data_of(&l[i]);
                proof {
                    assert(lv[i as int] == view_val(l@[i as int]));
                }
                ok = ok && d;
                i += 1;
            }
            let fd = deep_data_of(&**fill);
            proof {
                lemma_deep_data_seq(lv);
            }
            ok && fd
        },
        Val::DCycle(l) => {
            let ghost lv = view_val_seq(l@);
            proof {
                lemma_view_val_seq(l@);
                lemma_deep_data_seq(lv);
            }
            let mut i: usize = 0;
            let mut ok = true;
            while i < l.len()
                invariant
                    i <= l@.len(),
                    *v matches Val::DCycle(vl) && vl == *l,
                    lv == view_val_seq(l@),
                    lv.len() == l@.len(),
                    forall|j: int|
                        0 <= j < l@.len() ==> #[trigger] lv[j] == view_val(
                            l@[j],
                        ),
                    ok == forall|j: int|
                        0 <= j < i ==> #[trigger] deep_data(lv[j]),
                decreases l@.len() - i,
            {
                proof {
                    assert(decreases_to!(*v => **l));
                    assert(decreases_to!(**l => l@));
                    assert(decreases_to!(l@ => l@[i as int]));
                }
                let d = deep_data_of(&l[i]);
                proof {
                    assert(lv[i as int] == view_val(l@[i as int]));
                }
                ok = ok && d;
                i += 1;
            }
            proof {
                lemma_deep_data_seq(lv);
            }
            ok
        },
        _ => false,
    }
}

/// Structural equality of two data values.
pub fn data_eq(a: &Val, b: &Val) -> (r: bool)
    requires
        deep_data(a@),
        deep_data(b@),
    ensures
        r == (a@ == b@),
    decreases a,
{
    match (a, b) {
        (Val::Int(x), Val::Int(y)) => *x == *y,
        (Val::Und, Val::Und) => true,
        (Val::Lis { l: l1, fill: f1 }, Val::Lis { l: l2, fill: f2 }) => {
            let ghost av = view_val_seq(l1@);
            let ghost bv = view_val_seq(l2@);
            proof {
                lemma_view_val_seq(l1@);
                lemma_view_val_seq(l2@);
                lemma_deep_data_seq(av);
                lemma_deep_data_seq(bv);
                assert(a@ == (ValV::Lis {
                    l: av,
                    fill: Box::new(view_val(**f1)),
                }));
                assert(b@ == (ValV::Lis {
                    l: bv,
                    fill: Box::new(view_val(**f2)),
                }));
            }
            if l1.len() != l2.len() {
                return false;
            }
            let mut i: usize = 0;
            while i < l1.len()
                invariant
                    i <= l1@.len(),
                    l1@.len() == l2@.len(),
                    *a matches Val::Lis { l: al, fill: af } && al == *l1
                        && af == *f1,
                    *b matches Val::Lis { l: bl, fill: bf } && bl == *l2
                        && bf == *f2,
                    a@ == (ValV::Lis {
                        l: av,
                        fill: Box::new(view_val(**f1)),
                    }),
                    b@ == (ValV::Lis {
                        l: bv,
                        fill: Box::new(view_val(**f2)),
                    }),
                    av == view_val_seq(l1@),
                    bv == view_val_seq(l2@),
                    av.len() == l1@.len(),
                    bv.len() == l2@.len(),
                    forall|j: int|
                        0 <= j < l1@.len() ==> #[trigger] av[j] == view_val(
                            l1@[j],
                        ),
                    forall|j: int|
                        0 <= j < l2@.len() ==> #[trigger] bv[j] == view_val(
                            l2@[j],
                        ),
                    forall|j: int|
                        0 <= j < av.len() ==> deep_data(#[trigger] av[j]),
                    forall|j: int|
                        0 <= j < bv.len() ==> deep_data(#[trigger] bv[j]),
                    forall|j: int| 0 <= j < i ==> #[trigger] av[j] == bv[j],
                decreases l1@.len() - i,
            {
                proof {
                    assert(decreases_to!(*a => **l1));
                    assert(decreases_to!(**l1 => l1@));
                    assert(decreases_to!(l1@ => l1@[i as int]));
                    assert(av[i as int] == view_val(l1@[i as int]));
                    assert(bv[i as int] == view_val(l2@[i as int]));
                    assert(deep_data(av[i as int]));
                    assert(deep_data(bv[i as int]));
                }
                if !data_eq(&l1[i], &l2[i]) {
                    proof {
                        assert(av[i as int] != bv[i as int]);
                        assert(a@ != b@);
                    }
                    return false;
                }
                i += 1;
            }
            proof {
                assert(decreases_to!(*a => **f1));
            }
            let fe = data_eq(&**f1, &**f2);
            proof {
                assert(av =~= bv);
                if fe {
                    assert(a@ == b@);
                } else {
                    assert(a@ != b@);
                }
            }
            fe
        },
        (Val::DCycle(l1), Val::DCycle(l2)) => {
            let ghost av = view_val_seq(l1@);
            let ghost bv = view_val_seq(l2@);
            proof {
                lemma_view_val_seq(l1@);
                lemma_view_val_seq(l2@);
                lemma_deep_data_seq(av);
                lemma_deep_data_seq(bv);
                assert(a@ == ValV::DCycle(av));
                assert(b@ == ValV::DCycle(bv));
            }
            if l1.len() != l2.len() {
                return false;
            }
            let mut i: usize = 0;
            while i < l1.len()
                invariant
                    i <= l1@.len(),
                    l1@.len() == l2@.len(),
                    *a matches Val::DCycle(al) && al == *l1,
                    *b matches Val::DCycle(bl) && bl == *l2,
                    a@ == ValV::DCycle(av),
                    b@ == ValV::DCycle(bv),
                    av == view_val_seq(l1@),
                    bv == view_val_seq(l2@),
                    av.len() == l1@.len(),
                    bv.len() == l2@.len(),
                    forall|j: int|
                        0 <= j < l1@.len() ==> #[trigger] av[j] == view_val(
                            l1@[j],
                        ),
                    forall|j: int|
                        0 <= j < l2@.len() ==> #[trigger] bv[j] == view_val(
                            l2@[j],
                        ),
                    forall|j: int|
                        0 <= j < av.len() ==> deep_data(#[trigger] av[j]),
                    forall|j: int|
                        0 <= j < bv.len() ==> deep_data(#[trigger] bv[j]),
                    forall|j: int| 0 <= j < i ==> #[trigger] av[j] == bv[j],
                decreases l1@.len() - i,
            {
                proof {
                    assert(decreases_to!(*a => **l1));
                    assert(decreases_to!(**l1 => l1@));
                    assert(decreases_to!(l1@ => l1@[i as int]));
                    assert(av[i as int] == view_val(l1@[i as int]));
                    assert(bv[i as int] == view_val(l2@[i as int]));
                    assert(deep_data(av[i as int]));
                    assert(deep_data(bv[i as int]));
                }
                if !data_eq(&l1[i], &l2[i]) {
                    proof {
                        assert(av[i as int] != bv[i as int]);
                        assert(a@ != b@);
                    }
                    return false;
                }
                i += 1;
            }
            proof {
                assert(av =~= bv);
            }
            true
        },
        _ => {
            proof {
                assert(a@ != b@);
            }
            false
        },
    }
}

} // verus!

verus! {

/// Default fuel for the fuel-less entry points: deep enough for any
/// program a host will realistically run.
pub const DEFAULT_FUEL: u64 = 0xffff_ffff;

/// The views of an optional captured function.
pub open spec fn vfopt(f: Option<&Rc<Val>>) -> Option<ValV> {
    match f {
        Option::Some(x) => Option::Some(view_val(**x)),
        Option::None => Option::None,
    }
}

/// Clamp a wide product or sum to the 64-bit range.
pub fn sat_i128(w: i128) -> (r: i64)
    ensures
        r as int == sat64(w as int),
{
    if w > i64::MAX as i128 {
        i64::MAX
    } else if w < i64::MIN as i128 {
        i64::MIN
    } else {
        w as i64
    }
}

/// Saturating multiplication.
pub fn mul_sat(a: i64, b: i64) -> (r: i64)
    ensures
        r as int == sat64(a as int * b as int),
{
    proof {
        assert((a as int) * (b as int) < 0x8000_0000_0000_0000_0000_0000_0000_0000int
            && (a as int) * (b as int)
                >= -0x8000_0000_0000_0000_0000_0000_0000_0000int)
            by (nonlinear_arith)
            requires
                -0x8000_0000_0000_0000int <= a as int
                    <= 0x7fff_ffff_ffff_ffffint,
                -0x8000_0000_0000_0000int <= b as int
                    <= 0x7fff_ffff_ffff_ffffint,
        ;
    }
    sat_i128(a as i128 * b as i128)
}

/// Saturating exponentiation.
pub fn pow_sat(a: i64, e: u64) -> (r: i64)
    ensures
        r as int == sat_pow(a as int, e as nat),
    decreases e,
{
    if e == 0 {
        1
    } else {
        let m = pow_sat(a, e - 1);
        mul_sat(a, m)
    }
}

/// The absolute value, widened so the smallest integer has one.
fn abs_u128(x: i64) -> (r: u128)
    ensures
        r as nat == abs_int(x as int),
{
    if x == i64::MIN {
        0x8000_0000_0000_0000u128
    } else if x < 0 {
        (-x) as u128
    } else {
        x as u128
    }
}

/// Euclidean quotient and remainder against the absolute divisor.
fn edivmod_x(x: i64, y: i64) -> (qr: (i64, i64))
    requires
        y != 0,
        !(x == i64::MIN && y == -1),
    ensures
        qr.1 as int == (x as int) % (abs_int(y as int) as int),
        qr.0 as int == ediv_int(x as int, y as int),
{
    let xm: u128 = abs_u128(x);
    let ym: u128 = abs_u128(y);
    let q0: u128 = xm / ym;
    let r0: u128 = xm % ym;
    let ghost xi = x as int;
    let ghost yi = y as int;
    let ghost ya = abs_int(yi) as int;
    proof {
        vstd::arithmetic::div_mod::lemma_fundamental_div_mod(
            xm as int,
            ym as int,
        );
        assert(xm as int == (ym as int) * (q0 as int) + (r0 as int));
    }
    // Euclidean remainder: already non-negative for x >= 0, folded up
    // otherwise.
    let r_wide: u128 = if x >= 0 || r0 == 0 {
        r0
    } else {
        ym - r0
    };
    // Euclidean quotient magnitude: rounded toward zero for x >= 0, away
    // from zero when a fold-up happened.
    let q_wide: u128 = if x >= 0 || r0 == 0 {
        q0
    } else {
        q0 + 1
    };
    proof {
        if x >= 0 {
            assert(xi == (q0 as int) * ya + (r0 as int)) by (nonlinear_arith)
                requires
                    xi == xm as int,
                    ya == ym as int,
                    xm as int == (ym as int) * (q0 as int) + (r0 as int),
            ;
            vstd::arithmetic::div_mod::lemma_fundamental_div_mod_converse_mod(
                xi,
                ya,
                q0 as int,
                r0 as int,
            );
            vstd::arithmetic::div_mod::lemma_fundamental_div_mod_converse_div(
                xi,
                ya,
                q0 as int,
                r0 as int,
            );
        } else {
            assert(xi == (-(q_wide as int)) * ya + (r_wide as int))
                by (nonlinear_arith)
                requires
                    xi == -(xm as int),
                    ya == ym as int,
                    xm as int == (ym as int) * (q0 as int) + (r0 as int),
                    r0 == 0 ==> q_wide == q0 && r_wide == r0,
                    r0 != 0 ==> q_wide as int == q0 as int + 1 && r_wide
                        as int == ym as int - r0 as int,
            ;
            assert(0 <= (r_wide as int) && (r_wide as int) < ya);
            vstd::arithmetic::div_mod::lemma_fundamental_div_mod_converse_mod(
                xi,
                ya,
                -(q_wide as int),
                r_wide as int,
            );
            vstd::arithmetic::div_mod::lemma_fundamental_div_mod_converse_div(
                xi,
                ya,
                -(q_wide as int),
                r_wide as int,
            );
        }
        // The quotient fits: its magnitude is at most |x|.
        assert(q_wide as int * ya >= q_wide as int) by (nonlinear_arith)
            requires
                ya >= 1,
                q_wide as int >= 0,
        ;
        assert(q_wide as int <= xm as int + 1 || ya >= 2) by (nonlinear_arith)
            requires
                xm as int == (ym as int) * (q0 as int) + (r0 as int),
                ya == ym as int,
                ya >= 1,
                r0 as int >= 0,
                q_wide as int <= q0 as int + 1,
        ;
    }
    // Fix the quotient's sign: negative exactly when x and y disagree.
    let neg: bool = (x < 0) != (y < 0);
    let q: i64 = if neg {
        proof {
            assert(q_wide as int <= 0x8000_0000_0000_0000int)
                by (nonlinear_arith)
                requires
                    xm as int == (ym as int) * (q0 as int) + (r0 as int),
                    (r0 as int) < (ym as int),
                    r0 as int >= 0,
                    ym as int >= 1,
                    q0 as int >= 0,
                    xm as int <= 0x8000_0000_0000_0000int,
                    x >= 0 ==> xm as int <= 0x7fff_ffff_ffff_ffffint,
                    x >= 0 || r0 == 0 ==> q_wide as int == q0 as int,
                    x < 0 && r0 != 0 ==> q_wide as int == q0 as int + 1,
            ;
        }
        if q_wide == 0x8000_0000_0000_0000u128 {
            i64::MIN
        } else {
            -((q_wide as u64) as i64)
        }
    } else {
        proof {
            if xm == 0x8000_0000_0000_0000u128 && ym == 1 {
                assert(x == i64::MIN);
                assert(y == 1 || y == -1);
                assert(y < 0);
                assert(false);
            }
            assert(q_wide as int <= 0x7fff_ffff_ffff_ffffint)
                by (nonlinear_arith)
                requires
                    xm as int == (ym as int) * (q0 as int) + (r0 as int),
                    (r0 as int) < (ym as int),
                    r0 as int >= 0,
                    ym as int >= 1,
                    q0 as int >= 0,
                    xm as int <= 0x8000_0000_0000_0000int,
                    x >= 0 ==> xm as int <= 0x7fff_ffff_ffff_ffffint,
                    !(xm == 0x8000_0000_0000_0000u128 && ym == 1),
                    x >= 0 || r0 == 0 ==> q_wide as int == q0 as int,
                    x < 0 && r0 != 0 ==> q_wide as int == q0 as int + 1,
            ;
        }
        q_wide as i64
    };
    proof {
        let qv = q as int;
        if yi > 0 {
            assert(qv == xi / yi);
        } else {
            assert(qv == -(xi / (-yi)));
        }
    }
    (q, r_wide as i64)
}

} // verus!

verus! {

/// Signed pure indexing: scalars broadcast, lists fall back to their
/// fill outside the materialized range.
pub fn index_signed(a: &Val, idx: i64) -> (r: Val)
    requires
        a@.pure_indexable(),
    ensures
        r@ == a@.vindex(idx as int),
{
    match a {
        Val::Int(k) => Val::Int(*k),
        Val::Und => Val::Und,
        Val::Lis { l, fill } => {
            proof {
                lemma_view_val_seq(l@);
            }
            if idx >= 0 && (idx as u64) < (l.len() as u64) {
                let r = l[idx as usize].dup();
                proof {
                    assert(view_val_seq(l@)[idx as int] == view_val(
                        l@[idx as int],
                    ));
                }
                r
            } else {
                (**fill).dup()
            }
        },
        Val::DCycle(l) => {
            proof {
                lemma_view_val_seq(l@);
            }
            if l.len() > 0 && idx >= 0 {
                let k = ((idx as u64) % (l.len() as u64)) as usize;
                let r = l[k].dup();
                proof {
                    assert(view_val_seq(l@)[k as int] == view_val(
                        l@[k as int],
                    ));
                    assert(k as int == (idx as int) % (l@.len() as int));
                }
                r
            } else {
                Val::Und
            }
        },
        _ => Val::Und,
    }
}

/// The first `n` integers as a list.
fn iota_x(n: i64) -> (r: Val)
    requires
        n >= 0,
    ensures
        r@ == vlis(Seq::new(n as nat, |i: int| ValV::Int(i))),
{
    let mut out: Vec<Val> = Vec::new();
    let mut i: i64 = 0;
    while i < n
        invariant
            0 <= i <= n,
            out@.len() == i,
            forall|j: int|
                0 <= j < i ==> #[trigger] view_val(out@[j]) == ValV::Int(j),
        decreases n - i,
    {
        out.push(Val::Int(i));
        i += 1;
    }
    proof {
        lemma_view_val_seq(out@);
        assert(view_val_seq(out@) =~= Seq::new(n as nat, |i: int| ValV::Int(i)));
    }
    Val::lis(out)
}

/// The 64 bits of an integer, least significant first.
fn brepr_x(x: i64) -> (r: Val)
    ensures
        r@ == (ValV::Lis {
            l: Seq::new(
                64,
                |i: int| vbool(((x as i64) >> (i as u64)) & 1 == 1),
            ),
            fill: Box::new(ValV::Int(0)),
        }),
{
    let mut out: Vec<Val> = Vec::new();
    let mut i: u64 = 0;
    while i < 64
        invariant
            0 <= i <= 64,
            out@.len() == i,
            forall|j: int|
                0 <= j < i ==> #[trigger] view_val(out@[j]) == vbool(
                    ((x as i64) >> (j as u64)) & 1 == 1,
                ),
        decreases 64 - i,
    {
        out.push(Val::bool((x >> i) & 1 == 1));
        i += 1;
    }
    let r = Val::lis_fill(out, Val::Int(0));
    proof {
        lemma_view_val_seq(out@);
        assert(r@ matches ValV::Lis { l: rl, fill: rf } && rl =~= Seq::new(
            64,
            |i: int| vbool(((x as i64) >> (i as u64)) & 1 == 1),
        ) && *rf == ValV::Int(0));
    }
    r
}

/// Bytes as a list of integer character codes.
pub fn byte_vals_x(s: &Vec<u8>) -> (r: Vec<Val>)
    ensures
        view_val_seq(r@) == byte_vals(s@),
{
    let mut out: Vec<Val> = Vec::new();
    let mut i: usize = 0;
    while i < s.len()
        invariant
            i <= s@.len(),
            out@.len() == i,
            forall|j: int|
                0 <= j < i ==> #[trigger] view_val(out@[j]) == ValV::Int(
                    s@[j] as int,
                ),
        decreases s@.len() - i,
    {
        out.push(Val::Int(s[i] as i64));
        i += 1;
    }
    proof {
        lemma_view_val_seq(out@);
        assert(view_val_seq(out@) =~= byte_vals(s@));
    }
    out
}

/// Parse digits from position `i`, mirroring the accumulator rule.
pub fn parse_acc_x(s: &Vec<u8>, i: usize, acc: i64) -> (r: Option<i64>)
    requires
        i <= s@.len(),
    ensures
        match r {
            Option::Some(x) => parse_acc(
                s@.subrange(i as int, s@.len() as int),
                acc as int,
            ) == Option::Some(x as int),
            Option::None => parse_acc(
                s@.subrange(i as int, s@.len() as int),
                acc as int,
            ) is None,
        },
    decreases s@.len() - i,
{
    if i == s.len() {
        proof {
            assert(s@.subrange(i as int, s@.len() as int) =~= Seq::empty());
        }
        Option::Some(acc)
    } else if 48 <= s[i] && s[i] <= 57 {
        let d = (s[i] - 48) as i64;
        let next = sat_i128(acc as i128 * 10 + d as i128);
        proof {
            let sub = s@.subrange(i as int, s@.len() as int);
            assert(sub[0] == s@[i as int]);
            assert(sub.subrange(1, sub.len() as int) =~= s@.subrange(
                i + 1,
                s@.len() as int,
            ));
        }
        parse_acc_x(s, i + 1, next)
    } else {
        proof {
            assert(s@.subrange(i as int, s@.len() as int)[0] == s@[i as int]);
        }
        Option::None
    }
}

/// Parse a decimal integer with an optional leading minus.
fn parse_dec_x(s: &Vec<u8>) -> (r: Option<i64>)
    ensures
        match r {
            Option::Some(x) => parse_dec(s@) == Option::Some(x as int),
            Option::None => parse_dec(s@) is None,
        },
{
    if s.len() == 0 {
        Option::None
    } else if s[0] == 45 {
        if s.len() == 1 {
            match parse_acc_x(s, 1, 0) {
                Option::Some(_) => Option::None,
                Option::None => Option::None,
            }
        } else {
            match parse_acc_x(s, 1, 0) {
                Option::Some(x) => {
                    let nv = sat_i128(-(x as i128));
                    Option::Some(nv)
                },
                Option::None => Option::None,
            }
        }
    } else {
        proof {
            assert(s@.subrange(0, s@.len() as int) =~= s@);
        }
        parse_acc_x(s, 0, 0)
    }
}

/// Flatten a nested value into its scalars, depth first.
fn ravel_x(v: &Val, out: &mut Vec<Val>)
    ensures
        view_val_seq(final(out)@) == view_val_seq(old(out)@) + ravel_val(v@),
    decreases v,
{
    match v {
        Val::Lis { l, .. } => {
            proof {
                lemma_view_val_seq(l@);
            }
            let ghost lv = view_val_seq(l@);
            let mut i: usize = 0;
            while i < l.len()
                invariant
                    i <= l@.len(),
                    *v matches Val::Lis { l: vl, .. } && vl == *l,
                    lv == view_val_seq(l@),
                    lv.len() == l@.len(),
                    forall|j: int|
                        0 <= j < l@.len() ==> #[trigger] lv[j] == view_val(
                            l@[j],
                        ),
                    view_val_seq(out@) == view_val_seq(old(out)@) + ravel_seq(
                        lv.subrange(0, i as int),
                    ),
                decreases l@.len() - i,
            {
                proof {
                    assert(decreases_to!(*v => **l));
                    assert(decreases_to!(**l => l@));
                    assert(decreases_to!(l@ => l@[i as int]));
                }
                ravel_x(&l[i], out);
                proof {
                    assert(lv.subrange(0, i + 1).drop_last() =~= lv.subrange(
                        0,
                        i as int,
                    ));
                    assert(lv.subrange(0, i + 1).last() == lv[i as int]);
                    assert(view_val_seq(out@) =~= view_val_seq(old(out)@)
                        + ravel_seq(lv.subrange(0, i + 1)));
                }
                i += 1;
            }
            proof {
                assert(lv.subrange(0, lv.len() as int) =~= lv);
            }
        },
        _ => {
            let ghost before = out@;
            out.push(v.dup());
            proof {
                lemma_view_val_seq(out@);
                lemma_view_val_seq(before);
                assert(out@.subrange(0, out@.len() - 1) =~= before);
                assert(view_val_seq(out@) =~= view_val_seq(before) + ravel_val(
                    v@,
                ));
            }
        },
    }
}

} // verus!

verus! {

/// Indexing with a wide index, for the take rules.
fn index_wide(a: &Val, idx: i128) -> (r: Val)
    requires
        a@.is_finite(),
    ensures
        r@ == a@.vindex(idx as int),
{
    match a {
        Val::Int(k) => Val::Int(*k),
        Val::Und => Val::Und,
        Val::Lis { l, fill } => {
            proof {
                lemma_view_val_seq(l@);
            }
            if 0 <= idx && idx < l.len() as i128 {
                let r = l[idx as usize].dup();
                proof {
                    assert(view_val_seq(l@)[idx as int] == view_val(
                        l@[idx as int],
                    ));
                }
                r
            } else {
                (**fill).dup()
            }
        },
        _ => Val::Und,
    }
}

/// The pure primitives, mirroring the specification rule for rule.
#[verifier::rlimit(100)]
#[verifier::spinoff_prover]
pub fn prim_x(v: &Val, a: Val, b: Option<Val>) -> (r: Val)
    ensures
        r@ == spec_prim(v@, a@, vopt(b)),
{
    let ghost gb = vopt(b);
    let ghost ga = a@;
    let b_some = b.is_some();
    let ba = match b {
        Option::Some(x) => x,
        Option::None => Val::Und,
    };
    let ghost gbav = ba@;
    proof {
        crate::val::lemma_view_variants(a);
        crate::val::lemma_view_variants(ba);
        crate::val::lemma_view_variants(*v);
    }
    match v {
        Val::Add => {
            let rr = match (&a, &ba) {
            (Val::Int(x), Val::Int(y)) => Val::Int(
                sat_i128(*x as i128 + *y as i128),
            ),
            _ => Val::Und,
        };
            proof {
                assert(rr@ == spec_prim(v@, ga, gb));
            }
            rr
        },
        Val::Sub => {
            let rr = match (&a, &ba) {
            (Val::Int(x), Val::Int(y)) => Val::Int(
                sat_i128(*x as i128 - *y as i128),
            ),
            _ => Val::Und,
        };
            proof {
                assert(rr@ == spec_prim(v@, ga, gb));
            }
            rr
        },
        Val::Mul => {
            let rr = match (&a, &ba) {
            (Val::Int(x), Val::Int(y)) => Val::Int(mul_sat(*x, *y)),
            _ => Val::Und,
        };
            proof {
                assert(rr@ == spec_prim(v@, ga, gb));
            }
            rr
        },
        Val::Div => {
            let rr = Val::Und;
            proof {
                assert(rr@ == spec_prim(v@, ga, gb));
            }
            rr
        },
        Val::DivE => {
            let rr = match (&a, &ba) {
            (Val::Int(x), Val::Int(y)) => {
                if *y == 0 {
                    Val::Und
                } else if *x == i64::MIN && *y == -1 {
                    Val::Int(i64::MAX)
                } else {
                    let qr = edivmod_x(*x, *y);
                    Val::Int(qr.0)
                }
            },
            _ => Val::Und,
        };
            proof {
                assert(rr@ == spec_prim(v@, ga, gb));
            }
            rr
        },
        Val::Mod => {
            let rr = match (&a, &ba) {
            (Val::Int(x), Val::Int(y)) => {
                if *y == 0 {
                    Val::Und
                } else {
                    Val::Int(emod_only(*x, *y))
                }
            },
            _ => Val::Und,
        };
            proof {
                assert(rr@ == spec_prim(v@, ga, gb));
            }
            rr
        },
        Val::Pow => {
            let rr = match (&a, &ba) {
            (Val::Int(x), Val::Int(y)) => {
                if *y >= 0 {
                    Val::Int(pow_sat(*x, *y as u64))
                } else {
                    Val::Und
                }
            },
            _ => Val::Und,
        };
            proof {
                assert(rr@ == spec_prim(v@, ga, gb));
            }
            rr
        },
        Val::Lt => {
            let rr = match (&a, &ba) {
            (Val::Int(x), Val::Int(y)) => Val::bool(*x < *y),
            _ => Val::Und,
        };
            proof {
                assert(rr@ == spec_prim(v@, ga, gb));
            }
            rr
        },
        Val::Eq => {
            let rr = match (&a, &ba) {
            (Val::Int(x), Val::Int(y)) => Val::bool(*x == *y),
            _ => Val::Und,
        };
            proof {
                assert(rr@ == spec_prim(v@, ga, gb));
            }
            rr
        },
        Val::Gt => {
            let rr = match (&a, &ba) {
            (Val::Int(x), Val::Int(y)) => Val::bool(*x > *y),
            _ => Val::Und,
        };
            proof {
                assert(rr@ == spec_prim(v@, ga, gb));
            }
            rr
        },
        Val::And => {
            let rr = Val::bool(a.as_bool() && ba.as_bool());
            proof {
                assert(rr@ == spec_prim(v@, ga, gb));
            }
            rr
        },
        Val::Or => {
            let rr = Val::bool(a.as_bool() || ba.as_bool());
            proof {
                assert(rr@ == spec_prim(v@, ga, gb));
            }
            rr
        },
        Val::Max => {
            let rr = match (&a, &ba) {
            (Val::Int(x), Val::Int(y)) => Val::Int(if *x >= *y { *x } else { *y }),
            _ => Val::Und,
        };
            proof {
                assert(rr@ == spec_prim(v@, ga, gb));
            }
            rr
        },
        Val::Min => {
            let rr = match (&a, &ba) {
            (Val::Int(x), Val::Int(y)) => Val::Int(if *x <= *y { *x } else { *y }),
            _ => Val::Und,
        };
            proof {
                assert(rr@ == spec_prim(v@, ga, gb));
            }
            rr
        },
        Val::BAnd => {
            let rr = match (&a, &ba) {
            (Val::Int(x), Val::Int(y)) => Val::Int(*x & *y),
            _ => Val::Und,
        };
            proof {
                assert(rr@ == spec_prim(v@, ga, gb));
            }
            rr
        },
        Val::BOr => {
            let rr = match (&a, &ba) {
            (Val::Int(x), Val::Int(y)) => Val::Int(*x | *y),
            _ => Val::Und,
        };
            proof {
                assert(rr@ == spec_prim(v@, ga, gb));
            }
            rr
        },
        Val::BXor => {
            let rr = match (&a, &ba) {
            (Val::Int(x), Val::Int(y)) => Val::Int(*x ^ *y),
            _ => Val::Und,
        };
            proof {
                assert(rr@ == spec_prim(v@, ga, gb));
            }
            rr
        },
        Val::BNot => {
            let rr = match &a {
            Val::Int(x) => Val::Int(-1 - *x),
            _ => Val::Und,
        };
            proof {
                assert(rr@ == spec_prim(v@, ga, gb));
            }
            rr
        },
        Val::BRepr => {
            let rr = match &a {
            Val::Int(x) => brepr_x(*x),
            _ => Val::Und,
        };
            proof {
                assert(rr@ == spec_prim(v@, ga, gb));
            }
            rr
        },
        Val::Gcd => {
            let rr = match (&a, &ba) {
            (Val::Int(x), Val::Int(y)) => {
                if (*x == i64::MIN && (*y == i64::MIN || *y == 0)) || (*x == 0
                    && *y == i64::MIN) {
                    Val::Und
                } else {
                    Val::Int(gcd_i64(*x, *y))
                }
            },
            _ => Val::Und,
        };
            proof {
                assert(rr@ == spec_prim(v@, ga, gb));
            }
            rr
        },
        Val::Lcm => {
            let rr = match (&a, &ba) {
            (Val::Int(x), Val::Int(y)) => lcm_x(*x, *y),
            _ => Val::Und,
        };
            proof {
                assert(rr@ == spec_prim(v@, ga, gb));
            }
            rr
        },
        Val::Binom => {
            let rr = match (&a, &ba) {
            (Val::Int(x), Val::Int(y)) => {
                if 0 <= *y && 0 <= *x {
                    if *y > *x {
                        proof {
                            crate::outside::lemma_binom_over(
                                *x as nat,
                                *y as nat,
                            );
                        }
                        Val::Int(0)
                    } else if *x <= 66 {
                        Val::Int(binom_i64(*x, *y))
                    } else if *y == 0 {
                        Val::Int(1)
                    } else if *y == 1 {
                        proof {
                            crate::outside::lemma_binom_one(*x as nat);
                        }
                        Val::Int(*x)
                    } else if *y == *x {
                        proof {
                            crate::outside::lemma_binom_diag(*x as nat);
                        }
                        Val::Int(1)
                    } else if *y == *x - 1 {
                        proof {
                            crate::outside::lemma_binom_subdiag(*x as nat);
                        }
                        Val::Int(*x)
                    } else {
                        Val::Und
                    }
                } else {
                    Val::Und
                }
            },
            _ => Val::Und,
        };
            proof {
                assert(rr@ == spec_prim(v@, ga, gb));
            }
            rr
        },
        Val::Isnan => {
            let rr = Val::bool(a.is_nan());
            proof {
                assert(rr@ == spec_prim(v@, ga, gb));
            }
            rr
        },
        Val::Abs => {
            let rr = match &a {
            Val::Int(x) => Val::Int(
                if *x == i64::MIN {
                    i64::MAX
                } else if *x < 0 {
                    -*x
                } else {
                    *x
                },
            ),
            _ => Val::Und,
        };
            proof {
                assert(rr@ == spec_prim(v@, ga, gb));
            }
            rr
        },
        Val::Neg => {
            let rr = match &a {
            Val::Int(x) => Val::Int(
                if *x == i64::MIN {
                    i64::MAX
                } else {
                    -*x
                },
            ),
            _ => Val::Und,
        };
            proof {
                assert(rr@ == spec_prim(v@, ga, gb));
            }
            rr
        },
        Val::Round => {
            let rr = match &a {
            Val::Int(x) => Val::Int(*x),
            _ => Val::Und,
        };
            proof {
                assert(rr@ == spec_prim(v@, ga, gb));
            }
            rr
        },
        Val::Ceil => {
            let rr = match &a {
            Val::Int(x) => Val::Int(*x),
            _ => Val::Und,
        };
            proof {
                assert(rr@ == spec_prim(v@, ga, gb));
            }
            rr
        },
        Val::Floor => {
            let rr = match &a {
            Val::Int(x) => Val::Int(*x),
            _ => Val::Und,
        };
            proof {
                assert(rr@ == spec_prim(v@, ga, gb));
            }
            rr
        },
        Val::Sign => {
            let rr = match &a {
            Val::Int(x) => Val::Int(
                if *x > 0 {
                    1
                } else if *x < 0 {
                    -1
                } else {
                    0
                },
            ),
            _ => Val::Und,
        };
            proof {
                assert(rr@ == spec_prim(v@, ga, gb));
            }
            rr
        },
        Val::Left => {
            let rr = a;
            proof {
                assert(rr@ == spec_prim(v@, ga, gb));
            }
            rr
        },
        Val::Right => {
            let rr = if b_some {
            ba
        } else {
            a
        };
            proof {
                assert(rr@ == spec_prim(v@, ga, gb));
            }
            rr
        },
        Val::Len => {
            let rr = match &a {
            Val::Int(_) => Val::Int(1),
            Val::Und => Val::Int(1),
            Val::Lis { l, .. } => {
                proof {
                    lemma_view_val_seq(l@);
                }
                if (l.len() as u64) > (i64::MAX as u64) {
                    Val::Int(i64::MAX)
                } else {
                    Val::Int(l.len() as i64)
                }
            },
            _ => Val::Und,
        };
            proof {
                assert(rr@ == spec_prim(v@, ga, gb));
            }
            rr
        },
        Val::Shape => {
            let rr = match &a {
            Val::Int(_) => Val::lis_fill(Vec::new(), Val::Int(1)),
            Val::Und => Val::lis_fill(Vec::new(), Val::Int(1)),
            Val::Lis { l, .. } => {
                proof {
                    lemma_view_val_seq(l@);
                }
                let n: i64 = if (l.len() as u64) > (i64::MAX as u64) {
                    i64::MAX
                } else {
                    l.len() as i64
                };
                let mut sh: Vec<Val> = Vec::new();
                sh.push(Val::Int(n));
                let ghost gsh = sh@;
                let r = Val::lis_fill(sh, Val::Int(1));
                proof {
                    lemma_view_val_seq(gsh);
                    assert(view_val(Val::Int(n)) == ValV::Int(n as int));
                    assert(view_val_seq(gsh) =~= seq![ValV::Int(n as int)]);
                    assert(r@ =~~= spec_prim(v@, ga, gb));
                }
                r
            },
            _ => Val::Und,
        };
            proof {
                assert(rr@ == spec_prim(v@, ga, gb));
            }
            rr
        },
        Val::Iota => {
            let rr = match &a {
            Val::Int(n) => {
                if *n >= 0 {
                    iota_x(*n)
                } else {
                    Val::Und
                }
            },
            Val::Und => Val::Und,
            Val::Lis { .. } => Val::Und,
            _ => Val::Av(AvT::Const, Option::None, Val::Und.rc()),
        };
            proof {
                assert(rr@ == spec_prim(v@, ga, gb));
            }
            rr
        },
        Val::Pair => {
            let rr = {
            let mut out: Vec<Val> = Vec::new();
            out.push(a);
            out.push(ba);
            let ghost gout = out@;
            let r = Val::lis(out);
            proof {
                lemma_view_val_seq(gout);
                assert(gbav == gb.unwrap_or(ValV::Und));
                assert(view_val_seq(gout) =~= seq![ga, gbav]);
                assert(r@ =~~= spec_prim(v@, ga, gb));
            }
            r
        };
            proof {
                assert(rr@ == spec_prim(v@, ga, gb));
            }
            rr
        },
        Val::Enlist => {
            let rr = {
            let mut out: Vec<Val> = Vec::new();
            out.push(a);
            let ghost gout = out@;
            let r = Val::lis(out);
            proof {
                lemma_view_val_seq(gout);
                assert(view_val_seq(gout) =~= seq![ga]);
                assert(r@ =~~= spec_prim(v@, ga, gb));
            }
            r
        };
            proof {
                assert(rr@ == spec_prim(v@, ga, gb));
            }
            rr
        },
        Val::Ravel => {
            let rr = {
            let mut out: Vec<Val> = Vec::new();
            proof {
                assert(view_val_seq(out@) =~= Seq::<ValV>::empty());
            }
            ravel_x(&a, &mut out);
            let ghost gout = out@;
            let r = Val::lis(out);
            proof {
                lemma_view_val_seq(gout);
                assert(view_val_seq(gout) =~= ravel_val(ga));
                assert(r@ =~~= spec_prim(v@, ga, gb));
            }
            r
        };
            proof {
                assert(rr@ == spec_prim(v@, ga, gb));
            }
            rr
        },
        Val::Concat => {
            let rr = {
            if a.is_finite() && ba.is_finite() {
                let mut ea = elems_of(&a);
                let mut eb = elems_of(&ba);
                let ghost ea0 = ea@;
                let ghost eb0 = eb@;
                let ghost eav = view_val_seq(ea@);
                let ghost ebv = view_val_seq(eb@);
                let fill = a.fill();
                ea.append(&mut eb);
                let ghost cat = ea@;
                let r = Val::lis_fill(ea, fill);
                proof {
                    lemma_view_val_seq(cat);
                    lemma_view_val_seq(ea0);
                    lemma_view_val_seq(eb0);
                    assert(view_val_seq(cat) =~= eav + ebv);
                    assert(r@ =~~= spec_prim(v@, ga, gb));
                }
                r
            } else {
                Val::Und
            }
        };
            proof {
                assert(rr@ == spec_prim(v@, ga, gb));
            }
            rr
        },
        Val::Reverse => {
            let rr = match a {
            Val::Int(x) => Val::Int(x),
            Val::Und => Val::Und,
            Val::Lis { l, fill } => {
                proof {
                    lemma_view_val_seq(l@);
                }
                let mut out: Vec<Val> = Vec::new();
                let n = l.len();
                let mut i: usize = 0;
                while i < n
                    invariant
                        i <= n,
                        n == l@.len(),
                        view_val_seq(l@).len() == l@.len(),
                        forall|j: int|
                            0 <= j < l@.len() ==> #[trigger] view_val_seq(
                                l@,
                            )[j] == view_val(l@[j]),
                        out@.len() == i,
                        forall|j: int|
                            0 <= j < i ==> #[trigger] view_val(out@[j])
                                == view_val(l@[n - 1 - j]),
                    decreases n - i,
                {
                    out.push(l[n - 1 - i].dup());
                    i += 1;
                }
                let ghost gout = out@;
                proof {
                    lemma_view_val_seq(gout);
                    assert(view_val_seq(gout) =~= view_val_seq(l@).reverse());
                }
                let r = Val::Lis { l: Rc::new(out), fill };
                proof {
                    assert(r@ =~~= spec_prim(v@, ga, gb));
                }
                r
            },
            _ => Val::Und,
        };
            proof {
                assert(rr@ == spec_prim(v@, ga, gb));
            }
            rr
        },
        Val::GetFill => {
            let rr = match &a {
            Val::Lis { fill, .. } => (**fill).dup(),
            _ => Val::Und,
        };
            proof {
                assert(rr@ == spec_prim(v@, ga, gb));
            }
            rr
        },
        Val::SetFill => {
            let rr = match a {
            Val::Lis { l, .. } => {
                let r = Val::Lis { l, fill: ba.rc() };
                proof {
                    assert(r@ =~~= spec_prim(v@, ga, gb));
                }
                r
            },
            a2 => a2,
        };
            proof {
                assert(rr@ == spec_prim(v@, ga, gb));
            }
            rr
        },
        Val::Replist => {
            let rr = {
            if !a.is_finite() {
                a
            } else {
                match &ba {
                    Val::Int(k) => {
                        let reps: u64 = if *k >= 0 {
                            *k as u64
                        } else {
                            0
                        };
                        let ev = elems_of(&a);
                        let ghost evv = view_val_seq(ev@);
                        proof {
                            lemma_view_val_seq(ev@);
                        }
                        let mut out: Vec<Val> = Vec::new();
                        let mut rep: u64 = 0;
                        while rep < reps
                            invariant
                                rep <= reps,
                                evv == view_val_seq(ev@),
                                evv.len() == ev@.len(),
                                forall|j: int|
                                    0 <= j < ev@.len() ==> #[trigger] evv[j]
                                        == view_val(ev@[j]),
                                view_val_seq(out@) == repeat_seq(
                                    evv,
                                    rep as nat,
                                ),
                            decreases reps - rep,
                        {
                            let mut idx: usize = 0;
                            while idx < ev.len()
                                invariant
                                    idx <= ev@.len(),
                                    evv == view_val_seq(ev@),
                                    evv.len() == ev@.len(),
                                    forall|j: int|
                                        0 <= j < ev@.len()
                                            ==> #[trigger] evv[j]
                                            == view_val(ev@[j]),
                                    view_val_seq(out@) == repeat_seq(
                                        evv,
                                        rep as nat,
                                    ) + evv.subrange(0, idx as int),
                                decreases ev@.len() - idx,
                            {
                                let ghost before = out@;
                                out.push(ev[idx].dup());
                                proof {
                                    lemma_view_val_seq(out@);
                                    lemma_view_val_seq(before);
                                    assert(out@.subrange(0, out@.len() - 1)
                                        =~= before);
                                    assert(view_val_seq(out@) =~= repeat_seq(
                                        evv,
                                        rep as nat,
                                    ) + evv.subrange(0, idx + 1));
                                }
                                idx += 1;
                            }
                            proof {
                                assert(evv.subrange(0, evv.len() as int)
                                    =~= evv);
                                assert(repeat_seq(evv, (rep + 1) as nat)
                                    =~= repeat_seq(evv, rep as nat) + evv);
                            }
                            rep += 1;
                        }
                        let ghost gout = out@;
                        let r = Val::lis(out);
                        proof {
                            lemma_view_val_seq(gout);
                            assert(r@ =~~= spec_prim(v@, ga, gb));
                        }
                        r
                    },
                    _ => Val::Und,
                }
            }
        };
            proof {
                assert(rr@ == spec_prim(v@, ga, gb));
            }
            rr
        },
        Val::Cycle => {
            let rr = match a {
            Val::Lis { l, .. } => {
                let r = Val::DCycle(l);
                proof {
                    assert(r@ =~~= spec_prim(v@, ga, gb));
                }
                r
            },
            Val::Int(x) => {
                let mut out: Vec<Val> = Vec::new();
                out.push(Val::Int(x));
                let ghost gout = out@;
                let r = Val::DCycle(Rc::new(out));
                proof {
                    lemma_view_val_seq(gout);
                    assert(view_val(Val::Int(x)) == ga);
                    assert(view_val_seq(gout) =~= seq![ga]);
                    assert(r@ =~~= spec_prim(v@, ga, gb));
                }
                r
            },
            Val::Und => {
                let mut out: Vec<Val> = Vec::new();
                out.push(Val::Und);
                let ghost gout = out@;
                let r = Val::DCycle(Rc::new(out));
                proof {
                    lemma_view_val_seq(gout);
                    assert(view_val(Val::Und) == ga);
                    assert(view_val_seq(gout) =~= seq![ga]);
                    assert(r@ =~~= spec_prim(v@, ga, gb));
                }
                r
            },
            a2 => a2,
        };
            proof {
                assert(rr@ == spec_prim(v@, ga, gb));
            }
            rr
        },
        Val::Match => {
            let rr = {
            let da = deep_data_of(&a);
            let db = deep_data_of(&ba);
            if da && db {
                Val::bool(data_eq(&a, &ba))
            } else {
                Val::Und
            }
        };
            proof {
                assert(rr@ == spec_prim(v@, ga, gb));
            }
            rr
        },
        Val::Numfmt => {
            let rr = match &a {
            Val::Int(_) => {
                let bytes = display_of(&a);
                let r = Val::lis(byte_vals_x(&bytes));
                proof {
                    assert(r@ =~~= spec_prim(v@, ga, gb));
                }
                r
            },
            Val::Und => {
                let bytes = display_of(&a);
                let r = Val::lis(byte_vals_x(&bytes));
                proof {
                    assert(r@ =~~= spec_prim(v@, ga, gb));
                }
                r
            },
            _ => Val::Und,
        };
            proof {
                assert(rr@ == spec_prim(v@, ga, gb));
            }
            rr
        },
        Val::Parse => {
            let rr = match &a {
            Val::Int(_) => a,
            Val::Lis { l, .. } => {
                let bytes = scalar_bytes_of(&**l);
                match parse_dec_x(&bytes) {
                    Option::Some(x) => Val::Int(x),
                    Option::None => Val::Und,
                }
            },
            _ => Val::Und,
        };
            proof {
                assert(rr@ == spec_prim(v@, ga, gb));
            }
            rr
        },
        Val::SortUp => {
            let rr = sort_prim(a, true);
            proof {
                assert(rr@ == spec_prim(v@, ga, gb));
            }
            rr
        },
        Val::SortDown => {
            let rr = sort_prim(a, false);
            proof {
                assert(rr@ == spec_prim(v@, ga, gb));
            }
            rr
        },
        Val::GradeUp => {
            let rr = grade_prim(a, true);
            proof {
                assert(rr@ == spec_prim(v@, ga, gb));
            }
            rr
        },
        Val::GradeDown => {
            let rr = grade_prim(a, false);
            proof {
                assert(rr@ == spec_prim(v@, ga, gb));
            }
            rr
        },
        Val::Takeleft => {
            let rr = take_x(&a, &ba, true);
            proof {
                assert(rr@ == spec_prim(v@, ga, gb));
            }
            rr
        },
        Val::Takeright => {
            let rr = take_x(&a, &ba, false);
            proof {
                assert(rr@ == spec_prim(v@, ga, gb));
            }
            rr
        },
        Val::Dropleft => {
            let rr = drop_x(&a, &ba, true);
            proof {
                assert(rr@ == spec_prim(v@, ga, gb));
            }
            rr
        },
        Val::Dropright => {
            let rr = drop_x(&a, &ba, false);
            proof {
                assert(rr@ == spec_prim(v@, ga, gb));
            }
            rr
        },
        _ => {
            let rr = Val::Und;
            proof {
                assert(rr@ == spec_prim(v@, ga, gb));
            }
            rr
        },
    }
}

/// Lowest common multiple, computed in verified code from the trusted
/// greatest common divisor.
fn lcm_x(x: i64, y: i64) -> (r: Val)
    ensures
        r@ == spec_prim(ValV::Lcm, ValV::Int(x as int), Option::Some(
            ValV::Int(y as int),
        )),
{
    if x == 0 || y == 0 {
        return Val::Int(0);
    }
    if x == i64::MIN && y == i64::MIN {
        proof {
            reveal_with_fuel(gcd_nat, 3);
            assert(0x8000_0000_0000_0000nat % 0x8000_0000_0000_0000nat == 0);
            assert(abs_int(x as int) == 0x8000_0000_0000_0000nat);
            assert(abs_int(y as int) == 0x8000_0000_0000_0000nat);
            let g2 = gcd_nat(abs_int(x as int), abs_int(y as int));
            assert(g2 == 0x8000_0000_0000_0000nat);
            assert(abs_int(x as int) / g2 == 1) by (nonlinear_arith)
                requires
                    g2 == 0x8000_0000_0000_0000nat,
                    abs_int(x as int) == 0x8000_0000_0000_0000nat,
            ;
            assert((abs_int(x as int) / g2) * abs_int(y as int)
                == 0x8000_0000_0000_0000nat) by (nonlinear_arith)
                requires
                    abs_int(x as int) / g2 == 1,
                    abs_int(y as int) == 0x8000_0000_0000_0000nat,
            ;
            assert(spec_prim(
                ValV::Lcm,
                ValV::Int(x as int),
                Option::Some(ValV::Int(y as int)),
            ) == ValV::Und);
        }
        return Val::Und;
    }
    let g = gcd_i64(x, y);
    proof {
        crate::outside::lemma_gcd_pos(abs_int(x as int), abs_int(y as int));
    }
    let xa = abs_u128(x);
    let ya = abs_u128(y);
    proof {
        assert((xa as int / (g as int)) >= 0 && (xa as int / (g as int))
            <= xa as int) by (nonlinear_arith)
            requires
                g as int >= 1,
                xa as int >= 0,
        ;
        assert((xa as int / (g as int)) * (ya as int) >= 0 && (xa as int / (
        g as int)) * (ya as int)
            < 0x1_0000_0000_0000_0000_0000_0000_0000_0000int)
            by (nonlinear_arith)
            requires
                0 <= xa as int / (g as int) <= 0x8000_0000_0000_0000int,
                0 <= ya as int <= 0x8000_0000_0000_0000int,
        ;
    }
    let m: u128 = (xa / (g as u128)) * ya;
    if m > i64::MAX as u128 {
        Val::Und
    } else {
        Val::Int(m as i64)
    }
}

/// Take from the left or the right, filling beyond the materialized
/// range.
fn take_x(a: &Val, ba: &Val, left: bool) -> (r: Val)
    ensures
        left ==> r@ == spec_prim(ValV::Takeleft, a@, Option::Some(*&ba@)),
        !left ==> r@ == spec_prim(ValV::Takeright, a@, Option::Some(*&ba@)),
{
    if !a.is_finite() {
        return Val::Und;
    }
    match ba {
        Val::Int(k) => {
            let kk = *k;
            // The count and the base offset of the window being read.
            let count: u64 = if kk >= 0 {
                kk as u64
            } else if kk == i64::MIN {
                0x8000_0000_0000_0000u64
            } else {
                (-kk) as u64
            };
            let from_start: bool = (kk >= 0) == left;
            let alen = a.len();
            let base: i128 = if from_start {
                0i128
            } else {
                alen as i128 - count as i128
            };
            let mut out: Vec<Val> = Vec::new();
            let mut i: u64 = 0;
            while i < count
                invariant
                    i <= count,
                    a@.is_finite(),
                    base == if from_start {
                        0int
                    } else {
                        a@.vlen() - count as int
                    },
                    -0x1_0000_0000_0000_0000int <= base
                        <= 0x1_0000_0000_0000_0000_0000int,
                    out@.len() == i,
                    forall|j: int|
                        0 <= j < i ==> #[trigger] view_val(out@[j])
                            == a@.vindex(base as int + j),
                decreases count - i,
            {
                out.push(index_wide(a, base + i as i128));
                i += 1;
            }
            let r = Val::lis_fill(out, a.fill());
            proof {
                lemma_view_val_seq(out@);
                if left {
                    if kk >= 0 {
                        assert(view_val_seq(out@) =~= Seq::new(
                            kk as nat,
                            |i: int| a@.vindex(i),
                        ));
                    } else {
                        assert(view_val_seq(out@) =~= Seq::new(
                            (-(kk as int)) as nat,
                            |i: int| a@.vindex(a@.vlen() + kk + i),
                        ));
                    }
                    assert(r@ =~~= spec_prim(ValV::Takeleft, a@, Option::Some(
                        ba@,
                    )));
                } else {
                    if kk >= 0 {
                        assert(view_val_seq(out@) =~= Seq::new(
                            kk as nat,
                            |i: int| a@.vindex(a@.vlen() - kk + i),
                        ));
                    } else {
                        assert(view_val_seq(out@) =~= Seq::new(
                            (-(kk as int)) as nat,
                            |i: int| a@.vindex(i),
                        ));
                    }
                    assert(r@ =~~= spec_prim(ValV::Takeright, a@, Option::Some(
                        ba@,
                    )));
                }
            }
            r
        },
        _ => Val::Und,
    }
}

/// Drop from the left or the right.
fn drop_x(a: &Val, ba: &Val, left: bool) -> (r: Val)
    ensures
        left ==> r@ == spec_prim(ValV::Dropleft, a@, Option::Some(*&ba@)),
        !left ==> r@ == spec_prim(ValV::Dropright, a@, Option::Some(*&ba@)),
{
    if !a.is_finite() {
        return Val::Und;
    }
    match ba {
        Val::Int(k) => {
            if *k < 0 {
                return Val::Und;
            }
            let es = elems_of(a);
            let ghost ev = view_val_seq(es@);
            proof {
                lemma_view_val_seq(es@);
                assert(ev.len() == a@.vlen());
            }
            let n: usize = if (*k as u64) <= (es.len() as u64) {
                *k as usize
            } else {
                es.len()
            };
            let (lo, hi): (usize, usize) = if left {
                (n, es.len())
            } else {
                (0, es.len() - n)
            };
            let mut out: Vec<Val> = Vec::new();
            let mut i: usize = lo;
            while i < hi
                invariant
                    lo <= i <= hi <= es@.len(),
                    ev == view_val_seq(es@),
                    ev.len() == es@.len(),
                    forall|j: int|
                        0 <= j < es@.len() ==> #[trigger] ev[j] == view_val(
                            es@[j],
                        ),
                    out@.len() == i - lo,
                    forall|j: int|
                        0 <= j < i - lo ==> #[trigger] view_val(out@[j])
                            == ev[lo + j],
                decreases hi - i,
            {
                out.push(es[i].dup());
                i += 1;
            }
            let r = Val::lis_fill(out, a.fill());
            proof {
                lemma_view_val_seq(out@);
                assert(view_val_seq(out@) =~= ev.subrange(
                    lo as int,
                    hi as int,
                ));
                if left {
                    assert(r@ =~~= spec_prim(ValV::Dropleft, a@, Option::Some(
                        ba@,
                    )));
                } else {
                    assert(r@ =~~= spec_prim(ValV::Dropright, a@, Option::Some(
                        ba@,
                    )));
                }
            }
            r
        },
        _ => Val::Und,
    }
}

/// Euclidean remainder used by the modulus rule.
fn emod_only(x: i64, y: i64) -> (r: i64)
    requires
        y != 0,
    ensures
        r as int == (x as int) % (abs_int(y as int) as int),
{
    if x == i64::MIN && y == -1 {
        0
    } else {
        let qr = edivmod_x(x, y);
        qr.1
    }
}

} // verus!



verus! {

/// Step the seed by a count, wrapping.
fn seed_plus(seed: u64, d: u64) -> (r: u64)
    ensures
        r == wadd(seed, d as nat),
{
    if d <= u64::MAX - seed {
        seed + d
    } else {
        d - (u64::MAX - seed) - 1
    }
}

/// Append bytes to output stream `n`, if it exists.
fn out_write_x(env: &mut Env, n: usize, bytes: &Vec<u8>)
    ensures
        final(env)@ == env_out_write(old(env)@, n as int, bytes@),
        final(env)@.frames == old(env)@.frames,
{
    proof {
        lemma_view_bytes_seq(env.outs@);
    }
    if n < env.outs.len() {
        let mut buf = clone_bytes(&env.outs[n]);
        let mut extra = clone_bytes(bytes);
        buf.append(&mut extra);
        env.outs.set(n, buf);
        proof {
            lemma_view_bytes_seq(env.outs@);
            lemma_view_bytes_seq(old(env).outs@);
            assert(env@.outs =~= old(env)@.outs.update(
                n as int,
                old(env)@.outs[n as int] + bytes@,
            ));
            assert(env@ =~= env_out_write(old(env)@, n as int, bytes@));
        }
    } else {
        proof {
            assert(env@ =~= env_out_write(old(env)@, n as int, bytes@));
        }
    }
}

/// Take bytes from input stream `n` under the reading mode.
fn in_read_x(env: &mut Env, chars: i64, n: usize) -> (r: Vec<u8>)
    requires
        n < old(env)@.ins.len(),
    ensures
        ({
            let (taken, rest) = in_split(old(env)@.ins[n as int], chars as int);
            r@ == taken && final(env)@ =~= (EnvV {
                ins: old(env)@.ins.update(n as int, rest),
                ..old(env)@
            })
        }),
{
    proof {
        lemma_view_bytes_seq(env.ins@);
    }
    let buf = clone_bytes(&env.ins[n]);
    let ghost bv = buf@;
    let cut: usize = if chars < 0 {
        // Scan for the first newline; take through it.
        let mut i: usize = 0;
        while i < buf.len() && buf[i] != 10
            invariant
                i <= bv.len(),
                bv == buf@,
                forall|j: int| 0 <= j < i ==> bv[j] != 10,
                choose_newline(bv, 0) == choose_newline(bv, i as int),
            decreases bv.len() - i,
        {
            i += 1;
        }
        if i < buf.len() {
            i + 1
        } else {
            i
        }
    } else if chars == i64::MAX {
        buf.len()
    } else {
        if (chars as u64) <= (buf.len() as u64) {
            chars as usize
        } else {
            buf.len()
        }
    };
    let mut taken: Vec<u8> = Vec::new();
    let mut i: usize = 0;
    while i < cut
        invariant
            cut <= bv.len(),
            bv == buf@,
            i <= cut,
            taken@ == bv.subrange(0, i as int),
        decreases cut - i,
    {
        taken.push(buf[i]);
        proof {
            assert(taken@ =~= bv.subrange(0, i + 1));
        }
        i += 1;
    }
    let mut rest: Vec<u8> = Vec::new();
    let mut j: usize = cut;
    while j < buf.len()
        invariant
            cut <= j <= bv.len(),
            bv == buf@,
            rest@ == bv.subrange(cut as int, j as int),
        decreases bv.len() - j,
    {
        rest.push(buf[j]);
        proof {
            assert(rest@ =~= bv.subrange(cut as int, j + 1));
        }
        j += 1;
    }
    env.ins.set(n, rest);
    proof {
        lemma_view_bytes_seq(env.ins@);
        lemma_view_bytes_seq(old(env).ins@);
        let (st, sr) = in_split(bv, chars as int);
        assert(taken@ =~= st);
        assert(bv.subrange(cut as int, bv.len() as int) =~= sr);
        assert(env@ =~= (EnvV {
            ins: old(env)@.ins.update(n as int, sr),
            ..old(env)@
        }));
    }
    taken
}

/// The environment-touching primitives, mirroring the specification.
#[verifier::rlimit(100)]
#[verifier::spinoff_prover]
pub fn prim_env_x(v: &Val, a: Val, b: Option<Val>, env: &mut Env) -> (r: Val)
    ensures
        ({
            let (rv, ev) = spec_prim_env(v@, a@, vopt(b), old(env)@);
            r@ == rv && final(env)@ == ev
        }),
        final(env)@.frames.len() == old(env)@.frames.len(),
{
    let ghost ga = a@;
    let ghost gb = vopt(b);
    let b_some = b.is_some();
    let ba = match b {
        Option::Some(x) => x,
        Option::None => Val::Und,
    };
    let ghost gbav = ba@;
    proof {
        crate::val::lemma_view_variants(a);
        crate::val::lemma_view_variants(ba);
        crate::val::lemma_view_variants(*v);
        assert(gbav == gb.unwrap_or(ValV::Und));
    }
    match v {
        Val::FSet(name) => {
            let r = if b_some {
                ba
            } else {
                a.dup()
            };
            let ghost gr = r@;
            if env.frames.len() > 0 {
                env.set_local(clone_bytes(name), a);
                proof {
                    assert(env@ =~= env_set_local(old(env)@, name@, ga));
                }
            } else {
                proof {
                    assert(env@ =~= env_set_local(old(env)@, name@, ga));
                }
            }
            r
        },
        Val::FCng(name) => {
            proof {
                crate::env::lemma_scopes_mutate_len(
                    old(env)@.frames,
                    name@,
                    ga,
                );
            }
            match env.mutate_var(name, a) {
                Option::Some(r) => {
                    proof {
                        assert(env@ =~= (EnvV {
                            frames: env@.frames,
                            ..old(env)@
                        }));
                    }
                    r
                },
                Option::None => Val::Und,
            }
        },
        Val::SetVar => {
            if a.is_finite() {
                let es = elems_of(&a);
                let name = scalar_bytes_of(&es);
                let r = ba.dup();
                if env.frames.len() > 0 {
                    env.set_local(name, ba);
                    proof {
                        assert(env@ =~= env_set_local(
                            old(env)@,
                            scalar_bytes(elems(ga)),
                            gbav,
                        ));
                    }
                } else {
                    proof {
                        assert(env@ =~= env_set_local(
                            old(env)@,
                            scalar_bytes(elems(ga)),
                            gbav,
                        ));
                    }
                }
                r
            } else {
                Val::Und
            }
        },
        Val::Get => {
            if a.is_finite() {
                let es = elems_of(&a);
                let name = scalar_bytes_of(&es);
                match env.get_var(&name) {
                    Option::Some(r) => r,
                    Option::None => Val::Und,
                }
            } else {
                Val::Und
            }
        },
        Val::Print => {
            let bytes = display_of(&a);
            out_write_x(env, 0, &bytes);
            if b_some {
                ba
            } else {
                a
            }
        },
        Val::Println => {
            let mut bytes = display_of(&a);
            bytes.push(10u8);
            out_write_x(env, 0, &bytes);
            if b_some {
                ba
            } else {
                a
            }
        },
        Val::Exit => match &a {
            Val::Int(n) => Val::Halt(*n),
            _ => {
                let mut bytes = display_of(&a);
                bytes.push(10u8);
                out_write_x(env, 1, &bytes);
                Val::Halt(1)
            },
        },
        Val::Out => match (&ba) {
            Val::Int(n) => {
                proof {
                    lemma_view_bytes_seq(env.outs@);
                }
                if *n >= 0 && (*n as u64) < (env.outs.len() as u64)
                    && a.is_finite() {
                    let es = elems_of(&a);
                    let bytes = scalar_bytes_of(&es);
                    let count: i64 = if (bytes.len() as u64) > (i64::MAX
                        as u64) {
                        i64::MAX
                    } else {
                        bytes.len() as i64
                    };
                    out_write_x(env, *n as usize, &bytes);
                    Val::Int(count)
                } else {
                    Val::Und
                }
            },
            _ => Val::Und,
        },
        Val::In => match (&a, &ba) {
            (Val::Int(chars), Val::Int(n)) => {
                proof {
                    lemma_view_bytes_seq(env.ins@);
                }
                if *n >= 0 && (*n as u64) < (env.ins.len() as u64) {
                    let taken = in_read_x(env, *chars, *n as usize);
                    let r = Val::lis(byte_vals_x(&taken));
                    proof {
                        let (rv, ev) = spec_prim_env(
                            ValV::In,
                            ga,
                            gb,
                            old(env)@,
                        );
                        assert(r@ =~~= rv);
                        assert(env@ =~= ev);
                    }
                    r
                } else {
                    Val::Und
                }
            },
            _ => Val::Und,
        },
        Val::Deal => match (&a, &ba) {
            (Val::Int(x), Val::Int(y)) => {
                let k0: u64 = if *y >= 0 {
                    *y as u64
                } else {
                    0
                };
                if *x <= 0 {
                    let mut out: Vec<Val> = Vec::new();
                    let mut i: u64 = 0;
                    while i < k0
                        invariant
                            i <= k0,
                            out@.len() == i,
                            forall|j: int|
                                0 <= j < i ==> #[trigger] view_val(out@[j])
                                    == ValV::Und,
                        decreases k0 - i,
                    {
                        out.push(Val::Und);
                        i += 1;
                    }
                    let ghost gout = out@;
                    let r = Val::lis(out);
                    proof {
                        lemma_view_val_seq(gout);
                        assert(view_val_seq(gout) =~= Seq::new(
                            k0 as nat,
                            |j: int| ValV::Und,
                        ));
                        let (rv, ev) = spec_prim_env(
                            ValV::Deal,
                            ga,
                            gb,
                            old(env)@,
                        );
                        assert(r@ =~~= rv);
                    }
                    return r;
                }
                if *x > 0 {
                    let k: u64 = if *y >= 0 {
                        *y as u64
                    } else {
                        0
                    };
                    let seed0 = env.seed;
                    let mut out: Vec<Val> = Vec::new();
                    let mut i: u64 = 0;
                    while i < k
                        invariant
                            i <= k,
                            *x > 0,
                            out@.len() == i,
                            view_val_seq(out@) == deal_seq(
                                seed0,
                                *x as u64,
                                i as nat,
                            ),
                        decreases k - i,
                    {
                        let ghost before = out@;
                        let s = seed_plus(seed0, i);
                        let d = rand_below(s, *x as u64);
                        out.push(Val::Int(d as i64));
                        proof {
                            lemma_view_val_seq(out@);
                            lemma_view_val_seq(before);
                            assert(out@.subrange(0, out@.len() - 1)
                                =~= before);
                            assert(view_val_seq(out@) =~= deal_seq(
                                seed0,
                                *x as u64,
                                (i + 1) as nat,
                            ));
                        }
                        i += 1;
                    }
                    env.seed = seed_plus(seed0, k);
                    let ghost gout = out@;
                    let r = Val::lis(out);
                    proof {
                        lemma_view_val_seq(gout);
                        let (rv, ev) = spec_prim_env(
                            ValV::Deal,
                            ga,
                            gb,
                            old(env)@,
                        );
                        assert(r@ =~~= rv);
                        assert(env@ =~= ev);
                    }
                    r
                } else {
                    Val::Und
                }
            },
            _ => Val::Und,
        },
        Val::Sample => match (&a, &ba) {
            (Val::Int(x), Val::Int(y)) => {
                if *x >= 0 && *y >= 0 {
                    let k: i64 = if *y <= *x {
                        *y
                    } else {
                        *x
                    };
                    if (*x as u64) > (usize::MAX as u64) {
                        Val::Und
                    } else {
                        let xv: i64 = *x;
                        let idxs = sample_idx(
                            env.seed,
                            xv as usize,
                            k as usize,
                        );
                        let mut out: Vec<Val> = Vec::new();
                        let mut i: usize = 0;
                        while i < idxs.len()
                            invariant
                                i <= idxs@.len(),
                                0 <= xv,
                                (xv as u64) <= (usize::MAX as u64),
                                forall|j: int|
                                    0 <= j < idxs@.len()
                                        ==> ((#[trigger] idxs@[j]) as u64)
                                        < (xv as u64),
                                out@.len() == i,
                                forall|j: int|
                                    0 <= j < i ==> #[trigger] view_val(
                                        out@[j],
                                    ) == ValV::Int(idxs@[j] as int),
                            decreases idxs@.len() - i,
                        {
                            out.push(Val::Int(idxs[i] as i64));
                            i += 1;
                        }
                        env.seed = seed_plus(env.seed, 1);
                        let ghost gout = out@;
                        let r = Val::lis(out);
                        proof {
                            lemma_view_val_seq(gout);
                            let (rv, ev) = spec_prim_env(
                                ValV::Sample,
                                ga,
                                gb,
                                old(env)@,
                            );
                            assert(r@ matches ValV::Lis { l: rl, .. } && rl
                                =~= index_vals(sample_of(
                                old(env)@.seed,
                                *x as usize,
                                k as usize,
                            )));
                            assert(r@ =~~= rv);
                            assert(env@ =~= ev);
                        }
                        r
                    }
                } else {
                    Val::Und
                }
            },
            _ => Val::Und,
        },
        _ => Val::Und,
    }
}

} // verus!

verus! {

/// Pure indexing by position.
pub fn index_wide2(a: &Val, i: usize) -> (r: Val)
    requires
        a@.is_finite(),
    ensures
        r@ == a@.vindex(i as int),
{
    index_wide(a, i as i128)
}

/// Apply a possibly drilling index.
fn index1_x(a: &Val, n: &Val, env: &mut Env, fuel: u64) -> (r: Val)
    ensures
        ({
            let (rv, ev) = spec_index1(a@, n@, old(env)@, fuel as nat);
            r@ == rv && final(env)@ == ev
        }),
        final(env)@.frames.len() == old(env)@.frames.len(),
    decreases fuel,
{
    if fuel == 0 {
        return Val::Und;
    }
    let pure = match a {
        Val::Int(_) => true,
        Val::Und => true,
        Val::Lis { .. } => true,
        Val::DCycle(_) => true,
        _ => false,
    };
    proof {
        crate::val::lemma_view_variants(*a);
    }
    if pure {
        match n.try_int() {
            Option::Some(k) => index_signed(a, k),
            Option::None => Val::Und,
        }
    } else {
        a.call(env, n.dup(), Option::None, fuel - 1)
    }
}

/// Drill through one index after another.
fn index_list_x(
    a: Val,
    l: &Vec<Val>,
    pos: usize,
    env: &mut Env,
    fuel: u64,
) -> (r: Val)
    requires
        pos <= l@.len(),
    ensures
        ({
            let (rv, ev) = spec_index_list(
                a@,
                view_val_seq(l@).subrange(pos as int, l@.len() as int),
                old(env)@,
                fuel as nat,
            );
            r@ == rv && final(env)@ == ev
        }),
        final(env)@.frames.len() == old(env)@.frames.len(),
    decreases fuel,
{
    proof {
        lemma_view_val_seq(l@);
    }
    if fuel == 0 {
        return Val::Und;
    }
    if pos == l.len() {
        proof {
            assert(view_val_seq(l@).subrange(pos as int, l@.len() as int)
                =~= Seq::<ValV>::empty());
        }
        return a;
    }
    let x = index1_x(&a, &l[pos], env, fuel - 1);
    proof {
        let sub = view_val_seq(l@).subrange(pos as int, l@.len() as int);
        assert(sub[0] == view_val_seq(l@)[pos as int]);
        assert(sub.subrange(1, sub.len() as int) =~= view_val_seq(
            l@,
        ).subrange(pos + 1, l@.len() as int));
    }
    index_list_x(x, l, pos + 1, env, fuel - 1)
}

/// Index at depth: a list of indices drills one level per element.
fn index_depth_x(a: Val, idx: Val, env: &mut Env, fuel: u64) -> (r: Val)
    ensures
        ({
            let (rv, ev) = spec_index_depth(a@, idx@, old(env)@, fuel as nat);
            r@ == rv && final(env)@ == ev
        }),
        final(env)@.frames.len() == old(env)@.frames.len(),
    decreases fuel,
{
    if fuel == 0 {
        return Val::Und;
    }
    proof {
        crate::val::lemma_view_variants(idx);
    }
    match &idx {
        Val::Lis { l, .. } => {
            proof {
                lemma_view_val_seq(l@);
                assert(view_val_seq(l@).subrange(0, l@.len() as int)
                    =~= view_val_seq(l@));
            }
            index_list_x(a, &**l, 0, env, fuel - 1)
        },
        _ => index1_x(&a, &idx, env, fuel - 1),
    }
}

impl Val {
    /// Call this value on one argument and an optional second: the
    /// evaluator's central dispatch.
    #[verifier::rlimit(100)]
    #[verifier::spinoff_prover]
    pub fn call(&self, env: &mut Env, a: Val, b: Option<Val>, fuel: u64) -> (r:
        Val)
        ensures
            ({
                let (rv, ev) = spec_call(
                    self@,
                    a@,
                    vopt(b),
                    old(env)@,
                    fuel as nat,
                );
                r@ == rv && final(env)@ == ev
            }),
            final(env)@.frames.len() == old(env)@.frames.len(),
        decreases fuel,
    {
        if fuel == 0 {
            return Val::Und;
        }
        let f1 = fuel - 1;
        let ghost ga = a@;
        let ghost gb = vopt(b);
        proof {
            crate::val::lemma_view_variants(*self);
        }
        match self {
            Val::Int(_) => self.dup(),
            Val::Und => Val::Und,
            Val::Lis { .. } => self.dup(),
            Val::Halt(_) => self.dup(),
            Val::DCycle(l) => {
                proof {
                    lemma_view_val_seq(l@);
                }
                match a.try_int() {
                    Option::Some(n) => {
                        if l.len() > 0 && n >= 0 {
                            let k = ((n as u64) % (l.len() as u64)) as usize;
                            let r = l[k].dup();
                            proof {
                                assert(view_val_seq(l@)[k as int] == view_val(
                                    l@[k as int],
                                ));
                                assert(k as int == (n as int) % (
                                l@.len() as int));
                            }
                            r
                        } else {
                            Val::Und
                        }
                    },
                    Option::None => Val::Und,
                }
            },
            Val::Bind { f, b: bb } => (&**f).call(
                env,
                a,
                Option::Some((**bb).dup()),
                f1,
            ),
            Val::Trn2 { a: aa, f } => {
                let x = (&**aa).call(env, a, b, f1);
                (&**f).call(env, x, Option::None, f1)
            },
            Val::Trn3 { a: aa, f, b: bb } => {
                let x = (&**aa).call(env, a, b, f1);
                (&**f).call(env, x, Option::Some((**bb).dup()), f1)
            },
            Val::Fork { a: aa, f, b: bb } => {
                let l = (&**aa).call(env, a.dup(), dup_opt(&b), f1);
                let r2 = (&**bb).call(env, a, b, f1);
                (&**f).call(env, l, Option::Some(r2), f1)
            },
            Val::AvBuilder(t) => {
                let r = Val::Av(
                    *t,
                    match b {
                        Option::Some(x) => Option::Some(x.rc()),
                        Option::None => Option::None,
                    },
                    a.rc(),
                );
                proof {
                    assert(r@ =~~= spec_call(
                        self@,
                        ga,
                        gb,
                        old(env)@,
                        fuel as nat,
                    ).0);
                }
                r
            },
            Val::Av(t, ff, g) => t.call(env, a, b, ff.as_ref(), g, f1),
            Val::Dfn { s, loc } => {
                let b_some = b.is_some();
                let ba = match b {
                    Option::Some(x) => x,
                    Option::None => Val::Und,
                };
                let ghost gbav = ba@;
                let mut frame: Vec<Binding> = Vec::new();
                let mut i: usize = 0;
                while i < loc.len()
                    invariant
                        i <= loc@.len(),
                        *self matches Val::Dfn { loc: sl, .. } && sl == *loc,
                        frame@.len() == i,
                        forall|j: int|
                            0 <= j < i ==> #[trigger] crate::val::view_binding(
                                frame@[j],
                            ) == crate::val::view_binding(loc@[j]),
                    decreases loc@.len() - i,
                {
                    frame.push(loc[i].dup_binding());
                    i += 1;
                }
                let mut nm1: Vec<u8> = Vec::new();
                nm1.push(crate::token::B_SIGMA);
                frame.push(
                    Binding {
                        name: nm1,
                        val: Val::Int(if b_some { 2 } else { 1 }),
                    },
                );
                let mut nm2: Vec<u8> = Vec::new();
                nm2.push(crate::token::B_ALPHA);
                frame.push(Binding { name: nm2, val: a });
                let mut nm3: Vec<u8> = Vec::new();
                nm3.push(crate::token::B_BETA);
                frame.push(Binding { name: nm3, val: ba });
                let mut nm4: Vec<u8> = Vec::new();
                nm4.push(crate::token::B_SELF);
                frame.push(Binding { name: nm4, val: self.dup() });
                let ghost gframe = frame@;
                env.push_frame(frame);
                proof {
                    crate::val::lemma_view_bind_seq(gframe);
                    crate::val::lemma_view_bind_seq(loc@);
                    let specframe = view_bind_seq(loc@).push(
                        crate::val::BindV {
                            name: seq![crate::token::B_SIGMA],
                            val: ValV::Int(if gb is Some { 2int } else { 1int }),
                        },
                    ).push(
                        crate::val::BindV {
                            name: seq![crate::token::B_ALPHA],
                            val: ga,
                        },
                    ).push(
                        crate::val::BindV {
                            name: seq![crate::token::B_BETA],
                            val: gb.unwrap_or(ValV::Und),
                        },
                    ).push(
                        crate::val::BindV {
                            name: seq![crate::token::B_SELF],
                            val: self@,
                        },
                    );
                    assert(view_bind_seq(gframe) =~~= specframe);
                }
                proof {
                    crate::ast::lemma_view_ve_seq(s@);
                    assert(crate::ast::view_ve_seq(s@).subrange(
                        0,
                        s@.len() as int,
                    ) =~= crate::ast::view_ve_seq(s@));
                }
                let r = crate::eval::eval_block_from(s, 0, env, f1);
                env.pop_frame();
                proof {
                    let (rv, ev) = spec_call(
                        self@,
                        ga,
                        gb,
                        old(env)@,
                        fuel as nat,
                    );
                    assert(env@ =~= ev);
                }
                r
            },
            Val::Index => {
                let ba = match b {
                    Option::Some(x) => x,
                    Option::None => Val::Und,
                };
                index_depth_x(a, ba, env, f1)
            },
            Val::Call => {
                let ba = match b {
                    Option::Some(x) => x,
                    Option::None => Val::Und,
                };
                proof {
                    crate::val::lemma_view_variants(ba);
                }
                if ba.is_scalar() {
                    let func = a;
                    (&func).call(env, ba, Option::None, f1)
                } else {
                    match &ba {
                        Val::Lis { l, .. } => {
                            proof {
                                lemma_view_val_seq(l@);
                            }
                            let arg1 = ba.index_pure(0);
                            let arg2 = if l.len() > 1 {
                                Option::Some(ba.index_pure(1))
                            } else {
                                Option::None
                            };
                            let func = a;
                            (&func).call(env, arg1, arg2, f1)
                        },
                        _ => Val::Und,
                    }
                }
            },
            Val::FSet(_) => prim_env_x(self, a, b, env),
            Val::FCng(_) => prim_env_x(self, a, b, env),
            Val::SetVar => prim_env_x(self, a, b, env),
            Val::Get => prim_env_x(self, a, b, env),
            Val::Print => prim_env_x(self, a, b, env),
            Val::Println => prim_env_x(self, a, b, env),
            Val::Exit => prim_env_x(self, a, b, env),
            Val::Out => prim_env_x(self, a, b, env),
            Val::In => prim_env_x(self, a, b, env),
            Val::Deal => prim_env_x(self, a, b, env),
            Val::Sample => prim_env_x(self, a, b, env),
            _ => prim_x(self, a, b),
        }
    }

    /// Monadic application with the default fuel.
    pub fn monad(&self, env: &mut Env, a: Val) -> (r: Val)
        ensures
            ({
                let (rv, ev) = spec_call(
                    self@,
                    a@,
                    Option::None,
                    old(env)@,
                    DEFAULT_FUEL as nat,
                );
                r@ == rv && final(env)@ == ev
            }),
            final(env)@.frames.len() == old(env)@.frames.len(),
    {
        self.call(env, a, Option::None, DEFAULT_FUEL)
    }

    /// Dyadic application with the default fuel.
    pub fn dyad(&self, env: &mut Env, a: Val, b: Val) -> (r: Val)
        ensures
            ({
                let (rv, ev) = spec_call(
                    self@,
                    a@,
                    Option::Some(b@),
                    old(env)@,
                    DEFAULT_FUEL as nat,
                );
                r@ == rv && final(env)@ == ev
            }),
            final(env)@.frames.len() == old(env)@.frames.len(),
    {
        self.call(env, a, Option::Some(b), DEFAULT_FUEL)
    }
}

} // verus!

verus! {

/// Splitting an insertion at the first position whose key is not below
/// the inserted one.
proof fn lemma_insert_split(x: int, s: Seq<int>, k: int)
    requires
        0 <= k <= s.len(),
        forall|j: int| 0 <= j < k ==> s[j] < x,
        k < s.len() ==> x <= s[k],
    ensures
        insert_sorted(x, s) == s.subrange(0, k) + seq![x] + s.subrange(
            k,
            s.len() as int,
        ),
    decreases k,
{
    if k == 0 {
        assert(insert_sorted(x, s) =~= s.subrange(0, 0) + seq![x] + s.subrange(
            0,
            s.len() as int,
        ));
    } else {
        let rest = s.subrange(1, s.len() as int);
        lemma_insert_split(x, rest, k - 1);
        assert(rest.subrange(0, k - 1) =~= s.subrange(1, k));
        assert(rest.subrange(k - 1, rest.len() as int) =~= s.subrange(
            k,
            s.len() as int,
        ));
        assert(seq![s[0]] + (rest.subrange(0, k - 1) + seq![x] + rest.subrange(
            k - 1,
            rest.len() as int,
        )) =~= s.subrange(0, k) + seq![x] + s.subrange(k, s.len() as int));
    }
}

/// Insert a key into an ascending run, iteratively.
fn insert_sorted_x(x: i64, s: &Vec<i64>) -> (r: Vec<i64>)
    ensures
        r@.map_values(|v: i64| v as int) == insert_sorted(
            x as int,
            s@.map_values(|v: i64| v as int),
        ),
{
    let ghost sv = s@.map_values(|v: i64| v as int);
    let mut k: usize = 0;
    while k < s.len() && s[k] < x
        invariant
            k <= s@.len(),
            sv == s@.map_values(|v: i64| v as int),
            forall|j: int| 0 <= j < k ==> sv[j] < x as int,
        decreases s@.len() - k,
    {
        k += 1;
    }
    proof {
        lemma_insert_split(x as int, sv, k as int);
    }
    let mut out: Vec<i64> = Vec::new();
    let mut i: usize = 0;
    while i < k
        invariant
            i <= k <= s@.len(),
            out@ == s@.subrange(0, i as int),
        decreases k - i,
    {
        out.push(s[i]);
        proof {
            assert(out@ =~= s@.subrange(0, i + 1));
        }
        i += 1;
    }
    out.push(x);
    let mut j: usize = k;
    while j < s.len()
        invariant
            k <= j <= s@.len(),
            out@ == s@.subrange(0, k as int) + seq![x] + s@.subrange(
                k as int,
                j as int,
            ),
        decreases s@.len() - j,
    {
        out.push(s[j]);
        proof {
            assert(out@ =~= s@.subrange(0, k as int) + seq![x] + s@.subrange(
                k as int,
                j + 1,
            ));
        }
        j += 1;
    }
    proof {
        assert(out@ =~= s@.subrange(0, k as int) + seq![x] + s@.subrange(
            k as int,
            s@.len() as int,
        ));
        assert(out@.map_values(|v: i64| v as int) =~= insert_sorted(
            x as int,
            sv,
        ));
    }
    out
}

/// Ascending insertion sort of integer keys, iteratively from the end.
fn sort_ints_x(s: &Vec<i64>) -> (r: Vec<i64>)
    ensures
        r@.map_values(|v: i64| v as int) == sort_ints(
            s@.map_values(|v: i64| v as int),
        ),
{
    let ghost sv = s@.map_values(|v: i64| v as int);
    let mut acc: Vec<i64> = Vec::new();
    let mut i: usize = s.len();
    proof {
        assert(sv.subrange(s@.len() as int, s@.len() as int) =~= Seq::<
            int,
        >::empty());
        assert(acc@.map_values(|v: i64| v as int) =~= sort_ints(
            sv.subrange(s@.len() as int, s@.len() as int),
        ));
    }
    while i > 0
        invariant
            i <= s@.len(),
            sv == s@.map_values(|v: i64| v as int),
            acc@.map_values(|v: i64| v as int) == sort_ints(
                sv.subrange(i as int, sv.len() as int),
            ),
        decreases i,
    {
        let acc2 = insert_sorted_x(s[i - 1], &acc);
        proof {
            let sub = sv.subrange(i - 1, sv.len() as int);
            assert(sub[0] == sv[i - 1]);
            assert(sub.subrange(1, sub.len() as int) =~= sv.subrange(
                i as int,
                sv.len() as int,
            ));
        }
        acc = acc2;
        i -= 1;
    }
    proof {
        assert(sv.subrange(0, sv.len() as int) =~= sv);
    }
    acc
}

/// The integer keys of a list of values, if every element is exact.
fn ints_of_x(l: &Vec<Val>) -> (r: Option<Vec<i64>>)
    ensures
        match r {
            Option::Some(xs) => ints_of(view_val_seq(l@)) == Option::Some(
                xs@.map_values(|v: i64| v as int),
            ),
            Option::None => ints_of(view_val_seq(l@)) is None,
        },
{
    proof {
        lemma_view_val_seq(l@);
    }
    let ghost lv = view_val_seq(l@);
    let mut out: Vec<i64> = Vec::new();
    proof {
        assert(lv.subrange(0, lv.len() as int) =~= lv);
        assert(out@.map_values(|v: i64| v as int) =~= Seq::<int>::empty());
        match ints_of(lv) {
            Option::Some(xs) => {
                assert(Seq::<int>::empty() + xs =~= xs);
            },
            Option::None => {},
        }
    }
    let mut i: usize = 0;
    while i < l.len()
        invariant
            i <= l@.len(),
            lv == view_val_seq(l@),
            lv.len() == l@.len(),
            forall|j: int|
                0 <= j < l@.len() ==> #[trigger] lv[j] == view_val(l@[j]),
            out@.len() == i,
            ints_of(lv) == (match ints_of(lv.subrange(i as int, lv.len() as int)) {
                Option::Some(rest) => Option::Some(
                    out@.map_values(|v: i64| v as int) + rest,
                ),
                Option::None => Option::None::<Seq<int>>,
            }),
        decreases l@.len() - i,
    {
        match &l[i] {
            Val::Int(x) => {
                let ghost before = out@;
                out.push(*x);
                proof {
                    let sub = lv.subrange(i as int, lv.len() as int);
                    assert(sub[0] == lv[i as int]);
                    assert(sub.subrange(1, sub.len() as int) =~= lv.subrange(
                        i + 1,
                        lv.len() as int,
                    ));
                    assert(out@ =~= before.push(*x));
                    match ints_of(lv.subrange(i + 1, lv.len() as int)) {
                        Option::Some(rest) => {
                            assert(before.map_values(|v: i64| v as int) + (
                            seq![*x as int] + rest) =~= out@.map_values(
                                |v: i64| v as int,
                            ) + rest);
                        },
                        Option::None => {},
                    }
                }
                i += 1;
            },
            _ => {
                proof {
                    let sub = lv.subrange(i as int, lv.len() as int);
                    assert(sub[0] == lv[i as int]);
                }
                return Option::None;
            },
        }
    }
    proof {
        assert(lv.subrange(lv.len() as int, lv.len() as int) =~= Seq::<
            ValV,
        >::empty());
        match ints_of(lv) {
            Option::Some(xs) => {
                assert(out@.map_values(|v: i64| v as int) + Seq::<
                    int,
                >::empty() =~= out@.map_values(|v: i64| v as int));
            },
            Option::None => {},
        }
    }
    Option::Some(out)
}

/// Keys back into a value list.
fn int_vals_x(s: &Vec<i64>) -> (r: Vec<Val>)
    ensures
        view_val_seq(r@) == int_vals(s@.map_values(|v: i64| v as int)),
{
    let mut out: Vec<Val> = Vec::new();
    let mut i: usize = 0;
    while i < s.len()
        invariant
            i <= s@.len(),
            out@.len() == i,
            forall|j: int|
                0 <= j < i ==> #[trigger] view_val(out@[j]) == ValV::Int(
                    s@[j] as int,
                ),
        decreases s@.len() - i,
    {
        out.push(Val::Int(s[i]));
        i += 1;
    }
    proof {
        lemma_view_val_seq(out@);
        assert(view_val_seq(out@) =~= int_vals(
            s@.map_values(|v: i64| v as int),
        ));
    }
    out
}

} // verus!

verus! {

/// Splitting a stable ascending-grade insertion at the first grade entry
/// whose key exceeds the inserted one.
proof fn lemma_grade_split_up(i: int, keys: Seq<int>, g: Seq<int>, k: int)
    requires
        0 <= i < keys.len(),
        forall|m: int| 0 <= m < g.len() ==> 0 <= #[trigger] g[m] < keys.len(),
        0 <= k <= g.len(),
        forall|j: int| 0 <= j < k ==> !(keys[i] < keys[#[trigger] g[j]]),
        k < g.len() ==> keys[i] < keys[g[k]],
    ensures
        insert_grade_up(i, keys, g) == g.subrange(0, k) + seq![i] + g.subrange(
            k,
            g.len() as int,
        ),
    decreases k,
{
    if k == 0 {
        assert(insert_grade_up(i, keys, g) =~= g.subrange(0, 0) + seq![i]
            + g.subrange(0, g.len() as int));
    } else {
        let rest = g.subrange(1, g.len() as int);
        lemma_grade_split_up(i, keys, rest, k - 1);
        assert(rest.subrange(0, k - 1) =~= g.subrange(1, k));
        assert(rest.subrange(k - 1, rest.len() as int) =~= g.subrange(
            k,
            g.len() as int,
        ));
        assert(seq![g[0]] + (rest.subrange(0, k - 1) + seq![i]
            + rest.subrange(k - 1, rest.len() as int)) =~= g.subrange(0, k)
            + seq![i] + g.subrange(k, g.len() as int));
    }
}

/// The same split for the descending grade.
proof fn lemma_grade_split_down(i: int, keys: Seq<int>, g: Seq<int>, k: int)
    requires
        0 <= i < keys.len(),
        forall|m: int| 0 <= m < g.len() ==> 0 <= #[trigger] g[m] < keys.len(),
        0 <= k <= g.len(),
        forall|j: int| 0 <= j < k ==> !(keys[i] > keys[#[trigger] g[j]]),
        k < g.len() ==> keys[i] > keys[g[k]],
    ensures
        insert_grade_down(i, keys, g) == g.subrange(0, k) + seq![i]
            + g.subrange(k, g.len() as int),
    decreases k,
{
    if k == 0 {
        assert(insert_grade_down(i, keys, g) =~= g.subrange(0, 0) + seq![i]
            + g.subrange(0, g.len() as int));
    } else {
        let rest = g.subrange(1, g.len() as int);
        lemma_grade_split_down(i, keys, rest, k - 1);
        assert(rest.subrange(0, k - 1) =~= g.subrange(1, k));
        assert(rest.subrange(k - 1, rest.len() as int) =~= g.subrange(
            k,
            g.len() as int,
        ));
        assert(seq![g[0]] + (rest.subrange(0, k - 1) + seq![i]
            + rest.subrange(k - 1, rest.len() as int)) =~= g.subrange(0, k)
            + seq![i] + g.subrange(k, g.len() as int));
    }
}


/// The key a grade entry points at.
fn key_at(keys: &Vec<i64>, g: &Vec<i64>, k: usize) -> (r: i64)
    requires
        k < g@.len(),
        forall|m: int|
            0 <= m < g@.len() ==> 0 <= #[trigger] g@[m] < keys@.len(),
    ensures
        r as int == keys@.map_values(|v: i64| v as int)[g@.map_values(
            |v: i64| v as int,
        )[k as int]],
{
    // Materialize the key count so the index cast below is in range.
    let kl = keys.len();
    let gi = g[k];
    proof {
        assert(g@[k as int] < kl as int);
    }
    proof {
        assert(0 <= g@[k as int] < keys@.len());
    }
    keys[gi as usize]
}

/// Insert one index into a grade, iteratively and stably.
fn insert_grade_x(idx: usize, keys: &Vec<i64>, g: &Vec<i64>, up: bool) -> (r:
    Vec<i64>)
    requires
        idx < keys@.len(),
        keys@.len() <= i64::MAX,
        forall|m: int|
            0 <= m < g@.len() ==> 0 <= #[trigger] g@[m] < keys@.len(),
    ensures
        up ==> r@.map_values(|v: i64| v as int) == insert_grade_up(
            idx as int,
            keys@.map_values(|v: i64| v as int),
            g@.map_values(|v: i64| v as int),
        ),
        !up ==> r@.map_values(|v: i64| v as int) == insert_grade_down(
            idx as int,
            keys@.map_values(|v: i64| v as int),
            g@.map_values(|v: i64| v as int),
        ),
        r@.len() == g@.len() + 1,
        forall|m: int|
            0 <= m < r@.len() ==> 0 <= #[trigger] r@[m] < keys@.len(),
{
    let ghost kv = keys@.map_values(|v: i64| v as int);
    let ghost gv = g@.map_values(|v: i64| v as int);
    let key = keys[idx];
    let mut k: usize = 0;
    if up {
        while k < g.len() && !(key < key_at(keys, g, k))
            invariant
                k <= g@.len(),
                idx < keys@.len(),
                kv == keys@.map_values(|v: i64| v as int),
                gv == g@.map_values(|v: i64| v as int),
                key == keys@[idx as int],
                forall|m: int|
                    0 <= m < g@.len() ==> 0 <= #[trigger] g@[m]
                        < keys@.len(),
                forall|j: int|
                    0 <= j < k ==> !(kv[idx as int] < kv[#[trigger] gv[j]]),
            decreases g@.len() - k,
        {
            k += 1;
        }
    } else {
        while k < g.len() && !(key > key_at(keys, g, k))
            invariant
                k <= g@.len(),
                idx < keys@.len(),
                kv == keys@.map_values(|v: i64| v as int),
                gv == g@.map_values(|v: i64| v as int),
                key == keys@[idx as int],
                forall|m: int|
                    0 <= m < g@.len() ==> 0 <= #[trigger] g@[m]
                        < keys@.len(),
                forall|j: int|
                    0 <= j < k ==> !(kv[idx as int] > kv[#[trigger] gv[j]]),
            decreases g@.len() - k,
        {
            k += 1;
        }
    }
    proof {
        if up {
            lemma_grade_split_up(idx as int, kv, gv, k as int);
        } else {
            lemma_grade_split_down(idx as int, kv, gv, k as int);
        }
    }
    let mut out: Vec<i64> = Vec::new();
    let mut i: usize = 0;
    while i < k
        invariant
            i <= k <= g@.len(),
            out@ == g@.subrange(0, i as int),
        decreases k - i,
    {
        out.push(g[i]);
        proof {
            assert(out@ =~= g@.subrange(0, i + 1));
        }
        i += 1;
    }
    out.push(idx as i64);
    let mut j: usize = k;
    while j < g.len()
        invariant
            k <= j <= g@.len(),
            idx < keys@.len(),
            keys@.len() <= i64::MAX,
            out@ == g@.subrange(0, k as int) + seq![idx as i64] + g@.subrange(
                k as int,
                j as int,
            ),
        decreases g@.len() - j,
    {
        out.push(g[j]);
        proof {
            assert(out@ =~= g@.subrange(0, k as int) + seq![idx as i64]
                + g@.subrange(k as int, j + 1));
        }
        j += 1;
    }
    proof {
        assert(out@ =~= g@.subrange(0, k as int) + seq![idx as i64]
            + g@.subrange(k as int, g@.len() as int));
        assert(out@.map_values(|v: i64| v as int) =~= gv.subrange(0, k as int)
            + seq![idx as int] + gv.subrange(k as int, gv.len() as int));
    }
    out
}

/// The grade of integer keys: the stable sorting permutation.
fn grade_x(keys: &Vec<i64>, up: bool) -> (r: Vec<i64>)
    requires
        keys@.len() <= i64::MAX,
    ensures
        up ==> r@.map_values(|v: i64| v as int) == grade_up_ints(
            keys@.map_values(|v: i64| v as int),
            keys@.len() as int,
        ),
        !up ==> r@.map_values(|v: i64| v as int) == grade_down_ints(
            keys@.map_values(|v: i64| v as int),
            keys@.len() as int,
        ),
{
    let ghost kv = keys@.map_values(|v: i64| v as int);
    let mut acc: Vec<i64> = Vec::new();
    proof {
        assert(acc@.map_values(|v: i64| v as int) =~= Seq::<int>::empty());
    }
    let mut i: usize = 0;
    while i < keys.len()
        invariant
            i <= keys@.len(),
            keys@.len() <= i64::MAX,
            kv == keys@.map_values(|v: i64| v as int),
            acc@.len() == i,
            forall|m: int|
                0 <= m < acc@.len() ==> 0 <= #[trigger] acc@[m]
                    < keys@.len(),
            up ==> acc@.map_values(|v: i64| v as int) == grade_up_ints(
                kv,
                i as int,
            ),
            !up ==> acc@.map_values(|v: i64| v as int) == grade_down_ints(
                kv,
                i as int,
            ),
        decreases keys@.len() - i,
    {
        acc = insert_grade_x(i, keys, &acc, up);
        i += 1;
    }
    acc
}

} // verus!

verus! {

/// Sort a value: scalars stand, integer lists sort, anything else is
/// undefined.
fn sort_prim(a: Val, up: bool) -> (r: Val)
    ensures
        up ==> r@ == spec_prim(ValV::SortUp, a@, Option::None),
        !up ==> r@ == spec_prim(ValV::SortDown, a@, Option::None),
{
    let ghost ga = a@;
    match &a {
        Val::Int(_) => a.dup(),
        Val::Und => Val::Und,
        Val::Lis { l, fill } => match ints_of_x(&**l) {
            Option::Some(xs) => {
                let sorted = sort_ints_x(&xs);
                let keys = if up {
                    sorted
                } else {
                    let mut rev: Vec<i64> = Vec::new();
                    let n = sorted.len();
                    let mut i: usize = 0;
                    while i < n
                        invariant
                            i <= n,
                            n == sorted@.len(),
                            rev@.len() == i,
                            forall|j: int|
                                0 <= j < i ==> #[trigger] rev@[j] == sorted@[
                                    n - 1 - j
                                ],
                        decreases n - i,
                    {
                        rev.push(sorted[n - 1 - i]);
                        i += 1;
                    }
                    proof {
                        assert(rev@ =~= sorted@.reverse());
                        assert(rev@.map_values(|v: i64| v as int)
                            =~= sorted@.map_values(
                            |v: i64| v as int,
                        ).reverse());
                    }
                    rev
                };
                let vals = int_vals_x(&keys);
                let ghost gvals = vals@;
                let r = Val::Lis { l: Rc::new(vals), fill: rc_dup(fill) };
                proof {
                    if up {
                        assert(r@ =~~= spec_prim(
                            ValV::SortUp,
                            ga,
                            Option::None,
                        ));
                    } else {
                        assert(r@ =~~= spec_prim(
                            ValV::SortDown,
                            ga,
                            Option::None,
                        ));
                    }
                }
                r
            },
            Option::None => Val::Und,
        },
        _ => {
            proof {
                crate::val::lemma_view_variants(a);
            }
            Val::Und
        },
    }
}

/// Grade a value: the stable sorting permutation of an integer list.
fn grade_prim(a: Val, up: bool) -> (r: Val)
    ensures
        up ==> r@ == spec_prim(ValV::GradeUp, a@, Option::None),
        !up ==> r@ == spec_prim(ValV::GradeDown, a@, Option::None),
{
    let ghost ga = a@;
    match &a {
        Val::Lis { l, .. } => match ints_of_x(&**l) {
            Option::Some(xs) => {
                if (xs.len() as u64) > (i64::MAX as u64) {
                    return Val::Und;
                }
                let g = grade_x(&xs, up);
                let vals = int_vals_x(&g);
                let ghost gvals = vals@;
                let r = Val::lis(vals);
                proof {
                    if up {
                        assert(r@ =~~= spec_prim(
                            ValV::GradeUp,
                            ga,
                            Option::None,
                        ));
                    } else {
                        assert(r@ =~~= spec_prim(
                            ValV::GradeDown,
                            ga,
                            Option::None,
                        ));
                    }
                }
                r
            },
            Option::None => Val::Und,
        },
        _ => {
            proof {
                crate::val::lemma_view_variants(a);
            }
            Val::Und
        },
    }
}

} // verus!
