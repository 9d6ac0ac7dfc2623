//! Bitwise AND, OR, XOR and NOT, shifts, rotations, counting leading/trailing zeroes and
//! counting ones.

use vstd::prelude::*;

use crate::codegen::lambda::{
    abs1, abs2, abs_t, app_t, app2_t, apply1, apply2, bit, bit_t, lets_t, list,
    number, rec, rec_t, select, select_t, var, var_string, var_t, Expr, LetExprBuilder, Term,
};
use crate::codegen::lambda::number::p2;
use crate::codegen::runtime::math::arithmetic::{
    increment, inc_st, lemma_inc_ordered, lemma_negate_ordered, negate, negate_st, negate_t,
};
use crate::codegen::runtime::math::conversions::{
    lemma_widen_ordered, lemma_wrap_ordered, lemma_wsgnext_ordered, widen_and_sign_extend_i32,
    widen_and_sign_extend_i64, widen_i32, widen_i64, widen_st, wrap_i32, wrap_i64, wrap_st, wrap_t,
    wsgnext_st,
};
use crate::codegen::runtime::math::{bit_and, bit_and_t, bit_not, bit_not_t, bit_or, bit_or_t, bit_xor, bit_xor_t};
use crate::codegen::lambda::scope::{defs_ok, env_with, lemma_defs_concat, lemma_lets_scoped, scoped};
use crate::codegen::runtime::{
    core_names_in, grows, in_scope, lemma_core_names, lemma_grows_def, lemma_grows_def_rec, lemma_grows_num,
    lemma_grows_pair, lemma_grows_refl, lemma_grows_trans, lemma_has_in_scope, num_t, rt_ok,
    RtState, RuntimeGenerator,
};
use crate::codegen::text::{dec_name, dec_t};

verus! {

pub open spec fn inv_helper_t() -> Term {
    abs_t("a"@, select_t(
        list::is_not_empty_t(var_t("a"@)),
        list::empty_t(),
        list::node_t(bit_not_t(list::head_t(var_t("a"@))), app_t(rec_t(var_t("_INV"@)), list::tail_t(var_t("a"@)))),
    ))
}

pub open spec fn inv_st(s: RtState) -> RtState {
    if s.has("INV"@) {
        s
    } else {
        s.def_rec("_INV"@, inv_helper_t()).def("INV"@, rec_t(var_t("_INV"@)))
    }
}

/// Applies bit NOT to every bit.
pub fn invert(rt: &mut RuntimeGenerator, a: Expr) -> (e: Expr)
    requires
        old(rt).wf(),
    ensures
        final(rt).wf(),
        final(rt).st() == inv_st(old(rt).st()),
        e@ == app_t(var_t("INV"@), a@),
{
    if !rt.has("INV") {
        let body = select(
            list::is_not_empty(var("a")),
            list::empty(),
            list::node(bit_not(list::get_head(var("a"))), apply1(rec(var("_INV")), list::get_tail(var("a")))),
        );
        rt.def_rec("_INV", abs1("a", body));
        rt.def("INV", rec(var("_INV")));
    }
    apply1(var("INV"), a)
}


/// A bitwise operation on two numbers.
#[derive(PartialEq, Eq, Structural, Clone, Copy)]
pub enum BitOp {
    And,
    Or,
    Xor,
}

pub open spec fn bitop_name(op: BitOp) -> Seq<char> {
    match op {
        BitOp::And => "AND"@,
        BitOp::Or => "OR"@,
        BitOp::Xor => "XOR"@,
    }
}

pub open spec fn bitop_helper_name(op: BitOp) -> Seq<char> {
    match op {
        BitOp::And => "_AND"@,
        BitOp::Or => "_OR"@,
        BitOp::Xor => "_XOR"@,
    }
}

pub open spec fn bitop_head_t(op: BitOp, a: Term, b: Term) -> Term {
    match op {
        BitOp::And => bit_and_t(a, b),
        BitOp::Or => bit_or_t(a, b),
        BitOp::Xor => bit_xor_t(a, b),
    }
}

pub open spec fn bitop_helper_t(op: BitOp) -> Term {
    abs_t("a"@, abs_t("b"@, select_t(
        list::is_not_empty_t(var_t("a"@)),
        list::empty_t(),
        list::node_t(
            bitop_head_t(op, list::head_t(var_t("a"@)), list::head_t(var_t("b"@))),
            app2_t(rec_t(var_t(bitop_helper_name(op))), list::tail_t(var_t("a"@)), list::tail_t(var_t("b"@))),
        ),
    )))
}

pub open spec fn bitop_st(s: RtState, op: BitOp) -> RtState {
    if s.has(bitop_name(op)) {
        s
    } else {
        s.def_rec(bitop_helper_name(op), bitop_helper_t(op)).def(bitop_name(op), rec_t(var_t(bitop_helper_name(op))))
    }
}

/// Applies a bitwise operation.
fn apply_bitop(rt: &mut RuntimeGenerator, a: Expr, b: Expr, op: BitOp) -> (e: Expr)
    requires
        old(rt).wf(),
    ensures
        final(rt).wf(),
        final(rt).st() == bitop_st(old(rt).st(), op),
        e@ == app2_t(var_t(bitop_name(op)), a@, b@),
{
    let (name, helper) = match op {
        BitOp::And => ("AND", "_AND"),
        BitOp::Or => ("OR", "_OR"),
        BitOp::Xor => ("XOR", "_XOR"),
    };
    if !rt.has(name) {
        let a_head = list::get_head(var("a"));
        let b_head = list::get_head(var("b"));
        let head = match op {
            BitOp::And => bit_and(a_head, b_head),
            BitOp::Or => bit_or(a_head, b_head),
            BitOp::Xor => bit_xor(a_head, b_head),
        };
        let body = select(
            list::is_not_empty(var("a")),
            list::empty(),
            list::node(head, apply2(rec(var(helper)), list::get_tail(var("a")), list::get_tail(var("b")))),
        );
        rt.def_rec(helper, abs2("a", "b", body));
        rt.def(name, rec(var(helper)));
    }
    apply2(var(name), a, b)
}

pub fn and(rt: &mut RuntimeGenerator, a: Expr, b: Expr) -> (e: Expr)
    requires
        old(rt).wf(),
    ensures
        final(rt).wf(),
        final(rt).st() == bitop_st(old(rt).st(), BitOp::And),
        e@ == app2_t(var_t("AND"@), a@, b@),
{
    apply_bitop(rt, a, b, BitOp::And)
}

pub fn or(rt: &mut RuntimeGenerator, a: Expr, b: Expr) -> (e: Expr)
    requires
        old(rt).wf(),
    ensures
        final(rt).wf(),
        final(rt).st() == bitop_st(old(rt).st(), BitOp::Or),
        e@ == app2_t(var_t("OR"@), a@, b@),
{
    apply_bitop(rt, a, b, BitOp::Or)
}

pub fn xor(rt: &mut RuntimeGenerator, a: Expr, b: Expr) -> (e: Expr)
    requires
        old(rt).wf(),
    ensures
        final(rt).wf(),
        final(rt).st() == bitop_st(old(rt).st(), BitOp::Xor),
        e@ == app2_t(var_t("XOR"@), a@, b@),
{
    apply_bitop(rt, a, b, BitOp::Xor)
}

pub open spec fn atz_name(n: nat) -> Seq<char> {
    "_ATZ"@ + dec_t(n)
}

pub open spec fn dtb_name(n: nat) -> Seq<char> {
    "_DTB"@ + dec_t(n)
}

/// `k` zero bits added to the little end of `t`.
pub open spec fn zeros_t(t: Term, k: nat) -> Term
    decreases k,
{
    if k == 0 {
        t
    } else {
        list::node_t(bit_t(false), zeros_t(t, (k - 1) as nat))
    }
}

/// `k` bits dropped from the little end of `t`.
pub open spec fn tails_t(t: Term, k: nat) -> Term
    decreases k,
{
    if k == 0 {
        t
    } else {
        list::tail_t(tails_t(t, (k - 1) as nat))
    }
}

pub open spec fn atz_body_t(n: nat) -> Term {
    if n <= 3 {
        zeros_t(var_t("a"@), p2(n))
    } else {
        app_t(var_t(atz_name((n - 1) as nat)), app_t(var_t(atz_name((n - 1) as nat)), var_t("a"@)))
    }
}

pub open spec fn dtb_body_t(n: nat) -> Term {
    if n <= 3 {
        tails_t(var_t("a"@), p2(n))
    } else {
        app_t(var_t(dtb_name((n - 1) as nat)), app_t(var_t(dtb_name((n - 1) as nat)), var_t("a"@)))
    }
}

pub open spec fn atz_st(s: RtState, n: nat) -> RtState
    decreases n,
{
    if s.has(atz_name(n)) {
        s
    } else {
        let s1 = if n <= 3 { s } else { atz_st(atz_st(s, (n - 1) as nat), (n - 1) as nat) };
        s1.def(atz_name(n), abs_t("a"@, atz_body_t(n)))
    }
}

pub open spec fn dtb_st(s: RtState, n: nat) -> RtState
    decreases n,
{
    if s.has(dtb_name(n)) {
        s
    } else {
        let s1 = if n <= 3 { s } else { dtb_st(dtb_st(s, (n - 1) as nat), (n - 1) as nat) };
        s1.def(dtb_name(n), abs_t("a"@, dtb_body_t(n)))
    }
}

/// `2` to the power of `n`, for `n` up to 3.
fn small_pow2(n: u8) -> (r: u64)
    requires
        n <= 3,
    ensures
        r == p2(n as nat),
{
    proof {
        reveal_with_fuel(p2, 4);
    }
    if n == 0 { 1 } else if n == 1 { 2 } else if n == 2 { 4 } else { 8 }
}

/// Adds `2^n` zeroes to the little end of the number: one step of a left shift.
fn add_trailing_zeroes(rt: &mut RuntimeGenerator, a: Expr, n_log2: u8) -> (e: Expr)
    requires
        old(rt).wf(),
    ensures
        final(rt).wf(),
        final(rt).st() == atz_st(old(rt).st(), n_log2 as nat),
        e@ == app_t(var_t(atz_name(n_log2 as nat)), a@),
    decreases n_log2,
{
    let name = dec_name("_ATZ", n_log2 as u64);
    if !rt.has(name.as_str()) {
        let body = if n_log2 <= 3 {
            let count = small_pow2(n_log2);
            let mut result = var("a");
            let mut k: u64 = 0;
            while k < count
                invariant
                    k <= count,
                    result@ == zeros_t(var_t("a"@), k as nat),
                decreases count - k,
            {
                result = list::node(bit(false), result);
                k = k + 1;
            }
            result
        } else {
            let result = add_trailing_zeroes(rt, var("a"), n_log2 - 1);
            add_trailing_zeroes(rt, result, n_log2 - 1)
        };
        rt.def_string(name.clone(), abs1("a", body));
    }
    apply1(var_string(name), a)
}

/// Drops `2^n` bits from the little end of the number: one step of a right shift.
fn drop_trailing_bits(rt: &mut RuntimeGenerator, a: Expr, n_log2: u8) -> (e: Expr)
    requires
        old(rt).wf(),
    ensures
        final(rt).wf(),
        final(rt).st() == dtb_st(old(rt).st(), n_log2 as nat),
        e@ == app_t(var_t(dtb_name(n_log2 as nat)), a@),
    decreases n_log2,
{
    let name = dec_name("_DTB", n_log2 as u64);
    if !rt.has(name.as_str()) {
        let body = if n_log2 <= 3 {
            let count = small_pow2(n_log2);
            let mut result = var("a");
            let mut k: u64 = 0;
            while k < count
                invariant
                    k <= count,
                    result@ == tails_t(var_t("a"@), k as nat),
                decreases count - k,
            {
                result = list::get_tail(result);
                k = k + 1;
            }
            result
        } else {
            let result = drop_trailing_bits(rt, var("a"), n_log2 - 1);
            drop_trailing_bits(rt, result, n_log2 - 1)
        };
        rt.def_string(name.clone(), abs1("a", body));
    }
    apply1(var_string(name), a)
}

/// A shift of a number.
#[derive(PartialEq, Eq, Structural, Clone, Copy)]
pub enum ShiftOp {
    Shl,
    ShrU,
    ShrS,
}

pub open spec fn shift_name(op: ShiftOp, bits: u8) -> Seq<char> {
    (match op {
        ShiftOp::Shl => "SHL"@,
        ShiftOp::ShrU => "SHR_U"@,
        ShiftOp::ShrS => "SHR_S"@,
    }) + dec_t(bits as nat)
}

/// A number with `bits` bits is shifted by its `log2(bits)` lowest bits.
pub open spec fn shift_bits(bits: u8) -> nat {
    if bits == 32 { 5 } else { 6 }
}

pub open spec fn shifted_t(shl: bool, i: nat) -> Term {
    if shl {
        app_t(var_t(atz_name(i)), var_t("a"@))
    } else {
        app_t(var_t(dtb_name(i)), var_t("a"@))
    }
}

/// The definitions of step `i` of a shift by an `n`-bit amount.
pub open spec fn shift_step_defs(shl: bool, n: nat, i: nat) -> Seq<(Seq<char>, Term)> {
    seq![("a"@, select_t(list::head_t(var_t("shift"@)), var_t("a"@), shifted_t(shl, i)))]
        + if i + 1 != n { seq![("shift"@, list::tail_t(var_t("shift"@)))] } else { Seq::empty() }
}

pub open spec fn shift_defs_t(shl: bool, n: nat, i: nat) -> Seq<(Seq<char>, Term)>
    decreases i,
{
    if i == 0 {
        Seq::empty()
    } else {
        shift_defs_t(shl, n, (i - 1) as nat) + shift_step_defs(shl, n, (i - 1) as nat)
    }
}

pub open spec fn shift_loop_st(s: RtState, shl: bool, i: nat) -> RtState
    decreases i,
{
    if i == 0 {
        s
    } else {
        let s1 = shift_loop_st(s, shl, (i - 1) as nat);
        if shl { atz_st(s1, (i - 1) as nat) } else { dtb_st(s1, (i - 1) as nat) }
    }
}

pub open spec fn shift_result_t(op: ShiftOp, bits: u8) -> Term {
    match op {
        ShiftOp::Shl => wrap_t(var_t("a"@), bits == 64),
        ShiftOp::ShrU => app2_t(var_t("WIDEN"@), var_t("a"@), num_t(bits == 64, 0)),
        ShiftOp::ShrS => app2_t(var_t("WSGNEXT"@), var_t("a"@), num_t(bits == 64, 0)),
    }
}

pub open spec fn shift_result_st(s: RtState, op: ShiftOp, bits: u8) -> RtState {
    match op {
        ShiftOp::Shl => wrap_st(s, bits == 64),
        ShiftOp::ShrU => widen_st(s.with_num(bits == 64, 0)),
        ShiftOp::ShrS => wsgnext_st(s.with_num(bits == 64, 0)),
    }
}

pub open spec fn shift_def_t(op: ShiftOp, bits: u8) -> Term {
    let n = shift_bits(bits);
    abs_t("a"@, abs_t("shift"@, lets_t(shift_defs_t(op == ShiftOp::Shl, n, n), shift_result_t(op, bits))))
}

pub open spec fn shift_st(s: RtState, op: ShiftOp, bits: u8) -> RtState {
    if s.has(shift_name(op, bits)) {
        s
    } else {
        let n = shift_bits(bits);
        shift_result_st(shift_loop_st(s, op == ShiftOp::Shl, n), op, bits).def(shift_name(op, bits), shift_def_t(op, bits))
    }
}

/// Shifts a number with `bits` (32 or 64) bits.
fn apply_shift(rt: &mut RuntimeGenerator, a: Expr, shift: Expr, op: ShiftOp, bits: u8) -> (e: Expr)
    requires
        old(rt).wf(),
        bits == 32 || bits == 64,
    ensures
        final(rt).wf(),
        final(rt).st() == shift_st(old(rt).st(), op, bits),
        e@ == app2_t(var_t(shift_name(op, bits)), a@, shift@),
{
    let prefix = match op {
        ShiftOp::Shl => "SHL",
        ShiftOp::ShrU => "SHR_U",
        ShiftOp::ShrS => "SHR_S",
    };
    let name = dec_name(prefix, bits as u64);
    if !rt.has(name.as_str()) {
        let mut b = LetExprBuilder::new();
        // A 32-bit number is shifted by a 5-bit number, a 64-bit one by a 6-bit number.
        let shift_significant_bits: u8 = if bits == 32 { 5 } else { 6 };
        let ghost shl = op == ShiftOp::Shl;
        let ghost s0 = rt.st();
        let mut i: u8 = 0;
        while i < shift_significant_bits
            invariant
                rt.wf(),
                i <= shift_significant_bits,
                shift_significant_bits as nat == shift_bits(bits),
                shl == (op == ShiftOp::Shl),
                rt.st() == shift_loop_st(s0, shl, i as nat),
                b@ == shift_defs_t(shl, shift_significant_bits as nat, i as nat),
            decreases shift_significant_bits - i,
        {
            let shift_bit = list::get_head(var("shift"));
            let shifted = match op {
                ShiftOp::Shl => add_trailing_zeroes(rt, var("a"), i),
                _ => drop_trailing_bits(rt, var("a"), i),
            };
            b.def("a", select(shift_bit, var("a"), shifted));
            if i != shift_significant_bits - 1 {
                b.def("shift", list::get_tail(var("shift")));
            }
            proof {
                assert(b@ =~= shift_defs_t(shl, shift_significant_bits as nat, (i + 1) as nat));
            }
            i = i + 1;
        }
        let result = match op {
            ShiftOp::Shl => if bits == 32 { wrap_i32(rt, var("a")) } else { wrap_i64(rt, var("a")) },
            ShiftOp::ShrU => if bits == 32 { widen_i32(rt, var("a")) } else { widen_i64(rt, var("a")) },
            ShiftOp::ShrS => if bits == 32 {
                widen_and_sign_extend_i32(rt, var("a"))
            } else {
                widen_and_sign_extend_i64(rt, var("a"))
            },
        };
        let body = b.build_in(result);
        rt.def_string(name.clone(), abs2("a", "shift", body));
    }
    apply2(var_string(name), a, shift)
}

pub fn i32_shift_left(rt: &mut RuntimeGenerator, a: Expr, shift: Expr) -> (e: Expr)
    requires
        old(rt).wf(),
    ensures
        final(rt).wf(),
        final(rt).st() == shift_st(old(rt).st(), ShiftOp::Shl, 32),
        e@ == app2_t(var_t(shift_name(ShiftOp::Shl, 32)), a@, shift@),
{
    apply_shift(rt, a, shift, ShiftOp::Shl, 32)
}

pub fn i32_shift_right_unsigned(rt: &mut RuntimeGenerator, a: Expr, shift: Expr) -> (e: Expr)
    requires
        old(rt).wf(),
    ensures
        final(rt).wf(),
        final(rt).st() == shift_st(old(rt).st(), ShiftOp::ShrU, 32),
        e@ == app2_t(var_t(shift_name(ShiftOp::ShrU, 32)), a@, shift@),
{
    apply_shift(rt, a, shift, ShiftOp::ShrU, 32)
}

pub fn i32_shift_right_signed(rt: &mut RuntimeGenerator, a: Expr, shift: Expr) -> (e: Expr)
    requires
        old(rt).wf(),
    ensures
        final(rt).wf(),
        final(rt).st() == shift_st(old(rt).st(), ShiftOp::ShrS, 32),
        e@ == app2_t(var_t(shift_name(ShiftOp::ShrS, 32)), a@, shift@),
{
    apply_shift(rt, a, shift, ShiftOp::ShrS, 32)
}

pub fn i64_shift_left(rt: &mut RuntimeGenerator, a: Expr, shift: Expr) -> (e: Expr)
    requires
        old(rt).wf(),
    ensures
        final(rt).wf(),
        final(rt).st() == shift_st(old(rt).st(), ShiftOp::Shl, 64),
        e@ == app2_t(var_t(shift_name(ShiftOp::Shl, 64)), a@, shift@),
{
    apply_shift(rt, a, shift, ShiftOp::Shl, 64)
}

pub fn i64_shift_right_unsigned(rt: &mut RuntimeGenerator, a: Expr, shift: Expr) -> (e: Expr)
    requires
        old(rt).wf(),
    ensures
        final(rt).wf(),
        final(rt).st() == shift_st(old(rt).st(), ShiftOp::ShrU, 64),
        e@ == app2_t(var_t(shift_name(ShiftOp::ShrU, 64)), a@, shift@),
{
    apply_shift(rt, a, shift, ShiftOp::ShrU, 64)
}

pub fn i64_shift_right_signed(rt: &mut RuntimeGenerator, a: Expr, shift: Expr) -> (e: Expr)
    requires
        old(rt).wf(),
    ensures
        final(rt).wf(),
        final(rt).st() == shift_st(old(rt).st(), ShiftOp::ShrS, 64),
        e@ == app2_t(var_t(shift_name(ShiftOp::ShrS, 64)), a@, shift@),
{
    apply_shift(rt, a, shift, ShiftOp::ShrS, 64)
}

pub open spec fn rot_name(left: bool, bits: u8) -> Seq<char> {
    (if left { "ROTL"@ } else { "ROTR"@ }) + dec_t(bits as nat)
}

/// The shift that moves the bits of a rotation, and the one that wraps the rest around.
pub open spec fn rot_main(left: bool) -> ShiftOp {
    if left { ShiftOp::Shl } else { ShiftOp::ShrU }
}

pub open spec fn rot_rest(left: bool) -> ShiftOp {
    if left { ShiftOp::ShrU } else { ShiftOp::Shl }
}

pub open spec fn rot_def_t(left: bool, bits: u8) -> Term {
    abs_t("a"@, abs_t("shift"@, app2_t(
        var_t("OR"@),
        app2_t(var_t(shift_name(rot_main(left), bits)), var_t("a"@), var_t("shift"@)),
        app2_t(var_t(shift_name(rot_rest(left), bits)), var_t("a"@), negate_t(var_t("shift"@))),
    )))
}

pub open spec fn rot_st(s: RtState, left: bool, bits: u8) -> RtState {
    if s.has(rot_name(left, bits)) {
        s
    } else {
        let s1 = negate_st(shift_st(s, rot_main(left), bits));
        bitop_st(shift_st(s1, rot_rest(left), bits), BitOp::Or).def(rot_name(left, bits), rot_def_t(left, bits))
    }
}

/// Rotates a number with `bits` (32 or 64) bits.
fn rotate(rt: &mut RuntimeGenerator, a: Expr, shift: Expr, left: bool, bits: u8) -> (e: Expr)
    requires
        old(rt).wf(),
        bits == 32 || bits == 64,
    ensures
        final(rt).wf(),
        final(rt).st() == rot_st(old(rt).st(), left, bits),
        e@ == app2_t(var_t(rot_name(left, bits)), a@, shift@),
{
    let name = dec_name(if left { "ROTL" } else { "ROTR" }, bits as u64);
    if !rt.has(name.as_str()) {
        let main_op = if left { ShiftOp::Shl } else { ShiftOp::ShrU };
        let rest_op = if left { ShiftOp::ShrU } else { ShiftOp::Shl };
        let shifted_part = apply_shift(rt, var("a"), var("shift"), main_op, bits);
        // This is equivalent to `bits - shift` because `bits` is a power of 2 and
        // only a few lower bits matter.
        let minus_shift = negate(rt, var("shift"));
        let rotated_part = apply_shift(rt, var("a"), minus_shift, rest_op, bits);
        let body = or(rt, shifted_part, rotated_part);
        rt.def_string(name.clone(), abs2("a", "shift", body));
    }
    apply2(var_string(name), a, shift)
}

pub fn i32_rotate_right(rt: &mut RuntimeGenerator, a: Expr, shift: Expr) -> (e: Expr)
    requires
        old(rt).wf(),
    ensures
        final(rt).wf(),
        final(rt).st() == rot_st(old(rt).st(), false, 32),
        e@ == app2_t(var_t(rot_name(false, 32)), a@, shift@),
{
    rotate(rt, a, shift, false, 32)
}

pub fn i32_rotate_left(rt: &mut RuntimeGenerator, a: Expr, shift: Expr) -> (e: Expr)
    requires
        old(rt).wf(),
    ensures
        final(rt).wf(),
        final(rt).st() == rot_st(old(rt).st(), true, 32),
        e@ == app2_t(var_t(rot_name(true, 32)), a@, shift@),
{
    rotate(rt, a, shift, true, 32)
}

pub fn i64_rotate_right(rt: &mut RuntimeGenerator, a: Expr, shift: Expr) -> (e: Expr)
    requires
        old(rt).wf(),
    ensures
        final(rt).wf(),
        final(rt).st() == rot_st(old(rt).st(), false, 64),
        e@ == app2_t(var_t(rot_name(false, 64)), a@, shift@),
{
    rotate(rt, a, shift, false, 64)
}

pub fn i64_rotate_left(rt: &mut RuntimeGenerator, a: Expr, shift: Expr) -> (e: Expr)
    requires
        old(rt).wf(),
    ensures
        final(rt).wf(),
        final(rt).st() == rot_st(old(rt).st(), true, 64),
        e@ == app2_t(var_t(rot_name(true, 64)), a@, shift@),
{
    rotate(rt, a, shift, true, 64)
}

/// A count over the bits of a number: trailing zeroes or ones.
pub open spec fn count_name(ones: bool, bits: u8) -> Seq<char> {
    (if ones { "POPCNT"@ } else { "CTZ"@ }) + dec_t(bits as nat)
}

pub open spec fn count_helper_name(ones: bool, bits: u8) -> Seq<char> {
    (if ones { "_POPCNT"@ } else { "_CTZ"@ }) + dec_t(bits as nat)
}

pub open spec fn count_helper_t(ones: bool, bits: u8) -> Term {
    let helper = rec_t(var_t(count_helper_name(ones, bits)));
    let counted = app2_t(helper, app_t(var_t("INC"@), var_t("count"@)), list::tail_t(var_t("a"@)));
    abs_t("count"@, abs_t("a"@, select_t(
        list::is_not_empty_t(var_t("a"@)),
        var_t("count"@),
        if ones {
            select_t(list::head_t(var_t("a"@)), app2_t(helper, var_t("count"@), list::tail_t(var_t("a"@))), counted)
        } else {
            select_t(list::head_t(var_t("a"@)), counted, var_t("count"@))
        },
    )))
}

pub open spec fn count_st(s: RtState, ones: bool, bits: u8) -> RtState {
    if s.has(count_name(ones, bits)) {
        s
    } else {
        inc_st(s).def_rec(count_helper_name(ones, bits), count_helper_t(ones, bits))
            .with_num(bits == 64, 0)
            .def(count_name(ones, bits), app_t(rec_t(var_t(count_helper_name(ones, bits))), num_t(bits == 64, 0)))
    }
}

/// Counts the trailing zeroes of a number if `!ones`, its one bits otherwise.
fn count_bits(rt: &mut RuntimeGenerator, a: Expr, ones: bool, bits: u8) -> (e: Expr)
    requires
        old(rt).wf(),
        bits == 32 || bits == 64,
    ensures
        final(rt).wf(),
        final(rt).st() == count_st(old(rt).st(), ones, bits),
        e@ == app_t(var_t(count_name(ones, bits)), a@),
{
    let name = dec_name(if ones { "POPCNT" } else { "CTZ" }, bits as u64);
    if !rt.has(name.as_str()) {
        let helper_name = dec_name(if ones { "_POPCNT" } else { "_CTZ" }, bits as u64);
        let incremented = increment(rt, var("count"));
        let counted = apply2(rec(var_string(helper_name.clone())), incremented, list::get_tail(var("a")));
        let inner = if ones {
            select(
                list::get_head(var("a")),
                apply2(rec(var_string(helper_name.clone())), var("count"), list::get_tail(var("a"))),
                counted,
            )
        } else {
            select(list::get_head(var("a")), counted, var("count"))
        };
        let body = select(list::is_not_empty(var("a")), var("count"), inner);
        rt.def_rec_string(helper_name.clone(), abs2("count", "a", body));
        let zero = rt.num_const(bits == 64, 0);
        rt.def_string(name.clone(), apply1(rec(var_string(helper_name)), zero));
    }
    apply1(var_string(name), a)
}

pub fn i32_count_trailing_zeroes(rt: &mut RuntimeGenerator, a: Expr) -> (e: Expr)
    requires
        old(rt).wf(),
    ensures
        final(rt).wf(),
        final(rt).st() == count_st(old(rt).st(), false, 32),
        e@ == app_t(var_t(count_name(false, 32)), a@),
{
    count_bits(rt, a, false, 32)
}

pub fn i64_count_trailing_zeroes(rt: &mut RuntimeGenerator, a: Expr) -> (e: Expr)
    requires
        old(rt).wf(),
    ensures
        final(rt).wf(),
        final(rt).st() == count_st(old(rt).st(), false, 64),
        e@ == app_t(var_t(count_name(false, 64)), a@),
{
    count_bits(rt, a, false, 64)
}

pub open spec fn clz_name(bits: u8) -> Seq<char> {
    "CLZ"@ + dec_t(bits as nat)
}

pub open spec fn clz_st(s: RtState, bits: u8) -> RtState {
    if s.has(clz_name(bits)) {
        s
    } else {
        count_st(s, false, bits).def(
            clz_name(bits),
            abs_t("a"@, app_t(var_t(count_name(false, bits)), app_t(var_t("Rev"@), var_t("a"@)))),
        )
    }
}

/// Counts leading zeroes: the trailing zeroes of the reversed number.
fn count_leading_zeroes(rt: &mut RuntimeGenerator, a: Expr, bits: u8) -> (e: Expr)
    requires
        old(rt).wf(),
        bits == 32 || bits == 64,
    ensures
        final(rt).wf(),
        final(rt).st() == clz_st(old(rt).st(), bits),
        e@ == app_t(var_t(clz_name(bits)), a@),
{
    let name = dec_name("CLZ", bits as u64);
    if !rt.has(name.as_str()) {
        let body = count_bits(rt, number::reverse_bits(var("a")), false, bits);
        rt.def_string(name.clone(), abs1("a", body));
    }
    apply1(var_string(name), a)
}

pub fn i32_count_leading_zeroes(rt: &mut RuntimeGenerator, a: Expr) -> (e: Expr)
    requires
        old(rt).wf(),
    ensures
        final(rt).wf(),
        final(rt).st() == clz_st(old(rt).st(), 32),
        e@ == app_t(var_t(clz_name(32)), a@),
{
    count_leading_zeroes(rt, a, 32)
}

pub fn i64_count_leading_zeroes(rt: &mut RuntimeGenerator, a: Expr) -> (e: Expr)
    requires
        old(rt).wf(),
    ensures
        final(rt).wf(),
        final(rt).st() == clz_st(old(rt).st(), 64),
        e@ == app_t(var_t(clz_name(64)), a@),
{
    count_leading_zeroes(rt, a, 64)
}

pub fn i32_count_ones(rt: &mut RuntimeGenerator, a: Expr) -> (e: Expr)
    requires
        old(rt).wf(),
    ensures
        final(rt).wf(),
        final(rt).st() == count_st(old(rt).st(), true, 32),
        e@ == app_t(var_t(count_name(true, 32)), a@),
{
    count_bits(rt, a, true, 32)
}

pub fn i64_count_ones(rt: &mut RuntimeGenerator, a: Expr) -> (e: Expr)
    requires
        old(rt).wf(),
    ensures
        final(rt).wf(),
        final(rt).st() == count_st(old(rt).st(), true, 64),
        e@ == app_t(var_t(count_name(true, 64)), a@),
{
    count_bits(rt, a, true, 64)
}

/// Bit inversion defines its utilities after what they refer to.
pub proof fn lemma_inv_ordered(s: RtState)
    requires
        rt_ok(s),
    ensures
        grows(s, inv_st(s)),
        in_scope(inv_st(s)).contains("INV"@),
{
    if s.has("INV"@) {
        lemma_grows_refl(s);
        lemma_has_in_scope(s, "INV"@);
    } else {
        lemma_core_names(s);
        let e = in_scope(s).insert("_INV"@);
        assert(scoped(inv_helper_t(), e)) by { reveal_with_fuel(scoped, 16); }
        assert(scoped(rec_t(var_t("_INV"@)), e)) by { reveal_with_fuel(scoped, 3); }
        lemma_grows_pair(s, "_INV"@, inv_helper_t(), "INV"@, rec_t(var_t("_INV"@)));
    }
}

/// Bitwise operations define their utilities after what they refer to.
pub proof fn lemma_bitop_ordered(s: RtState, op: BitOp)
    requires
        rt_ok(s),
    ensures
        grows(s, bitop_st(s, op)),
        in_scope(bitop_st(s, op)).contains(bitop_name(op)),
{
    if s.has(bitop_name(op)) {
        lemma_grows_refl(s);
        lemma_has_in_scope(s, bitop_name(op));
    } else {
        lemma_core_names(s);
        let h = bitop_helper_name(op);
        let e = in_scope(s).insert(h);
        assert(scoped(bitop_helper_t(op), e)) by { reveal_with_fuel(scoped, 20); }
        assert(scoped(rec_t(var_t(h)), e)) by { reveal_with_fuel(scoped, 3); }
        lemma_grows_pair(s, h, bitop_helper_t(op), bitop_name(op), rec_t(var_t(h)));
    }
}

proof fn lemma_zeros_scoped(t: Term, k: nat, env: Set<Seq<char>>)
    requires
        scoped(t, env),
        env.contains("C"@),
        env.contains("0"@),
    ensures
        scoped(zeros_t(t, k), env),
    decreases k,
{
    if k > 0 {
        lemma_zeros_scoped(t, (k - 1) as nat, env);
        reveal_with_fuel(scoped, 4);
    }
}

proof fn lemma_tails_scoped(t: Term, k: nat, env: Set<Seq<char>>)
    requires
        scoped(t, env),
        env.contains("1"@),
    ensures
        scoped(tails_t(t, k), env),
    decreases k,
{
    if k > 0 {
        lemma_tails_scoped(t, (k - 1) as nat, env);
        reveal_with_fuel(scoped, 4);
    }
}

/// Adding trailing zeroes defines each step after the smaller steps it is built from.
pub proof fn lemma_atz_ordered(s: RtState, n: nat)
    requires
        rt_ok(s),
    ensures
        grows(s, atz_st(s, n)),
        in_scope(atz_st(s, n)).contains(atz_name(n)),
    decreases n,
{
    if s.has(atz_name(n)) {
        lemma_grows_refl(s);
        lemma_has_in_scope(s, atz_name(n));
    } else {
        let s1 = if n <= 3 { s } else { atz_st(atz_st(s, (n - 1) as nat), (n - 1) as nat) };
        if n <= 3 {
            lemma_grows_refl(s);
        } else {
            lemma_atz_ordered(s, (n - 1) as nat);
            let s0 = atz_st(s, (n - 1) as nat);
            lemma_atz_ordered(s0, (n - 1) as nat);
            lemma_grows_trans(s, s0, s1);
        }
        lemma_core_names(s1);
        let e = in_scope(s1).insert("a"@);
        assert(scoped(var_t("a"@), e));
        if n <= 3 {
            lemma_zeros_scoped(var_t("a"@), p2(n), e);
        } else {
            assert(scoped(atz_body_t(n), e)) by { reveal_with_fuel(scoped, 4); }
        }
        lemma_grows_def(s1, atz_name(n), abs_t("a"@, atz_body_t(n)));
        lemma_grows_trans(s, s1, atz_st(s, n));
    }
}

/// Dropping trailing bits defines each step after the smaller steps it is built from.
pub proof fn lemma_dtb_ordered(s: RtState, n: nat)
    requires
        rt_ok(s),
    ensures
        grows(s, dtb_st(s, n)),
        in_scope(dtb_st(s, n)).contains(dtb_name(n)),
    decreases n,
{
    if s.has(dtb_name(n)) {
        lemma_grows_refl(s);
        lemma_has_in_scope(s, dtb_name(n));
    } else {
        let s1 = if n <= 3 { s } else { dtb_st(dtb_st(s, (n - 1) as nat), (n - 1) as nat) };
        if n <= 3 {
            lemma_grows_refl(s);
        } else {
            lemma_dtb_ordered(s, (n - 1) as nat);
            let s0 = dtb_st(s, (n - 1) as nat);
            lemma_dtb_ordered(s0, (n - 1) as nat);
            lemma_grows_trans(s, s0, s1);
        }
        lemma_core_names(s1);
        let e = in_scope(s1).insert("a"@);
        assert(scoped(var_t("a"@), e));
        if n <= 3 {
            lemma_tails_scoped(var_t("a"@), p2(n), e);
        } else {
            assert(scoped(dtb_body_t(n), e)) by { reveal_with_fuel(scoped, 4); }
        }
        lemma_grows_def(s1, dtb_name(n), abs_t("a"@, dtb_body_t(n)));
        lemma_grows_trans(s, s1, dtb_st(s, n));
    }
}

/// Counting bits defines its utilities after what they refer to.
pub proof fn lemma_count_ordered(s: RtState, ones: bool, bits: u8)
    requires
        rt_ok(s),
    ensures
        grows(s, count_st(s, ones, bits)),
        in_scope(count_st(s, ones, bits)).contains(count_name(ones, bits)),
{
    if s.has(count_name(ones, bits)) {
        lemma_grows_refl(s);
        lemma_has_in_scope(s, count_name(ones, bits));
    } else {
        lemma_inc_ordered(s);
        let s1 = inc_st(s);
        lemma_core_names(s1);
        let h = count_helper_name(ones, bits);
        assert(scoped(count_helper_t(ones, bits), in_scope(s1).insert(h))) by { reveal_with_fuel(scoped, 20); }
        lemma_grows_def_rec(s1, h, count_helper_t(ones, bits));
        let s2 = s1.def_rec(h, count_helper_t(ones, bits));
        lemma_grows_num(s2, bits == 64, 0);
        let s3 = s2.with_num(bits == 64, 0);
        let main = app_t(rec_t(var_t(h)), num_t(bits == 64, 0));
        assert(scoped(main, in_scope(s3))) by { reveal_with_fuel(scoped, 4); }
        lemma_grows_def(s3, count_name(ones, bits), main);
        lemma_grows_trans(s, s1, s2);
        lemma_grows_trans(s, s2, s3);
        lemma_grows_trans(s, s3, count_st(s, ones, bits));
    }
}

/// Counting leading zeroes defines its utilities after what they refer to.
pub proof fn lemma_clz_ordered(s: RtState, bits: u8)
    requires
        rt_ok(s),
    ensures
        grows(s, clz_st(s, bits)),
        in_scope(clz_st(s, bits)).contains(clz_name(bits)),
{
    if s.has(clz_name(bits)) {
        lemma_grows_refl(s);
        lemma_has_in_scope(s, clz_name(bits));
    } else {
        lemma_count_ordered(s, false, bits);
        let s1 = count_st(s, false, bits);
        lemma_core_names(s1);
        let main = abs_t("a"@, app_t(var_t(count_name(false, bits)), app_t(var_t("Rev"@), var_t("a"@))));
        assert(scoped(main, in_scope(s1))) by { reveal_with_fuel(scoped, 5); }
        lemma_grows_def(s1, clz_name(bits), main);
        lemma_grows_trans(s, s1, clz_st(s, bits));
    }
}

/// The step utility that a shift's step `j` calls.
pub open spec fn shift_step_name(shl: bool, j: nat) -> Seq<char> {
    if shl { atz_name(j) } else { dtb_name(j) }
}

/// The steps of a shift define their utilities after what they refer to.
pub proof fn lemma_shift_loop_ordered(s: RtState, shl: bool, i: nat)
    requires
        rt_ok(s),
    ensures
        grows(s, shift_loop_st(s, shl, i)),
        forall|j: nat| j < i ==> in_scope(shift_loop_st(s, shl, i)).contains(#[trigger] shift_step_name(shl, j)),
    decreases i,
{
    if i == 0 {
        lemma_grows_refl(s);
    } else {
        let k = (i - 1) as nat;
        lemma_shift_loop_ordered(s, shl, k);
        let s1 = shift_loop_st(s, shl, k);
        if shl {
            lemma_atz_ordered(s1, k);
        } else {
            lemma_dtb_ordered(s1, k);
        }
        lemma_grows_trans(s, s1, shift_loop_st(s, shl, i));
        assert forall|j: nat| j < i implies in_scope(shift_loop_st(s, shl, i)).contains(#[trigger] shift_step_name(shl, j)) by {
            if j < k {
                assert(in_scope(s1).contains(shift_step_name(shl, j)));
            }
        }
    }
}

proof fn lemma_shift_step_ok(shl: bool, n: nat, i: nat, env: Set<Seq<char>>)
    requires
        env.contains("a"@),
        env.contains("shift"@),
        core_names_in(env),
        env.contains(shift_step_name(shl, i)),
    ensures
        defs_ok(shift_step_defs(shl, n, i), env),
        env_with(env, shift_step_defs(shl, n, i)) == env,
{
    let v = select_t(list::head_t(var_t("shift"@)), var_t("a"@), shifted_t(shl, i));
    let t = list::tail_t(var_t("shift"@));
    assert(scoped(v, env)) by { reveal_with_fuel(scoped, 8); }
    assert(scoped(t, env)) by { reveal_with_fuel(scoped, 6); }
    assert(env.insert("a"@) =~= env);
    assert(env.insert("shift"@) =~= env);
    let d = shift_step_defs(shl, n, i);
    if i + 1 != n {
        assert(d =~= seq![("a"@, v), ("shift"@, t)]);
        assert(d.drop_first() =~= seq![("shift"@, t)]);
        assert(d.drop_first().drop_first() =~= Seq::<(Seq<char>, Term)>::empty());
        reveal_with_fuel(defs_ok, 3);
        reveal_with_fuel(env_with, 3);
    } else {
        assert(d =~= seq![("a"@, v)]);
        assert(d.drop_first() =~= Seq::<(Seq<char>, Term)>::empty());
        reveal_with_fuel(defs_ok, 2);
        reveal_with_fuel(env_with, 2);
    }
}

proof fn lemma_shift_defs_ok(shl: bool, n: nat, i: nat, env: Set<Seq<char>>)
    requires
        env.contains("a"@),
        env.contains("shift"@),
        core_names_in(env),
        forall|j: nat| j < i ==> env.contains(#[trigger] shift_step_name(shl, j)),
    ensures
        defs_ok(shift_defs_t(shl, n, i), env),
        env_with(env, shift_defs_t(shl, n, i)) == env,
    decreases i,
{
    if i > 0 {
        let k = (i - 1) as nat;
        lemma_shift_defs_ok(shl, n, k, env);
        assert(env.contains(shift_step_name(shl, k)));
        lemma_shift_step_ok(shl, n, k, env);
        lemma_defs_concat(shift_defs_t(shl, n, k), shift_step_defs(shl, n, k), env);
    }
}

/// Shifts define their utilities after what they refer to.
pub proof fn lemma_shift_ordered(s: RtState, op: ShiftOp, bits: u8)
    requires
        rt_ok(s),
    ensures
        grows(s, shift_st(s, op, bits)),
        in_scope(shift_st(s, op, bits)).contains(shift_name(op, bits)),
{
    if s.has(shift_name(op, bits)) {
        lemma_grows_refl(s);
        lemma_has_in_scope(s, shift_name(op, bits));
    } else {
        let n = shift_bits(bits);
        let shl = op == ShiftOp::Shl;
        lemma_shift_loop_ordered(s, shl, n);
        let l = shift_loop_st(s, shl, n);
        let r = shift_result_st(l, op, bits);
        match op {
            ShiftOp::Shl => {
                lemma_wrap_ordered(l, bits == 64);
            },
            ShiftOp::ShrU => {
                lemma_grows_num(l, bits == 64, 0);
                lemma_widen_ordered(l.with_num(bits == 64, 0));
                lemma_grows_trans(l, l.with_num(bits == 64, 0), r);
            },
            ShiftOp::ShrS => {
                lemma_grows_num(l, bits == 64, 0);
                lemma_wsgnext_ordered(l.with_num(bits == 64, 0));
                lemma_grows_trans(l, l.with_num(bits == 64, 0), r);
            },
        }
        lemma_grows_trans(s, l, r);
        lemma_core_names(r);
        let env = in_scope(r).insert("a"@).insert("shift"@);
        assert forall|j: nat| j < n implies env.contains(#[trigger] shift_step_name(shl, j)) by {
            assert(in_scope(l).contains(shift_step_name(shl, j)));
        }
        let defs = shift_defs_t(shl, n, n);
        lemma_shift_defs_ok(shl, n, n, env);
        assert(scoped(shift_result_t(op, bits), env)) by { reveal_with_fuel(scoped, 10); }
        lemma_lets_scoped(defs, shift_result_t(op, bits), env);
        assert(scoped(shift_def_t(op, bits), in_scope(r))) by { reveal_with_fuel(scoped, 3); }
        lemma_grows_def(r, shift_name(op, bits), shift_def_t(op, bits));
        lemma_grows_trans(s, r, shift_st(s, op, bits));
    }
}

/// Rotations define their utilities after what they refer to.
pub proof fn lemma_rot_ordered(s: RtState, left: bool, bits: u8)
    requires
        rt_ok(s),
    ensures
        grows(s, rot_st(s, left, bits)),
        in_scope(rot_st(s, left, bits)).contains(rot_name(left, bits)),
{
    if s.has(rot_name(left, bits)) {
        lemma_grows_refl(s);
        lemma_has_in_scope(s, rot_name(left, bits));
    } else {
        lemma_shift_ordered(s, rot_main(left), bits);
        let s0 = shift_st(s, rot_main(left), bits);
        lemma_negate_ordered(s0);
        let s1 = negate_st(s0);
        lemma_shift_ordered(s1, rot_rest(left), bits);
        let s2 = shift_st(s1, rot_rest(left), bits);
        lemma_bitop_ordered(s2, BitOp::Or);
        let s3 = bitop_st(s2, BitOp::Or);
        lemma_grows_trans(s, s0, s1);
        lemma_grows_trans(s, s1, s2);
        lemma_grows_trans(s, s2, s3);
        let e = in_scope(s3);
        assert(e.contains(shift_name(rot_main(left), bits)) && e.contains(shift_name(rot_rest(left), bits)));
        assert(e.contains("INV"@) && e.contains("INC"@) && e.contains("OR"@));
        assert(scoped(rot_def_t(left, bits), e)) by { reveal_with_fuel(scoped, 8); }
        lemma_grows_def(s3, rot_name(left, bits), rot_def_t(left, bits));
        lemma_grows_trans(s, s3, rot_st(s, left, bits));
    }
}

} // verus!
