//! Numeric instructions: constants, tests, comparisons, bitwise and arithmetic operations and
//! conversions, each popping its operands and pushing its result.

use vstd::prelude::*;

use crate::analyzer::{is_const_op, Operator};
use crate::codegen::lambda::instruction::{
    build_t, build_with_t, exec, exec_t, execute_next, execute_next_t, pop_range_t, push_defs_t, v,
    InstructionBuilder,
};
use crate::codegen::lambda::optional;
use crate::codegen::lambda::number::{const_bits, is_32_bit_const};
use crate::codegen::lambda::{abs1, abs_t, app_t, app2_t, apply1, select, select_t, var, var_string, var_t, Expr, Term};
use crate::codegen::runtime::instructions::trap::{trap, trap_st, TrapCode};
use crate::codegen::runtime::math::arithmetic::{
    div_name, div_s_name, div_s_st, div_st, i32_div_signed, i32_div_unsigned, i64_div_signed,
    i64_div_unsigned,
};
use crate::codegen::runtime::math::arithmetic::{add_st, mul_st, negate_t, sub_st};
use crate::codegen::runtime::math::comparisons::{
    compare_s_st, compare_st, eq_st, eqz_st, equal, greater_equal_signed, greater_equal_unsigned,
    greater_signed, greater_unsigned, is_zero, less_equal_signed, less_equal_unsigned, less_signed,
    less_unsigned, not_equal,
};
use crate::codegen::runtime::math::conversions::{
    extend_widths_ok, sign_extend, sign_extend_st, sign_extend_t, widen_i64, widen_st, wrap_i32,
    wrap_st, wrap_t,
};
use crate::codegen::runtime::math::logical;
use crate::codegen::runtime::math::logical::{
    bitop_st, clz_name, clz_st, count_name, count_st, i32_shift_left, i32_shift_right_signed, i32_shift_right_unsigned, i64_shift_left,
    i64_shift_right_signed, i64_shift_right_unsigned, rot_name, rot_st, shift_name, shift_st,
    BitOp, ShiftOp,
};
use crate::codegen::runtime::math::bit_not_t;
use crate::codegen::runtime::{num_t, RtState, RuntimeGenerator};
use crate::codegen::text::{dec_name, dec_t, write_radix};

verus! {

pub open spec fn ab() -> Seq<Seq<char>> {
    seq!["a"@, "b"@]
}

/// An instruction that pops `vars` and pushes `result`.
pub open spec fn unary_def_t(vars: Seq<Seq<char>>, result: Term) -> Term {
    build_t(pop_range_t(vars, 0) + push_defs_t(seq![result]))
}

fn pop_vars(b: &mut InstructionBuilder, two: bool)
    ensures
        final(b)@ == old(b)@ + pop_range_t(if two { ab() } else { seq!["a"@] }, 0),
{
    if two {
        b.pop(&["a", "b"]);
        proof {
            assert(["a", "b"]@.map_values(|s: &str| s@) =~= ab());
        }
    } else {
        b.pop(&["a"]);
        proof {
            assert(["a"]@.map_values(|s: &str| s@) =~= seq!["a"@]);
        }
    }
}

fn push_one(b: &mut InstructionBuilder, item: Expr)
    ensures
        final(b)@ == old(b)@ + push_defs_t(seq![item@]),
{
    let items = vec![item];
    proof {
        assert(items@.map_values(|i: Expr| i@) =~= seq![items@[0]@]);
    }
    b.push(items);
}

pub open spec fn push_def_t() -> Term {
    abs_t("item"@, build_t(push_defs_t(seq![var_t("item"@)])))
}

pub open spec fn push_const_st(s: RtState, op: Operator) -> RtState {
    s.def("Push"@, push_def_t()).with_num(!is_32_bit_const(&op), const_bits(&op))
}

/// `i32.const`, `i64.const` (and the float constants, by their bits): pushes the constant.
pub fn push_const(rt: &mut RuntimeGenerator, op: &Operator) -> (e: Expr)
    requires
        old(rt).wf(),
        is_const_op(op),
    ensures
        final(rt).wf(),
        final(rt).st() == push_const_st(old(rt).st(), *op),
        e@ == app_t(var_t("Push"@), num_t(!is_32_bit_const(op), const_bits(op))),
{
    if !rt.has("Push") {
        let mut b = InstructionBuilder::new();
        push_one(&mut b, var("item"));
        rt.def("Push", abs1("item", b.build()));
    }
    let item = rt.with_init_value(op);
    apply1(var("Push"), item)
}

/// 1 if the bit is set, else 0: how WASM writes a boolean.
pub open spec fn bool_t(bit: Term) -> Term {
    select_t(bit, num_t(false, 0), num_t(false, 1))
}

pub open spec fn eqz_def_t() -> Term {
    unary_def_t(seq!["a"@], bool_t(app_t(var_t("EQZ"@), var_t("a"@))))
}

pub open spec fn eqz_instr_st(s: RtState) -> RtState {
    if s.has("Eqz"@) {
        s
    } else {
        eqz_st(s).with_i32(0).with_i32(1).def("Eqz"@, eqz_def_t())
    }
}

/// `i32.eqz`, `i64.eqz`.
pub fn eqz(rt: &mut RuntimeGenerator) -> (e: Expr)
    requires
        old(rt).wf(),
    ensures
        final(rt).wf(),
        final(rt).st() == eqz_instr_st(old(rt).st()),
        e@ == var_t("Eqz"@),
{
    if !rt.has("Eqz") {
        let mut b = InstructionBuilder::new();
        pop_vars(&mut b, false);
        let z = is_zero(rt, var("a"));
        let zero = rt.i32_const(0);
        let one = rt.i32_const(1);
        push_one(&mut b, select(z, zero, one));
        rt.def("Eqz", b.build());
    }
    var("Eqz")
}

/// A binary operation of the numeric instructions.
#[derive(PartialEq, Eq, Structural, Clone, Copy)]
pub enum BinOp {
    And,
    Or,
    Xor,
    Shl32,
    ShrU32,
    ShrS32,
    Shl64,
    ShrU64,
    ShrS64,
    Rotl32,
    Rotr32,
    Rotl64,
    Rotr64,
    Add,
    Sub,
    Mul,
}

pub open spec fn binop_name(op: BinOp) -> Seq<char> {
    match op {
        BinOp::And => "And"@,
        BinOp::Or => "Or"@,
        BinOp::Xor => "Xor"@,
        BinOp::Shl32 => "Shl32"@,
        BinOp::ShrU32 => "ShrU32"@,
        BinOp::ShrS32 => "ShrS32"@,
        BinOp::Shl64 => "Shl64"@,
        BinOp::ShrU64 => "ShrU64"@,
        BinOp::ShrS64 => "ShrS64"@,
        BinOp::Rotl32 => "Rotl32"@,
        BinOp::Rotr32 => "Rotr32"@,
        BinOp::Rotl64 => "Rotl64"@,
        BinOp::Rotr64 => "Rotr64"@,
        BinOp::Add => "Add"@,
        BinOp::Sub => "Sub"@,
        BinOp::Mul => "Mul"@,
    }
}

fn binop_str(op: BinOp) -> (s: &'static str)
    ensures
        s@ == binop_name(op),
{
    match op {
        BinOp::And => "And",
        BinOp::Or => "Or",
        BinOp::Xor => "Xor",
        BinOp::Shl32 => "Shl32",
        BinOp::ShrU32 => "ShrU32",
        BinOp::ShrS32 => "ShrS32",
        BinOp::Shl64 => "Shl64",
        BinOp::ShrU64 => "ShrU64",
        BinOp::ShrS64 => "ShrS64",
        BinOp::Rotl32 => "Rotl32",
        BinOp::Rotr32 => "Rotr32",
        BinOp::Rotl64 => "Rotl64",
        BinOp::Rotr64 => "Rotr64",
        BinOp::Add => "Add",
        BinOp::Sub => "Sub",
        BinOp::Mul => "Mul",
    }
}

/// The state after the mathematical utility of a binary operation is defined.
pub open spec fn binop_math_st(s: RtState, op: BinOp) -> RtState {
    match op {
        BinOp::And => bitop_st(s, BitOp::And),
        BinOp::Or => bitop_st(s, BitOp::Or),
        BinOp::Xor => bitop_st(s, BitOp::Xor),
        BinOp::Shl32 => shift_st(s, ShiftOp::Shl, 32),
        BinOp::ShrU32 => shift_st(s, ShiftOp::ShrU, 32),
        BinOp::ShrS32 => shift_st(s, ShiftOp::ShrS, 32),
        BinOp::Shl64 => shift_st(s, ShiftOp::Shl, 64),
        BinOp::ShrU64 => shift_st(s, ShiftOp::ShrU, 64),
        BinOp::ShrS64 => shift_st(s, ShiftOp::ShrS, 64),
        BinOp::Rotl32 => rot_st(s, true, 32),
        BinOp::Rotr32 => rot_st(s, false, 32),
        BinOp::Rotl64 => rot_st(s, true, 64),
        BinOp::Rotr64 => rot_st(s, false, 64),
        BinOp::Add => add_st(s),
        BinOp::Sub => sub_st(s),
        BinOp::Mul => mul_st(s),
    }
}

/// The result of a binary operation on `a` and `b`.
pub open spec fn binop_math_t(op: BinOp, a: Term, b: Term) -> Term {
    match op {
        BinOp::And => app2_t(var_t("AND"@), a, b),
        BinOp::Or => app2_t(var_t("OR"@), a, b),
        BinOp::Xor => app2_t(var_t("XOR"@), a, b),
        BinOp::Shl32 => app2_t(var_t(shift_name(ShiftOp::Shl, 32)), a, b),
        BinOp::ShrU32 => app2_t(var_t(shift_name(ShiftOp::ShrU, 32)), a, b),
        BinOp::ShrS32 => app2_t(var_t(shift_name(ShiftOp::ShrS, 32)), a, b),
        BinOp::Shl64 => app2_t(var_t(shift_name(ShiftOp::Shl, 64)), a, b),
        BinOp::ShrU64 => app2_t(var_t(shift_name(ShiftOp::ShrU, 64)), a, b),
        BinOp::ShrS64 => app2_t(var_t(shift_name(ShiftOp::ShrS, 64)), a, b),
        BinOp::Rotl32 => app2_t(var_t(rot_name(true, 32)), a, b),
        BinOp::Rotr32 => app2_t(var_t(rot_name(false, 32)), a, b),
        BinOp::Rotl64 => app2_t(var_t(rot_name(true, 64)), a, b),
        BinOp::Rotr64 => app2_t(var_t(rot_name(false, 64)), a, b),
        BinOp::Add => app2_t(var_t("ADD"@), a, b),
        BinOp::Sub => app2_t(var_t("ADD"@), a, negate_t(b)),
        BinOp::Mul => app2_t(var_t("MUL"@), a, b),
    }
}

fn binop_math(rt: &mut RuntimeGenerator, op: BinOp, a: Expr, b: Expr) -> (e: Expr)
    requires
        old(rt).wf(),
    ensures
        final(rt).wf(),
        final(rt).st() == binop_math_st(old(rt).st(), op),
        e@ == binop_math_t(op, a@, b@),
{
    match op {
        BinOp::And => crate::codegen::runtime::math::logical::and(rt, a, b),
        BinOp::Or => crate::codegen::runtime::math::logical::or(rt, a, b),
        BinOp::Xor => crate::codegen::runtime::math::logical::xor(rt, a, b),
        BinOp::Shl32 => i32_shift_left(rt, a, b),
        BinOp::ShrU32 => i32_shift_right_unsigned(rt, a, b),
        BinOp::ShrS32 => i32_shift_right_signed(rt, a, b),
        BinOp::Shl64 => i64_shift_left(rt, a, b),
        BinOp::ShrU64 => i64_shift_right_unsigned(rt, a, b),
        BinOp::ShrS64 => i64_shift_right_signed(rt, a, b),
        BinOp::Rotl32 => logical::i32_rotate_left(rt, a, b),
        BinOp::Rotr32 => logical::i32_rotate_right(rt, a, b),
        BinOp::Rotl64 => logical::i64_rotate_left(rt, a, b),
        BinOp::Rotr64 => logical::i64_rotate_right(rt, a, b),
        BinOp::Add => crate::codegen::runtime::math::arithmetic::add(rt, a, b),
        BinOp::Sub => crate::codegen::runtime::math::arithmetic::sub(rt, a, b),
        BinOp::Mul => crate::codegen::runtime::math::arithmetic::mul(rt, a, b),
    }
}

pub open spec fn binop_def_t(op: BinOp) -> Term {
    unary_def_t(ab(), binop_math_t(op, var_t("a"@), var_t("b"@)))
}

pub open spec fn binop_st(s: RtState, op: BinOp) -> RtState {
    if s.has(binop_name(op)) {
        s
    } else {
        binop_math_st(s, op).def(binop_name(op), binop_def_t(op))
    }
}

/// The instruction of a binary operation: pops `a` and `b`, pushes the result.
fn binop(rt: &mut RuntimeGenerator, op: BinOp) -> (e: Expr)
    requires
        old(rt).wf(),
    ensures
        final(rt).wf(),
        final(rt).st() == binop_st(old(rt).st(), op),
        e@ == var_t(binop_name(op)),
{
    let name = binop_str(op);
    if !rt.has(name) {
        let mut b = InstructionBuilder::new();
        pop_vars(&mut b, true);
        let result = binop_math(rt, op, var("a"), var("b"));
        push_one(&mut b, result);
        rt.def(name, b.build());
    }
    var(name)
}

/// `i32.mul`, `i64.mul`.
pub fn mul(rt: &mut RuntimeGenerator) -> (e: Expr)
    requires
        old(rt).wf(),
    ensures
        final(rt).wf(),
        final(rt).st() == binop_st(old(rt).st(), BinOp::Mul),
        e@ == var_t(binop_name(BinOp::Mul)),
{
    binop(rt, BinOp::Mul)
}

pub open spec fn div_instr_name(signed: bool, bits: u8) -> Seq<char> {
    let prefix = if signed { "DivS"@ } else { "DivU"@ };
    prefix + dec_t(bits as nat)
}

/// The quotient of `a` by `b`, `None` where the division fails.
pub open spec fn div_q_t(signed: bool, bits: u8) -> Term {
    let name = if signed { div_s_name(bits) } else { div_name(bits) };
    app2_t(var_t(name), var_t("a"@), var_t("b"@))
}

/// Pops `b` and `a`, computes their quotient `q`, and pushes it.
pub open spec fn div_instr_defs_t(signed: bool, bits: u8) -> Seq<(Seq<char>, Term)> {
    pop_range_t(ab(), 0).push(("q"@, div_q_t(signed, bits)))
        + push_defs_t(seq![optional::unwrap_t(var_t("q"@))])
}

/// Goes on with the next instruction if there is a quotient; traps with the code of a division
/// error otherwise.
pub open spec fn div_cmd_t() -> Term {
    select_t(
        optional::is_some_t(var_t("q"@)),
        exec_t(app_t(app_t(var_t("Trap"@), num_t(false, 1)), v("N"@))),
        execute_next_t(),
    )
}

pub open spec fn div_instr_def_t(signed: bool, bits: u8) -> Term {
    build_with_t(div_instr_defs_t(signed, bits), div_cmd_t())
}

/// The state after the trap and the division utility are defined.
pub open spec fn div_math_st(s: RtState, signed: bool, bits: u8) -> RtState {
    let s1 = trap_st(s, TrapCode::DivisionError);
    if signed { div_s_st(s1, bits) } else { div_st(s1, bits) }
}

pub open spec fn div_instr_st(s: RtState, signed: bool, bits: u8) -> RtState {
    if s.has(div_instr_name(signed, bits)) {
        s
    } else {
        div_math_st(s, signed, bits).def(div_instr_name(signed, bits), div_instr_def_t(signed, bits))
    }
}

/// `i32.div_u`, `i32.div_s`, `i64.div_u`, `i64.div_s`: pops `b` and `a` and pushes their
/// quotient; traps with the code of a division error where `b` is zero or, for a signed
/// division, where the quotient is out of range.
pub fn div(rt: &mut RuntimeGenerator, signed: bool, bits: u8) -> (e: Expr)
    requires
        old(rt).wf(),
        bits == 32 || bits == 64,
    ensures
        final(rt).wf(),
        final(rt).st() == div_instr_st(old(rt).st(), signed, bits),
        e@ == var_t(div_instr_name(signed, bits)),
{
    let name = dec_name(if signed { "DivS" } else { "DivU" }, bits as u64);
    if !rt.has(name.as_str()) {
        let trap_instr = trap(rt, TrapCode::DivisionError);
        let mut b = InstructionBuilder::new();
        pop_vars(&mut b, true);
        let q = if signed {
            if bits == 32 { i32_div_signed(rt, var("a"), var("b")) } else { i64_div_signed(rt, var("a"), var("b")) }
        } else {
            if bits == 32 { i32_div_unsigned(rt, var("a"), var("b")) } else { i64_div_unsigned(rt, var("a"), var("b")) }
        };
        b.def("q", q);
        push_one(&mut b, optional::unwrap(var("q")));
        let cmd = select(optional::is_some(var("q")), exec(apply1(trap_instr, var("N"))), execute_next());
        proof {
            assert(b@ =~= div_instr_defs_t(signed, bits));
        }
        rt.def_string(name.clone(), b.build_with(cmd));
    }
    var_string(name)
}

pub open spec fn rem_instr_name(signed: bool, bits: u8) -> Seq<char> {
    let prefix = if signed { "RemS"@ } else { "RemU"@ };
    prefix + dec_t(bits as nat)
}

/// The number with all bits set: minus one, for a signed number.
pub open spec fn all_ones(bits: u8) -> u64 {
    if bits == 64 { 0xffff_ffff_ffff_ffff } else { 0xffff_ffff }
}

/// Whether `b` is minus one.
pub open spec fn b_is_minus_one_t(bits: u8) -> Term {
    app2_t(var_t("EQ"@), var_t("b"@), num_t(bits == 64, all_ones(bits)))
}

/// The remainder `a - q * b`; for a signed remainder, zero where `b` is minus one (the
/// quotient of the smallest number by minus one is out of range, but the remainder is zero).
pub open spec fn rem_value_t(signed: bool, bits: u8) -> Term {
    let diff = app2_t(
        var_t("ADD"@),
        var_t("a"@),
        negate_t(app2_t(var_t("MUL"@), optional::unwrap_t(var_t("q"@)), var_t("b"@))),
    );
    if signed {
        select_t(b_is_minus_one_t(bits), diff, num_t(bits == 64, 0))
    } else {
        diff
    }
}

/// Pops `b` and `a`, computes their quotient `q`, and pushes the remainder.
pub open spec fn rem_instr_defs_t(signed: bool, bits: u8) -> Seq<(Seq<char>, Term)> {
    pop_range_t(ab(), 0).push(("q"@, div_q_t(signed, bits))) + push_defs_t(seq![rem_value_t(signed, bits)])
}

/// Traps where the division fails, except for a signed remainder by minus one.
pub open spec fn rem_cmd_t(signed: bool, bits: u8) -> Term {
    if signed {
        select_t(b_is_minus_one_t(bits), div_cmd_t(), execute_next_t())
    } else {
        div_cmd_t()
    }
}

pub open spec fn rem_instr_def_t(signed: bool, bits: u8) -> Term {
    build_with_t(rem_instr_defs_t(signed, bits), rem_cmd_t(signed, bits))
}

/// The state after the trap, the division, multiplication and subtraction, and for a signed
/// remainder the comparison with minus one and zero, are defined.
pub open spec fn rem_math_st(s: RtState, signed: bool, bits: u8) -> RtState {
    let s1 = sub_st(mul_st(div_math_st(s, signed, bits)));
    if signed {
        eq_st(s1.with_num(bits == 64, all_ones(bits))).with_num(bits == 64, 0)
    } else {
        s1
    }
}

pub open spec fn rem_instr_st(s: RtState, signed: bool, bits: u8) -> RtState {
    if s.has(rem_instr_name(signed, bits)) {
        s
    } else {
        rem_math_st(s, signed, bits).def(rem_instr_name(signed, bits), rem_instr_def_t(signed, bits))
    }
}

/// `i32.rem_u`, `i32.rem_s`, `i64.rem_u`, `i64.rem_s`: pops `b` and `a` and pushes the
/// remainder of their division, whose sign is that of `a`; traps with the code of a division
/// error where `b` is zero.
pub fn rem(rt: &mut RuntimeGenerator, signed: bool, bits: u8) -> (e: Expr)
    requires
        old(rt).wf(),
        bits == 32 || bits == 64,
    ensures
        final(rt).wf(),
        final(rt).st() == rem_instr_st(old(rt).st(), signed, bits),
        e@ == var_t(rem_instr_name(signed, bits)),
{
    let name = dec_name(if signed { "RemS" } else { "RemU" }, bits as u64);
    if !rt.has(name.as_str()) {
        let trap_instr = trap(rt, TrapCode::DivisionError);
        let mut b = InstructionBuilder::new();
        pop_vars(&mut b, true);
        let q = if signed {
            if bits == 32 { i32_div_signed(rt, var("a"), var("b")) } else { i64_div_signed(rt, var("a"), var("b")) }
        } else {
            if bits == 32 { i32_div_unsigned(rt, var("a"), var("b")) } else { i64_div_unsigned(rt, var("a"), var("b")) }
        };
        b.def("q", q);
        let product = crate::codegen::runtime::math::arithmetic::mul(rt, optional::unwrap(var("q")), var("b"));
        let diff = crate::codegen::runtime::math::arithmetic::sub(rt, var("a"), product);
        let trap_cmd = select(optional::is_some(var("q")), exec(apply1(trap_instr, var("N"))), execute_next());
        let (value, cmd) = if signed {
            let minus_one = rt.num_const(bits == 64, if bits == 64 { 0xffff_ffff_ffff_ffff } else { 0xffff_ffff });
            let is_minus_one = equal(rt, var("b"), minus_one);
            let zero = rt.num_const(bits == 64, 0);
            let cmd = select(is_minus_one.duplicate(), trap_cmd, execute_next());
            (select(is_minus_one, diff, zero), cmd)
        } else {
            (diff, trap_cmd)
        };
        push_one(&mut b, value);
        proof {
            assert(b@ =~= rem_instr_defs_t(signed, bits));
        }
        rt.def_string(name.clone(), b.build_with(cmd));
    }
    var_string(name)
}

/// What a bit-count instruction counts.
#[derive(Clone, Copy, PartialEq, Eq, Structural)]
pub enum BitCount {
    LeadingZeroes,
    TrailingZeroes,
    Ones,
}

pub open spec fn bit_count_name(k: BitCount, bits: u8) -> Seq<char> {
    let prefix = match k {
        BitCount::LeadingZeroes => "Clz"@,
        BitCount::TrailingZeroes => "Ctz"@,
        BitCount::Ones => "Popcnt"@,
    };
    prefix + dec_t(bits as nat)
}

/// The state after the counting utility is defined.
pub open spec fn bit_count_math_st(s: RtState, k: BitCount, bits: u8) -> RtState {
    match k {
        BitCount::LeadingZeroes => clz_st(s, bits),
        BitCount::TrailingZeroes => count_st(s, false, bits),
        BitCount::Ones => count_st(s, true, bits),
    }
}

/// The count of `a`.
pub open spec fn bit_count_math_t(k: BitCount, bits: u8, a: Term) -> Term {
    match k {
        BitCount::LeadingZeroes => app_t(var_t(clz_name(bits)), a),
        BitCount::TrailingZeroes => app_t(var_t(count_name(false, bits)), a),
        BitCount::Ones => app_t(var_t(count_name(true, bits)), a),
    }
}

pub open spec fn bit_count_def_t(k: BitCount, bits: u8) -> Term {
    unary_def_t(seq!["a"@], bit_count_math_t(k, bits, var_t("a"@)))
}

pub open spec fn bit_count_st(s: RtState, k: BitCount, bits: u8) -> RtState {
    if s.has(bit_count_name(k, bits)) {
        s
    } else {
        bit_count_math_st(s, k, bits).def(bit_count_name(k, bits), bit_count_def_t(k, bits))
    }
}

fn bit_count_math(rt: &mut RuntimeGenerator, k: BitCount, bits: u8, a: Expr) -> (e: Expr)
    requires
        old(rt).wf(),
        bits == 32 || bits == 64,
    ensures
        final(rt).wf(),
        final(rt).st() == bit_count_math_st(old(rt).st(), k, bits),
        e@ == bit_count_math_t(k, bits, a@),
{
    match k {
        BitCount::LeadingZeroes => if bits == 32 {
            logical::i32_count_leading_zeroes(rt, a)
        } else {
            logical::i64_count_leading_zeroes(rt, a)
        },
        BitCount::TrailingZeroes => if bits == 32 {
            logical::i32_count_trailing_zeroes(rt, a)
        } else {
            logical::i64_count_trailing_zeroes(rt, a)
        },
        BitCount::Ones => if bits == 32 {
            logical::i32_count_ones(rt, a)
        } else {
            logical::i64_count_ones(rt, a)
        },
    }
}

/// `i32.clz`, `i32.ctz`, `i32.popcnt` and their 64-bit forms: pops `a`, pushes the count
/// of its leading zero bits, of its trailing zero bits, or of its one bits.
pub fn bit_count(rt: &mut RuntimeGenerator, k: BitCount, bits: u8) -> (e: Expr)
    requires
        old(rt).wf(),
        bits == 32 || bits == 64,
    ensures
        final(rt).wf(),
        final(rt).st() == bit_count_st(old(rt).st(), k, bits),
        e@ == var_t(bit_count_name(k, bits)),
{
    let prefix = match k {
        BitCount::LeadingZeroes => "Clz",
        BitCount::TrailingZeroes => "Ctz",
        BitCount::Ones => "Popcnt",
    };
    let name = dec_name(prefix, bits as u64);
    if !rt.has(name.as_str()) {
        let mut b = InstructionBuilder::new();
        pop_vars(&mut b, false);
        let result = bit_count_math(rt, k, bits, var("a"));
        push_one(&mut b, result);
        rt.def_string(name.clone(), b.build());
    }
    var_string(name)
}

/// `i32.and`, `i64.and`.
pub fn and(rt: &mut RuntimeGenerator) -> (e: Expr)
    requires
        old(rt).wf(),
    ensures
        final(rt).wf(),
        final(rt).st() == binop_st(old(rt).st(), BinOp::And),
        e@ == var_t(binop_name(BinOp::And)),
{
    binop(rt, BinOp::And)
}

/// `i32.or`, `i64.or`.
pub fn or(rt: &mut RuntimeGenerator) -> (e: Expr)
    requires
        old(rt).wf(),
    ensures
        final(rt).wf(),
        final(rt).st() == binop_st(old(rt).st(), BinOp::Or),
        e@ == var_t(binop_name(BinOp::Or)),
{
    binop(rt, BinOp::Or)
}

/// `i32.xor`, `i64.xor`.
pub fn xor(rt: &mut RuntimeGenerator) -> (e: Expr)
    requires
        old(rt).wf(),
    ensures
        final(rt).wf(),
        final(rt).st() == binop_st(old(rt).st(), BinOp::Xor),
        e@ == var_t(binop_name(BinOp::Xor)),
{
    binop(rt, BinOp::Xor)
}

/// `i32.add`, `i64.add`.
pub fn add(rt: &mut RuntimeGenerator) -> (e: Expr)
    requires
        old(rt).wf(),
    ensures
        final(rt).wf(),
        final(rt).st() == binop_st(old(rt).st(), BinOp::Add),
        e@ == var_t(binop_name(BinOp::Add)),
{
    binop(rt, BinOp::Add)
}

/// `i32.sub`, `i64.sub`.
pub fn sub(rt: &mut RuntimeGenerator) -> (e: Expr)
    requires
        old(rt).wf(),
    ensures
        final(rt).wf(),
        final(rt).st() == binop_st(old(rt).st(), BinOp::Sub),
        e@ == var_t(binop_name(BinOp::Sub)),
{
    binop(rt, BinOp::Sub)
}

/// `i32.shl`.
pub fn i32_shl(rt: &mut RuntimeGenerator) -> (e: Expr)
    requires
        old(rt).wf(),
    ensures
        final(rt).wf(),
        final(rt).st() == binop_st(old(rt).st(), BinOp::Shl32),
        e@ == var_t(binop_name(BinOp::Shl32)),
{
    binop(rt, BinOp::Shl32)
}

/// `i32.shr_u`.
pub fn i32_shr_u(rt: &mut RuntimeGenerator) -> (e: Expr)
    requires
        old(rt).wf(),
    ensures
        final(rt).wf(),
        final(rt).st() == binop_st(old(rt).st(), BinOp::ShrU32),
        e@ == var_t(binop_name(BinOp::ShrU32)),
{
    binop(rt, BinOp::ShrU32)
}

/// `i32.shr_s`.
pub fn i32_shr_s(rt: &mut RuntimeGenerator) -> (e: Expr)
    requires
        old(rt).wf(),
    ensures
        final(rt).wf(),
        final(rt).st() == binop_st(old(rt).st(), BinOp::ShrS32),
        e@ == var_t(binop_name(BinOp::ShrS32)),
{
    binop(rt, BinOp::ShrS32)
}

/// `i64.shl`.
pub fn i64_shl(rt: &mut RuntimeGenerator) -> (e: Expr)
    requires
        old(rt).wf(),
    ensures
        final(rt).wf(),
        final(rt).st() == binop_st(old(rt).st(), BinOp::Shl64),
        e@ == var_t(binop_name(BinOp::Shl64)),
{
    binop(rt, BinOp::Shl64)
}

/// `i64.shr_u`.
pub fn i64_shr_u(rt: &mut RuntimeGenerator) -> (e: Expr)
    requires
        old(rt).wf(),
    ensures
        final(rt).wf(),
        final(rt).st() == binop_st(old(rt).st(), BinOp::ShrU64),
        e@ == var_t(binop_name(BinOp::ShrU64)),
{
    binop(rt, BinOp::ShrU64)
}

/// `i64.shr_s`.
pub fn i64_shr_s(rt: &mut RuntimeGenerator) -> (e: Expr)
    requires
        old(rt).wf(),
    ensures
        final(rt).wf(),
        final(rt).st() == binop_st(old(rt).st(), BinOp::ShrS64),
        e@ == var_t(binop_name(BinOp::ShrS64)),
{
    binop(rt, BinOp::ShrS64)
}

/// `i32.rotl`.
pub fn i32_rotate_left(rt: &mut RuntimeGenerator) -> (e: Expr)
    requires
        old(rt).wf(),
    ensures
        final(rt).wf(),
        final(rt).st() == binop_st(old(rt).st(), BinOp::Rotl32),
        e@ == var_t(binop_name(BinOp::Rotl32)),
{
    binop(rt, BinOp::Rotl32)
}

/// `i32.rotr`.
pub fn i32_rotate_right(rt: &mut RuntimeGenerator) -> (e: Expr)
    requires
        old(rt).wf(),
    ensures
        final(rt).wf(),
        final(rt).st() == binop_st(old(rt).st(), BinOp::Rotr32),
        e@ == var_t(binop_name(BinOp::Rotr32)),
{
    binop(rt, BinOp::Rotr32)
}

/// `i64.rotl`.
pub fn i64_rotate_left(rt: &mut RuntimeGenerator) -> (e: Expr)
    requires
        old(rt).wf(),
    ensures
        final(rt).wf(),
        final(rt).st() == binop_st(old(rt).st(), BinOp::Rotl64),
        e@ == var_t(binop_name(BinOp::Rotl64)),
{
    binop(rt, BinOp::Rotl64)
}

/// `i64.rotr`.
pub fn i64_rotate_right(rt: &mut RuntimeGenerator) -> (e: Expr)
    requires
        old(rt).wf(),
    ensures
        final(rt).wf(),
        final(rt).st() == binop_st(old(rt).st(), BinOp::Rotr64),
        e@ == var_t(binop_name(BinOp::Rotr64)),
{
    binop(rt, BinOp::Rotr64)
}

/// A comparison of the numeric instructions.
#[derive(PartialEq, Eq, Structural, Clone, Copy)]
pub enum CompareOp {
    Eq,
    Ne,
    LtU,
    LeU,
    GtU,
    GeU,
    LtS,
    LeS,
    GtS,
    GeS,
}

pub open spec fn compare_name(op: CompareOp) -> Seq<char> {
    match op {
        CompareOp::Eq => "Eq"@,
        CompareOp::Ne => "Ne"@,
        CompareOp::LtU => "LtU"@,
        CompareOp::LeU => "LeU"@,
        CompareOp::GtU => "GtU"@,
        CompareOp::GeU => "GeU"@,
        CompareOp::LtS => "LtS"@,
        CompareOp::LeS => "LeS"@,
        CompareOp::GtS => "GtS"@,
        CompareOp::GeS => "GeS"@,
    }
}

fn compare_str(op: CompareOp) -> (s: &'static str)
    ensures
        s@ == compare_name(op),
{
    match op {
        CompareOp::Eq => "Eq",
        CompareOp::Ne => "Ne",
        CompareOp::LtU => "LtU",
        CompareOp::LeU => "LeU",
        CompareOp::GtU => "GtU",
        CompareOp::GeU => "GeU",
        CompareOp::LtS => "LtS",
        CompareOp::LeS => "LeS",
        CompareOp::GtS => "GtS",
        CompareOp::GeS => "GeS",
    }
}

/// The state after the mathematical utility of a comparison is defined.
pub open spec fn compare_math_st(s: RtState, op: CompareOp) -> RtState {
    match op {
        CompareOp::Eq | CompareOp::Ne => eq_st(s),
        CompareOp::LtU | CompareOp::GeU => compare_st(s, true),
        CompareOp::LeU | CompareOp::GtU => compare_st(s, false),
        CompareOp::LtS | CompareOp::GeS => compare_s_st(s, true),
        CompareOp::LeS | CompareOp::GtS => compare_s_st(s, false),
    }
}

/// The bit that a comparison of `a` and `b` gives.
pub open spec fn compare_math_t(op: CompareOp, a: Term, b: Term) -> Term {
    match op {
        CompareOp::Eq => app2_t(var_t("EQ"@), a, b),
        CompareOp::Ne => bit_not_t(app2_t(var_t("EQ"@), a, b)),
        CompareOp::LtU => app2_t(var_t("LT"@), a, b),
        CompareOp::LeU => app2_t(var_t("LE"@), a, b),
        CompareOp::GtU => bit_not_t(app2_t(var_t("LE"@), a, b)),
        CompareOp::GeU => bit_not_t(app2_t(var_t("LT"@), a, b)),
        CompareOp::LtS => app2_t(var_t("_LTs"@), a, b),
        CompareOp::LeS => app2_t(var_t("_LEs"@), a, b),
        CompareOp::GtS => bit_not_t(app2_t(var_t("_LEs"@), a, b)),
        CompareOp::GeS => bit_not_t(app2_t(var_t("_LTs"@), a, b)),
    }
}

fn compare_math(rt: &mut RuntimeGenerator, op: CompareOp, a: Expr, b: Expr) -> (e: Expr)
    requires
        old(rt).wf(),
    ensures
        final(rt).wf(),
        final(rt).st() == compare_math_st(old(rt).st(), op),
        e@ == compare_math_t(op, a@, b@),
{
    match op {
        CompareOp::Eq => equal(rt, a, b),
        CompareOp::Ne => not_equal(rt, a, b),
        CompareOp::LtU => less_unsigned(rt, a, b),
        CompareOp::LeU => less_equal_unsigned(rt, a, b),
        CompareOp::GtU => greater_unsigned(rt, a, b),
        CompareOp::GeU => greater_equal_unsigned(rt, a, b),
        CompareOp::LtS => less_signed(rt, a, b),
        CompareOp::LeS => less_equal_signed(rt, a, b),
        CompareOp::GtS => greater_signed(rt, a, b),
        CompareOp::GeS => greater_equal_signed(rt, a, b),
    }
}

pub open spec fn compare_def_t(op: CompareOp) -> Term {
    unary_def_t(ab(), bool_t(compare_math_t(op, var_t("a"@), var_t("b"@))))
}

pub open spec fn compare_instr_st(s: RtState, op: CompareOp) -> RtState {
    if s.has(compare_name(op)) {
        s
    } else {
        compare_math_st(s, op).with_i32(0).with_i32(1).def(compare_name(op), compare_def_t(op))
    }
}

/// The instruction of a comparison: pops `a` and `b`, pushes 1 if the comparison holds, else 0.
fn compare(rt: &mut RuntimeGenerator, op: CompareOp) -> (e: Expr)
    requires
        old(rt).wf(),
    ensures
        final(rt).wf(),
        final(rt).st() == compare_instr_st(old(rt).st(), op),
        e@ == var_t(compare_name(op)),
{
    let name = compare_str(op);
    if !rt.has(name) {
        let mut b = InstructionBuilder::new();
        pop_vars(&mut b, true);
        let result_bit = compare_math(rt, op, var("a"), var("b"));
        let zero = rt.i32_const(0);
        let one = rt.i32_const(1);
        push_one(&mut b, select(result_bit, zero, one));
        rt.def(name, b.build());
    }
    var(name)
}

/// `i32.eq`, `i64.eq`.
pub fn eq(rt: &mut RuntimeGenerator) -> (e: Expr)
    requires
        old(rt).wf(),
    ensures
        final(rt).wf(),
        final(rt).st() == compare_instr_st(old(rt).st(), CompareOp::Eq),
        e@ == var_t(compare_name(CompareOp::Eq)),
{
    compare(rt, CompareOp::Eq)
}

/// `i32.ne`, `i64.ne`.
pub fn ne(rt: &mut RuntimeGenerator) -> (e: Expr)
    requires
        old(rt).wf(),
    ensures
        final(rt).wf(),
        final(rt).st() == compare_instr_st(old(rt).st(), CompareOp::Ne),
        e@ == var_t(compare_name(CompareOp::Ne)),
{
    compare(rt, CompareOp::Ne)
}

/// `i32.lt_u`, `i64.lt_u`.
pub fn lt_u(rt: &mut RuntimeGenerator) -> (e: Expr)
    requires
        old(rt).wf(),
    ensures
        final(rt).wf(),
        final(rt).st() == compare_instr_st(old(rt).st(), CompareOp::LtU),
        e@ == var_t(compare_name(CompareOp::LtU)),
{
    compare(rt, CompareOp::LtU)
}

/// `i32.le_u`, `i64.le_u`.
pub fn le_u(rt: &mut RuntimeGenerator) -> (e: Expr)
    requires
        old(rt).wf(),
    ensures
        final(rt).wf(),
        final(rt).st() == compare_instr_st(old(rt).st(), CompareOp::LeU),
        e@ == var_t(compare_name(CompareOp::LeU)),
{
    compare(rt, CompareOp::LeU)
}

/// `i32.gt_u`, `i64.gt_u`.
pub fn gt_u(rt: &mut RuntimeGenerator) -> (e: Expr)
    requires
        old(rt).wf(),
    ensures
        final(rt).wf(),
        final(rt).st() == compare_instr_st(old(rt).st(), CompareOp::GtU),
        e@ == var_t(compare_name(CompareOp::GtU)),
{
    compare(rt, CompareOp::GtU)
}

/// `i32.ge_u`, `i64.ge_u`.
pub fn ge_u(rt: &mut RuntimeGenerator) -> (e: Expr)
    requires
        old(rt).wf(),
    ensures
        final(rt).wf(),
        final(rt).st() == compare_instr_st(old(rt).st(), CompareOp::GeU),
        e@ == var_t(compare_name(CompareOp::GeU)),
{
    compare(rt, CompareOp::GeU)
}

/// `i32.lt_s`, `i64.lt_s`.
pub fn lt_s(rt: &mut RuntimeGenerator) -> (e: Expr)
    requires
        old(rt).wf(),
    ensures
        final(rt).wf(),
        final(rt).st() == compare_instr_st(old(rt).st(), CompareOp::LtS),
        e@ == var_t(compare_name(CompareOp::LtS)),
{
    compare(rt, CompareOp::LtS)
}

/// `i32.le_s`, `i64.le_s`.
pub fn le_s(rt: &mut RuntimeGenerator) -> (e: Expr)
    requires
        old(rt).wf(),
    ensures
        final(rt).wf(),
        final(rt).st() == compare_instr_st(old(rt).st(), CompareOp::LeS),
        e@ == var_t(compare_name(CompareOp::LeS)),
{
    compare(rt, CompareOp::LeS)
}

/// `i32.gt_s`, `i64.gt_s`.
pub fn gt_s(rt: &mut RuntimeGenerator) -> (e: Expr)
    requires
        old(rt).wf(),
    ensures
        final(rt).wf(),
        final(rt).st() == compare_instr_st(old(rt).st(), CompareOp::GtS),
        e@ == var_t(compare_name(CompareOp::GtS)),
{
    compare(rt, CompareOp::GtS)
}

/// `i32.ge_s`, `i64.ge_s`.
pub fn ge_s(rt: &mut RuntimeGenerator) -> (e: Expr)
    requires
        old(rt).wf(),
    ensures
        final(rt).wf(),
        final(rt).st() == compare_instr_st(old(rt).st(), CompareOp::GeS),
        e@ == var_t(compare_name(CompareOp::GeS)),
{
    compare(rt, CompareOp::GeS)
}

pub open spec fn wrap_def_t() -> Term {
    unary_def_t(seq!["a"@], wrap_t(var_t("a"@), false))
}

pub open spec fn i32_wrap_i64_st(s: RtState) -> RtState {
    if s.has("I32WrapI64"@) {
        s
    } else {
        wrap_st(s, false).def("I32WrapI64"@, wrap_def_t())
    }
}

/// `i32.wrap_i64`: keeps the lower 32 bits.
pub fn i32_wrap_i64(rt: &mut RuntimeGenerator) -> (e: Expr)
    requires
        old(rt).wf(),
    ensures
        final(rt).wf(),
        final(rt).st() == i32_wrap_i64_st(old(rt).st()),
        e@ == var_t("I32WrapI64"@),
{
    if !rt.has("I32WrapI64") {
        let mut b = InstructionBuilder::new();
        pop_vars(&mut b, false);
        let result = wrap_i32(rt, var("a"));
        push_one(&mut b, result);
        rt.def("I32WrapI64", b.build());
    }
    var("I32WrapI64")
}

pub open spec fn extend_i32_name(signed: bool) -> Seq<char> {
    if signed { "I64ExtendI32S"@ } else { "I64ExtendI32U"@ }
}

pub open spec fn widened_t() -> Term {
    app2_t(var_t("WIDEN"@), var_t("a"@), num_t(true, 0))
}

pub open spec fn extend_i32_def_t(signed: bool) -> Term {
    unary_def_t(seq!["a"@], if signed { sign_extend_t(widened_t(), 64, 32) } else { widened_t() })
}

pub open spec fn i64_extend_i32_st(s: RtState, signed: bool) -> RtState {
    if s.has(extend_i32_name(signed)) {
        s
    } else {
        let s1 = widen_st(s.with_i64(0));
        let s2 = if signed { sign_extend_st(s1, 64, 32) } else { s1 };
        s2.def(extend_i32_name(signed), extend_i32_def_t(signed))
    }
}

/// `i64.extend_i32_s`, `i64.extend_i32_u`.
pub fn i64_extend_i32(rt: &mut RuntimeGenerator, signed: bool) -> (e: Expr)
    requires
        old(rt).wf(),
    ensures
        final(rt).wf(),
        final(rt).st() == i64_extend_i32_st(old(rt).st(), signed),
        e@ == var_t(extend_i32_name(signed)),
{
    let name = if signed { "I64ExtendI32S" } else { "I64ExtendI32U" };
    if !rt.has(name) {
        let mut b = InstructionBuilder::new();
        pop_vars(&mut b, false);
        let mut result = widen_i64(rt, var("a"));
        if signed {
            result = sign_extend(rt, result, 64, 32);
        }
        push_one(&mut b, result);
        rt.def(name, b.build());
    }
    var(name)
}

pub open spec fn extend_s_name(target_bits: u8, source_bits: u8) -> Seq<char> {
    "I"@ + dec_t(target_bits as nat) + "Extend"@ + dec_t(source_bits as nat) + "S"@
}

fn extend_s_string(target_bits: u8, source_bits: u8) -> (s: String)
    ensures
        s@ == extend_s_name(target_bits, source_bits),
{
    let mut s = String::from_str("I");
    write_radix(target_bits as u64, 10, false, &mut s);
    s.append("Extend");
    write_radix(source_bits as u64, 10, false, &mut s);
    s.append("S");
    s
}

pub open spec fn extend_s_def_t(target_bits: u8, source_bits: u8) -> Term {
    unary_def_t(seq!["a"@], sign_extend_t(var_t("a"@), target_bits, source_bits))
}

pub open spec fn extend_s_st(s: RtState, target_bits: u8, source_bits: u8) -> RtState {
    if s.has(extend_s_name(target_bits, source_bits)) {
        s
    } else {
        sign_extend_st(s, target_bits, source_bits)
            .def(extend_s_name(target_bits, source_bits), extend_s_def_t(target_bits, source_bits))
    }
}

/// `i32.extend8_s` and the like: sign-extends the `source_bits` lowest bits of a
/// `target_bits`-wide number.
pub fn extend_s(rt: &mut RuntimeGenerator, target_bits: u8, source_bits: u8) -> (e: Expr)
    requires
        old(rt).wf(),
        extend_widths_ok(target_bits, source_bits),
    ensures
        final(rt).wf(),
        final(rt).st() == extend_s_st(old(rt).st(), target_bits, source_bits),
        e@ == var_t(extend_s_name(target_bits, source_bits)),
{
    let name = extend_s_string(target_bits, source_bits);
    if !rt.has(name.as_str()) {
        let mut b = InstructionBuilder::new();
        pop_vars(&mut b, false);
        let result = sign_extend(rt, var("a"), target_bits, source_bits);
        push_one(&mut b, result);
        rt.def_string(name.clone(), b.build());
    }
    var_string(name)
}

} // verus!
