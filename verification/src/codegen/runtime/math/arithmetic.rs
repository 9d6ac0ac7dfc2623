//! Addition, subtraction, multiplication and division of little-endian numbers.

use vstd::prelude::*;

use crate::codegen::lambda::{
    abs1, abs2, abs3, abs4, abs_t, app_t, app2_t, app3_t, app4_t, apply1, apply2, apply3, apply4,
    bit, bit_t, let_t, list, number, optional, rec, rec_t, select, select_t, var, var_string,
    var_t, Expr, LetExprBuilder, Term,
};
use crate::codegen::lambda::number::{i32_name_t, i64_name_t};
use crate::codegen::runtime::math::comparisons::{
    compare_st, eq_st, eqz_st, equal, greater_equal_unsigned, is_zero, lemma_compare_ordered,
    lemma_eq_ordered, lemma_eqz_ordered,
};
use crate::codegen::runtime::math::logical::{inv_st, invert, lemma_inv_ordered};
use crate::codegen::runtime::math::{
    bit_and, bit_and_t, bit_not_t, bit_or, bit_or_t, bit_xor, bit_xor_t,
};
use crate::codegen::lambda::scope::scoped;
use crate::codegen::runtime::{
    core_names_in, grows, in_scope, lemma_core_names, lemma_grows_def, lemma_grows_def_rec, lemma_grows_i32,
    lemma_grows_i64, lemma_grows_pair, lemma_grows_refl, lemma_grows_trans, lemma_has_in_scope,
    rt_ok, RtState, RuntimeGenerator,
};
use crate::codegen::text::{dec_name, dec_t};

verus! {

/// Full adder: `x = a xor b`, `sum = x xor carry`, `carry_out = (a and b) or (x and carry)`.
pub open spec fn add_helper_t() -> Term {
    let a_head = list::head_t(var_t("a"@));
    let b_head = list::head_t(var_t("b"@));
    let sum_head = bit_xor_t(var_t("x"@), var_t("c"@));
    let carry_out = bit_or_t(bit_and_t(a_head, b_head), bit_and_t(var_t("x"@), var_t("c"@)));
    let sum_tail = app3_t(rec_t(var_t("_ADD"@)), carry_out, list::tail_t(var_t("a"@)), list::tail_t(var_t("b"@)));
    abs_t("c"@, abs_t("a"@, abs_t("b"@, let_t(
        "x"@,
        bit_xor_t(a_head, b_head),
        select_t(list::is_not_empty_t(var_t("a"@)), list::empty_t(), list::node_t(sum_head, sum_tail)),
    ))))
}

pub open spec fn add_st(s: RtState) -> RtState {
    if s.has("ADD"@) {
        s
    } else {
        s.def_rec("_ADD"@, add_helper_t()).def("ADD"@, app_t(rec_t(var_t("_ADD"@)), bit_t(false)))
    }
}

/// `b` must not be shorter than `a`. The result is as wide as `a`.
pub fn add(rt: &mut RuntimeGenerator, a: Expr, b: Expr) -> (e: Expr)
    requires
        old(rt).wf(),
    ensures
        final(rt).wf(),
        final(rt).st() == add_st(old(rt).st()),
        e@ == app2_t(var_t("ADD"@), a@, b@),
{
    if !rt.has("ADD") {
        let mut defs = LetExprBuilder::new();
        let a_head = list::get_head(var("a"));
        let b_head = list::get_head(var("b"));
        defs.def("x", bit_xor(a_head.duplicate(), b_head.duplicate()));
        let sum_head = bit_xor(var("x"), var("c"));
        let carry_out = bit_or(bit_and(a_head, b_head), bit_and(var("x"), var("c")));
        let sum_tail = apply3(rec(var("_ADD")), carry_out, list::get_tail(var("a")), list::get_tail(var("b")));
        let body = select(list::is_not_empty(var("a")), list::empty(), list::node(sum_head, sum_tail));
        let ghost ds = defs@;
        let built = defs.build_in(body);
        proof {
            assert(ds.drop_first() =~= Seq::<(Seq<char>, Term)>::empty());
            reveal_with_fuel(crate::codegen::lambda::lets_t, 2);
        }
        rt.def_rec("_ADD", abs3("c", "a", "b", built));
        rt.def("ADD", apply1(rec(var("_ADD")), bit(false)));
    }
    apply2(var("ADD"), a, b)
}

/// Adding 1 flips the leading ones and the first zero bit (little-endian).
pub open spec fn inc_helper_t() -> Term {
    let a_head = list::head_t(var_t("a"@));
    let a_tail = list::tail_t(var_t("a"@));
    abs_t("a"@, select_t(
        list::is_not_empty_t(var_t("a"@)),
        list::empty_t(),
        select_t(
            a_head,
            list::node_t(bit_t(true), a_tail),
            list::node_t(bit_t(false), app_t(rec_t(var_t("_INC"@)), a_tail)),
        ),
    ))
}

pub open spec fn inc_st(s: RtState) -> RtState {
    if s.has("INC"@) {
        s
    } else {
        s.def_rec("_INC"@, inc_helper_t()).def("INC"@, rec_t(var_t("_INC"@)))
    }
}

/// Fast algorithm for adding 1 to a number.
pub fn increment(rt: &mut RuntimeGenerator, a: Expr) -> (e: Expr)
    requires
        old(rt).wf(),
    ensures
        final(rt).wf(),
        final(rt).st() == inc_st(old(rt).st()),
        e@ == app_t(var_t("INC"@), a@),
{
    if !rt.has("INC") {
        let a_head = list::get_head(var("a"));
        let a_tail = list::get_tail(var("a"));
        let body = select(
            list::is_not_empty(var("a")),
            list::empty(),
            select(
                a_head,
                list::node(bit(true), a_tail.duplicate()),
                list::node(bit(false), apply1(rec(var("_INC")), a_tail)),
            ),
        );
        rt.def_rec("_INC", abs1("a", body));
        rt.def("INC", rec(var("_INC")));
    }
    apply1(var("INC"), a)
}

pub open spec fn negate_st(s: RtState) -> RtState {
    inc_st(inv_st(s))
}

pub open spec fn negate_t(a: Term) -> Term {
    app_t(var_t("INC"@), app_t(var_t("INV"@), a))
}

pub fn negate(rt: &mut RuntimeGenerator, a: Expr) -> (e: Expr)
    requires
        old(rt).wf(),
    ensures
        final(rt).wf(),
        final(rt).st() == negate_st(old(rt).st()),
        e@ == negate_t(a@),
{
    let a_inverted = invert(rt, a);
    increment(rt, a_inverted)
}

pub open spec fn sub_st(s: RtState) -> RtState {
    add_st(negate_st(s))
}

pub fn sub(rt: &mut RuntimeGenerator, a: Expr, b: Expr) -> (e: Expr)
    requires
        old(rt).wf(),
    ensures
        final(rt).wf(),
        final(rt).st() == sub_st(old(rt).st()),
        e@ == app2_t(var_t("ADD"@), a@, negate_t(b@)),
{
    let b_negated = negate(rt, b);
    self::add(rt, a, b_negated)
}

/// `a x b = if A then cons(B, b' + a' x b) else cons(0, a' x b)` in little-endian terms.
pub open spec fn mul_helper_t() -> Term {
    let tail0 = app2_t(rec_t(var_t("_MUL"@)), list::tail_t(var_t("a"@)), var_t("b"@));
    let tail1 = app2_t(var_t("ADD"@), tail0, list::tail_t(var_t("b"@)));
    abs_t("a"@, abs_t("b"@, select_t(
        list::is_not_empty_t(var_t("a"@)),
        list::empty_t(),
        select_t(
            list::head_t(var_t("a"@)),
            list::node_t(bit_t(false), tail0),
            list::node_t(list::head_t(var_t("b"@)), tail1),
        ),
    )))
}

pub open spec fn mul_st(s: RtState) -> RtState {
    if s.has("MUL"@) {
        s
    } else {
        add_st(s).def_rec("_MUL"@, mul_helper_t()).def("MUL"@, rec_t(var_t("_MUL"@)))
    }
}

/// Multiplies two numbers of the same bit width. The result is of the same width.
pub fn mul(rt: &mut RuntimeGenerator, a: Expr, b: Expr) -> (e: Expr)
    requires
        old(rt).wf(),
    ensures
        final(rt).wf(),
        final(rt).st() == mul_st(old(rt).st()),
        e@ == app2_t(var_t("MUL"@), a@, b@),
{
    if !rt.has("MUL") {
        let tail0 = apply2(rec(var("_MUL")), list::get_tail(var("a")), var("b"));
        let tail1 = self::add(rt, tail0.duplicate(), list::get_tail(var("b")));
        let body = select(
            list::is_not_empty(var("a")),
            list::empty(),
            select(
                list::get_head(var("a")),
                list::node(bit(false), tail0),
                list::node(list::get_head(var("b")), tail1),
            ),
        );
        rt.def_rec("_MUL", abs2("a", "b", body));
        rt.def("MUL", rec(var("_MUL")));
    }
    apply2(var("MUL"), a, b)
}

pub open spec fn leadz_helper_t() -> Term {
    let recurse = |zeroes: Term| app2_t(rec_t(var_t("_LEADZ"@)), zeroes, list::tail_t(var_t("a"@)));
    abs_t("z"@, abs_t("a"@, select_t(
        list::is_not_empty_t(var_t("a"@)),
        var_t("z"@),
        select_t(
            list::head_t(var_t("a"@)),
            recurse(list::node_t(bit_t(false), var_t("z"@))),
            recurse(list::empty_t()),
        ),
    )))
}

pub open spec fn leadz_st(s: RtState) -> RtState {
    if s.has("LEADZ"@) {
        s
    } else {
        s.def_rec("_LEADZ"@, leadz_helper_t()).def("LEADZ"@, app_t(rec_t(var_t("_LEADZ"@)), list::empty_t()))
    }
}

/// Returns a list of the leading zeroes of the given number.
fn get_leading_zeroes(rt: &mut RuntimeGenerator, a: Expr) -> (e: Expr)
    requires
        old(rt).wf(),
    ensures
        final(rt).wf(),
        final(rt).st() == leadz_st(old(rt).st()),
        e@ == app_t(var_t("LEADZ"@), a@),
{
    if !rt.has("LEADZ") {
        let more_zeroes = list::node(bit(false), var("z"));
        let recurse_more = apply2(rec(var("_LEADZ")), more_zeroes, list::get_tail(var("a")));
        let recurse_empty = apply2(rec(var("_LEADZ")), list::empty(), list::get_tail(var("a")));
        let definition = abs2("z", "a", select(
            list::is_not_empty(var("a")),
            var("z"),
            select(list::get_head(var("a")), recurse_more, recurse_empty),
        ));
        rt.def_rec("_LEADZ", definition);
        rt.def("LEADZ", apply1(rec(var("_LEADZ")), list::empty()));
    }
    apply1(var("LEADZ"), a)
}

pub open spec fn subz_helper_t() -> Term {
    abs_t("a"@, abs_t("b"@, select_t(
        list::is_not_empty_t(var_t("a"@)),
        list::empty_t(),
        select_t(
            list::is_not_empty_t(var_t("b"@)),
            var_t("a"@),
            app2_t(rec_t(var_t("_SUBZ"@)), list::tail_t(var_t("a"@)), list::tail_t(var_t("b"@))),
        ),
    )))
}

pub open spec fn subz_st(s: RtState) -> RtState {
    if s.has("SUBZ"@) {
        s
    } else {
        s.def_rec("_SUBZ"@, subz_helper_t()).def("SUBZ"@, rec_t(var_t("_SUBZ"@)))
    }
}

/// Subtracts one list of zeroes (`b`) from another (`a`); empty if `b` is longer.
fn sub_zeroes(rt: &mut RuntimeGenerator, a: Expr, b: Expr) -> (e: Expr)
    requires
        old(rt).wf(),
    ensures
        final(rt).wf(),
        final(rt).st() == subz_st(old(rt).st()),
        e@ == app2_t(var_t("SUBZ"@), a@, b@),
{
    if !rt.has("SUBZ") {
        let recurse = apply2(rec(var("_SUBZ")), list::get_tail(var("a")), list::get_tail(var("b")));
        let definition = abs2("a", "b", select(
            list::is_not_empty(var("a")),
            list::empty(),
            select(list::is_not_empty(var("b")), var("a"), recurse),
        ));
        rt.def_rec("_SUBZ", definition);
        rt.def("SUBZ", rec(var("_SUBZ")));
    }
    apply2(var("SUBZ"), a, b)
}

pub open spec fn prepz_helper_t() -> Term {
    abs_t("a"@, abs_t("z"@, select_t(
        list::is_not_empty_t(var_t("z"@)),
        var_t("a"@),
        list::node_t(list::head_t(var_t("z"@)), app2_t(rec_t(var_t("_PREPZ"@)), var_t("a"@), list::tail_t(var_t("z"@)))),
    )))
}

pub open spec fn prepz_st(s: RtState) -> RtState {
    if s.has("PREPZ"@) {
        s
    } else {
        s.def_rec("_PREPZ"@, prepz_helper_t()).def("PREPZ"@, rec_t(var_t("_PREPZ"@)))
    }
}

/// Prepends the given list of zeroes to the given number.
fn prepend_zeroes(rt: &mut RuntimeGenerator, a: Expr, zeroes: Expr) -> (e: Expr)
    requires
        old(rt).wf(),
    ensures
        final(rt).wf(),
        final(rt).st() == prepz_st(old(rt).st()),
        e@ == app2_t(var_t("PREPZ"@), a@, zeroes@),
{
    if !rt.has("PREPZ") {
        let recurse_tail = apply2(rec(var("_PREPZ")), var("a"), list::get_tail(var("z")));
        let definition = abs2("a", "z", select(
            list::is_not_empty(var("z")),
            var("a"),
            list::node(list::get_head(var("z")), recurse_tail),
        ));
        rt.def_rec("_PREPZ", definition);
        rt.def("PREPZ", rec(var("_PREPZ")));
    }
    apply2(var("PREPZ"), a, zeroes)
}

pub open spec fn div_helper_t() -> Term {
    let b_le_a = bit_not_t(app2_t(var_t("LT"@), var_t("a"@), var_t("b"@)));
    let new_a = select_t(var_t("b_le_a"@), var_t("a"@), app2_t(var_t("ADD"@), var_t("a"@), negate_t(var_t("b"@))));
    let new_res = select_t(var_t("b_le_a"@), var_t("res"@), app2_t(var_t("ADD"@), var_t("res"@), var_t("part"@)));
    let body = select_t(
        list::head_t(var_t("part"@)),
        app4_t(
            rec_t(var_t("_DIV"@)),
            var_t("a"@),
            list::tail_t(var_t("b"@)),
            list::tail_t(var_t("part"@)),
            var_t("res"@),
        ),
        var_t("res"@),
    );
    abs_t("a"@, abs_t("b"@, abs_t("part"@, abs_t("res"@, let_t("b_le_a"@, b_le_a, let_t("a"@, new_a, let_t("res"@, new_res, body)))))))
}

pub open spec fn div_helper_st(s: RtState) -> RtState {
    if s.has("_DIV"@) {
        s
    } else {
        add_st(sub_st(compare_st(s, true))).def_rec("_DIV"@, div_helper_t())
    }
}

/// Long division of `a` by `b` (shifted left), building the result from `partial_result`.
fn div_helper(rt: &mut RuntimeGenerator, a: Expr, b: Expr, partial_result: Expr, result_init: Expr) -> (e: Expr)
    requires
        old(rt).wf(),
    ensures
        final(rt).wf(),
        final(rt).st() == div_helper_st(old(rt).st()),
        e@ == app4_t(rec_t(var_t("_DIV"@)), a@, b@, partial_result@, result_init@),
{
    if !rt.has("_DIV") {
        let mut defs = LetExprBuilder::new();
        // The order here is important because `b` may be wider than `a`
        let ge = greater_equal_unsigned(rt, var("a"), var("b"));
        defs.def("b_le_a", ge);
        let diff = self::sub(rt, var("a"), var("b"));
        defs.def("a", select(var("b_le_a"), var("a"), diff));
        let sum = self::add(rt, var("res"), var("part"));
        defs.def("res", select(var("b_le_a"), var("res"), sum));
        let body = select(
            list::get_head(var("part")),
            apply4(rec(var("_DIV")), var("a"), list::get_tail(var("b")), list::get_tail(var("part")), var("res")),
            var("res"),
        );
        let ghost ds = defs@;
        let built = defs.build_in(body);
        proof {
            assert(ds.drop_first().drop_first().drop_first() =~= Seq::<(Seq<char>, Term)>::empty());
            reveal_with_fuel(crate::codegen::lambda::lets_t, 4);
        }
        rt.def_rec("_DIV", abs4("a", "b", "part", "res", built));
    }
    apply4(rec(var("_DIV")), a, b, partial_result, result_init)
}

pub open spec fn div_name(bits: u8) -> Seq<char> {
    "DIV"@ + dec_t(bits as nat)
}

/// The constants `0` and `1` of the given width.
pub open spec fn zero_t(bits: u8) -> Term {
    if bits == 32 { var_t(i32_name_t(0)) } else { var_t(i64_name_t(0)) }
}

pub open spec fn one_t(bits: u8) -> Term {
    if bits == 32 { var_t(i32_name_t(1)) } else { var_t(i64_name_t(1)) }
}

pub open spec fn with_zero_one(s: RtState, bits: u8) -> RtState {
    if bits == 32 { s.with_i32(0).with_i32(1) } else { s.with_i64(0).with_i64(1) }
}

pub open spec fn div_def_t(bits: u8) -> Term {
    let b = app2_t(var_t("PREPZ"@), var_t("b"@), var_t("z"@));
    let partial = app2_t(var_t("PREPZ"@), one_t(bits), var_t("z"@));
    abs_t("a"@, abs_t("b"@, let_t(
        "z"@,
        app2_t(var_t("SUBZ"@), app_t(var_t("LEADZ"@), var_t("b"@)), app_t(var_t("LEADZ"@), var_t("a"@))),
        select_t(
            app_t(var_t("EQZ"@), var_t("b"@)),
            optional::some_t(app4_t(rec_t(var_t("_DIV"@)), var_t("a"@), b, partial, zero_t(bits))),
            optional::none_t(),
        ),
    )))
}

pub open spec fn div_st(s: RtState, bits: u8) -> RtState {
    if s.has(div_name(bits)) {
        s
    } else {
        let s = leadz_st(leadz_st(with_zero_one(s, bits)));
        let s = prepz_st(prepz_st(subz_st(s)));
        div_helper_st(eqz_st(s)).def(div_name(bits), div_def_t(bits))
    }
}

/// Unsigned division of two numbers of the given width; `None` if `b` is zero.
fn div(rt: &mut RuntimeGenerator, a: Expr, b: Expr, bits: u8) -> (e: Expr)
    requires
        old(rt).wf(),
        bits == 32 || bits == 64,
    ensures
        final(rt).wf(),
        final(rt).st() == div_st(old(rt).st(), bits),
        e@ == app2_t(var_t(div_name(bits)), a@, b@),
{
    let name = dec_name("DIV", bits as u64);
    if !rt.has(name.as_str()) {
        // Long division: shift `b` left until it is as long as `a`, then subtract it where
        // it fits while shifting it back right.
        let (result_init, partial_result) = if bits == 32 {
            let z = rt.i32_const(0);
            (z, rt.i32_const(1))
        } else {
            let z = rt.i64_const(0);
            (z, rt.i64_const(1))
        };
        let mut defs = LetExprBuilder::new();
        let a_zeroes = get_leading_zeroes(rt, var("a"));
        let b_zeroes = get_leading_zeroes(rt, var("b"));
        let shift_zeroes = sub_zeroes(rt, b_zeroes, a_zeroes);
        defs.def("z", shift_zeroes);
        let b = prepend_zeroes(rt, var("b"), var("z"));
        let partial_result = prepend_zeroes(rt, partial_result, var("z"));
        let cond = is_zero(rt, var("b"));
        let quotient = div_helper(rt, var("a"), b, partial_result, result_init);
        let body = select(cond, optional::some(quotient), optional::none());
        let ghost ds = defs@;
        let built = defs.build_in(body);
        proof {
            assert(ds.drop_first() =~= Seq::<(Seq<char>, Term)>::empty());
            reveal_with_fuel(crate::codegen::lambda::lets_t, 2);
        }
        rt.def_string(name.clone(), abs2("a", "b", built));
    }
    apply2(var_string(name), a, b)
}

pub fn i32_div_unsigned(rt: &mut RuntimeGenerator, a: Expr, b: Expr) -> (e: Expr)
    requires
        old(rt).wf(),
    ensures
        final(rt).wf(),
        final(rt).st() == div_st(old(rt).st(), 32),
        e@ == app2_t(var_t(div_name(32)), a@, b@),
{
    div(rt, a, b, 32)
}

pub fn i64_div_unsigned(rt: &mut RuntimeGenerator, a: Expr, b: Expr) -> (e: Expr)
    requires
        old(rt).wf(),
    ensures
        final(rt).wf(),
        final(rt).st() == div_st(old(rt).st(), 64),
        e@ == app2_t(var_t(div_name(64)), a@, b@),
{
    div(rt, a, b, 64)
}

pub open spec fn div_s_name(bits: u8) -> Seq<char> {
    "DIVs"@ + dec_t(bits as nat)
}

/// The smallest signed number of the width, and minus one.
pub open spec fn min_t(bits: u8) -> Term {
    if bits == 32 { var_t(i32_name_t(0x8000_0000)) } else { var_t(i64_name_t(0x8000_0000_0000_0000)) }
}

pub open spec fn minus_one_t(bits: u8) -> Term {
    if bits == 32 { var_t(i32_name_t(0xffff_ffff)) } else { var_t(i64_name_t(0xffff_ffff_ffff_ffff)) }
}

pub open spec fn with_min_minus_one(s: RtState, bits: u8) -> RtState {
    if bits == 32 {
        s.with_i32(0x8000_0000).with_i32(0xffff_ffff)
    } else {
        s.with_i64(0x8000_0000_0000_0000).with_i64(0xffff_ffff_ffff_ffff)
    }
}

pub open spec fn div_s_def_t(bits: u8) -> Term {
    let range_error = bit_and_t(
        app2_t(var_t("EQ"@), var_t("a"@), min_t(bits)),
        app2_t(var_t("EQ"@), var_t("b"@), minus_one_t(bits)),
    );
    let body = select_t(
        var_t("range_error"@),
        select_t(
            bit_xor_t(var_t("a_neg"@), var_t("b_neg"@)),
            var_t("res"@),
            select_t(
                optional::is_some_t(var_t("res"@)),
                optional::none_t(),
                optional::some_t(negate_t(optional::unwrap_t(var_t("res"@)))),
            ),
        ),
        optional::none_t(),
    );
    abs_t("a"@, abs_t("b"@,
        let_t("range_error"@, range_error,
        let_t("a_neg"@, list::head_t(app_t(var_t("Rev"@), var_t("a"@))),
        let_t("b_neg"@, list::head_t(app_t(var_t("Rev"@), var_t("b"@))),
        let_t("a"@, select_t(var_t("a_neg"@), var_t("a"@), negate_t(var_t("a"@))),
        let_t("b"@, select_t(var_t("b_neg"@), var_t("b"@), negate_t(var_t("b"@))),
        let_t("res"@, app2_t(var_t(div_name(bits)), var_t("a"@), var_t("b"@)),
        body))))))))
}

pub open spec fn div_s_st(s: RtState, bits: u8) -> RtState {
    if s.has(div_s_name(bits)) {
        s
    } else {
        let s = eq_st(eq_st(with_min_minus_one(s, bits)));
        let s = negate_st(negate_st(s));
        negate_st(div_st(s, bits)).def(div_s_name(bits), div_s_def_t(bits))
    }
}

/// Signed division; `None` if `b` is zero or the quotient is out of range.
fn div_signed(rt: &mut RuntimeGenerator, a: Expr, b: Expr, bits: u8) -> (e: Expr)
    requires
        old(rt).wf(),
        bits == 32 || bits == 64,
    ensures
        final(rt).wf(),
        final(rt).st() == div_s_st(old(rt).st(), bits),
        e@ == app2_t(var_t(div_s_name(bits)), a@, b@),
{
    let name = dec_name("DIVs", bits as u64);
    if !rt.has(name.as_str()) {
        let mut defs = LetExprBuilder::new();
        let (smallest_signed, neg_one) = if bits == 32 {
            let m = rt.i32_const(0x8000_0000);
            (m, rt.i32_const(0xffff_ffff))
        } else {
            let m = rt.i64_const(0x8000_0000_0000_0000);
            (m, rt.i64_const(0xffff_ffff_ffff_ffff))
        };
        // If a is -2^(bits-1) and b is -1, a/b is out of the range of signed numbers
        let a_is_min = equal(rt, var("a"), smallest_signed);
        let b_is_minus_one = equal(rt, var("b"), neg_one);
        defs.def("range_error", bit_and(a_is_min, b_is_minus_one));
        defs.def("a_neg", list::get_head(number::reverse_bits(var("a"))));
        defs.def("b_neg", list::get_head(number::reverse_bits(var("b"))));
        let neg_a = negate(rt, var("a"));
        defs.def("a", select(var("a_neg"), var("a"), neg_a));
        let neg_b = negate(rt, var("b"));
        defs.def("b", select(var("b_neg"), var("b"), neg_b));
        let quotient = div(rt, var("a"), var("b"), bits);
        defs.def("res", quotient);
        let neg_res = negate(rt, optional::unwrap(var("res")));
        let body = select(
            var("range_error"),
            select(
                bit_xor(var("a_neg"), var("b_neg")),
                var("res"),
                select(optional::is_some(var("res")), optional::none(), optional::some(neg_res)),
            ),
            optional::none(),
        );
        let ghost ds = defs@;
        let built = defs.build_in(body);
        proof {
            assert(ds.drop_first().drop_first().drop_first().drop_first().drop_first().drop_first() =~= Seq::<(Seq<char>, Term)>::empty());
            reveal_with_fuel(crate::codegen::lambda::lets_t, 7);
        }
        rt.def_string(name.clone(), abs2("a", "b", built));
    }
    apply2(var_string(name), a, b)
}

pub fn i32_div_signed(rt: &mut RuntimeGenerator, a: Expr, b: Expr) -> (e: Expr)
    requires
        old(rt).wf(),
    ensures
        final(rt).wf(),
        final(rt).st() == div_s_st(old(rt).st(), 32),
        e@ == app2_t(var_t(div_s_name(32)), a@, b@),
{
    div_signed(rt, a, b, 32)
}

pub fn i64_div_signed(rt: &mut RuntimeGenerator, a: Expr, b: Expr) -> (e: Expr)
    requires
        old(rt).wf(),
    ensures
        final(rt).wf(),
        final(rt).st() == div_s_st(old(rt).st(), 64),
        e@ == app2_t(var_t(div_s_name(64)), a@, b@),
{
    div_signed(rt, a, b, 64)
}

/// Addition defines its utilities after what they refer to.
pub proof fn lemma_add_ordered(s: RtState)
    requires
        rt_ok(s),
    ensures
        grows(s, add_st(s)),
        in_scope(add_st(s)).contains("ADD"@),
{
    if s.has("ADD"@) {
        lemma_grows_refl(s);
        lemma_has_in_scope(s, "ADD"@);
    } else {
        lemma_core_names(s);
        let e = in_scope(s).insert("_ADD"@);
        let main = app_t(rec_t(var_t("_ADD"@)), bit_t(false));
        assert(scoped(add_helper_t(), e)) by { reveal_with_fuel(scoped, 20); }
        assert(scoped(main, e)) by { reveal_with_fuel(scoped, 4); }
        lemma_grows_pair(s, "_ADD"@, add_helper_t(), "ADD"@, main);
    }
}

/// Incrementing defines its utilities after what they refer to.
pub proof fn lemma_inc_ordered(s: RtState)
    requires
        rt_ok(s),
    ensures
        grows(s, inc_st(s)),
        in_scope(inc_st(s)).contains("INC"@),
{
    if s.has("INC"@) {
        lemma_grows_refl(s);
        lemma_has_in_scope(s, "INC"@);
    } else {
        lemma_core_names(s);
        let e = in_scope(s).insert("_INC"@);
        assert(scoped(inc_helper_t(), e)) by { reveal_with_fuel(scoped, 16); }
        assert(scoped(rec_t(var_t("_INC"@)), e)) by { reveal_with_fuel(scoped, 3); }
        lemma_grows_pair(s, "_INC"@, inc_helper_t(), "INC"@, rec_t(var_t("_INC"@)));
    }
}

/// Negation defines its utilities after what they refer to.
pub proof fn lemma_negate_ordered(s: RtState)
    requires
        rt_ok(s),
    ensures
        grows(s, negate_st(s)),
        in_scope(negate_st(s)).contains("INV"@),
        in_scope(negate_st(s)).contains("INC"@),
{
    lemma_inv_ordered(s);
    lemma_inc_ordered(inv_st(s));
    lemma_grows_trans(s, inv_st(s), negate_st(s));
}

/// Subtraction defines its utilities after what they refer to.
pub proof fn lemma_sub_ordered(s: RtState)
    requires
        rt_ok(s),
    ensures
        grows(s, sub_st(s)),
        in_scope(sub_st(s)).contains("INV"@),
        in_scope(sub_st(s)).contains("INC"@),
        in_scope(sub_st(s)).contains("ADD"@),
{
    lemma_negate_ordered(s);
    lemma_add_ordered(negate_st(s));
    lemma_grows_trans(s, negate_st(s), sub_st(s));
}

/// Multiplication defines its utilities after what they refer to.
pub proof fn lemma_mul_ordered(s: RtState)
    requires
        rt_ok(s),
    ensures
        grows(s, mul_st(s)),
        in_scope(mul_st(s)).contains("MUL"@),
{
    if s.has("MUL"@) {
        lemma_grows_refl(s);
        lemma_has_in_scope(s, "MUL"@);
    } else {
        lemma_add_ordered(s);
        let s1 = add_st(s);
        lemma_core_names(s1);
        let e = in_scope(s1).insert("_MUL"@);
        assert(scoped(mul_helper_t(), e)) by { reveal_with_fuel(scoped, 18); }
        assert(scoped(rec_t(var_t("_MUL"@)), e)) by { reveal_with_fuel(scoped, 3); }
        lemma_grows_pair(s1, "_MUL"@, mul_helper_t(), "MUL"@, rec_t(var_t("_MUL"@)));
        lemma_grows_trans(s, s1, mul_st(s));
    }
}

/// Counting leading zeroes defines its utilities after what they refer to.
pub proof fn lemma_leadz_ordered(s: RtState)
    requires
        rt_ok(s),
    ensures
        grows(s, leadz_st(s)),
        in_scope(leadz_st(s)).contains("LEADZ"@),
{
    if s.has("LEADZ"@) {
        lemma_grows_refl(s);
        lemma_has_in_scope(s, "LEADZ"@);
    } else {
        lemma_core_names(s);
        let e = in_scope(s).insert("_LEADZ"@);
        let main = app_t(rec_t(var_t("_LEADZ"@)), list::empty_t());
        assert(scoped(leadz_helper_t(), e)) by { reveal_with_fuel(scoped, 16); }
        assert(scoped(main, e)) by { reveal_with_fuel(scoped, 4); }
        lemma_grows_pair(s, "_LEADZ"@, leadz_helper_t(), "LEADZ"@, main);
    }
}

/// Dropping as many bits as another number has defines its utilities in order.
pub proof fn lemma_subz_ordered(s: RtState)
    requires
        rt_ok(s),
    ensures
        grows(s, subz_st(s)),
        in_scope(subz_st(s)).contains("SUBZ"@),
{
    if s.has("SUBZ"@) {
        lemma_grows_refl(s);
        lemma_has_in_scope(s, "SUBZ"@);
    } else {
        lemma_core_names(s);
        let e = in_scope(s).insert("_SUBZ"@);
        assert(scoped(subz_helper_t(), e)) by { reveal_with_fuel(scoped, 16); }
        assert(scoped(rec_t(var_t("_SUBZ"@)), e)) by { reveal_with_fuel(scoped, 3); }
        lemma_grows_pair(s, "_SUBZ"@, subz_helper_t(), "SUBZ"@, rec_t(var_t("_SUBZ"@)));
    }
}

/// Prepending zeroes defines its utilities after what they refer to.
pub proof fn lemma_prepz_ordered(s: RtState)
    requires
        rt_ok(s),
    ensures
        grows(s, prepz_st(s)),
        in_scope(prepz_st(s)).contains("PREPZ"@),
{
    if s.has("PREPZ"@) {
        lemma_grows_refl(s);
        lemma_has_in_scope(s, "PREPZ"@);
    } else {
        lemma_core_names(s);
        let e = in_scope(s).insert("_PREPZ"@);
        assert(scoped(prepz_helper_t(), e)) by { reveal_with_fuel(scoped, 16); }
        assert(scoped(rec_t(var_t("_PREPZ"@)), e)) by { reveal_with_fuel(scoped, 3); }
        lemma_grows_pair(s, "_PREPZ"@, prepz_helper_t(), "PREPZ"@, rec_t(var_t("_PREPZ"@)));
    }
}

/// The long division helper is defined after what it refers to.
#[verifier::spinoff_prover]
#[verifier::rlimit(40)]
pub proof fn lemma_div_helper_ordered(s: RtState)
    requires
        rt_ok(s),
    ensures
        grows(s, div_helper_st(s)),
        in_scope(div_helper_st(s)).contains("_DIV"@),
{
    if s.has("_DIV"@) {
        lemma_grows_refl(s);
        lemma_has_in_scope(s, "_DIV"@);
    } else {
        lemma_compare_ordered(s, true);
        let s1 = compare_st(s, true);
        lemma_sub_ordered(s1);
        let s2 = sub_st(s1);
        lemma_add_ordered(s2);
        let s3 = add_st(s2);
        lemma_grows_trans(s, s1, s2);
        lemma_grows_trans(s, s2, s3);
        lemma_core_names(s3);
        let e = in_scope(s3).insert("_DIV"@);
        assert(e.contains("LT"@) && e.contains("ADD"@) && e.contains("INV"@) && e.contains("INC"@));
        assert(scoped(div_helper_t(), e)) by { reveal_with_fuel(scoped, 24); }
        lemma_grows_def_rec(s3, "_DIV"@, div_helper_t());
        lemma_grows_trans(s, s3, div_helper_st(s));
    }
}

/// The constants `0` and `1` of the width are in scope after they are asked for.
proof fn lemma_zero_one(s: RtState, bits: u8)
    requires
        rt_ok(s),
    ensures
        grows(s, with_zero_one(s, bits)),
        in_scope(with_zero_one(s, bits)).contains(zero_t(bits)->Var_0),
        in_scope(with_zero_one(s, bits)).contains(one_t(bits)->Var_0),
{
    if bits == 32 {
        lemma_grows_i32(s, 0);
        lemma_grows_i32(s.with_i32(0), 1);
        lemma_grows_trans(s, s.with_i32(0), with_zero_one(s, bits));
    } else {
        lemma_grows_i64(s, 0);
        lemma_grows_i64(s.with_i64(0), 1);
        lemma_grows_trans(s, s.with_i64(0), with_zero_one(s, bits));
    }
}

proof fn lemma_div_def_scoped(bits: u8, e: Set<Seq<char>>)
    requires
        core_names_in(e),
        e.contains("LEADZ"@) && e.contains("SUBZ"@) && e.contains("PREPZ"@),
        e.contains("EQZ"@) && e.contains("_DIV"@),
        e.contains(zero_t(bits)->Var_0) && e.contains(one_t(bits)->Var_0),
    ensures
        scoped(div_def_t(bits), e),
{
    reveal_with_fuel(scoped, 20);
}

proof fn lemma_div_s_def_scoped(bits: u8, e: Set<Seq<char>>)
    requires
        core_names_in(e),
        e.contains("EQ"@) && e.contains("INV"@) && e.contains("INC"@),
        e.contains(div_name(bits)) && e.contains(min_t(bits)->Var_0) && e.contains(minus_one_t(bits)->Var_0),
    ensures
        scoped(div_s_def_t(bits), e),
{
    reveal_with_fuel(scoped, 30);
}

/// Unsigned division defines its utilities after what they refer to.
#[verifier::spinoff_prover]
#[verifier::rlimit(40)]
pub proof fn lemma_div_ordered(s: RtState, bits: u8)
    requires
        rt_ok(s),
    ensures
        grows(s, div_st(s, bits)),
        in_scope(div_st(s, bits)).contains(div_name(bits)),
{
    if s.has(div_name(bits)) {
        lemma_grows_refl(s);
        lemma_has_in_scope(s, div_name(bits));
    } else {
        lemma_zero_one(s, bits);
        let s0 = with_zero_one(s, bits);
        lemma_leadz_ordered(s0);
        let s1 = leadz_st(s0);
        lemma_leadz_ordered(s1);
        let s2 = leadz_st(s1);
        lemma_subz_ordered(s2);
        let s3 = subz_st(s2);
        lemma_prepz_ordered(s3);
        let s4 = prepz_st(s3);
        lemma_prepz_ordered(s4);
        let s5 = prepz_st(s4);
        lemma_eqz_ordered(s5);
        let s6 = eqz_st(s5);
        lemma_div_helper_ordered(s6);
        let s7 = div_helper_st(s6);
        lemma_grows_trans(s, s0, s1);
        lemma_grows_trans(s, s1, s2);
        lemma_grows_trans(s, s2, s3);
        lemma_grows_trans(s, s3, s4);
        lemma_grows_trans(s, s4, s5);
        lemma_grows_trans(s, s5, s6);
        lemma_grows_trans(s, s6, s7);
        lemma_core_names(s7);
        let e = in_scope(s7);
        assert(e.contains("LEADZ"@) && e.contains("SUBZ"@) && e.contains("PREPZ"@));
        assert(e.contains("EQZ"@) && e.contains("_DIV"@));
        assert(e.contains(zero_t(bits)->Var_0) && e.contains(one_t(bits)->Var_0));
        lemma_div_def_scoped(bits, e);
        lemma_grows_def(s7, div_name(bits), div_def_t(bits));
        lemma_grows_trans(s, s7, div_st(s, bits));
    }
}

/// The constants of the width that signed division needs.
proof fn lemma_min_minus_one(s: RtState, bits: u8)
    requires
        rt_ok(s),
    ensures
        grows(s, with_min_minus_one(s, bits)),
        in_scope(with_min_minus_one(s, bits)).contains(min_t(bits)->Var_0),
        in_scope(with_min_minus_one(s, bits)).contains(minus_one_t(bits)->Var_0),
{
    if bits == 32 {
        lemma_grows_i32(s, 0x8000_0000);
        lemma_grows_i32(s.with_i32(0x8000_0000), 0xffff_ffff);
        lemma_grows_trans(s, s.with_i32(0x8000_0000), with_min_minus_one(s, bits));
    } else {
        lemma_grows_i64(s, 0x8000_0000_0000_0000);
        lemma_grows_i64(s.with_i64(0x8000_0000_0000_0000), 0xffff_ffff_ffff_ffff);
        lemma_grows_trans(s, s.with_i64(0x8000_0000_0000_0000), with_min_minus_one(s, bits));
    }
}

/// Signed division defines its utilities after what they refer to.
#[verifier::spinoff_prover]
#[verifier::rlimit(40)]
pub proof fn lemma_div_s_ordered(s: RtState, bits: u8)
    requires
        rt_ok(s),
    ensures
        grows(s, div_s_st(s, bits)),
        in_scope(div_s_st(s, bits)).contains(div_s_name(bits)),
{
    if s.has(div_s_name(bits)) {
        lemma_grows_refl(s);
        lemma_has_in_scope(s, div_s_name(bits));
    } else {
        lemma_min_minus_one(s, bits);
        let s0 = with_min_minus_one(s, bits);
        lemma_eq_ordered(s0);
        let s1 = eq_st(s0);
        lemma_eq_ordered(s1);
        let s2 = eq_st(s1);
        lemma_negate_ordered(s2);
        let s3 = negate_st(s2);
        lemma_negate_ordered(s3);
        let s4 = negate_st(s3);
        lemma_div_ordered(s4, bits);
        let s5 = div_st(s4, bits);
        lemma_negate_ordered(s5);
        let s6 = negate_st(s5);
        lemma_grows_trans(s, s0, s1);
        lemma_grows_trans(s, s1, s2);
        lemma_grows_trans(s, s2, s3);
        lemma_grows_trans(s, s3, s4);
        lemma_grows_trans(s, s4, s5);
        lemma_grows_trans(s, s5, s6);
        lemma_core_names(s6);
        let e = in_scope(s6);
        assert(e.contains("EQ"@) && e.contains("INV"@) && e.contains("INC"@));
        assert(e.contains(div_name(bits)) && e.contains(min_t(bits)->Var_0) && e.contains(minus_one_t(bits)->Var_0));
        lemma_div_s_def_scoped(bits, e);
        lemma_grows_def(s6, div_s_name(bits), div_s_def_t(bits));
        lemma_grows_trans(s, s6, div_s_st(s, bits));
    }
}

} // verus!
