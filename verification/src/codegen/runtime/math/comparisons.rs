//! Comparisons of numbers: all results are bits.

use vstd::prelude::*;

use crate::codegen::lambda::{
    abs1, abs2, abs3, abs_t, app_t, app2_t, app3_t, apply1, apply2, apply3, bit, bit_t, let_t,
    list, number, rec, rec_t, select, select_t, var, var_t, Expr, LetExprBuilder, Term,
};
use crate::codegen::runtime::math::{bit_equal, bit_equal_t, bit_not, bit_not_t};
use crate::codegen::lambda::scope::scoped;
use crate::codegen::runtime::{
    grows, in_scope, lemma_core_names, lemma_grows_def, lemma_grows_def_rec,
    lemma_grows_refl, lemma_grows_trans, lemma_has_in_scope, rt_ok, RtState, RuntimeGenerator,
};

verus! {

pub open spec fn eqz_helper_t() -> Term {
    abs_t("a"@, select_t(
        list::is_not_empty_t(var_t("a"@)),
        bit_t(true),
        select_t(
            list::head_t(var_t("a"@)),
            app_t(rec_t(var_t("_EQZ"@)), list::tail_t(var_t("a"@))),
            bit_t(false),
        ),
    ))
}

pub open spec fn eqz_st(s: RtState) -> RtState {
    if s.has("EQZ"@) {
        s
    } else {
        s.def_rec("_EQZ"@, eqz_helper_t()).def("EQZ"@, rec_t(var_t("_EQZ"@)))
    }
}

pub fn is_zero(rt: &mut RuntimeGenerator, a: Expr) -> (e: Expr)
    requires
        old(rt).wf(),
    ensures
        final(rt).wf(),
        final(rt).st() == eqz_st(old(rt).st()),
        e@ == app_t(var_t("EQZ"@), a@),
{
    if !rt.has("EQZ") {
        let body = select(
            list::is_not_empty(var("a")),
            bit(true),
            select(list::get_head(var("a")), apply1(rec(var("_EQZ")), list::get_tail(var("a"))), bit(false)),
        );
        rt.def_rec("_EQZ", abs1("a", body));
        rt.def("EQZ", rec(var("_EQZ")));
    }
    apply1(var("EQZ"), a)
}

pub fn is_not_zero(rt: &mut RuntimeGenerator, a: Expr) -> (e: Expr)
    requires
        old(rt).wf(),
    ensures
        final(rt).wf(),
        final(rt).st() == eqz_st(old(rt).st()),
        e@ == bit_not_t(app_t(var_t("EQZ"@), a@)),
{
    let z = is_zero(rt, a);
    bit_not(z)
}

pub open spec fn eq_helper_t() -> Term {
    abs_t("a"@, abs_t("b"@, select_t(
        list::is_not_empty_t(var_t("a"@)),
        bit_t(true),
        select_t(
            bit_equal_t(list::head_t(var_t("a"@)), list::head_t(var_t("b"@))),
            bit_t(false),
            app2_t(rec_t(var_t("_EQ"@)), list::tail_t(var_t("a"@)), list::tail_t(var_t("b"@))),
        ),
    )))
}

pub open spec fn eq_st(s: RtState) -> RtState {
    if s.has("EQ"@) {
        s
    } else {
        s.def_rec("_EQ"@, eq_helper_t()).def("EQ"@, rec_t(var_t("_EQ"@)))
    }
}

/// Only numbers of the same bit length can be compared.
pub fn equal(rt: &mut RuntimeGenerator, a: Expr, b: Expr) -> (e: Expr)
    requires
        old(rt).wf(),
    ensures
        final(rt).wf(),
        final(rt).st() == eq_st(old(rt).st()),
        e@ == app2_t(var_t("EQ"@), a@, b@),
{
    if !rt.has("EQ") {
        let heads_equal = bit_equal(list::get_head(var("a")), list::get_head(var("b")));
        let body = select(
            list::is_not_empty(var("a")),
            bit(true),
            select(heads_equal, bit(false), apply2(rec(var("_EQ")), list::get_tail(var("a")), list::get_tail(var("b")))),
        );
        rt.def_rec("_EQ", abs2("a", "b", body));
        rt.def("EQ", rec(var("_EQ")));
    }
    apply2(var("EQ"), a, b)
}

/// Only numbers of the same bit length can be compared.
pub fn not_equal(rt: &mut RuntimeGenerator, a: Expr, b: Expr) -> (e: Expr)
    requires
        old(rt).wf(),
    ensures
        final(rt).wf(),
        final(rt).st() == eq_st(old(rt).st()),
        e@ == bit_not_t(app2_t(var_t("EQ"@), a@, b@)),
{
    let eq = equal(rt, a, b);
    bit_not(eq)
}

/// `LT` for a strict comparison, `LE` otherwise.
pub open spec fn compare_name(strict: bool) -> Seq<char> {
    if strict { "LT"@ } else { "LE"@ }
}

pub open spec fn compare_helper_name(strict: bool) -> Seq<char> {
    if strict { "_LT"@ } else { "_LE"@ }
}

pub open spec fn compare_helper_t(strict: bool) -> Term {
    let a_head = list::head_t(var_t("a"@));
    let b_head = list::head_t(var_t("b"@));
    let compare_tails = |r: Term| app3_t(rec_t(var_t(compare_helper_name(strict))), r, list::tail_t(var_t("a"@)), list::tail_t(var_t("b"@)));
    abs_t("res"@, abs_t("a"@, abs_t("b"@, select_t(
        list::is_not_empty_t(var_t("a"@)),
        var_t("res"@),
        compare_tails(select_t(
            a_head,
            select_t(b_head, var_t("res"@), bit_t(true)),
            select_t(b_head, bit_t(false), var_t("res"@)),
        )),
    ))))
}

pub open spec fn compare_st(s: RtState, strict: bool) -> RtState {
    if s.has(compare_name(strict)) {
        s
    } else {
        s.def_rec(compare_helper_name(strict), compare_helper_t(strict))
            .def(compare_name(strict), app_t(rec_t(var_t(compare_helper_name(strict))), bit_t(!strict)))
    }
}

/// Compares two unsigned little-endian numbers. `b` must not be shorter than `a`.
fn compare(rt: &mut RuntimeGenerator, a: Expr, b: Expr, strict: bool) -> (e: Expr)
    requires
        old(rt).wf(),
    ensures
        final(rt).wf(),
        final(rt).st() == compare_st(old(rt).st(), strict),
        e@ == app2_t(var_t(compare_name(strict)), a@, b@),
{
    let name = if strict { "LT" } else { "LE" };
    let helper_name = if strict { "_LT" } else { "_LE" };
    if !rt.has(name) {
        // When the bits are equal, the intermediate result stays; when they differ, it is
        // updated. The initial result for "<=" is true because equal numbers compare true.
        let a_head = list::get_head(var("a"));
        let b_head = list::get_head(var("b"));
        let inner = select(
            a_head,
            select(b_head.duplicate(), var("res"), bit(true)),
            select(b_head, bit(false), var("res")),
        );
        let body = select(
            list::is_not_empty(var("a")),
            var("res"),
            apply3(rec(var(helper_name)), inner, list::get_tail(var("a")), list::get_tail(var("b"))),
        );
        rt.def_rec(helper_name, abs3("res", "a", "b", body));
        let default_result = bit(!strict);
        rt.def(name, apply1(rec(var(helper_name)), default_result));
    }
    apply2(var(name), a, b)
}

/// Compares two unsigned numbers. `b` must not be shorter than `a`, but can be longer.
pub fn less_unsigned(rt: &mut RuntimeGenerator, a: Expr, b: Expr) -> (e: Expr)
    requires
        old(rt).wf(),
    ensures
        final(rt).wf(),
        final(rt).st() == compare_st(old(rt).st(), true),
        e@ == app2_t(var_t("LT"@), a@, b@),
{
    compare(rt, a, b, true)
}

/// Compares two unsigned numbers. `b` must not be shorter than `a`, but can be longer.
pub fn less_equal_unsigned(rt: &mut RuntimeGenerator, a: Expr, b: Expr) -> (e: Expr)
    requires
        old(rt).wf(),
    ensures
        final(rt).wf(),
        final(rt).st() == compare_st(old(rt).st(), false),
        e@ == app2_t(var_t("LE"@), a@, b@),
{
    compare(rt, a, b, false)
}

/// Compares two unsigned numbers. `b` must not be shorter than `a`, but can be longer.
pub fn greater_unsigned(rt: &mut RuntimeGenerator, a: Expr, b: Expr) -> (e: Expr)
    requires
        old(rt).wf(),
    ensures
        final(rt).wf(),
        final(rt).st() == compare_st(old(rt).st(), false),
        e@ == bit_not_t(app2_t(var_t("LE"@), a@, b@)),
{
    let le = less_equal_unsigned(rt, a, b);
    bit_not(le)
}

/// Compares two unsigned numbers. `b` must not be shorter than `a`, but can be longer.
pub fn greater_equal_unsigned(rt: &mut RuntimeGenerator, a: Expr, b: Expr) -> (e: Expr)
    requires
        old(rt).wf(),
    ensures
        final(rt).wf(),
        final(rt).st() == compare_st(old(rt).st(), true),
        e@ == bit_not_t(app2_t(var_t("LT"@), a@, b@)),
{
    let lt = less_unsigned(rt, a, b);
    bit_not(lt)
}

/// `_LTbe` for a strict comparison, `_LEbe` otherwise.
pub open spec fn compare_be_name(strict: bool) -> Seq<char> {
    if strict { "_LTbe"@ } else { "_LEbe"@ }
}

pub open spec fn compare_be_def_t(strict: bool) -> Term {
    let a_head = list::head_t(var_t("a"@));
    let b_head = list::head_t(var_t("b"@));
    let compare_tails = app2_t(rec_t(var_t(compare_be_name(strict))), list::tail_t(var_t("a"@)), list::tail_t(var_t("b"@)));
    abs_t("a"@, abs_t("b"@, select_t(
        list::is_not_empty_t(var_t("a"@)),
        bit_t(!strict),
        select_t(
            a_head,
            select_t(b_head, compare_tails, bit_t(true)),
            select_t(b_head, bit_t(false), compare_tails),
        ),
    )))
}

pub open spec fn compare_be_st(s: RtState, strict: bool) -> RtState {
    if s.has(compare_be_name(strict)) {
        s
    } else {
        s.def_rec(compare_be_name(strict), compare_be_def_t(strict))
    }
}

/// Compares two unsigned big-endian (i.e. reversed) numbers of the same bit width.
fn compare_be(rt: &mut RuntimeGenerator, a: Expr, b: Expr, strict: bool) -> (e: Expr)
    requires
        old(rt).wf(),
    ensures
        final(rt).wf(),
        final(rt).st() == compare_be_st(old(rt).st(), strict),
        e@ == app2_t(rec_t(var_t(compare_be_name(strict))), a@, b@),
{
    let name = if strict { "_LTbe" } else { "_LEbe" };
    if !rt.has(name) {
        let a_head = list::get_head(var("a"));
        let b_head = list::get_head(var("b"));
        let compare_tails = apply2(rec(var(name)), list::get_tail(var("a")), list::get_tail(var("b")));
        let body = select(
            list::is_not_empty(var("a")),
            bit(!strict),
            select(
                a_head,
                select(b_head.duplicate(), compare_tails.duplicate(), bit(true)),
                select(b_head, bit(false), compare_tails),
            ),
        );
        rt.def_rec(name, abs2("a", "b", body));
    }
    apply2(rec(var(name)), a, b)
}

fn less_unsigned_be(rt: &mut RuntimeGenerator, a: Expr, b: Expr) -> (e: Expr)
    requires
        old(rt).wf(),
    ensures
        final(rt).wf(),
        final(rt).st() == compare_be_st(old(rt).st(), true),
        e@ == app2_t(rec_t(var_t("_LTbe"@)), a@, b@),
{
    compare_be(rt, a, b, true)
}

fn less_equal_unsigned_be(rt: &mut RuntimeGenerator, a: Expr, b: Expr) -> (e: Expr)
    requires
        old(rt).wf(),
    ensures
        final(rt).wf(),
        final(rt).st() == compare_be_st(old(rt).st(), false),
        e@ == app2_t(rec_t(var_t("_LEbe"@)), a@, b@),
{
    compare_be(rt, a, b, false)
}

/// `_LTs` for a strict comparison, `_LEs` otherwise.
pub open spec fn compare_s_name(strict: bool) -> Seq<char> {
    if strict { "_LTs"@ } else { "_LEs"@ }
}

pub open spec fn compare_s_def_t(strict: bool) -> Term {
    let a_head = list::head_t(var_t("a_be"@));
    let b_head = list::head_t(var_t("b_be"@));
    let compare_tail = app2_t(
        rec_t(var_t(compare_be_name(strict))),
        list::tail_t(var_t("a_be"@)),
        list::tail_t(var_t("b_be"@)),
    );
    abs_t("a"@, abs_t("b"@, let_t(
        "a_be"@,
        app_t(var_t("Rev"@), var_t("a"@)),
        let_t(
            "b_be"@,
            app_t(var_t("Rev"@), var_t("b"@)),
            select_t(
                a_head,
                select_t(b_head, compare_tail, bit_t(false)),
                select_t(b_head, bit_t(true), compare_tail),
            ),
        ),
    )))
}

pub open spec fn compare_s_st(s: RtState, strict: bool) -> RtState {
    if s.has(compare_s_name(strict)) {
        s
    } else {
        compare_be_st(s, strict).def(compare_s_name(strict), compare_s_def_t(strict))
    }
}

/// Compares two signed numbers of the same bit width.
fn compare_signed(rt: &mut RuntimeGenerator, a: Expr, b: Expr, strict: bool) -> (e: Expr)
    requires
        old(rt).wf(),
    ensures
        final(rt).wf(),
        final(rt).st() == compare_s_st(old(rt).st(), strict),
        e@ == app2_t(var_t(compare_s_name(strict)), a@, b@),
{
    let name = if strict { "_LTs" } else { "_LEs" };
    if !rt.has(name) {
        let mut defs = LetExprBuilder::new();
        defs.def("a_be", number::reverse_bits(var("a")));
        defs.def("b_be", number::reverse_bits(var("b")));
        let a_head = list::get_head(var("a_be"));
        let b_head = list::get_head(var("b_be"));
        let compare_tail = if strict {
            less_unsigned_be(rt, list::get_tail(var("a_be")), list::get_tail(var("b_be")))
        } else {
            less_equal_unsigned_be(rt, list::get_tail(var("a_be")), list::get_tail(var("b_be")))
        };
        let body = select(
            a_head,
            select(b_head.duplicate(), compare_tail.duplicate(), bit(false)),
            select(b_head, bit(true), compare_tail),
        );
        let ghost ds = defs@;
        let built = defs.build_in(body);
        proof {
            assert(ds.drop_first().drop_first() =~= Seq::<(Seq<char>, Term)>::empty());
            reveal_with_fuel(crate::codegen::lambda::lets_t, 3);
            assert(built@ == compare_s_def_t(strict)->Abs_1->Abs_1);
        }
        rt.def(name, abs2("a", "b", built));
    }
    apply2(var(name), a, b)
}

/// The numbers must be of the same bit width.
pub fn less_signed(rt: &mut RuntimeGenerator, a: Expr, b: Expr) -> (e: Expr)
    requires
        old(rt).wf(),
    ensures
        final(rt).wf(),
        final(rt).st() == compare_s_st(old(rt).st(), true),
        e@ == app2_t(var_t("_LTs"@), a@, b@),
{
    compare_signed(rt, a, b, true)
}

/// The numbers must be of the same bit width.
pub fn less_equal_signed(rt: &mut RuntimeGenerator, a: Expr, b: Expr) -> (e: Expr)
    requires
        old(rt).wf(),
    ensures
        final(rt).wf(),
        final(rt).st() == compare_s_st(old(rt).st(), false),
        e@ == app2_t(var_t("_LEs"@), a@, b@),
{
    compare_signed(rt, a, b, false)
}

/// The numbers must be of the same bit width.
pub fn greater_signed(rt: &mut RuntimeGenerator, a: Expr, b: Expr) -> (e: Expr)
    requires
        old(rt).wf(),
    ensures
        final(rt).wf(),
        final(rt).st() == compare_s_st(old(rt).st(), false),
        e@ == bit_not_t(app2_t(var_t("_LEs"@), a@, b@)),
{
    let le = less_equal_signed(rt, a, b);
    bit_not(le)
}

/// The numbers must be of the same bit width.
pub fn greater_equal_signed(rt: &mut RuntimeGenerator, a: Expr, b: Expr) -> (e: Expr)
    requires
        old(rt).wf(),
    ensures
        final(rt).wf(),
        final(rt).st() == compare_s_st(old(rt).st(), true),
        e@ == bit_not_t(app2_t(var_t("_LTs"@), a@, b@)),
{
    let lt = less_signed(rt, a, b);
    bit_not(lt)
}


/// Testing for zero defines its utilities after what they refer to.
pub proof fn lemma_eqz_ordered(s: RtState)
    requires
        rt_ok(s),
    ensures
        grows(s, eqz_st(s)),
        in_scope(eqz_st(s)).contains("EQZ"@),
{
    if s.has("EQZ"@) {
        lemma_grows_refl(s);
        lemma_has_in_scope(s, "EQZ"@);
    } else {
        lemma_core_names(s);
        assert(scoped(eqz_helper_t(), in_scope(s).insert("_EQZ"@))) by { reveal_with_fuel(scoped, 14); }
        lemma_grows_def_rec(s, "_EQZ"@, eqz_helper_t());
        let s1 = s.def_rec("_EQZ"@, eqz_helper_t());
        assert(scoped(rec_t(var_t("_EQZ"@)), in_scope(s1))) by { reveal_with_fuel(scoped, 3); }
        lemma_grows_def(s1, "EQZ"@, rec_t(var_t("_EQZ"@)));
        lemma_grows_trans(s, s1, eqz_st(s));
    }
}

/// Equality defines its utilities after what they refer to.
pub proof fn lemma_eq_ordered(s: RtState)
    requires
        rt_ok(s),
    ensures
        grows(s, eq_st(s)),
        in_scope(eq_st(s)).contains("EQ"@),
{
    if s.has("EQ"@) {
        lemma_grows_refl(s);
        lemma_has_in_scope(s, "EQ"@);
    } else {
        lemma_core_names(s);
        assert(scoped(eq_helper_t(), in_scope(s).insert("_EQ"@))) by { reveal_with_fuel(scoped, 16); }
        lemma_grows_def_rec(s, "_EQ"@, eq_helper_t());
        let s1 = s.def_rec("_EQ"@, eq_helper_t());
        assert(scoped(rec_t(var_t("_EQ"@)), in_scope(s1))) by { reveal_with_fuel(scoped, 3); }
        lemma_grows_def(s1, "EQ"@, rec_t(var_t("_EQ"@)));
        lemma_grows_trans(s, s1, eq_st(s));
    }
}

/// Unsigned comparisons define their utilities after what they refer to.
pub proof fn lemma_compare_ordered(s: RtState, strict: bool)
    requires
        rt_ok(s),
    ensures
        grows(s, compare_st(s, strict)),
        in_scope(compare_st(s, strict)).contains(compare_name(strict)),
{
    if s.has(compare_name(strict)) {
        lemma_grows_refl(s);
        lemma_has_in_scope(s, compare_name(strict));
    } else {
        lemma_core_names(s);
        let h = compare_helper_name(strict);
        assert(scoped(compare_helper_t(strict), in_scope(s).insert(h))) by { reveal_with_fuel(scoped, 16); }
        lemma_grows_def_rec(s, h, compare_helper_t(strict));
        let s1 = s.def_rec(h, compare_helper_t(strict));
        lemma_core_names(s1);
        let main = app_t(rec_t(var_t(h)), bit_t(!strict));
        assert(scoped(main, in_scope(s1))) by { reveal_with_fuel(scoped, 4); }
        lemma_grows_def(s1, compare_name(strict), main);
        lemma_grows_trans(s, s1, compare_st(s, strict));
    }
}

/// Big-endian comparisons define their utilities after what they refer to.
pub proof fn lemma_compare_be_ordered(s: RtState, strict: bool)
    requires
        rt_ok(s),
    ensures
        grows(s, compare_be_st(s, strict)),
        in_scope(compare_be_st(s, strict)).contains(compare_be_name(strict)),
{
    if s.has(compare_be_name(strict)) {
        lemma_grows_refl(s);
        lemma_has_in_scope(s, compare_be_name(strict));
    } else {
        lemma_core_names(s);
        assert(scoped(compare_be_def_t(strict), in_scope(s).insert(compare_be_name(strict)))) by { reveal_with_fuel(scoped, 16); }
        lemma_grows_def_rec(s, compare_be_name(strict), compare_be_def_t(strict));
    }
}

/// Signed comparisons define their utilities after what they refer to.
pub proof fn lemma_compare_s_ordered(s: RtState, strict: bool)
    requires
        rt_ok(s),
    ensures
        grows(s, compare_s_st(s, strict)),
        in_scope(compare_s_st(s, strict)).contains(compare_s_name(strict)),
{
    if s.has(compare_s_name(strict)) {
        lemma_grows_refl(s);
        lemma_has_in_scope(s, compare_s_name(strict));
    } else {
        lemma_compare_be_ordered(s, strict);
        let s1 = compare_be_st(s, strict);
        lemma_core_names(s1);
        assert(scoped(compare_s_def_t(strict), in_scope(s1))) by { reveal_with_fuel(scoped, 16); }
        lemma_grows_def(s1, compare_s_name(strict), compare_s_def_t(strict));
        lemma_grows_trans(s, s1, compare_s_st(s, strict));
    }
}

} // verus!
