//! What the arithmetic utilities compute: sums, successors, negations, products, tests for
//! zero and equality, signed comparisons and signed quotients, over numbers given by their bits.

use vstd::prelude::*;

use crate::codegen::lambda::evaluation::{
    bit_list_t, hygienic, lemma_bit_list_free_names, lemma_rev, lemma_app_hygienic, lemma_bit_hygienic, lemma_bit_list_hygienic,
    lemma_head, lemma_is_not_empty_empty, lemma_is_not_empty_node, lemma_names_hygienic,
    lemma_select_0, lemma_select_1, lemma_tail,
};
use crate::codegen::lambda::reduction::{
    defs_within, free_for, free_names, lemma_free_for_not_free, lemma_free_for_self,
    lemma_reduces_arg, lemma_reduces_beta, lemma_reduces_defined, lemma_reduces_fun,
    lemma_reduces_more_defs, lemma_reduces_refl, lemma_reduces_trans, lemma_subst_not_free,
    lemma_subst_self, reduces, subst,
};
use crate::codegen::lambda::{
    abs_t, app2_t, app3_t, app_t, bit_t, core_defs_t, let_t, list, optional, rec_t, select_t, var_t, Term,
};
use crate::codegen::runtime::math::arithmetic::{
    add_helper_t, add_st, div_name, inc_st, mul_st, div_s_def_t, div_s_name, inc_helper_t, min_t, minus_one_t, mul_helper_t, negate_t,
};
use crate::codegen::lambda::number::{i32_name_t, i64_name_t};
use crate::codegen::runtime::RtState;
use crate::codegen::runtime::math::comparisons::{compare_be_st, compare_s_st, eq_helper_t, eqz_helper_t, eqz_st, compare_be_def_t, compare_be_name, compare_s_def_t, compare_s_name};
use crate::codegen::runtime::math::logical::inv_helper_t;
use crate::codegen::runtime::math::{bit_and_t, bit_equal_t, bit_not_t, bit_or_t, bit_xor_t};

verus! {

/// The value of a number given by its bits, the lowest first.
pub open spec fn bits_value(bits: Seq<bool>) -> nat
    decreases bits.len(),
{
    if bits.len() == 0 {
        0
    } else {
        (if bits[0] { 1nat } else { 0nat }) + 2 * bits_value(bits.drop_first())
    }
}

/// The `n` lowest bits of `x`, the lowest first.
pub open spec fn low_bits(n: nat, x: nat) -> Seq<bool>
    decreases n,
{
    if n == 0 {
        seq![]
    } else {
        seq![x % 2 == 1] + low_bits((n - 1) as nat, x / 2)
    }
}

/// Definitions that hold the core definitions and those of `ADD`.
pub open spec fn add_defs(d: Seq<(Seq<char>, Term)>) -> bool {
    &&& defs_within(core_defs_t(), d)
    &&& d.contains(("_ADD"@, abs_t("_ADD"@, add_helper_t())))
    &&& d.contains(("ADD"@, app_t(rec_t(var_t("_ADD"@)), bit_t(false))))
}

/// The bits of a ripple-carry addition with the carry `c` coming in, as many as `a` has.
pub open spec fn carry_sum(c: bool, a: Seq<bool>, b: Seq<bool>) -> Seq<bool>
    decreases a.len(),
{
    if a.len() == 0 || b.len() == 0 {
        seq![]
    } else {
        let x = a[0] != b[0];
        seq![x != c] + carry_sum((a[0] && b[0]) || (x && c), a.drop_first(), b.drop_first())
    }
}

/// `x` of the body of `_ADD`: the exclusive or of the heads of the numbers.
pub open spec fn add_x_t(a: Term, b: Term) -> Term {
    bit_xor_t(list::head_t(a), list::head_t(b))
}

/// The body of `_ADD` inside its `let`: the empty list, or the sum of the heads and the
/// recursive call on the tails with the carry.
pub open spec fn add_sel_t(c: Term, a: Term, b: Term, x: Term) -> Term {
    let a_head = list::head_t(a);
    let b_head = list::head_t(b);
    let sum_head = bit_xor_t(x, c);
    let carry_out = bit_or_t(bit_and_t(a_head, b_head), bit_and_t(x, c));
    let sum_tail = app3_t(rec_t(var_t("_ADD"@)), carry_out, list::tail_t(a), list::tail_t(b));
    select_t(list::is_not_empty_t(a), list::empty_t(), list::node_t(sum_head, sum_tail))
}

/// The variables of `_ADD` are different from each other and from the names its body refers to.
proof fn lemma_add_names()
    ensures
        "a"@ != "b"@, "a"@ != "c"@, "a"@ != "x"@, "b"@ != "c"@, "b"@ != "x"@, "c"@ != "x"@,
        "a"@ != "0"@, "a"@ != "1"@, "a"@ != "C"@, "a"@ != "Empty"@, "a"@ != "_ADD"@,
        "b"@ != "0"@, "b"@ != "1"@, "b"@ != "C"@, "b"@ != "Empty"@, "b"@ != "_ADD"@,
        "c"@ != "0"@, "c"@ != "1"@, "c"@ != "C"@, "c"@ != "Empty"@, "c"@ != "_ADD"@,
        "x"@ != "0"@, "x"@ != "1"@, "x"@ != "C"@, "x"@ != "Empty"@, "x"@ != "_ADD"@,
{
    reveal_strlit("a");
    reveal_strlit("b");
    reveal_strlit("c");
    reveal_strlit("x");
    reveal_strlit("0");
    reveal_strlit("1");
    reveal_strlit("C");
    reveal_strlit("Empty");
    reveal_strlit("_ADD");
    assert("a"@[0] != "b"@[0] && "a"@[0] != "c"@[0] && "a"@[0] != "x"@[0]);
    assert("b"@[0] != "c"@[0] && "b"@[0] != "x"@[0] && "c"@[0] != "x"@[0]);
    assert("a"@[0] != "0"@[0] && "a"@[0] != "1"@[0] && "a"@[0] != "C"@[0]);
    assert("b"@[0] != "0"@[0] && "b"@[0] != "1"@[0] && "b"@[0] != "C"@[0]);
    assert("c"@[0] != "0"@[0] && "c"@[0] != "1"@[0] && "c"@[0] != "C"@[0]);
    assert("x"@[0] != "0"@[0] && "x"@[0] != "1"@[0] && "x"@[0] != "C"@[0]);
}

/// A name that the body of `_ADD` does not refer to.
pub open spec fn not_fixed(n: Seq<char>) -> bool {
    n != "0"@ && n != "1"@ && n != "C"@ && n != "Empty"@ && n != "_ADD"@
}

/// Substitution goes into the parts of the templates, which bind nothing.
#[verifier::spinoff_prover]
#[verifier::rlimit(80)]
proof fn lemma_templates_subst(c: Term, a: Term, b: Term, x: Term, n: Seq<char>, v: Term)
    requires
        not_fixed(n),
    ensures
        subst(add_x_t(a, b), n, v) == add_x_t(subst(a, n, v), subst(b, n, v)),
        subst(add_sel_t(c, a, b, x), n, v)
            == add_sel_t(subst(c, n, v), subst(a, n, v), subst(b, n, v), subst(x, n, v)),
        free_for(v, n, add_x_t(a, b)) == (free_for(v, n, a) && free_for(v, n, b)),
        free_for(v, n, add_sel_t(c, a, b, x))
            == (free_for(v, n, c) && free_for(v, n, a) && free_for(v, n, b) && free_for(v, n, x)),
{
    reveal_with_fuel(subst, 12);
    reveal_with_fuel(free_for, 12);
}

/// A term none of whose free names is a variable of `_ADD`.
pub open spec fn avoids_add_names(t: Term) -> bool {
    !free_names(t).contains("a"@) && !free_names(t).contains("b"@) && !free_names(t).contains("c"@)
        && !free_names(t).contains("x"@)
}

/// Substitution goes under a binder of another name that the argument does not mention.
proof fn lemma_abs_layer(y: Seq<char>, body: Term, n: Seq<char>, v: Term)
    requires
        y != n,
        !free_names(v).contains(y),
    ensures
        subst(abs_t(y, body), n, v) == abs_t(y, subst(body, n, v)),
        free_for(v, n, abs_t(y, body)) == free_for(v, n, body),
{
}

/// Substitution goes into both parts of a `let` of another name.
proof fn lemma_let_layer(x: Seq<char>, val: Term, body: Term, n: Seq<char>, v: Term)
    requires
        x != n,
        !free_names(v).contains(x),
    ensures
        subst(let_t(x, val, body), n, v) == let_t(x, subst(val, n, v), subst(body, n, v)),
        free_for(v, n, let_t(x, val, body)) == (free_for(v, n, body) && free_for(v, n, val)),
{
    lemma_abs_layer(x, body, n, v);
}

/// A `let` whose variable is the one substituted for takes the substitution in its value only.
proof fn lemma_let_same(x: Seq<char>, val: Term, body: Term, a: Term)
    ensures
        subst(let_t(x, val, body), x, a) == let_t(x, subst(val, x, a), body),
        free_for(a, x, let_t(x, val, body)) == free_for(a, x, val),
{
    reveal_with_fuel(subst, 2);
    reveal_with_fuel(free_for, 2);
}

/// `_ADD`'s definition applied to a carry and two numbers reduces to its body with them in place.
#[verifier::spinoff_prover]
#[verifier::rlimit(80)]
proof fn lemma_add_helper_apply(d: Seq<(Seq<char>, Term)>, c: Term, a: Term, b: Term)
    requires
        avoids_add_names(c),
        avoids_add_names(a),
        avoids_add_names(b),
    ensures
        reduces(d, app3_t(add_helper_t(), c, a, b), add_sel_t(c, a, b, add_x_t(a, b))),
{
    lemma_add_names();
    let va = var_t("a"@);
    let vb = var_t("b"@);
    let vc = var_t("c"@);
    let vx = var_t("x"@);
    let l0 = let_t("x"@, add_x_t(va, vb), add_sel_t(vc, va, vb, vx));
    let h = add_helper_t();
    assert(h == abs_t("c"@, abs_t("a"@, abs_t("b"@, l0))));
    // The carry.
    let l1 = let_t("x"@, add_x_t(va, vb), add_sel_t(c, va, vb, vx));
    lemma_templates_subst(vc, va, vb, vx, "c"@, c);
    lemma_free_for_not_free(c, "c"@, va);
    lemma_free_for_not_free(c, "c"@, vb);
    lemma_let_layer("x"@, add_x_t(va, vb), add_sel_t(vc, va, vb, vx), "c"@, c);
    lemma_abs_layer("b"@, l0, "c"@, c);
    lemma_abs_layer("a"@, abs_t("b"@, l0), "c"@, c);
    lemma_reduces_beta(d, "c"@, abs_t("a"@, abs_t("b"@, l0)), c);
    // The first number.
    let l2 = let_t("x"@, add_x_t(a, vb), add_sel_t(c, a, vb, vx));
    lemma_templates_subst(c, va, vb, vx, "a"@, a);
    lemma_subst_not_free(c, "a"@, a);
    lemma_free_for_not_free(a, "a"@, c);
    lemma_let_layer("x"@, add_x_t(va, vb), add_sel_t(c, va, vb, vx), "a"@, a);
    lemma_abs_layer("b"@, l1, "a"@, a);
    lemma_reduces_beta(d, "a"@, abs_t("b"@, l1), a);
    // The second number.
    let l3 = let_t("x"@, add_x_t(a, b), add_sel_t(c, a, b, vx));
    lemma_templates_subst(c, a, vb, vx, "b"@, b);
    lemma_subst_not_free(c, "b"@, b);
    lemma_subst_not_free(a, "b"@, b);
    lemma_free_for_not_free(b, "b"@, c);
    lemma_free_for_not_free(b, "b"@, a);
    lemma_let_layer("x"@, add_x_t(a, vb), add_sel_t(c, a, vb, vx), "b"@, b);
    lemma_reduces_beta(d, "b"@, l2, b);
    // The `let`.
    let s = add_sel_t(c, a, b, vx);
    let xv = add_x_t(a, b);
    lemma_templates_subst(c, a, b, vx, "x"@, xv);
    lemma_subst_not_free(c, "x"@, xv);
    lemma_subst_not_free(a, "x"@, xv);
    lemma_subst_not_free(b, "x"@, xv);
    lemma_free_for_not_free(xv, "x"@, c);
    lemma_free_for_not_free(xv, "x"@, a);
    lemma_free_for_not_free(xv, "x"@, b);
    lemma_reduces_beta(d, "x"@, s, xv);
    // Chained, with each step inside the applications around it.
    lemma_reduces_fun(d, app_t(h, c), abs_t("a"@, abs_t("b"@, l1)), a);
    lemma_reduces_fun(d, app2_t(h, c, a), app_t(abs_t("a"@, abs_t("b"@, l1)), a), b);
    lemma_reduces_fun(d, app_t(abs_t("a"@, abs_t("b"@, l1)), a), abs_t("b"@, l2), b);
    lemma_reduces_trans(d, app3_t(h, c, a, b), app2_t(abs_t("a"@, abs_t("b"@, l1)), a, b), app_t(abs_t("b"@, l2), b));
    lemma_reduces_trans(d, app3_t(h, c, a, b), app_t(abs_t("b"@, l2), b), l3);
    lemma_reduces_trans(d, app3_t(h, c, a, b), l3, add_sel_t(c, a, b, xv));
}

/// What reduces under the core definitions reduces under `d`, which holds them.
pub proof fn lemma_core(d: Seq<(Seq<char>, Term)>, t: Term, u: Term)
    requires
        defs_within(core_defs_t(), d),
        reduces(core_defs_t(), t, u),
    ensures
        reduces(d, t, u),
{
    lemma_reduces_more_defs(core_defs_t(), d, t, u);
}

/// A condition that reduces to a bit selects as the bit does.
pub proof fn lemma_select(d: Seq<(Seq<char>, Term)>, c: Term, bit: bool, a: Term, b: Term)
    requires
        defs_within(core_defs_t(), d),
        reduces(d, c, bit_t(bit)),
        hygienic(a),
    ensures
        reduces(d, select_t(c, a, b), if bit { b } else { a }),
{
    lemma_reduces_fun(d, c, bit_t(bit), a);
    lemma_reduces_fun(d, app_t(c, a), app_t(bit_t(bit), a), b);
    if bit {
        lemma_select_1(a, b);
    } else {
        lemma_select_0(a, b);
    }
    lemma_core(d, select_t(bit_t(bit), a, b), if bit { b } else { a });
    lemma_reduces_trans(d, select_t(c, a, b), select_t(bit_t(bit), a, b), if bit { b } else { a });
}

pub proof fn lemma_not(d: Seq<(Seq<char>, Term)>, t: Term, p: bool)
    requires
        defs_within(core_defs_t(), d),
        reduces(d, t, bit_t(p)),
    ensures
        reduces(d, bit_not_t(t), bit_t(!p)),
{
    lemma_bit_hygienic(true);
    lemma_select(d, t, p, bit_t(true), bit_t(false));
}

proof fn lemma_xor(d: Seq<(Seq<char>, Term)>, t1: Term, t2: Term, p: bool, q: bool)
    requires
        defs_within(core_defs_t(), d),
        reduces(d, t1, bit_t(p)),
        reduces(d, t2, bit_t(q)),
        hygienic(t2),
    ensures
        reduces(d, bit_xor_t(t1, t2), bit_t(p != q)),
{
    lemma_select(d, t1, p, t2, bit_not_t(t2));
    if p {
        lemma_not(d, t2, q);
        lemma_reduces_trans(d, bit_xor_t(t1, t2), bit_not_t(t2), bit_t(p != q));
    } else {
        lemma_reduces_trans(d, bit_xor_t(t1, t2), t2, bit_t(p != q));
    }
}

proof fn lemma_and(d: Seq<(Seq<char>, Term)>, t1: Term, t2: Term, p: bool, q: bool)
    requires
        defs_within(core_defs_t(), d),
        reduces(d, t1, bit_t(p)),
        reduces(d, t2, bit_t(q)),
    ensures
        reduces(d, bit_and_t(t1, t2), bit_t(p && q)),
{
    lemma_bit_hygienic(false);
    lemma_select(d, t1, p, bit_t(false), t2);
    if p {
        lemma_reduces_trans(d, bit_and_t(t1, t2), t2, bit_t(p && q));
    }
}

proof fn lemma_or(d: Seq<(Seq<char>, Term)>, t1: Term, t2: Term, p: bool, q: bool)
    requires
        defs_within(core_defs_t(), d),
        reduces(d, t1, bit_t(p)),
        reduces(d, t2, bit_t(q)),
        hygienic(t2),
    ensures
        reduces(d, bit_or_t(t1, t2), bit_t(p || q)),
{
    lemma_select(d, t1, p, t2, bit_t(true));
    if !p {
        lemma_reduces_trans(d, bit_or_t(t1, t2), t2, bit_t(p || q));
    }
}

proof fn lemma_select_hygienic(c: Term, a: Term, b: Term)
    requires
        hygienic(c),
        hygienic(a),
        hygienic(b),
    ensures
        hygienic(select_t(c, a, b)),
{
    lemma_app_hygienic(c, a);
    lemma_app_hygienic(app_t(c, a), b);
}

/// The parts of the body of `_ADD` that take the place of a condition or of a first branch
/// are hygienic where the numbers are.
proof fn lemma_add_parts_hygienic(c: Term, a: Term, b: Term)
    requires
        hygienic(c),
        hygienic(a),
        hygienic(b),
    ensures
        hygienic(list::head_t(a)),
        hygienic(list::head_t(b)),
        hygienic(add_x_t(a, b)),
        hygienic(bit_and_t(add_x_t(a, b), c)),
{
    lemma_names_hygienic();
    lemma_bit_hygienic(false);
    lemma_bit_hygienic(true);
    lemma_app_hygienic(a, Term::Var("1"@));
    lemma_app_hygienic(app_t(a, Term::Var("1"@)), Term::Var("0"@));
    lemma_app_hygienic(b, Term::Var("1"@));
    lemma_app_hygienic(app_t(b, Term::Var("1"@)), Term::Var("0"@));
    let hb = list::head_t(b);
    lemma_select_hygienic(hb, bit_t(true), bit_t(false));
    lemma_select_hygienic(list::head_t(a), hb, bit_not_t(hb));
    lemma_select_hygienic(add_x_t(a, b), bit_t(false), c);
}

/// A list of bits has no variable of `_ADD` free.
proof fn lemma_bit_list_avoids(bits: Seq<bool>)
    ensures
        avoids_add_names(bit_list_t(bits)),
        avoids_add_names(bit_t(true)),
        avoids_add_names(bit_t(false)),
    decreases bits.len(),
{
    lemma_add_names();
    if bits.len() > 0 {
        lemma_bit_list_avoids(bits.drop_first());
        reveal_strlit("a");
        reveal_strlit("b");
        reveal_strlit("c");
        reveal_strlit("x");
        reveal_strlit("C");
        reveal_strlit("0");
        reveal_strlit("1");
        reveal_with_fuel(free_names, 3);
    } else {
        reveal_strlit("a");
        reveal_strlit("b");
        reveal_strlit("c");
        reveal_strlit("x");
        reveal_strlit("Empty");
    }
}

/// `_ADD` unfolds to its definition.
proof fn lemma_add_unfold(d: Seq<(Seq<char>, Term)>)
    requires
        add_defs(d),
    ensures
        reduces(d, rec_t(var_t("_ADD"@)), add_helper_t()),
{
    let h = add_helper_t();
    let f = var_t("_ADD"@);
    lemma_reduces_defined(d, "_ADD"@, abs_t("_ADD"@, h));
    lemma_reduces_fun(d, f, abs_t("_ADD"@, h), f);
    lemma_free_for_self(h, "_ADD"@);
    lemma_reduces_beta(d, "_ADD"@, h, f);
    lemma_subst_self(h, "_ADD"@);
    lemma_reduces_trans(d, rec_t(f), app_t(abs_t("_ADD"@, h), f), h);
}

/// Reduction inside the three arguments of an application.
proof fn lemma_args3(d: Seq<(Seq<char>, Term)>, f: Term, a: Term, a2: Term, b: Term, b2: Term, c: Term, c2: Term)
    requires
        reduces(d, a, a2),
        reduces(d, b, b2),
        reduces(d, c, c2),
    ensures
        reduces(d, app3_t(f, a, b, c), app3_t(f, a2, b2, c2)),
{
    lemma_reduces_arg(d, f, a, a2);
    lemma_reduces_fun(d, app_t(f, a), app_t(f, a2), b);
    lemma_reduces_arg(d, app_t(f, a2), b, b2);
    lemma_reduces_trans(d, app2_t(f, a, b), app2_t(f, a2, b), app2_t(f, a2, b2));
    lemma_reduces_fun(d, app2_t(f, a, b), app2_t(f, a2, b2), c);
    lemma_reduces_arg(d, app2_t(f, a2, b2), c, c2);
    lemma_reduces_trans(d, app3_t(f, a, b, c), app3_t(f, a2, b2, c), app3_t(f, a2, b2, c2));
}

/// Reduction inside the two arguments of an application.
proof fn lemma_args2(d: Seq<(Seq<char>, Term)>, f: Term, a: Term, a2: Term, b: Term, b2: Term)
    requires
        reduces(d, a, a2),
        reduces(d, b, b2),
    ensures
        reduces(d, app2_t(f, a, b), app2_t(f, a2, b2)),
{
    lemma_reduces_arg(d, f, a, a2);
    lemma_reduces_fun(d, app_t(f, a), app_t(f, a2), b);
    lemma_reduces_arg(d, app_t(f, a2), b, b2);
    lemma_reduces_trans(d, app2_t(f, a, b), app2_t(f, a2, b), app2_t(f, a2, b2));
}

/// `_ADD` applied to a carry and two numbers reduces to their ripple-carry sum.
#[verifier::spinoff_prover]
#[verifier::rlimit(80)]
proof fn lemma_add_run(d: Seq<(Seq<char>, Term)>, c: bool, a: Seq<bool>, b: Seq<bool>)
    requires
        add_defs(d),
        a.len() <= b.len(),
    ensures
        reduces(
            d,
            app3_t(rec_t(var_t("_ADD"@)), bit_t(c), bit_list_t(a), bit_list_t(b)),
            bit_list_t(carry_sum(c, a, b)),
        ),
    decreases a.len(),
{
    let ct = bit_t(c);
    let at = bit_list_t(a);
    let bt = bit_list_t(b);
    let f = rec_t(var_t("_ADD"@));
    let h = add_helper_t();
    let start = app3_t(f, ct, at, bt);
    lemma_add_unfold(d);
    lemma_reduces_fun(d, f, h, ct);
    lemma_reduces_fun(d, app_t(f, ct), app_t(h, ct), at);
    lemma_reduces_fun(d, app2_t(f, ct, at), app2_t(h, ct, at), bt);
    lemma_bit_list_avoids(a);
    lemma_bit_list_avoids(b);
    lemma_add_helper_apply(d, ct, at, bt);
    let xt = add_x_t(at, bt);
    let sel = add_sel_t(ct, at, bt, xt);
    lemma_reduces_trans(d, start, app3_t(h, ct, at, bt), sel);
    lemma_bit_hygienic(c);
    lemma_bit_list_hygienic(a);
    lemma_bit_list_hygienic(b);
    lemma_names_hygienic();
    let carry_out = bit_or_t(bit_and_t(list::head_t(at), list::head_t(bt)), bit_and_t(xt, ct));
    let sum_tail = app3_t(f, carry_out, list::tail_t(at), list::tail_t(bt));
    let node = list::node_t(bit_xor_t(xt, ct), sum_tail);
    if a.len() == 0 {
        lemma_is_not_empty_empty();
        lemma_core(d, list::is_not_empty_t(list::empty_t()), bit_t(false));
        lemma_select(d, list::is_not_empty_t(at), false, list::empty_t(), node);
        lemma_reduces_trans(d, start, sel, list::empty_t());
    } else {
        let a0 = a[0];
        let b0 = b[0];
        let a1 = a.drop_first();
        let b1 = b.drop_first();
        let at1 = bit_list_t(a1);
        let bt1 = bit_list_t(b1);
        lemma_bit_hygienic(a0);
        lemma_bit_hygienic(b0);
        lemma_bit_list_hygienic(a1);
        lemma_bit_list_hygienic(b1);
        assert(at == list::node_t(bit_t(a0), at1));
        assert(bt == list::node_t(bit_t(b0), bt1));
        // The first number is not empty.
        lemma_is_not_empty_node(bit_t(a0), at1);
        lemma_core(d, list::is_not_empty_t(at), bit_t(true));
        lemma_select(d, list::is_not_empty_t(at), true, list::empty_t(), node);
        // The heads, `x`, the sum bit and the carry.
        lemma_head(bit_t(a0), at1);
        lemma_core(d, list::head_t(at), bit_t(a0));
        lemma_head(bit_t(b0), bt1);
        lemma_core(d, list::head_t(bt), bit_t(b0));
        lemma_add_parts_hygienic(ct, at, bt);
        let x = a0 != b0;
        lemma_xor(d, list::head_t(at), list::head_t(bt), a0, b0);
        lemma_reduces_refl(d, ct);
        lemma_xor(d, xt, ct, x, c);
        lemma_and(d, list::head_t(at), list::head_t(bt), a0, b0);
        lemma_and(d, xt, ct, x, c);
        let c1 = (a0 && b0) || (x && c);
        lemma_or(d, bit_and_t(list::head_t(at), list::head_t(bt)), bit_and_t(xt, ct), a0 && b0, x && c);
        // The tails, and the sum of the tails.
        lemma_tail(bit_t(a0), at1);
        lemma_core(d, list::tail_t(at), at1);
        lemma_tail(bit_t(b0), bt1);
        lemma_core(d, list::tail_t(bt), bt1);
        lemma_args3(d, f, carry_out, bit_t(c1), list::tail_t(at), at1, list::tail_t(bt), bt1);
        lemma_add_run(d, c1, a1, b1);
        let rest = carry_sum(c1, a1, b1);
        lemma_reduces_trans(d, sum_tail, app3_t(f, bit_t(c1), at1, bt1), bit_list_t(rest));
        lemma_args2(d, var_t("C"@), bit_xor_t(xt, ct), bit_t(x != c), sum_tail, bit_list_t(rest));
        let sum = carry_sum(c, a, b);
        assert(sum == seq![x != c] + rest);
        assert(sum.drop_first() =~= rest);
        assert(bit_list_t(sum) == list::node_t(bit_t(x != c), bit_list_t(rest)));
        lemma_reduces_trans(d, start, sel, node);
        lemma_reduces_trans(d, start, node, bit_list_t(sum));
    }
}

/// The ripple-carry sum is the sum of the values with the carry, cut to the width of `a`.
proof fn lemma_carry_sum_value(c: bool, a: Seq<bool>, b: Seq<bool>)
    requires
        a.len() <= b.len(),
    ensures
        carry_sum(c, a, b) == low_bits(a.len(), (if c { 1nat } else { 0nat }) + bits_value(a) + bits_value(b)),
    decreases a.len(),
{
    if a.len() > 0 {
        let a0 = a[0];
        let b0 = b[0];
        let x = a0 != b0;
        let c1 = (a0 && b0) || (x && c);
        lemma_carry_sum_value(c1, a.drop_first(), b.drop_first());
        let y: int = (if c { 1int } else { 0int }) + (if a0 { 1int } else { 0int }) + (if b0 { 1int } else { 0int });
        let k: int = (bits_value(a.drop_first()) + bits_value(b.drop_first())) as int;
        let t: int = y + 2 * k;
        assert(t % 2 == y % 2 && t / 2 == y / 2 + k) by (nonlinear_arith)
            requires
                t == y + 2 * k,
                0 <= y <= 3,
                0 <= k,
        ;
        assert(y % 2 == 1 <==> (x != c));
        assert(y / 2 == (if c1 { 1int } else { 0int }));
    }
}

/// `ADD` applied to two numbers, lowest bit first, the second at least as wide as the first,
/// reduces to the lowest bits of their sum, as many as the first has: addition modulo a power
/// of two.
pub proof fn lemma_add_computes_sum(d: Seq<(Seq<char>, Term)>, a: Seq<bool>, b: Seq<bool>)
    requires
        add_defs(d),
        a.len() <= b.len(),
    ensures
        reduces(
            d,
            app2_t(var_t("ADD"@), bit_list_t(a), bit_list_t(b)),
            bit_list_t(low_bits(a.len(), bits_value(a) + bits_value(b))),
        ),
{
    let f = rec_t(var_t("_ADD"@));
    let at = bit_list_t(a);
    let bt = bit_list_t(b);
    lemma_reduces_defined(d, "ADD"@, app_t(f, bit_t(false)));
    lemma_reduces_fun(d, var_t("ADD"@), app_t(f, bit_t(false)), at);
    lemma_reduces_fun(d, app_t(var_t("ADD"@), at), app2_t(f, bit_t(false), at), bt);
    lemma_add_run(d, false, a, b);
    lemma_carry_sum_value(false, a, b);
    assert(0nat + bits_value(a) + bits_value(b) == bits_value(a) + bits_value(b));
    lemma_reduces_trans(d, app2_t(var_t("ADD"@), at, bt), app3_t(f, bit_t(false), at, bt), bit_list_t(carry_sum(false, a, b)));
}

/// `add` on a runtime that has neither `ADD` nor `_ADD` gives it the definitions that
/// `ADD` reduces by: after the core definitions, `ADD` computes the sum.
pub proof fn lemma_add_st_defs(s: RtState)
    requires
        !s.has("ADD"@),
        !s.has("_ADD"@),
    ensures
        add_defs(core_defs_t() + add_st(s).defs),
{
    reveal_strlit("ADD");
    reveal_strlit("_ADD");
    assert("ADD"@.len() != "_ADD"@.len());
    let e1 = ("_ADD"@, abs_t("_ADD"@, add_helper_t()));
    let e2 = ("ADD"@, app_t(rec_t(var_t("_ADD"@)), bit_t(false)));
    let s1 = s.def_rec("_ADD"@, add_helper_t());
    assert(s1.defs == s.defs.push(e1));
    assert(!s1.has("ADD"@)) by {
        if s1.has("ADD"@) {
            let i = choose|i: int| 0 <= i < s1.defs.len() && #[trigger] s1.defs[i].0 == "ADD"@;
            if i < s.defs.len() {
                assert(s.defs[i].0 == "ADD"@);
            }
        }
    }
    let s2 = add_st(s);
    assert(s2.defs == s1.defs.push(e2));
    let d = core_defs_t() + s2.defs;
    let n: int = (core_defs_t().len() + s.defs.len()) as int;
    assert(d[n] == e1);
    assert(d[n + 1] == e2);
    assert forall|e: (Seq<char>, Term)| #[trigger] core_defs_t().contains(e) implies d.contains(e) by {
        let i = choose|i: int| 0 <= i < core_defs_t().len() && core_defs_t()[i] == e;
        assert(d[i] == e);
    }
}

/// The lowest bits of a number's value, as many as it has, are its bits.
pub proof fn lemma_low_bits_value(x: Seq<bool>)
    ensures
        low_bits(x.len(), bits_value(x)) == x,
    decreases x.len(),
{
    if x.len() > 0 {
        let rest = x.drop_first();
        lemma_low_bits_value(rest);
        let v: int = bits_value(x) as int;
        let r: int = bits_value(rest) as int;
        let b: int = if x[0] { 1 } else { 0 };
        assert(v == b + 2 * r);
        assert(v % 2 == b && v / 2 == r) by (nonlinear_arith)
            requires
                v == b + 2 * r,
                0 <= b <= 1,
                0 <= r,
        ;
        assert(low_bits(x.len(), bits_value(x)) =~= x);
    }
}

/// The body of `_INC` with its number in place.
pub open spec fn inc_body_t(a: Term) -> Term {
    let a_head = list::head_t(a);
    let a_tail = list::tail_t(a);
    select_t(
        list::is_not_empty_t(a),
        list::empty_t(),
        select_t(
            a_head,
            list::node_t(bit_t(true), a_tail),
            list::node_t(bit_t(false), app_t(rec_t(var_t("_INC"@)), a_tail)),
        ),
    )
}

/// Definitions that hold the core definitions and those of `INC`.
pub open spec fn inc_defs(d: Seq<(Seq<char>, Term)>) -> bool {
    &&& defs_within(core_defs_t(), d)
    &&& d.contains(("_INC"@, abs_t("_INC"@, inc_helper_t())))
    &&& d.contains(("INC"@, rec_t(var_t("_INC"@))))
}

/// Substitution goes into the number of the body of `_INC`, which binds nothing.
#[verifier::spinoff_prover]
#[verifier::rlimit(40)]
proof fn lemma_inc_template(x: Term, n: Seq<char>, v: Term)
    requires
        n != "0"@, n != "1"@, n != "C"@, n != "Empty"@, n != "_INC"@,
    ensures
        subst(inc_body_t(x), n, v) == inc_body_t(subst(x, n, v)),
        free_for(v, n, inc_body_t(x)) == free_for(v, n, x),
{
    reveal_with_fuel(subst, 10);
    reveal_with_fuel(free_for, 10);
}

/// `_INC` applied to a number reduces to its body with the number in place.
#[verifier::spinoff_prover]
#[verifier::rlimit(40)]
proof fn lemma_inc_apply(d: Seq<(Seq<char>, Term)>, a: Term)
    requires
        inc_defs(d),
    ensures
        reduces(d, app_t(rec_t(var_t("_INC"@)), a), inc_body_t(a)),
{
    let h = inc_helper_t();
    let f = var_t("_INC"@);
    lemma_reduces_defined(d, "_INC"@, abs_t("_INC"@, h));
    lemma_reduces_fun(d, f, abs_t("_INC"@, h), f);
    lemma_free_for_self(h, "_INC"@);
    lemma_reduces_beta(d, "_INC"@, h, f);
    lemma_subst_self(h, "_INC"@);
    lemma_reduces_trans(d, rec_t(f), app_t(abs_t("_INC"@, h), f), h);
    lemma_reduces_fun(d, rec_t(f), h, a);
    lemma_add_names();
    reveal_strlit("a");
    reveal_strlit("_INC");
    assert("a"@.len() != "_INC"@.len());
    assert(h == abs_t("a"@, inc_body_t(var_t("a"@))));
    lemma_inc_template(var_t("a"@), "a"@, a);
    lemma_reduces_beta(d, "a"@, inc_body_t(var_t("a"@)), a);
    lemma_reduces_trans(d, app_t(rec_t(f), a), app_t(h, a), inc_body_t(a));
}

/// `_INC` applied to a number reduces to the lowest bits of the number plus one.
#[verifier::spinoff_prover]
#[verifier::rlimit(60)]
proof fn lemma_inc_run(d: Seq<(Seq<char>, Term)>, a: Seq<bool>)
    requires
        inc_defs(d),
    ensures
        reduces(d, app_t(rec_t(var_t("_INC"@)), bit_list_t(a)), bit_list_t(low_bits(a.len(), bits_value(a) + 1))),
    decreases a.len(),
{
    let at = bit_list_t(a);
    let f = rec_t(var_t("_INC"@));
    let start = app_t(f, at);
    lemma_inc_apply(d, at);
    lemma_bit_list_hygienic(a);
    lemma_names_hygienic();
    let a_tail = list::tail_t(at);
    let n1 = list::node_t(bit_t(true), a_tail);
    let n0 = list::node_t(bit_t(false), app_t(f, a_tail));
    let inner = select_t(list::head_t(at), n1, n0);
    if a.len() == 0 {
        lemma_is_not_empty_empty();
        lemma_core(d, list::is_not_empty_t(list::empty_t()), bit_t(false));
        lemma_select(d, list::is_not_empty_t(at), false, list::empty_t(), inner);
        lemma_reduces_trans(d, start, inc_body_t(at), list::empty_t());
    } else {
        let a0 = a[0];
        let rest = a.drop_first();
        let rt = bit_list_t(rest);
        lemma_bit_hygienic(a0);
        lemma_bit_hygienic(true);
        lemma_bit_list_hygienic(rest);
        assert(at == list::node_t(bit_t(a0), rt));
        lemma_is_not_empty_node(bit_t(a0), rt);
        lemma_core(d, list::is_not_empty_t(at), bit_t(true));
        lemma_select(d, list::is_not_empty_t(at), true, list::empty_t(), inner);
        lemma_head(bit_t(a0), rt);
        lemma_core(d, list::head_t(at), bit_t(a0));
        lemma_tail(bit_t(a0), rt);
        lemma_core(d, a_tail, rt);
        // `n1` is hygienic: it takes the place of a first branch.
        lemma_app_hygienic(at, Term::Var("1"@));
        lemma_app_hygienic(app_t(at, Term::Var("1"@)), Term::Var("1"@));
        lemma_app_hygienic(Term::Var("C"@), bit_t(true));
        lemma_app_hygienic(app_t(Term::Var("C"@), bit_t(true)), a_tail);
        lemma_select(d, list::head_t(at), a0, n1, n0);
        lemma_reduces_trans(d, start, inc_body_t(at), inner);
        lemma_reduces_trans(d, start, inner, if a0 { n0 } else { n1 });
        let v: int = bits_value(a) as int;
        let r: int = bits_value(rest) as int;
        let target = low_bits(a.len(), bits_value(a) + 1);
        if a0 {
            // The low bit turns to 0 and the carry goes on into the rest.
            lemma_reduces_arg(d, f, a_tail, rt);
            lemma_inc_run(d, rest);
            lemma_reduces_trans(d, app_t(f, a_tail), app_t(f, rt), bit_list_t(low_bits(rest.len(), bits_value(rest) + 1)));
            let lr = low_bits(rest.len(), bits_value(rest) + 1);
            lemma_reduces_refl(d, bit_t(false));
            lemma_args2(d, Term::Var("C"@), bit_t(false), bit_t(false), app_t(f, a_tail), bit_list_t(lr));
            assert(v + 1 == 2 * (r + 1));
            assert((v + 1) % 2 == 0 && (v + 1) / 2 == r + 1) by (nonlinear_arith)
                requires
                    v + 1 == 2 * (r + 1),
            ;
            assert(target == seq![false] + lr);
            assert(target.drop_first() =~= lr);
            assert(bit_list_t(target) == list::node_t(bit_t(false), bit_list_t(lr)));
            lemma_reduces_trans(d, start, n0, bit_list_t(target));
        } else {
            // The low bit turns to 1 and the rest stays.
            lemma_reduces_refl(d, bit_t(true));
            lemma_args2(d, Term::Var("C"@), bit_t(true), bit_t(true), a_tail, rt);
            lemma_low_bits_value(rest);
            assert(v + 1 == 1 + 2 * r);
            assert((v + 1) % 2 == 1 && (v + 1) / 2 == r) by (nonlinear_arith)
                requires
                    v + 1 == 1 + 2 * r,
                    0 <= r,
            ;
            assert(target == seq![true] + rest);
            assert(target.drop_first() =~= rest);
            assert(bit_list_t(target) == list::node_t(bit_t(true), rt));
            lemma_reduces_trans(d, start, n1, bit_list_t(target));
        }
    }
}

/// `INC` applied to a number, lowest bit first, reduces to the lowest bits of the number plus
/// one, as many as it has: adding one modulo a power of two.
pub proof fn lemma_inc_computes_successor(d: Seq<(Seq<char>, Term)>, a: Seq<bool>)
    requires
        inc_defs(d),
    ensures
        reduces(d, app_t(var_t("INC"@), bit_list_t(a)), bit_list_t(low_bits(a.len(), bits_value(a) + 1))),
{
    let f = rec_t(var_t("_INC"@));
    lemma_reduces_defined(d, "INC"@, f);
    lemma_reduces_fun(d, var_t("INC"@), f, bit_list_t(a));
    lemma_inc_run(d, a);
    lemma_reduces_trans(d, app_t(var_t("INC"@), bit_list_t(a)), app_t(f, bit_list_t(a)), bit_list_t(low_bits(a.len(), bits_value(a) + 1)));
}

/// Cutting a number to its lowest bits before adding does not change the lowest bits of the
/// sum.
proof fn lemma_low_bits_sum(m: nat, x: nat, y: nat)
    ensures
        low_bits(m, bits_value(low_bits(m, x)) + y) == low_bits(m, x + y),
    decreases m,
{
    if m > 0 {
        let q: int = (x / 2) as int;
        let r: int = (x % 2) as int;
        let c: int = (r + y) / 2;
        assert(x == 2 * q + r && 0 <= r < 2) by (nonlinear_arith)
            requires
                q == x / 2,
                r == x % 2,
        ;
        lemma_low_bits_sum((m - 1) as nat, q as nat, c as nat);
        let l = low_bits(m, x);
        let w: int = bits_value(low_bits((m - 1) as nat, q as nat)) as int;
        assert(l.drop_first() =~= low_bits((m - 1) as nat, q as nat));
        assert(l[0] == (r == 1));
        assert(bits_value(l) == r + 2 * w);
        let s: int = r + 2 * w + y;
        let t: int = (x + y) as int;
        assert(s % 2 == t % 2 && s / 2 == w + c && t / 2 == q + c) by (nonlinear_arith)
            requires
                s == r + 2 * w + y,
                t == 2 * q + r + y,
                c == (r + y) / 2,
                0 <= r < 2,
                0 <= y,
                0 <= w,
                0 <= q,
        ;
    }
}

/// The value of a number's lowest bits is below the power of two of their count.
proof fn lemma_low_bits_len(m: nat, x: nat)
    ensures
        low_bits(m, x).len() == m,
    decreases m,
{
    if m > 0 {
        lemma_low_bits_len((m - 1) as nat, x / 2);
    }
}

/// The body of `_MUL` with its numbers in place.
pub open spec fn mul_body_t(a: Term, b: Term) -> Term {
    let tail0 = app2_t(rec_t(var_t("_MUL"@)), list::tail_t(a), b);
    let tail1 = app2_t(var_t("ADD"@), tail0, list::tail_t(b));
    select_t(
        list::is_not_empty_t(a),
        list::empty_t(),
        select_t(list::head_t(a), list::node_t(bit_t(false), tail0), list::node_t(list::head_t(b), tail1)),
    )
}

/// Definitions that hold the core definitions and those of `ADD` and `MUL`.
pub open spec fn mul_defs(d: Seq<(Seq<char>, Term)>) -> bool {
    &&& add_defs(d)
    &&& d.contains(("_MUL"@, abs_t("_MUL"@, mul_helper_t())))
    &&& d.contains(("MUL"@, rec_t(var_t("_MUL"@))))
}

/// Substitution goes into the numbers of the body of `_MUL`, which binds nothing.
#[verifier::spinoff_prover]
#[verifier::rlimit(60)]
proof fn lemma_mul_template(a: Term, b: Term, n: Seq<char>, v: Term)
    requires
        n != "0"@, n != "1"@, n != "C"@, n != "Empty"@, n != "_MUL"@, n != "ADD"@,
    ensures
        subst(mul_body_t(a, b), n, v) == mul_body_t(subst(a, n, v), subst(b, n, v)),
        free_for(v, n, mul_body_t(a, b)) == (free_for(v, n, a) && free_for(v, n, b)),
{
    reveal_with_fuel(subst, 10);
    reveal_with_fuel(free_for, 10);
}

proof fn lemma_mul_names()
    ensures
        "a"@ != "b"@,
        "a"@ != "_MUL"@, "a"@ != "ADD"@, "b"@ != "_MUL"@, "b"@ != "ADD"@,
        "a"@ != "0"@, "a"@ != "1"@, "a"@ != "C"@, "a"@ != "Empty"@,
        "b"@ != "0"@, "b"@ != "1"@, "b"@ != "C"@, "b"@ != "Empty"@,
        hygienic(var_t("_MUL"@)),
        hygienic(var_t("ADD"@)),
{
    lemma_add_names();
    reveal_strlit("a");
    reveal_strlit("b");
    reveal_strlit("_MUL");
    reveal_strlit("ADD");
    reveal_strlit("x0");
    reveal_strlit("x1");
    reveal_strlit("first");
    reveal_strlit("second");
    reveal_strlit("g");
    reveal_strlit("head");
    reveal_strlit("tail");
    reveal_strlit("tree");
    reveal_strlit("index");
    reveal_strlit("value");
    assert("a"@.len() != "_MUL"@.len() && "a"@.len() != "ADD"@.len());
    assert("_MUL"@[0] != "x0"@[0] && "_MUL"@[0] != "first"@[0] && "_MUL"@[0] != "second"@[0]);
    assert("_MUL"@[0] != "g"@[0] && "_MUL"@[0] != "head"@[0] && "_MUL"@[0] != "tail"@[0]);
    assert("_MUL"@[0] != "tree"@[0] && "_MUL"@[0] != "index"@[0] && "_MUL"@[0] != "value"@[0]);
    assert("ADD"@[0] != "x0"@[0] && "ADD"@[0] != "first"@[0] && "ADD"@[0] != "second"@[0]);
    assert("ADD"@[0] != "g"@[0] && "ADD"@[0] != "head"@[0] && "ADD"@[0] != "tail"@[0]);
    assert("ADD"@[0] != "tree"@[0] && "ADD"@[0] != "index"@[0] && "ADD"@[0] != "value"@[0]);
}

/// `_MUL` applied to two numbers reduces to its body with them in place.
#[verifier::spinoff_prover]
#[verifier::rlimit(40)]
proof fn lemma_mul_apply(d: Seq<(Seq<char>, Term)>, a: Term, b: Term)
    requires
        mul_defs(d),
        avoids_add_names(a),
        avoids_add_names(b),
    ensures
        reduces(d, app2_t(rec_t(var_t("_MUL"@)), a, b), mul_body_t(a, b)),
{
    let h = mul_helper_t();
    let f = var_t("_MUL"@);
    lemma_mul_names();
    lemma_reduces_defined(d, "_MUL"@, abs_t("_MUL"@, h));
    lemma_reduces_fun(d, f, abs_t("_MUL"@, h), f);
    lemma_free_for_self(h, "_MUL"@);
    lemma_reduces_beta(d, "_MUL"@, h, f);
    lemma_subst_self(h, "_MUL"@);
    lemma_reduces_trans(d, rec_t(f), app_t(abs_t("_MUL"@, h), f), h);
    let va = var_t("a"@);
    let vb = var_t("b"@);
    assert(h == abs_t("a"@, abs_t("b"@, mul_body_t(va, vb))));
    lemma_mul_template(va, vb, "a"@, a);
    lemma_abs_layer("b"@, mul_body_t(va, vb), "a"@, a);
    lemma_reduces_beta(d, "a"@, abs_t("b"@, mul_body_t(va, vb)), a);
    lemma_mul_template(a, vb, "b"@, b);
    lemma_subst_not_free(a, "b"@, b);
    lemma_free_for_not_free(b, "b"@, a);
    lemma_reduces_beta(d, "b"@, mul_body_t(a, vb), b);
    lemma_reduces_fun(d, rec_t(f), h, a);
    lemma_reduces_trans(d, app_t(rec_t(f), a), app_t(h, a), abs_t("b"@, mul_body_t(a, vb)));
    lemma_reduces_fun(d, app_t(rec_t(f), a), abs_t("b"@, mul_body_t(a, vb)), b);
    lemma_reduces_trans(d, app2_t(rec_t(f), a, b), app_t(abs_t("b"@, mul_body_t(a, vb)), b), mul_body_t(a, b));
}

/// `_MUL` applied to two numbers, the second at least as wide, reduces to the lowest bits of
/// their product, as many as the first has.
#[verifier::spinoff_prover]
#[verifier::rlimit(80)]
proof fn lemma_mul_run(d: Seq<(Seq<char>, Term)>, a: Seq<bool>, b: Seq<bool>)
    requires
        mul_defs(d),
        a.len() <= b.len(),
    ensures
        reduces(d, app2_t(rec_t(var_t("_MUL"@)), bit_list_t(a), bit_list_t(b)),
            bit_list_t(low_bits(a.len(), bits_value(a) * bits_value(b)))),
    decreases a.len(),
{
    let at = bit_list_t(a);
    let bt = bit_list_t(b);
    let f = rec_t(var_t("_MUL"@));
    let start = app2_t(f, at, bt);
    lemma_bit_list_avoids(a);
    lemma_bit_list_avoids(b);
    lemma_mul_apply(d, at, bt);
    lemma_mul_names();
    lemma_bit_list_hygienic(a);
    lemma_bit_list_hygienic(b);
    lemma_names_hygienic();
    let tail0 = app2_t(f, list::tail_t(at), bt);
    let tail1 = app2_t(var_t("ADD"@), tail0, list::tail_t(bt));
    let n0 = list::node_t(bit_t(false), tail0);
    let n1 = list::node_t(list::head_t(bt), tail1);
    let inner = select_t(list::head_t(at), n0, n1);
    let target = low_bits(a.len(), bits_value(a) * bits_value(b));
    if a.len() == 0 {
        lemma_is_not_empty_empty();
        lemma_core(d, list::is_not_empty_t(list::empty_t()), bit_t(false));
        lemma_select(d, list::is_not_empty_t(at), false, list::empty_t(), inner);
        lemma_reduces_trans(d, start, mul_body_t(at, bt), list::empty_t());
        assert(target =~= Seq::<bool>::empty());
    } else {
        let a0 = a[0];
        let b0 = b[0];
        let a1 = a.drop_first();
        let b1 = b.drop_first();
        let at1 = bit_list_t(a1);
        let bt1 = bit_list_t(b1);
        lemma_bit_hygienic(a0);
        lemma_bit_hygienic(b0);
        lemma_bit_hygienic(false);
        lemma_bit_list_hygienic(a1);
        lemma_bit_list_hygienic(b1);
        assert(at == list::node_t(bit_t(a0), at1));
        assert(bt == list::node_t(bit_t(b0), bt1));
        lemma_is_not_empty_node(bit_t(a0), at1);
        lemma_core(d, list::is_not_empty_t(at), bit_t(true));
        lemma_select(d, list::is_not_empty_t(at), true, list::empty_t(), inner);
        lemma_head(bit_t(a0), at1);
        lemma_core(d, list::head_t(at), bit_t(a0));
        // `n0` is hygienic: it takes the place of a first branch.
        lemma_app_hygienic(var_t("_MUL"@), var_t("_MUL"@));
        lemma_app_hygienic(at, Term::Var("1"@));
        lemma_app_hygienic(app_t(at, Term::Var("1"@)), Term::Var("1"@));
        lemma_app_hygienic(f, list::tail_t(at));
        lemma_app_hygienic(app_t(f, list::tail_t(at)), bt);
        lemma_app_hygienic(Term::Var("C"@), bit_t(false));
        lemma_app_hygienic(app_t(Term::Var("C"@), bit_t(false)), tail0);
        lemma_select(d, list::head_t(at), a0, n0, n1);
        lemma_reduces_trans(d, start, mul_body_t(at, bt), inner);
        lemma_reduces_trans(d, start, inner, if a0 { n1 } else { n0 });
        // The product of the rest of `a` with `b`.
        lemma_tail(bit_t(a0), at1);
        lemma_core(d, list::tail_t(at), at1);
        lemma_reduces_arg(d, f, list::tail_t(at), at1);
        lemma_reduces_fun(d, app_t(f, list::tail_t(at)), app_t(f, at1), bt);
        lemma_mul_run(d, a1, b);
        let va1: nat = bits_value(a1);
        let vb: nat = bits_value(b);
        let vb1: nat = bits_value(b1);
        let l = low_bits(a1.len(), va1 * vb);
        lemma_reduces_trans(d, tail0, app2_t(f, at1, bt), bit_list_t(l));
        let va: int = bits_value(a) as int;
        let p: int = (va1 * vb) as int;
        assert(va == (if a0 { 1int } else { 0int }) + 2 * va1);
        assert(vb == (if b0 { 1int } else { 0int }) + 2 * vb1);
        if a0 {
            // The low bit is that of `b`; the rest is the rest of `b` plus the rest of the product.
            lemma_head(bit_t(b0), bt1);
            lemma_core(d, list::head_t(bt), bit_t(b0));
            lemma_tail(bit_t(b0), bt1);
            lemma_core(d, list::tail_t(bt), bt1);
            lemma_args2(d, var_t("ADD"@), tail0, bit_list_t(l), list::tail_t(bt), bt1);
            lemma_low_bits_len(a1.len(), va1 * vb);
            lemma_add_computes_sum(d, l, b1);
            let l2 = low_bits(a1.len(), bits_value(l) + vb1);
            lemma_reduces_trans(d, tail1, app2_t(var_t("ADD"@), bit_list_t(l), bt1), bit_list_t(l2));
            lemma_args2(d, Term::Var("C"@), list::head_t(bt), bit_t(b0), tail1, bit_list_t(l2));
            lemma_low_bits_sum(a1.len(), (va1 * vb) as nat, vb1);
            let b0v: int = if b0 { 1 } else { 0 };
            let prod: int = va * vb;
            assert(prod == vb + 2 * p) by (nonlinear_arith)
                requires
                    va == 1 + 2 * va1,
                    prod == va * vb,
                    p == va1 * vb,
            ;
            assert(prod % 2 == b0v && prod / 2 == vb1 + p) by (nonlinear_arith)
                requires
                    prod == vb + 2 * p,
                    vb == b0v + 2 * vb1,
                    0 <= b0v <= 1,
                    0 <= vb1,
                    0 <= p,
            ;
            assert(target == seq![b0] + l2);
            assert(target.drop_first() =~= l2);
            assert(bit_list_t(target) == list::node_t(bit_t(b0), bit_list_t(l2)));
            lemma_reduces_trans(d, start, n1, bit_list_t(target));
        } else {
            // The low bit is 0; the rest is the rest of the product.
            lemma_reduces_refl(d, bit_t(false));
            lemma_args2(d, Term::Var("C"@), bit_t(false), bit_t(false), tail0, bit_list_t(l));
            let prod: int = va * vb;
            assert(prod == 2 * p) by (nonlinear_arith)
                requires
                    va == 2 * va1,
                    prod == va * vb,
                    p == va1 * vb,
            ;
            assert(prod % 2 == 0 && prod / 2 == p) by (nonlinear_arith)
                requires
                    prod == 2 * p,
            ;
            assert(target == seq![false] + l);
            assert(target.drop_first() =~= l);
            assert(bit_list_t(target) == list::node_t(bit_t(false), bit_list_t(l)));
            lemma_reduces_trans(d, start, n0, bit_list_t(target));
        }
    }
}

/// `MUL` applied to two numbers, lowest bit first, the second at least as wide as the first,
/// reduces to the lowest bits of their product, as many as the first has: multiplication
/// modulo a power of two.
pub proof fn lemma_mul_computes_product(d: Seq<(Seq<char>, Term)>, a: Seq<bool>, b: Seq<bool>)
    requires
        mul_defs(d),
        a.len() <= b.len(),
    ensures
        reduces(
            d,
            app2_t(var_t("MUL"@), bit_list_t(a), bit_list_t(b)),
            bit_list_t(low_bits(a.len(), bits_value(a) * bits_value(b))),
        ),
{
    let f = rec_t(var_t("_MUL"@));
    lemma_reduces_defined(d, "MUL"@, f);
    lemma_reduces_fun(d, var_t("MUL"@), f, bit_list_t(a));
    lemma_reduces_fun(d, app_t(var_t("MUL"@), bit_list_t(a)), app_t(f, bit_list_t(a)), bit_list_t(b));
    lemma_mul_run(d, a, b);
    lemma_reduces_trans(d, app2_t(var_t("MUL"@), bit_list_t(a), bit_list_t(b)), app2_t(f, bit_list_t(a), bit_list_t(b)),
        bit_list_t(low_bits(a.len(), bits_value(a) * bits_value(b))));
}

/// Two to the power `n`.
pub open spec fn two_to(n: nat) -> nat
    decreases n,
{
    if n == 0 { 1 } else { 2 * two_to((n - 1) as nat) }
}

/// The highest bit of a number weighs two to the power of the count of the others, and the
/// value stays below two to the power of the bit count.
proof fn lemma_value_last(x: Seq<bool>)
    requires
        x.len() > 0,
    ensures
        bits_value(x) == bits_value(x.drop_last()) + (if x.last() { two_to((x.len() - 1) as nat) } else { 0 }),
        bits_value(x.drop_last()) < two_to((x.len() - 1) as nat),
    decreases x.len(),
{
    let r = x.drop_first();
    if x.len() == 1 {
        assert(x.drop_last() =~= Seq::<bool>::empty());
        assert(r =~= Seq::<bool>::empty());
    } else {
        lemma_value_last(r);
        assert(x.drop_last().drop_first() =~= r.drop_last());
        assert(x.drop_last()[0] == x[0]);
        assert(r.last() == x.last());
    }
}

/// The value of a number of two's complement: the highest bit weighs minus two to the power
/// of the count of the others.
pub open spec fn signed_value(x: Seq<bool>) -> int {
    bits_value(x) - (if x.len() > 0 && x.last() { two_to(x.len()) as int } else { 0 })
}

/// Definitions that hold the core definitions and those of a signed comparison.
pub open spec fn compare_s_defs(d: Seq<(Seq<char>, Term)>, strict: bool) -> bool {
    &&& defs_within(core_defs_t(), d)
    &&& d.contains((compare_be_name(strict), abs_t(compare_be_name(strict), compare_be_def_t(strict))))
    &&& d.contains((compare_s_name(strict), compare_s_def_t(strict)))
}

/// The body of a big-endian comparison with its numbers in place.
pub open spec fn be_order_body_t(strict: bool, a: Term, b: Term) -> Term {
    let tails = app2_t(rec_t(var_t(compare_be_name(strict))), list::tail_t(a), list::tail_t(b));
    select_t(
        list::is_not_empty_t(a),
        bit_t(!strict),
        select_t(
            list::head_t(a),
            select_t(list::head_t(b), tails, bit_t(true)),
            select_t(list::head_t(b), bit_t(false), tails),
        ),
    )
}

/// The body of a signed comparison past its `let`s, with the reversed numbers in place.
pub open spec fn s_order_body_t(strict: bool, a: Term, b: Term) -> Term {
    let tails = app2_t(rec_t(var_t(compare_be_name(strict))), list::tail_t(a), list::tail_t(b));
    select_t(
        list::head_t(a),
        select_t(list::head_t(b), tails, bit_t(false)),
        select_t(list::head_t(b), bit_t(true), tails),
    )
}

/// A name that the bodies of the comparisons do not refer to.
pub open spec fn order_free_name(n: Seq<char>, strict: bool) -> bool {
    n != "0"@ && n != "1"@ && n != "C"@ && n != "Empty"@ && n != "Rev"@ && n != compare_be_name(strict)
}

proof fn lemma_order_names(strict: bool)
    ensures
        "a"@ != "b"@, "a"@ != "a_be"@, "a"@ != "b_be"@, "b"@ != "a_be"@, "b"@ != "b_be"@, "a_be"@ != "b_be"@,
        order_free_name("a"@, strict),
        order_free_name("b"@, strict),
        order_free_name("a_be"@, strict),
        order_free_name("b_be"@, strict),
        hygienic(var_t(compare_be_name(strict))),
{
    lemma_add_names();
    reveal_strlit("a");
    reveal_strlit("b");
    reveal_strlit("a_be");
    reveal_strlit("b_be");
    reveal_strlit("0");
    reveal_strlit("1");
    reveal_strlit("C");
    reveal_strlit("Empty");
    reveal_strlit("Rev");
    reveal_strlit("_LTbe");
    reveal_strlit("_LEbe");
    reveal_strlit("x0");
    reveal_strlit("x1");
    reveal_strlit("first");
    reveal_strlit("second");
    reveal_strlit("g");
    reveal_strlit("head");
    reveal_strlit("tail");
    reveal_strlit("tree");
    reveal_strlit("index");
    reveal_strlit("value");
    assert("a_be"@[0] != "b_be"@[0] && "a_be"@.len() != "a"@.len() && "b"@.len() != "b_be"@.len());
    assert("a_be"@[0] != "Empty"@[0] && "b_be"@[0] != "Empty"@[0] && "a_be"@[0] != "Rev"@[0] && "b_be"@[0] != "Rev"@[0]);
    assert("a"@[0] != "Empty"@[0] && "b"@[0] != "Empty"@[0]);
    let be = compare_be_name(strict);
    assert(be.len() == 5 && be[0] == '_');
    assert(be[0] != "x0"@[0] && be[0] != "first"@[0] && be[0] != "second"@[0]);
    assert(be[0] != "g"@[0] && be[0] != "head"@[0] && be[0] != "tail"@[0]);
    assert(be[0] != "tree"@[0] && be[0] != "index"@[0] && be[0] != "value"@[0]);
}

/// Substitution goes into the numbers of the comparison bodies, which bind nothing.
#[verifier::spinoff_prover]
#[verifier::rlimit(60)]
proof fn lemma_order_templates(strict: bool, a: Term, b: Term, n: Seq<char>, v: Term)
    requires
        n != "0"@, n != "1"@, n != "C"@, n != "Empty"@, n != compare_be_name(strict),
    ensures
        subst(be_order_body_t(strict, a, b), n, v) == be_order_body_t(strict, subst(a, n, v), subst(b, n, v)),
        free_for(v, n, be_order_body_t(strict, a, b)) == (free_for(v, n, a) && free_for(v, n, b)),
        subst(s_order_body_t(strict, a, b), n, v) == s_order_body_t(strict, subst(a, n, v), subst(b, n, v)),
        free_for(v, n, s_order_body_t(strict, a, b)) == (free_for(v, n, a) && free_for(v, n, b)),
{
    reveal_with_fuel(subst, 10);
    reveal_with_fuel(free_for, 10);
}

/// A list of bits has no variable of the comparisons free.
proof fn lemma_bit_list_avoids_order(bits: Seq<bool>)
    ensures
        !free_names(bit_list_t(bits)).contains("a"@),
        !free_names(bit_list_t(bits)).contains("b"@),
        !free_names(bit_list_t(bits)).contains("a_be"@),
        !free_names(bit_list_t(bits)).contains("b_be"@),
{
    lemma_bit_list_free_names(bits);
    reveal_strlit("a");
    reveal_strlit("b");
    reveal_strlit("a_be");
    reveal_strlit("b_be");
    reveal_strlit("0");
    reveal_strlit("1");
    reveal_strlit("C");
    reveal_strlit("Empty");
    assert("a"@[0] != "C"@[0] && "a"@[0] != "0"@[0] && "a"@[0] != "1"@[0] && "a"@[0] != "Empty"@[0]);
    assert("b"@[0] != "C"@[0] && "b"@[0] != "0"@[0] && "b"@[0] != "1"@[0] && "b"@[0] != "Empty"@[0]);
    assert("a_be"@[0] != "C"@[0] && "a_be"@[0] != "0"@[0] && "a_be"@[0] != "1"@[0] && "a_be"@[0] != "Empty"@[0]);
    assert("b_be"@[0] != "C"@[0] && "b_be"@[0] != "0"@[0] && "b_be"@[0] != "1"@[0] && "b_be"@[0] != "Empty"@[0]);
}

/// A big-endian comparison applied to two numbers reduces to its body with them in place.
#[verifier::spinoff_prover]
#[verifier::rlimit(40)]
proof fn lemma_order_be_apply(d: Seq<(Seq<char>, Term)>, strict: bool, x: Seq<bool>, y: Seq<bool>)
    requires
        compare_s_defs(d, strict),
    ensures
        reduces(d, app2_t(rec_t(var_t(compare_be_name(strict))), bit_list_t(x), bit_list_t(y)),
            be_order_body_t(strict, bit_list_t(x), bit_list_t(y))),
{
    let be = compare_be_name(strict);
    let h = compare_be_def_t(strict);
    let f = var_t(be);
    let a = bit_list_t(x);
    let b = bit_list_t(y);
    lemma_order_names(strict);
    lemma_bit_list_avoids_order(x);
    lemma_bit_list_avoids_order(y);
    lemma_reduces_defined(d, be, abs_t(be, h));
    lemma_reduces_fun(d, f, abs_t(be, h), f);
    lemma_free_for_self(h, be);
    lemma_reduces_beta(d, be, h, f);
    lemma_subst_self(h, be);
    lemma_reduces_trans(d, rec_t(f), app_t(abs_t(be, h), f), h);
    let va = var_t("a"@);
    let vb = var_t("b"@);
    assert(h == abs_t("a"@, abs_t("b"@, be_order_body_t(strict, va, vb))));
    lemma_order_templates(strict, va, vb, "a"@, a);
    lemma_abs_layer("b"@, be_order_body_t(strict, va, vb), "a"@, a);
    lemma_reduces_beta(d, "a"@, abs_t("b"@, be_order_body_t(strict, va, vb)), a);
    lemma_order_templates(strict, a, vb, "b"@, b);
    lemma_subst_not_free(a, "b"@, b);
    lemma_free_for_not_free(b, "b"@, a);
    lemma_reduces_beta(d, "b"@, be_order_body_t(strict, a, vb), b);
    lemma_reduces_fun(d, rec_t(f), h, a);
    lemma_reduces_trans(d, app_t(rec_t(f), a), app_t(h, a), abs_t("b"@, be_order_body_t(strict, a, vb)));
    lemma_reduces_fun(d, app_t(rec_t(f), a), abs_t("b"@, be_order_body_t(strict, a, vb)), b);
    lemma_reduces_trans(d, app2_t(rec_t(f), a, b), app_t(abs_t("b"@, be_order_body_t(strict, a, vb)), b),
        be_order_body_t(strict, a, b));
}

/// The head and the tail of a reversed number: its highest bit, and the rest reversed.
proof fn lemma_rev_parts(x: Seq<bool>)
    requires
        x.len() > 0,
    ensures
        x.reverse() == seq![x.last()] + x.drop_last().reverse(),
        bit_list_t(x.reverse()) == list::node_t(bit_t(x.last()), bit_list_t(x.drop_last().reverse())),
{
    assert(x.reverse() =~= seq![x.last()] + x.drop_last().reverse());
    assert(x.reverse().drop_first() =~= x.drop_last().reverse());
}

/// The head and tail of a reversed number reduce to its highest bit and the rest reversed.
proof fn lemma_rev_head_tail(d: Seq<(Seq<char>, Term)>, x: Seq<bool>)
    requires
        defs_within(core_defs_t(), d),
        x.len() > 0,
    ensures
        reduces(d, list::head_t(bit_list_t(x.reverse())), bit_t(x.last())),
        reduces(d, list::tail_t(bit_list_t(x.reverse())), bit_list_t(x.drop_last().reverse())),
{
    lemma_rev_parts(x);
    lemma_bit_hygienic(x.last());
    lemma_bit_list_hygienic(x.drop_last().reverse());
    lemma_head(bit_t(x.last()), bit_list_t(x.drop_last().reverse()));
    lemma_core(d, list::head_t(bit_list_t(x.reverse())), bit_t(x.last()));
    lemma_tail(bit_t(x.last()), bit_list_t(x.drop_last().reverse()));
    lemma_core(d, list::tail_t(bit_list_t(x.reverse())), bit_list_t(x.drop_last().reverse()));
}

/// A big-endian comparison of two reversed numbers of the same width reduces to whether the
/// first is below (or, not strict, at most) the second.
#[verifier::spinoff_prover]
#[verifier::rlimit(80)]
proof fn lemma_order_be_run(d: Seq<(Seq<char>, Term)>, strict: bool, x: Seq<bool>, y: Seq<bool>)
    requires
        compare_s_defs(d, strict),
        x.len() == y.len(),
    ensures
        reduces(d, app2_t(rec_t(var_t(compare_be_name(strict))), bit_list_t(x.reverse()), bit_list_t(y.reverse())),
            bit_t(if strict { bits_value(x) < bits_value(y) } else { bits_value(x) <= bits_value(y) })),
    decreases x.len(),
{
    let a = bit_list_t(x.reverse());
    let b = bit_list_t(y.reverse());
    let f = rec_t(var_t(compare_be_name(strict)));
    let start = app2_t(f, a, b);
    lemma_order_be_apply(d, strict, x.reverse(), y.reverse());
    lemma_order_names(strict);
    lemma_bit_list_hygienic(x.reverse());
    lemma_bit_list_hygienic(y.reverse());
    lemma_names_hygienic();
    lemma_bit_hygienic(true);
    lemma_bit_hygienic(false);
    let tails = app2_t(f, list::tail_t(a), list::tail_t(b));
    let inner = select_t(
        list::head_t(a),
        select_t(list::head_t(b), tails, bit_t(true)),
        select_t(list::head_t(b), bit_t(false), tails),
    );
    let result = bit_t(if strict { bits_value(x) < bits_value(y) } else { bits_value(x) <= bits_value(y) });
    if x.len() == 0 {
        assert(x.reverse() =~= Seq::<bool>::empty());
        assert(y =~= Seq::<bool>::empty());
        assert(x =~= Seq::<bool>::empty());
        lemma_is_not_empty_empty();
        lemma_core(d, list::is_not_empty_t(list::empty_t()), bit_t(false));
        lemma_select(d, list::is_not_empty_t(a), false, bit_t(!strict), inner);
        lemma_reduces_trans(d, start, be_order_body_t(strict, a, b), bit_t(!strict));
    } else {
        let x1 = x.drop_last();
        let y1 = y.drop_last();
        let xl = x.last();
        let yl = y.last();
        lemma_rev_parts(x);
        lemma_rev_parts(y);
        lemma_bit_list_hygienic(x1.reverse());
        lemma_bit_hygienic(xl);
        lemma_is_not_empty_node(bit_t(xl), bit_list_t(x1.reverse()));
        lemma_core(d, list::is_not_empty_t(a), bit_t(true));
        lemma_select(d, list::is_not_empty_t(a), true, bit_t(!strict), inner);
        lemma_reduces_trans(d, start, be_order_body_t(strict, a, b), inner);
        lemma_rev_head_tail(d, x);
        lemma_rev_head_tail(d, y);
        // The comparison of the rest.
        lemma_args2(d, f, list::tail_t(a), bit_list_t(x1.reverse()), list::tail_t(b), bit_list_t(y1.reverse()));
        lemma_order_be_run(d, strict, x1, y1);
        let rest = bit_t(if strict { bits_value(x1) < bits_value(y1) } else { bits_value(x1) <= bits_value(y1) });
        lemma_reduces_trans(d, tails, app2_t(f, bit_list_t(x1.reverse()), bit_list_t(y1.reverse())), rest);
        // The first branch is hygienic.
        lemma_app_hygienic(a, Term::Var("1"@));
        lemma_app_hygienic(app_t(a, Term::Var("1"@)), Term::Var("1"@));
        lemma_app_hygienic(b, Term::Var("1"@));
        lemma_app_hygienic(app_t(b, Term::Var("1"@)), Term::Var("1"@));
        lemma_app_hygienic(app_t(b, Term::Var("1"@)), Term::Var("0"@));
        lemma_app_hygienic(var_t(compare_be_name(strict)), var_t(compare_be_name(strict)));
        lemma_app_hygienic(f, list::tail_t(a));
        lemma_app_hygienic(app_t(f, list::tail_t(a)), list::tail_t(b));
        lemma_app_hygienic(list::head_t(b), tails);
        lemma_app_hygienic(app_t(list::head_t(b), tails), bit_t(true));
        let br0 = select_t(list::head_t(b), tails, bit_t(true));
        let br1 = select_t(list::head_t(b), bit_t(false), tails);
        lemma_select(d, list::head_t(a), xl, br0, br1);
        lemma_reduces_trans(d, start, inner, if xl { br1 } else { br0 });
        lemma_value_last(x);
        lemma_value_last(y);
        let p = two_to((x.len() - 1) as nat);
        if xl {
            lemma_select(d, list::head_t(b), yl, bit_t(false), tails);
            if yl {
                lemma_reduces_trans(d, br1, tails, rest);
                lemma_reduces_trans(d, start, br1, rest);
            } else {
                lemma_reduces_trans(d, start, br1, bit_t(false));
            }
        } else {
            lemma_select(d, list::head_t(b), yl, tails, bit_t(true));
            if yl {
                lemma_reduces_trans(d, start, br0, bit_t(true));
            } else {
                lemma_reduces_trans(d, start, br0, tails);
                lemma_reduces_trans(d, start, tails, rest);
            }
        }
    }
}

proof fn lemma_rev_name_hygienic()
    ensures
        hygienic(var_t("Rev"@)),
        "Rev"@ != "a"@, "Rev"@ != "b"@,
{
    reveal_strlit("Rev");
    reveal_strlit("a");
    reveal_strlit("b");
    reveal_strlit("x0");
    reveal_strlit("x1");
    reveal_strlit("first");
    reveal_strlit("second");
    reveal_strlit("g");
    reveal_strlit("head");
    reveal_strlit("tail");
    reveal_strlit("tree");
    reveal_strlit("index");
    reveal_strlit("value");
    assert("Rev"@[0] != "x0"@[0] && "Rev"@[0] != "first"@[0] && "Rev"@[0] != "second"@[0]);
    assert("Rev"@[0] != "g"@[0] && "Rev"@[0] != "head"@[0] && "Rev"@[0] != "tail"@[0]);
    assert("Rev"@[0] != "tree"@[0] && "Rev"@[0] != "index"@[0] && "Rev"@[0] != "value"@[0]);
    assert("Rev"@.len() != "a"@.len() && "Rev"@.len() != "b"@.len());
}

/// A signed comparison applied to two numbers reduces to its body with the reversed numbers in
/// place.
#[verifier::spinoff_prover]
#[verifier::rlimit(60)]
proof fn lemma_order_s_apply(d: Seq<(Seq<char>, Term)>, strict: bool, x: Seq<bool>, y: Seq<bool>)
    requires
        compare_s_defs(d, strict),
    ensures
        reduces(d, app2_t(var_t(compare_s_name(strict)), bit_list_t(x), bit_list_t(y)),
            s_order_body_t(strict, app_t(var_t("Rev"@), bit_list_t(x)), app_t(var_t("Rev"@), bit_list_t(y)))),
{
    let a = bit_list_t(x);
    let b = bit_list_t(y);
    let rv = |t: Term| app_t(var_t("Rev"@), t);
    let va = var_t("a"@);
    let vb = var_t("b"@);
    let vab = var_t("a_be"@);
    let vbb = var_t("b_be"@);
    lemma_order_names(strict);
    lemma_rev_name_hygienic();
    lemma_bit_list_avoids_order(x);
    lemma_bit_list_avoids_order(y);
    let body = s_order_body_t(strict, vab, vbb);
    let l1 = let_t("b_be"@, rv(vb), body);
    let l0 = let_t("a_be"@, rv(va), l1);
    let h = compare_s_def_t(strict);
    assert(h == abs_t("a"@, abs_t("b"@, l0)));
    lemma_reduces_defined(d, compare_s_name(strict), h);
    lemma_reduces_fun(d, var_t(compare_s_name(strict)), h, a);
    lemma_reduces_fun(d, app_t(var_t(compare_s_name(strict)), a), app_t(h, a), b);
    // The first number.
    lemma_order_templates(strict, vab, vbb, "a"@, a);
    lemma_let_layer("b_be"@, rv(vb), body, "a"@, a);
    lemma_let_layer("a_be"@, rv(va), l1, "a"@, a);
    lemma_abs_layer("b"@, l0, "a"@, a);
    assert(subst(rv(va), "a"@, a) == rv(a) && free_for(a, "a"@, rv(va))) by {
        reveal_with_fuel(subst, 3);
        reveal_with_fuel(free_for, 3);
    }
    assert(subst(rv(vb), "a"@, a) == rv(vb) && free_for(a, "a"@, rv(vb))) by {
        reveal_with_fuel(subst, 3);
        reveal_with_fuel(free_for, 3);
    }
    let m1 = let_t("a_be"@, rv(a), l1);
    lemma_reduces_beta(d, "a"@, abs_t("b"@, l0), a);
    // The second number.
    lemma_order_templates(strict, vab, vbb, "b"@, b);
    lemma_let_layer("b_be"@, rv(vb), body, "b"@, b);
    lemma_let_layer("a_be"@, rv(a), l1, "b"@, b);
    lemma_subst_not_free(a, "b"@, b);
    lemma_free_for_not_free(b, "b"@, a);
    assert(subst(rv(a), "b"@, b) == rv(a) && free_for(b, "b"@, rv(a))) by {
        reveal_with_fuel(subst, 2);
        reveal_with_fuel(free_for, 2);
    }
    assert(subst(rv(vb), "b"@, b) == rv(b) && free_for(b, "b"@, rv(vb))) by {
        reveal_with_fuel(subst, 3);
        reveal_with_fuel(free_for, 3);
    }
    let l1b = let_t("b_be"@, rv(b), body);
    let m2 = let_t("a_be"@, rv(a), l1b);
    lemma_reduces_beta(d, "b"@, m1, b);
    // The reversed first number.
    assert(!free_names(rv(a)).contains("b_be"@) && !free_names(rv(a)).contains("a_be"@)) by {
        reveal_strlit("Rev");
        reveal_strlit("a_be");
        reveal_strlit("b_be");
        reveal_with_fuel(free_names, 2);
        assert("Rev"@.len() != "a_be"@.len() && "Rev"@.len() != "b_be"@.len());
        assert(free_names(app_t(var_t("Rev"@), a)) == free_names(var_t("Rev"@)) + free_names(a));
        assert(free_names(app_t(var_t("Rev"@), b)) == free_names(var_t("Rev"@)) + free_names(b));
    }
    assert(!free_names(rv(b)).contains("b_be"@) && !free_names(rv(b)).contains("a_be"@)) by {
        reveal_strlit("Rev");
        reveal_strlit("a_be");
        reveal_strlit("b_be");
        reveal_with_fuel(free_names, 2);
        assert("Rev"@.len() != "a_be"@.len() && "Rev"@.len() != "b_be"@.len());
        assert(free_names(app_t(var_t("Rev"@), a)) == free_names(var_t("Rev"@)) + free_names(a));
        assert(free_names(app_t(var_t("Rev"@), b)) == free_names(var_t("Rev"@)) + free_names(b));
    }
    lemma_order_templates(strict, vab, vbb, "a_be"@, rv(a));
    lemma_let_layer("b_be"@, rv(b), body, "a_be"@, rv(a));
    lemma_subst_not_free(rv(b), "a_be"@, rv(a));
    lemma_free_for_not_free(rv(a), "a_be"@, rv(b));
    let body2 = s_order_body_t(strict, rv(a), vbb);
    lemma_reduces_beta(d, "a_be"@, l1b, rv(a));
    // The reversed second number.
    lemma_order_templates(strict, rv(a), vbb, "b_be"@, rv(b));
    lemma_subst_not_free(rv(a), "b_be"@, rv(b));
    lemma_free_for_not_free(rv(b), "b_be"@, rv(a));
    lemma_reduces_beta(d, "b_be"@, body2, rv(b));
    let e0 = app2_t(var_t(compare_s_name(strict)), a, b);
    lemma_reduces_fun(d, app_t(h, a), abs_t("b"@, m1), b);
    lemma_reduces_trans(d, e0, app2_t(h, a, b), app_t(abs_t("b"@, m1), b));
    lemma_reduces_trans(d, e0, app_t(abs_t("b"@, m1), b), m2);
    lemma_reduces_trans(d, e0, m2, let_t("b_be"@, rv(b), body2));
    lemma_reduces_trans(d, e0, let_t("b_be"@, rv(b), body2), s_order_body_t(strict, rv(a), rv(b)));
}

/// A signed comparison of two numbers of the same width, lowest bit first, reduces to whether
/// the first is below (or, not strict, at most) the second as numbers of two's complement:
/// `_LTs` for `lt_s`, `_LEs` for `le_s`.
#[verifier::spinoff_prover]
#[verifier::rlimit(80)]
pub proof fn lemma_compare_signed(d: Seq<(Seq<char>, Term)>, strict: bool, x: Seq<bool>, y: Seq<bool>)
    requires
        compare_s_defs(d, strict),
        x.len() == y.len(),
        x.len() > 0,
    ensures
        reduces(
            d,
            app2_t(var_t(compare_s_name(strict)), bit_list_t(x), bit_list_t(y)),
            bit_t(if strict { signed_value(x) < signed_value(y) } else { signed_value(x) <= signed_value(y) }),
        ),
{
    let rx = app_t(var_t("Rev"@), bit_list_t(x));
    let ry = app_t(var_t("Rev"@), bit_list_t(y));
    let a = bit_list_t(x.reverse());
    let b = bit_list_t(y.reverse());
    let f = rec_t(var_t(compare_be_name(strict)));
    let start = app2_t(var_t(compare_s_name(strict)), bit_list_t(x), bit_list_t(y));
    lemma_order_s_apply(d, strict, x, y);
    lemma_order_names(strict);
    lemma_rev_name_hygienic();
    lemma_names_hygienic();
    lemma_bit_list_hygienic(x);
    lemma_bit_list_hygienic(y);
    lemma_bit_hygienic(true);
    lemma_bit_hygienic(false);
    // The reversed numbers.
    lemma_rev(x);
    lemma_rev(y);
    lemma_core(d, rx, a);
    lemma_core(d, ry, b);
    let x1 = x.drop_last();
    let y1 = y.drop_last();
    let xl = x.last();
    let yl = y.last();
    lemma_rev_head_tail(d, x);
    lemma_rev_head_tail(d, y);
    lemma_reduces_fun(d, rx, a, Term::Var("1"@));
    lemma_reduces_fun(d, app_t(rx, Term::Var("1"@)), app_t(a, Term::Var("1"@)), Term::Var("0"@));
    lemma_reduces_trans(d, list::head_t(rx), list::head_t(a), bit_t(xl));
    lemma_reduces_fun(d, ry, b, Term::Var("1"@));
    lemma_reduces_fun(d, app_t(ry, Term::Var("1"@)), app_t(b, Term::Var("1"@)), Term::Var("0"@));
    lemma_reduces_trans(d, list::head_t(ry), list::head_t(b), bit_t(yl));
    lemma_reduces_fun(d, app_t(rx, Term::Var("1"@)), app_t(a, Term::Var("1"@)), Term::Var("1"@));
    lemma_reduces_trans(d, list::tail_t(rx), list::tail_t(a), bit_list_t(x1.reverse()));
    lemma_reduces_fun(d, app_t(ry, Term::Var("1"@)), app_t(b, Term::Var("1"@)), Term::Var("1"@));
    lemma_reduces_trans(d, list::tail_t(ry), list::tail_t(b), bit_list_t(y1.reverse()));
    // The comparison of the rest.
    let tails = app2_t(f, list::tail_t(rx), list::tail_t(ry));
    lemma_args2(d, f, list::tail_t(rx), bit_list_t(x1.reverse()), list::tail_t(ry), bit_list_t(y1.reverse()));
    lemma_order_be_run(d, strict, x1, y1);
    let rest = bit_t(if strict { bits_value(x1) < bits_value(y1) } else { bits_value(x1) <= bits_value(y1) });
    lemma_reduces_trans(d, tails, app2_t(f, bit_list_t(x1.reverse()), bit_list_t(y1.reverse())), rest);
    // The first branch is hygienic.
    lemma_app_hygienic(var_t("Rev"@), bit_list_t(x));
    lemma_app_hygienic(var_t("Rev"@), bit_list_t(y));
    lemma_app_hygienic(rx, Term::Var("1"@));
    lemma_app_hygienic(app_t(rx, Term::Var("1"@)), Term::Var("1"@));
    lemma_app_hygienic(ry, Term::Var("1"@));
    lemma_app_hygienic(app_t(ry, Term::Var("1"@)), Term::Var("1"@));
    lemma_app_hygienic(app_t(ry, Term::Var("1"@)), Term::Var("0"@));
    lemma_app_hygienic(var_t(compare_be_name(strict)), var_t(compare_be_name(strict)));
    lemma_app_hygienic(f, list::tail_t(rx));
    lemma_app_hygienic(app_t(f, list::tail_t(rx)), list::tail_t(ry));
    lemma_app_hygienic(list::head_t(ry), tails);
    lemma_app_hygienic(app_t(list::head_t(ry), tails), bit_t(false));
    let br0 = select_t(list::head_t(ry), tails, bit_t(false));
    let br1 = select_t(list::head_t(ry), bit_t(true), tails);
    lemma_select(d, list::head_t(rx), xl, br0, br1);
    lemma_reduces_trans(d, start, s_order_body_t(strict, rx, ry), if xl { br1 } else { br0 });
    lemma_value_last(x);
    lemma_value_last(y);
    let p = two_to((x.len() - 1) as nat);
    assert(two_to(x.len()) == 2 * p);
    if xl {
        lemma_select(d, list::head_t(ry), yl, bit_t(true), tails);
        if yl {
            lemma_reduces_trans(d, br1, tails, rest);
            lemma_reduces_trans(d, start, br1, rest);
        } else {
            lemma_reduces_trans(d, start, br1, bit_t(true));
        }
    } else {
        lemma_select(d, list::head_t(ry), yl, tails, bit_t(false));
        if yl {
            lemma_reduces_trans(d, start, br0, bit_t(false));
        } else {
            lemma_reduces_trans(d, br0, tails, rest);
            lemma_reduces_trans(d, start, br0, rest);
        }
    }
}

/// The body of `_EQZ` with its number in place.
pub open spec fn eqz_body_t(a: Term) -> Term {
    select_t(
        list::is_not_empty_t(a),
        bit_t(true),
        select_t(list::head_t(a), app_t(rec_t(var_t("_EQZ"@)), list::tail_t(a)), bit_t(false)),
    )
}

/// Definitions that hold the core definitions and those of `EQZ`.
pub open spec fn eqz_defs(d: Seq<(Seq<char>, Term)>) -> bool {
    &&& defs_within(core_defs_t(), d)
    &&& d.contains(("_EQZ"@, abs_t("_EQZ"@, eqz_helper_t())))
    &&& d.contains(("EQZ"@, rec_t(var_t("_EQZ"@))))
}

#[verifier::spinoff_prover]
#[verifier::rlimit(40)]
proof fn lemma_eqz_template(x: Term, n: Seq<char>, v: Term)
    requires
        n != "0"@, n != "1"@, n != "C"@, n != "Empty"@, n != "_EQZ"@,
    ensures
        subst(eqz_body_t(x), n, v) == eqz_body_t(subst(x, n, v)),
        free_for(v, n, eqz_body_t(x)) == free_for(v, n, x),
{
    reveal_with_fuel(subst, 10);
    reveal_with_fuel(free_for, 10);
}

/// `_EQZ` applied to a number reduces to its body with the number in place.
#[verifier::spinoff_prover]
#[verifier::rlimit(40)]
proof fn lemma_eqz_apply(d: Seq<(Seq<char>, Term)>, a: Term)
    requires
        eqz_defs(d),
    ensures
        reduces(d, app_t(rec_t(var_t("_EQZ"@)), a), eqz_body_t(a)),
{
    let h = eqz_helper_t();
    let f = var_t("_EQZ"@);
    lemma_reduces_defined(d, "_EQZ"@, abs_t("_EQZ"@, h));
    lemma_reduces_fun(d, f, abs_t("_EQZ"@, h), f);
    lemma_free_for_self(h, "_EQZ"@);
    lemma_reduces_beta(d, "_EQZ"@, h, f);
    lemma_subst_self(h, "_EQZ"@);
    lemma_reduces_trans(d, rec_t(f), app_t(abs_t("_EQZ"@, h), f), h);
    lemma_reduces_fun(d, rec_t(f), h, a);
    lemma_add_names();
    reveal_strlit("a");
    reveal_strlit("_EQZ");
    assert("a"@.len() != "_EQZ"@.len());
    assert(h == abs_t("a"@, eqz_body_t(var_t("a"@))));
    lemma_eqz_template(var_t("a"@), "a"@, a);
    lemma_reduces_beta(d, "a"@, eqz_body_t(var_t("a"@)), a);
    lemma_reduces_trans(d, app_t(rec_t(f), a), app_t(h, a), eqz_body_t(a));
}

/// `_EQZ` applied to a number reduces to whether its value is zero.
#[verifier::spinoff_prover]
#[verifier::rlimit(60)]
proof fn lemma_eqz_run(d: Seq<(Seq<char>, Term)>, a: Seq<bool>)
    requires
        eqz_defs(d),
    ensures
        reduces(d, app_t(rec_t(var_t("_EQZ"@)), bit_list_t(a)), bit_t(bits_value(a) == 0)),
    decreases a.len(),
{
    let at = bit_list_t(a);
    let f = rec_t(var_t("_EQZ"@));
    let start = app_t(f, at);
    lemma_eqz_apply(d, at);
    lemma_bit_list_hygienic(a);
    lemma_names_hygienic();
    lemma_bit_hygienic(true);
    lemma_bit_hygienic(false);
    let rec_tail = app_t(f, list::tail_t(at));
    let inner = select_t(list::head_t(at), rec_tail, bit_t(false));
    if a.len() == 0 {
        lemma_is_not_empty_empty();
        lemma_core(d, list::is_not_empty_t(list::empty_t()), bit_t(false));
        lemma_select(d, list::is_not_empty_t(at), false, bit_t(true), inner);
        lemma_reduces_trans(d, start, eqz_body_t(at), bit_t(true));
    } else {
        let a0 = a[0];
        let rest = a.drop_first();
        let rt = bit_list_t(rest);
        lemma_bit_hygienic(a0);
        lemma_bit_list_hygienic(rest);
        assert(at == list::node_t(bit_t(a0), rt));
        lemma_is_not_empty_node(bit_t(a0), rt);
        lemma_core(d, list::is_not_empty_t(at), bit_t(true));
        lemma_select(d, list::is_not_empty_t(at), true, bit_t(true), inner);
        lemma_head(bit_t(a0), rt);
        lemma_core(d, list::head_t(at), bit_t(a0));
        // The recursive call is hygienic: it takes the place of a first branch.
        lemma_eqz_name_hygienic();
        lemma_app_hygienic(var_t("_EQZ"@), var_t("_EQZ"@));
        lemma_app_hygienic(at, Term::Var("1"@));
        lemma_app_hygienic(app_t(at, Term::Var("1"@)), Term::Var("1"@));
        lemma_app_hygienic(f, list::tail_t(at));
        lemma_select(d, list::head_t(at), a0, rec_tail, bit_t(false));
        lemma_reduces_trans(d, start, eqz_body_t(at), inner);
        if a0 {
            lemma_reduces_trans(d, start, inner, bit_t(false));
        } else {
            lemma_tail(bit_t(a0), rt);
            lemma_core(d, list::tail_t(at), rt);
            lemma_reduces_arg(d, f, list::tail_t(at), rt);
            lemma_eqz_run(d, rest);
            lemma_reduces_trans(d, rec_tail, app_t(f, rt), bit_t(bits_value(rest) == 0));
            lemma_reduces_trans(d, start, inner, rec_tail);
            lemma_reduces_trans(d, start, rec_tail, bit_t(bits_value(a) == 0));
        }
    }
}

proof fn lemma_eqz_name_hygienic()
    ensures
        hygienic(var_t("_EQZ"@)),
        hygienic(var_t("EQZ"@)),
{
    reveal_strlit("_EQZ");
    reveal_strlit("EQZ");
    reveal_strlit("x0");
    reveal_strlit("x1");
    reveal_strlit("first");
    reveal_strlit("second");
    reveal_strlit("g");
    reveal_strlit("head");
    reveal_strlit("tail");
    reveal_strlit("tree");
    reveal_strlit("index");
    reveal_strlit("value");
    assert("_EQZ"@[0] != "x0"@[0] && "_EQZ"@[0] != "first"@[0] && "_EQZ"@[0] != "second"@[0]);
    assert("_EQZ"@[0] != "g"@[0] && "_EQZ"@[0] != "head"@[0] && "_EQZ"@[0] != "tail"@[0]);
    assert("_EQZ"@[0] != "tree"@[0] && "_EQZ"@[0] != "index"@[0] && "_EQZ"@[0] != "value"@[0]);
    assert("EQZ"@[0] != "x0"@[0] && "EQZ"@[0] != "first"@[0] && "EQZ"@[0] != "second"@[0]);
    assert("EQZ"@[0] != "g"@[0] && "EQZ"@[0] != "head"@[0] && "EQZ"@[0] != "tail"@[0]);
    assert("EQZ"@[0] != "tree"@[0] && "EQZ"@[0] != "index"@[0] && "EQZ"@[0] != "value"@[0]);
}

/// `EQZ` applied to a number, lowest bit first, reduces to the bit of whether its value is zero.
pub proof fn lemma_eqz_tests_zero(d: Seq<(Seq<char>, Term)>, a: Seq<bool>)
    requires
        eqz_defs(d),
    ensures
        reduces(d, app_t(var_t("EQZ"@), bit_list_t(a)), bit_t(bits_value(a) == 0)),
{
    let f = rec_t(var_t("_EQZ"@));
    lemma_reduces_defined(d, "EQZ"@, f);
    lemma_reduces_fun(d, var_t("EQZ"@), f, bit_list_t(a));
    lemma_eqz_run(d, a);
    lemma_reduces_trans(d, app_t(var_t("EQZ"@), bit_list_t(a)), app_t(f, bit_list_t(a)), bit_t(bits_value(a) == 0));
}

/// The body of `_EQ` with its numbers in place.
pub open spec fn eq_body_t(a: Term, b: Term) -> Term {
    select_t(
        list::is_not_empty_t(a),
        bit_t(true),
        select_t(
            bit_equal_t(list::head_t(a), list::head_t(b)),
            bit_t(false),
            app2_t(rec_t(var_t("_EQ"@)), list::tail_t(a), list::tail_t(b)),
        ),
    )
}

/// Definitions that hold the core definitions and those of `EQ`.
pub open spec fn eq_defs(d: Seq<(Seq<char>, Term)>) -> bool {
    &&& defs_within(core_defs_t(), d)
    &&& d.contains(("_EQ"@, abs_t("_EQ"@, eq_helper_t())))
    &&& d.contains(("EQ"@, rec_t(var_t("_EQ"@))))
}

#[verifier::spinoff_prover]
#[verifier::rlimit(60)]
proof fn lemma_eq_template(a: Term, b: Term, n: Seq<char>, v: Term)
    requires
        n != "0"@, n != "1"@, n != "C"@, n != "Empty"@, n != "_EQ"@,
    ensures
        subst(eq_body_t(a, b), n, v) == eq_body_t(subst(a, n, v), subst(b, n, v)),
        free_for(v, n, eq_body_t(a, b)) == (free_for(v, n, a) && free_for(v, n, b)),
{
    reveal_with_fuel(subst, 10);
    reveal_with_fuel(free_for, 10);
}

/// `_EQ` applied to two numbers reduces to its body with them in place.
#[verifier::spinoff_prover]
#[verifier::rlimit(40)]
proof fn lemma_eq_apply(d: Seq<(Seq<char>, Term)>, a: Term, b: Term)
    requires
        eq_defs(d),
        avoids_add_names(a),
        avoids_add_names(b),
    ensures
        reduces(d, app2_t(rec_t(var_t("_EQ"@)), a, b), eq_body_t(a, b)),
{
    let h = eq_helper_t();
    let f = var_t("_EQ"@);
    lemma_add_names();
    reveal_strlit("a");
    reveal_strlit("b");
    reveal_strlit("_EQ");
    assert("a"@.len() != "_EQ"@.len() && "b"@.len() != "_EQ"@.len());
    lemma_reduces_defined(d, "_EQ"@, abs_t("_EQ"@, h));
    lemma_reduces_fun(d, f, abs_t("_EQ"@, h), f);
    lemma_free_for_self(h, "_EQ"@);
    lemma_reduces_beta(d, "_EQ"@, h, f);
    lemma_subst_self(h, "_EQ"@);
    lemma_reduces_trans(d, rec_t(f), app_t(abs_t("_EQ"@, h), f), h);
    let va = var_t("a"@);
    let vb = var_t("b"@);
    assert(h == abs_t("a"@, abs_t("b"@, eq_body_t(va, vb))));
    lemma_eq_template(va, vb, "a"@, a);
    lemma_abs_layer("b"@, eq_body_t(va, vb), "a"@, a);
    lemma_reduces_beta(d, "a"@, abs_t("b"@, eq_body_t(va, vb)), a);
    lemma_eq_template(a, vb, "b"@, b);
    lemma_subst_not_free(a, "b"@, b);
    lemma_free_for_not_free(b, "b"@, a);
    lemma_reduces_beta(d, "b"@, eq_body_t(a, vb), b);
    lemma_reduces_fun(d, rec_t(f), h, a);
    lemma_reduces_trans(d, app_t(rec_t(f), a), app_t(h, a), abs_t("b"@, eq_body_t(a, vb)));
    lemma_reduces_fun(d, app_t(rec_t(f), a), abs_t("b"@, eq_body_t(a, vb)), b);
    lemma_reduces_trans(d, app2_t(rec_t(f), a, b), app_t(abs_t("b"@, eq_body_t(a, vb)), b), eq_body_t(a, b));
}

/// Bit equality of two terms that reduce to bits.
proof fn lemma_bit_equal(d: Seq<(Seq<char>, Term)>, t1: Term, t2: Term, p: bool, q: bool)
    requires
        defs_within(core_defs_t(), d),
        reduces(d, t1, bit_t(p)),
        reduces(d, t2, bit_t(q)),
        hygienic(t2),
    ensures
        reduces(d, bit_equal_t(t1, t2), bit_t(p == q)),
{
    lemma_bit_hygienic(true);
    lemma_bit_hygienic(false);
    lemma_select_hygienic(t2, bit_t(true), bit_t(false));
    lemma_select(d, t1, p, bit_not_t(t2), t2);
    if p {
        lemma_reduces_trans(d, bit_equal_t(t1, t2), t2, bit_t(p == q));
    } else {
        lemma_not(d, t2, q);
        lemma_reduces_trans(d, bit_equal_t(t1, t2), bit_not_t(t2), bit_t(p == q));
    }
}

/// `_EQ` applied to two numbers of the same width reduces to whether they are equal.
#[verifier::spinoff_prover]
#[verifier::rlimit(80)]
proof fn lemma_eq_run(d: Seq<(Seq<char>, Term)>, x: Seq<bool>, y: Seq<bool>)
    requires
        eq_defs(d),
        x.len() == y.len(),
    ensures
        reduces(d, app2_t(rec_t(var_t("_EQ"@)), bit_list_t(x), bit_list_t(y)), bit_t(x == y)),
    decreases x.len(),
{
    let at = bit_list_t(x);
    let bt = bit_list_t(y);
    let f = rec_t(var_t("_EQ"@));
    let start = app2_t(f, at, bt);
    lemma_bit_list_avoids(x);
    lemma_bit_list_avoids(y);
    lemma_eq_apply(d, at, bt);
    lemma_bit_list_hygienic(x);
    lemma_bit_list_hygienic(y);
    lemma_names_hygienic();
    lemma_bit_hygienic(true);
    lemma_bit_hygienic(false);
    let tails = app2_t(f, list::tail_t(at), list::tail_t(bt));
    let inner = select_t(bit_equal_t(list::head_t(at), list::head_t(bt)), bit_t(false), tails);
    if x.len() == 0 {
        assert(x =~= y);
        lemma_is_not_empty_empty();
        lemma_core(d, list::is_not_empty_t(list::empty_t()), bit_t(false));
        lemma_select(d, list::is_not_empty_t(at), false, bit_t(true), inner);
        lemma_reduces_trans(d, start, eq_body_t(at, bt), bit_t(true));
    } else {
        let x0 = x[0];
        let y0 = y[0];
        let x1 = x.drop_first();
        let y1 = y.drop_first();
        lemma_bit_hygienic(x0);
        lemma_bit_hygienic(y0);
        lemma_bit_list_hygienic(x1);
        lemma_bit_list_hygienic(y1);
        assert(at == list::node_t(bit_t(x0), bit_list_t(x1)));
        assert(bt == list::node_t(bit_t(y0), bit_list_t(y1)));
        lemma_is_not_empty_node(bit_t(x0), bit_list_t(x1));
        lemma_core(d, list::is_not_empty_t(at), bit_t(true));
        lemma_select(d, list::is_not_empty_t(at), true, bit_t(true), inner);
        lemma_reduces_trans(d, start, eq_body_t(at, bt), inner);
        lemma_head(bit_t(x0), bit_list_t(x1));
        lemma_core(d, list::head_t(at), bit_t(x0));
        lemma_head(bit_t(y0), bit_list_t(y1));
        lemma_core(d, list::head_t(bt), bit_t(y0));
        lemma_add_parts_hygienic(bit_t(true), at, bt);
        lemma_bit_equal(d, list::head_t(at), list::head_t(bt), x0, y0);
        lemma_select(d, bit_equal_t(list::head_t(at), list::head_t(bt)), x0 == y0, bit_t(false), tails);
        lemma_reduces_trans(d, start, inner, if x0 == y0 { tails } else { bit_t(false) });
        if x0 == y0 {
            lemma_tail(bit_t(x0), bit_list_t(x1));
            lemma_core(d, list::tail_t(at), bit_list_t(x1));
            lemma_tail(bit_t(y0), bit_list_t(y1));
            lemma_core(d, list::tail_t(bt), bit_list_t(y1));
            lemma_args2(d, f, list::tail_t(at), bit_list_t(x1), list::tail_t(bt), bit_list_t(y1));
            lemma_eq_run(d, x1, y1);
            assert((x == y) == (x1 == y1)) by {
                if x1 == y1 {
                    assert forall|i: int| 0 <= i < x.len() implies x[i] == y[i] by {
                        if i > 0 {
                            assert(x[i] == x1[i - 1] && y[i] == y1[i - 1]);
                        }
                    }
                    assert(x =~= y);
                }
                if x == y {
                    assert(x1 =~= y1);
                }
            }
            lemma_reduces_trans(d, tails, app2_t(f, bit_list_t(x1), bit_list_t(y1)), bit_t(x == y));
            lemma_reduces_trans(d, start, tails, bit_t(x == y));
        } else {
            assert(x[0] != y[0]);
        }
    }
}

/// `EQ` applied to two numbers of the same width, lowest bit first, reduces to the bit of
/// whether they are equal.
pub proof fn lemma_eq_tests_equality(d: Seq<(Seq<char>, Term)>, x: Seq<bool>, y: Seq<bool>)
    requires
        eq_defs(d),
        x.len() == y.len(),
    ensures
        reduces(d, app2_t(var_t("EQ"@), bit_list_t(x), bit_list_t(y)), bit_t(x == y)),
{
    let f = rec_t(var_t("_EQ"@));
    lemma_reduces_defined(d, "EQ"@, f);
    lemma_reduces_fun(d, var_t("EQ"@), f, bit_list_t(x));
    lemma_reduces_fun(d, app_t(var_t("EQ"@), bit_list_t(x)), app_t(f, bit_list_t(x)), bit_list_t(y));
    lemma_eq_run(d, x, y);
    lemma_reduces_trans(d, app2_t(var_t("EQ"@), bit_list_t(x), bit_list_t(y)), app2_t(f, bit_list_t(x), bit_list_t(y)), bit_t(x == y));
}

/// The result of a signed division once its parts are known: nothing on a range error, else
/// the unsigned quotient, negated where the signs differ.
pub open spec fn ds_body_t(re: Term, an: Term, bn: Term, res: Term) -> Term {
    select_t(
        re,
        select_t(
            bit_xor_t(an, bn),
            res,
            select_t(optional::is_some_t(res), optional::none_t(), optional::some_t(negate_t(optional::unwrap_t(res)))),
        ),
        optional::none_t(),
    )
}

/// The signed division from its quotient on: `let res = DIV a b in ...`.
pub open spec fn ds5_t(dv: Term, re: Term, an: Term, bn: Term, a: Term, b: Term) -> Term {
    let_t("res"@, app2_t(dv, a, b), ds_body_t(re, an, bn, var_t("res"@)))
}

/// The signed division from the magnitude of `b` on.
pub open spec fn ds4_t(dv: Term, re: Term, an: Term, bn: Term, a: Term, b: Term) -> Term {
    let_t("b"@, select_t(bn, b, negate_t(b)), ds5_t(dv, re, an, bn, a, var_t("b"@)))
}

/// The signed division from the magnitude of `a` on.
pub open spec fn ds3_t(dv: Term, re: Term, an: Term, bn: Term, a: Term, b: Term) -> Term {
    let_t("a"@, select_t(an, a, negate_t(a)), ds4_t(dv, re, an, bn, var_t("a"@), b))
}

/// The signed division from the sign of `b` on.
pub open spec fn ds2_t(dv: Term, re: Term, an: Term, a: Term, b: Term) -> Term {
    let_t("b_neg"@, list::head_t(app_t(var_t("Rev"@), b)), ds3_t(dv, re, an, var_t("b_neg"@), a, b))
}

/// The signed division from the sign of `a` on.
pub open spec fn ds1_t(dv: Term, re: Term, a: Term, b: Term) -> Term {
    let_t("a_neg"@, list::head_t(app_t(var_t("Rev"@), a)), ds2_t(dv, re, var_t("a_neg"@), a, b))
}

/// The range error of a signed division: the smallest number divided by minus one.
pub open spec fn range_error_t(mn: Term, m1: Term, a: Term, b: Term) -> Term {
    bit_and_t(app2_t(var_t("EQ"@), a, mn), app2_t(var_t("EQ"@), b, m1))
}

/// The body of the signed division.
pub open spec fn ds0_t(dv: Term, mn: Term, m1: Term, a: Term, b: Term) -> Term {
    let_t("range_error"@, range_error_t(mn, m1, a, b), ds1_t(dv, var_t("range_error"@), a, b))
}

/// A name that the signed division refers to by itself.
pub open spec fn ds_fixed(n: Seq<char>) -> bool {
    n == "0"@ || n == "1"@ || n == "P"@ || n == "_"@ || n == "INC"@ || n == "INV"@ || n == "EQ"@ || n == "Rev"@
}

/// The variables of the signed division.
pub open spec fn ds_binder(n: Seq<char>) -> bool {
    n == "range_error"@ || n == "a_neg"@ || n == "b_neg"@ || n == "a"@ || n == "b"@ || n == "res"@
}

/// A term in which no variable of the signed division is free.
pub open spec fn ds_avoids(t: Term) -> bool {
    forall|n: Seq<char>| ds_binder(n) ==> !free_names(t).contains(n)
}

proof fn lemma_ds_names()
    ensures
        forall|n: Seq<char>| ds_binder(n) ==> !ds_fixed(n),
        "range_error"@ != "a_neg"@, "range_error"@ != "b_neg"@, "range_error"@ != "a"@, "range_error"@ != "b"@, "range_error"@ != "res"@,
        "a_neg"@ != "b_neg"@, "a_neg"@ != "a"@, "a_neg"@ != "b"@, "a_neg"@ != "res"@,
        "b_neg"@ != "a"@, "b_neg"@ != "b"@, "b_neg"@ != "res"@,
        "a"@ != "b"@, "a"@ != "res"@, "b"@ != "res"@,
{
    reveal_strlit("range_error");
    reveal_strlit("a_neg");
    reveal_strlit("b_neg");
    reveal_strlit("a");
    reveal_strlit("b");
    reveal_strlit("res");
    reveal_strlit("0");
    reveal_strlit("1");
    reveal_strlit("P");
    reveal_strlit("_");
    reveal_strlit("INC");
    reveal_strlit("INV");
    reveal_strlit("EQ");
    reveal_strlit("Rev");
    assert forall|n: Seq<char>| ds_binder(n) implies !ds_fixed(n) by {
        assert(n[0] == 'r' || n[0] == 'a' || n[0] == 'b');
    }
    assert("a_neg"@[0] != "b_neg"@[0] && "a_neg"@.len() != "a"@.len() && "b_neg"@.len() != "b"@.len());
    assert("range_error"@[0] != "a"@[0] && "range_error"@.len() != "res"@.len());
}

/// Substitution goes into the parts of the last part of the signed division, which binds
/// nothing.
#[verifier::spinoff_prover]
#[verifier::rlimit(60)]
proof fn lemma_ds_body_subst(re: Term, an: Term, bn: Term, res: Term, n: Seq<char>, v: Term)
    requires
        !ds_fixed(n),
    ensures
        subst(ds_body_t(re, an, bn, res), n, v) == ds_body_t(subst(re, n, v), subst(an, n, v), subst(bn, n, v), subst(res, n, v)),
        free_for(v, n, ds_body_t(re, an, bn, res))
            == (free_for(v, n, re) && free_for(v, n, an) && free_for(v, n, bn) && free_for(v, n, res)),
{
    reveal_with_fuel(subst, 14);
    reveal_with_fuel(free_for, 14);
}

#[verifier::spinoff_prover]
#[verifier::rlimit(40)]
proof fn lemma_small_subst(dv: Term, mn: Term, m1: Term, a: Term, b: Term, n: Seq<char>, v: Term)
    requires
        !ds_fixed(n),
    ensures
        subst(app2_t(dv, a, b), n, v) == app2_t(subst(dv, n, v), subst(a, n, v), subst(b, n, v)),
        free_for(v, n, app2_t(dv, a, b)) == (free_for(v, n, dv) && free_for(v, n, a) && free_for(v, n, b)),
        subst(select_t(dv, a, negate_t(a)), n, v) == select_t(subst(dv, n, v), subst(a, n, v), negate_t(subst(a, n, v))),
        free_for(v, n, select_t(dv, a, negate_t(a))) == (free_for(v, n, dv) && free_for(v, n, a)),
        subst(list::head_t(app_t(var_t("Rev"@), a)), n, v) == list::head_t(app_t(var_t("Rev"@), subst(a, n, v))),
        free_for(v, n, list::head_t(app_t(var_t("Rev"@), a))) == free_for(v, n, a),
        subst(range_error_t(mn, m1, a, b), n, v) == range_error_t(subst(mn, n, v), subst(m1, n, v), subst(a, n, v), subst(b, n, v)),
        free_for(v, n, range_error_t(mn, m1, a, b))
            == (free_for(v, n, mn) && free_for(v, n, m1) && free_for(v, n, a) && free_for(v, n, b)),
{
    reveal_with_fuel(subst, 8);
    reveal_with_fuel(free_for, 8);
}

/// Substitution of a name that no later variable of the signed division shadows goes into
/// its parts, level by level.
proof fn lemma_ds5_subst(dv: Term, re: Term, an: Term, bn: Term, a: Term, b: Term, n: Seq<char>, v: Term)
    requires
        !ds_fixed(n),
        n != "res"@,
        !free_names(v).contains("res"@),
    ensures
        subst(ds5_t(dv, re, an, bn, a, b), n, v) == ds5_t(subst(dv, n, v), subst(re, n, v), subst(an, n, v), subst(bn, n, v), subst(a, n, v), subst(b, n, v)),
        free_for(v, n, ds5_t(dv, re, an, bn, a, b)) == (free_for(v, n, dv) && free_for(v, n, re) && free_for(v, n, an)
            && free_for(v, n, bn) && free_for(v, n, a) && free_for(v, n, b)),
{
    let vres = var_t("res"@);
    assert(subst(vres, n, v) == vres);
    lemma_ds_body_subst(re, an, bn, vres, n, v);
    lemma_small_subst(dv, dv, dv, a, b, n, v);
    lemma_let_layer("res"@, app2_t(dv, a, b), ds_body_t(re, an, bn, vres), n, v);
}

proof fn lemma_ds4_subst(dv: Term, re: Term, an: Term, bn: Term, a: Term, b: Term, n: Seq<char>, v: Term)
    requires
        !ds_fixed(n),
        n != "res"@, n != "b"@,
        !free_names(v).contains("res"@), !free_names(v).contains("b"@),
    ensures
        subst(ds4_t(dv, re, an, bn, a, b), n, v) == ds4_t(subst(dv, n, v), subst(re, n, v), subst(an, n, v), subst(bn, n, v), subst(a, n, v), subst(b, n, v)),
        free_for(v, n, ds4_t(dv, re, an, bn, a, b)) == (free_for(v, n, dv) && free_for(v, n, re) && free_for(v, n, an)
            && free_for(v, n, bn) && free_for(v, n, a) && free_for(v, n, b)),
{
    let vb = var_t("b"@);
    assert(subst(vb, n, v) == vb);
    lemma_ds5_subst(dv, re, an, bn, a, vb, n, v);
    lemma_small_subst(bn, dv, dv, b, b, n, v);
    lemma_let_layer("b"@, select_t(bn, b, negate_t(b)), ds5_t(dv, re, an, bn, a, vb), n, v);
}

proof fn lemma_ds3_subst(dv: Term, re: Term, an: Term, bn: Term, a: Term, b: Term, n: Seq<char>, v: Term)
    requires
        !ds_fixed(n),
        n != "res"@, n != "b"@, n != "a"@,
        !free_names(v).contains("res"@), !free_names(v).contains("b"@), !free_names(v).contains("a"@),
    ensures
        subst(ds3_t(dv, re, an, bn, a, b), n, v) == ds3_t(subst(dv, n, v), subst(re, n, v), subst(an, n, v), subst(bn, n, v), subst(a, n, v), subst(b, n, v)),
        free_for(v, n, ds3_t(dv, re, an, bn, a, b)) == (free_for(v, n, dv) && free_for(v, n, re) && free_for(v, n, an)
            && free_for(v, n, bn) && free_for(v, n, a) && free_for(v, n, b)),
{
    let va = var_t("a"@);
    assert(subst(va, n, v) == va);
    lemma_ds4_subst(dv, re, an, bn, va, b, n, v);
    lemma_small_subst(an, dv, dv, a, b, n, v);
    lemma_let_layer("a"@, select_t(an, a, negate_t(a)), ds4_t(dv, re, an, bn, va, b), n, v);
}

proof fn lemma_ds2_subst(dv: Term, re: Term, an: Term, a: Term, b: Term, n: Seq<char>, v: Term)
    requires
        !ds_fixed(n),
        n != "res"@, n != "b"@, n != "a"@, n != "b_neg"@,
        !free_names(v).contains("res"@), !free_names(v).contains("b"@), !free_names(v).contains("a"@),
        !free_names(v).contains("b_neg"@),
    ensures
        subst(ds2_t(dv, re, an, a, b), n, v) == ds2_t(subst(dv, n, v), subst(re, n, v), subst(an, n, v), subst(a, n, v), subst(b, n, v)),
        free_for(v, n, ds2_t(dv, re, an, a, b)) == (free_for(v, n, dv) && free_for(v, n, re) && free_for(v, n, an)
            && free_for(v, n, a) && free_for(v, n, b)),
{
    let vbn = var_t("b_neg"@);
    assert(subst(vbn, n, v) == vbn);
    lemma_ds3_subst(dv, re, an, vbn, a, b, n, v);
    lemma_small_subst(dv, dv, dv, b, b, n, v);
    lemma_let_layer("b_neg"@, list::head_t(app_t(var_t("Rev"@), b)), ds3_t(dv, re, an, vbn, a, b), n, v);
}

proof fn lemma_ds1_subst(dv: Term, re: Term, a: Term, b: Term, n: Seq<char>, v: Term)
    requires
        !ds_fixed(n),
        n != "res"@, n != "b"@, n != "a"@, n != "b_neg"@, n != "a_neg"@,
        !free_names(v).contains("res"@), !free_names(v).contains("b"@), !free_names(v).contains("a"@),
        !free_names(v).contains("b_neg"@), !free_names(v).contains("a_neg"@),
    ensures
        subst(ds1_t(dv, re, a, b), n, v) == ds1_t(subst(dv, n, v), subst(re, n, v), subst(a, n, v), subst(b, n, v)),
        free_for(v, n, ds1_t(dv, re, a, b)) == (free_for(v, n, dv) && free_for(v, n, re) && free_for(v, n, a) && free_for(v, n, b)),
{
    let van = var_t("a_neg"@);
    assert(subst(van, n, v) == van);
    lemma_ds2_subst(dv, re, van, a, b, n, v);
    lemma_small_subst(dv, dv, dv, a, a, n, v);
    lemma_let_layer("a_neg"@, list::head_t(app_t(var_t("Rev"@), a)), ds2_t(dv, re, van, a, b), n, v);
}

/// The magnitude of a number of two's complement: the number itself where it is not negative,
/// else minus it, as many bits wide.
pub open spec fn magnitude(x: Seq<bool>) -> Seq<bool> {
    if x.len() > 0 && x.last() {
        low_bits(x.len(), (two_to(x.len()) - bits_value(x)) as nat)
    } else {
        x
    }
}

/// The signed division's definition applied to two numbers.
pub open spec fn div_s_defs(d: Seq<(Seq<char>, Term)>, bits: u8) -> bool {
    &&& eq_defs(d)
    &&& d.contains((div_s_name(bits), div_s_def_t(bits)))
}

/// The smallest number of the width has its highest bit set.
proof fn lemma_min_last(n: nat)
    requires
        n > 0,
    ensures
        low_bits(n, two_to((n - 1) as nat)).len() == n,
        low_bits(n, two_to((n - 1) as nat)).last(),
    decreases n,
{
    lemma_low_bits_len(n, two_to((n - 1) as nat));
    if n > 1 {
        lemma_min_last((n - 1) as nat);
        let p = two_to((n - 2) as nat);
        assert(two_to((n - 1) as nat) == 2 * p);
        assert((2 * p) % 2 == 0 && (2 * p) / 2 == p) by (nonlinear_arith);
        let l = low_bits(n, two_to((n - 1) as nat));
        assert(l == seq![false] + low_bits((n - 1) as nat, p));
    }
}

/// The names of the constants and of the unsigned division are not variables of the signed
/// division.
proof fn lemma_ds_const_names(bits: u8)
    requires
        bits == 32 || bits == 64,
    ensures
        ds_avoids(min_t(bits)),
        ds_avoids(minus_one_t(bits)),
        ds_avoids(var_t(div_name(bits))),
{
    reveal_strlit("range_error");
    reveal_strlit("a_neg");
    reveal_strlit("b_neg");
    reveal_strlit("a");
    reveal_strlit("b");
    reveal_strlit("res");
    reveal_strlit("i");
    reveal_strlit("I");
    reveal_strlit("DIV");
    let names = if bits == 32 {
        seq![i32_name_t(0x8000_0000), i32_name_t(0xffff_ffff)]
    } else {
        seq![i64_name_t(0x8000_0000_0000_0000), i64_name_t(0xffff_ffff_ffff_ffff)]
    };
    assert forall|k: int, n: Seq<char>| 0 <= k < 2 && ds_binder(n) implies names[k] != n by {
        let nm = names[k];
        assert(nm.last() == 'i' || nm.last() == 'I');
        assert(n.last() == 'r' || n.last() == 'g' || n.last() == 'a' || n.last() == 'b' || n.last() == 's');
    }
    assert(min_t(bits) == var_t(names[0]));
    assert(minus_one_t(bits) == var_t(names[1]));
    assert forall|n: Seq<char>| ds_binder(n) implies div_name(bits) != n by {
        assert(div_name(bits)[0] == 'D');
    }
}

/// The signed division of two numbers of the same sign reduces to the unsigned division of
/// their magnitudes, taken as it is: two numbers that are not negative are divided as they are,
/// and two negative numbers as their negations, with no range error unless the first is the
/// smallest number. This holds with the constant of the smallest number standing for it.
#[verifier::spinoff_prover]
#[verifier::rlimit(100)]
pub proof fn lemma_div_signed_same_signs(d: Seq<(Seq<char>, Term)>, bits: u8, x: Seq<bool>, y: Seq<bool>)
    requires
        bits == 32 || bits == 64,
        div_s_defs(d, bits),
        inv_defs(d),
        inc_defs(d),
        reduces(d, min_t(bits), bit_list_t(low_bits(bits as nat, two_to((bits - 1) as nat)))),
        x.len() == bits,
        y.len() == bits,
        x.last() == y.last(),
        x != low_bits(bits as nat, two_to((bits - 1) as nat)),
    ensures
        reduces(d, app2_t(var_t(div_s_name(bits)), bit_list_t(x), bit_list_t(y)),
            app2_t(var_t(div_name(bits)), bit_list_t(magnitude(x)), bit_list_t(magnitude(y)))),
{
    let xt = bit_list_t(x);
    let yt = bit_list_t(y);
    let dv = var_t(div_name(bits));
    let mn = min_t(bits);
    let m1 = minus_one_t(bits);
    let va = var_t("a"@);
    let vb = var_t("b"@);
    lemma_ds_names();
    lemma_ds_const_names(bits);
    lemma_bit_list_avoids(x);
    lemma_bit_list_avoids(y);
    lemma_bit_list_avoids_order(x);
    lemma_bit_list_avoids_order(y);
    lemma_bit_list_free_names(x);
    lemma_bit_list_free_names(y);
    lemma_ds_parts_upper(bits, x, y);
    lemma_upper_ds_avoids(xt);
    lemma_upper_ds_avoids(yt);
    assert(ds_binder("b_neg"@) && ds_binder("a_neg"@) && ds_binder("range_error"@) && ds_binder("res"@));
    let def = div_s_def_t(bits);
    assert(def == abs_t("a"@, abs_t("b"@, ds0_t(dv, mn, m1, va, vb))));
    let start = app2_t(var_t(div_s_name(bits)), xt, yt);
    lemma_reduces_defined(d, div_s_name(bits), def);
    lemma_reduces_fun(d, var_t(div_s_name(bits)), def, xt);
    lemma_reduces_fun(d, app_t(var_t(div_s_name(bits)), xt), app_t(def, xt), yt);
    // The first number: it goes into every part but the inner `let a`.
    let vre = var_t("range_error"@);
    let van = var_t("a_neg"@);
    let vbn = var_t("b_neg"@);
    assert(!ds_fixed("a"@) && ds_binder("a"@) && !ds_fixed("b"@) && ds_binder("b"@));
    lemma_small_subst(mn, mn, m1, va, vb, "a"@, xt);
    lemma_small_subst(van, mn, m1, va, va, "a"@, xt);
    let ds4a = ds4_t(dv, vre, van, vbn, va, vb);
    lemma_let_same("a"@, select_t(van, va, negate_t(va)), ds4a, xt);
    lemma_let_layer("b_neg"@, list::head_t(app_t(var_t("Rev"@), vb)), ds3_t(dv, vre, van, vbn, va, vb), "a"@, xt);
    lemma_small_subst(mn, mn, m1, vb, vb, "a"@, xt);
    lemma_let_layer("a_neg"@, list::head_t(app_t(var_t("Rev"@), va)), ds2_t(dv, vre, van, va, vb), "a"@, xt);
    lemma_let_layer("range_error"@, range_error_t(mn, m1, va, vb), ds1_t(dv, vre, va, vb), "a"@, xt);
    lemma_subst_not_free(mn, "a"@, xt);
    lemma_subst_not_free(m1, "a"@, xt);
    lemma_subst_not_free(dv, "a"@, xt);
    lemma_free_for_not_free(xt, "a"@, mn);
    lemma_free_for_not_free(xt, "a"@, m1);
    lemma_free_for_not_free(xt, "a"@, dv);
    assert(subst(ds0_t(dv, mn, m1, va, vb), "a"@, xt) == ds0_t(dv, mn, m1, xt, vb));
    lemma_abs_layer("b"@, ds0_t(dv, mn, m1, va, vb), "a"@, xt);
    lemma_reduces_beta(d, "a"@, abs_t("b"@, ds0_t(dv, mn, m1, va, vb)), xt);
    lemma_reduces_fun(d, app_t(def, xt), abs_t("b"@, ds0_t(dv, mn, m1, xt, vb)), yt);
    // The second number: every part but the inner `let b`.
    lemma_small_subst(mn, mn, m1, xt, vb, "b"@, yt);
    lemma_small_subst(vbn, mn, m1, vb, vb, "b"@, yt);
    lemma_small_subst(van, mn, m1, xt, xt, "b"@, yt);
    lemma_subst_not_free(xt, "b"@, yt);
    lemma_free_for_not_free(yt, "b"@, xt);
    let ds5b = ds5_t(dv, vre, van, vbn, va, vb);
    lemma_let_same("b"@, select_t(vbn, vb, negate_t(vb)), ds5b, yt);
    lemma_let_layer("a"@, select_t(van, xt, negate_t(xt)), ds4_t(dv, vre, van, vbn, va, vb), "b"@, yt);
    lemma_let_layer("b_neg"@, list::head_t(app_t(var_t("Rev"@), vb)), ds3_t(dv, vre, van, vbn, xt, vb), "b"@, yt);
    lemma_let_layer("a_neg"@, list::head_t(app_t(var_t("Rev"@), xt)), ds2_t(dv, vre, van, xt, vb), "b"@, yt);
    lemma_let_layer("range_error"@, range_error_t(mn, m1, xt, vb), ds1_t(dv, vre, xt, vb), "b"@, yt);
    lemma_subst_not_free(mn, "b"@, yt);
    lemma_subst_not_free(m1, "b"@, yt);
    lemma_subst_not_free(dv, "b"@, yt);
    lemma_free_for_not_free(yt, "b"@, mn);
    lemma_free_for_not_free(yt, "b"@, m1);
    lemma_free_for_not_free(yt, "b"@, dv);
    let e0 = ds0_t(dv, mn, m1, xt, yt);
    assert(subst(ds0_t(dv, mn, m1, xt, vb), "b"@, yt) == e0);
    lemma_reduces_beta(d, "b"@, ds0_t(dv, mn, m1, xt, vb), yt);
    lemma_reduces_trans(d, start, app2_t(def, xt, yt), app_t(abs_t("b"@, ds0_t(dv, mn, m1, xt, vb)), yt));
    lemma_reduces_trans(d, start, app_t(abs_t("b"@, ds0_t(dv, mn, m1, xt, vb)), yt), e0);
    // The range error.
    let re = range_error_t(mn, m1, xt, yt);
    assert(ds_avoids(re)) by {
        reveal_with_fuel(free_names, 6);
        reveal_strlit("EQ");
        reveal_strlit("range_error");
        reveal_strlit("a_neg");
        reveal_strlit("b_neg");
        reveal_strlit("a");
        reveal_strlit("b");
        reveal_strlit("res");
        reveal_strlit("0");
    }
    assert(!ds_fixed("range_error"@) && ds_binder("range_error"@));
    lemma_ds1_subst(dv, vre, xt, yt, "range_error"@, re);
    lemma_subst_not_free(dv, "range_error"@, re);
    lemma_subst_not_free(xt, "range_error"@, re);
    lemma_subst_not_free(yt, "range_error"@, re);
    lemma_free_for_not_free(re, "range_error"@, dv);
    lemma_free_for_not_free(re, "range_error"@, xt);
    lemma_free_for_not_free(re, "range_error"@, yt);
    let e1 = ds1_t(dv, re, xt, yt);
    lemma_reduces_beta(d, "range_error"@, ds1_t(dv, vre, xt, yt), re);
    lemma_reduces_trans(d, start, e0, e1);
    assert(e0 == let_t("range_error"@, re, ds1_t(dv, vre, xt, yt)));
    lemma_ds_beta_rest(d, bits, x, y, re);
    lemma_reduces_trans(d, start, e1, app2_t(dv, bit_list_t(magnitude(x)), bit_list_t(magnitude(y))));
}

/// A term whose free names all begin with something other than a lower-case letter, as the
/// names of the prelude's binders do.
pub open spec fn upper_named(t: Term) -> bool {
    forall|n: Seq<char>| #[trigger] free_names(t).contains(n) ==> n.len() > 0 && !('a' <= n[0] && n[0] <= 'z')
}

proof fn lemma_upper_hygienic(t: Term)
    requires
        upper_named(t),
    ensures
        hygienic(t),
{
    reveal_strlit("x0");
    reveal_strlit("x1");
    reveal_strlit("first");
    reveal_strlit("second");
    reveal_strlit("g");
    reveal_strlit("head");
    reveal_strlit("tail");
    reveal_strlit("tree");
    reveal_strlit("index");
    reveal_strlit("value");
    assert forall|n: Seq<char>| free_names(t).contains(n) implies !crate::codegen::lambda::evaluation::prelude_binders().contains(n) by {
        if crate::codegen::lambda::evaluation::prelude_binders().contains(n) {
            assert('a' <= n[0] && n[0] <= 'z');
        }
    }
}

/// The parts of the signed division that stand where bits or numbers are selected.
proof fn lemma_ds_parts_upper(bits: u8, x: Seq<bool>, y: Seq<bool>)
    requires
        bits == 32 || bits == 64,
    ensures
        upper_named(bit_list_t(x)),
        upper_named(bit_list_t(y)),
        upper_named(optional::none_t()),
        upper_named(bit_t(false)),
{
    lemma_bit_list_free_names(x);
    lemma_bit_list_free_names(y);
    reveal_strlit("C");
    reveal_strlit("Empty");
    reveal_strlit("0");
    reveal_strlit("1");
    reveal_strlit("Rev");
    reveal_strlit("P");
    reveal_strlit("_");
    reveal_with_fuel(free_names, 4);
}

proof fn lemma_upper_ds_avoids(t: Term)
    requires
        upper_named(t),
    ensures
        ds_avoids(t),
{
    reveal_strlit("range_error");
    reveal_strlit("a_neg");
    reveal_strlit("b_neg");
    reveal_strlit("a");
    reveal_strlit("b");
    reveal_strlit("res");
    assert forall|n: Seq<char>| ds_binder(n) implies !free_names(t).contains(n) by {
        assert('a' <= n[0] && n[0] <= 'z');
    }
}

/// The head of a reversed number, with the names it refers to.
proof fn lemma_upper_rev_head(t: Term)
    requires
        upper_named(t),
    ensures
        upper_named(list::head_t(app_t(var_t("Rev"@), t))),
{
    reveal_strlit("Rev");
    reveal_strlit("0");
    reveal_strlit("1");
    lemma_upper_var("Rev"@);
    lemma_upper_var("0"@);
    lemma_upper_var("1"@);
    lemma_upper_app(var_t("Rev"@), t);
    lemma_upper_app(app_t(var_t("Rev"@), t), Term::Var("1"@));
    lemma_upper_app(app_t(app_t(var_t("Rev"@), t), Term::Var("1"@)), Term::Var("0"@));
}

proof fn lemma_upper_app(f: Term, a: Term)
    requires
        upper_named(f),
        upper_named(a),
    ensures
        upper_named(app_t(f, a)),
{
    assert(free_names(app_t(f, a)) == free_names(f) + free_names(a));
}

proof fn lemma_upper_select(c: Term, a: Term, b: Term)
    requires
        upper_named(c),
        upper_named(a),
        upper_named(b),
    ensures
        upper_named(select_t(c, a, b)),
{
    lemma_upper_app(c, a);
    lemma_upper_app(app_t(c, a), b);
}

proof fn lemma_upper_var(n: Seq<char>)
    requires
        n.len() > 0,
        !('a' <= n[0] && n[0] <= 'z'),
    ensures
        upper_named(var_t(n)),
{
    assert(free_names(var_t(n)) == set![n]);
}

/// The rest of a signed division of two numbers that are not negative, past its range error:
/// the signs, the magnitudes, the quotient and the choice of the result.
#[verifier::spinoff_prover]
#[verifier::rlimit(100)]
proof fn lemma_ds_beta_rest(d: Seq<(Seq<char>, Term)>, bits: u8, x: Seq<bool>, y: Seq<bool>, re: Term)
    requires
        bits == 32 || bits == 64,
        div_s_defs(d, bits),
        re == range_error_t(min_t(bits), minus_one_t(bits), bit_list_t(x), bit_list_t(y)),
        ds_avoids(re),
        inv_defs(d),
        inc_defs(d),
        reduces(d, min_t(bits), bit_list_t(low_bits(bits as nat, two_to((bits - 1) as nat)))),
        x.len() == bits,
        y.len() == bits,
        x.last() == y.last(),
        x != low_bits(bits as nat, two_to((bits - 1) as nat)),
    ensures
        reduces(d, ds1_t(var_t(div_name(bits)), re, bit_list_t(x), bit_list_t(y)),
            app2_t(var_t(div_name(bits)), bit_list_t(magnitude(x)), bit_list_t(magnitude(y)))),
{
    let xt = bit_list_t(x);
    let yt = bit_list_t(y);
    let dv = var_t(div_name(bits));
    let mn = min_t(bits);
    let m1 = minus_one_t(bits);
    lemma_ds_names();
    lemma_ds_const_names(bits);
    lemma_ds_parts_upper(bits, x, y);
    lemma_upper_ds_avoids(xt);
    lemma_upper_ds_avoids(yt);
    let an = list::head_t(app_t(var_t("Rev"@), xt));
    let bn = list::head_t(app_t(var_t("Rev"@), yt));
    let sa = select_t(an, xt, negate_t(xt));
    let sb = select_t(bn, yt, negate_t(yt));
    let rs = app2_t(dv, sa, sb);
    lemma_upper_rev_head(xt);
    lemma_upper_rev_head(yt);
    reveal_strlit("INC");
    reveal_strlit("INV");
    reveal_strlit("DIV");
    lemma_upper_var("INC"@);
    lemma_upper_var("INV"@);
    assert(div_name(bits)[0] == 'D');
    lemma_upper_var(div_name(bits));
    lemma_upper_app(var_t("INV"@), xt);
    lemma_upper_app(var_t("INC"@), app_t(var_t("INV"@), xt));
    lemma_upper_app(var_t("INV"@), yt);
    lemma_upper_app(var_t("INC"@), app_t(var_t("INV"@), yt));
    lemma_upper_select(an, xt, negate_t(xt));
    lemma_upper_select(bn, yt, negate_t(yt));
    lemma_upper_app(dv, sa);
    lemma_upper_app(app_t(dv, sa), sb);
    lemma_upper_ds_avoids(an);
    lemma_upper_ds_avoids(bn);
    lemma_upper_ds_avoids(sa);
    lemma_upper_ds_avoids(sb);
    lemma_upper_ds_avoids(rs);
    assert(!ds_fixed("a_neg"@) && !ds_fixed("b_neg"@) && !ds_fixed("a"@) && !ds_fixed("b"@) && !ds_fixed("res"@)) by {
        assert(ds_binder("a_neg"@) && ds_binder("b_neg"@) && ds_binder("a"@) && ds_binder("b"@) && ds_binder("res"@));
    }
    assert(ds_binder("a_neg"@) && ds_binder("b_neg"@) && ds_binder("a"@) && ds_binder("b"@) && ds_binder("res"@));
    let van = var_t("a_neg"@);
    let vbn = var_t("b_neg"@);
    let va = var_t("a"@);
    let vb = var_t("b"@);
    let vres = var_t("res"@);
    // The sign of `a`.
    lemma_ds2_subst(dv, re, van, xt, yt, "a_neg"@, an);
    lemma_subst_not_free(dv, "a_neg"@, an);
    lemma_subst_not_free(re, "a_neg"@, an);
    lemma_subst_not_free(xt, "a_neg"@, an);
    lemma_subst_not_free(yt, "a_neg"@, an);
    lemma_free_for_not_free(an, "a_neg"@, dv);
    lemma_free_for_not_free(an, "a_neg"@, re);
    lemma_free_for_not_free(an, "a_neg"@, xt);
    lemma_free_for_not_free(an, "a_neg"@, yt);
    let e1 = ds1_t(dv, re, xt, yt);
    let e2 = ds2_t(dv, re, an, xt, yt);
    lemma_reduces_beta(d, "a_neg"@, ds2_t(dv, re, van, xt, yt), an);
    // The sign of `b`.
    lemma_ds3_subst(dv, re, an, vbn, xt, yt, "b_neg"@, bn);
    lemma_subst_not_free(dv, "b_neg"@, bn);
    lemma_subst_not_free(re, "b_neg"@, bn);
    lemma_subst_not_free(an, "b_neg"@, bn);
    lemma_subst_not_free(xt, "b_neg"@, bn);
    lemma_subst_not_free(yt, "b_neg"@, bn);
    lemma_free_for_not_free(bn, "b_neg"@, dv);
    lemma_free_for_not_free(bn, "b_neg"@, re);
    lemma_free_for_not_free(bn, "b_neg"@, an);
    lemma_free_for_not_free(bn, "b_neg"@, xt);
    lemma_free_for_not_free(bn, "b_neg"@, yt);
    let e3 = ds3_t(dv, re, an, bn, xt, yt);
    lemma_reduces_beta(d, "b_neg"@, ds3_t(dv, re, an, vbn, xt, yt), bn);
    lemma_reduces_trans(d, e1, e2, e3);
    // The magnitude of `a`.
    lemma_ds4_subst(dv, re, an, bn, va, yt, "a"@, sa);
    lemma_subst_not_free(dv, "a"@, sa);
    lemma_subst_not_free(re, "a"@, sa);
    lemma_subst_not_free(an, "a"@, sa);
    lemma_subst_not_free(bn, "a"@, sa);
    lemma_subst_not_free(yt, "a"@, sa);
    lemma_free_for_not_free(sa, "a"@, dv);
    lemma_free_for_not_free(sa, "a"@, re);
    lemma_free_for_not_free(sa, "a"@, an);
    lemma_free_for_not_free(sa, "a"@, bn);
    lemma_free_for_not_free(sa, "a"@, yt);
    let e4 = ds4_t(dv, re, an, bn, sa, yt);
    lemma_reduces_beta(d, "a"@, ds4_t(dv, re, an, bn, va, yt), sa);
    lemma_reduces_trans(d, e1, e3, e4);
    // The magnitude of `b`.
    lemma_ds5_subst(dv, re, an, bn, sa, vb, "b"@, sb);
    lemma_subst_not_free(dv, "b"@, sb);
    lemma_subst_not_free(re, "b"@, sb);
    lemma_subst_not_free(an, "b"@, sb);
    lemma_subst_not_free(bn, "b"@, sb);
    lemma_subst_not_free(sa, "b"@, sb);
    lemma_free_for_not_free(sb, "b"@, dv);
    lemma_free_for_not_free(sb, "b"@, re);
    lemma_free_for_not_free(sb, "b"@, an);
    lemma_free_for_not_free(sb, "b"@, bn);
    lemma_free_for_not_free(sb, "b"@, sa);
    let e5 = ds5_t(dv, re, an, bn, sa, sb);
    lemma_reduces_beta(d, "b"@, ds5_t(dv, re, an, bn, sa, vb), sb);
    lemma_reduces_trans(d, e1, e4, e5);
    // The quotient.
    lemma_ds_body_subst(re, an, bn, vres, "res"@, rs);
    lemma_subst_not_free(re, "res"@, rs);
    lemma_subst_not_free(an, "res"@, rs);
    lemma_subst_not_free(bn, "res"@, rs);
    lemma_free_for_not_free(rs, "res"@, re);
    lemma_free_for_not_free(rs, "res"@, an);
    lemma_free_for_not_free(rs, "res"@, bn);
    let e6 = ds_body_t(re, an, bn, rs);
    lemma_reduces_beta(d, "res"@, ds_body_t(re, an, bn, vres), rs);
    lemma_reduces_trans(d, e1, e5, e6);
    // No range error: `a` is not the smallest number.
    let mb = low_bits(bits as nat, two_to((bits - 1) as nat));
    lemma_min_last(bits as nat);
    let eq_a = app2_t(var_t("EQ"@), xt, mn);
    lemma_reduces_arg(d, app_t(var_t("EQ"@), xt), mn, bit_list_t(mb));
    lemma_eq_tests_equality(d, x, mb);
    lemma_reduces_trans(d, eq_a, app2_t(var_t("EQ"@), xt, bit_list_t(mb)), bit_t(false));
    lemma_bit_hygienic(false);
    lemma_select(d, eq_a, false, bit_t(false), app2_t(var_t("EQ"@), yt, m1));
    // The signs.
    lemma_rev(x);
    lemma_rev(y);
    lemma_core(d, app_t(var_t("Rev"@), xt), bit_list_t(x.reverse()));
    lemma_core(d, app_t(var_t("Rev"@), yt), bit_list_t(y.reverse()));
    lemma_rev_head_tail(d, x);
    lemma_rev_head_tail(d, y);
    lemma_reduces_fun(d, app_t(var_t("Rev"@), xt), bit_list_t(x.reverse()), Term::Var("1"@));
    lemma_reduces_fun(d, app_t(app_t(var_t("Rev"@), xt), Term::Var("1"@)), app_t(bit_list_t(x.reverse()), Term::Var("1"@)), Term::Var("0"@));
    lemma_reduces_trans(d, an, list::head_t(bit_list_t(x.reverse())), bit_t(x.last()));
    lemma_reduces_fun(d, app_t(var_t("Rev"@), yt), bit_list_t(y.reverse()), Term::Var("1"@));
    lemma_reduces_fun(d, app_t(app_t(var_t("Rev"@), yt), Term::Var("1"@)), app_t(bit_list_t(y.reverse()), Term::Var("1"@)), Term::Var("0"@));
    lemma_reduces_trans(d, bn, list::head_t(bit_list_t(y.reverse())), bit_t(y.last()));
    // The branches are hygienic.
    reveal_strlit("INC");
    reveal_strlit("INV");
    reveal_strlit("DIV");
    reveal_strlit("0");
    reveal_strlit("1");
    lemma_upper_var("INC"@);
    lemma_upper_var("INV"@);
    assert(div_name(bits)[0] == 'D');
    lemma_upper_var(div_name(bits));
    lemma_upper_var("0"@);
    lemma_upper_var("1"@);
    lemma_upper_app(var_t("INV"@), xt);
    lemma_upper_app(var_t("INC"@), app_t(var_t("INV"@), xt));
    lemma_upper_app(var_t("INV"@), yt);
    lemma_upper_app(var_t("INC"@), app_t(var_t("INV"@), yt));
    lemma_upper_select(an, xt, negate_t(xt));
    lemma_upper_select(bn, yt, negate_t(yt));
    lemma_upper_app(dv, sa);
    lemma_upper_app(app_t(dv, sa), sb);
    lemma_upper_select(bn, bit_t(true), bit_t(false));
    lemma_upper_select(an, bn, bit_not_t(bn));
    lemma_upper_app(rs, Term::Var("0"@));
    lemma_upper_app(rs, Term::Var("1"@));
    lemma_upper_app(var_t("INV"@), optional::unwrap_t(rs));
    lemma_upper_app(var_t("INC"@), app_t(var_t("INV"@), optional::unwrap_t(rs)));
    reveal_strlit("P");
    lemma_upper_var("P"@);
    lemma_upper_app(var_t("P"@), Term::Var("1"@));
    lemma_upper_app(app_t(var_t("P"@), Term::Var("1"@)), negate_t(optional::unwrap_t(rs)));
    let neg_branch = select_t(optional::is_some_t(rs), optional::none_t(), optional::some_t(negate_t(optional::unwrap_t(rs))));
    lemma_upper_select(optional::is_some_t(rs), optional::none_t(), optional::some_t(negate_t(optional::unwrap_t(rs))));
    let inner = select_t(bit_xor_t(an, bn), rs, neg_branch);
    lemma_upper_select(bit_xor_t(an, bn), rs, neg_branch);
    lemma_upper_hygienic(inner);
    lemma_upper_hygienic(rs);
    lemma_upper_hygienic(bn);
    lemma_upper_hygienic(xt);
    // No range error selects the quotient, signs that agree take it as it is.
    lemma_select(d, re, false, inner, optional::none_t());
    lemma_reduces_trans(d, e1, e6, inner);
    lemma_xor(d, an, bn, x.last(), y.last());
    lemma_select(d, bit_xor_t(an, bn), false, rs, neg_branch);
    lemma_reduces_trans(d, e1, inner, rs);
    // The magnitudes: the numbers themselves, or negated where they are negative.
    let mx = bit_list_t(magnitude(x));
    let my = bit_list_t(magnitude(y));
    lemma_select(d, an, x.last(), xt, negate_t(xt));
    lemma_upper_hygienic(yt);
    lemma_select(d, bn, y.last(), yt, negate_t(yt));
    if x.last() {
        lemma_negate_computes_minus(d, x);
        lemma_negate_computes_minus(d, y);
        lemma_reduces_trans(d, sa, negate_t(xt), mx);
        lemma_reduces_trans(d, sb, negate_t(yt), my);
    }
    lemma_args2(d, dv, sa, mx, sb, my);
    lemma_reduces_trans(d, e1, rs, app2_t(dv, mx, my));
}

/// The bits of a number, each flipped.
pub open spec fn flipped(a: Seq<bool>) -> Seq<bool> {
    a.map_values(|b: bool| !b)
}

/// A number and its flipped bits add up to the largest number of the width.
proof fn lemma_flipped_value(a: Seq<bool>)
    ensures
        bits_value(a) + bits_value(flipped(a)) + 1 == two_to(a.len()),
        flipped(a).len() == a.len(),
    decreases a.len(),
{
    if a.len() > 0 {
        lemma_flipped_value(a.drop_first());
        assert(flipped(a).drop_first() =~= flipped(a.drop_first()));
    }
}

/// The body of `_INV` with its number in place.
pub open spec fn inv_body_t(a: Term) -> Term {
    select_t(
        list::is_not_empty_t(a),
        list::empty_t(),
        list::node_t(bit_not_t(list::head_t(a)), app_t(rec_t(var_t("_INV"@)), list::tail_t(a))),
    )
}

/// Definitions that hold the core definitions and those of `INV`.
pub open spec fn inv_defs(d: Seq<(Seq<char>, Term)>) -> bool {
    &&& defs_within(core_defs_t(), d)
    &&& d.contains(("_INV"@, abs_t("_INV"@, inv_helper_t())))
    &&& d.contains(("INV"@, rec_t(var_t("_INV"@))))
}

#[verifier::spinoff_prover]
#[verifier::rlimit(40)]
proof fn lemma_inv_template(x: Term, n: Seq<char>, v: Term)
    requires
        n != "0"@, n != "1"@, n != "C"@, n != "Empty"@, n != "_INV"@,
    ensures
        subst(inv_body_t(x), n, v) == inv_body_t(subst(x, n, v)),
        free_for(v, n, inv_body_t(x)) == free_for(v, n, x),
{
    reveal_with_fuel(subst, 10);
    reveal_with_fuel(free_for, 10);
}

#[verifier::spinoff_prover]
#[verifier::rlimit(40)]
proof fn lemma_inv_apply(d: Seq<(Seq<char>, Term)>, a: Term)
    requires
        inv_defs(d),
    ensures
        reduces(d, app_t(rec_t(var_t("_INV"@)), a), inv_body_t(a)),
{
    let h = inv_helper_t();
    let f = var_t("_INV"@);
    lemma_reduces_defined(d, "_INV"@, abs_t("_INV"@, h));
    lemma_reduces_fun(d, f, abs_t("_INV"@, h), f);
    lemma_free_for_self(h, "_INV"@);
    lemma_reduces_beta(d, "_INV"@, h, f);
    lemma_subst_self(h, "_INV"@);
    lemma_reduces_trans(d, rec_t(f), app_t(abs_t("_INV"@, h), f), h);
    lemma_reduces_fun(d, rec_t(f), h, a);
    lemma_add_names();
    reveal_strlit("a");
    reveal_strlit("_INV");
    assert("a"@.len() != "_INV"@.len());
    assert(h == abs_t("a"@, inv_body_t(var_t("a"@))));
    lemma_inv_template(var_t("a"@), "a"@, a);
    lemma_reduces_beta(d, "a"@, inv_body_t(var_t("a"@)), a);
    lemma_reduces_trans(d, app_t(rec_t(f), a), app_t(h, a), inv_body_t(a));
}

#[verifier::spinoff_prover]
#[verifier::rlimit(60)]
proof fn lemma_inv_run(d: Seq<(Seq<char>, Term)>, a: Seq<bool>)
    requires
        inv_defs(d),
    ensures
        reduces(d, app_t(rec_t(var_t("_INV"@)), bit_list_t(a)), bit_list_t(flipped(a))),
    decreases a.len(),
{
    let at = bit_list_t(a);
    let f = rec_t(var_t("_INV"@));
    let start = app_t(f, at);
    lemma_inv_apply(d, at);
    lemma_bit_list_hygienic(a);
    lemma_names_hygienic();
    let node = list::node_t(bit_not_t(list::head_t(at)), app_t(f, list::tail_t(at)));
    if a.len() == 0 {
        lemma_is_not_empty_empty();
        lemma_core(d, list::is_not_empty_t(list::empty_t()), bit_t(false));
        lemma_select(d, list::is_not_empty_t(at), false, list::empty_t(), node);
        lemma_reduces_trans(d, start, inv_body_t(at), list::empty_t());
        assert(flipped(a) =~= Seq::<bool>::empty());
    } else {
        let a0 = a[0];
        let rest = a.drop_first();
        let rt = bit_list_t(rest);
        lemma_bit_hygienic(a0);
        lemma_bit_list_hygienic(rest);
        assert(at == list::node_t(bit_t(a0), rt));
        lemma_is_not_empty_node(bit_t(a0), rt);
        lemma_core(d, list::is_not_empty_t(at), bit_t(true));
        lemma_select(d, list::is_not_empty_t(at), true, list::empty_t(), node);
        lemma_reduces_trans(d, start, inv_body_t(at), node);
        lemma_head(bit_t(a0), rt);
        lemma_core(d, list::head_t(at), bit_t(a0));
        lemma_not(d, list::head_t(at), a0);
        lemma_tail(bit_t(a0), rt);
        lemma_core(d, list::tail_t(at), rt);
        lemma_reduces_arg(d, f, list::tail_t(at), rt);
        lemma_inv_run(d, rest);
        lemma_reduces_trans(d, app_t(f, list::tail_t(at)), app_t(f, rt), bit_list_t(flipped(rest)));
        lemma_args2(d, Term::Var("C"@), bit_not_t(list::head_t(at)), bit_t(!a0), app_t(f, list::tail_t(at)), bit_list_t(flipped(rest)));
        assert(flipped(a).drop_first() =~= flipped(rest));
        assert(bit_list_t(flipped(a)) == list::node_t(bit_t(!a0), bit_list_t(flipped(rest))));
        lemma_reduces_trans(d, start, node, bit_list_t(flipped(a)));
    }
}

/// `INV` applied to a number reduces to its bits flipped: the largest number of the width
/// minus the number.
pub proof fn lemma_inv_flips_bits(d: Seq<(Seq<char>, Term)>, a: Seq<bool>)
    requires
        inv_defs(d),
    ensures
        reduces(d, app_t(var_t("INV"@), bit_list_t(a)), bit_list_t(flipped(a))),
        bits_value(flipped(a)) + bits_value(a) + 1 == two_to(a.len()),
{
    let f = rec_t(var_t("_INV"@));
    lemma_reduces_defined(d, "INV"@, f);
    lemma_reduces_fun(d, var_t("INV"@), f, bit_list_t(a));
    lemma_inv_run(d, a);
    lemma_reduces_trans(d, app_t(var_t("INV"@), bit_list_t(a)), app_t(f, bit_list_t(a)), bit_list_t(flipped(a)));
    lemma_flipped_value(a);
}

/// Negation, `INC` after `INV`, reduces to the lowest bits of two to the width minus the
/// number: minus the number modulo a power of two.
pub proof fn lemma_negate_computes_minus(d: Seq<(Seq<char>, Term)>, a: Seq<bool>)
    requires
        inv_defs(d),
        inc_defs(d),
    ensures
        reduces(d, negate_t(bit_list_t(a)), bit_list_t(low_bits(a.len(), (two_to(a.len()) - bits_value(a)) as nat))),
{
    lemma_inv_flips_bits(d, a);
    lemma_flipped_value(a);
    let fa = flipped(a);
    lemma_reduces_arg(d, var_t("INC"@), app_t(var_t("INV"@), bit_list_t(a)), bit_list_t(fa));
    lemma_inc_computes_successor(d, fa);
    assert(bits_value(fa) + 1 == (two_to(a.len()) - bits_value(a)) as nat);
    lemma_reduces_trans(d, negate_t(bit_list_t(a)), app_t(var_t("INC"@), bit_list_t(fa)),
        bit_list_t(low_bits(a.len(), (two_to(a.len()) - bits_value(a)) as nat)));
}

/// `ADD` of a number and the negation of another of the same width reduces to the lowest bits
/// of their difference: subtraction modulo a power of two.
pub proof fn lemma_sub_computes_difference(d: Seq<(Seq<char>, Term)>, a: Seq<bool>, b: Seq<bool>)
    requires
        add_defs(d),
        inv_defs(d),
        inc_defs(d),
        a.len() == b.len(),
    ensures
        reduces(
            d,
            app2_t(var_t("ADD"@), bit_list_t(a), negate_t(bit_list_t(b))),
            bit_list_t(low_bits(a.len(), (bits_value(a) + two_to(a.len()) - bits_value(b)) as nat)),
        ),
{
    let n = a.len();
    lemma_flipped_value(b);
    let nb = low_bits(n, (two_to(n) - bits_value(b)) as nat);
    lemma_negate_computes_minus(d, b);
    lemma_low_bits_len(n, (two_to(n) - bits_value(b)) as nat);
    lemma_reduces_arg(d, app_t(var_t("ADD"@), bit_list_t(a)), negate_t(bit_list_t(b)), bit_list_t(nb));
    lemma_add_computes_sum(d, a, nb);
    lemma_low_bits_sum(n, (two_to(n) - bits_value(b)) as nat, bits_value(a));
    assert(bits_value(nb) + bits_value(a) == bits_value(a) + bits_value(nb));
    assert(((two_to(n) - bits_value(b)) as nat + bits_value(a)) as nat == (bits_value(a) + two_to(n) - bits_value(b)) as nat);
    lemma_reduces_trans(d, app2_t(var_t("ADD"@), bit_list_t(a), negate_t(bit_list_t(b))),
        app2_t(var_t("ADD"@), bit_list_t(a), bit_list_t(nb)),
        bit_list_t(low_bits(n, (bits_value(a) + two_to(n) - bits_value(b)) as nat)));
}

/// The negation of a signed comparison: `gt_s` as not `le_s`, `ge_s` as not `lt_s`.
pub proof fn lemma_compare_signed_negated(d: Seq<(Seq<char>, Term)>, strict: bool, x: Seq<bool>, y: Seq<bool>)
    requires
        compare_s_defs(d, strict),
        x.len() == y.len(),
        x.len() > 0,
    ensures
        reduces(
            d,
            bit_not_t(app2_t(var_t(compare_s_name(strict)), bit_list_t(x), bit_list_t(y))),
            bit_t(if strict { signed_value(x) >= signed_value(y) } else { signed_value(x) > signed_value(y) }),
        ),
{
    lemma_compare_signed(d, strict, x, y);
    lemma_not(d, app2_t(var_t(compare_s_name(strict)), bit_list_t(x), bit_list_t(y)),
        if strict { signed_value(x) < signed_value(y) } else { signed_value(x) <= signed_value(y) });
}

/// A definition added to a runtime keeps those it had, after the core definitions, and holds
/// the new one where its name was not defined yet.
proof fn lemma_def_kept(s: RtState, name: Seq<char>, value: Term)
    ensures
        forall|e: (Seq<char>, Term)| (core_defs_t() + s.defs).contains(e) ==> (core_defs_t() + s.def(name, value).defs).contains(e),
        !s.has(name) ==> (core_defs_t() + s.def(name, value).defs).contains((name, value)),
        !s.has(name) ==> forall|m: Seq<char>| m != name ==> (s.def(name, value).has(m) <==> s.has(m)),
{
    let d0 = core_defs_t() + s.defs;
    let d1 = core_defs_t() + s.def(name, value).defs;
    if !s.has(name) {
        assert(s.def(name, value).defs == s.defs.push((name, value)));
        assert forall|e: (Seq<char>, Term)| d0.contains(e) implies d1.contains(e) by {
            let i = choose|i: int| 0 <= i < d0.len() && d0[i] == e;
            assert(d1[i] == e);
        }
        assert(d1[d1.len() - 1] == (name, value));
        assert forall|m: Seq<char>| m != name implies (s.def(name, value).has(m) <==> s.has(m)) by {
            let s1 = s.def(name, value);
            if s1.has(m) {
                let i = choose|i: int| 0 <= i < s1.defs.len() && #[trigger] s1.defs[i].0 == m;
                assert(s.defs[i].0 == m);
            }
            if s.has(m) {
                let i = choose|i: int| 0 <= i < s.defs.len() && #[trigger] s.defs[i].0 == m;
                assert(s1.defs[i].0 == m);
            }
        }
    }
}

/// The core definitions are among those of any runtime after them.
proof fn lemma_core_within(s: RtState)
    ensures
        defs_within(core_defs_t(), core_defs_t() + s.defs),
{
    assert forall|e: (Seq<char>, Term)| #[trigger] core_defs_t().contains(e) implies (core_defs_t() + s.defs).contains(e) by {
        let i = choose|i: int| 0 <= i < core_defs_t().len() && core_defs_t()[i] == e;
        assert((core_defs_t() + s.defs)[i] == e);
    }
}

/// `increment` on a runtime that has neither `INC` nor `_INC` gives it the definitions that
/// `INC` reduces by.
pub proof fn lemma_inc_st_defs(s: RtState)
    requires
        !s.has("INC"@),
        !s.has("_INC"@),
    ensures
        inc_defs(core_defs_t() + inc_st(s).defs),
{
    reveal_strlit("INC");
    reveal_strlit("_INC");
    assert("INC"@.len() != "_INC"@.len());
    let s1 = s.def_rec("_INC"@, inc_helper_t());
    lemma_def_kept(s, "_INC"@, abs_t("_INC"@, inc_helper_t()));
    lemma_def_kept(s1, "INC"@, rec_t(var_t("_INC"@)));
    lemma_core_within(inc_st(s));
}

/// `is_zero` on a runtime that has neither `EQZ` nor `_EQZ` gives it the definitions that
/// `EQZ` reduces by.
pub proof fn lemma_eqz_st_defs(s: RtState)
    requires
        !s.has("EQZ"@),
        !s.has("_EQZ"@),
    ensures
        eqz_defs(core_defs_t() + eqz_st(s).defs),
{
    reveal_strlit("EQZ");
    reveal_strlit("_EQZ");
    assert("EQZ"@.len() != "_EQZ"@.len());
    let s1 = s.def_rec("_EQZ"@, eqz_helper_t());
    lemma_def_kept(s, "_EQZ"@, abs_t("_EQZ"@, eqz_helper_t()));
    lemma_def_kept(s1, "EQZ"@, rec_t(var_t("_EQZ"@)));
    lemma_core_within(eqz_st(s));
}

/// `mul` on a runtime that has none of `ADD`, `_ADD`, `MUL` and `_MUL` gives it the definitions
/// that `MUL` reduces by.
pub proof fn lemma_mul_st_defs(s: RtState)
    requires
        !s.has("ADD"@),
        !s.has("_ADD"@),
        !s.has("MUL"@),
        !s.has("_MUL"@),
    ensures
        mul_defs(core_defs_t() + mul_st(s).defs),
{
    reveal_strlit("ADD");
    reveal_strlit("_ADD");
    reveal_strlit("MUL");
    reveal_strlit("_MUL");
    assert("ADD"@.len() != "_ADD"@.len() && "MUL"@.len() != "_MUL"@.len());
    assert("ADD"@[0] != "MUL"@[0] && "_ADD"@[1] != "_MUL"@[1] && "ADD"@.len() != "_MUL"@.len() && "MUL"@.len() != "_ADD"@.len());
    lemma_add_st_defs(s);
    let s0 = s.def_rec("_ADD"@, add_helper_t());
    lemma_def_kept(s, "_ADD"@, abs_t("_ADD"@, add_helper_t()));
    lemma_def_kept(s0, "ADD"@, app_t(rec_t(var_t("_ADD"@)), bit_t(false)));
    let s2 = add_st(s);
    assert(!s2.has("MUL"@) && !s2.has("_MUL"@));
    let s3 = s2.def_rec("_MUL"@, mul_helper_t());
    lemma_def_kept(s2, "_MUL"@, abs_t("_MUL"@, mul_helper_t()));
    lemma_def_kept(s3, "MUL"@, rec_t(var_t("_MUL"@)));
    lemma_core_within(mul_st(s));
}

/// A signed comparison on a runtime that has neither it nor its big-endian comparison gives it
/// the definitions that it reduces by.
pub proof fn lemma_compare_s_st_defs(s: RtState, strict: bool)
    requires
        !s.has(compare_be_name(strict)),
        !s.has(compare_s_name(strict)),
    ensures
        compare_s_defs(core_defs_t() + compare_s_st(s, strict).defs, strict),
{
    reveal_strlit("_LTbe");
    reveal_strlit("_LEbe");
    reveal_strlit("_LTs");
    reveal_strlit("_LEs");
    assert(compare_be_name(strict).len() != compare_s_name(strict).len());
    let be = compare_be_name(strict);
    let s1 = s.def_rec(be, compare_be_def_t(strict));
    lemma_def_kept(s, be, abs_t(be, compare_be_def_t(strict)));
    assert(compare_be_st(s, strict) == s1);
    lemma_def_kept(s1, compare_s_name(strict), compare_s_def_t(strict));
    lemma_core_within(compare_s_st(s, strict));
}

} // verus!
