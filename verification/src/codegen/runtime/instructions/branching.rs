//! What a conditional branch does: it goes on at its target exactly when the value it pops is
//! not zero.

use vstd::prelude::*;

use crate::codegen::function::BlockT;
use crate::codegen::lambda::evaluation::{bit_list_t, hygienic};
use crate::codegen::lambda::instruction::{build_t, execute_next_t, pop_range_t, v, wrap_t};
use crate::codegen::lambda::reduction::{
    free_for, free_names, lemma_free_for_not_free, lemma_free_for_self, lemma_reduces_arg,
    lemma_reduces_beta, lemma_reduces_fun, lemma_reduces_trans, lemma_subst_not_free,
    lemma_subst_self, reduces, subst,
};
use crate::codegen::lambda::scope::scoped;
use crate::codegen::lambda::{abs_t, app_t, bit_t, data_stack, let_t, lets_t, select_t, var_t, Term};
use crate::codegen::runtime::core_names_in;
use crate::codegen::runtime::instructions::control_flow::{br_if_t, br_t};
use crate::codegen::runtime::instructions::scoping::{jump_targets_scoped, lemma_br_scoped};
use crate::codegen::runtime::math::bit_not_t;
use crate::codegen::runtime::math::sums::{
    bits_value, eqz_defs, lemma_eqz_tests_zero, lemma_not, lemma_select,
};

verus! {

/// The free names of a term are among the names it is scoped in.
pub proof fn lemma_scoped_free(t: Term, env: Set<Seq<char>>)
    requires
        scoped(t, env),
    ensures
        forall|n: Seq<char>| free_names(t).contains(n) ==> env.contains(n),
    decreases t,
{
    match t {
        Term::Var(x) => {
            assert(scoped(t, env) == env.contains(x));
            assert(free_names(t) == set![x]);
            assert forall|n: Seq<char>| free_names(t).contains(n) implies env.contains(n) by {
                assert(n == x);
            }
        },
        Term::Abs(x, b) => {
            assert(scoped(*b, env.insert(x)));
            lemma_scoped_free(*b, env.insert(x));
            assert(free_names(t) == free_names(*b).remove(x));
            assert forall|n: Seq<char>| free_names(t).contains(n) implies env.contains(n) by {
                assert(free_names(*b).contains(n) && n != x);
                assert(env.insert(x).contains(n));
            }
        },
        Term::App(f, a) => {
            lemma_scoped_free(*f, env);
            lemma_scoped_free(*a, env);
            assert(free_names(t) == free_names(*f) + free_names(*a));
        },
    }
}

/// A term in which no name of the context of an instruction, nor `cond`, is free.
pub open spec fn avoids_context(t: Term) -> bool {
    &&& !free_names(t).contains("N"@) && !free_names(t).contains("F"@) && !free_names(t).contains("M"@)
    &&& !free_names(t).contains("G"@) && !free_names(t).contains("L"@) && !free_names(t).contains("S"@)
    &&& !free_names(t).contains("T"@) && !free_names(t).contains("cond"@)
}

/// An instruction applied to a context.
pub open spec fn run_t(instr: Term, n: Term, f: Term, m: Term, g: Term, l: Term, s: Term, t: Term) -> Term {
    app_t(app_t(app_t(app_t(app_t(app_t(app_t(instr, n), f), m), g), l), s), t)
}

/// Code that goes on with a context.
pub open spec fn next_t(next: Term, f: Term, m: Term, g: Term, l: Term, s: Term, t: Term) -> Term {
    app_t(app_t(app_t(app_t(app_t(app_t(next, f), m), g), l), s), t)
}

/// The names of the context, and `cond`, are different from each other and from the names
/// that the data stack and the test for zero refer to.
proof fn lemma_context_names()
    ensures
        "N"@ != "F"@, "N"@ != "M"@, "N"@ != "G"@, "N"@ != "L"@, "N"@ != "S"@, "N"@ != "T"@,
        "F"@ != "M"@, "F"@ != "G"@, "F"@ != "L"@, "F"@ != "S"@, "F"@ != "T"@,
        "M"@ != "G"@, "M"@ != "L"@, "M"@ != "S"@, "M"@ != "T"@,
        "G"@ != "L"@, "G"@ != "S"@, "G"@ != "T"@,
        "L"@ != "S"@, "L"@ != "T"@, "S"@ != "T"@,
        "cond"@ != "N"@, "cond"@ != "S"@, "cond"@ != "T"@,
        "cond"@ != "F"@, "cond"@ != "M"@, "cond"@ != "G"@, "cond"@ != "L"@,
        "cond"@ != "EQZ"@, "N"@ != "EQZ"@, "S"@ != "EQZ"@,
        "cond"@ != "0"@, "cond"@ != "1"@, "cond"@ != "P"@,
        "N"@ != "0"@, "N"@ != "1"@, "N"@ != "P"@,
        "S"@ != "0"@, "S"@ != "1"@, "S"@ != "P"@,
        hygienic(var_t("N"@)),
{
    reveal_strlit("N");
    reveal_strlit("F");
    reveal_strlit("M");
    reveal_strlit("G");
    reveal_strlit("L");
    reveal_strlit("S");
    reveal_strlit("T");
    reveal_strlit("cond");
    reveal_strlit("EQZ");
    reveal_strlit("0");
    reveal_strlit("1");
    reveal_strlit("P");
    reveal_strlit("x0");
    reveal_strlit("x1");
    reveal_strlit("first");
    reveal_strlit("second");
    reveal_strlit("g");
    reveal_strlit("head");
    reveal_strlit("tail");
    reveal_strlit("tree");
    reveal_strlit("index");
    reveal_strlit("value");
    assert("N"@[0] != "F"@[0] && "N"@[0] != "M"@[0] && "N"@[0] != "G"@[0] && "N"@[0] != "L"@[0]);
    assert("N"@[0] != "S"@[0] && "N"@[0] != "T"@[0] && "F"@[0] != "M"@[0] && "F"@[0] != "G"@[0]);
    assert("F"@[0] != "L"@[0] && "F"@[0] != "S"@[0] && "F"@[0] != "T"@[0] && "M"@[0] != "G"@[0]);
    assert("M"@[0] != "L"@[0] && "M"@[0] != "S"@[0] && "M"@[0] != "T"@[0] && "G"@[0] != "L"@[0]);
    assert("G"@[0] != "S"@[0] && "G"@[0] != "T"@[0] && "L"@[0] != "S"@[0] && "L"@[0] != "T"@[0]);
    assert("S"@[0] != "T"@[0]);
    assert("cond"@.len() == 4 && "EQZ"@.len() == 3 && "N"@.len() == 1);
    assert("N"@[0] != "0"@[0] && "N"@[0] != "1"@[0] && "N"@[0] != "P"@[0]);
    assert("S"@[0] != "0"@[0] && "S"@[0] != "1"@[0] && "S"@[0] != "P"@[0]);
    assert("N"@.len() != "x0"@.len() && "N"@.len() != "first"@.len() && "N"@.len() != "second"@.len());
    assert("N"@[0] != "g"@[0] && "N"@.len() != "head"@.len() && "N"@.len() != "tail"@.len());
    assert("N"@.len() != "tree"@.len() && "N"@.len() != "index"@.len() && "N"@.len() != "value"@.len());
}

/// An abstraction applied to its own variable reduces to its body.
proof fn lemma_self_beta(d: Seq<(Seq<char>, Term)>, x: Seq<char>, body: Term)
    ensures
        reduces(d, app_t(abs_t(x, body), Term::Var(x)), body),
{
    lemma_free_for_self(body, x);
    lemma_reduces_beta(d, x, body, Term::Var(x));
    lemma_subst_self(body, x);
}

/// Substituting into the data stack operations on a variable.
proof fn lemma_stack_subst(n: Seq<char>, s: Term, x: Seq<char>, a: Term)
    requires
        n != "0"@, n != "1"@, n != "P"@,
    ensures
        subst(data_stack::top_t(s), n, a) == data_stack::top_t(subst(s, n, a)),
        subst(data_stack::pop_t(s), n, a) == data_stack::pop_t(subst(s, n, a)),
        free_for(a, n, data_stack::top_t(s)) == free_for(a, n, s),
        free_for(a, n, data_stack::pop_t(s)) == free_for(a, n, s),
{
    reveal_with_fuel(subst, 8);
    reveal_with_fuel(free_for, 8);
}

/// The free names of the data stack operations on a term are its own and those of pairs.
proof fn lemma_stack_free(s: Term, x: Seq<char>)
    requires
        !free_names(s).contains(x),
        x != "0"@, x != "1"@, x != "P"@,
    ensures
        !free_names(data_stack::top_t(s)).contains(x),
        !free_names(data_stack::pop_t(s)).contains(x),
{
    reveal_with_fuel(free_names, 8);
}

/// A `let` whose variable is the one substituted for takes the substitution in its value only.
proof fn lemma_let_same(x: Seq<char>, val: Term, body: Term, a: Term)
    ensures
        subst(let_t(x, val, body), x, a) == let_t(x, subst(val, x, a), body),
        free_for(a, x, let_t(x, val, body)) == free_for(a, x, val),
{
    reveal_with_fuel(subst, 2);
    reveal_with_fuel(free_for, 2);
}

/// A `let` of another name takes the substitution in both parts.
proof fn lemma_let_other(x: Seq<char>, val: Term, body: Term, n: Seq<char>, a: Term)
    requires
        x != n,
        !free_names(a).contains(x),
    ensures
        subst(let_t(x, val, body), n, a) == let_t(x, subst(val, n, a), subst(body, n, a)),
        free_for(a, n, let_t(x, val, body)) == (free_for(a, n, body) && free_for(a, n, val)),
{
    reveal_with_fuel(subst, 2);
    reveal_with_fuel(free_for, 2);
}

/// Reduction of the code of a continuation with its context.
proof fn lemma_next_fun(d: Seq<(Seq<char>, Term)>, c: Term, c2: Term, f: Term, m: Term, g: Term, l: Term, s: Term, t: Term)
    requires
        reduces(d, c, c2),
    ensures
        reduces(d, next_t(c, f, m, g, l, s, t), next_t(c2, f, m, g, l, s, t)),
{
    lemma_reduces_fun(d, c, c2, f);
    lemma_reduces_fun(d, app_t(c, f), app_t(c2, f), m);
    lemma_reduces_fun(d, app_t(app_t(c, f), m), app_t(app_t(c2, f), m), g);
    lemma_reduces_fun(d, app_t(app_t(app_t(c, f), m), g), app_t(app_t(app_t(c2, f), m), g), l);
    lemma_reduces_fun(d, app_t(app_t(app_t(app_t(c, f), m), g), l), app_t(app_t(app_t(app_t(c2, f), m), g), l), s);
    lemma_reduces_fun(d, app_t(app_t(app_t(app_t(app_t(c, f), m), g), l), s),
        app_t(app_t(app_t(app_t(app_t(c2, f), m), g), l), s), t);
}

/// `br_if`, run with any next code, frames, memory, globals, locals and trace and with a data
/// stack whose top is the number `c` (lowest bit first), goes on at the target of the branch
/// when `c` is not zero, and at the next code when it is zero; either way with the number
/// popped. The blocks' targets refer only to names of `env`, which does not hold `cond`.
#[verifier::spinoff_prover]
#[verifier::rlimit(100)]
pub proof fn lemma_br_if_branches_on_nonzero(
    d: Seq<(Seq<char>, Term)>,
    blocks: Seq<BlockT>,
    depth: nat,
    env: Set<Seq<char>>,
    s: Term,
    c: Seq<bool>,
)
    requires
        eqz_defs(d),
        depth < blocks.len(),
        core_names_in(env),
        jump_targets_scoped(blocks, env),
        !env.contains("cond"@),
        avoids_context(s),
        reduces(d, data_stack::top_t(s), bit_list_t(c)),
    ensures
        reduces(
            d,
            run_t(br_if_t(blocks, depth), v("N"@), v("F"@), v("M"@), v("G"@), v("L"@), s, v("T"@)),
            next_t(
                if bits_value(c) != 0 { app_t(br_t(blocks, depth), v("N"@)) } else { v("N"@) },
                v("F"@), v("M"@), v("G"@), v("L"@), data_stack::pop_t(s), v("T"@),
            ),
        ),
{
    lemma_context_names();
    let br = br_t(blocks, depth);
    let vn = v("N"@);
    let vs = v("S"@);
    // What the branch refers to.
    lemma_br_scoped(blocks, depth, env);
    lemma_scoped_free(br, env);
    assert(!free_names(br).contains("cond"@));
    let sel = select_t(bit_not_t(app_t(var_t("EQZ"@), var_t("cond"@))), vn, app_t(br, vn));
    let exec = execute_next_t();
    let inner = let_t("N"@, sel, exec);
    let body = let_t("cond"@, data_stack::top_t(vs), let_t("S"@, data_stack::pop_t(vs), inner));
    assert(pop_range_t(seq!["cond"@], 0) + seq![("N"@, sel)]
        == seq![("cond"@, data_stack::top_t(vs)), ("S"@, data_stack::pop_t(vs)), ("N"@, sel)]) by {
        reveal_with_fuel(pop_range_t, 3);
        assert(pop_range_t(seq!["cond"@], 1) =~= Seq::<(Seq<char>, Term)>::empty());
        assert(pop_range_t(seq!["cond"@], 0) =~= seq![("cond"@, data_stack::top_t(vs)), ("S"@, data_stack::pop_t(vs))]);
    }
    let defs = seq![("cond"@, data_stack::top_t(vs)), ("S"@, data_stack::pop_t(vs)), ("N"@, sel)];
    assert(lets_t(defs, exec) == body) by {
        reveal_with_fuel(lets_t, 4);
        assert(defs.drop_first().drop_first().drop_first() =~= Seq::<(Seq<char>, Term)>::empty());
        assert(defs.drop_first() =~= seq![("S"@, data_stack::pop_t(vs)), ("N"@, sel)]);
        assert(defs.drop_first().drop_first() =~= seq![("N"@, sel)]);
    }
    let w_t = abs_t("T"@, body);
    let w_s = abs_t("S"@, w_t);
    let w_l = abs_t("L"@, w_s);
    let w_g = abs_t("G"@, w_l);
    let w_m = abs_t("M"@, w_g);
    let w_f = abs_t("F"@, w_m);
    let instr = abs_t("N"@, w_f);
    assert(br_if_t(blocks, depth) == instr);
    // The context names other than the data stack stand for themselves.
    let vf = v("F"@);
    let vm = v("M"@);
    let vg = v("G"@);
    let vl = v("L"@);
    let vt = v("T"@);
    lemma_self_beta(d, "N"@, w_f);
    lemma_reduces_fun(d, app_t(instr, vn), w_f, vf);
    lemma_self_beta(d, "F"@, w_m);
    lemma_reduces_trans(d, app_t(app_t(instr, vn), vf), app_t(w_f, vf), w_m);
    lemma_reduces_fun(d, app_t(app_t(instr, vn), vf), w_m, vm);
    lemma_self_beta(d, "M"@, w_g);
    let e2 = app_t(app_t(app_t(instr, vn), vf), vm);
    lemma_reduces_trans(d, e2, app_t(w_m, vm), w_g);
    lemma_reduces_fun(d, e2, w_g, vg);
    lemma_self_beta(d, "G"@, w_l);
    let e3 = app_t(e2, vg);
    lemma_reduces_trans(d, e3, app_t(w_g, vg), w_l);
    lemma_reduces_fun(d, e3, w_l, vl);
    lemma_self_beta(d, "L"@, w_s);
    let e4 = app_t(e3, vl);
    lemma_reduces_trans(d, e4, app_t(w_l, vl), w_s);
    // The data stack.
    lemma_reduces_fun(d, e4, w_s, s);
    let top = data_stack::top_t(s);
    let pop = data_stack::pop_t(s);
    lemma_stack_subst("S"@, vs, "S"@, s);
    lemma_let_same("S"@, data_stack::pop_t(vs), inner, s);
    lemma_let_other("cond"@, data_stack::top_t(vs), let_t("S"@, data_stack::pop_t(vs), inner), "S"@, s);
    let body1 = let_t("cond"@, top, let_t("S"@, pop, inner));
    assert(subst(body, "S"@, s) == body1);
    assert(free_for(s, "S"@, body));
    assert(subst(w_t, "S"@, s) == abs_t("T"@, body1) && free_for(s, "S"@, w_t)) by {
        reveal_with_fuel(subst, 2);
        reveal_with_fuel(free_for, 2);
    }
    lemma_reduces_beta(d, "S"@, w_t, s);
    let e5 = app_t(e4, s);
    lemma_reduces_trans(d, e5, app_t(w_s, s), abs_t("T"@, body1));
    lemma_reduces_fun(d, e5, abs_t("T"@, body1), vt);
    lemma_self_beta(d, "T"@, body1);
    let e6 = app_t(e5, vt);
    lemma_reduces_trans(d, e6, app_t(abs_t("T"@, body1), vt), body1);
    assert(e6 == run_t(instr, vn, vf, vm, vg, vl, s, vt));
    // The condition.
    lemma_stack_free(s, "S"@);
    lemma_stack_free(s, "N"@);
    lemma_stack_free(s, "cond"@);
    let sel1 = select_t(bit_not_t(app_t(var_t("EQZ"@), top)), vn, app_t(br, vn));
    assert(subst(sel, "cond"@, top) == sel1 && free_for(top, "cond"@, sel)) by {
        lemma_subst_not_free(br, "cond"@, top);
        lemma_free_for_not_free(top, "cond"@, br);
        reveal_with_fuel(subst, 8);
        reveal_with_fuel(free_for, 8);
    }
    assert(subst(exec, "cond"@, top) == exec && free_for(top, "cond"@, exec)) by {
        reveal_with_fuel(subst, 8);
        reveal_with_fuel(free_for, 8);
    }
    lemma_let_other("N"@, sel, exec, "cond"@, top);
    lemma_subst_not_free(s, "cond"@, top);
    lemma_free_for_not_free(top, "cond"@, s);
    lemma_stack_subst("cond"@, s, "cond"@, top);
    lemma_let_other("S"@, pop, inner, "cond"@, top);
    let inner1 = let_t("N"@, sel1, exec);
    lemma_reduces_beta(d, "cond"@, let_t("S"@, pop, inner), top);
    lemma_reduces_trans(d, e6, body1, let_t("S"@, pop, inner1));
    // The popped data stack.
    let exec1 = next_t(vn, vf, vm, vg, vl, pop, vt);
    assert(!free_names(br).contains("S"@) && !free_names(br).contains("N"@)) by {
        reveal_with_fuel(free_names, 9);
    }
    assert(subst(sel1, "S"@, pop) == sel1 && free_for(pop, "S"@, sel1)) by {
        lemma_subst_not_free(br, "S"@, pop);
        lemma_free_for_not_free(pop, "S"@, br);
        lemma_subst_not_free(top, "S"@, pop);
        lemma_free_for_not_free(pop, "S"@, top);
        reveal_with_fuel(subst, 8);
        reveal_with_fuel(free_for, 8);
    }
    assert(subst(exec, "S"@, pop) == exec1 && free_for(pop, "S"@, exec)) by {
        reveal_with_fuel(subst, 8);
        reveal_with_fuel(free_for, 8);
    }
    lemma_let_other("N"@, sel1, exec, "S"@, pop);
    lemma_reduces_beta(d, "S"@, inner1, pop);
    lemma_reduces_trans(d, e6, let_t("S"@, pop, inner1), let_t("N"@, sel1, exec1));
    // The next code.
    let exec2 = next_t(sel1, vf, vm, vg, vl, pop, vt);
    assert(subst(exec1, "N"@, sel1) == exec2 && free_for(sel1, "N"@, exec1)) by {
        lemma_subst_not_free(pop, "N"@, sel1);
        lemma_free_for_not_free(sel1, "N"@, pop);
        reveal_with_fuel(subst, 8);
        reveal_with_fuel(free_for, 8);
    }
    lemma_reduces_beta(d, "N"@, exec1, sel1);
    lemma_reduces_trans(d, e6, let_t("N"@, sel1, exec1), exec2);
    // The test of the popped number.
    let z = bits_value(c) == 0;
    lemma_reduces_arg(d, var_t("EQZ"@), top, bit_list_t(c));
    lemma_eqz_tests_zero(d, c);
    lemma_reduces_trans(d, app_t(var_t("EQZ"@), top), app_t(var_t("EQZ"@), bit_list_t(c)), bit_t(z));
    lemma_not(d, app_t(var_t("EQZ"@), top), z);
    lemma_select(d, bit_not_t(app_t(var_t("EQZ"@), top)), !z, vn, app_t(br, vn));
    let chosen = if !z { app_t(br, vn) } else { vn };
    lemma_next_fun(d, sel1, chosen, vf, vm, vg, vl, pop, vt);
    lemma_reduces_trans(d, e6, exec2, next_t(chosen, vf, vm, vg, vl, pop, vt));
}

} // verus!
