//! What the core definitions compute: bits select, pairs give back their parts, lists give
//! back their head and tail, and a tree read after a write gives back what was written.

use vstd::prelude::*;

use crate::codegen::lambda::reduction::{
    free_for, free_names, lemma_free_for_not_free, lemma_free_for_self, lemma_reduces_beta,
    lemma_reduces_arg, lemma_reduces_def, lemma_reduces_fun, lemma_reduces_trans, lemma_subst_not_free,
    lemma_subst_self, reduces, subst,
};
use crate::codegen::lambda::tree::{idx_be_def_t, ins_be_def_t};
use crate::codegen::lambda::{abs_t, app2_t, app3_t, app_t, bit_t, core_defs_t, list, memory, pair, rec_t, select_t, table, tree, Term};

verus! {

/// The names that the definitions of the prelude bind.
pub open spec fn prelude_binders() -> Set<Seq<char>> {
    set!["x0"@, "x1"@, "first"@, "second"@, "g"@, "head"@, "tail"@, "tree"@, "index"@, "value"@]
}

/// A term none of whose free names is bound inside the prelude, so that the prelude's
/// functions take it as it is.
pub open spec fn hygienic(t: Term) -> bool {
    forall|n: Seq<char>| free_names(t).contains(n) ==> !prelude_binders().contains(n)
}

/// The variables of the bits are different names.
proof fn lemma_bit_names()
    ensures
        "x0"@ != "x1"@,
{
    reveal_strlit("x0");
    reveal_strlit("x1");
    assert("x0"@[1] != "x1"@[1]);
}

/// The bit 0 selects the first of two terms.
pub proof fn lemma_select_0(a: Term, b: Term)
    requires
        hygienic(a),
    ensures
        reduces(core_defs_t(), select_t(Term::Var("0"@), a, b), a),
{
    let d = core_defs_t();
    lemma_bit_names();
    reveal_with_fuel(free_for, 2);
    reveal_with_fuel(subst, 2);
    let body = abs_t("x1"@, Term::Var("x0"@));
    let k = abs_t("x0"@, body);
    assert(d[1] == ("0"@, k));
    lemma_reduces_def(d, 1);
    lemma_reduces_fun(d, Term::Var("0"@), k, a);
    assert(prelude_binders().contains("x1"@));
    assert(!free_names(a).contains("x1"@));
    assert(free_for(a, "x0"@, body));
    lemma_reduces_beta(d, "x0"@, body, a);
    assert(subst(body, "x0"@, a) == abs_t("x1"@, a));
    lemma_reduces_trans(d, app_t(Term::Var("0"@), a), app_t(k, a), abs_t("x1"@, a));
    lemma_reduces_fun(d, app_t(Term::Var("0"@), a), abs_t("x1"@, a), b);
    lemma_free_for_not_free(b, "x1"@, a);
    lemma_reduces_beta(d, "x1"@, a, b);
    lemma_subst_not_free(a, "x1"@, b);
    lemma_reduces_trans(d, select_t(Term::Var("0"@), a, b), app_t(abs_t("x1"@, a), b), a);
}

/// The bit 1 selects the second of two terms.
pub proof fn lemma_select_1(a: Term, b: Term)
    ensures
        reduces(core_defs_t(), select_t(Term::Var("1"@), a, b), b),
{
    let d = core_defs_t();
    lemma_bit_names();
    reveal_with_fuel(free_for, 2);
    reveal_with_fuel(subst, 2);
    let body = abs_t("x1"@, Term::Var("x1"@));
    let k = abs_t("x0"@, body);
    assert(d[2] == ("1"@, k));
    lemma_reduces_def(d, 2);
    lemma_reduces_fun(d, Term::Var("1"@), k, a);
    assert(!free_names(body).contains("x0"@)) by { reveal_with_fuel(free_names, 2); }
    lemma_free_for_not_free(a, "x0"@, body);
    lemma_reduces_beta(d, "x0"@, body, a);
    assert(subst(body, "x0"@, a) == body);
    lemma_reduces_trans(d, app_t(Term::Var("1"@), a), app_t(k, a), body);
    lemma_reduces_fun(d, app_t(Term::Var("1"@), a), body, b);
    assert(free_for(b, "x1"@, Term::Var("x1"@)));
    lemma_reduces_beta(d, "x1"@, Term::Var("x1"@), b);
    lemma_reduces_trans(d, select_t(Term::Var("1"@), a, b), app_t(body, b), b);
}

/// The variables of the pair constructor are different names.
proof fn lemma_pair_names()
    ensures
        "first"@ != "second"@,
        "first"@ != "g"@,
        "second"@ != "g"@,
{
    reveal_strlit("first");
    reveal_strlit("second");
    reveal_strlit("g");
    assert("first"@.len() != "second"@.len());
}

/// The body of the pair constructor `P` after its first two arguments.
pub open spec fn pair_body_t(a: Term, b: Term) -> Term {
    abs_t("g"@, app2_t(Term::Var("g"@), a, b))
}

/// A pair applied to a function applies the function to its two parts.
pub proof fn lemma_pair_apply(a: Term, b: Term, c: Term)
    requires
        hygienic(a),
        hygienic(b),
    ensures
        reduces(core_defs_t(), app_t(pair::new_t(a, b), c), app2_t(c, a, b)),
{
    let d = core_defs_t();
    lemma_pair_names();
    assert(prelude_binders().contains("second"@) && prelude_binders().contains("g"@));
    assert(!free_names(a).contains("second"@) && !free_names(a).contains("g"@));
    assert(!free_names(b).contains("g"@));
    let b1 = abs_t("second"@, pair_body_t(Term::Var("first"@), Term::Var("second"@)));
    let pd = abs_t("first"@, b1);
    assert(d[3] == ("P"@, pd));
    lemma_reduces_def(d, 3);
    let pv = Term::Var("P"@);
    // P a b c reduces to its body with a, b and c in place.
    lemma_reduces_fun(d, pv, pd, a);
    assert(free_for(a, "first"@, b1)) by { reveal_with_fuel(free_for, 5); }
    lemma_reduces_beta(d, "first"@, b1, a);
    let b2 = abs_t("second"@, pair_body_t(a, Term::Var("second"@)));
    assert(subst(b1, "first"@, a) == b2) by { reveal_with_fuel(subst, 6); }
    lemma_reduces_trans(d, app_t(pv, a), app_t(pd, a), b2);
    lemma_reduces_fun(d, app_t(pv, a), b2, b);
    lemma_free_for_not_free(b, "second"@, a);
    assert(free_for(b, "second"@, pair_body_t(a, Term::Var("second"@)))) by { reveal_with_fuel(free_for, 5); }
    lemma_reduces_beta(d, "second"@, pair_body_t(a, Term::Var("second"@)), b);
    lemma_subst_not_free(a, "second"@, b);
    assert(subst(pair_body_t(a, Term::Var("second"@)), "second"@, b) == pair_body_t(a, b)) by { reveal_with_fuel(subst, 6); }
    lemma_reduces_trans(d, pair::new_t(a, b), app_t(b2, b), pair_body_t(a, b));
    lemma_reduces_fun(d, pair::new_t(a, b), pair_body_t(a, b), c);
    lemma_free_for_not_free(c, "g"@, a);
    lemma_free_for_not_free(c, "g"@, b);
    assert(free_for(c, "g"@, app2_t(Term::Var("g"@), a, b))) by { reveal_with_fuel(free_for, 4); }
    lemma_reduces_beta(d, "g"@, app2_t(Term::Var("g"@), a, b), c);
    lemma_subst_not_free(a, "g"@, c);
    lemma_subst_not_free(b, "g"@, c);
    assert(subst(app2_t(Term::Var("g"@), a, b), "g"@, c) == app2_t(c, a, b)) by { reveal_with_fuel(subst, 4); }
    lemma_reduces_trans(d, app_t(pair::new_t(a, b), c), app_t(pair_body_t(a, b), c), app2_t(c, a, b));
}

/// The first part of a pair.
pub proof fn lemma_first(a: Term, b: Term)
    requires
        hygienic(a),
        hygienic(b),
    ensures
        reduces(core_defs_t(), pair::first_t(pair::new_t(a, b)), a),
{
    lemma_pair_apply(a, b, Term::Var("0"@));
    lemma_select_0(a, b);
    lemma_reduces_trans(core_defs_t(), pair::first_t(pair::new_t(a, b)), select_t(Term::Var("0"@), a, b), a);
}

/// The second part of a pair.
pub proof fn lemma_second(a: Term, b: Term)
    requires
        hygienic(a),
        hygienic(b),
    ensures
        reduces(core_defs_t(), pair::second_t(pair::new_t(a, b)), b),
{
    lemma_pair_apply(a, b, Term::Var("1"@));
    lemma_select_1(a, b);
    lemma_reduces_trans(core_defs_t(), pair::second_t(pair::new_t(a, b)), select_t(Term::Var("1"@), a, b), b);
}

/// The names of the core definitions that the prelude's functions refer to are not bound
/// inside the prelude.
pub proof fn lemma_names_hygienic()
    ensures
        hygienic(Term::Var("0"@)),
        hygienic(Term::Var("1"@)),
        hygienic(Term::Var("_"@)),
        hygienic(Term::Var("P"@)),
        hygienic(Term::Var("C"@)),
        hygienic(Term::Var("Empty"@)),
        hygienic(Term::Var("IdxBE_"@)),
        hygienic(Term::Var("InsBE_"@)),
{
    reveal_strlit("x0");
    reveal_strlit("x1");
    reveal_strlit("first");
    reveal_strlit("second");
    reveal_strlit("g");
    reveal_strlit("head");
    reveal_strlit("tail");
    reveal_strlit("tree");
    reveal_strlit("index");
    reveal_strlit("value");
    reveal_strlit("0");
    reveal_strlit("1");
    reveal_strlit("_");
    reveal_strlit("P");
    reveal_strlit("C");
    reveal_strlit("Empty");
    reveal_strlit("IdxBE_");
    reveal_strlit("InsBE_");
    assert("g"@[0] != "0"@[0] && "g"@[0] != "1"@[0] && "g"@[0] != "_"@[0] && "g"@[0] != "P"@[0] && "g"@[0] != "C"@[0]);
    assert("first"@[0] != "Empty"@[0]);
    assert("value"@[0] != "Empty"@[0] && "index"@[0] != "Empty"@[0]);
    assert("second"@[0] != "IdxBE_"@[0] && "second"@[0] != "InsBE_"@[0]);
}

/// An application is hygienic where its parts are.
pub proof fn lemma_app_hygienic(f: Term, a: Term)
    requires
        hygienic(f),
        hygienic(a),
    ensures
        hygienic(app_t(f, a)),
{
}

/// The list node constructor `C` makes an optional pair.
pub proof fn lemma_node(h: Term, tl: Term)
    requires
        hygienic(h),
        hygienic(tl),
    ensures
        reduces(core_defs_t(), list::node_t(h, tl), pair::new_t(Term::Var("1"@), pair::new_t(h, tl))),
{
    let d = core_defs_t();
    reveal_strlit("head");
    reveal_strlit("tail");
    assert("head"@[0] != "tail"@[0]);
    assert(prelude_binders().contains("tail"@));
    assert(!free_names(h).contains("tail"@));
    let inner = pair::new_t(Term::Var("1"@), pair::new_t(Term::Var("head"@), Term::Var("tail"@)));
    let b1 = abs_t("tail"@, inner);
    let cd = abs_t("head"@, b1);
    assert(d[5] == ("C"@, cd));
    lemma_reduces_def(d, 5);
    let cv = Term::Var("C"@);
    lemma_reduces_fun(d, cv, cd, h);
    assert(free_for(h, "head"@, b1)) by { reveal_with_fuel(free_for, 8); }
    lemma_reduces_beta(d, "head"@, b1, h);
    lemma_names_hygienic();
    let inner2 = pair::new_t(Term::Var("1"@), pair::new_t(h, Term::Var("tail"@)));
    reveal_strlit("1");
    reveal_strlit("P");
    assert(subst(b1, "head"@, h) == abs_t("tail"@, inner2)) by { reveal_with_fuel(subst, 8); }
    lemma_reduces_trans(d, app_t(cv, h), app_t(cd, h), abs_t("tail"@, inner2));
    lemma_reduces_fun(d, app_t(cv, h), abs_t("tail"@, inner2), tl);
    lemma_free_for_not_free(tl, "tail"@, h);
    assert(free_for(tl, "tail"@, inner2)) by { reveal_with_fuel(free_for, 8); }
    lemma_reduces_beta(d, "tail"@, inner2, tl);
    lemma_subst_not_free(h, "tail"@, tl);
    assert(subst(inner2, "tail"@, tl) == pair::new_t(Term::Var("1"@), pair::new_t(h, tl))) by { reveal_with_fuel(subst, 8); }
    lemma_reduces_trans(d, list::node_t(h, tl), app_t(abs_t("tail"@, inner2), tl), pair::new_t(Term::Var("1"@), pair::new_t(h, tl)));
}

/// A pair of hygienic parts is hygienic.
pub proof fn lemma_pair_hygienic(a: Term, b: Term)
    requires
        hygienic(a),
        hygienic(b),
    ensures
        hygienic(pair::new_t(a, b)),
{
    lemma_names_hygienic();
    lemma_app_hygienic(Term::Var("P"@), a);
    lemma_app_hygienic(app_t(Term::Var("P"@), a), b);
}

/// A list node is not empty.
pub proof fn lemma_is_not_empty_node(h: Term, tl: Term)
    requires
        hygienic(h),
        hygienic(tl),
    ensures
        reduces(core_defs_t(), list::is_not_empty_t(list::node_t(h, tl)), Term::Var("1"@)),
{
    let d = core_defs_t();
    let x = pair::new_t(h, tl);
    let o = pair::new_t(Term::Var("1"@), x);
    lemma_node(h, tl);
    lemma_reduces_fun(d, list::node_t(h, tl), o, Term::Var("0"@));
    lemma_names_hygienic();
    lemma_pair_hygienic(h, tl);
    lemma_first(Term::Var("1"@), x);
    lemma_reduces_trans(d, list::is_not_empty_t(list::node_t(h, tl)), pair::first_t(o), Term::Var("1"@));
}

/// The empty list is empty.
pub proof fn lemma_is_not_empty_empty()
    ensures
        reduces(core_defs_t(), list::is_not_empty_t(list::empty_t()), Term::Var("0"@)),
{
    let d = core_defs_t();
    let none = pair::new_t(Term::Var("0"@), Term::Var("_"@));
    assert(d[4] == ("Empty"@, none));
    lemma_reduces_def(d, 4);
    lemma_reduces_fun(d, Term::Var("Empty"@), none, Term::Var("0"@));
    lemma_names_hygienic();
    lemma_first(Term::Var("0"@), Term::Var("_"@));
    lemma_reduces_trans(d, list::is_not_empty_t(list::empty_t()), pair::first_t(none), Term::Var("0"@));
}

/// The head of a list node.
pub proof fn lemma_head(h: Term, tl: Term)
    requires
        hygienic(h),
        hygienic(tl),
    ensures
        reduces(core_defs_t(), list::head_t(list::node_t(h, tl)), h),
{
    let d = core_defs_t();
    let x = pair::new_t(h, tl);
    let o = pair::new_t(Term::Var("1"@), x);
    let n = list::node_t(h, tl);
    lemma_node(h, tl);
    lemma_reduces_fun(d, n, o, Term::Var("1"@));
    lemma_names_hygienic();
    lemma_pair_hygienic(h, tl);
    lemma_second(Term::Var("1"@), x);
    lemma_reduces_trans(d, app_t(n, Term::Var("1"@)), pair::second_t(o), x);
    lemma_reduces_fun(d, app_t(n, Term::Var("1"@)), x, Term::Var("0"@));
    lemma_first(h, tl);
    lemma_reduces_trans(d, list::head_t(n), pair::first_t(x), h);
}

/// The tail of a list node.
pub proof fn lemma_tail(h: Term, tl: Term)
    requires
        hygienic(h),
        hygienic(tl),
    ensures
        reduces(core_defs_t(), list::tail_t(list::node_t(h, tl)), tl),
{
    let d = core_defs_t();
    let x = pair::new_t(h, tl);
    let o = pair::new_t(Term::Var("1"@), x);
    let n = list::node_t(h, tl);
    lemma_node(h, tl);
    lemma_reduces_fun(d, n, o, Term::Var("1"@));
    lemma_names_hygienic();
    lemma_pair_hygienic(h, tl);
    lemma_second(Term::Var("1"@), x);
    lemma_reduces_trans(d, app_t(n, Term::Var("1"@)), pair::second_t(o), x);
    lemma_reduces_fun(d, app_t(n, Term::Var("1"@)), x, Term::Var("1"@));
    lemma_second(h, tl);
    lemma_reduces_trans(d, list::tail_t(n), pair::second_t(x), tl);
}

/// Where the definitions of the tree functions stand among the core definitions.
pub open spec fn tree_defs_start() -> int {
    6 + crate::codegen::lambda::number::defs_t().len() as int
}

proof fn lemma_tree_defs()
    ensures
        core_defs_t()[tree_defs_start() + 33] == ("IdxBE_"@, abs_t("IdxBE_"@, idx_be_def_t())),
        core_defs_t()[tree_defs_start() + 34] == ("IdxBE"@, rec_t(Term::Var("IdxBE_"@))),
        core_defs_t()[tree_defs_start() + 36] == ("InsBE_"@, abs_t("InsBE_"@, ins_be_def_t())),
        core_defs_t()[tree_defs_start() + 37] == ("InsBE"@, rec_t(Term::Var("InsBE_"@))),
        core_defs_t()[tree_defs_start() + 35] == ("IdxLE"@, abs_t("tree"@, abs_t("index"@, le_index_body_t()))),
        core_defs_t()[tree_defs_start() + 38] == ("InsLE"@, abs_t("tree"@, abs_t("index"@, abs_t("value"@, le_insert_body_t())))),
        tree_defs_start() + 38 < core_defs_t().len(),
{
    let t = tree::defs_t();
    assert(tree::dummy_defs_t(33).len() == 33);
    assert(t[33] == ("IdxBE_"@, abs_t("IdxBE_"@, idx_be_def_t())));
    assert(t[34] == ("IdxBE"@, rec_t(Term::Var("IdxBE_"@))));
    assert(t[36] == ("InsBE_"@, abs_t("InsBE_"@, ins_be_def_t())));
    assert(t[37] == ("InsBE"@, rec_t(Term::Var("InsBE_"@))));
    assert(t[35] == ("IdxLE"@, abs_t("tree"@, abs_t("index"@, le_index_body_t()))));
    assert(t[38] == ("InsLE"@, abs_t("tree"@, abs_t("index"@, abs_t("value"@, le_insert_body_t())))));
}

/// A recursive function of the prelude calls itself by applying its definition to its name.
proof fn lemma_rec(k: int, f: Seq<char>, body: Term)
    requires
        0 <= k < core_defs_t().len(),
        core_defs_t()[k] == (f, abs_t(f, body)),
    ensures
        reduces(core_defs_t(), rec_t(Term::Var(f)), body),
{
    let d = core_defs_t();
    lemma_reduces_def(d, k);
    lemma_reduces_fun(d, Term::Var(f), abs_t(f, body), Term::Var(f));
    lemma_free_for_self(body, f);
    lemma_reduces_beta(d, f, body, Term::Var(f));
    lemma_subst_self(body, f);
    lemma_reduces_trans(d, rec_t(Term::Var(f)), app_t(abs_t(f, body), Term::Var(f)), body);
}

/// `IdxBE` unfolds to its definition.
pub proof fn lemma_idx_unfold()
    ensures
        reduces(core_defs_t(), rec_t(Term::Var("IdxBE_"@)), idx_be_def_t()),
        reduces(core_defs_t(), Term::Var("IdxBE"@), idx_be_def_t()),
{
    lemma_tree_defs();
    let k = tree_defs_start();
    lemma_rec(k + 33, "IdxBE_"@, idx_be_def_t());
    lemma_reduces_def(core_defs_t(), k + 34);
    lemma_reduces_trans(core_defs_t(), Term::Var("IdxBE"@), rec_t(Term::Var("IdxBE_"@)), idx_be_def_t());
}

/// `InsBE` unfolds to its definition.
pub proof fn lemma_ins_unfold()
    ensures
        reduces(core_defs_t(), rec_t(Term::Var("InsBE_"@)), ins_be_def_t()),
        reduces(core_defs_t(), Term::Var("InsBE"@), ins_be_def_t()),
{
    lemma_tree_defs();
    let k = tree_defs_start();
    lemma_rec(k + 36, "InsBE_"@, ins_be_def_t());
    lemma_reduces_def(core_defs_t(), k + 37);
    lemma_reduces_trans(core_defs_t(), Term::Var("InsBE"@), rec_t(Term::Var("InsBE_"@)), ins_be_def_t());
}

/// The variables of the tree functions are different from each other and from the names
/// their bodies refer to.
proof fn lemma_tree_names()
    ensures
        "tree"@ != "index"@, "tree"@ != "value"@, "index"@ != "value"@,
        "tree"@ != "0"@, "tree"@ != "1"@, "tree"@ != "P"@,
        "index"@ != "0"@, "index"@ != "1"@, "index"@ != "P"@,
        "value"@ != "0"@, "value"@ != "1"@, "value"@ != "P"@,
        "tree"@ != "IdxBE_"@, "index"@ != "IdxBE_"@,
        "tree"@ != "InsBE_"@, "index"@ != "InsBE_"@, "value"@ != "InsBE_"@,
{
    reveal_strlit("tree");
    reveal_strlit("index");
    reveal_strlit("value");
    reveal_strlit("0");
    reveal_strlit("1");
    reveal_strlit("P");
    reveal_strlit("IdxBE_");
    reveal_strlit("InsBE_");
    assert("tree"@[0] != "value"@[0]);
    assert("index"@.len() == 5 && "0"@.len() == 1 && "P"@.len() == 1 && "1"@.len() == 1);
}

/// What `IdxBE` does with a tree and an index: the tree where the index is empty, else the
/// subtree that the head of the index selects, indexed by the tail.
pub open spec fn idx_step_t(t: Term, i: Term) -> Term {
    select_t(
        list::is_not_empty_t(i),
        t,
        app2_t(rec_t(Term::Var("IdxBE_"@)), app_t(t, list::head_t(i)), list::tail_t(i)),
    )
}

/// `IdxBE`'s definition applied to a tree and an index.
#[verifier::spinoff_prover]
#[verifier::rlimit(80)]
proof fn lemma_idx_apply(t: Term, i: Term)
    requires
        hygienic(t),
        hygienic(i),
    ensures
        reduces(core_defs_t(), app2_t(idx_be_def_t(), t, i), idx_step_t(t, i)),
{
    let d = core_defs_t();
    lemma_tree_names();
    assert(prelude_binders().contains("index"@));
    assert(!free_names(t).contains("index"@));
    let idx = Term::Var("index"@);
    let body = idx_step_t(Term::Var("tree"@), idx);
    let body1 = idx_step_t(t, idx);
    assert(idx_be_def_t() == abs_t("tree"@, abs_t("index"@, body)));
    assert(free_for(t, "tree"@, abs_t("index"@, body))) by { reveal_with_fuel(free_for, 14); }
    lemma_reduces_beta(d, "tree"@, abs_t("index"@, body), t);
    assert(subst(abs_t("index"@, body), "tree"@, t) == abs_t("index"@, body1)) by { reveal_with_fuel(subst, 14); }
    lemma_reduces_fun(d, app_t(idx_be_def_t(), t), abs_t("index"@, body1), i);
    lemma_free_for_not_free(i, "index"@, t);
    assert(free_for(i, "index"@, body1)) by { reveal_with_fuel(free_for, 14); }
    lemma_reduces_beta(d, "index"@, body1, i);
    lemma_subst_not_free(t, "index"@, i);
    assert(subst(body1, "index"@, i) == idx_step_t(t, i)) by { reveal_with_fuel(subst, 14); }
    lemma_reduces_trans(d, app2_t(idx_be_def_t(), t, i), app_t(abs_t("index"@, body1), i), idx_step_t(t, i));
}

/// What `InsBE` does with a tree, an index and a value: the value where the index is empty,
/// else the tree with the subtree that the head of the index selects replaced by the value
/// inserted into it at the tail.
pub open spec fn ins_step_t(t: Term, i: Term, v: Term) -> Term {
    let insert = |sub: Term| app3_t(rec_t(Term::Var("InsBE_"@)), sub, list::tail_t(i), v);
    select_t(
        list::is_not_empty_t(i),
        v,
        select_t(
            list::head_t(i),
            tree::node_t(insert(pair::first_t(t)), pair::second_t(t)),
            tree::node_t(pair::first_t(t), insert(pair::second_t(t))),
        ),
    )
}

/// `InsBE`'s definition applied to a tree, an index and a value.
#[verifier::spinoff_prover]
#[verifier::rlimit(80)]
proof fn lemma_ins_apply(t: Term, i: Term, v: Term)
    requires
        hygienic(t),
        hygienic(i),
        hygienic(v),
    ensures
        reduces(core_defs_t(), app3_t(ins_be_def_t(), t, i, v), ins_step_t(t, i, v)),
{
    let d = core_defs_t();
    lemma_tree_names();
    assert(prelude_binders().contains("index"@) && prelude_binders().contains("value"@));
    assert(!free_names(t).contains("index"@) && !free_names(t).contains("value"@));
    assert(!free_names(i).contains("value"@));
    let iv = Term::Var("index"@);
    let vv = Term::Var("value"@);
    let b0 = ins_step_t(Term::Var("tree"@), iv, vv);
    let b1 = ins_step_t(t, iv, vv);
    let b2 = ins_step_t(t, i, vv);
    assert(ins_be_def_t() == abs_t("tree"@, abs_t("index"@, abs_t("value"@, b0))));
    assert(free_for(t, "tree"@, abs_t("index"@, abs_t("value"@, b0)))) by { reveal_with_fuel(free_for, 16); }
    lemma_reduces_beta(d, "tree"@, abs_t("index"@, abs_t("value"@, b0)), t);
    assert(subst(abs_t("index"@, abs_t("value"@, b0)), "tree"@, t) == abs_t("index"@, abs_t("value"@, b1))) by {
        reveal_with_fuel(subst, 16);
    }
    let a1 = app_t(ins_be_def_t(), t);
    lemma_reduces_fun(d, a1, abs_t("index"@, abs_t("value"@, b1)), i);
    lemma_free_for_not_free(i, "index"@, t);
    assert(free_for(i, "index"@, abs_t("value"@, b1))) by { reveal_with_fuel(free_for, 16); }
    lemma_reduces_beta(d, "index"@, abs_t("value"@, b1), i);
    lemma_subst_not_free(t, "index"@, i);
    assert(subst(abs_t("value"@, b1), "index"@, i) == abs_t("value"@, b2)) by { reveal_with_fuel(subst, 16); }
    lemma_reduces_trans(d, app_t(a1, i), app_t(abs_t("index"@, abs_t("value"@, b1)), i), abs_t("value"@, b2));
    lemma_reduces_fun(d, app_t(a1, i), abs_t("value"@, b2), v);
    lemma_free_for_not_free(v, "value"@, t);
    lemma_free_for_not_free(v, "value"@, i);
    assert(free_for(v, "value"@, b2)) by { reveal_with_fuel(free_for, 16); }
    lemma_reduces_beta(d, "value"@, b2, v);
    lemma_subst_not_free(t, "value"@, v);
    lemma_subst_not_free(i, "value"@, v);
    assert(subst(b2, "value"@, v) == ins_step_t(t, i, v)) by { reveal_with_fuel(subst, 16); }
    lemma_reduces_trans(d, app3_t(ins_be_def_t(), t, i, v), app_t(abs_t("value"@, b2), v), ins_step_t(t, i, v));
}

/// Reduction of the function of an application to two arguments.
proof fn lemma_fun2(f: Term, f2: Term, a: Term, b: Term)
    requires
        reduces(core_defs_t(), f, f2),
    ensures
        reduces(core_defs_t(), app2_t(f, a, b), app2_t(f2, a, b)),
{
    lemma_reduces_fun(core_defs_t(), f, f2, a);
    lemma_reduces_fun(core_defs_t(), app_t(f, a), app_t(f2, a), b);
}

/// Reduction of the first of two arguments.
proof fn lemma_arg1(f: Term, a: Term, a2: Term, b: Term)
    requires
        reduces(core_defs_t(), a, a2),
    ensures
        reduces(core_defs_t(), app2_t(f, a, b), app2_t(f, a2, b)),
{
    lemma_reduces_arg(core_defs_t(), f, a, a2);
    lemma_reduces_fun(core_defs_t(), app_t(f, a), app_t(f, a2), b);
}

/// Reduction of the second of two or three arguments.
proof fn lemma_arg2(f: Term, a: Term, b: Term, b2: Term, c: Term)
    requires
        reduces(core_defs_t(), b, b2),
    ensures
        reduces(core_defs_t(), app2_t(f, a, b), app2_t(f, a, b2)),
        reduces(core_defs_t(), app3_t(f, a, b, c), app3_t(f, a, b2, c)),
{
    lemma_reduces_arg(core_defs_t(), app_t(f, a), b, b2);
    lemma_reduces_fun(core_defs_t(), app2_t(f, a, b), app2_t(f, a, b2), c);
}

/// Reduction of the function of an application to three arguments.
proof fn lemma_fun3(f: Term, f2: Term, a: Term, b: Term, c: Term)
    requires
        reduces(core_defs_t(), f, f2),
    ensures
        reduces(core_defs_t(), app3_t(f, a, b, c), app3_t(f2, a, b, c)),
{
    lemma_fun2(f, f2, a, b);
    lemma_reduces_fun(core_defs_t(), app2_t(f, a, b), app2_t(f2, a, b), c);
}

/// A condition that reduces to a bit selects as the bit does.
proof fn lemma_select_by(c: Term, bit: bool, a: Term, b: Term)
    requires
        reduces(core_defs_t(), c, bit_t(bit)),
        hygienic(a),
    ensures
        reduces(core_defs_t(), select_t(c, a, b), if bit { b } else { a }),
{
    lemma_fun2(c, bit_t(bit), a, b);
    if bit {
        lemma_select_1(a, b);
    } else {
        lemma_select_0(a, b);
    }
    lemma_reduces_trans(core_defs_t(), select_t(c, a, b), select_t(bit_t(bit), a, b), if bit { b } else { a });
}

/// The list of the bits, the first bit first: the path from the root of a tree, or a number
/// with its lowest bit first.
pub open spec fn bit_list_t(bits: Seq<bool>) -> Term
    decreases bits.len(),
{
    if bits.len() == 0 {
        list::empty_t()
    } else {
        list::node_t(bit_t(bits[0]), bit_list_t(bits.drop_first()))
    }
}

pub proof fn lemma_bit_hygienic(b: bool)
    ensures
        hygienic(bit_t(b)),
{
    lemma_names_hygienic();
}

pub proof fn lemma_bit_list_hygienic(bits: Seq<bool>)
    ensures
        hygienic(bit_list_t(bits)),
    decreases bits.len(),
{
    lemma_names_hygienic();
    if bits.len() > 0 {
        lemma_bit_list_hygienic(bits.drop_first());
        lemma_bit_hygienic(bits[0]);
        lemma_app_hygienic(Term::Var("C"@), bit_t(bits[0]));
        lemma_app_hygienic(app_t(Term::Var("C"@), bit_t(bits[0])), bit_list_t(bits.drop_first()));
    }
}

/// Inserting `v` into `t` at the index of `bits` with the insertion function `g`.
pub open spec fn insert_with_t(g: Term, t: Term, bits: Seq<bool>, v: Term) -> Term {
    app3_t(g, t, bit_list_t(bits), v)
}

/// The insertion function as the recursive calls refer to it.
pub open spec fn ins_rec_t() -> Term {
    rec_t(Term::Var("InsBE_"@))
}

/// The indexing function as the recursive calls refer to it.
pub open spec fn idx_rec_t() -> Term {
    rec_t(Term::Var("IdxBE_"@))
}

/// One level of an insertion at a nonempty index reduces to the new node: the subtree on the
/// side of the first bit gets the insertion at the rest of the index, the other stays.
#[verifier::spinoff_prover]
#[verifier::rlimit(80)]
proof fn lemma_insert_level(g: Term, t: Term, bits: Seq<bool>, v: Term)
    requires
        bits.len() > 0,
        reduces(core_defs_t(), g, ins_be_def_t()),
        hygienic(t),
        hygienic(v),
    ensures
        reduces(core_defs_t(), insert_with_t(g, t, bits, v), if bits[0] {
            tree::node_t(pair::first_t(t), app3_t(rec_t(Term::Var("InsBE_"@)), pair::second_t(t), list::tail_t(bit_list_t(bits)), v))
        } else {
            tree::node_t(app3_t(rec_t(Term::Var("InsBE_"@)), pair::first_t(t), list::tail_t(bit_list_t(bits)), v), pair::second_t(t))
        }),
{
    let d = core_defs_t();
    let i = bit_list_t(bits);
    let b = bit_t(bits[0]);
    let rest = bit_list_t(bits.drop_first());
    lemma_names_hygienic();
    lemma_bit_list_hygienic(bits);
    lemma_bit_list_hygienic(bits.drop_first());
    lemma_bit_hygienic(bits[0]);
    lemma_fun3(g, ins_be_def_t(), t, i, v);
    lemma_ins_apply(t, i, v);
    lemma_reduces_trans(d, insert_with_t(g, t, bits, v), app3_t(ins_be_def_t(), t, i, v), ins_step_t(t, i, v));
    let insert = |sub: Term| app3_t(rec_t(Term::Var("InsBE_"@)), sub, list::tail_t(i), v);
    let n0 = tree::node_t(insert(pair::first_t(t)), pair::second_t(t));
    let n1 = tree::node_t(pair::first_t(t), insert(pair::second_t(t)));
    let inner = select_t(list::head_t(i), n0, n1);
    lemma_is_not_empty_node(b, rest);
    lemma_select_by(list::is_not_empty_t(i), true, v, inner);
    lemma_reduces_trans(d, insert_with_t(g, t, bits, v), ins_step_t(t, i, v), inner);
    lemma_head(b, rest);
    // The new nodes are hygienic.
    lemma_app_hygienic(Term::Var("InsBE_"@), Term::Var("InsBE_"@));
    lemma_app_hygienic(t, Term::Var("0"@));
    lemma_app_hygienic(t, Term::Var("1"@));
    lemma_app_hygienic(i, Term::Var("1"@));
    lemma_app_hygienic(app_t(i, Term::Var("1"@)), Term::Var("1"@));
    lemma_app_hygienic(rec_t(Term::Var("InsBE_"@)), pair::first_t(t));
    lemma_app_hygienic(app_t(rec_t(Term::Var("InsBE_"@)), pair::first_t(t)), list::tail_t(i));
    lemma_app_hygienic(app2_t(rec_t(Term::Var("InsBE_"@)), pair::first_t(t), list::tail_t(i)), v);
    lemma_pair_hygienic(insert(pair::first_t(t)), pair::second_t(t));
    lemma_select_by(list::head_t(i), bits[0], n0, n1);
    lemma_reduces_trans(d, insert_with_t(g, t, bits, v), inner, if bits[0] { n1 } else { n0 });
}

/// Indexing the insertion of `v` at the index of `bits` with the same index gives `v`, with
/// indexing and insertion functions that reduce to the definitions of `IdxBE` and `InsBE`.
#[verifier::spinoff_prover]
#[verifier::rlimit(80)]
proof fn lemma_index_insert(f: Term, g: Term, t: Term, bits: Seq<bool>, v: Term)
    requires
        reduces(core_defs_t(), f, idx_be_def_t()),
        reduces(core_defs_t(), g, ins_be_def_t()),
        hygienic(g),
        hygienic(t),
        hygienic(v),
    ensures
        reduces(core_defs_t(), app2_t(f, insert_with_t(g, t, bits, v), bit_list_t(bits)), v),
    decreases bits.len(),
{
    let d = core_defs_t();
    let i = bit_list_t(bits);
    let x = insert_with_t(g, t, bits, v);
    let e = app2_t(f, x, i);
    lemma_names_hygienic();
    lemma_bit_list_hygienic(bits);
    lemma_idx_unfold();
    lemma_ins_unfold();
    lemma_app_hygienic(Term::Var("InsBE_"@), Term::Var("InsBE_"@));
    if bits.len() == 0 {
        assert(i == list::empty_t());
        lemma_app_hygienic(g, t);
        lemma_app_hygienic(app_t(g, t), i);
        lemma_app_hygienic(app2_t(g, t, i), v);
        lemma_fun2(f, idx_be_def_t(), x, i);
        lemma_idx_apply(x, i);
        lemma_reduces_trans(d, e, app2_t(idx_be_def_t(), x, i), idx_step_t(x, i));
        lemma_is_not_empty_empty();
        let k = app2_t(idx_rec_t(), app_t(x, list::head_t(i)), list::tail_t(i));
        lemma_select_by(list::is_not_empty_t(i), false, x, k);
        lemma_reduces_trans(d, e, idx_step_t(x, i), x);
        lemma_fun3(g, ins_be_def_t(), t, i, v);
        lemma_ins_apply(t, i, v);
        lemma_reduces_trans(d, x, app3_t(ins_be_def_t(), t, i, v), ins_step_t(t, i, v));
        let insert = |sub: Term| app3_t(ins_rec_t(), sub, list::tail_t(i), v);
        let inner = select_t(
            list::head_t(i),
            tree::node_t(insert(pair::first_t(t)), pair::second_t(t)),
            tree::node_t(pair::first_t(t), insert(pair::second_t(t))),
        );
        lemma_select_by(list::is_not_empty_t(i), false, v, inner);
        lemma_reduces_trans(d, x, ins_step_t(t, i, v), v);
        lemma_reduces_trans(d, e, x, v);
    } else {
        let rest_bits = bits.drop_first();
        let b = bit_t(bits[0]);
        let rest = bit_list_t(rest_bits);
        lemma_bit_list_hygienic(rest_bits);
        lemma_bit_hygienic(bits[0]);
        let t2 = if bits[0] { pair::second_t(t) } else { pair::first_t(t) };
        let tl = list::tail_t(i);
        let ins_l = app3_t(ins_rec_t(), pair::first_t(t), tl, v);
        let ins_r = app3_t(ins_rec_t(), pair::second_t(t), tl, v);
        let left = if bits[0] { pair::first_t(t) } else { ins_l };
        let right = if bits[0] { ins_r } else { pair::second_t(t) };
        let n = tree::node_t(left, right);
        let chosen = if bits[0] { right } else { left };
        // The insertion reduces to the new node.
        lemma_insert_level(g, t, bits, v);
        lemma_arg1(f, x, n, i);
        // Hygiene of the parts.
        lemma_app_hygienic(t, Term::Var("0"@));
        lemma_app_hygienic(t, Term::Var("1"@));
        lemma_app_hygienic(i, Term::Var("1"@));
        lemma_app_hygienic(app_t(i, Term::Var("1"@)), Term::Var("1"@));
        lemma_app_hygienic(ins_rec_t(), t2);
        lemma_app_hygienic(app_t(ins_rec_t(), t2), tl);
        lemma_app_hygienic(app2_t(ins_rec_t(), t2, tl), v);
        lemma_pair_hygienic(left, right);
        // Indexing the node.
        lemma_fun2(f, idx_be_def_t(), n, i);
        lemma_reduces_trans(d, e, app2_t(f, n, i), app2_t(idx_be_def_t(), n, i));
        lemma_idx_apply(n, i);
        lemma_reduces_trans(d, e, app2_t(idx_be_def_t(), n, i), idx_step_t(n, i));
        let k = app2_t(idx_rec_t(), app_t(n, list::head_t(i)), list::tail_t(i));
        lemma_is_not_empty_node(b, rest);
        lemma_select_by(list::is_not_empty_t(i), true, n, k);
        lemma_reduces_trans(d, e, idx_step_t(n, i), k);
        // The head of the index selects the side of the insertion.
        lemma_head(b, rest);
        lemma_reduces_arg(d, n, list::head_t(i), b);
        lemma_pair_apply(left, right, b);
        lemma_reduces_trans(d, app_t(n, list::head_t(i)), app_t(n, b), app2_t(b, left, right));
        lemma_reduces_refl_bit(bits[0]);
        lemma_select_by(b, bits[0], left, right);
        lemma_reduces_trans(d, app_t(n, list::head_t(i)), app2_t(b, left, right), chosen);
        // The tail of the index is the rest.
        lemma_tail(b, rest);
        let next = insert_with_t(ins_rec_t(), t2, rest_bits, v);
        lemma_arg2(ins_rec_t(), t2, tl, rest, v);
        lemma_reduces_trans(d, app_t(n, list::head_t(i)), chosen, next);
        lemma_arg1(idx_rec_t(), app_t(n, list::head_t(i)), next, tl);
        lemma_arg2(idx_rec_t(), next, tl, rest, v);
        lemma_reduces_trans(d, k, app2_t(idx_rec_t(), next, tl), app2_t(idx_rec_t(), next, rest));
        lemma_reduces_trans(d, e, k, app2_t(idx_rec_t(), next, rest));
        // The rest of the index, one level down.
        lemma_app_hygienic(Term::Var("InsBE_"@), Term::Var("InsBE_"@));
        lemma_index_insert(idx_rec_t(), ins_rec_t(), t2, rest_bits, v);
        lemma_reduces_trans(d, e, app2_t(idx_rec_t(), next, rest), v);
    }
}

proof fn lemma_reduces_refl_bit(b: bool)
    ensures
        reduces(core_defs_t(), bit_t(b), bit_t(b)),
{
    crate::codegen::lambda::reduction::lemma_reduces_refl(core_defs_t(), bit_t(b));
}

/// A read after a write: under the core definitions, indexing a tree into which `v` was
/// inserted at an index gives back `v`. The index is the list of the bits of the path from
/// the root, the first bit first (as `Id` numbers are); the tree and the value are any terms
/// whose free names are not bound inside the core definitions.
pub proof fn lemma_table_read_after_write(t: Term, bits: Seq<bool>, v: Term)
    requires
        hygienic(t),
        hygienic(v),
    ensures
        reduces(core_defs_t(), table::index_t(table::insert_t(t, bit_list_t(bits), v), bit_list_t(bits)), v),
{
    lemma_idx_unfold();
    lemma_ins_unfold();
    lemma_ins_name_hygienic();
    lemma_index_insert(Term::Var("IdxBE"@), Term::Var("InsBE"@), t, bits, v);
}

/// The subtree of `t` at the path of `bits`, the first bit first.
pub open spec fn path_t(t: Term, bits: Seq<bool>) -> Term
    decreases bits.len(),
{
    if bits.len() == 0 {
        t
    } else {
        path_t(app_t(t, bit_t(bits[0])), bits.drop_first())
    }
}

/// The first position at which two sequences of bits differ.
pub open spec fn first_diff(a: Seq<bool>, b: Seq<bool>) -> nat
    decreases a.len(),
{
    if a.len() == 0 || b.len() == 0 || a[0] != b[0] {
        0
    } else {
        1 + first_diff(a.drop_first(), b.drop_first())
    }
}

/// One level of indexing: the subtree on the side of the first bit, indexed by the rest.
#[verifier::spinoff_prover]
#[verifier::rlimit(80)]
proof fn lemma_index_level(f: Term, t: Term, bits: Seq<bool>)
    requires
        bits.len() > 0,
        reduces(core_defs_t(), f, idx_be_def_t()),
        hygienic(t),
    ensures
        reduces(core_defs_t(), app2_t(f, t, bit_list_t(bits)),
            app2_t(idx_rec_t(), app_t(t, bit_t(bits[0])), bit_list_t(bits.drop_first()))),
{
    let d = core_defs_t();
    let i = bit_list_t(bits);
    let b = bit_t(bits[0]);
    let rest = bit_list_t(bits.drop_first());
    let e = app2_t(f, t, i);
    lemma_names_hygienic();
    lemma_bit_list_hygienic(bits);
    lemma_bit_list_hygienic(bits.drop_first());
    lemma_bit_hygienic(bits[0]);
    lemma_fun2(f, idx_be_def_t(), t, i);
    lemma_idx_apply(t, i);
    lemma_reduces_trans(d, e, app2_t(idx_be_def_t(), t, i), idx_step_t(t, i));
    let k = app2_t(idx_rec_t(), app_t(t, list::head_t(i)), list::tail_t(i));
    lemma_is_not_empty_node(b, rest);
    lemma_select_by(list::is_not_empty_t(i), true, t, k);
    lemma_reduces_trans(d, e, idx_step_t(t, i), k);
    lemma_head(b, rest);
    lemma_reduces_arg(d, t, list::head_t(i), b);
    lemma_arg1(idx_rec_t(), app_t(t, list::head_t(i)), app_t(t, b), list::tail_t(i));
    lemma_tail(b, rest);
    lemma_arg2(idx_rec_t(), app_t(t, b), list::tail_t(i), rest, rest);
    lemma_reduces_trans(d, k, app2_t(idx_rec_t(), app_t(t, b), list::tail_t(i)), app2_t(idx_rec_t(), app_t(t, b), rest));
    lemma_reduces_trans(d, e, k, app2_t(idx_rec_t(), app_t(t, b), rest));
}

/// Indexing walks down the tree: after the first `k` bits, the subtree at their path is
/// indexed by the rest.
proof fn lemma_index_walk(f: Term, t: Term, bits: Seq<bool>, k: nat)
    requires
        0 < k <= bits.len(),
        reduces(core_defs_t(), f, idx_be_def_t()),
        hygienic(t),
    ensures
        reduces(core_defs_t(), app2_t(f, t, bit_list_t(bits)),
            app2_t(idx_rec_t(), path_t(t, bits.take(k as int)), bit_list_t(bits.skip(k as int)))),
    decreases k,
{
    let d = core_defs_t();
    lemma_index_level(f, t, bits);
    let t1 = app_t(t, bit_t(bits[0]));
    let rest = bits.drop_first();
    assert(bits.take(k as int)[0] == bits[0]);
    assert(bits.take(k as int).drop_first() =~= rest.take(k - 1));
    assert(path_t(t, bits.take(k as int)) == path_t(t1, rest.take(k - 1)));
    assert(rest.skip(k - 1) =~= bits.skip(k as int));
    if k == 1 {
        assert(rest.take(0) =~= Seq::<bool>::empty());
        assert(path_t(t1, rest.take(0)) == t1);
    } else {
        lemma_names_hygienic();
        lemma_bit_hygienic(bits[0]);
        lemma_app_hygienic(t, bit_t(bits[0]));
        lemma_idx_unfold();
        lemma_index_walk(idx_rec_t(), t1, rest, (k - 1) as nat);
        lemma_reduces_trans(d, app2_t(f, t, bit_list_t(bits)), app2_t(idx_rec_t(), t1, bit_list_t(rest)),
            app2_t(idx_rec_t(), path_t(t1, rest.take(k - 1)), bit_list_t(rest.skip(k - 1))));
    }
}

/// Indexing the insertion of `v` at one index with another index of the same length goes down
/// the same subtree as indexing the tree itself: both come to the subtree past the first bit
/// where the indexes differ, indexed by the rest of the index.
#[verifier::spinoff_prover]
#[verifier::rlimit(80)]
proof fn lemma_index_insert_other(f: Term, g: Term, t: Term, bi: Seq<bool>, bj: Seq<bool>, v: Term)
    requires
        bi.len() == bj.len(),
        bi != bj,
        reduces(core_defs_t(), f, idx_be_def_t()),
        reduces(core_defs_t(), g, ins_be_def_t()),
        hygienic(g),
        hygienic(t),
        hygienic(v),
    ensures
        first_diff(bi, bj) < bj.len(),
        reduces(core_defs_t(), app2_t(f, insert_with_t(g, t, bi, v), bit_list_t(bj)),
            app2_t(idx_rec_t(), path_t(t, bj.take(first_diff(bi, bj) + 1 as int)), bit_list_t(bj.skip(first_diff(bi, bj) + 1 as int)))),
    decreases bi.len(),
{
    let d = core_defs_t();
    if bi.len() == 0 {
        assert(bi =~= bj);
    }
    let i = bit_list_t(bi);
    let j = bit_list_t(bj);
    let x = insert_with_t(g, t, bi, v);
    let e = app2_t(f, x, j);
    lemma_names_hygienic();
    lemma_bit_list_hygienic(bi);
    lemma_bit_list_hygienic(bj);
    lemma_idx_unfold();
    lemma_ins_unfold();
    lemma_app_hygienic(Term::Var("InsBE_"@), Term::Var("InsBE_"@));
    let bri = bi.drop_first();
    let brj = bj.drop_first();
    let tl = list::tail_t(i);
    let t2 = if bi[0] { pair::second_t(t) } else { pair::first_t(t) };
    let ins_l = app3_t(ins_rec_t(), pair::first_t(t), tl, v);
    let ins_r = app3_t(ins_rec_t(), pair::second_t(t), tl, v);
    let left = if bi[0] { pair::first_t(t) } else { ins_l };
    let right = if bi[0] { ins_r } else { pair::second_t(t) };
    let n = tree::node_t(left, right);
    lemma_insert_level(g, t, bi, v);
    lemma_arg1(f, x, n, j);
    lemma_app_hygienic(t, Term::Var("0"@));
    lemma_app_hygienic(t, Term::Var("1"@));
    lemma_app_hygienic(i, Term::Var("1"@));
    lemma_app_hygienic(app_t(i, Term::Var("1"@)), Term::Var("1"@));
    lemma_app_hygienic(ins_rec_t(), t2);
    lemma_app_hygienic(app_t(ins_rec_t(), t2), tl);
    lemma_app_hygienic(app2_t(ins_rec_t(), t2, tl), v);
    lemma_pair_hygienic(left, right);
    // Indexing the new node by the first bit of the other index.
    lemma_index_level(f, n, bj);
    lemma_reduces_trans(d, e, app2_t(f, n, j), app2_t(idx_rec_t(), app_t(n, bit_t(bj[0])), bit_list_t(brj)));
    let bjt = bit_t(bj[0]);
    lemma_bit_hygienic(bj[0]);
    lemma_pair_apply(left, right, bjt);
    lemma_reduces_refl_bit(bj[0]);
    lemma_select_by(bjt, bj[0], left, right);
    let chosen = if bj[0] { right } else { left };
    lemma_reduces_trans(d, app_t(n, bjt), app2_t(bjt, left, right), chosen);
    lemma_arg1(idx_rec_t(), app_t(n, bjt), chosen, bit_list_t(brj));
    lemma_reduces_trans(d, e, app2_t(idx_rec_t(), app_t(n, bjt), bit_list_t(brj)), app2_t(idx_rec_t(), chosen, bit_list_t(brj)));
    assert(bj.take(1)[0] == bj[0]);
    assert(bj.take(1).drop_first() =~= Seq::<bool>::empty());
    if bi[0] != bj[0] {
        // The other index leaves the insertion here: it goes on in the untouched subtree.
        assert(first_diff(bi, bj) == 0);
        assert(chosen == app_t(t, bjt));
        assert(path_t(t, bj.take(1)) == path_t(app_t(t, bjt), bj.take(1).drop_first()));
        assert(brj =~= bj.skip(1));
    } else {
        // The same side: the insertion goes on one level down.
        lemma_rests_differ(bi, bj);
        lemma_bit_list_hygienic(bri);
        lemma_bit_hygienic(bi[0]);
        lemma_is_not_empty_node(bit_t(bi[0]), bit_list_t(bri));
        lemma_tail(bit_t(bi[0]), bit_list_t(bri));
        let next = insert_with_t(ins_rec_t(), t2, bri, v);
        lemma_arg2(ins_rec_t(), t2, tl, bit_list_t(bri), v);
        lemma_arg1(idx_rec_t(), chosen, next, bit_list_t(brj));
        lemma_reduces_trans(d, e, app2_t(idx_rec_t(), chosen, bit_list_t(brj)), app2_t(idx_rec_t(), next, bit_list_t(brj)));
        lemma_index_insert_other(idx_rec_t(), ins_rec_t(), t2, bri, brj, v);
        let k2: int = first_diff(bri, brj) as int;
        assert(first_diff(bi, bj) == k2 + 1);
        assert(t2 == app_t(t, bjt));
        assert(bj.take(k2 + 2)[0] == bj[0]);
        assert(bj.take(k2 + 2).drop_first() =~= brj.take(k2 + 1));
        assert(path_t(t, bj.take(k2 + 2)) == path_t(t2, brj.take(k2 + 1)));
        assert(brj.skip(k2 + 1) =~= bj.skip(k2 + 2));
        lemma_reduces_trans(d, e, app2_t(idx_rec_t(), next, bit_list_t(brj)),
            app2_t(idx_rec_t(), path_t(t2, brj.take(k2 + 1)), bit_list_t(brj.skip(k2 + 1))));
    }
}

/// Two different sequences of bits of the same length that start alike differ after.
proof fn lemma_rests_differ(a: Seq<bool>, b: Seq<bool>)
    requires
        a.len() == b.len(),
        a.len() > 0,
        a != b,
        a[0] == b[0],
    ensures
        a.drop_first() != b.drop_first(),
{
    if a.drop_first() =~= b.drop_first() {
        assert forall|k: int| 0 <= k < a.len() implies a[k] == b[k] by {
            if k > 0 {
                assert(a[k] == a.drop_first()[k - 1]);
                assert(b[k] == b.drop_first()[k - 1]);
            }
        }
        assert(a =~= b);
    }
}

/// A write leaves the other slots alone: under the core definitions, indexing a tree into
/// which `v` was inserted at one index, with another index of the same length, reduces to a
/// term to which indexing the tree itself reduces too.
pub proof fn lemma_table_write_elsewhere(t: Term, bi: Seq<bool>, bj: Seq<bool>, v: Term)
    requires
        bi.len() == bj.len(),
        bi != bj,
        hygienic(t),
        hygienic(v),
    ensures
        exists|w: Term|
            reduces(core_defs_t(), table::index_t(table::insert_t(t, bit_list_t(bi), v), bit_list_t(bj)), w)
            && reduces(core_defs_t(), table::index_t(t, bit_list_t(bj)), w),
{
    lemma_idx_unfold();
    lemma_ins_unfold();
    lemma_ins_name_hygienic();
    lemma_index_insert_other(Term::Var("IdxBE"@), Term::Var("InsBE"@), t, bi, bj, v);
    let k = first_diff(bi, bj) + 1;
    lemma_index_walk(Term::Var("IdxBE"@), t, bj, k);
    let w = app2_t(idx_rec_t(), path_t(t, bj.take(k as int)), bit_list_t(bj.skip(k as int)));
    assert(reduces(core_defs_t(), table::index_t(t, bit_list_t(bj)), w));
}

proof fn lemma_ins_name_hygienic()
    ensures
        hygienic(Term::Var("InsBE"@)),
{
    reveal_strlit("InsBE");
    reveal_strlit("x0");
    reveal_strlit("x1");
    reveal_strlit("first");
    reveal_strlit("second");
    reveal_strlit("g");
    reveal_strlit("head");
    reveal_strlit("tail");
    reveal_strlit("tree");
    reveal_strlit("index");
    reveal_strlit("value");
    assert("InsBE"@.len() == 5 && "first"@.len() == 5 && "index"@.len() == 5 && "value"@.len() == 5);
    assert("InsBE"@[0] != "first"@[0] && "InsBE"@[0] != "index"@[0] && "InsBE"@[0] != "value"@[0]);
}

/// The body of `JoinRev` with the list built so far and the rest of the list in place.
pub open spec fn join_rev_body_t(acc: Term, x: Term) -> Term {
    select_t(
        list::is_not_empty_t(x),
        acc,
        app2_t(rec_t(Term::Var("JoinRev"@)), list::node_t(list::head_t(x), acc), list::tail_t(x)),
    )
}

proof fn lemma_join_rev_names()
    ensures
        "tail"@ != "x"@,
        "tail"@ != "0"@, "tail"@ != "1"@, "tail"@ != "C"@, "tail"@ != "JoinRev"@,
        "x"@ != "0"@, "x"@ != "1"@, "x"@ != "C"@, "x"@ != "JoinRev"@, "x"@ != "Empty"@,
        core_defs_t()[7] == ("JoinRev"@, abs_t("JoinRev"@, crate::codegen::lambda::number::join_rev_def_t())),
        core_defs_t()[8] == ("Rev"@, app_t(rec_t(Term::Var("JoinRev"@)), list::empty_t())),
{
    reveal_strlit("tail");
    reveal_strlit("x");
    reveal_strlit("0");
    reveal_strlit("1");
    reveal_strlit("C");
    reveal_strlit("JoinRev");
    reveal_strlit("Empty");
    assert("tail"@.len() == 4 && "x"@.len() == 1 && "JoinRev"@.len() == 7);
    assert("x"@[0] != "0"@[0] && "x"@[0] != "1"@[0] && "x"@[0] != "C"@[0]);
    assert(pair::defs_t().len() == 1 && list::defs_t().len() == 2);
    let n = crate::codegen::lambda::number::defs_t();
    assert(core_defs_t()[7] == n[1]);
    assert(core_defs_t()[8] == n[2]);
}

/// Substitution goes into the parts of the body of `JoinRev`, which binds nothing.
#[verifier::spinoff_prover]
#[verifier::rlimit(40)]
proof fn lemma_join_rev_body_subst(acc: Term, x: Term, n: Seq<char>, v: Term)
    requires
        n != "0"@, n != "1"@, n != "C"@, n != "JoinRev"@,
    ensures
        subst(join_rev_body_t(acc, x), n, v) == join_rev_body_t(subst(acc, n, v), subst(x, n, v)),
        free_for(v, n, join_rev_body_t(acc, x)) == (free_for(v, n, acc) && free_for(v, n, x)),
{
    reveal_with_fuel(subst, 8);
    reveal_with_fuel(free_for, 8);
}

/// `JoinRev` applied to a list built so far and a list reduces to its body with them in place.
#[verifier::spinoff_prover]
#[verifier::rlimit(40)]
proof fn lemma_join_rev_apply(acc: Seq<bool>, xs: Seq<bool>)
    ensures
        reduces(
            core_defs_t(),
            app2_t(rec_t(Term::Var("JoinRev"@)), bit_list_t(acc), bit_list_t(xs)),
            join_rev_body_t(bit_list_t(acc), bit_list_t(xs)),
        ),
{
    let d = core_defs_t();
    lemma_join_rev_names();
    let at = bit_list_t(acc);
    let xt = bit_list_t(xs);
    let vt = Term::Var("tail"@);
    let vx = Term::Var("x"@);
    let j = crate::codegen::lambda::number::join_rev_def_t();
    assert(j == abs_t("tail"@, abs_t("x"@, join_rev_body_t(vt, vx))));
    lemma_rec(7, "JoinRev"@, j);
    lemma_fun2(rec_t(Term::Var("JoinRev"@)), j, at, xt);
    lemma_bit_list_hygienic(acc);
    lemma_bit_list_hygienic(xs);
    assert(prelude_binders().contains("tail"@));
    lemma_bit_list_free_names(acc);
    lemma_bit_list_free_names(xs);
    assert(!free_names(at).contains("x"@));
    // The list built so far.
    lemma_join_rev_body_subst(vt, vx, "tail"@, at);
    assert(free_for(at, "tail"@, abs_t("x"@, join_rev_body_t(vt, vx))));
    assert(subst(abs_t("x"@, join_rev_body_t(vt, vx)), "tail"@, at) == abs_t("x"@, join_rev_body_t(at, vx)));
    lemma_reduces_beta(d, "tail"@, abs_t("x"@, join_rev_body_t(vt, vx)), at);
    lemma_reduces_fun(d, app_t(j, at), abs_t("x"@, join_rev_body_t(at, vx)), xt);
    // The rest of the list.
    lemma_join_rev_body_subst(at, vx, "x"@, xt);
    lemma_free_for_not_free(xt, "x"@, at);
    lemma_subst_not_free(at, "x"@, xt);
    lemma_reduces_beta(d, "x"@, join_rev_body_t(at, vx), xt);
    lemma_reduces_trans(d, app2_t(j, at, xt), app_t(abs_t("x"@, join_rev_body_t(at, vx)), xt), join_rev_body_t(at, xt));
    lemma_reduces_trans(d, app2_t(rec_t(Term::Var("JoinRev"@)), at, xt), app2_t(j, at, xt), join_rev_body_t(at, xt));
}

/// The free names of a list of bits are those of the list constructors and of the bits.
pub proof fn lemma_bit_list_free_names(bits: Seq<bool>)
    ensures
        forall|n: Seq<char>| free_names(bit_list_t(bits)).contains(n) ==> (n == "C"@ || n == "Empty"@ || n == "0"@ || n == "1"@),
    decreases bits.len(),
{
    if bits.len() > 0 {
        lemma_bit_list_free_names(bits.drop_first());
        let h = bit_t(bits[0]);
        let r = bit_list_t(bits.drop_first());
        let c = Term::Var("C"@);
        assert(bit_list_t(bits) == app_t(app_t(c, h), r));
        assert(free_names(h) == set![if bits[0] { "1"@ } else { "0"@ }]);
        assert(free_names(app_t(c, h)) == free_names(c) + free_names(h));
        assert(free_names(app_t(app_t(c, h), r)) == free_names(app_t(c, h)) + free_names(r));
        assert forall|n: Seq<char>| free_names(bit_list_t(bits)).contains(n) implies (n == "C"@ || n == "Empty"@ || n == "0"@ || n == "1"@) by {
            if free_names(r).contains(n) {
            } else if free_names(h).contains(n) {
            } else {
                assert(free_names(c).contains(n));
            }
        }
    }
}

/// `JoinRev` puts the bits of a list, last first, in front of the list built so far.
proof fn lemma_join_rev(acc: Seq<bool>, xs: Seq<bool>)
    ensures
        reduces(
            core_defs_t(),
            app2_t(rec_t(Term::Var("JoinRev"@)), bit_list_t(acc), bit_list_t(xs)),
            bit_list_t(xs.reverse() + acc),
        ),
    decreases xs.len(),
{
    let d = core_defs_t();
    let at = bit_list_t(acc);
    let xt = bit_list_t(xs);
    let start = app2_t(rec_t(Term::Var("JoinRev"@)), at, xt);
    let next = app2_t(rec_t(Term::Var("JoinRev"@)), list::node_t(list::head_t(xt), at), list::tail_t(xt));
    lemma_join_rev_apply(acc, xs);
    lemma_bit_list_hygienic(acc);
    lemma_bit_list_hygienic(xs);
    lemma_names_hygienic();
    if xs.len() == 0 {
        lemma_is_not_empty_empty();
        lemma_select_by(list::is_not_empty_t(xt), false, at, next);
        lemma_reduces_trans(d, start, join_rev_body_t(at, xt), at);
        assert(xs.reverse() + acc =~= acc);
    } else {
        let x0 = xs[0];
        let rest = xs.drop_first();
        lemma_bit_hygienic(x0);
        lemma_bit_list_hygienic(rest);
        assert(xt == list::node_t(bit_t(x0), bit_list_t(rest)));
        lemma_is_not_empty_node(bit_t(x0), bit_list_t(rest));
        lemma_select_by(list::is_not_empty_t(xt), true, at, next);
        lemma_head(bit_t(x0), bit_list_t(rest));
        lemma_tail(bit_t(x0), bit_list_t(rest));
        let acc1 = seq![x0] + acc;
        assert(acc1.drop_first() =~= acc);
        assert(bit_list_t(acc1) == list::node_t(bit_t(x0), at));
        lemma_arg1(Term::Var("C"@), list::head_t(xt), bit_t(x0), at);
        lemma_arg1(rec_t(Term::Var("JoinRev"@)), list::node_t(list::head_t(xt), at), bit_list_t(acc1), list::tail_t(xt));
        lemma_reduces_arg(d, app_t(rec_t(Term::Var("JoinRev"@)), bit_list_t(acc1)), list::tail_t(xt), bit_list_t(rest));
        lemma_reduces_trans(d, next, app2_t(rec_t(Term::Var("JoinRev"@)), bit_list_t(acc1), list::tail_t(xt)),
            app2_t(rec_t(Term::Var("JoinRev"@)), bit_list_t(acc1), bit_list_t(rest)));
        lemma_join_rev(acc1, rest);
        assert(rest.reverse() + acc1 =~= xs.reverse() + acc);
        lemma_reduces_trans(d, next, app2_t(rec_t(Term::Var("JoinRev"@)), bit_list_t(acc1), bit_list_t(rest)),
            bit_list_t(xs.reverse() + acc));
        lemma_reduces_trans(d, start, join_rev_body_t(at, xt), next);
        lemma_reduces_trans(d, start, next, bit_list_t(xs.reverse() + acc));
    }
}

/// `Rev` reverses a list of bits.
pub proof fn lemma_rev(bits: Seq<bool>)
    ensures
        reduces(core_defs_t(), app_t(Term::Var("Rev"@), bit_list_t(bits)), bit_list_t(bits.reverse())),
{
    let d = core_defs_t();
    lemma_join_rev_names();
    let r = app_t(rec_t(Term::Var("JoinRev"@)), list::empty_t());
    lemma_reduces_def(d, 8);
    lemma_reduces_fun(d, Term::Var("Rev"@), r, bit_list_t(bits));
    lemma_join_rev(seq![], bits);
    assert(bit_list_t(seq![]) == list::empty_t());
    assert(bits.reverse() + seq![] =~= bits.reverse());
    lemma_reduces_trans(d, app_t(Term::Var("Rev"@), bit_list_t(bits)), app_t(r, bit_list_t(bits)), bit_list_t(bits.reverse()));
}

/// The body of `IdxLE`: `IdxBE` at the reversed index.
pub open spec fn le_index_body_t() -> Term {
    app2_t(idx_rec_t(), Term::Var("tree"@), app_t(Term::Var("Rev"@), Term::Var("index"@)))
}

/// The body of `InsLE`: `InsBE` at the reversed index.
pub open spec fn le_insert_body_t() -> Term {
    app3_t(ins_rec_t(), Term::Var("tree"@), app_t(Term::Var("Rev"@), Term::Var("index"@)), Term::Var("value"@))
}

proof fn lemma_le_names()
    ensures
        "tree"@ != "Rev"@, "index"@ != "Rev"@, "value"@ != "Rev"@,
        "tree"@ != "IdxBE_"@, "index"@ != "IdxBE_"@, "value"@ != "IdxBE_"@,
        "tree"@ != "InsBE_"@, "index"@ != "InsBE_"@, "value"@ != "InsBE_"@,
        "tree"@ != "index"@, "tree"@ != "value"@, "index"@ != "value"@,
        hygienic(Term::Var("InsLE"@)),
        hygienic(Term::Var("Rev"@)),
{
    lemma_tree_names();
    reveal_strlit("Rev");
    reveal_strlit("InsLE");
    reveal_strlit("tree");
    reveal_strlit("index");
    reveal_strlit("value");
    reveal_strlit("IdxBE_");
    reveal_strlit("InsBE_");
    reveal_strlit("x0");
    reveal_strlit("x1");
    reveal_strlit("first");
    reveal_strlit("second");
    reveal_strlit("g");
    reveal_strlit("head");
    reveal_strlit("tail");
    assert("Rev"@.len() == 3 && "value"@.len() == 5 && "value"@[0] != "InsBE_"@[0] && "value"@[0] != "IdxBE_"@[0]);
    assert("InsLE"@[0] != "first"@[0] && "InsLE"@[0] != "index"@[0] && "InsLE"@[0] != "value"@[0]);
    assert("InsLE"@.len() == 5 && "first"@.len() == 5 && "index"@.len() == 5);
}

/// `IdxLE` applied to a memory and an address indexes it with `IdxBE` at the reversed address.
#[verifier::spinoff_prover]
#[verifier::rlimit(40)]
proof fn lemma_le_index_apply(m: Term, a: Term)
    requires
        hygienic(m),
        hygienic(a),
    ensures
        reduces(core_defs_t(), memory::index_t(m, a), app2_t(idx_rec_t(), m, app_t(Term::Var("Rev"@), a))),
{
    let d = core_defs_t();
    lemma_le_names();
    lemma_tree_defs();
    let body = le_index_body_t();
    let lam = abs_t("tree"@, abs_t("index"@, body));
    lemma_reduces_def(d, tree_defs_start() + 35);
    lemma_fun2(Term::Var("IdxLE"@), lam, m, a);
    assert(prelude_binders().contains("index"@));
    assert(!free_names(m).contains("index"@));
    let body1 = app2_t(idx_rec_t(), m, app_t(Term::Var("Rev"@), Term::Var("index"@)));
    assert(free_for(m, "tree"@, abs_t("index"@, body))) by { reveal_with_fuel(free_for, 6); }
    assert(subst(abs_t("index"@, body), "tree"@, m) == abs_t("index"@, body1)) by { reveal_with_fuel(subst, 6); }
    lemma_reduces_beta(d, "tree"@, abs_t("index"@, body), m);
    lemma_reduces_fun(d, app_t(lam, m), abs_t("index"@, body1), a);
    lemma_free_for_not_free(a, "index"@, m);
    lemma_subst_not_free(m, "index"@, a);
    assert(free_for(a, "index"@, body1)) by { reveal_with_fuel(free_for, 6); }
    assert(subst(body1, "index"@, a) == app2_t(idx_rec_t(), m, app_t(Term::Var("Rev"@), a))) by { reveal_with_fuel(subst, 6); }
    lemma_reduces_beta(d, "index"@, body1, a);
    lemma_reduces_trans(d, app2_t(lam, m, a), app_t(abs_t("index"@, body1), a), app2_t(idx_rec_t(), m, app_t(Term::Var("Rev"@), a)));
    lemma_reduces_trans(d, memory::index_t(m, a), app2_t(lam, m, a), app2_t(idx_rec_t(), m, app_t(Term::Var("Rev"@), a)));
}

/// `InsLE` applied to a memory, an address and a value inserts with `InsBE` at the reversed
/// address.
#[verifier::spinoff_prover]
#[verifier::rlimit(40)]
proof fn lemma_le_insert_apply(t: Term, a: Term, v: Term)
    requires
        hygienic(t),
        hygienic(a),
        hygienic(v),
    ensures
        reduces(core_defs_t(), memory::insert_t(t, a, v), app3_t(ins_rec_t(), t, app_t(Term::Var("Rev"@), a), v)),
{
    let d = core_defs_t();
    lemma_le_names();
    lemma_tree_defs();
    let rv = |x: Term| app_t(Term::Var("Rev"@), x);
    let body = le_insert_body_t();
    let lam = abs_t("tree"@, abs_t("index"@, abs_t("value"@, body)));
    lemma_reduces_def(d, tree_defs_start() + 38);
    lemma_fun3(Term::Var("InsLE"@), lam, t, a, v);
    assert(prelude_binders().contains("index"@) && prelude_binders().contains("value"@));
    assert(!free_names(t).contains("index"@) && !free_names(t).contains("value"@));
    assert(!free_names(a).contains("value"@));
    // The memory.
    let b1 = app3_t(ins_rec_t(), t, rv(Term::Var("index"@)), Term::Var("value"@));
    assert(free_for(t, "tree"@, abs_t("index"@, abs_t("value"@, body)))) by { reveal_with_fuel(free_for, 8); }
    assert(subst(abs_t("index"@, abs_t("value"@, body)), "tree"@, t) == abs_t("index"@, abs_t("value"@, b1))) by { reveal_with_fuel(subst, 8); }
    lemma_reduces_beta(d, "tree"@, abs_t("index"@, abs_t("value"@, body)), t);
    lemma_fun2(app_t(lam, t), abs_t("index"@, abs_t("value"@, b1)), a, v);
    // The address.
    let b2 = app3_t(ins_rec_t(), t, rv(a), Term::Var("value"@));
    lemma_free_for_not_free(a, "index"@, t);
    lemma_subst_not_free(t, "index"@, a);
    assert(free_for(a, "index"@, abs_t("value"@, b1))) by { reveal_with_fuel(free_for, 8); }
    assert(subst(abs_t("value"@, b1), "index"@, a) == abs_t("value"@, b2)) by { reveal_with_fuel(subst, 8); }
    lemma_reduces_beta(d, "index"@, abs_t("value"@, b1), a);
    lemma_reduces_fun(d, app_t(abs_t("index"@, abs_t("value"@, b1)), a), abs_t("value"@, b2), v);
    // The value.
    lemma_free_for_not_free(v, "value"@, t);
    lemma_free_for_not_free(v, "value"@, a);
    lemma_subst_not_free(t, "value"@, v);
    lemma_subst_not_free(a, "value"@, v);
    assert(free_for(v, "value"@, b2)) by { reveal_with_fuel(free_for, 8); }
    assert(subst(b2, "value"@, v) == app3_t(ins_rec_t(), t, rv(a), v)) by { reveal_with_fuel(subst, 8); }
    lemma_reduces_beta(d, "value"@, b2, v);
    let e0 = memory::insert_t(t, a, v);
    let e1 = app3_t(lam, t, a, v);
    let e2 = app2_t(abs_t("index"@, abs_t("value"@, b1)), a, v);
    let e3 = app_t(abs_t("value"@, b2), v);
    lemma_reduces_trans(d, e0, e1, e2);
    lemma_reduces_trans(d, e0, e2, e3);
    lemma_reduces_trans(d, e0, e3, app3_t(ins_rec_t(), t, rv(a), v));
}

/// Reading the main memory at an address after a write there gives back what was written.
/// The address is the list of its bits, the lowest first; the memory and the value are any
/// terms whose free names are not bound inside the core definitions.
pub proof fn lemma_memory_read_after_write(t: Term, bits: Seq<bool>, v: Term)
    requires
        hygienic(t),
        hygienic(v),
    ensures
        reduces(core_defs_t(), memory::index_t(memory::insert_t(t, bit_list_t(bits), v), bit_list_t(bits)), v),
{
    let d = core_defs_t();
    let a = bit_list_t(bits);
    let rb = bits.reverse();
    let r = bit_list_t(rb);
    let rv = app_t(Term::Var("Rev"@), a);
    let g = ins_rec_t();
    let m = memory::insert_t(t, a, v);
    lemma_le_names();
    lemma_names_hygienic();
    lemma_bit_list_hygienic(bits);
    lemma_app_hygienic(Term::Var("InsLE"@), t);
    lemma_app_hygienic(app_t(Term::Var("InsLE"@), t), a);
    lemma_app_hygienic(app2_t(Term::Var("InsLE"@), t, a), v);
    lemma_le_index_apply(m, a);
    lemma_le_insert_apply(t, a, v);
    lemma_rev(bits);
    lemma_arg2(g, t, rv, r, v);
    lemma_reduces_trans(d, m, app3_t(g, t, rv, v), insert_with_t(g, t, rb, v));
    lemma_arg1(idx_rec_t(), m, insert_with_t(g, t, rb, v), rv);
    lemma_reduces_arg(d, app_t(idx_rec_t(), insert_with_t(g, t, rb, v)), rv, r);
    lemma_reduces_trans(d, app2_t(idx_rec_t(), m, rv), app2_t(idx_rec_t(), insert_with_t(g, t, rb, v), rv),
        app2_t(idx_rec_t(), insert_with_t(g, t, rb, v), r));
    lemma_idx_unfold();
    lemma_ins_unfold();
    lemma_app_hygienic(Term::Var("InsBE_"@), Term::Var("InsBE_"@));
    lemma_index_insert(idx_rec_t(), g, t, rb, v);
    lemma_reduces_trans(d, memory::index_t(m, a), app2_t(idx_rec_t(), m, rv), app2_t(idx_rec_t(), insert_with_t(g, t, rb, v), r));
    lemma_reduces_trans(d, memory::index_t(m, a), app2_t(idx_rec_t(), insert_with_t(g, t, rb, v), r), v);
}

/// Reading the main memory at an address after a write at another address of the same width
/// reduces to what reading the memory there before the write reduces to.
pub proof fn lemma_memory_write_elsewhere(t: Term, bi: Seq<bool>, bj: Seq<bool>, v: Term)
    requires
        bi.len() == bj.len(),
        bi != bj,
        hygienic(t),
        hygienic(v),
    ensures
        exists|w: Term|
            reduces(core_defs_t(), memory::index_t(memory::insert_t(t, bit_list_t(bi), v), bit_list_t(bj)), w)
            && reduces(core_defs_t(), memory::index_t(t, bit_list_t(bj)), w),
{
    let d = core_defs_t();
    let ai = bit_list_t(bi);
    let aj = bit_list_t(bj);
    let ri = bi.reverse();
    let rj = bj.reverse();
    assert(ri.reverse() =~= bi);
    assert(rj.reverse() =~= bj);
    let rvi = app_t(Term::Var("Rev"@), ai);
    let rvj = app_t(Term::Var("Rev"@), aj);
    let g = ins_rec_t();
    let f = idx_rec_t();
    let m = memory::insert_t(t, ai, v);
    let mi = insert_with_t(g, t, ri, v);
    lemma_le_names();
    lemma_names_hygienic();
    lemma_bit_list_hygienic(bi);
    lemma_bit_list_hygienic(bj);
    lemma_app_hygienic(Term::Var("InsLE"@), t);
    lemma_app_hygienic(app_t(Term::Var("InsLE"@), t), ai);
    lemma_app_hygienic(app2_t(Term::Var("InsLE"@), t, ai), v);
    // After the write: the insertion at the reversed address, indexed at the other one.
    lemma_le_index_apply(m, aj);
    lemma_le_insert_apply(t, ai, v);
    lemma_rev(bi);
    lemma_rev(bj);
    lemma_arg2(g, t, rvi, bit_list_t(ri), v);
    lemma_reduces_trans(d, m, app3_t(g, t, rvi, v), mi);
    lemma_arg1(f, m, mi, rvj);
    lemma_reduces_arg(d, app_t(f, mi), rvj, bit_list_t(rj));
    lemma_reduces_trans(d, app2_t(f, m, rvj), app2_t(f, mi, rvj), app2_t(f, mi, bit_list_t(rj)));
    lemma_reduces_trans(d, memory::index_t(m, aj), app2_t(f, m, rvj), app2_t(f, mi, bit_list_t(rj)));
    lemma_idx_unfold();
    lemma_ins_unfold();
    lemma_app_hygienic(Term::Var("InsBE_"@), Term::Var("InsBE_"@));
    lemma_index_insert_other(f, g, t, ri, rj, v);
    let k = first_diff(ri, rj) + 1;
    let w = app2_t(idx_rec_t(), path_t(t, rj.take(k as int)), bit_list_t(rj.skip(k as int)));
    lemma_reduces_trans(d, memory::index_t(m, aj), app2_t(f, mi, bit_list_t(rj)), w);
    // Before the write: the memory indexed at the reversed address.
    lemma_le_index_apply(t, aj);
    lemma_reduces_arg(d, app_t(f, t), rvj, bit_list_t(rj));
    lemma_reduces_trans(d, memory::index_t(t, aj), app2_t(f, t, rvj), app2_t(f, t, bit_list_t(rj)));
    lemma_index_walk(f, t, rj, k);
    lemma_reduces_trans(d, memory::index_t(t, aj), app2_t(f, t, bit_list_t(rj)), w);
}

/// Reversing a list of bits twice gives it back.
pub proof fn lemma_rev_twice(bits: Seq<bool>)
    ensures
        reduces(core_defs_t(), app_t(Term::Var("Rev"@), app_t(Term::Var("Rev"@), bit_list_t(bits))), bit_list_t(bits)),
{
    let d = core_defs_t();
    let inner = app_t(Term::Var("Rev"@), bit_list_t(bits));
    lemma_rev(bits);
    lemma_reduces_arg(d, Term::Var("Rev"@), inner, bit_list_t(bits.reverse()));
    lemma_rev(bits.reverse());
    assert(bits.reverse().reverse() =~= bits);
    lemma_reduces_trans(d, app_t(Term::Var("Rev"@), inner), app_t(Term::Var("Rev"@), bit_list_t(bits.reverse())), bit_list_t(bits));
}

} // verus!
