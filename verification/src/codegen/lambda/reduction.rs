//! What lambda terms compute: reduction under the definitions of a prelude.
//!
//! A step replaces a defined name by its definition, or an abstraction applied to an argument
//! by its body with the argument in place of the variable. A substitution step is taken only
//! where no free name of the argument would be captured by a binder of the body: every step
//! is a step of beta reduction of the `let` chain that the definitions stand for.

use vstd::prelude::*;

use crate::codegen::lambda::{abs_t, app_t, Term};

verus! {

/// The names that occur free in a term.
pub open spec fn free_names(t: Term) -> Set<Seq<char>>
    decreases t,
{
    match t {
        Term::Var(x) => set![x],
        Term::Abs(x, b) => free_names(*b).remove(x),
        Term::App(f, a) => free_names(*f) + free_names(*a),
    }
}

/// The names that a term binds somewhere inside it.
pub open spec fn bound_names(t: Term) -> Set<Seq<char>>
    decreases t,
{
    match t {
        Term::Var(_) => Set::empty(),
        Term::Abs(x, b) => bound_names(*b).insert(x),
        Term::App(f, a) => bound_names(*f) + bound_names(*a),
    }
}

/// `t` with `a` in place of the free occurrences of `x`.
pub open spec fn subst(t: Term, x: Seq<char>, a: Term) -> Term
    decreases t,
{
    match t {
        Term::Var(y) => if y == x { a } else { t },
        Term::Abs(y, b) => if y == x { t } else { abs_t(y, subst(*b, x, a)) },
        Term::App(f, g) => app_t(subst(*f, x, a), subst(*g, x, a)),
    }
}

/// Whether `a` can be put in place of `x` in `t` without a free name of `a` being captured:
/// no binder above a free occurrence of `x` binds a free name of `a`.
pub open spec fn free_for(a: Term, x: Seq<char>, t: Term) -> bool
    decreases t,
{
    match t {
        Term::Var(_) => true,
        Term::Abs(y, b) => y == x || ((!free_names(*b).contains(x) || !free_names(a).contains(y)) && free_for(a, x, *b)),
        Term::App(f, g) => free_for(a, x, *f) && free_for(a, x, *g),
    }
}

/// One step of reduction under the definitions `defs`.
pub open spec fn step(defs: Seq<(Seq<char>, Term)>, t: Term, u: Term) -> bool
    decreases t,
{
    match t {
        Term::Var(x) => defs.contains((x, u)),
        Term::Abs(x, b) => (u matches Term::Abs(y, c) && y == x && step(defs, *b, *c)),
        Term::App(f, a) => {
            ||| (match *f {
                Term::Abs(x, b) => free_for(*a, x, *b) && u == subst(*b, x, *a),
                _ => false,
            })
            ||| (u matches Term::App(f2, a2) && *a2 == *a && step(defs, *f, *f2))
            ||| (u matches Term::App(f2, a2) && *f2 == *f && step(defs, *a, *a2))
        },
    }
}

/// Whether each term of `p` steps to the next one.
pub open spec fn path_ok(defs: Seq<(Seq<char>, Term)>, p: Seq<Term>) -> bool {
    forall|i: int| 0 <= i < p.len() - 1 ==> step(defs, #[trigger] p[i], p[i + 1])
}

/// `t` reduces to `u` in some number of steps under the definitions `defs`.
pub open spec fn reduces(defs: Seq<(Seq<char>, Term)>, t: Term, u: Term) -> bool {
    exists|p: Seq<Term>| p.len() > 0 && p[0] == t && p.last() == u && path_ok(defs, p)
}

pub proof fn lemma_reduces_refl(defs: Seq<(Seq<char>, Term)>, t: Term)
    ensures
        reduces(defs, t, t),
{
    let p = seq![t];
    assert(p.len() > 0 && p[0] == t && p.last() == t && path_ok(defs, p));
}

pub proof fn lemma_reduces_step(defs: Seq<(Seq<char>, Term)>, t: Term, u: Term)
    requires
        step(defs, t, u),
    ensures
        reduces(defs, t, u),
{
    let p = seq![t, u];
    assert(path_ok(defs, p)) by {
        assert forall|i: int| 0 <= i < p.len() - 1 implies step(defs, #[trigger] p[i], p[i + 1]) by {
            assert(i == 0);
        }
    }
    assert(p.len() > 0 && p[0] == t && p.last() == u);
}

pub proof fn lemma_reduces_trans(defs: Seq<(Seq<char>, Term)>, t: Term, u: Term, w: Term)
    requires
        reduces(defs, t, u),
        reduces(defs, u, w),
    ensures
        reduces(defs, t, w),
{
    let p = choose|p: Seq<Term>| p.len() > 0 && p[0] == t && p.last() == u && path_ok(defs, p);
    let q = choose|q: Seq<Term>| q.len() > 0 && q[0] == u && q.last() == w && path_ok(defs, q);
    let r = p + q.drop_first();
    assert(path_ok(defs, r)) by {
        assert forall|i: int| 0 <= i < r.len() - 1 implies step(defs, #[trigger] r[i], r[i + 1]) by {
            if i < p.len() - 1 {
                assert(r[i] == p[i] && r[i + 1] == p[i + 1]);
            } else {
                let j = i - (p.len() - 1);
                assert(r[i] == q[j]);
                assert(r[i + 1] == q[j + 1]);
            }
        }
    }
    if q.len() == 1 {
        assert(r.last() == p.last());
    } else {
        assert(r.last() == q.last());
    }
    assert(r.len() > 0 && r[0] == t);
}

/// Reduction inside the function of an application.
pub proof fn lemma_reduces_fun(defs: Seq<(Seq<char>, Term)>, f: Term, f2: Term, a: Term)
    requires
        reduces(defs, f, f2),
    ensures
        reduces(defs, app_t(f, a), app_t(f2, a)),
{
    let p = choose|p: Seq<Term>| p.len() > 0 && p[0] == f && p.last() == f2 && path_ok(defs, p);
    let q = p.map_values(|x: Term| app_t(x, a));
    assert(path_ok(defs, q)) by {
        assert forall|i: int| 0 <= i < q.len() - 1 implies step(defs, #[trigger] q[i], q[i + 1]) by {
            assert(step(defs, p[i], p[i + 1]));
        }
    }
    assert(q.len() > 0 && q[0] == app_t(f, a) && q.last() == app_t(f2, a));
}

/// Reduction inside the argument of an application.
pub proof fn lemma_reduces_arg(defs: Seq<(Seq<char>, Term)>, f: Term, a: Term, a2: Term)
    requires
        reduces(defs, a, a2),
    ensures
        reduces(defs, app_t(f, a), app_t(f, a2)),
{
    let p = choose|p: Seq<Term>| p.len() > 0 && p[0] == a && p.last() == a2 && path_ok(defs, p);
    let q = p.map_values(|x: Term| app_t(f, x));
    assert(path_ok(defs, q)) by {
        assert forall|i: int| 0 <= i < q.len() - 1 implies step(defs, #[trigger] q[i], q[i + 1]) by {
            assert(step(defs, p[i], p[i + 1]));
        }
    }
    assert(q.len() > 0 && q[0] == app_t(f, a) && q.last() == app_t(f, a2));
}

/// Reduction inside both parts of an application.
pub proof fn lemma_reduces_app(defs: Seq<(Seq<char>, Term)>, f: Term, f2: Term, a: Term, a2: Term)
    requires
        reduces(defs, f, f2),
        reduces(defs, a, a2),
    ensures
        reduces(defs, app_t(f, a), app_t(f2, a2)),
{
    lemma_reduces_fun(defs, f, f2, a);
    lemma_reduces_arg(defs, f2, a, a2);
    lemma_reduces_trans(defs, app_t(f, a), app_t(f2, a), app_t(f2, a2));
}

/// A defined name reduces to its definition.
pub proof fn lemma_reduces_def(defs: Seq<(Seq<char>, Term)>, k: int)
    requires
        0 <= k < defs.len(),
    ensures
        reduces(defs, Term::Var(defs[k].0), defs[k].1),
{
    assert(defs.contains((defs[k].0, defs[k].1))) by {
        assert(defs[k] == (defs[k].0, defs[k].1));
    }
    lemma_reduces_step(defs, Term::Var(defs[k].0), defs[k].1);
}

/// An abstraction applied to an argument reduces to its body with the argument in place.
pub proof fn lemma_reduces_beta(defs: Seq<(Seq<char>, Term)>, x: Seq<char>, b: Term, a: Term)
    requires
        free_for(a, x, b),
    ensures
        reduces(defs, app_t(abs_t(x, b), a), subst(b, x, a)),
{
    lemma_reduces_step(defs, app_t(abs_t(x, b), a), subst(b, x, a));
}

/// Substituting for a name that does not occur free changes nothing.
pub proof fn lemma_subst_not_free(t: Term, x: Seq<char>, a: Term)
    requires
        !free_names(t).contains(x),
    ensures
        subst(t, x, a) == t,
    decreases t,
{
    match t {
        Term::Var(y) => {},
        Term::Abs(y, b) => {
            if y != x {
                lemma_subst_not_free(*b, x, a);
            }
        },
        Term::App(f, g) => {
            lemma_subst_not_free(*f, x, a);
            lemma_subst_not_free(*g, x, a);
        },
    }
}

/// Nothing is captured where the name does not occur free.
pub proof fn lemma_free_for_not_free(a: Term, x: Seq<char>, t: Term)
    requires
        !free_names(t).contains(x),
    ensures
        free_for(a, x, t),
    decreases t,
{
    match t {
        Term::Var(_) => {},
        Term::Abs(y, b) => {
            if y != x {
                lemma_free_for_not_free(a, x, *b);
            }
        },
        Term::App(f, g) => {
            lemma_free_for_not_free(a, x, *f);
            lemma_free_for_not_free(a, x, *g);
        },
    }
}

/// Putting a name in its own place changes nothing.
pub proof fn lemma_subst_self(t: Term, x: Seq<char>)
    ensures
        subst(t, x, Term::Var(x)) == t,
    decreases t,
{
    match t {
        Term::Var(_) => {},
        Term::Abs(y, b) => {
            lemma_subst_self(*b, x);
        },
        Term::App(f, g) => {
            lemma_subst_self(*f, x);
            lemma_subst_self(*g, x);
        },
    }
}

/// A name can always be put in its own place.
pub proof fn lemma_free_for_self(t: Term, x: Seq<char>)
    ensures
        free_for(Term::Var(x), x, t),
    decreases t,
{
    match t {
        Term::Var(_) => {},
        Term::Abs(y, b) => {
            lemma_free_for_self(*b, x);
        },
        Term::App(f, g) => {
            lemma_free_for_self(*f, x);
            lemma_free_for_self(*g, x);
        },
    }
}

/// Every definition of `defs` is one of `more` too.
pub open spec fn defs_within(defs: Seq<(Seq<char>, Term)>, more: Seq<(Seq<char>, Term)>) -> bool {
    forall|e: (Seq<char>, Term)| #[trigger] defs.contains(e) ==> more.contains(e)
}

proof fn lemma_step_more_defs(defs: Seq<(Seq<char>, Term)>, more: Seq<(Seq<char>, Term)>, t: Term, u: Term)
    requires
        defs_within(defs, more),
        step(defs, t, u),
    ensures
        step(more, t, u),
    decreases t,
{
    match t {
        Term::Var(x) => {
            assert(defs.contains((x, u)));
        },
        Term::Abs(x, b) => {
            if let Term::Abs(y, c) = u {
                lemma_step_more_defs(defs, more, *b, *c);
            }
        },
        Term::App(f, a) => {
            if let Term::App(f2, a2) = u {
                if *a2 == *a && step(defs, *f, *f2) {
                    lemma_step_more_defs(defs, more, *f, *f2);
                }
                if *f2 == *f && step(defs, *a, *a2) {
                    lemma_step_more_defs(defs, more, *a, *a2);
                }
            }
        },
    }
}

/// What reduces under some definitions reduces under more of them.
pub proof fn lemma_reduces_more_defs(defs: Seq<(Seq<char>, Term)>, more: Seq<(Seq<char>, Term)>, t: Term, u: Term)
    requires
        defs_within(defs, more),
        reduces(defs, t, u),
    ensures
        reduces(more, t, u),
{
    let p = choose|p: Seq<Term>| p.len() > 0 && p[0] == t && p.last() == u && path_ok(defs, p);
    assert(path_ok(more, p)) by {
        assert forall|i: int| 0 <= i < p.len() - 1 implies step(more, #[trigger] p[i], p[i + 1]) by {
            lemma_step_more_defs(defs, more, p[i], p[i + 1]);
        }
    }
}

/// A name defined among the definitions reduces to its definition.
pub proof fn lemma_reduces_defined(defs: Seq<(Seq<char>, Term)>, x: Seq<char>, v: Term)
    requires
        defs.contains((x, v)),
    ensures
        reduces(defs, Term::Var(x), v),
{
    lemma_reduces_step(defs, Term::Var(x), v);
}

} // verus!
