//! Which names a term refers to without binding them: a program is a closed term when every
//! definition refers only to names defined before it.

use vstd::prelude::*;

use crate::codegen::lambda::{
    abs_t, abss_t, app_t, apps_t, core_defs_t, lets_t, list, number, pair, tree, Term,
};
use crate::codegen::text::dec_t;

verus! {

/// Whether every variable of `t` is bound in `t` or is one of the names in `env`.
pub open spec fn scoped(t: Term, env: Set<Seq<char>>) -> bool
    decreases t,
{
    match t {
        Term::Var(name) => env.contains(name),
        Term::Abs(v, body) => scoped(*body, env.insert(v)),
        Term::App(f, a) => scoped(*f, env) && scoped(*a, env),
    }
}

/// A closed term: it refers to no name that it does not bind.
pub open spec fn closed(t: Term) -> bool {
    scoped(t, Set::empty())
}

/// The names in scope after the definitions.
pub open spec fn env_with(env: Set<Seq<char>>, defs: Seq<(Seq<char>, Term)>) -> Set<Seq<char>>
    decreases defs.len(),
{
    if defs.len() == 0 {
        env
    } else {
        env_with(env.insert(defs[0].0), defs.drop_first())
    }
}

/// Whether each definition refers only to the names in `env` and to those defined before it.
pub open spec fn defs_ok(defs: Seq<(Seq<char>, Term)>, env: Set<Seq<char>>) -> bool
    decreases defs.len(),
{
    if defs.len() == 0 {
        true
    } else {
        scoped(defs[0].1, env) && defs_ok(defs.drop_first(), env.insert(defs[0].0))
    }
}

/// More names in scope keep a term scoped.
pub proof fn lemma_scoped_mono(t: Term, e1: Set<Seq<char>>, e2: Set<Seq<char>>)
    requires
        scoped(t, e1),
        e1.subset_of(e2),
    ensures
        scoped(t, e2),
    decreases t,
{
    match t {
        Term::Var(_) => {},
        Term::Abs(v, body) => {
            lemma_scoped_mono(*body, e1.insert(v), e2.insert(v));
        },
        Term::App(f, a) => {
            lemma_scoped_mono(*f, e1, e2);
            lemma_scoped_mono(*a, e1, e2);
        },
    }
}

/// More names in scope keep definitions in order.
pub proof fn lemma_defs_ok_mono(defs: Seq<(Seq<char>, Term)>, e1: Set<Seq<char>>, e2: Set<Seq<char>>)
    requires
        defs_ok(defs, e1),
        e1.subset_of(e2),
    ensures
        defs_ok(defs, e2),
    decreases defs.len(),
{
    if defs.len() > 0 {
        lemma_scoped_mono(defs[0].1, e1, e2);
        lemma_defs_ok_mono(defs.drop_first(), e1.insert(defs[0].0), e2.insert(defs[0].0));
    }
}

/// The names in scope after definitions include those before them and the defined ones.
pub proof fn lemma_env_with(env: Set<Seq<char>>, defs: Seq<(Seq<char>, Term)>)
    ensures
        env.subset_of(env_with(env, defs)),
        forall|i: int| 0 <= i < defs.len() ==> env_with(env, defs).contains(#[trigger] defs[i].0),
    decreases defs.len(),
{
    if defs.len() > 0 {
        lemma_env_with(env.insert(defs[0].0), defs.drop_first());
        assert forall|i: int| 0 <= i < defs.len() implies env_with(env, defs).contains(#[trigger] defs[i].0) by {
            if i > 0 {
                assert(defs[i] == defs.drop_first()[i - 1]);
            }
        }
    }
}

/// Two lists of definitions one after the other.
pub proof fn lemma_defs_concat(a: Seq<(Seq<char>, Term)>, b: Seq<(Seq<char>, Term)>, env: Set<Seq<char>>)
    ensures
        defs_ok(a + b, env) == (defs_ok(a, env) && defs_ok(b, env_with(env, a))),
        env_with(env, a + b) == env_with(env_with(env, a), b),
    decreases a.len(),
{
    if a.len() == 0 {
        assert(a + b =~= b);
    } else {
        assert((a + b).drop_first() =~= a.drop_first() + b);
        lemma_defs_concat(a.drop_first(), b, env.insert(a[0].0));
    }
}

/// A chain of `let` definitions is scoped when each definition refers only to the names
/// before it and the body to all of them.
pub proof fn lemma_lets_scoped(defs: Seq<(Seq<char>, Term)>, body: Term, env: Set<Seq<char>>)
    requires
        defs_ok(defs, env),
        scoped(body, env_with(env, defs)),
    ensures
        scoped(lets_t(defs, body), env),
    decreases defs.len(),
{
    if defs.len() > 0 {
        lemma_lets_scoped(defs.drop_first(), body, env.insert(defs[0].0));
        let inner = lets_t(defs.drop_first(), body);
        assert(scoped(abs_t(defs[0].0, inner), env));
        assert(scoped(app_t(abs_t(defs[0].0, inner), defs[0].1), env));
    }
}

/// An abstraction over several variables is scoped when its body is, with the variables.
pub proof fn lemma_abss_scoped(vars: Seq<Seq<char>>, body: Term, env: Set<Seq<char>>)
    requires
        scoped(body, env + vars.to_set()),
    ensures
        scoped(abss_t(vars, body), env),
    decreases vars.len(),
{
    if vars.len() > 0 {
        assert(env.insert(vars[0]) + vars.drop_first().to_set() =~= env + vars.to_set()) by {
            assert forall|x: Seq<char>| (env + vars.to_set()).contains(x) implies (env.insert(vars[0]) + vars.drop_first().to_set()).contains(x) by {
                if vars.to_set().contains(x) && x != vars[0] {
                    let i = choose|i: int| 0 <= i < vars.len() && vars[i] == x;
                    assert(vars.drop_first()[i - 1] == x);
                }
            }
            assert forall|x: Seq<char>| (env.insert(vars[0]) + vars.drop_first().to_set()).contains(x) implies (env + vars.to_set()).contains(x) by {
                if vars.drop_first().to_set().contains(x) {
                    let i = choose|i: int| 0 <= i < vars.drop_first().len() && vars.drop_first()[i] == x;
                    assert(vars[i + 1] == x);
                }
                if x == vars[0] {
                    assert(vars.to_set().contains(vars[0]));
                }
            }
        }
        lemma_abss_scoped(vars.drop_first(), body, env.insert(vars[0]));
        assert(scoped(abs_t(vars[0], abss_t(vars.drop_first(), body)), env));
    } else {
        assert(env + vars.to_set() =~= env);
    }
}

/// An application to several arguments is scoped when the function and the arguments are.
pub proof fn lemma_apps_scoped(f: Term, args: Seq<Term>, env: Set<Seq<char>>)
    requires
        scoped(f, env),
        forall|i: int| 0 <= i < args.len() ==> scoped(#[trigger] args[i], env),
    ensures
        scoped(apps_t(f, args), env),
    decreases args.len(),
{
    if args.len() > 0 {
        lemma_apps_scoped(f, args.drop_last(), env);
    }
}

/// A list is scoped when its items are, with the list constructors in scope.
pub proof fn lemma_list_scoped(items: Seq<Term>, env: Set<Seq<char>>)
    requires
        env.contains("C"@),
        env.contains("Empty"@),
        forall|i: int| 0 <= i < items.len() ==> scoped(#[trigger] items[i], env),
    ensures
        scoped(list::from_t(items), env),
    decreases items.len(),
{
    reveal_with_fuel(scoped, 4);
    if items.len() > 0 {
        lemma_list_scoped(items.drop_first(), env);
        assert(scoped(items[0], env));
    }
}

/// Joined bytes are scoped when the bytes are, with `JoinRev` in scope.
pub proof fn lemma_join_scoped(bytes: Seq<Term>, env: Set<Seq<char>>)
    requires
        env.contains("JoinRev"@),
        env.contains("Empty"@),
        forall|i: int| 0 <= i < bytes.len() ==> scoped(#[trigger] bytes[i], env),
    ensures
        scoped(number::join_rev_t(bytes), env),
    decreases bytes.len(),
{
    reveal_with_fuel(scoped, 5);
    if bytes.len() > 0 {
        lemma_join_scoped(bytes.drop_last(), env);
        assert(scoped(bytes.last(), env));
    }
}

proof fn lemma_join_def_scoped(count: nat, env: Set<Seq<char>>)
    requires
        env.contains("JoinRev"@),
        env.contains("Empty"@),
    ensures
        scoped(number::join_def_t(count), env),
{
    let names = number::byte_param_names_t(count);
    let vars = names.map_values(|n: Seq<char>| Term::Var(n));
    let inner = env + names.to_set();
    assert forall|i: int| 0 <= i < vars.len() implies scoped(#[trigger] vars[i], inner) by {
        assert(names.to_set().contains(names[i]));
    }
    lemma_join_scoped(vars, inner);
    lemma_abss_scoped(names, number::join_rev_t(vars), env);
}

proof fn lemma_join_rev_def_scoped(env: Set<Seq<char>>)
    requires
        env.contains("0"@),
        env.contains("1"@),
        env.contains("C"@),
    ensures
        scoped(number::defs_t()[1].1, env),
{
    reveal_with_fuel(scoped, 14);
}

proof fn lemma_rev_scoped(env: Set<Seq<char>>)
    requires
        env.contains("JoinRev"@),
        env.contains("Empty"@),
    ensures
        scoped(number::defs_t()[2].1, env),
{
    reveal_with_fuel(scoped, 4);
}

proof fn lemma_number_defs_ok(env: Set<Seq<char>>)
    requires
        env.contains("_"@),
        env.contains("0"@),
        env.contains("1"@),
        env.contains("P"@),
        env.contains("C"@),
        env.contains("Empty"@),
    ensures
        defs_ok(number::defs_t(), env),
{
    let defs = number::defs_t();
    // Byte
    let names = number::bit_param_names_t();
    let vars = names.map_values(|n: Seq<char>| Term::Var(n));
    let inner = env + names.to_set();
    assert forall|i: int| 0 <= i < vars.len() implies scoped(#[trigger] vars[i], inner) by {
        assert(names.to_set().contains(names[i]));
    }
    lemma_list_scoped(vars, inner);
    lemma_abss_scoped(names, list::from_t(vars), env);
    let e1 = env.insert("Byte"@);
    lemma_join_rev_def_scoped(e1);
    let e2 = e1.insert("JoinRev"@);
    lemma_rev_scoped(e2);
    let e3 = e2.insert("Rev"@);
    lemma_join_def_scoped(2, e3);
    let e4 = e3.insert("Id"@);
    lemma_join_def_scoped(4, e4);
    let e5 = e4.insert("I32"@);
    lemma_join_def_scoped(8, e5);
    let e6 = e5.insert("I64"@);
    let bits = number::byte_bits_t(0);
    assert forall|i: int| 0 <= i < bits.len() implies scoped(#[trigger] bits[i], e6) by {}
    lemma_apps_scoped(Term::Var("Byte"@), bits, e6);
    reveal_with_fuel(defs_ok, 8);
    assert(defs.drop_first() =~= seq![defs[1], defs[2], defs[3], defs[4], defs[5], defs[6]]);
    assert(defs_ok(seq![defs[6]], e6));
    assert(defs_ok(seq![defs[5], defs[6]], e5));
    assert(defs_ok(seq![defs[4], defs[5], defs[6]], e4));
    assert(defs_ok(seq![defs[3], defs[4], defs[5], defs[6]], e3));
    assert(defs_ok(seq![defs[2], defs[3], defs[4], defs[5], defs[6]], e2));
    assert(seq![defs[2], defs[3], defs[4], defs[5], defs[6]] =~= defs.drop_first().drop_first());
    assert(defs_ok(defs.drop_first(), e1));
}


proof fn lemma_dummy_defs_ok(k: nat, env: Set<Seq<char>>)
    requires
        env.contains("P"@),
        env.contains("0b"@),
    ensures
        defs_ok(tree::dummy_defs_t(k), env),
        k > 0 ==> env_with(env, tree::dummy_defs_t(k)).contains("T"@ + dec_t((k - 1) as nat)),
    decreases k,
{
    reveal_with_fuel(scoped, 4);
    if k > 0 {
        let prev = tree::dummy_defs_t((k - 1) as nat);
        let last = tree::dummy_defs_t(k)[k - 1];
        assert(tree::dummy_defs_t(k) =~= prev + seq![last]);
        lemma_dummy_defs_ok((k - 1) as nat, env);
        lemma_defs_concat(prev, seq![last], env);
        let e = env_with(env, prev);
        lemma_env_with(env, prev);
        if k == 1 {
            assert(scoped(last.1, e));
        } else {
            assert(scoped(last.1, e));
        }
        assert(defs_ok(seq![last], e)) by {
            reveal_with_fuel(defs_ok, 2);
            assert(seq![last].drop_first() =~= Seq::<(Seq<char>, Term)>::empty());
        }
        lemma_defs_concat(prev, seq![last], env);
        assert(env_with(e, seq![last]) == env_with(e.insert(last.0), Seq::<(Seq<char>, Term)>::empty())) by {
            assert(seq![last].drop_first() =~= Seq::<(Seq<char>, Term)>::empty());
        }
        if k == 1 {
            reveal_strlit("T0");
            reveal_strlit("T");
            assert(dec_t(0) =~= seq!['0']);
            assert(last.0 =~= "T"@ + dec_t(0));
        }
        assert(env_with(env, tree::dummy_defs_t(k)).contains(last.0));
    }
}

proof fn lemma_idx_be_scoped(env: Set<Seq<char>>)
    requires
        env.contains("0"@),
        env.contains("1"@),
    ensures
        scoped(abs_t("IdxBE_"@, tree::idx_be_def_t()), env),
{
    reveal_with_fuel(scoped, 16);
}

proof fn lemma_ins_be_scoped(env: Set<Seq<char>>)
    requires
        env.contains("0"@),
        env.contains("1"@),
        env.contains("P"@),
    ensures
        scoped(abs_t("InsBE_"@, tree::ins_be_def_t()), env),
{
    reveal_with_fuel(scoped, 16);
}

proof fn lemma_tree_defs_ok(env: Set<Seq<char>>)
    requires
        env.contains("0"@),
        env.contains("1"@),
        env.contains("P"@),
        env.contains("0b"@),
        env.contains("Rev"@),
    ensures
        defs_ok(tree::defs_t(), env),
{
    let dummies = tree::dummy_defs_t(33);
    let rest = tree::defs_t().skip(33);
    assert(tree::defs_t() =~= dummies + rest);
    lemma_dummy_defs_ok(33, env);
    lemma_defs_concat(dummies, rest, env);
    let e = env_with(env, dummies);
    lemma_env_with(env, dummies);
    lemma_idx_be_scoped(e);
    let e1 = e.insert("IdxBE_"@);
    let e2 = e1.insert("IdxBE"@);
    let e3 = e2.insert("IdxLE"@);
    lemma_ins_be_scoped(e3);
    let e4 = e3.insert("InsBE_"@);
    let e5 = e4.insert("InsBE"@);
    assert(scoped(rest[1].1, e1)) by { reveal_with_fuel(scoped, 3); }
    assert(scoped(rest[2].1, e2)) by { reveal_with_fuel(scoped, 8); }
    assert(scoped(rest[4].1, e4)) by { reveal_with_fuel(scoped, 3); }
    assert(scoped(rest[5].1, e5)) by { reveal_with_fuel(scoped, 10); }
    reveal_with_fuel(defs_ok, 7);
    assert(rest.drop_first() =~= seq![rest[1], rest[2], rest[3], rest[4], rest[5]]);
    assert(seq![rest[1], rest[2], rest[3], rest[4], rest[5]].drop_first() =~= seq![rest[2], rest[3], rest[4], rest[5]]);
    assert(seq![rest[2], rest[3], rest[4], rest[5]].drop_first() =~= seq![rest[3], rest[4], rest[5]]);
    assert(seq![rest[3], rest[4], rest[5]].drop_first() =~= seq![rest[4], rest[5]]);
    assert(seq![rest[4], rest[5]].drop_first() =~= seq![rest[5]]);
    assert(seq![rest[5]].drop_first() =~= Seq::<(Seq<char>, Term)>::empty());
    assert(defs_ok(rest, e));
}

/// The core definitions refer only to each other, each to those before it.
pub proof fn lemma_core_defs_ok()
    ensures
        defs_ok(core_defs_t(), Set::empty()),
{
    let basics = core_defs_t().take(3);
    let pairs = pair::defs_t();
    let lists = list::defs_t();
    let numbers = number::defs_t();
    let trees = tree::defs_t();
    assert(core_defs_t() =~= basics + pairs + lists + numbers + trees);
    let e0 = Set::<Seq<char>>::empty();
    reveal_with_fuel(defs_ok, 4);
    reveal_with_fuel(env_with, 4);
    assert(basics.drop_first() =~= seq![basics[1], basics[2]]);
    assert(seq![basics[1], basics[2]].drop_first() =~= seq![basics[2]]);
    assert(seq![basics[2]].drop_first() =~= Seq::<(Seq<char>, Term)>::empty());
    assert(defs_ok(basics, e0)) by { reveal_with_fuel(scoped, 4); }
    let e1 = env_with(e0, basics);
    assert(e1 == e0.insert("_"@).insert("0"@).insert("1"@));
    assert(pairs.drop_first() =~= Seq::<(Seq<char>, Term)>::empty());
    assert(defs_ok(pairs, e1)) by { reveal_with_fuel(scoped, 8); }
    let e2 = env_with(e1, pairs);
    assert(e2 == e1.insert("P"@));
    assert(lists.drop_first() =~= seq![lists[1]]);
    assert(seq![lists[1]].drop_first() =~= Seq::<(Seq<char>, Term)>::empty());
    assert(defs_ok(lists, e2)) by { reveal_with_fuel(scoped, 8); }
    let e3 = env_with(e2, lists);
    assert(e3 == e2.insert("Empty"@).insert("C"@));
    lemma_number_defs_ok(e3);
    let e4 = env_with(e3, numbers);
    lemma_env_with(e3, numbers);
    assert(numbers[6].0 == "0b"@ && numbers[2].0 == "Rev"@);
    lemma_tree_defs_ok(e4);
    lemma_defs_concat(basics, pairs, e0);
    lemma_defs_concat(basics + pairs, lists, e0);
    lemma_defs_concat(basics + pairs + lists, numbers, e0);
    lemma_defs_concat(basics + pairs + lists + numbers, trees, e0);
}


/// A name is in scope after definitions when it was before them or one of them defines it.
pub proof fn lemma_env_with_contains(env: Set<Seq<char>>, defs: Seq<(Seq<char>, Term)>, x: Seq<char>)
    ensures
        env_with(env, defs).contains(x) <==> (env.contains(x) || exists|i: int| 0 <= i < defs.len() && #[trigger] defs[i].0 == x),
    decreases defs.len(),
{
    if defs.len() > 0 {
        lemma_env_with_contains(env.insert(defs[0].0), defs.drop_first(), x);
        if exists|i: int| 0 <= i < defs.drop_first().len() && #[trigger] defs.drop_first()[i].0 == x {
            let i = choose|i: int| 0 <= i < defs.drop_first().len() && #[trigger] defs.drop_first()[i].0 == x;
            assert(defs[i + 1].0 == x);
        }
        if exists|i: int| 0 <= i < defs.len() && #[trigger] defs[i].0 == x {
            let i = choose|i: int| 0 <= i < defs.len() && #[trigger] defs[i].0 == x;
            if i > 0 {
                assert(defs.drop_first()[i - 1].0 == x);
            }
        }
    }
}

/// More names before definitions give more names after them.
pub proof fn lemma_env_with_mono(e1: Set<Seq<char>>, e2: Set<Seq<char>>, defs: Seq<(Seq<char>, Term)>)
    requires
        e1.subset_of(e2),
    ensures
        env_with(e1, defs).subset_of(env_with(e2, defs)),
{
    assert forall|x: Seq<char>| env_with(e1, defs).contains(x) implies env_with(e2, defs).contains(x) by {
        lemma_env_with_contains(e1, defs, x);
        lemma_env_with_contains(e2, defs, x);
    }
}

} // verus!
