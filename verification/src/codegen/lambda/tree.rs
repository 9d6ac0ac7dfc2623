//! Binary trees indexed by the bits of a number, most significant bit first.
//!
//! Untouched subtrees are shared dummy trees `T0`, `T1`, ..., `T32`, where `Ti` has depth `i`.
//! All leaves of dummy trees are the null byte, because the only place where the default item
//! matters is the main memory, which is zero-initialized in WASM.

use vstd::prelude::*;

use crate::codegen::lambda::{
    abs2, abs3, abs_t, app_t, app2_t, app3_t, apply1, apply2, apply3, list, number, pair, rec,
    rec_t, select, select_t, var, var_string, Expr, LetExprBuilder, Term,
};
use crate::codegen::text::{dec_name, dec_t};

verus! {

/// The dummy tree of depth `i`.
pub open spec fn dummy_t(i: nat) -> Term {
    Term::Var("T"@ + dec_t(i))
}

pub open spec fn node_t(left: Term, right: Term) -> Term {
    pair::new_t(left, right)
}

/// One round of building a tree: pairs up neighbouring items, padding an odd one with `pad`.
pub open spec fn pair_up_t(items: Seq<Term>, pad: Term) -> Seq<Term> {
    Seq::new(
        ((items.len() + 1) / 2) as nat,
        |j: int| node_t(items[2 * j], if 2 * j + 1 < items.len() { items[2 * j + 1] } else { pad }),
    )
}

/// The items after the rounds `from` up to `to`.
pub open spec fn rounds_t(items: Seq<Term>, from: nat, to: nat) -> Seq<Term>
    decreases to - from,
{
    if from >= to {
        items
    } else {
        rounds_t(pair_up_t(items, dummy_t(from)), from + 1, to)
    }
}

/// The tree of depth `bitness` whose leaves are `items`, then dummies.
pub open spec fn from_t(bitness: nat, items: Seq<Term>) -> Term {
    if items.len() == 0 {
        dummy_t(bitness)
    } else {
        rounds_t(items, 0, bitness)[0]
    }
}

/// The subtree that a bit selects: the left one for 0, the right one for 1.
pub open spec fn subtree_t(tree: Term, b: bool) -> Term {
    match tree {
        Term::App(f, r) => match *f {
            Term::App(_, l) => if b { *r } else { *l },
            _ => tree,
        },
        _ => tree,
    }
}

pub fn new(bitness: u8) -> (e: Expr)
    requires
        bitness <= 32,
    ensures
        e@ == dummy_t(bitness as nat),
{
    var_string(dec_name("T", bitness as u64))
}

pub fn node(left: Expr, right: Expr) -> (e: Expr)
    ensures
        e@ == node_t(left@, right@),
{
    pair::new(left, right)
}

pub fn get_left(tree: Expr) -> (e: Expr)
    ensures
        e@ == pair::first_t(tree@),
{
    pair::get_first(tree)
}

pub fn get_right(tree: Expr) -> (e: Expr)
    ensures
        e@ == pair::second_t(tree@),
{
    pair::get_second(tree)
}

pub fn select_subtree(tree: Expr, selector: Expr) -> (e: Expr)
    ensures
        e@ == app_t(tree@, selector@),
{
    pair::select(tree, selector)
}

/// Index the tree with a little-endian number (e.g. `I32`).
pub fn index_num(tree: Expr, index: Expr) -> (e: Expr)
    ensures
        e@ == app2_t(Term::Var("IdxLE"@), tree@, index@),
{
    apply2(var("IdxLE"), tree, index)
}

/// Index the tree with an ID.
pub fn index_id(tree: Expr, index: Expr) -> (e: Expr)
    ensures
        e@ == app2_t(Term::Var("IdxBE"@), tree@, index@),
{
    apply2(var("IdxBE"), tree, index)
}

pub fn insert_num(tree: Expr, index: Expr, value: Expr) -> (e: Expr)
    ensures
        e@ == app3_t(Term::Var("InsLE"@), tree@, index@, value@),
{
    apply3(var("InsLE"), tree, index, value)
}

pub fn insert_id(tree: Expr, index: Expr, value: Expr) -> (e: Expr)
    ensures
        e@ == app3_t(Term::Var("InsBE"@), tree@, index@, value@),
{
    apply3(var("InsBE"), tree, index, value)
}

/// Reverses a vector.
fn reversed(items: Vec<Expr>) -> (r: Vec<Expr>)
    ensures
        r@.len() == items@.len(),
        forall|k: int| 0 <= k < items@.len() ==> r@[k] == items@[items@.len() - 1 - k],
{
    let ghost all = items@;
    let mut items = items;
    let mut r: Vec<Expr> = Vec::new();
    while items.len() > 0
        invariant
            items@ == all.take(items.len() as int),
            items.len() <= all.len(),
            r.len() == all.len() - items.len(),
            forall|k: int| 0 <= k < r.len() ==> r@[k] == all[all.len() - 1 - k],
        decreases items.len(),
    {
        let x = items.pop().unwrap();
        r.push(x);
        proof {
            assert(items@ =~= all.take(items.len() as int));
        }
    }
    r
}

/// One round of building a tree.
fn pair_up(items: Vec<Expr>, level: u8) -> (r: Vec<Expr>)
    requires
        level <= 32,
    ensures
        r@.map_values(|e: Expr| e@) == pair_up_t(items@.map_values(|e: Expr| e@), dummy_t(level as nat)),
        r@.len() == (items@.len() + 1) / 2,
{
    let ghost all = items@.map_values(|e: Expr| e@);
    let n = items.len();
    let mut stack = reversed(items);
    let mut r: Vec<Expr> = Vec::new();
    let ghost target = pair_up_t(all, dummy_t(level as nat));
    while stack.len() > 0
        invariant
            all.len() == n,
            target == pair_up_t(all, dummy_t(level as nat)),
            stack.len() <= n,
            stack.len() > 0 ==> n - stack.len() == 2 * r.len(),
            stack.len() == 0 ==> r.len() == (n + 1) / 2,
            forall|k: int| 0 <= k < stack.len() ==> stack@[k]@ == all[n - 1 - k],
            forall|k: int| 0 <= k < r.len() ==> r@[k]@ == target[k],
            level <= 32,
        decreases stack.len(),
    {
        let j = r.len();
        let left = stack.pop().unwrap();
        let right = if stack.len() > 0 {
            stack.pop().unwrap()
        } else {
            new(level)
        };
        r.push(node(left, right));
        proof {
            assert(r@[j as int]@ == target[j as int]);
        }
    }
    proof {
        assert(r@.map_values(|e: Expr| e@) =~= target);
    }
    r
}

/// The tree of the given depth whose leaves are the given items, then dummies.
/// The index bitness must match the tree bitness.
pub fn from(bitness: u8, items: Vec<Expr>) -> (e: Expr)
    requires
        bitness <= 32,
    ensures
        e@ == from_t(bitness as nat, items@.map_values(|i: Expr| i@)),
{
    let ghost all = items@.map_values(|i: Expr| i@);
    if items.len() == 0 {
        return new(bitness);
    }
    let mut items = items;
    let mut i: u8 = 0;
    while i < bitness
        invariant
            i <= bitness <= 32,
            rounds_t(all, 0, bitness as nat) == rounds_t(items@.map_values(|e: Expr| e@), i as nat, bitness as nat),
            items.len() > 0,
        decreases bitness - i,
    {
        items = pair_up(items, i);
        i = i + 1;
    }
    let mut items = items;
    items.swap_remove(0)
}


/// The definitions of the dummy trees `T0` to `T{count - 1}`.
pub open spec fn dummy_defs_t(count: nat) -> Seq<(Seq<char>, Term)> {
    Seq::new(count, |i: int| if i == 0 {
        ("T0"@, Term::Var("0b"@))
    } else {
        ("T"@ + dec_t(i as nat), node_t(dummy_t((i - 1) as nat), dummy_t((i - 1) as nat)))
    })
}

pub open spec fn idx_be_def_t() -> Term {
    abs_t("tree"@, abs_t("index"@, select_t(
        list::is_not_empty_t(Term::Var("index"@)),
        Term::Var("tree"@),
        app2_t(
            rec_t(Term::Var("IdxBE_"@)),
            app_t(Term::Var("tree"@), list::head_t(Term::Var("index"@))),
            list::tail_t(Term::Var("index"@)),
        ),
    )))
}

pub open spec fn ins_be_def_t() -> Term {
    let insert = |sub: Term| app3_t(rec_t(Term::Var("InsBE_"@)), sub, list::tail_t(Term::Var("index"@)), Term::Var("value"@));
    let left = pair::first_t(Term::Var("tree"@));
    let right = pair::second_t(Term::Var("tree"@));
    abs_t("tree"@, abs_t("index"@, abs_t("value"@, select_t(
        list::is_not_empty_t(Term::Var("index"@)),
        Term::Var("value"@),
        select_t(
            list::head_t(Term::Var("index"@)),
            node_t(insert(left), right),
            node_t(left, insert(right)),
        ),
    ))))
}

/// The tree prelude: dummy trees and the indexing and insertion functions.
pub open spec fn defs_t() -> Seq<(Seq<char>, Term)> {
    dummy_defs_t(33) + seq![
        ("IdxBE_"@, abs_t("IdxBE_"@, idx_be_def_t())),
        ("IdxBE"@, rec_t(Term::Var("IdxBE_"@))),
        ("IdxLE"@, abs_t("tree"@, abs_t("index"@, app2_t(
            rec_t(Term::Var("IdxBE_"@)),
            Term::Var("tree"@),
            app_t(Term::Var("Rev"@), Term::Var("index"@)),
        )))),
        ("InsBE_"@, abs_t("InsBE_"@, ins_be_def_t())),
        ("InsBE"@, rec_t(Term::Var("InsBE_"@))),
        ("InsLE"@, abs_t("tree"@, abs_t("index"@, abs_t("value"@, app3_t(
            rec_t(Term::Var("InsBE_"@)),
            Term::Var("tree"@),
            app_t(Term::Var("Rev"@), Term::Var("index"@)),
            Term::Var("value"@),
        ))))),
    ]
}

pub fn generate_defs(b: &mut LetExprBuilder)
    ensures
        final(b)@ == old(b)@ + defs_t(),
{
    let ghost start = b@;
    // Dummy trees: indexable by 0 bits (i.e. not indexable), then every node by i bits
    b.def("T0", number::null_byte());
    let mut i: u8 = 1;
    while i <= 32
        invariant
            1 <= i <= 33,
            b@ == start + dummy_defs_t(i as nat),
        decreases 33 - i,
    {
        b.def_string(dec_name("T", i as u64), node(new(i - 1), new(i - 1)));
        proof {
            assert(b@ =~= start + dummy_defs_t((i + 1) as nat));
        }
        i = i + 1;
    }

    let index_bit = list::get_head(var("index"));
    let index_tail = list::get_tail(var("index"));
    let subtree = select_subtree(var("tree"), index_bit);
    let body = select(list::is_not_empty(var("index")), var("tree"), apply2(rec(var("IdxBE_")), subtree, index_tail));
    b.def_rec("IdxBE_", abs2("tree", "index", body));

    b.def("IdxBE", rec(var("IdxBE_")));

    b.def("IdxLE", abs2("tree", "index", apply2(rec(var("IdxBE_")), var("tree"), number::reverse_bits(var("index")))));

    let left = get_left(var("tree"));
    let right = get_right(var("tree"));
    let index_bit = list::get_head(var("index"));
    let insert_left = apply3(rec(var("InsBE_")), left.duplicate(), list::get_tail(var("index")), var("value"));
    let insert_right = apply3(rec(var("InsBE_")), right.duplicate(), list::get_tail(var("index")), var("value"));
    let body = select(
        list::is_not_empty(var("index")),
        var("value"),
        select(index_bit, node(insert_left, right), node(left, insert_right)),
    );
    b.def_rec("InsBE_", abs3("tree", "index", "value", body));

    b.def("InsBE", rec(var("InsBE_")));

    b.def("InsLE", abs3("tree", "index", "value", apply3(
        rec(var("InsBE_")),
        var("tree"),
        number::reverse_bits(var("index")),
        var("value"),
    )));
    proof {
        reveal_strlit("T0");
        reveal_strlit("T");
        assert(dec_t(0) =~= seq!['0']);
        assert("T"@ + dec_t(0) =~= "T0"@);
        assert(b@ =~= start + defs_t());
    }
}

} // verus!
