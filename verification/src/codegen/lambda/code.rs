//! A chain of instructions: `(Instr1 (Instr2 (Instr3 unreachable)))`.
//!
//! Control instructions jump to "labels" that point to segments of the chain. Each labelled
//! segment is bound to a variable (the label) and is used as the tail of the previous segment:
//! ```text
//! let labelY = unreachable in
//! let labelX = (end (call<bar> labelY)) in
//! (block (i32_eqz (br_if<labelX> (call<foo> labelX))))
//! ```

use vstd::prelude::*;

use crate::codegen::lambda::{
    apply1, app_t, lets_t, render, unreachable_t, var_string, Expr, LetExprBuilder, Term,
};
use crate::codegen::text::{dec_name, dec_t};

verus! {

/// An item of a chain: an instruction, or a label that points to what follows it.
pub enum ChainItemT {
    Instruction(Term),
    Label(Seq<char>),
}

/// The label definitions and the chain that processing `items` from the last one to the first
/// one gives.
pub open spec fn chain_t(items: Seq<ChainItemT>) -> (Seq<(Seq<char>, Term)>, Term)
    decreases items.len(),
{
    if items.len() == 0 {
        (Seq::empty(), unreachable_t())
    } else {
        let (defs, chain) = chain_t(items.drop_first());
        match items[0] {
            ChainItemT::Instruction(instr) => (defs, app_t(instr, chain)),
            ChainItemT::Label(label) => (defs.push((label, chain)), Term::Var(label)),
        }
    }
}

/// The code that a chain of items builds.
pub open spec fn build_t(items: Seq<ChainItemT>) -> Term {
    lets_t(chain_t(items).0, chain_t(items).1)
}

/// The name of the label made by the `n`-th call of `make_label`.
pub open spec fn label_name_t(n: nat) -> Seq<char> {
    "_"@ + dec_t(n)
}

/// The code of a single instruction, which is followed by nothing.
pub fn single(instruction: Expr) -> (e: Expr)
    ensures
        e@ == app_t(instruction@, unreachable_t()),
{
    apply1(instruction, crate::codegen::lambda::unreachable())
}

/// Different labels have different names.
pub proof fn lemma_labels_distinct(n: nat, m: nat)
    requires
        n != m,
    ensures
        label_name_t(n) != label_name_t(m),
{
    crate::codegen::text::lemma_number_names_distinct("_"@, n, m, 10, false, Seq::empty());
    assert("_"@ + dec_t(n) + Seq::<char>::empty() =~= label_name_t(n));
    assert("_"@ + dec_t(m) + Seq::<char>::empty() =~= label_name_t(m));
}

/// No label is the variable `_` of unreachable code.
pub proof fn lemma_label_not_unreachable(n: nat)
    ensures
        Term::Var(label_name_t(n)) != unreachable_t(),
{
    crate::codegen::text::lemma_radix_nonempty(n, 10, false);
    reveal_strlit("_");
    assert(label_name_t(n).len() >= 2);
}

enum ChainItem {
    Instruction(Expr),
    Label(String),
}

/// The state of a code builder: the items so far and the number of labels made.
pub struct CodeBuilderView {
    pub items: Seq<ChainItemT>,
    pub next_label_id: nat,
}

pub struct CodeBuilder {
    items: Vec<ChainItem>,
    next_label_id: u32,
}

spec fn item_t(item: ChainItem) -> ChainItemT {
    match item {
        ChainItem::Instruction(instr) => ChainItemT::Instruction(instr@),
        ChainItem::Label(label) => ChainItemT::Label(label@),
    }
}

impl View for CodeBuilder {
    type V = CodeBuilderView;

    closed spec fn view(&self) -> CodeBuilderView {
        CodeBuilderView {
            items: self.items@.map_values(|i: ChainItem| item_t(i)),
            next_label_id: self.next_label_id as nat,
        }
    }
}

impl CodeBuilder {
    pub fn new() -> (b: Self)
        ensures
            b@.items == Seq::<ChainItemT>::empty(),
            b@.next_label_id == 0,
    {
        let b = CodeBuilder { items: Vec::new(), next_label_id: 0 };
        proof {
            assert(b@.items =~= Seq::<ChainItemT>::empty());
        }
        b
    }

    pub fn build(self) -> (e: Expr)
        ensures
            e@ == build_t(self@.items),
    {
        let ghost all = self@.items;
        let mut items = self.items;
        let mut defs = LetExprBuilder::new();
        let mut chain = crate::codegen::lambda::unreachable();
        proof {
            assert(all.skip(items.len() as int) =~= Seq::<ChainItemT>::empty());
        }
        while items.len() > 0
            invariant
                items.len() <= all.len(),
                forall|j: int| 0 <= j < items.len() ==> item_t(items@[j]) == all[j],
                defs@ == chain_t(all.skip(items.len() as int)).0,
                chain@ == chain_t(all.skip(items.len() as int)).1,
            decreases items.len(),
        {
            let ghost before = items@;
            let item = items.pop().unwrap();
            proof {
                assert(all.skip(items.len() as int).drop_first() =~= all.skip(items.len() + 1));
                assert(item == before[items.len() as int]);
            }
            match item {
                ChainItem::Instruction(instr) => {
                    chain = apply1(instr, chain);
                },
                ChainItem::Label(label) => {
                    defs.def_string(label.clone(), chain);
                    chain = var_string(label);
                },
            }
        }
        proof {
            assert(all.skip(0) =~= all);
        }
        defs.build_in(chain)
    }

    pub fn push(&mut self, instruction: Expr)
        ensures
            final(self)@.items == old(self)@.items.push(ChainItemT::Instruction(instruction@)),
            final(self)@.next_label_id == old(self)@.next_label_id,
    {
        self.items.push(ChainItem::Instruction(instruction));
        proof {
            assert(self@.items =~= old(self)@.items.push(ChainItemT::Instruction(instruction@)));
        }
    }

    /// Call this before adding an instruction to make the label point to it.
    /// The label is the variable returned by [`Self::make_label`].
    pub fn push_label(&mut self, label: Expr)
        ensures
            final(self)@.items == old(self)@.items.push(ChainItemT::Label(render(label@))),
            final(self)@.next_label_id == old(self)@.next_label_id,
    {
        self.items.push(ChainItem::Label(label.to_text()));
        proof {
            assert(self@.items =~= old(self)@.items.push(ChainItemT::Label(render(label@))));
        }
    }

    /// The number of labels made so far.
    pub fn next_label_id(&self) -> (n: u32)
        ensures
            n == self@.next_label_id,
    {
        self.next_label_id
    }

    /// Returns a variable that will potentially point to a subsegment of the chain.
    /// To actually place the label, call [`Self::push_label`] with the returned variable.
    pub fn make_label(&mut self) -> (e: Expr)
        requires
            old(self)@.next_label_id < u32::MAX,
        ensures
            e@ == Term::Var(label_name_t(old(self)@.next_label_id)),
            final(self)@.items == old(self)@.items,
            final(self)@.next_label_id == old(self)@.next_label_id + 1,
    {
        let label = dec_name("_", self.next_label_id as u64);
        self.next_label_id = self.next_label_id + 1;
        var_string(label)
    }
}

} // verus!
