//! Generates all runtime utilities (instructions & maths) needed for the program.
//!
//! The definitions are created on demand, meaning that only those instructions and math
//! operations that are actually used in the program are generated. The definitions obey the
//! dependency order as a result of the on-demand generation: e.g. if `sub` requires `add`
//! internally, the addition is defined before the subtraction.

pub mod global_ids;
pub mod instructions;
pub mod math;

use vstd::prelude::*;

use crate::analyzer::{is_const_op, is_num_type, Operator, ValType};
use crate::codegen::lambda::number::{
    byte_name_t, const_bits, constant_defs_t, i32_name_t, i64_name_t, id_name_t,
    is_32_bit_const, is_32_bit_type, bytes_closed, lemma_with_byte_closed, lemma_with_i32_closed,
    lemma_with_i64_closed, lemma_with_id_closed, with_byte_c, with_i32_c, with_i64_c, with_id_c,
    NumberConstants, NumberGenerator,
};
use crate::codegen::lambda::number::{
    lemma_byte_defs_names, lemma_i32_defs_names, lemma_i64_defs_names, lemma_id_defs_names,
    lemma_ins_all_keeps, lemma_ins_contains, byte_defs_t, id_defs_t, i32_defs_t, i64_defs_t,
    le_bytes_t, rev8,
};
use crate::codegen::lambda::scope::{
    defs_ok, env_with, lemma_defs_concat, lemma_defs_ok_mono,
    lemma_env_with, lemma_env_with_contains, lemma_env_with_mono, lemma_scoped_mono, scoped,
};
use crate::codegen::lambda::{abs_string, abs_t, core_defs_t, Expr, LetExprBuilder, Term};

verus! {

/// The state of a runtime generator: the constants used and the utilities defined, in order.
pub struct RtState {
    pub consts: NumberConstants,
    pub defs: Seq<(Seq<char>, Term)>,
}

impl RtState {
    pub open spec fn has(self, name: Seq<char>) -> bool {
        exists|i: int| 0 <= i < self.defs.len() && #[trigger] self.defs[i].0 == name
    }

    /// Defines `name` unless it is defined already.
    pub open spec fn def(self, name: Seq<char>, value: Term) -> RtState {
        if self.has(name) {
            self
        } else {
            RtState { consts: self.consts, defs: self.defs.push((name, value)) }
        }
    }

    /// Defines a recursive utility, which takes itself as its first argument.
    pub open spec fn def_rec(self, name: Seq<char>, value: Term) -> RtState {
        self.def(name, abs_t(name, value))
    }

    pub open spec fn with_i32(self, n: u64) -> RtState {
        RtState { consts: with_i32_c(self.consts, n), defs: self.defs }
    }

    pub open spec fn with_i64(self, n: u64) -> RtState {
        RtState { consts: with_i64_c(self.consts, n), defs: self.defs }
    }

    pub open spec fn with_id(self, n: u64) -> RtState {
        RtState { consts: with_id_c(self.consts, n), defs: self.defs }
    }

    /// A 64-bit or a 32-bit number constant.
    pub open spec fn with_num(self, is64: bool, n: u64) -> RtState {
        if is64 { self.with_i64(n) } else { self.with_i32(n) }
    }

    pub open spec fn with_byte(self, n: u64) -> RtState {
        RtState { consts: with_byte_c(self.consts, n), defs: self.defs }
    }
}

/// A utility is defined once: defining it again changes nothing.
pub proof fn lemma_def_once(s: RtState, name: Seq<char>, value: Term, other: Term)
    ensures
        s.def(name, value).def(name, other) == s.def(name, value),
        s.def(name, value).has(name),
{
    let s1 = s.def(name, value);
    if !s.has(name) {
        assert(s1.defs[s1.defs.len() - 1].0 == name);
    }
}

/// Defining a utility keeps the others and their order; the new one comes last.
pub proof fn lemma_def_appends(s: RtState, name: Seq<char>, value: Term)
    ensures
        !s.has(name) ==> s.def(name, value).defs == s.defs.push((name, value)),
        s.has(name) ==> s.def(name, value) == s,
        s.def(name, value).consts == s.consts,
{
}

/// No utility is defined twice, however many are asked for.
pub proof fn lemma_def_distinct(s: RtState, name: Seq<char>, value: Term)
    requires
        names_distinct(s.defs),
    ensures
        names_distinct(s.def(name, value).defs),
{
    if !s.has(name) {
        let d = s.def(name, value).defs;
        assert forall|i: int, j: int| 0 <= i < j < d.len() implies d[i].0 != d[j].0 by {
            if j == s.defs.len() {
                assert(d[i] == s.defs[i]);
                assert(s.defs[i].0 != name);
            }
        }
    }
}

/// Whether a definition names `x`.
pub open spec fn named(defs: Seq<(Seq<char>, Term)>, x: Seq<char>) -> bool {
    exists|i: int| 0 <= i < defs.len() && #[trigger] defs[i].0 == x
}

proof fn lemma_named_concat(a: Seq<(Seq<char>, Term)>, b: Seq<(Seq<char>, Term)>, x: Seq<char>)
    ensures
        named(a + b, x) <==> (named(a, x) || named(b, x)),
{
    if named(a + b, x) {
        let i = choose|i: int| 0 <= i < (a + b).len() && #[trigger] (a + b)[i].0 == x;
        if i >= a.len() {
            assert(b[i - a.len()].0 == x);
        }
    }
    if named(a, x) {
        let i = choose|i: int| 0 <= i < a.len() && #[trigger] a[i].0 == x;
        assert((a + b)[i].0 == x);
    }
    if named(b, x) {
        let i = choose|i: int| 0 <= i < b.len() && #[trigger] b[i].0 == x;
        assert((a + b)[a.len() + i].0 == x);
    }
}

/// The names of the core definitions.
pub open spec fn core_env() -> Set<Seq<char>> {
    env_with(Set::empty(), core_defs_t())
}

/// The names that every utility of the runtime can refer to: the core definitions and the
/// constants.
pub open spec fn base_env(c: NumberConstants) -> Set<Seq<char>> {
    env_with(core_env(), constant_defs_t(c))
}

/// The names in scope after the utilities defined so far.
pub open spec fn in_scope(s: RtState) -> Set<Seq<char>> {
    env_with(base_env(s.consts), s.defs)
}

/// Every utility refers only to the core definitions, the constants and the utilities
/// defined before it.
pub open spec fn rt_ok(s: RtState) -> bool {
    &&& defs_ok(s.defs, base_env(s.consts))
    &&& bytes_closed(s.consts)
}

/// Every constant of `a` is one of `b`.
pub open spec fn consts_le(a: NumberConstants, b: NumberConstants) -> bool {
    &&& forall|y: u64| a.bytes.contains(y) ==> b.bytes.contains(y)
    &&& forall|y: u64| a.ids.contains(y) ==> b.ids.contains(y)
    &&& forall|y: u64| a.i32s.contains(y) ==> b.i32s.contains(y)
    &&& forall|y: u64| a.i64s.contains(y) ==> b.i64s.contains(y)
}

proof fn lemma_constant_named(c: NumberConstants, x: Seq<char>)
    ensures
        named(constant_defs_t(c), x) <==> (
            (exists|b: u64| c.bytes.contains(b) && b != 0 && x == byte_name_t(b as nat))
            || (exists|n: u64| c.ids.contains(n) && x == id_name_t(n as nat))
            || (exists|n: u64| c.i32s.contains(n) && x == i32_name_t(n as nat))
            || (exists|n: u64| c.i64s.contains(n) && x == i64_name_t(n as nat))
        ),
{
    let b = byte_defs_t(c.bytes);
    let d = id_defs_t(c.ids);
    let e = i32_defs_t(c.i32s);
    let f = i64_defs_t(c.i64s);
    lemma_named_concat(b, d, x);
    lemma_named_concat(b + d, e, x);
    lemma_named_concat(b + d + e, f, x);
    lemma_byte_defs_names(c.bytes, x);
    lemma_id_defs_names(c.ids, x);
    lemma_i32_defs_names(c.i32s, x);
    lemma_i64_defs_names(c.i64s, x);
}

/// More constants give more names.
pub proof fn lemma_base_env_mono(a: NumberConstants, b: NumberConstants)
    requires
        consts_le(a, b),
    ensures
        base_env(a).subset_of(base_env(b)),
{
    assert forall|x: Seq<char>| base_env(a).contains(x) implies base_env(b).contains(x) by {
        lemma_env_with_contains(core_env(), constant_defs_t(a), x);
        lemma_env_with_contains(core_env(), constant_defs_t(b), x);
        lemma_constant_named(a, x);
        lemma_constant_named(b, x);
    }
}

/// The constants asked for are in scope.
pub proof fn lemma_consts_in_scope(s: RtState)
    ensures
        forall|n: u64| s.consts.i32s.contains(n) ==> #[trigger] in_scope(s).contains(i32_name_t(n as nat)),
        forall|n: u64| s.consts.i64s.contains(n) ==> #[trigger] in_scope(s).contains(i64_name_t(n as nat)),
        forall|n: u64| s.consts.ids.contains(n) ==> #[trigger] in_scope(s).contains(id_name_t(n as nat)),
        forall|n: u64| s.consts.bytes.contains(n) && n != 0 ==> #[trigger] in_scope(s).contains(byte_name_t(n as nat)),
        base_env(s.consts).subset_of(in_scope(s)),
        core_env().subset_of(in_scope(s)),
{
    lemma_env_with(base_env(s.consts), s.defs);
    lemma_env_with(core_env(), constant_defs_t(s.consts));
    assert forall|n: u64| s.consts.i32s.contains(n) implies #[trigger] in_scope(s).contains(i32_name_t(n as nat)) by {
        lemma_constant_named(s.consts, i32_name_t(n as nat));
        lemma_env_with_contains(core_env(), constant_defs_t(s.consts), i32_name_t(n as nat));
    }
    assert forall|n: u64| s.consts.i64s.contains(n) implies #[trigger] in_scope(s).contains(i64_name_t(n as nat)) by {
        lemma_constant_named(s.consts, i64_name_t(n as nat));
        lemma_env_with_contains(core_env(), constant_defs_t(s.consts), i64_name_t(n as nat));
    }
    assert forall|n: u64| s.consts.ids.contains(n) implies #[trigger] in_scope(s).contains(id_name_t(n as nat)) by {
        lemma_constant_named(s.consts, id_name_t(n as nat));
        lemma_env_with_contains(core_env(), constant_defs_t(s.consts), id_name_t(n as nat));
    }
    assert forall|n: u64| s.consts.bytes.contains(n) && n != 0 implies #[trigger] in_scope(s).contains(byte_name_t(n as nat)) by {
        lemma_constant_named(s.consts, byte_name_t(n as nat));
        lemma_env_with_contains(core_env(), constant_defs_t(s.consts), byte_name_t(n as nat));
    }
}

/// Asking for a constant keeps the utilities in order and brings the constant into scope.
pub proof fn lemma_with_num(s: RtState, is64: bool, n: u64)
    requires
        rt_ok(s),
    ensures
        rt_ok(s.with_num(is64, n)),
        in_scope(s).subset_of(in_scope(s.with_num(is64, n))),
        in_scope(s.with_num(is64, n)).contains(num_t(is64, n)->Var_0),
        s.with_num(is64, n).defs == s.defs,
        consts_le(s.consts, s.with_num(is64, n).consts),
{
    let s2 = s.with_num(is64, n);
    if is64 {
        lemma_with_i64_closed(s.consts, n);
        lemma_ins_contains(s.consts.i64s, n, n);
        assert forall|y: u64| s.consts.i64s.contains(y) implies s2.consts.i64s.contains(y) by {
            lemma_ins_contains(s.consts.i64s, n, y);
        }
        assert forall|y: u64| s.consts.bytes.contains(y) implies s2.consts.bytes.contains(y) by {
            lemma_ins_all_keeps(s.consts.bytes, le_bytes_t(n as nat, 8), y);
        }
    } else {
        lemma_with_i32_closed(s.consts, n);
        lemma_ins_contains(s.consts.i32s, n, n);
        assert forall|y: u64| s.consts.i32s.contains(y) implies s2.consts.i32s.contains(y) by {
            lemma_ins_contains(s.consts.i32s, n, y);
        }
        assert forall|y: u64| s.consts.bytes.contains(y) implies s2.consts.bytes.contains(y) by {
            lemma_ins_all_keeps(s.consts.bytes, le_bytes_t(n as nat, 4), y);
        }
    }
    lemma_base_env_mono(s.consts, s2.consts);
    lemma_defs_ok_mono(s.defs, base_env(s.consts), base_env(s2.consts));
    lemma_env_with_mono(base_env(s.consts), base_env(s2.consts), s.defs);
    lemma_consts_in_scope(s2);
}

/// Asking for an ID constant keeps the utilities in order and brings the constant into scope.
pub proof fn lemma_with_id(s: RtState, n: u64)
    requires
        rt_ok(s),
    ensures
        rt_ok(s.with_id(n)),
        in_scope(s).subset_of(in_scope(s.with_id(n))),
        in_scope(s.with_id(n)).contains(id_name_t(n as nat)),
        s.with_id(n).defs == s.defs,
        consts_le(s.consts, s.with_id(n).consts),
{
    let s2 = s.with_id(n);
    lemma_with_id_closed(s.consts, n);
    lemma_ins_contains(s.consts.ids, n, n);
    assert forall|y: u64| s.consts.ids.contains(y) implies s2.consts.ids.contains(y) by {
        lemma_ins_contains(s.consts.ids, n, y);
    }
    assert forall|y: u64| s.consts.bytes.contains(y) implies s2.consts.bytes.contains(y) by {
        lemma_ins_all_keeps(s.consts.bytes, le_bytes_t(n as nat, 2).map_values(|x: nat| rev8(x)), y);
    }
    lemma_base_env_mono(s.consts, s2.consts);
    lemma_defs_ok_mono(s.defs, base_env(s.consts), base_env(s2.consts));
    lemma_env_with_mono(base_env(s.consts), base_env(s2.consts), s.defs);
    lemma_consts_in_scope(s2);
}

/// Defining a utility that refers only to names in scope keeps the utilities in order and
/// brings its name into scope.
pub proof fn lemma_def_ok(s: RtState, name: Seq<char>, value: Term)
    requires
        rt_ok(s),
        scoped(value, in_scope(s)),
    ensures
        rt_ok(s.def(name, value)),
        in_scope(s).subset_of(in_scope(s.def(name, value))),
        in_scope(s.def(name, value)).contains(name),
        s.def(name, value).consts == s.consts,
{
    if !s.has(name) {
        let e = base_env(s.consts);
        lemma_defs_concat(s.defs, seq![(name, value)], e);
        assert(s.defs.push((name, value)) == s.defs + seq![(name, value)]);
        assert(seq![(name, value)].drop_first() =~= Seq::<(Seq<char>, Term)>::empty());
        assert(defs_ok(seq![(name, value)], env_with(e, s.defs))) by {
            reveal_with_fuel(defs_ok, 2);
        }
        assert(env_with(env_with(e, s.defs), seq![(name, value)]) == env_with(env_with(e, s.defs).insert(name), Seq::<(Seq<char>, Term)>::empty()));
        assert(env_with(env_with(e, s.defs), seq![(name, value)]) == env_with(e, s.defs).insert(name));
    } else {
        let i = choose|i: int| 0 <= i < s.defs.len() && #[trigger] s.defs[i].0 == name;
        lemma_env_with(base_env(s.consts), s.defs);
    }
}

/// Defining a recursive utility that refers only to names in scope and to itself.
pub proof fn lemma_def_rec_ok(s: RtState, name: Seq<char>, value: Term)
    requires
        rt_ok(s),
        scoped(value, in_scope(s).insert(name)),
    ensures
        rt_ok(s.def_rec(name, value)),
        in_scope(s).subset_of(in_scope(s.def_rec(name, value))),
        in_scope(s.def_rec(name, value)).contains(name),
        s.def_rec(name, value).consts == s.consts,
{
    assert(scoped(abs_t(name, value), in_scope(s)));
    lemma_def_ok(s, name, abs_t(name, value));
}

/// `s2` keeps the utilities in order and has all names and constants of `s`.
pub open spec fn grows(s: RtState, s2: RtState) -> bool {
    &&& rt_ok(s2)
    &&& in_scope(s).subset_of(in_scope(s2))
    &&& consts_le(s.consts, s2.consts)
}

pub proof fn lemma_grows_refl(s: RtState)
    requires
        rt_ok(s),
    ensures
        grows(s, s),
{
}

pub proof fn lemma_grows_trans(a: RtState, b: RtState, c: RtState)
    requires
        grows(a, b),
        grows(b, c),
    ensures
        grows(a, c),
{
}

pub proof fn lemma_grows_def(s: RtState, name: Seq<char>, value: Term)
    requires
        rt_ok(s),
        scoped(value, in_scope(s)),
    ensures
        grows(s, s.def(name, value)),
        in_scope(s.def(name, value)).contains(name),
{
    lemma_def_ok(s, name, value);
}

pub proof fn lemma_grows_def_rec(s: RtState, name: Seq<char>, value: Term)
    requires
        rt_ok(s),
        scoped(value, in_scope(s).insert(name)),
    ensures
        grows(s, s.def_rec(name, value)),
        in_scope(s.def_rec(name, value)).contains(name),
{
    lemma_def_rec_ok(s, name, value);
}

pub proof fn lemma_grows_num(s: RtState, is64: bool, n: u64)
    requires
        rt_ok(s),
    ensures
        grows(s, s.with_num(is64, n)),
        in_scope(s.with_num(is64, n)).contains(num_t(is64, n)->Var_0),
{
    lemma_with_num(s, is64, n);
}

pub proof fn lemma_grows_i32(s: RtState, n: u64)
    requires
        rt_ok(s),
    ensures
        grows(s, s.with_i32(n)),
        in_scope(s.with_i32(n)).contains(i32_name_t(n as nat)),
{
    lemma_with_num(s, false, n);
}

pub proof fn lemma_grows_i64(s: RtState, n: u64)
    requires
        rt_ok(s),
    ensures
        grows(s, s.with_i64(n)),
        in_scope(s.with_i64(n)).contains(i64_name_t(n as nat)),
{
    lemma_with_num(s, true, n);
}

pub proof fn lemma_grows_id(s: RtState, n: u64)
    requires
        rt_ok(s),
    ensures
        grows(s, s.with_id(n)),
        in_scope(s.with_id(n)).contains(id_name_t(n as nat)),
{
    lemma_with_id(s, n);
}

/// A recursive helper followed by the utility built on it keeps the utilities in order.
pub proof fn lemma_grows_pair(s: RtState, helper: Seq<char>, helper_t: Term, name: Seq<char>, main: Term)
    requires
        rt_ok(s),
        scoped(helper_t, in_scope(s).insert(helper)),
        scoped(main, in_scope(s).insert(helper)),
    ensures
        grows(s, s.def_rec(helper, helper_t).def(name, main)),
        in_scope(s.def_rec(helper, helper_t).def(name, main)).contains(name),
{
    lemma_def_rec_ok(s, helper, helper_t);
    let s1 = s.def_rec(helper, helper_t);
    lemma_scoped_mono(main, in_scope(s).insert(helper), in_scope(s1));
    lemma_def_ok(s1, name, main);
}

/// Asking for a byte constant keeps the utilities in order and brings the byte into scope.
pub proof fn lemma_grows_byte(s: RtState, n: u64)
    requires
        rt_ok(s),
    ensures
        grows(s, s.with_byte(n)),
        in_scope(s.with_byte(n)).contains(byte_name_t(n as nat)),
{
    let s2 = s.with_byte(n);
    lemma_with_byte_closed(s.consts, n);
    if n != 0 {
        lemma_ins_contains(s.consts.bytes, n, n);
        assert forall|y: u64| s.consts.bytes.contains(y) implies s2.consts.bytes.contains(y) by {
            lemma_ins_contains(s.consts.bytes, n, y);
        }
    }
    lemma_base_env_mono(s.consts, s2.consts);
    lemma_defs_ok_mono(s.defs, base_env(s.consts), base_env(s2.consts));
    lemma_env_with_mono(base_env(s.consts), base_env(s2.consts), s.defs);
    lemma_consts_in_scope(s2);
    if n == 0 {
        lemma_core_names(s2);
        reveal_strlit("0b");
        reveal_strlit("b");
        assert(crate::codegen::text::hex_upper_t(0) == seq!['0']);
        assert(byte_name_t(0) =~= "0b"@);
    }
}

/// A defined utility is in scope.
pub proof fn lemma_has_in_scope(s: RtState, name: Seq<char>)
    requires
        s.has(name),
    ensures
        in_scope(s).contains(name),
{
    lemma_env_with(base_env(s.consts), s.defs);
}

/// The names of the core definitions.
pub open spec fn core_names_in(env: Set<Seq<char>>) -> bool {
    &&& env.contains("_"@) && env.contains("0"@) && env.contains("1"@) && env.contains("P"@)
    &&& env.contains("Empty"@) && env.contains("C"@) && env.contains("Byte"@)
    &&& env.contains("JoinRev"@) && env.contains("Rev"@) && env.contains("Id"@)
    &&& env.contains("I32"@) && env.contains("I64"@) && env.contains("0b"@)
    &&& env.contains("IdxBE"@) && env.contains("IdxLE"@) && env.contains("InsBE"@) && env.contains("InsLE"@)
}

/// The names of the core definitions.
pub proof fn lemma_core_env_names()
    ensures
        core_names_in(core_env()),
{
    let d = core_defs_t();
    lemma_env_with(Set::empty(), d);
    assert(d[0].0 == "_"@ && d[1].0 == "0"@ && d[2].0 == "1"@ && d[3].0 == "P"@);
    assert(d[4].0 == "Empty"@ && d[5].0 == "C"@ && d[6].0 == "Byte"@ && d[7].0 == "JoinRev"@);
    assert(d[8].0 == "Rev"@ && d[9].0 == "Id"@ && d[10].0 == "I32"@ && d[11].0 == "I64"@);
    assert(d[12].0 == "0b"@ && d[47].0 == "IdxBE"@ && d[48].0 == "IdxLE"@);
    assert(d[50].0 == "InsBE"@ && d[51].0 == "InsLE"@);
}

/// The core definitions are in scope everywhere in the runtime.
pub proof fn lemma_core_names(s: RtState)
    ensures
        core_names_in(in_scope(s)),
{
    lemma_core_env_names();
    lemma_consts_in_scope(s);
}

/// The name of a 64-bit or 32-bit number constant.
pub open spec fn num_t(is64: bool, n: u64) -> Term {
    if is64 { Term::Var(i64_name_t(n as nat)) } else { Term::Var(i32_name_t(n as nat)) }
}

/// No utility is defined twice.
pub open spec fn names_distinct(defs: Seq<(Seq<char>, Term)>) -> bool {
    forall|i: int, j: int| 0 <= i < j < defs.len() ==> defs[i].0 != defs[j].0
}

pub struct RuntimeGenerator {
    pub num: NumberGenerator,
    defs: Vec<(String, Expr)>,
}

impl RuntimeGenerator {
    /// The constants and the utilities so far.
    pub closed spec fn st(&self) -> RtState {
        RtState {
            consts: self.num@,
            defs: self.defs@.map_values(|d: (String, Expr)| (d.0@, d.1@)),
        }
    }

    pub closed spec fn wf(&self) -> bool {
        &&& self.num.wf()
        &&& names_distinct(self.st().defs)
    }

    /// A runtime in order defines each utility once.
    pub proof fn lemma_names_distinct(&self)
        requires
            self.wf(),
        ensures
            names_distinct(self.st().defs),
    {
    }

    pub fn new() -> (rt: Self)
        ensures
            rt.wf(),
            rt.st().defs.len() == 0,
            rt.st().consts.bytes.len() == 0,
            rt.st().consts.ids.len() == 0,
            rt.st().consts.i32s.len() == 0,
            rt.st().consts.i64s.len() == 0,
    {
        let rt = RuntimeGenerator { num: NumberGenerator::new(), defs: Vec::new() };
        proof {
            assert(rt.st().defs =~= Seq::<(Seq<char>, Term)>::empty());
        }
        rt
    }

    /// Whether the utility has already been defined.
    pub fn has(&self, definition_name: &str) -> (r: bool)
        ensures
            r == self.st().has(definition_name@),
    {
        let target = String::from_str(definition_name);
        let mut i: usize = 0;
        while i < self.defs.len()
            invariant
                i <= self.defs@.len(),
                target@ == definition_name@,
                forall|j: int| 0 <= j < i ==> self.st().defs[j].0 != definition_name@,
            decreases self.defs@.len() - i,
        {
            if self.defs[i].0 == target {
                assert(self.st().defs[i as int].0 == definition_name@);
                return true;
            }
            i = i + 1;
        }
        false
    }

    /// Defines a utility unless it has already been defined.
    pub fn def_string(&mut self, name: String, value: Expr)
        requires
            old(self).wf(),
        ensures
            final(self).wf(),
            final(self).st() == old(self).st().def(name@, value@),
    {
        if self.has(name.as_str()) {
            return;
        }
        let ghost before = self.st().defs;
        self.defs.push((name, value));
        proof {
            assert(self.st().defs =~= before.push((name@, value@)));
            assert forall|i: int, j: int| 0 <= i < j < self.st().defs.len() implies self.st().defs[i].0 != self.st().defs[j].0 by {
                if j == before.len() {
                    assert(self.st().defs[i] == before[i]);
                }
            }
        }
    }

    pub fn def(&mut self, name: &str, value: Expr)
        requires
            old(self).wf(),
        ensures
            final(self).wf(),
            final(self).st() == old(self).st().def(name@, value@),
    {
        self.def_string(String::from_str(name), value);
    }

    /// Same as [`Self::def`] but for recursive definitions.
    pub fn def_rec(&mut self, name: &str, value: Expr)
        requires
            old(self).wf(),
        ensures
            final(self).wf(),
            final(self).st() == old(self).st().def_rec(name@, value@),
    {
        let value = abs_string(String::from_str(name), value);
        self.def(name, value);
    }

    pub fn def_rec_string(&mut self, name: String, value: Expr)
        requires
            old(self).wf(),
        ensures
            final(self).wf(),
            final(self).st() == old(self).st().def_rec(name@, value@),
    {
        let value = abs_string(name.clone(), value);
        self.def_string(name, value);
    }

    pub fn i32_const(&mut self, n: u32) -> (e: Expr)
        requires
            old(self).wf(),
        ensures
            final(self).wf(),
            final(self).st() == old(self).st().with_i32(n as u64),
            e@ == Term::Var(i32_name_t(n as nat)),
    {
        self.num.i32_const(n)
    }

    pub fn i64_const(&mut self, n: u64) -> (e: Expr)
        requires
            old(self).wf(),
        ensures
            final(self).wf(),
            final(self).st() == old(self).st().with_i64(n),
            e@ == Term::Var(i64_name_t(n as nat)),
    {
        self.num.i64_const(n)
    }

    pub fn id_const(&mut self, n: u16) -> (e: Expr)
        requires
            old(self).wf(),
        ensures
            final(self).wf(),
            final(self).st() == old(self).st().with_id(n as u64),
            e@ == Term::Var(id_name_t(n as nat)),
    {
        self.num.id_const(n)
    }

    /// A 64-bit constant if `is64`, else a 32-bit one (`n` must fit).
    pub fn num_const(&mut self, is64: bool, n: u64) -> (e: Expr)
        requires
            old(self).wf(),
            !is64 ==> n < 0x1_0000_0000,
        ensures
            final(self).wf(),
            final(self).st() == old(self).st().with_num(is64, n),
            e@ == num_t(is64, n),
    {
        if is64 {
            self.i64_const(n)
        } else {
            self.i32_const(n as u32)
        }
    }

    pub fn byte_const(&mut self, n: u8) -> (e: Expr)
        requires
            old(self).wf(),
        ensures
            final(self).wf(),
            final(self).st() == old(self).st().with_byte(n as u64),
            e@ == Term::Var(byte_name_t(n as nat)),
    {
        self.num.byte_const(n)
    }

    /// The constant that a constant instruction pushes (floats by their bits).
    pub fn with_init_value(&mut self, init_value: &Operator) -> (e: Expr)
        requires
            old(self).wf(),
            is_const_op(init_value),
        ensures
            final(self).wf(),
            final(self).st() == old(self).st().with_num(!is_32_bit_const(init_value), const_bits(init_value)),
            e@ == num_t(!is_32_bit_const(init_value), const_bits(init_value)),
    {
        self.num.with_init_value(init_value)
    }

    /// The zero of a number type.
    pub fn default_const(&mut self, ty: ValType) -> (e: Expr)
        requires
            old(self).wf(),
            is_num_type(ty),
        ensures
            final(self).wf(),
            final(self).st() == old(self).st().with_num(!is_32_bit_type(ty), 0),
            e@ == num_t(!is_32_bit_type(ty), 0),
    {
        self.num.default_const(ty)
    }

    /// Generates variable definitions into the given `let..in` expression builder:
    /// the constants first, then the utilities in the order in which they were defined.
    pub fn generate(self, b: &mut LetExprBuilder)
        requires
            self.wf(),
        ensures
            final(b)@ == old(b)@ + constant_defs_t(self.st().consts) + self.st().defs,
    {
        let ghost defs = self.st().defs;
        let ghost start = b@;
        self.num.generate(b);
        let ghost mid = b@;
        let mut i: usize = 0;
        while i < self.defs.len()
            invariant
                i <= self.defs@.len(),
                defs == self.defs@.map_values(|d: (String, Expr)| (d.0@, d.1@)),
                b@ == mid + defs.take(i as int),
            decreases self.defs@.len() - i,
        {
            let name = self.defs[i].0.clone();
            let value = self.defs[i].1.duplicate();
            b.def_string(name, value);
            proof {
                assert(defs.take(i + 1) =~= defs.take(i as int).push(defs[i as int]));
            }
            i = i + 1;
        }
        proof {
            assert(defs.take(i as int) =~= defs);
        }
    }
}

} // verus!
