//! Numbers are represented as lists of bits:
//!
//! * `I32`/`I64` are **little-endian** lists of 32/64 bits.
//! * `Byte`s are **big-endian** lists of 8 bits.
//! * `Id`s are **big-endian** lists of 16 bits.
//!
//! Bytes are stored directly as lists of bits. `I32`/`I64` numbers are built from their
//! big-endian sequence of bytes, e.g. `0x87654321` is `(I32 87b 65b 43b 21b)`.
//! An `Id` such as `0x4321` is built from its little-endian bytes with reversed bits:
//! `(Id 84b C2b)`.

use vstd::prelude::*;

use crate::analyzer::{is_const_op, is_num_type, Operator, ValType};
use crate::codegen::lambda::{
    abs_strings, abss_t, app_t, app2_t, apply, apply1, apply2, apps_t, bit, bit_t, list, rec, rec_t,
    select, select_t, var, var_string, abs_t, Expr, LetExprBuilder, Term,
};
use crate::codegen::text::{dec_name, dec_string, dec_t, hex_upper_name, hex_upper_t};

verus! {

/// `2` to the power of `k`.
pub open spec fn p2(k: nat) -> nat
    decreases k,
{
    if k == 0 {
        1
    } else {
        2 * p2((k - 1) as nat)
    }
}

/// Bit `i` of `n` (bit 0 is the least significant one).
pub open spec fn bit_of(n: nat, i: nat) -> bool {
    (n / p2(i)) % 2 == 1
}

/// The `count` lowest bytes of `n`, least significant first.
pub open spec fn le_bytes_t(n: nat, count: nat) -> Seq<nat>
    decreases count,
{
    if count == 0 {
        Seq::empty()
    } else {
        seq![n % 256] + le_bytes_t(n / 256, (count - 1) as nat)
    }
}

/// The `count` lowest bytes of `n`, most significant first.
pub open spec fn be_bytes_t(n: nat, count: nat) -> Seq<nat> {
    le_bytes_t(n, count).reverse()
}

/// The byte `b` with the order of its 8 bits reversed, computed bit by bit.
pub open spec fn rev_bits_acc(x: nat, acc: nat, k: nat) -> nat
    decreases k,
{
    if k == 0 {
        acc
    } else {
        rev_bits_acc(x / 2, 2 * acc + x % 2, (k - 1) as nat)
    }
}

pub open spec fn rev8(b: nat) -> nat {
    rev_bits_acc(b, 0, 8)
}

/// The name under which the byte constant `b` is defined, e.g. `A5b`.
pub open spec fn byte_name_t(b: nat) -> Seq<char> {
    hex_upper_t(b) + "b"@
}

pub open spec fn byte_var_t(b: nat) -> Term {
    Term::Var(byte_name_t(b))
}

pub open spec fn id_name_t(n: nat) -> Seq<char> {
    hex_upper_t(n) + "x"@
}

pub open spec fn i32_name_t(n: nat) -> Seq<char> {
    hex_upper_t(n) + "i"@
}

pub open spec fn i64_name_t(n: nat) -> Seq<char> {
    hex_upper_t(n) + "I"@
}

/// The bits of a byte as arguments of `Byte`: the most significant bit first.
pub open spec fn byte_bits_t(n: nat) -> Seq<Term> {
    Seq::new(8, |j: int| bit_t(bit_of(n, (7 - j) as nat)))
}

/// The definition of the byte constant `n`.
pub open spec fn byte_t(n: nat) -> Term {
    apps_t(Term::Var("Byte"@), byte_bits_t(n))
}

/// The definition of the ID constant `n`: its little-endian bytes with reversed bits.
pub open spec fn id_t(n: nat) -> Term {
    app_t(app_t(Term::Var("Id"@), byte_var_t(rev8(n % 256))), byte_var_t(rev8((n / 256) % 256)))
}

pub open spec fn byte_vars_t(bytes: Seq<nat>) -> Seq<Term> {
    bytes.map_values(|b: nat| byte_var_t(b))
}

pub open spec fn i32_t(n: nat) -> Term {
    apps_t(Term::Var("I32"@), byte_vars_t(be_bytes_t(n, 4)))
}

pub open spec fn i64_t(n: nat) -> Term {
    apps_t(Term::Var("I64"@), byte_vars_t(be_bytes_t(n, 8)))
}

pub open spec fn strictly_sorted(s: Seq<u64>) -> bool {
    forall|i: int, j: int| 0 <= i < j < s.len() ==> s[i] < s[j]
}

/// `x` inserted into an increasing sequence, unless it is there already.
pub open spec fn ins(s: Seq<u64>, x: u64) -> Seq<u64>
    decreases s.len(),
{
    if s.len() == 0 {
        seq![x]
    } else if s[0] == x {
        s
    } else if x < s[0] {
        seq![x] + s
    } else {
        seq![s[0]] + ins(s.drop_first(), x)
    }
}

/// The bytes `xs` inserted one after the other.
pub open spec fn ins_all(s: Seq<u64>, xs: Seq<nat>) -> Seq<u64>
    decreases xs.len(),
{
    if xs.len() == 0 {
        s
    } else {
        ins(ins_all(s, xs.drop_last()), xs.last() as u64)
    }
}

/// The numeric constants that were asked for so far, each kind in increasing order.
pub struct NumberConstants {
    pub bytes: Seq<u64>,
    pub ids: Seq<u64>,
    pub i32s: Seq<u64>,
    pub i64s: Seq<u64>,
}

/// The definitions of the byte constants (`0` is defined in the prelude and skipped).
pub open spec fn byte_defs_t(bytes: Seq<u64>) -> Seq<(Seq<char>, Term)>
    decreases bytes.len(),
{
    if bytes.len() == 0 {
        Seq::empty()
    } else if bytes.last() == 0 {
        byte_defs_t(bytes.drop_last())
    } else {
        byte_defs_t(bytes.drop_last()).push((byte_name_t(bytes.last() as nat), byte_t(bytes.last() as nat)))
    }
}

pub open spec fn id_defs_t(ids: Seq<u64>) -> Seq<(Seq<char>, Term)>
    decreases ids.len(),
{
    if ids.len() == 0 {
        Seq::empty()
    } else {
        id_defs_t(ids.drop_last()).push((id_name_t(ids.last() as nat), id_t(ids.last() as nat)))
    }
}

pub open spec fn i32_defs_t(ns: Seq<u64>) -> Seq<(Seq<char>, Term)>
    decreases ns.len(),
{
    if ns.len() == 0 {
        Seq::empty()
    } else {
        i32_defs_t(ns.drop_last()).push((i32_name_t(ns.last() as nat), i32_t(ns.last() as nat)))
    }
}

pub open spec fn i64_defs_t(ns: Seq<u64>) -> Seq<(Seq<char>, Term)>
    decreases ns.len(),
{
    if ns.len() == 0 {
        Seq::empty()
    } else {
        i64_defs_t(ns.drop_last()).push((i64_name_t(ns.last() as nat), i64_t(ns.last() as nat)))
    }
}

/// All constant definitions: bytes, then IDs, then 32-bit and 64-bit numbers.
pub open spec fn constant_defs_t(c: NumberConstants) -> Seq<(Seq<char>, Term)> {
    byte_defs_t(c.bytes) + id_defs_t(c.ids) + i32_defs_t(c.i32s) + i64_defs_t(c.i64s)
}

/// Every byte that a constant definition refers to is itself a known byte constant.
pub open spec fn bytes_closed(c: NumberConstants) -> bool {
    &&& forall|n: u64, k: int| #![trigger c.ids.contains(n), le_bytes_t(n as nat, 2)[k]]
        c.ids.contains(n) && 0 <= k < 2 ==> c.bytes.contains(rev8(le_bytes_t(n as nat, 2)[k]) as u64)
    &&& forall|n: u64, k: int| #![trigger c.i32s.contains(n), le_bytes_t(n as nat, 4)[k]]
        c.i32s.contains(n) && 0 <= k < 4 ==> c.bytes.contains(le_bytes_t(n as nat, 4)[k] as u64)
    &&& forall|n: u64, k: int| #![trigger c.i64s.contains(n), le_bytes_t(n as nat, 8)[k]]
        c.i64s.contains(n) && 0 <= k < 8 ==> c.bytes.contains(le_bytes_t(n as nat, 8)[k] as u64)
}

/// This struct accumulates all numeric constants throughout the WASM module in order to
/// define each only once and thus reduce the resulting code size.
pub struct NumberGenerator {
    bytes: Vec<u64>,
    ids: Vec<u64>,
    i32s: Vec<u64>,
    i64s: Vec<u64>,
}

impl View for NumberGenerator {
    type V = NumberConstants;

    closed spec fn view(&self) -> NumberConstants {
        NumberConstants { bytes: self.bytes@, ids: self.ids@, i32s: self.i32s@, i64s: self.i64s@ }
    }
}

/// Inserts `x` into a strictly increasing sequence, which stays strictly increasing.
#[verifier::spinoff_prover]
#[verifier::rlimit(40)]
fn insert_sorted(v: &mut Vec<u64>, x: u64)
    requires
        strictly_sorted(old(v)@),
    ensures
        strictly_sorted(final(v)@),
        forall|y: u64| final(v)@.contains(y) <==> (old(v)@.contains(y) || y == x),
        final(v)@ == ins(old(v)@, x),
{
    let mut i: usize = 0;
    proof {
        assert(v@.take(0) + v@.skip(0) =~= v@);
        assert(v@.take(0) + ins(v@.skip(0), x) =~= ins(v@.skip(0), x));
        assert(v@.skip(0) =~= v@);
    }
    while i < v.len() && v[i] < x
        invariant
            i <= v.len(),
            v@ == old(v)@,
            strictly_sorted(v@),
            forall|k: int| 0 <= k < i ==> v@[k] < x,
            ins(v@, x) == v@.take(i as int) + ins(v@.skip(i as int), x),
        decreases v.len() - i,
    {
        proof {
            let t = v@.skip(i as int);
            assert(t[0] == v@[i as int]);
            assert(t.drop_first() =~= v@.skip(i + 1));
            assert(ins(t, x) == seq![t[0]] + ins(v@.skip(i + 1), x));
            assert(v@.take(i + 1) =~= v@.take(i as int) + seq![t[0]]);
        }
        i = i + 1;
    }
    if i < v.len() && v[i] == x {
        assert(v@[i as int] == x);
        proof {
            assert(v@.skip(i as int)[0] == x);
            assert(v@.take(i as int) + v@.skip(i as int) =~= v@);
        }
        return;
    }
    let ghost before = v@;
    v.insert(i, x);
    proof {
        assert(v@.len() == before.len() + 1);
        assert forall|k: int| 0 <= k < v@.len() implies v@[k] == (if k < i {
            before[k]
        } else if k == i {
            x
        } else {
            before[k - 1]
        }) by {}
        assert forall|y: u64| v@.contains(y) implies (before.contains(y) || y == x) by {
            let k = choose|k: int| 0 <= k < v@.len() && v@[k] == y;
            if k < i {
                assert(before[k] == y);
            } else if k > i {
                assert(before[k - 1] == y);
            }
        }
        assert forall|y: u64| before.contains(y) implies v@.contains(y) by {
            let k = choose|k: int| 0 <= k < before.len() && before[k] == y;
            if k < i {
                assert(v@[k] == y);
            } else {
                assert(v@[k + 1] == y);
            }
        }
        assert(v@[i as int] == x);
        assert(v@.contains(x));
        if i < before.len() {
            assert(before.skip(i as int)[0] == before[i as int]);
            assert(x < before[i as int]);
        }
        assert(v@ =~= before.take(i as int) + ins(before.skip(i as int), x));
    }
}

/// Every item of `le_bytes_t` is a byte.
pub proof fn lemma_le_bytes_bound(n: nat, count: nat, k: int)
    requires
        0 <= k < count,
    ensures
        le_bytes_t(n, count)[k] < 256,
    decreases count,
{
    lemma_le_bytes_len(n, count);
    if k > 0 {
        lemma_le_bytes_len(n / 256, (count - 1) as nat);
        lemma_le_bytes_bound(n / 256, (count - 1) as nat, k - 1);
    }
}

/// `le_bytes_t` has `count` items.
pub proof fn lemma_le_bytes_len(n: nat, count: nat)
    ensures
        le_bytes_t(n, count).len() == count,
        be_bytes_t(n, count).len() == count,
    decreases count,
{
    if count > 0 {
        lemma_le_bytes_len(n / 256, (count - 1) as nat);
    }
}

impl NumberGenerator {
    /// Every kind of constant is kept in increasing order without repetition, and every byte
    /// that a constant is built from is known too.
    pub closed spec fn wf(&self) -> bool {
        &&& strictly_sorted(self.bytes@)
        &&& strictly_sorted(self.ids@)
        &&& strictly_sorted(self.i32s@)
        &&& strictly_sorted(self.i64s@)
        &&& forall|i: int| 0 <= i < self.bytes@.len() ==> self.bytes@[i] < 256
        &&& forall|i: int| 0 <= i < self.ids@.len() ==> self.ids@[i] < 65536
        &&& forall|i: int| 0 <= i < self.i32s@.len() ==> self.i32s@[i] < 0x1_0000_0000
        &&& bytes_closed(self@)
    }

    pub fn new() -> (g: Self)
        ensures
            g.wf(),
            g@.bytes.len() == 0,
            g@.ids.len() == 0,
            g@.i32s.len() == 0,
            g@.i64s.len() == 0,
    {
        NumberGenerator { bytes: Vec::new(), ids: Vec::new(), i32s: Vec::new(), i64s: Vec::new() }
    }
}


/// `acc` grows by at most the bits that are still to come.
proof fn lemma_rev_bits_acc_bound(x: nat, acc: nat, k: nat)
    ensures
        rev_bits_acc(x, acc, k) < (acc + 1) * p2(k),
    decreases k,
{
    if k > 0 {
        lemma_rev_bits_acc_bound(x / 2, 2 * acc + x % 2, (k - 1) as nat);
        let a2 = 2 * acc + x % 2;
        let q = p2((k - 1) as nat);
        assert((a2 + 1) * q <= (acc + 1) * (2 * q)) by (nonlinear_arith)
            requires
                a2 <= 2 * acc + 1,
        ;
    } else {
        assert(p2(0) == 1);
    }
}

/// A byte with its bits reversed is a byte.
pub proof fn lemma_rev8_bound(b: nat)
    ensures
        rev8(b) < 256,
{
    lemma_rev_bits_acc_bound(b, 0, 8);
    assert(p2(8) == 256) by {
        reveal_with_fuel(p2, 9);
    }
    assert(rev8(b) == rev_bits_acc(b, 0, 8));
}

/// Reverses the order of the 8 bits of a byte.
pub fn reverse_byte(b: u64) -> (r: u64)
    requires
        b < 256,
    ensures
        r == rev8(b as nat),
        r < 256,
{
    let mut x = b;
    let mut acc: u64 = 0;
    let mut k: u64 = 0;
    while k < 8
        invariant
            k <= 8,
            acc < p2(k as nat),
            rev_bits_acc(x as nat, acc as nat, (8 - k) as nat) == rev8(b as nat),
        decreases 8 - k,
    {
        proof {
            reveal_with_fuel(p2, 9);
        }
        acc = 2 * acc + x % 2;
        x = x / 2;
        k = k + 1;
    }
    proof {
        lemma_rev_bits_acc_bound(b as nat, 0, 8);
        reveal_with_fuel(p2, 9);
    }
    acc
}

/// The `count` lowest bytes of `n`, least significant first.
pub fn le_bytes(n: u64, count: usize) -> (v: Vec<u64>)
    ensures
        v.len() == count,
        forall|k: int| 0 <= k < count ==> v@[k] == le_bytes_t(n as nat, count as nat)[k],
        forall|k: int| 0 <= k < count ==> v@[k] < 256,
{
    let mut v: Vec<u64> = Vec::new();
    let mut x = n;
    let mut k: usize = 0;
    proof {
        lemma_le_bytes_len(n as nat, count as nat);
    }
    while k < count
        invariant
            k <= count,
            v.len() == k,
            forall|j: int| 0 <= j < k ==> v@[j] == le_bytes_t(n as nat, count as nat)[j],
            forall|j: int| 0 <= j < k ==> v@[j] < 256,
            le_bytes_t(n as nat, count as nat).len() == count,
            le_bytes_t(n as nat, count as nat).skip(k as int) =~= le_bytes_t(x as nat, (count - k) as nat),
        decreases count - k,
    {
        let ghost rest = le_bytes_t(n as nat, count as nat).skip(k as int);
        proof {
            assert(rest[0] == x % 256);
            assert(le_bytes_t(n as nat, count as nat)[k as int] == rest[0]);
            assert(rest.skip(1) =~= le_bytes_t(n as nat, count as nat).skip(k + 1));
            assert(rest.skip(1) =~= le_bytes_t((x / 256) as nat, (count - k - 1) as nat));
        }
        v.push(x % 256);
        x = x / 256;
        k = k + 1;
    }
    v
}

/// Variables of the byte constants of the `count` lowest bytes of `n`, most significant first.
fn byte_vars_be(n: u64, count: usize) -> (v: Vec<Expr>)
    ensures
        v@.map_values(|e: Expr| e@) == byte_vars_t(be_bytes_t(n as nat, count as nat)),
{
    let le = le_bytes(n, count);
    let ghost target = byte_vars_t(be_bytes_t(n as nat, count as nat));
    proof {
        lemma_le_bytes_len(n as nat, count as nat);
    }
    let mut v: Vec<Expr> = Vec::new();
    let mut j: usize = 0;
    while j < count
        invariant
            j <= count,
            le.len() == count,
            forall|k: int| 0 <= k < count ==> le@[k] == le_bytes_t(n as nat, count as nat)[k],
            target == byte_vars_t(be_bytes_t(n as nat, count as nat)),
            le_bytes_t(n as nat, count as nat).len() == count,
            target.len() == count,
            v.len() == j,
            forall|k: int| 0 <= k < j ==> v@[k]@ == target[k],
        decreases count - j,
    {
        let b = le[count - 1 - j];
        v.push(var_string(hex_upper_name(b, "b")));
        j = j + 1;
    }
    proof {
        assert(v@.map_values(|e: Expr| e@) =~= target);
    }
    v
}

/// The definition of a byte constant: `Byte` applied to its bits, most significant first.
fn byte_expr(byte: u64) -> (e: Expr)
    requires
        byte < 256,
    ensures
        e@ == byte_t(byte as nat),
{
    let mut args: Vec<Expr> = Vec::new();
    let mut d: u64 = 128;
    let mut j: u64 = 0;
    proof {
        reveal_with_fuel(p2, 9);
    }
    while j < 8
        invariant
            j <= 8,
            j < 8 ==> d == p2((7 - j) as nat),
            args.len() == j,
            forall|k: int| 0 <= k < j ==> args@[k]@ == byte_bits_t(byte as nat)[k],
        decreases 8 - j,
    {
        proof {
            reveal_with_fuel(p2, 9);
        }
        args.push(bit((byte / d) % 2 == 1));
        d = d / 2;
        j = j + 1;
    }
    proof {
        assert(args@.map_values(|e: Expr| e@) =~= byte_bits_t(byte as nat));
    }
    apply(var("Byte"), args)
}

fn id_expr(id: u64) -> (e: Expr)
    requires
        id < 65536,
    ensures
        e@ == id_t(id as nat),
{
    let lo = reverse_byte(id % 256);
    let hi = reverse_byte((id / 256) % 256);
    apply2(var("Id"), var_string(hex_upper_name(lo, "b")), var_string(hex_upper_name(hi, "b")))
}

fn i32_expr(n: u64) -> (e: Expr)
    ensures
        e@ == i32_t(n as nat),
{
    apply(var("I32"), byte_vars_be(n, 4))
}

fn i64_expr(n: u64) -> (e: Expr)
    ensures
        e@ == i64_t(n as nat),
{
    apply(var("I64"), byte_vars_be(n, 8))
}

/// The constants with the byte `n` added (the null byte is predefined and never added).
pub open spec fn with_byte_c(c: NumberConstants, n: u64) -> NumberConstants {
    if n == 0 {
        c
    } else {
        NumberConstants { bytes: ins(c.bytes, n), ..c }
    }
}

/// The constants with the ID `n` added, together with its bytes with reversed bits.
pub open spec fn with_id_c(c: NumberConstants, n: u64) -> NumberConstants {
    NumberConstants {
        ids: ins(c.ids, n),
        bytes: ins_all(c.bytes, le_bytes_t(n as nat, 2).map_values(|x: nat| rev8(x))),
        ..c
    }
}

/// The constants with the 32-bit number `n` added, together with its bytes.
pub open spec fn with_i32_c(c: NumberConstants, n: u64) -> NumberConstants {
    NumberConstants { i32s: ins(c.i32s, n), bytes: ins_all(c.bytes, le_bytes_t(n as nat, 4)), ..c }
}

/// The constants with the 64-bit number `n` added, together with its bytes.
pub open spec fn with_i64_c(c: NumberConstants, n: u64) -> NumberConstants {
    NumberConstants { i64s: ins(c.i64s, n), bytes: ins_all(c.bytes, le_bytes_t(n as nat, 8)), ..c }
}

/// Whether `y` is one of the given bytes.
pub open spec fn among(y: u64, bytes: Seq<nat>) -> bool {
    bytes.contains(y as nat)
}

/// `b` is `a` with the byte constant `n` added.
pub open spec fn adds_byte(a: NumberConstants, b: NumberConstants, n: u64) -> bool {
    &&& forall|y: u64| b.bytes.contains(y) <==> (a.bytes.contains(y) || y == n)
    &&& b.ids == a.ids
    &&& b.i32s == a.i32s
    &&& b.i64s == a.i64s
}

/// `b` is `a` with the ID constant `n` added, together with its bytes with reversed bits.
pub open spec fn adds_id(a: NumberConstants, b: NumberConstants, n: u64) -> bool {
    &&& forall|y: u64| b.ids.contains(y) <==> (a.ids.contains(y) || y == n)
    &&& forall|y: u64| b.bytes.contains(y) <==> (a.bytes.contains(y) || among(y, le_bytes_t(n as nat, 2).map_values(|x: nat| rev8(x))))
    &&& b.i32s == a.i32s
    &&& b.i64s == a.i64s
}

/// `b` is `a` with the 32-bit constant `n` added, together with its bytes.
pub open spec fn adds_i32(a: NumberConstants, b: NumberConstants, n: u64) -> bool {
    &&& forall|y: u64| b.i32s.contains(y) <==> (a.i32s.contains(y) || y == n)
    &&& forall|y: u64| b.bytes.contains(y) <==> (a.bytes.contains(y) || among(y, le_bytes_t(n as nat, 4)))
    &&& b.ids == a.ids
    &&& b.i64s == a.i64s
}

/// `b` is `a` with the 64-bit constant `n` added, together with its bytes.
pub open spec fn adds_i64(a: NumberConstants, b: NumberConstants, n: u64) -> bool {
    &&& forall|y: u64| b.i64s.contains(y) <==> (a.i64s.contains(y) || y == n)
    &&& forall|y: u64| b.bytes.contains(y) <==> (a.bytes.contains(y) || among(y, le_bytes_t(n as nat, 8)))
    &&& b.ids == a.ids
    &&& b.i32s == a.i32s
}

/// The value of a constant instruction as the 32-bit or 64-bit pattern it is stored as.
pub open spec fn const_bits(op: &Operator) -> u64 {
    match op {
        Operator::I32Const { value } => (*value as u32) as u64,
        Operator::I64Const { value } => *value as u64,
        Operator::F32Const { value } => *value as u64,
        Operator::F64Const { value } => *value,
        _ => 0,
    }
}

/// Whether the constant instruction has a 32-bit value.
pub open spec fn is_32_bit_const(op: &Operator) -> bool {
    op is I32Const || op is F32Const
}

/// Whether the value type is a 32-bit one.
pub open spec fn is_32_bit_type(ty: ValType) -> bool {
    ty == ValType::I32 || ty == ValType::F32
}

impl NumberGenerator {
    /// Inserts the given bytes of a constant.
    fn add_bytes(&mut self, bytes: &Vec<u64>)
        requires
            strictly_sorted(old(self).bytes@),
            forall|k: int| 0 <= k < bytes.len() ==> bytes@[k] < 256,
        ensures
            strictly_sorted(final(self).bytes@),
            forall|y: u64| final(self).bytes@.contains(y) <==> (old(self).bytes@.contains(y) || exists|j: int| 0 <= j < bytes.len() && bytes@[j] == y),
            final(self).bytes@ == ins_all(old(self).bytes@, bytes@.map_values(|b: u64| b as nat)),
            forall|i: int| 0 <= i < final(self).bytes@.len() ==> final(self).bytes@[i] < 256 || old(self).bytes@.contains(final(self).bytes@[i]),
            final(self).ids == old(self).ids,
            final(self).i32s == old(self).i32s,
            final(self).i64s == old(self).i64s,
    {
        let mut k: usize = 0;
        while k < bytes.len()
            invariant
                k <= bytes.len(),
                strictly_sorted(self.bytes@),
                forall|k2: int| 0 <= k2 < bytes.len() ==> bytes@[k2] < 256,
                forall|y: u64| self.bytes@.contains(y) <==> (old(self).bytes@.contains(y) || exists|j: int| 0 <= j < k && bytes@[j] == y),
                self.bytes@ == ins_all(old(self).bytes@, bytes@.map_values(|b: u64| b as nat).take(k as int)),
                self.ids == old(self).ids,
                self.i32s == old(self).i32s,
                self.i64s == old(self).i64s,
            decreases bytes.len() - k,
        {
            insert_sorted(&mut self.bytes, bytes[k]);
            proof {
                let xs = bytes@.map_values(|b: u64| b as nat);
                assert(xs.take(k + 1).drop_last() =~= xs.take(k as int));
                assert(xs.take(k + 1).last() as u64 == bytes@[k as int]);
            }
            k = k + 1;
        }
        proof {
            assert(bytes@.map_values(|b: u64| b as nat).take(k as int) =~= bytes@.map_values(|b: u64| b as nat));
            assert forall|i: int| 0 <= i < self.bytes@.len() implies self.bytes@[i] < 256 || old(self).bytes@.contains(self.bytes@[i]) by {
                assert(self.bytes@.contains(self.bytes@[i]));

            }
        }
    }
}

/// Inserting keeps what was there and adds the new element.
pub proof fn lemma_ins_contains(s: Seq<u64>, x: u64, y: u64)
    ensures
        ins(s, x).contains(y) <==> (s.contains(y) || y == x),
    decreases s.len(),
{
    if s.len() > 0 && s[0] != x && x >= s[0] {
        lemma_ins_contains(s.drop_first(), x, y);
        if s.contains(y) && y != s[0] {
            let i = choose|i: int| 0 <= i < s.len() && s[i] == y;
            assert(s.drop_first()[i - 1] == y);
        }
        if ins(s, x).contains(y) {
            let i = choose|i: int| 0 <= i < ins(s, x).len() && ins(s, x)[i] == y;
            if i > 0 {
                assert(ins(s.drop_first(), x)[i - 1] == y);
            }
        }
        if s.drop_first().contains(y) {
            let i = choose|i: int| 0 <= i < s.drop_first().len() && s.drop_first()[i] == y;
            assert(s[i + 1] == y);
        }
        if ins(s.drop_first(), x).contains(y) {
            let i = choose|i: int| 0 <= i < ins(s.drop_first(), x).len() && ins(s.drop_first(), x)[i] == y;
            assert(ins(s, x)[i + 1] == y);
        }
    } else if s.len() > 0 && s[0] != x {
        if s.contains(y) {
            let i = choose|i: int| 0 <= i < s.len() && s[i] == y;
            assert(ins(s, x)[i + 1] == y);
        }
        if ins(s, x).contains(y) {
            let i = choose|i: int| 0 <= i < ins(s, x).len() && ins(s, x)[i] == y;
            if i > 0 {
                assert(s[i - 1] == y);
            }
        }
        assert(ins(s, x)[0] == x);
    } else if s.len() > 0 {
        assert(s[0] == x);
    } else {
        assert(ins(s, x)[0] == x);
    }
}

/// Inserting several elements keeps what was there.
pub proof fn lemma_ins_all_keeps(s: Seq<u64>, xs: Seq<nat>, y: u64)
    requires
        s.contains(y),
    ensures
        ins_all(s, xs).contains(y),
    decreases xs.len(),
{
    if xs.len() > 0 {
        lemma_ins_all_keeps(s, xs.drop_last(), y);
        lemma_ins_contains(ins_all(s, xs.drop_last()), xs.last() as u64, y);
    }
}

/// The byte constants that are defined: every one asked for but `0`.
pub proof fn lemma_byte_defs_names(bytes: Seq<u64>, x: Seq<char>)
    ensures
        (exists|i: int| 0 <= i < byte_defs_t(bytes).len() && #[trigger] byte_defs_t(bytes)[i].0 == x)
            <==> (exists|b: u64| bytes.contains(b) && b != 0 && x == byte_name_t(b as nat)),
    decreases bytes.len(),
{
    if bytes.len() > 0 {
        let rest = bytes.drop_last();
        lemma_byte_defs_names(rest, x);
        let d = byte_defs_t(bytes);
        let dr = byte_defs_t(rest);
        if exists|b: u64| rest.contains(b) && b != 0 && x == byte_name_t(b as nat) {
            let b = choose|b: u64| rest.contains(b) && b != 0 && x == byte_name_t(b as nat);
            let j = choose|j: int| 0 <= j < rest.len() && rest[j] == b;
            assert(bytes[j] == b);
        }
        if exists|b: u64| bytes.contains(b) && b != 0 && x == byte_name_t(b as nat) {
            let b = choose|b: u64| bytes.contains(b) && b != 0 && x == byte_name_t(b as nat);
            let j = choose|j: int| 0 <= j < bytes.len() && bytes[j] == b;
            if j < bytes.len() - 1 {
                assert(rest[j] == b);
            } else {
                assert(d[d.len() - 1].0 == x);
            }
        }
        if exists|i: int| 0 <= i < d.len() && #[trigger] d[i].0 == x {
            let i = choose|i: int| 0 <= i < d.len() && #[trigger] d[i].0 == x;
            if i < dr.len() {
                assert(dr[i].0 == x);
            } else {
                assert(bytes[bytes.len() - 1] == bytes.last());
            }
        }
        if exists|i: int| 0 <= i < dr.len() && #[trigger] dr[i].0 == x {
            let i = choose|i: int| 0 <= i < dr.len() && #[trigger] dr[i].0 == x;
            assert(d[i].0 == x);
        }
    }
}

/// The id constants that are defined: every one asked for.
pub proof fn lemma_id_defs_names(ns: Seq<u64>, x: Seq<char>)
    ensures
        (exists|i: int| 0 <= i < id_defs_t(ns).len() && #[trigger] id_defs_t(ns)[i].0 == x)
            <==> (exists|n: u64| ns.contains(n) && x == id_name_t(n as nat)),
    decreases ns.len(),
{
    if ns.len() > 0 {
        let rest = ns.drop_last();
        lemma_id_defs_names(rest, x);
        let d = id_defs_t(ns);
        let dr = id_defs_t(rest);
        if exists|n: u64| rest.contains(n) && x == id_name_t(n as nat) {
            let n = choose|n: u64| rest.contains(n) && x == id_name_t(n as nat);
            let j = choose|j: int| 0 <= j < rest.len() && rest[j] == n;
            assert(ns[j] == n);
        }
        if exists|n: u64| ns.contains(n) && x == id_name_t(n as nat) {
            let n = choose|n: u64| ns.contains(n) && x == id_name_t(n as nat);
            let j = choose|j: int| 0 <= j < ns.len() && ns[j] == n;
            if j < ns.len() - 1 {
                assert(rest[j] == n);
            } else {
                assert(d[d.len() - 1].0 == x);
            }
        }
        if exists|i: int| 0 <= i < d.len() && #[trigger] d[i].0 == x {
            let i = choose|i: int| 0 <= i < d.len() && #[trigger] d[i].0 == x;
            if i < dr.len() {
                assert(dr[i].0 == x);
            } else {
                assert(ns[ns.len() - 1] == ns.last());
            }
        }
        if exists|i: int| 0 <= i < dr.len() && #[trigger] dr[i].0 == x {
            let i = choose|i: int| 0 <= i < dr.len() && #[trigger] dr[i].0 == x;
            assert(d[i].0 == x);
        }
    }
}

/// The i32 constants that are defined: every one asked for.
pub proof fn lemma_i32_defs_names(ns: Seq<u64>, x: Seq<char>)
    ensures
        (exists|i: int| 0 <= i < i32_defs_t(ns).len() && #[trigger] i32_defs_t(ns)[i].0 == x)
            <==> (exists|n: u64| ns.contains(n) && x == i32_name_t(n as nat)),
    decreases ns.len(),
{
    if ns.len() > 0 {
        let rest = ns.drop_last();
        lemma_i32_defs_names(rest, x);
        let d = i32_defs_t(ns);
        let dr = i32_defs_t(rest);
        if exists|n: u64| rest.contains(n) && x == i32_name_t(n as nat) {
            let n = choose|n: u64| rest.contains(n) && x == i32_name_t(n as nat);
            let j = choose|j: int| 0 <= j < rest.len() && rest[j] == n;
            assert(ns[j] == n);
        }
        if exists|n: u64| ns.contains(n) && x == i32_name_t(n as nat) {
            let n = choose|n: u64| ns.contains(n) && x == i32_name_t(n as nat);
            let j = choose|j: int| 0 <= j < ns.len() && ns[j] == n;
            if j < ns.len() - 1 {
                assert(rest[j] == n);
            } else {
                assert(d[d.len() - 1].0 == x);
            }
        }
        if exists|i: int| 0 <= i < d.len() && #[trigger] d[i].0 == x {
            let i = choose|i: int| 0 <= i < d.len() && #[trigger] d[i].0 == x;
            if i < dr.len() {
                assert(dr[i].0 == x);
            } else {
                assert(ns[ns.len() - 1] == ns.last());
            }
        }
        if exists|i: int| 0 <= i < dr.len() && #[trigger] dr[i].0 == x {
            let i = choose|i: int| 0 <= i < dr.len() && #[trigger] dr[i].0 == x;
            assert(d[i].0 == x);
        }
    }
}

/// The i64 constants that are defined: every one asked for.
pub proof fn lemma_i64_defs_names(ns: Seq<u64>, x: Seq<char>)
    ensures
        (exists|i: int| 0 <= i < i64_defs_t(ns).len() && #[trigger] i64_defs_t(ns)[i].0 == x)
            <==> (exists|n: u64| ns.contains(n) && x == i64_name_t(n as nat)),
    decreases ns.len(),
{
    if ns.len() > 0 {
        let rest = ns.drop_last();
        lemma_i64_defs_names(rest, x);
        let d = i64_defs_t(ns);
        let dr = i64_defs_t(rest);
        if exists|n: u64| rest.contains(n) && x == i64_name_t(n as nat) {
            let n = choose|n: u64| rest.contains(n) && x == i64_name_t(n as nat);
            let j = choose|j: int| 0 <= j < rest.len() && rest[j] == n;
            assert(ns[j] == n);
        }
        if exists|n: u64| ns.contains(n) && x == i64_name_t(n as nat) {
            let n = choose|n: u64| ns.contains(n) && x == i64_name_t(n as nat);
            let j = choose|j: int| 0 <= j < ns.len() && ns[j] == n;
            if j < ns.len() - 1 {
                assert(rest[j] == n);
            } else {
                assert(d[d.len() - 1].0 == x);
            }
        }
        if exists|i: int| 0 <= i < d.len() && #[trigger] d[i].0 == x {
            let i = choose|i: int| 0 <= i < d.len() && #[trigger] d[i].0 == x;
            if i < dr.len() {
                assert(dr[i].0 == x);
            } else {
                assert(ns[ns.len() - 1] == ns.last());
            }
        }
        if exists|i: int| 0 <= i < dr.len() && #[trigger] dr[i].0 == x {
            let i = choose|i: int| 0 <= i < dr.len() && #[trigger] dr[i].0 == x;
            assert(d[i].0 == x);
        }
    }
}

/// Adding bytes, and nothing else, keeps the constants closed.
proof fn lemma_closed_more_bytes(a: NumberConstants, b: NumberConstants)
    requires
        bytes_closed(a),
        forall|y: u64| a.bytes.contains(y) ==> b.bytes.contains(y),
        b.ids == a.ids,
        b.i32s == a.i32s,
        b.i64s == a.i64s,
    ensures
        bytes_closed(b),
{
}

proof fn lemma_closed_add_id(a: NumberConstants, b: NumberConstants, n: u64)
    requires
        bytes_closed(a),
        b.bytes == a.bytes,
        b.i32s == a.i32s,
        b.i64s == a.i64s,
        forall|y: u64| b.ids.contains(y) <==> (a.ids.contains(y) || y == n),
        forall|k: int| 0 <= k < 2 ==> a.bytes.contains(rev8(le_bytes_t(n as nat, 2)[k]) as u64),
    ensures
        bytes_closed(b),
{
    assert forall|m: u64, k: int| #![trigger b.ids.contains(m), le_bytes_t(m as nat, 2)[k]]
        b.ids.contains(m) && 0 <= k < 2 implies b.bytes.contains(rev8(le_bytes_t(m as nat, 2)[k]) as u64) by {
        if m != n {
            assert(a.ids.contains(m));
        }
    }
}

proof fn lemma_closed_add_i32(a: NumberConstants, b: NumberConstants, n: u64)
    requires
        bytes_closed(a),
        b.bytes == a.bytes,
        b.ids == a.ids,
        b.i64s == a.i64s,
        forall|y: u64| b.i32s.contains(y) <==> (a.i32s.contains(y) || y == n),
        forall|k: int| 0 <= k < 4 ==> a.bytes.contains(le_bytes_t(n as nat, 4)[k] as u64),
    ensures
        bytes_closed(b),
{
    assert forall|m: u64, k: int| #![trigger b.i32s.contains(m), le_bytes_t(m as nat, 4)[k]]
        b.i32s.contains(m) && 0 <= k < 4 implies b.bytes.contains(le_bytes_t(m as nat, 4)[k] as u64) by {
        if m != n {
            assert(a.i32s.contains(m));
        }
    }
}

proof fn lemma_closed_add_i64(a: NumberConstants, b: NumberConstants, n: u64)
    requires
        bytes_closed(a),
        b.bytes == a.bytes,
        b.ids == a.ids,
        b.i32s == a.i32s,
        forall|y: u64| b.i64s.contains(y) <==> (a.i64s.contains(y) || y == n),
        forall|k: int| 0 <= k < 8 ==> a.bytes.contains(le_bytes_t(n as nat, 8)[k] as u64),
    ensures
        bytes_closed(b),
{
    assert forall|m: u64, k: int| #![trigger b.i64s.contains(m), le_bytes_t(m as nat, 8)[k]]
        b.i64s.contains(m) && 0 <= k < 8 implies b.bytes.contains(le_bytes_t(m as nat, 8)[k] as u64) by {
        if m != n {
            assert(a.i64s.contains(m));
        }
    }
}

/// The items inserted are in the result.
pub proof fn lemma_ins_all_contains(s: Seq<u64>, xs: Seq<nat>, k: int)
    requires
        0 <= k < xs.len(),
    ensures
        ins_all(s, xs).contains(xs[k] as u64),
    decreases xs.len(),
{
    let rest = xs.drop_last();
    if k < rest.len() {
        lemma_ins_all_contains(s, rest, k);
        assert(rest[k] == xs[k]);
        lemma_ins_contains(ins_all(s, rest), xs.last() as u64, xs[k] as u64);
    } else {
        lemma_ins_contains(ins_all(s, rest), xs.last() as u64, xs[k] as u64);
    }
}

/// Asking for a byte keeps every constant's bytes known.
pub proof fn lemma_with_byte_closed(c: NumberConstants, n: u64)
    requires
        bytes_closed(c),
    ensures
        bytes_closed(with_byte_c(c, n)),
{
    if n != 0 {
        assert forall|y: u64| c.bytes.contains(y) implies with_byte_c(c, n).bytes.contains(y) by {
            lemma_ins_contains(c.bytes, n, y);
        }
        lemma_closed_more_bytes(c, with_byte_c(c, n));
    }
}

/// Asking for an ID keeps every constant's bytes known.
pub proof fn lemma_with_id_closed(c: NumberConstants, n: u64)
    requires
        bytes_closed(c),
    ensures
        bytes_closed(with_id_c(c, n)),
{
    let revs = le_bytes_t(n as nat, 2).map_values(|x: nat| rev8(x));
    let mid = NumberConstants { bytes: ins_all(c.bytes, revs), ..c };
    assert forall|y: u64| c.bytes.contains(y) implies mid.bytes.contains(y) by {
        lemma_ins_all_keeps(c.bytes, revs, y);
    }
    lemma_closed_more_bytes(c, mid);
    lemma_le_bytes_len(n as nat, 2);
    assert forall|k: int| 0 <= k < 2 implies mid.bytes.contains(rev8(le_bytes_t(n as nat, 2)[k]) as u64) by {
        lemma_ins_all_contains(c.bytes, revs, k);
    }
    assert forall|y: u64| with_id_c(c, n).ids.contains(y) <==> (mid.ids.contains(y) || y == n) by {
        lemma_ins_contains(c.ids, n, y);
    }
    lemma_closed_add_id(mid, with_id_c(c, n), n);
}

/// Asking for a 32-bit number keeps every constant's bytes known.
pub proof fn lemma_with_i32_closed(c: NumberConstants, n: u64)
    requires
        bytes_closed(c),
    ensures
        bytes_closed(with_i32_c(c, n)),
{
    let le = le_bytes_t(n as nat, 4);
    let mid = NumberConstants { bytes: ins_all(c.bytes, le), ..c };
    assert forall|y: u64| c.bytes.contains(y) implies mid.bytes.contains(y) by {
        lemma_ins_all_keeps(c.bytes, le, y);
    }
    lemma_closed_more_bytes(c, mid);
    lemma_le_bytes_len(n as nat, 4);
    assert forall|k: int| 0 <= k < 4 implies mid.bytes.contains(le_bytes_t(n as nat, 4)[k] as u64) by {
        lemma_ins_all_contains(c.bytes, le, k);
    }
    assert forall|y: u64| with_i32_c(c, n).i32s.contains(y) <==> (mid.i32s.contains(y) || y == n) by {
        lemma_ins_contains(c.i32s, n, y);
    }
    lemma_closed_add_i32(mid, with_i32_c(c, n), n);
}

/// Asking for a 64-bit number keeps every constant's bytes known.
pub proof fn lemma_with_i64_closed(c: NumberConstants, n: u64)
    requires
        bytes_closed(c),
    ensures
        bytes_closed(with_i64_c(c, n)),
{
    let le = le_bytes_t(n as nat, 8);
    let mid = NumberConstants { bytes: ins_all(c.bytes, le), ..c };
    assert forall|y: u64| c.bytes.contains(y) implies mid.bytes.contains(y) by {
        lemma_ins_all_keeps(c.bytes, le, y);
    }
    lemma_closed_more_bytes(c, mid);
    lemma_le_bytes_len(n as nat, 8);
    assert forall|k: int| 0 <= k < 8 implies mid.bytes.contains(le_bytes_t(n as nat, 8)[k] as u64) by {
        lemma_ins_all_contains(c.bytes, le, k);
    }
    assert forall|y: u64| with_i64_c(c, n).i64s.contains(y) <==> (mid.i64s.contains(y) || y == n) by {
        lemma_ins_contains(c.i64s, n, y);
    }
    lemma_closed_add_i64(mid, with_i64_c(c, n), n);
}

impl NumberGenerator {
    pub fn byte_const(&mut self, byte: u8) -> (e: Expr)
        requires
            old(self).wf(),
        ensures
            final(self).wf(),
            e@ == Term::Var(byte_name_t(byte as nat)),
            byte == 0 ==> final(self)@ == old(self)@,
            byte != 0 ==> adds_byte(old(self)@, final(self)@, byte as u64),
            final(self)@ == with_byte_c(old(self)@, byte as u64),
    {
        if byte == 0 {
            return null_byte();
        }
        let ghost a = self@;
        insert_sorted(&mut self.bytes, byte as u64);
        proof {
            lemma_closed_more_bytes(a, self@);
            assert forall|i: int| 0 <= i < self.bytes@.len() implies self.bytes@[i] < 256 by {
                assert(self.bytes@.contains(self.bytes@[i]));
                if self.bytes@[i] != byte as u64 {
                    let j = choose|j: int| 0 <= j < a.bytes.len() && a.bytes[j] == self.bytes@[i];
                }
            }
        }
        var_string(hex_upper_name(byte as u64, "b"))
    }

    pub fn id_const(&mut self, id: u16) -> (e: Expr)
        requires
            old(self).wf(),
        ensures
            final(self).wf(),
            e@ == Term::Var(id_name_t(id as nat)),
            adds_id(old(self)@, final(self)@, id as u64),
            final(self)@ == with_id_c(old(self)@, id as u64),
    {
        let ghost a = self@;
        let le = le_bytes(id as u64, 2);
        let r0 = reverse_byte(le[0]);
        let r1 = reverse_byte(le[1]);
        let mut bytes: Vec<u64> = Vec::new();
        bytes.push(r0);
        bytes.push(r1);
        let ghost revs = le_bytes_t(id as nat, 2).map_values(|x: nat| rev8(x));
        proof {
            lemma_le_bytes_len(id as nat, 2);
            assert(revs[0] == r0 && revs[1] == r1);
            assert(bytes@.map_values(|b: u64| b as nat) =~= revs);
        }
        self.add_bytes(&bytes);
        let ghost mid = self@;
        proof {
            lemma_closed_more_bytes(a, mid);
        }
        insert_sorted(&mut self.ids, id as u64);
        proof {
            assert(self.bytes@ == mid.bytes);
            assert forall|k: int| 0 <= k < 2 implies mid.bytes.contains(rev8(le_bytes_t(id as nat, 2)[k]) as u64) by {
                assert(bytes@[k] == rev8(le_bytes_t(id as nat, 2)[k]));
            }
            lemma_closed_add_id(mid, self@, id as u64);
            assert forall|y: u64| self.bytes@.contains(y) <==> (a.bytes.contains(y) || among(y, revs)) by {
                if among(y, revs) {
                    let k = choose|k: int| 0 <= k < revs.len() && revs[k] == y as nat;
                    assert(bytes@[k] == y);
                }
                if exists|j: int| 0 <= j < bytes.len() && bytes@[j] == y {
                    let j = choose|j: int| 0 <= j < bytes.len() && bytes@[j] == y;
                    assert(revs[j] == y as nat);
                }
            }
            assert forall|i: int| 0 <= i < self.ids@.len() implies self.ids@[i] < 65536 by {
                assert(self.ids@.contains(self.ids@[i]));
                if self.ids@[i] != id as u64 {
                    let j = choose|j: int| 0 <= j < a.ids.len() && a.ids[j] == self.ids@[i];
                }
            }
            assert forall|i: int| 0 <= i < self.bytes@.len() implies self.bytes@[i] < 256 by {
                assert(self.bytes@.contains(self.bytes@[i]));
                if !a.bytes.contains(self.bytes@[i]) {
                    let j = choose|j: int| 0 <= j < bytes.len() && bytes@[j] == self.bytes@[i];
                } else {
                    let j = choose|j: int| 0 <= j < a.bytes.len() && a.bytes[j] == self.bytes@[i];
                }
            }
        }
        var_string(hex_upper_name(id as u64, "x"))
    }

    /// Adds the bytes of a `count`-byte constant `n`.
    fn add_le_bytes(&mut self, n: u64, count: usize)
        requires
            old(self).wf(),
        ensures
            strictly_sorted(final(self).bytes@),
            forall|y: u64| #[trigger] final(self)@.bytes.contains(y) <==> (old(self)@.bytes.contains(y) || among(y, le_bytes_t(n as nat, count as nat))),
            forall|i: int| 0 <= i < final(self).bytes@.len() ==> final(self).bytes@[i] < 256,
            forall|k: int| 0 <= k < count ==> final(self)@.bytes.contains(le_bytes_t(n as nat, count as nat)[k] as u64),
            bytes_closed(final(self)@),
            final(self).wf_except_bytes(old(self)),
            final(self)@.bytes == ins_all(old(self)@.bytes, le_bytes_t(n as nat, count as nat)),
    {
        let ghost a = self@;
        let bytes = le_bytes(n, count);
        proof {
            lemma_le_bytes_len(n as nat, count as nat);
        }
        self.add_bytes(&bytes);
        proof {
            assert(bytes@.map_values(|b: u64| b as nat) =~= le_bytes_t(n as nat, count as nat));
            lemma_closed_more_bytes(a, self@);
            assert forall|y: u64| self.bytes@.contains(y) <==> (a.bytes.contains(y) || among(y, le_bytes_t(n as nat, count as nat))) by {
                if among(y, le_bytes_t(n as nat, count as nat)) {
                    let k = choose|k: int| 0 <= k < count && le_bytes_t(n as nat, count as nat)[k] == y as nat;
                    assert(bytes@[k] == y);
                }
                if exists|j: int| 0 <= j < bytes.len() && bytes@[j] == y {
                    let j = choose|j: int| 0 <= j < bytes.len() && bytes@[j] == y;
                    assert(le_bytes_t(n as nat, count as nat)[j] == y as nat);
                }
            }
            assert forall|k: int| 0 <= k < count implies self.bytes@.contains(le_bytes_t(n as nat, count as nat)[k] as u64) by {
                assert(bytes@[k] == le_bytes_t(n as nat, count as nat)[k]);
            }
            assert forall|i: int| 0 <= i < self.bytes@.len() implies self.bytes@[i] < 256 by {
                assert(self.bytes@.contains(self.bytes@[i]));
                if !a.bytes.contains(self.bytes@[i]) {
                    let j = choose|j: int| 0 <= j < bytes.len() && bytes@[j] == self.bytes@[i];
                } else {
                    let j = choose|j: int| 0 <= j < a.bytes.len() && a.bytes[j] == self.bytes@[i];
                }
            }
        }
    }

    /// The parts of `wf` that do not concern the bytes are as in `old`.
    spec fn wf_except_bytes(&self, old: &Self) -> bool {
        &&& self.ids == old.ids
        &&& self.i32s == old.i32s
        &&& self.i64s == old.i64s
        &&& strictly_sorted(self.ids@)
        &&& strictly_sorted(self.i32s@)
        &&& strictly_sorted(self.i64s@)
        &&& forall|i: int| 0 <= i < self.ids@.len() ==> self.ids@[i] < 65536
        &&& forall|i: int| 0 <= i < self.i32s@.len() ==> self.i32s@[i] < 0x1_0000_0000
    }

    pub fn i32_const(&mut self, n: u32) -> (e: Expr)
        requires
            old(self).wf(),
        ensures
            final(self).wf(),
            e@ == Term::Var(i32_name_t(n as nat)),
            adds_i32(old(self)@, final(self)@, n as u64),
            final(self)@ == with_i32_c(old(self)@, n as u64),
    {
        let ghost a = self@;
        self.add_le_bytes(n as u64, 4);
        let ghost mid = self@;
        insert_sorted(&mut self.i32s, n as u64);
        proof {
            assert(self.bytes@ == mid.bytes);
            lemma_closed_add_i32(mid, self@, n as u64);
            assert forall|y: u64| self@.bytes.contains(y) <==> (a.bytes.contains(y) || among(y, le_bytes_t(n as nat, 4))) by {
                assert(mid.bytes.contains(y) <==> (a.bytes.contains(y) || among(y, le_bytes_t(n as u64 as nat, 4 as usize as nat))));
            }
            assert forall|i: int| 0 <= i < self.i32s@.len() implies self.i32s@[i] < 0x1_0000_0000 by {
                assert(self.i32s@.contains(self.i32s@[i]));
                if self.i32s@[i] != n as u64 {
                    let j = choose|j: int| 0 <= j < a.i32s.len() && a.i32s[j] == self.i32s@[i];
                }
            }
        }
        var_string(hex_upper_name(n as u64, "i"))
    }

    pub fn i64_const(&mut self, n: u64) -> (e: Expr)
        requires
            old(self).wf(),
        ensures
            final(self).wf(),
            e@ == Term::Var(i64_name_t(n as nat)),
            adds_i64(old(self)@, final(self)@, n),
            final(self)@ == with_i64_c(old(self)@, n),
    {
        let ghost a = self@;
        self.add_le_bytes(n, 8);
        let ghost mid = self@;
        insert_sorted(&mut self.i64s, n);
        proof {
            assert(self.bytes@ == mid.bytes);
            lemma_closed_add_i64(mid, self@, n);
            assert forall|y: u64| self@.bytes.contains(y) <==> (a.bytes.contains(y) || among(y, le_bytes_t(n as nat, 8))) by {
                assert(mid.bytes.contains(y) <==> (a.bytes.contains(y) || among(y, le_bytes_t(n as nat, 8 as usize as nat))));
            }
        }
        var_string(hex_upper_name(n, "I"))
    }
}

/// The null byte, which the prelude defines.
pub fn null_byte() -> (e: Expr)
    ensures
        e@ == Term::Var("0b"@),
        e@ == Term::Var(byte_name_t(0)),
{
    proof {
        reveal_strlit("0b");
        reveal_strlit("b");
        assert(hex_upper_t(0) =~= seq!['0']);
        assert(byte_name_t(0) =~= "0b"@);
    }
    var("0b")
}


impl NumberGenerator {
    /// The constant that initializes a global, as a 32-bit or 64-bit pattern.
    pub fn with_init_value(&mut self, init_value: &Operator) -> (e: Expr)
        requires
            old(self).wf(),
            is_const_op(init_value),
        ensures
            final(self).wf(),
            is_32_bit_const(init_value) ==> e@ == Term::Var(i32_name_t(const_bits(init_value) as nat))
                && final(self)@ == with_i32_c(old(self)@, const_bits(init_value)),
            !is_32_bit_const(init_value) ==> e@ == Term::Var(i64_name_t(const_bits(init_value) as nat))
                && final(self)@ == with_i64_c(old(self)@, const_bits(init_value)),
    {
        match init_value {
            Operator::I32Const { value } => self.i32_const(*value as u32),
            Operator::I64Const { value } => self.i64_const(*value as u64),
            Operator::F32Const { value } => self.i32_const(*value),
            Operator::F64Const { value } => self.i64_const(*value),
            _ => {
                proof {
                    assert(false);
                }
                null_byte()
            },
        }
    }

    /// The zero of a number type.
    pub fn default_const(&mut self, ty: ValType) -> (e: Expr)
        requires
            old(self).wf(),
            is_num_type(ty),
        ensures
            final(self).wf(),
            is_32_bit_type(ty) ==> e@ == Term::Var(i32_name_t(0)) && final(self)@ == with_i32_c(old(self)@, 0),
            !is_32_bit_type(ty) ==> e@ == Term::Var(i64_name_t(0)) && final(self)@ == with_i64_c(old(self)@, 0),
    {
        match ty {
            ValType::I32 => self.i32_const(0),
            ValType::I64 => self.i64_const(0),
            ValType::F32 => self.i32_const(0),
            ValType::F64 => self.i64_const(0),
            _ => {
                proof {
                    assert(false);
                }
                null_byte()
            },
        }
    }

    /// Defines every constant that was asked for, each exactly once: bytes, IDs, 32-bit and
    /// 64-bit numbers, each kind in increasing order.
    pub fn generate(self, b: &mut LetExprBuilder)
        requires
            self.wf(),
        ensures
            final(b)@ == old(b)@ + constant_defs_t(self@),
    {
        let ghost start = b@;
        let mut i: usize = 0;
        while i < self.bytes.len()
            invariant
                self.wf(),
                i <= self.bytes@.len(),
                b@ == start + byte_defs_t(self.bytes@.take(i as int)),
            decreases self.bytes@.len() - i,
        {
            let n = self.bytes[i];
            if n != 0 {
                b.def_string(hex_upper_name(n, "b"), byte_expr(n));
            }
            proof {
                assert(self.bytes@.take(i + 1).drop_last() =~= self.bytes@.take(i as int));
                assert(b@ =~= start + byte_defs_t(self.bytes@.take(i + 1)));
            }
            i = i + 1;
        }
        proof {
            assert(self.bytes@.take(i as int) =~= self.bytes@);
        }
        let ghost start2 = b@;
        let mut i: usize = 0;
        while i < self.ids.len()
            invariant
                self.wf(),
                i <= self.ids@.len(),
                b@ == start2 + id_defs_t(self.ids@.take(i as int)),
            decreases self.ids@.len() - i,
        {
            let n = self.ids[i];
            b.def_string(hex_upper_name(n, "x"), id_expr(n));
            proof {
                assert(self.ids@.take(i + 1).drop_last() =~= self.ids@.take(i as int));
                assert(b@ =~= start2 + id_defs_t(self.ids@.take(i + 1)));
            }
            i = i + 1;
        }
        proof {
            assert(self.ids@.take(i as int) =~= self.ids@);
        }
        let ghost start3 = b@;
        let mut i: usize = 0;
        while i < self.i32s.len()
            invariant
                self.wf(),
                i <= self.i32s@.len(),
                b@ == start3 + i32_defs_t(self.i32s@.take(i as int)),
            decreases self.i32s@.len() - i,
        {
            let n = self.i32s[i];
            b.def_string(hex_upper_name(n, "i"), i32_expr(n));
            proof {
                assert(self.i32s@.take(i + 1).drop_last() =~= self.i32s@.take(i as int));
                assert(b@ =~= start3 + i32_defs_t(self.i32s@.take(i + 1)));
            }
            i = i + 1;
        }
        proof {
            assert(self.i32s@.take(i as int) =~= self.i32s@);
        }
        let ghost start4 = b@;
        let mut i: usize = 0;
        while i < self.i64s.len()
            invariant
                self.wf(),
                i <= self.i64s@.len(),
                b@ == start4 + i64_defs_t(self.i64s@.take(i as int)),
            decreases self.i64s@.len() - i,
        {
            let n = self.i64s[i];
            b.def_string(hex_upper_name(n, "I"), i64_expr(n));
            proof {
                assert(self.i64s@.take(i + 1).drop_last() =~= self.i64s@.take(i as int));
                assert(b@ =~= start4 + i64_defs_t(self.i64s@.take(i + 1)));
            }
            i = i + 1;
        }
        proof {
            assert(self.i64s@.take(i as int) =~= self.i64s@);
            assert(b@ =~= start + constant_defs_t(self@));
        }
    }
}

/// Joining bytes one after the other, each reversed on top of what came before.
pub open spec fn join_rev_t(bytes: Seq<Term>) -> Term
    decreases bytes.len(),
{
    if bytes.len() == 0 {
        list::empty_t()
    } else {
        app2_t(rec_t(Term::Var("JoinRev"@)), join_rev_t(bytes.drop_last()), bytes.last())
    }
}

/// The names `b0`, `b1`, ... of the `count` byte parameters of `Id`, `I32` and `I64`.
pub open spec fn byte_param_names_t(count: nat) -> Seq<Seq<char>> {
    Seq::new(count, |i: int| "b"@ + dec_t(i as nat))
}

pub open spec fn join_def_t(count: nat) -> Term {
    abss_t(
        byte_param_names_t(count),
        join_rev_t(byte_param_names_t(count).map_values(|n: Seq<char>| Term::Var(n))),
    )
}

/// The names `7`, `6`, ..., `0` of the bit parameters of `Byte`.
pub open spec fn bit_param_names_t() -> Seq<Seq<char>> {
    Seq::new(8, |j: int| dec_t((7 - j) as nat))
}

pub open spec fn join_rev_def_t() -> Term {
    abs_t(
        "tail"@,
        abs_t(
            "x"@,
            select_t(
                list::is_not_empty_t(Term::Var("x"@)),
                Term::Var("tail"@),
                app2_t(
                    rec_t(Term::Var("JoinRev"@)),
                    list::node_t(list::head_t(Term::Var("x"@)), Term::Var("tail"@)),
                    list::tail_t(Term::Var("x"@)),
                ),
            ),
        ),
    )
}

/// The number prelude: `Byte`, `JoinRev`, `Rev`, `Id`, `I32`, `I64` and the null byte `0b`.
pub open spec fn defs_t() -> Seq<(Seq<char>, Term)> {
    seq![
        ("Byte"@, abss_t(bit_param_names_t(), list::from_t(bit_param_names_t().map_values(|n: Seq<char>| Term::Var(n))))),
        ("JoinRev"@, abs_t("JoinRev"@, join_rev_def_t())),
        ("Rev"@, app_t(rec_t(Term::Var("JoinRev"@)), list::empty_t())),
        ("Id"@, join_def_t(2)),
        ("I32"@, join_def_t(4)),
        ("I64"@, join_def_t(8)),
        ("0b"@, byte_t(0)),
    ]
}

/// Joins a sequence of bytes into a single list of bits with reversed endianness.
fn join_reversed(bytes: Vec<Expr>) -> (e: Expr)
    ensures
        e@ == join_rev_t(bytes@.map_values(|b: Expr| b@)),
{
    let ghost all = bytes@.map_values(|b: Expr| b@);
    let mut bytes = bytes;
    let mut expr = list::empty();
    let ghost mut done: int = 0;
    while bytes.len() > 0
        invariant
            0 <= done <= all.len(),
            bytes.len() == all.len() - done,
            forall|i: int| 0 <= i < bytes.len() ==> bytes@[i]@ == all[done + i],
            expr@ == join_rev_t(all.take(done)),
        decreases bytes.len(),
    {
        let ghost before = bytes@;
        let byte = bytes.remove(0);
        proof {
            assert(all.take(done + 1).drop_last() =~= all.take(done));
            assert(before[0] == byte);
            assert forall|i: int| 0 <= i < bytes.len() implies bytes@[i]@ == all[done + 1 + i] by {
                assert(bytes@[i] == before[i + 1]);
            }
            done = done + 1;
        }
        expr = apply2(rec(var("JoinRev")), expr, byte);
    }
    proof {
        assert(all.take(done) =~= all);
    }
    expr
}

/// The parameter names `b0`..`b{count-1}` and the variables of the same names.
fn byte_params(count: u64) -> (r: (Vec<String>, Vec<Expr>))
    ensures
        r.0@.map_values(|s: String| s@) == byte_param_names_t(count as nat),
        r.1@.map_values(|e: Expr| e@) == byte_param_names_t(count as nat).map_values(|n: Seq<char>| Term::Var(n)),
{
    let mut names: Vec<String> = Vec::new();
    let mut vars: Vec<Expr> = Vec::new();
    let mut i: u64 = 0;
    while i < count
        invariant
            i <= count,
            names.len() == i,
            vars.len() == i,
            forall|k: int| 0 <= k < i ==> names@[k]@ == byte_param_names_t(count as nat)[k],
            forall|k: int| 0 <= k < i ==> vars@[k]@ == Term::Var(byte_param_names_t(count as nat)[k]),
        decreases count - i,
    {
        names.push(dec_name("b", i));
        vars.push(var_string(dec_name("b", i)));
        i = i + 1;
    }
    proof {
        assert(names@.map_values(|s: String| s@) =~= byte_param_names_t(count as nat));
        assert(vars@.map_values(|e: Expr| e@) =~= byte_param_names_t(count as nat).map_values(|n: Seq<char>| Term::Var(n)));
    }
    (names, vars)
}

fn join_def(count: u64) -> (e: Expr)
    ensures
        e@ == join_def_t(count as nat),
{
    let (names, vars) = byte_params(count);
    abs_strings(names, join_reversed(vars))
}

pub fn generate_defs(b: &mut LetExprBuilder)
    ensures
        final(b)@ == old(b)@ + defs_t(),
{
    let ghost start = b@;
    // The arguments are big-endian, and the list is big-endian
    let mut names: Vec<String> = Vec::new();
    let mut vars: Vec<Expr> = Vec::new();
    let mut j: u64 = 0;
    while j < 8
        invariant
            j <= 8,
            names.len() == j,
            vars.len() == j,
            forall|k: int| 0 <= k < j ==> names@[k]@ == bit_param_names_t()[k],
            forall|k: int| 0 <= k < j ==> vars@[k]@ == Term::Var(bit_param_names_t()[k]),
        decreases 8 - j,
    {
        names.push(dec_string(7 - j));
        vars.push(var_string(dec_string(7 - j)));
        j = j + 1;
    }
    proof {
        assert(names@.map_values(|s: String| s@) =~= bit_param_names_t());
        assert(vars@.map_values(|e: Expr| e@) =~= bit_param_names_t().map_values(|n: Seq<char>| Term::Var(n)));
    }
    b.def("Byte", abs_strings(names, list::from(vars)));

    // Reverses the bits of "x" and places them on top of "tail"
    let body = select(
        list::is_not_empty(var("x")),
        var("tail"),
        apply2(rec(var("JoinRev")), list::node(list::get_head(var("x")), var("tail")), list::get_tail(var("x"))),
    );
    b.def_rec("JoinRev", crate::codegen::lambda::abs2("tail", "x", body));

    b.def("Rev", apply1(rec(var("JoinRev")), list::empty()));

    // I32/I64 expect a big-endian sequence of bytes as arguments
    // Id expects a little-endian sequence of reversed bytes as arguments
    b.def("Id", join_def(2));
    b.def("I32", join_def(4));
    b.def("I64", join_def(8));

    // Trees depend on this as the default value for uninitialized elements.
    b.def("0b", byte_expr(0));
    proof {
        assert(b@ =~= start + defs_t());
    }
}

pub fn reverse_bits(expr: Expr) -> (e: Expr)
    ensures
        e@ == app_t(Term::Var("Rev"@), expr@),
{
    apply1(var("Rev"), expr)
}

/// Makes an I32 from a big-endian sequence of 4 bytes.
pub fn make_i32(be_bytes: Vec<Expr>) -> (e: Expr)
    ensures
        e@ == apps_t(Term::Var("I32"@), be_bytes@.map_values(|b: Expr| b@)),
{
    apply(var("I32"), be_bytes)
}

/// Makes an I64 from a big-endian sequence of 8 bytes.
pub fn make_i64(be_bytes: Vec<Expr>) -> (e: Expr)
    ensures
        e@ == apps_t(Term::Var("I64"@), be_bytes@.map_values(|b: Expr| b@)),
{
    apply(var("I64"), be_bytes)
}

} // verus!
