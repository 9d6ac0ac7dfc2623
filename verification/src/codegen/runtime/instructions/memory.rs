//! Memory instructions. The memory of the runtime always has its 4 GiB, 2^16 WASM pages; the
//! size that the program sees is tracked in a global.

use vstd::prelude::*;

use crate::codegen::lambda::instruction::{build_t, pop_range_t, push_defs_t, v, InstructionBuilder};
use crate::codegen::lambda::number::{i32_name_t, id_name_t, make_i32, make_i64, null_byte};
use crate::codegen::runtime::global_ids::CURRENT_MEMORY_SIZE_GLOBAL_ID;
use crate::codegen::lambda::{
    abs1, abs2, abs3, abs4, abs_t, app_t, app2_t, app3_t, app4_t, apply2, apply3, apply4, apps_t,
    apply1, list, memory, rec, rec_t, select, select_t, table, var, var_string, var_t, Expr, Term,
};
use crate::codegen::runtime::math::arithmetic::{add_st, inc_st, increment};
use crate::codegen::runtime::math::comparisons::{compare_st, eq_st, equal, less_unsigned};
use crate::codegen::runtime::math::conversions::{
    extend_widths_ok, i32_to_byte, sign_extend, sign_extend_st, sign_extend_t, split_lowest_bits_to_be_bytes,
    split_st, split_t, split_widths_ok,
};
use crate::codegen::runtime::{num_t, RtState, RuntimeGenerator};
use crate::codegen::text::{dec_name, dec_t, write_radix};

verus! {

/// The global that holds the memory size in WASM pages (2^16 bytes each). The memory of the
/// runtime always has its 2^32 bytes, but WASM asks that the size the program starts with and
/// grows by be tracked: memory allocators read it.
pub open spec fn mem_size_id_t() -> Term {
    Term::Var(id_name_t(0xffff))
}

/// Reads the tracked memory size.
pub open spec fn mem_size_get_t() -> (Seq<char>, Term) {
    ("size"@, table::index_t(v("G"@), mem_size_id_t()))
}

pub open spec fn memory_size_def_t() -> Term {
    build_t(seq![mem_size_get_t()] + push_defs_t(seq![var_t("size"@)]))
}

pub open spec fn memory_size_st(s: RtState) -> RtState {
    if s.has("MemSize"@) {
        s
    } else {
        s.with_id(0xffff).def("MemSize"@, memory_size_def_t())
    }
}

fn push_one(b: &mut InstructionBuilder, item: Expr)
    ensures
        final(b)@ == old(b)@ + push_defs_t(seq![item@]),
{
    let items = vec![item];
    proof {
        assert(items@.map_values(|i: Expr| i@) =~= seq![items@[0]@]);
    }
    b.push(items);
}

/// `memory.size`: pushes the tracked memory size.
pub fn memory_size(rt: &mut RuntimeGenerator) -> (e: Expr)
    requires
        old(rt).wf(),
    ensures
        final(rt).wf(),
        final(rt).st() == memory_size_st(old(rt).st()),
        e@ == var_t("MemSize"@),
{
    if !rt.has("MemSize") {
        let size_id = rt.id_const(CURRENT_MEMORY_SIZE_GLOBAL_ID);
        let mut b = InstructionBuilder::new();
        b.get_global("size", size_id);
        push_one(&mut b, var("size"));
        proof {
            assert(b@ =~= seq![mem_size_get_t()] + push_defs_t(seq![var_t("size"@)]));
        }
        rt.def("MemSize", b.build());
    }
    var("MemSize")
}

/// Pops the number of pages to grow by, reads the size, stores the grown size, and pushes
/// the size before.
pub open spec fn memory_grow_defs_t() -> Seq<(Seq<char>, Term)> {
    pop_range_t(seq!["ngrow"@], 0)
        + seq![
            mem_size_get_t(),
            ("G"@, table::insert_t(v("G"@), mem_size_id_t(), app2_t(var_t("ADD"@), var_t("size"@), var_t("ngrow"@)))),
        ]
        + push_defs_t(seq![var_t("size"@)])
}

pub open spec fn memory_grow_def_t() -> Term {
    build_t(memory_grow_defs_t())
}

pub open spec fn memory_grow_st(s: RtState) -> RtState {
    if s.has("MemGrow"@) {
        s
    } else {
        add_st(s.with_id(0xffff)).def("MemGrow"@, memory_grow_def_t())
    }
}

/// `memory.grow`: pops the number of pages `n`, adds it to the tracked size `s`, and pushes
/// `s`. The memory itself always has all its pages, so growing cannot fail.
pub fn memory_grow(rt: &mut RuntimeGenerator) -> (e: Expr)
    requires
        old(rt).wf(),
    ensures
        final(rt).wf(),
        final(rt).st() == memory_grow_st(old(rt).st()),
        e@ == var_t("MemGrow"@),
{
    if !rt.has("MemGrow") {
        let size_id = rt.id_const(CURRENT_MEMORY_SIZE_GLOBAL_ID);
        let mut b = InstructionBuilder::new();
        b.pop(&["ngrow"]);
        proof {
            assert(["ngrow"]@.map_values(|s: &str| s@) =~= seq!["ngrow"@]);
        }
        b.get_global("size", size_id.duplicate());
        let grown = crate::codegen::runtime::math::arithmetic::add(rt, var("size"), var("ngrow"));
        b.set_global(size_id, grown);
        push_one(&mut b, var("size"));
        proof {
            assert(b@ =~= memory_grow_defs_t());
        }
        rt.def("MemGrow", b.build());
    }
    var("MemGrow")
}

pub open spec fn init_memory_size_def_t() -> Term {
    abs_t("pages"@, build_t(seq![("G"@, table::insert_t(v("G"@), mem_size_id_t(), var_t("pages"@)))]))
}

pub open spec fn init_memory_size_st(s: RtState, pages: u32) -> RtState {
    let s1 = if s.has("InitMemSize"@) {
        s
    } else {
        s.with_id(0xffff).def("InitMemSize"@, init_memory_size_def_t())
    };
    s1.with_i32(pages as u64)
}

/// Sets the tracked memory size to the size the module's memory starts with, in pages.
pub fn init_memory_size(rt: &mut RuntimeGenerator, pages: u32) -> (e: Expr)
    requires
        old(rt).wf(),
    ensures
        final(rt).wf(),
        final(rt).st() == init_memory_size_st(old(rt).st(), pages),
        e@ == app_t(var_t("InitMemSize"@), num_t(false, pages as u64)),
{
    if !rt.has("InitMemSize") {
        let size_id = rt.id_const(CURRENT_MEMORY_SIZE_GLOBAL_ID);
        let mut b = InstructionBuilder::new();
        b.set_global(size_id, var("pages"));
        rt.def("InitMemSize", abs1("pages", b.build()));
    }
    let pages = rt.i32_const(pages);
    apply1(var("InitMemSize"), pages)
}

pub open spec fn mem_init_helper_t() -> Term {
    abs_t("dat"@, abs_t("offset"@, abs_t("mem"@, select_t(
        list::is_not_empty_t(var_t("dat"@)),
        var_t("mem"@),
        app3_t(
            rec_t(var_t("_MemInit"@)),
            list::tail_t(var_t("dat"@)),
            app_t(var_t("INC"@), var_t("offset"@)),
            memory::insert_t(var_t("mem"@), var_t("offset"@), list::head_t(var_t("dat"@))),
        ),
    ))))
}

pub open spec fn mem_init_def_t() -> Term {
    abs_t("dat"@, abs_t("offset"@, build_t(seq![
        ("M"@, app3_t(rec_t(var_t("_MemInit"@)), var_t("dat"@), var_t("offset"@), v("M"@))),
    ])))
}

pub open spec fn memory_init_st(s: RtState) -> RtState {
    if s.has("MemInit"@) {
        s
    } else {
        inc_st(s).def_rec("_MemInit"@, mem_init_helper_t()).def("MemInit"@, mem_init_def_t())
    }
}

/// Copies a data segment (a list of bytes) into the memory at the given offset.
pub fn memory_init_with_data(rt: &mut RuntimeGenerator, data_segment: Expr, memory_offset: Expr) -> (e: Expr)
    requires
        old(rt).wf(),
    ensures
        final(rt).wf(),
        final(rt).st() == memory_init_st(old(rt).st()),
        e@ == app2_t(var_t("MemInit"@), data_segment@, memory_offset@),
{
    if !rt.has("MemInit") {
        let next_offset = increment(rt, var("offset"));
        let body = select(
            list::is_not_empty(var("dat")),
            var("mem"),
            apply3(
                rec(var("_MemInit")),
                list::get_tail(var("dat")),
                next_offset,
                memory::insert(var("mem"), var("offset"), list::get_head(var("dat"))),
            ),
        );
        rt.def_rec("_MemInit", abs3("dat", "offset", "mem", body));

        let mut b = InstructionBuilder::new();
        let mem = apply3(rec(var("_MemInit")), var("dat"), var("offset"), b.memory());
        b.set_memory(mem);
        proof {
            assert(b@ =~= seq![
                ("M"@, app3_t(rec_t(var_t("_MemInit"@)), var_t("dat"@), var_t("offset"@), v("M"@))),
            ]);
        }
        rt.def("MemInit", abs2("dat", "offset", b.build()));
    }
    apply2(var("MemInit"), data_segment, memory_offset)
}

pub open spec fn mem_fill_helper_t() -> Term {
    abs_t("mem"@, abs_t("addr"@, abs_t("byte"@, abs_t("max"@, select_t(
        app2_t(var_t("EQ"@), var_t("addr"@), var_t("max"@)),
        app4_t(
            rec_t(var_t("_MemFill"@)),
            memory::insert_t(var_t("mem"@), var_t("addr"@), var_t("byte"@)),
            app_t(var_t("INC"@), var_t("addr"@)),
            var_t("byte"@),
            var_t("max"@),
        ),
        var_t("mem"@),
    )))))
}

pub open spec fn mem_fill_vars() -> Seq<Seq<char>> {
    seq!["addr"@, "val"@, "len"@]
}

pub open spec fn mem_fill_def_t() -> Term {
    build_t(pop_range_t(mem_fill_vars(), 0) + seq![("M"@, app4_t(
        rec_t(var_t("_MemFill"@)),
        v("M"@),
        var_t("addr"@),
        list::head_t(split_t(var_t("val"@), 32, 8)),
        app2_t(var_t("ADD"@), var_t("addr"@), var_t("len"@)),
    ))])
}

pub open spec fn memory_fill_st(s: RtState) -> RtState {
    if s.has("MemFill"@) {
        s
    } else {
        let s1 = inc_st(eq_st(s)).def_rec("_MemFill"@, mem_fill_helper_t());
        split_st(add_st(s1), 32, 8).def("MemFill"@, mem_fill_def_t())
    }
}

/// `memory.fill`: pops an address, a value and a length, and writes the lowest byte of the
/// value to each address from the given one up to the address plus the length.
pub fn memory_fill(rt: &mut RuntimeGenerator) -> (e: Expr)
    requires
        old(rt).wf(),
    ensures
        final(rt).wf(),
        final(rt).st() == memory_fill_st(old(rt).st()),
        e@ == var_t("MemFill"@),
{
    if !rt.has("MemFill") {
        let at_end = equal(rt, var("addr"), var("max"));
        let next_addr = increment(rt, var("addr"));
        let body = select(
            at_end,
            apply4(
                rec(var("_MemFill")),
                memory::insert(var("mem"), var("addr"), var("byte")),
                next_addr,
                var("byte"),
                var("max"),
            ),
            var("mem"),
        );
        rt.def_rec("_MemFill", abs4("mem", "addr", "byte", "max", body));

        let mut b = InstructionBuilder::new();
        b.pop(&["addr", "val", "len"]);
        proof {
            assert(["addr", "val", "len"]@.map_values(|s: &str| s@) =~= mem_fill_vars());
        }
        // The address at which to stop
        let max = crate::codegen::runtime::math::arithmetic::add(rt, var("addr"), var("len"));
        let byte = i32_to_byte(rt, var("val"));
        let mem = apply4(rec(var("_MemFill")), b.memory(), var("addr"), byte, max);
        b.set_memory(mem);
        proof {
            assert(b@ =~= pop_range_t(mem_fill_vars(), 0) + seq![("M"@, app4_t(
                rec_t(var_t("_MemFill"@)),
                v("M"@),
                var_t("addr"@),
                list::head_t(split_t(var_t("val"@), 32, 8)),
                app2_t(var_t("ADD"@), var_t("addr"@), var_t("len"@)),
            ))]);
        }
        rt.def("MemFill", b.build());
    }
    var("MemFill")
}

pub open spec fn mem_copy_helper_t() -> Term {
    abs_t("mem"@, abs_t("dst"@, abs_t("src"@, abs_t("maxsrc"@, select_t(
        app2_t(var_t("EQ"@), var_t("src"@), var_t("maxsrc"@)),
        app4_t(
            rec_t(var_t("_MemCopy"@)),
            memory::insert_t(var_t("mem"@), var_t("dst"@), memory::index_t(var_t("mem"@), var_t("src"@))),
            app_t(var_t("INC"@), var_t("dst"@)),
            app_t(var_t("INC"@), var_t("src"@)),
            var_t("maxsrc"@),
        ),
        var_t("mem"@),
    )))))
}

pub open spec fn mem_copy_vars() -> Seq<Seq<char>> {
    seq!["dst"@, "src"@, "len"@]
}

/// Copies backwards, from the byte before `src` down to `minsrc`: right where the destination
/// lies after the source and the ranges overlap.
pub open spec fn mem_copy_back_helper_t() -> Term {
    let prev_dst = app2_t(var_t("ADD"@), var_t("dst"@), var_t(i32_name_t(0xffff_ffff)));
    let prev_src = app2_t(var_t("ADD"@), var_t("src"@), var_t(i32_name_t(0xffff_ffff)));
    abs_t("mem"@, abs_t("dst"@, abs_t("src"@, abs_t("minsrc"@, select_t(
        app2_t(var_t("EQ"@), var_t("src"@), var_t("minsrc"@)),
        app4_t(
            rec_t(var_t("_MemCopyB"@)),
            memory::insert_t(var_t("mem"@), prev_dst, memory::index_t(var_t("mem"@), prev_src)),
            prev_dst,
            prev_src,
            var_t("minsrc"@),
        ),
        var_t("mem"@),
    )))))
}

pub open spec fn mem_copy_def_t() -> Term {
    let forward = app4_t(
        rec_t(var_t("_MemCopy"@)),
        v("M"@),
        var_t("dst"@),
        var_t("src"@),
        app2_t(var_t("ADD"@), var_t("src"@), var_t("len"@)),
    );
    let backward = app4_t(
        rec_t(var_t("_MemCopyB"@)),
        v("M"@),
        app2_t(var_t("ADD"@), var_t("dst"@), var_t("len"@)),
        app2_t(var_t("ADD"@), var_t("src"@), var_t("len"@)),
        var_t("src"@),
    );
    build_t(pop_range_t(mem_copy_vars(), 0) + seq![("M"@, select_t(
        app2_t(var_t("LT"@), var_t("src"@), var_t("dst"@)),
        forward,
        backward,
    ))])
}

pub open spec fn memory_copy_st(s: RtState) -> RtState {
    if s.has("MemCopy"@) {
        s
    } else {
        let s1 = inc_st(inc_st(eq_st(s))).def_rec("_MemCopy"@, mem_copy_helper_t());
        let s2 = add_st(add_st(eq_st(s1.with_i32(0xffff_ffff)))).def_rec("_MemCopyB"@, mem_copy_back_helper_t());
        compare_st(add_st(add_st(add_st(s2))), true).def("MemCopy"@, mem_copy_def_t())
    }
}

/// `memory.copy`: pops a destination, a source and a length, and copies the bytes from the
/// source up to the source plus the length to the destination. Where the destination lies
/// after the source, the bytes are copied last byte first, so that overlapping ranges copy as
/// if through a buffer.
pub fn memory_copy(rt: &mut RuntimeGenerator) -> (e: Expr)
    requires
        old(rt).wf(),
    ensures
        final(rt).wf(),
        final(rt).st() == memory_copy_st(old(rt).st()),
        e@ == var_t("MemCopy"@),
{
    if !rt.has("MemCopy") {
        let at_end = equal(rt, var("src"), var("maxsrc"));
        let next_dst = increment(rt, var("dst"));
        let next_src = increment(rt, var("src"));
        let body = select(
            at_end,
            apply4(
                rec(var("_MemCopy")),
                memory::insert(var("mem"), var("dst"), memory::index(var("mem"), var("src"))),
                next_dst,
                next_src,
                var("maxsrc"),
            ),
            var("mem"),
        );
        rt.def_rec("_MemCopy", abs4("mem", "dst", "src", "maxsrc", body));

        let minus_one = rt.i32_const(0xffff_ffff);
        let at_start = equal(rt, var("src"), var("minsrc"));
        let prev_dst = crate::codegen::runtime::math::arithmetic::add(rt, var("dst"), minus_one.duplicate());
        let prev_src = crate::codegen::runtime::math::arithmetic::add(rt, var("src"), minus_one);
        let body = select(
            at_start,
            apply4(
                rec(var("_MemCopyB")),
                memory::insert(var("mem"), prev_dst.duplicate(), memory::index(var("mem"), prev_src.duplicate())),
                prev_dst,
                prev_src,
                var("minsrc"),
            ),
            var("mem"),
        );
        rt.def_rec("_MemCopyB", abs4("mem", "dst", "src", "minsrc", body));

        let mut b = InstructionBuilder::new();
        b.pop(&["dst", "src", "len"]);
        proof {
            assert(["dst", "src", "len"]@.map_values(|s: &str| s@) =~= mem_copy_vars());
        }
        // The source address at which a forward copy stops
        let maxsrc = crate::codegen::runtime::math::arithmetic::add(rt, var("src"), var("len"));
        let forward = apply4(rec(var("_MemCopy")), b.memory(), var("dst"), var("src"), maxsrc);
        // A backward copy starts after the ends of both ranges
        let dst_end = crate::codegen::runtime::math::arithmetic::add(rt, var("dst"), var("len"));
        let src_end = crate::codegen::runtime::math::arithmetic::add(rt, var("src"), var("len"));
        let backward = apply4(rec(var("_MemCopyB")), b.memory(), dst_end, src_end, var("src"));
        let dst_after_src = less_unsigned(rt, var("src"), var("dst"));
        b.set_memory(select(dst_after_src, forward, backward));
        proof {
            assert(b@ =~= pop_range_t(mem_copy_vars(), 0) + seq![("M"@, select_t(
                app2_t(var_t("LT"@), var_t("src"@), var_t("dst"@)),
                app4_t(
                    rec_t(var_t("_MemCopy"@)),
                    v("M"@),
                    var_t("dst"@),
                    var_t("src"@),
                    app2_t(var_t("ADD"@), var_t("src"@), var_t("len"@)),
                ),
                app4_t(
                    rec_t(var_t("_MemCopyB"@)),
                    v("M"@),
                    app2_t(var_t("ADD"@), var_t("dst"@), var_t("len"@)),
                    app2_t(var_t("ADD"@), var_t("src"@), var_t("len"@)),
                    var_t("src"@),
                ),
            ))]);
        }
        rt.def("MemCopy", b.build());
    }
    var("MemCopy")
}

/// `addr{i}`, the address of the `i`-th byte of a load or store.
pub open spec fn addr_name(i: nat) -> Seq<char> {
    "addr"@ + dec_t(i)
}

/// `b{i}`, the `i`-th byte of a load.
pub open spec fn byte_name(i: nat) -> Seq<char> {
    "b"@ + dec_t(i)
}

/// The first address: the base address plus the offset of the instruction.
pub open spec fn addr0_defs_t() -> Seq<(Seq<char>, Term)> {
    seq![(addr_name(0), app2_t(var_t("ADD"@), var_t("base_addr"@), var_t("offset"@)))]
}

/// The definitions of `addr1` to `addr{n - 1}`, each the one before it plus one.
pub open spec fn addr_defs_t(n: nat) -> Seq<(Seq<char>, Term)>
    decreases n,
{
    if n <= 1 {
        Seq::empty()
    } else {
        addr_defs_t((n - 1) as nat).push((
            addr_name((n - 1) as nat),
            app_t(var_t("INC"@), var_t(addr_name((n - 2) as nat))),
        ))
    }
}

/// The state after `k` increments.
pub open spec fn incs_st(s: RtState, k: nat) -> RtState
    decreases k,
{
    if k == 0 {
        s
    } else {
        inc_st(incs_st(s, (k - 1) as nat))
    }
}

/// Defines `addr0` to `addr{n - 1}`.
fn def_addresses(rt: &mut RuntimeGenerator, b: &mut InstructionBuilder, n: u8)
    requires
        old(rt).wf(),
        n >= 1,
    ensures
        final(rt).wf(),
        final(rt).st() == incs_st(add_st(old(rt).st()), (n - 1) as nat),
        final(b)@ == old(b)@ + addr0_defs_t() + addr_defs_t(n as nat),
{
    let ghost start = b@;
    let ghost s0 = rt.st();
    let addr0 = crate::codegen::runtime::math::arithmetic::add(rt, var("base_addr"), var("offset"));
    b.def_string(dec_name("addr", 0), addr0);
    proof {
        assert(b@ =~= start + addr0_defs_t() + addr_defs_t(1));
    }
    let mut i: u8 = 1;
    while i < n
        invariant
            1 <= i <= n,
            rt.wf(),
            rt.st() == incs_st(add_st(s0), (i - 1) as nat),
            b@ == start + addr0_defs_t() + addr_defs_t(i as nat),
        decreases n - i,
    {
        let prev = var_string(dec_name("addr", (i - 1) as u64));
        let next = increment(rt, prev);
        b.def_string(dec_name("addr", i as u64), next);
        proof {
            assert(b@ =~= start + addr0_defs_t() + addr_defs_t((i + 1) as nat));
        }
        i = i + 1;
    }
}

/// Whether the widths are a supported pair for loading: `source_bits` of memory into a
/// `target_bits` number.
pub open spec fn load_widths_ok(target_bits: u8, source_bits: u8) -> bool {
    ||| target_bits == 32 && (source_bits == 8 || source_bits == 16 || source_bits == 32)
    ||| target_bits == 64 && (source_bits == 8 || source_bits == 16 || source_bits == 32 || source_bits == 64)
}

pub open spec fn load_name(target_bits: u8, source_bits: u8, signed: bool) -> Seq<char> {
    "I"@ + dec_t(target_bits as nat) + "Load"@ + dec_t(source_bits as nat) + (if signed { "S"@ } else { "U"@ })
}

/// The definitions of `b0` to `b{n - 1}`, each loaded from its address.
pub open spec fn load_defs_t(n: nat) -> Seq<(Seq<char>, Term)>
    decreases n,
{
    if n == 0 {
        Seq::empty()
    } else {
        load_defs_t((n - 1) as nat).push((
            byte_name((n - 1) as nat),
            memory::index_t(v("M"@), var_t(addr_name((n - 1) as nat))),
        ))
    }
}

/// The big-endian bytes of a load of `n` bytes padded with `pad` zero bytes: WASM stores
/// numbers in little endian.
pub open spec fn be_load_bytes_t(n: nat, pad: nat) -> Seq<Term> {
    Seq::new(pad, |j: int| Term::Var("0b"@)) + Seq::new(n, |j: int| var_t(byte_name((n - 1 - j) as nat)))
}

pub open spec fn load_result_t(target_bits: u8, source_bits: u8, signed: bool) -> Term {
    let n = (source_bits / 8) as nat;
    let pad = ((target_bits - source_bits) / 8) as nat;
    let number = apps_t(
        Term::Var(if target_bits == 32 { "I32"@ } else { "I64"@ }),
        be_load_bytes_t(n, pad),
    );
    if signed { sign_extend_t(number, target_bits, source_bits) } else { number }
}

pub open spec fn load_def_t(target_bits: u8, source_bits: u8, signed: bool) -> Term {
    let n = (source_bits / 8) as nat;
    abs_t("offset"@, build_t(
        pop_range_t(seq!["base_addr"@], 0) + addr0_defs_t() + addr_defs_t(n) + load_defs_t(n)
            + push_defs_t(seq![load_result_t(target_bits, source_bits, signed)]),
    ))
}

pub open spec fn load_st(s: RtState, memory_offset: u32, target_bits: u8, source_bits: u8, signed: bool) -> RtState {
    if s.has(load_name(target_bits, source_bits, signed)) {
        s.with_i32(memory_offset as u64)
    } else {
        let s1 = incs_st(add_st(s), (source_bits / 8 - 1) as nat);
        let s2 = if signed { sign_extend_st(s1, target_bits, source_bits) } else { s1 };
        s2.def(load_name(target_bits, source_bits, signed), load_def_t(target_bits, source_bits, signed))
            .with_i32(memory_offset as u64)
    }
}

fn load_string(target_bits: u8, source_bits: u8, signed: bool) -> (s: String)
    ensures
        s@ == load_name(target_bits, source_bits, signed),
{
    let mut s = String::from_str("I");
    write_radix(target_bits as u64, 10, false, &mut s);
    s.append("Load");
    write_radix(source_bits as u64, 10, false, &mut s);
    s.append(if signed { "S" } else { "U" });
    s
}

/// The `i(32|64).load[(8|16|32)_(u|s)]` instructions, e.g. `i32.load`, `i64.load32_s`: loads
/// `source_bits` from the memory into a `target_bits` number.
pub fn i_load(rt: &mut RuntimeGenerator, memory_offset: u32, target_bits: u8, source_bits: u8, signed: bool) -> (e: Expr)
    requires
        old(rt).wf(),
        load_widths_ok(target_bits, source_bits),
        signed ==> extend_widths_ok(target_bits, source_bits),
    ensures
        final(rt).wf(),
        final(rt).st() == load_st(old(rt).st(), memory_offset, target_bits, source_bits, signed),
        e@ == app_t(var_t(load_name(target_bits, source_bits, signed)), num_t(false, memory_offset as u64)),
{
    let source_bytes = source_bits / 8;
    let target_bytes = target_bits / 8;
    let pad_bytes = target_bytes - source_bytes;
    let name = load_string(target_bits, source_bits, signed);

    if !rt.has(name.as_str()) {
        let mut b = InstructionBuilder::new();
        b.pop(&["base_addr"]);
        proof {
            assert(["base_addr"]@.map_values(|s: &str| s@) =~= seq!["base_addr"@]);
        }
        def_addresses(rt, &mut b, source_bytes);
        let ghost after_addrs = b@;

        let mut i: u8 = 0;
        while i < source_bytes
            invariant
                i <= source_bytes,
                b@ == after_addrs + load_defs_t(i as nat),
            decreases source_bytes - i,
        {
            b.load_string(dec_name("b", i as u64), var_string(dec_name("addr", i as u64)));
            proof {
                assert(b@ =~= after_addrs + load_defs_t((i + 1) as nat));
            }
            i = i + 1;
        }

        // Pad the bytes with zeroes at the end if needed and reverse them to construct
        // a big-endian byte sequence.
        let mut be_bytes: Vec<Expr> = Vec::new();
        let mut k: u8 = 0;
        while k < pad_bytes
            invariant
                k <= pad_bytes,
                be_bytes@.map_values(|x: Expr| x@) == Seq::new(k as nat, |j: int| Term::Var("0b"@)),
            decreases pad_bytes - k,
        {
            let nb = null_byte();
            let ghost prev = be_bytes@;
            be_bytes.push(nb);
            proof {
                assert(be_bytes@.map_values(|x: Expr| x@) =~= prev.map_values(|x: Expr| x@).push(nb@));
                assert(be_bytes@.map_values(|x: Expr| x@) =~= Seq::new((k + 1) as nat, |j: int| Term::Var("0b"@)));
            }
            k = k + 1;
        }
        let mut j: u8 = source_bytes;
        while j > 0
            invariant
                j <= source_bytes,
                be_bytes@.map_values(|x: Expr| x@) == Seq::new(pad_bytes as nat, |q: int| Term::Var("0b"@))
                    + Seq::new((source_bytes - j) as nat, |q: int| var_t(byte_name((source_bytes - 1 - q) as nat))),
            decreases j,
        {
            j = j - 1;
            let bj = var_string(dec_name("b", j as u64));
            let ghost prev = be_bytes@;
            be_bytes.push(bj);
            proof {
                assert(be_bytes@.map_values(|x: Expr| x@) =~= prev.map_values(|x: Expr| x@).push(bj@));
                assert(be_bytes@.map_values(|x: Expr| x@) =~= Seq::new(pad_bytes as nat, |q: int| Term::Var("0b"@))
                    + Seq::new((source_bytes - j) as nat, |q: int| var_t(byte_name((source_bytes - 1 - q) as nat))));
            }
        }
        proof {
            assert(be_bytes@.map_values(|x: Expr| x@) =~= be_load_bytes_t(source_bytes as nat, pad_bytes as nat));
        }

        let mut result = if target_bits == 32 { make_i32(be_bytes) } else { make_i64(be_bytes) };
        if signed {
            result = sign_extend(rt, result, target_bits, source_bits);
        }
        let items = vec![result];
        proof {
            assert(items@.map_values(|x: Expr| x@) =~= seq![load_result_t(target_bits, source_bits, signed)]);
        }
        b.push(items);
        rt.def_string(name.clone(), abs1("offset", b.build()));
    }
    let offset = rt.i32_const(memory_offset);
    crate::codegen::lambda::apply1(var_string(name), offset)
}

pub open spec fn store_name(source_bits: u8, target_bits: u8) -> Seq<char> {
    "I"@ + dec_t(source_bits as nat) + "Store"@ + dec_t(target_bits as nat)
}

/// The definitions that store the byte at the head of `bytes` at `addr{i}`.
pub open spec fn store_step_t(i: nat) -> Seq<(Seq<char>, Term)> {
    seq![("b"@, list::head_t(var_t("bytes"@)))]
        + (if i != 0 { seq![("bytes"@, list::tail_t(var_t("bytes"@)))] } else { Seq::empty() })
        + seq![("M"@, memory::insert_t(v("M"@), var_t(addr_name(i)), var_t("b"@)))]
}

/// The stores of the bytes to `addr{k - 1}` down to `addr0`: the list is big-endian but
/// numbers are stored in little endian.
pub open spec fn store_steps_t(k: nat) -> Seq<(Seq<char>, Term)>
    decreases k,
{
    if k == 0 {
        Seq::empty()
    } else {
        store_step_t((k - 1) as nat) + store_steps_t((k - 1) as nat)
    }
}

pub open spec fn store_def_t(source_bits: u8, target_bits: u8) -> Term {
    let n = (target_bits / 8) as nat;
    abs_t("offset"@, build_t(
        pop_range_t(seq!["base_addr"@, "val"@], 0) + addr0_defs_t() + addr_defs_t(n)
            + seq![("bytes"@, split_t(var_t("val"@), source_bits, target_bits))]
            + store_steps_t(n),
    ))
}

pub open spec fn store_st(s: RtState, memory_offset: u32, source_bits: u8, target_bits: u8) -> RtState {
    if s.has(store_name(source_bits, target_bits)) {
        s.with_i32(memory_offset as u64)
    } else {
        let s1 = incs_st(add_st(s), (target_bits / 8 - 1) as nat);
        split_st(s1, source_bits, target_bits)
            .def(store_name(source_bits, target_bits), store_def_t(source_bits, target_bits))
            .with_i32(memory_offset as u64)
    }
}

fn store_string(source_bits: u8, target_bits: u8) -> (s: String)
    ensures
        s@ == store_name(source_bits, target_bits),
{
    let mut s = String::from_str("I");
    write_radix(source_bits as u64, 10, false, &mut s);
    s.append("Store");
    write_radix(target_bits as u64, 10, false, &mut s);
    s
}

/// The `i(32|64).store[(8|16|32)]` instructions, e.g. `i32.store`, `i64.store32`: stores the
/// `target_bits` lowest bits of a `source_bits` number to the memory.
pub fn i_store(rt: &mut RuntimeGenerator, memory_offset: u32, source_bits: u8, target_bits: u8) -> (e: Expr)
    requires
        old(rt).wf(),
        split_widths_ok(source_bits, target_bits),
    ensures
        final(rt).wf(),
        final(rt).st() == store_st(old(rt).st(), memory_offset, source_bits, target_bits),
        e@ == app_t(var_t(store_name(source_bits, target_bits)), num_t(false, memory_offset as u64)),
{
    let target_bytes = target_bits / 8;
    let name = store_string(source_bits, target_bits);

    if !rt.has(name.as_str()) {
        let mut b = InstructionBuilder::new();
        b.pop(&["base_addr", "val"]);
        proof {
            assert(["base_addr", "val"]@.map_values(|s: &str| s@) =~= seq!["base_addr"@, "val"@]);
        }
        def_addresses(rt, &mut b, target_bytes);
        let bytes = split_lowest_bits_to_be_bytes(rt, var("val"), source_bits, target_bits);
        b.def("bytes", bytes);
        let ghost after_bytes = b@;
        proof {
            assert(after_bytes =~= pop_range_t(seq!["base_addr"@, "val"@], 0) + addr0_defs_t()
                + addr_defs_t(target_bytes as nat) + seq![("bytes"@, split_t(var_t("val"@), source_bits, target_bits))]);
        }

        let mut i: u8 = target_bytes;
        while i > 0
            invariant
                i <= target_bytes,
                b@ + store_steps_t(i as nat) == after_bytes + store_steps_t(target_bytes as nat),
            decreases i,
        {
            i = i - 1;
            b.def("b", list::get_head(var("bytes")));
            // The tail of the last byte is empty anyway
            if i != 0 {
                b.def("bytes", list::get_tail(var("bytes")));
            }
            b.store(var_string(dec_name("addr", i as u64)), var("b"));
            proof {
                assert(store_steps_t((i + 1) as nat) == store_step_t(i as nat) + store_steps_t(i as nat));
                assert(b@ + store_steps_t(i as nat) =~= after_bytes + store_steps_t(target_bytes as nat));
            }
        }
        proof {
            assert(b@ =~= after_bytes + store_steps_t(target_bytes as nat));
        }
        rt.def_string(name.clone(), abs1("offset", b.build()));
    }
    let offset = rt.i32_const(memory_offset);
    crate::codegen::lambda::apply1(var_string(name), offset)
}

} // verus!
