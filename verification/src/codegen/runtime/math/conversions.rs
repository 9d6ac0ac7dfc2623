//! Integer wrapping (truncation) and extension (widening) between integers, and conversions
//! between integers and bytes or IDs.

use vstd::prelude::*;

use crate::codegen::lambda::{
    abs2, abs3, abs4, abs_t, app_t, app2_t, app3_t, app4_t, apply1, apply2, apply3, apply4, bit,
    bit_t, list, number, rec, rec_t, select, select_t, var, var_t, Expr, Term,
};
use crate::codegen::lambda::scope::scoped;
use crate::codegen::runtime::{
    grows, in_scope, lemma_core_names, lemma_grows_num, lemma_grows_pair, lemma_grows_refl,
    lemma_grows_trans, lemma_has_in_scope, num_t, rt_ok, RtState, RuntimeGenerator,
};

verus! {

pub open spec fn chop_helper_t() -> Term {
    let new_part = list::node_t(list::head_t(var_t("a"@)), var_t("part"@));
    let a_tail = list::tail_t(var_t("a"@));
    let template_tail = list::tail_t(var_t("template"@));
    abs_t("parts"@, abs_t("part"@, abs_t("a"@, abs_t("template"@, select_t(
        list::is_not_empty_t(var_t("template"@)),
        var_t("parts"@),
        select_t(
            list::head_t(var_t("template"@)),
            app4_t(rec_t(var_t("_CHOP"@)), var_t("parts"@), new_part, a_tail, template_tail),
            app4_t(rec_t(var_t("_CHOP"@)), list::node_t(new_part, var_t("parts"@)), list::empty_t(), a_tail, template_tail),
        ),
    )))))
}

pub open spec fn chop_st(s: RtState) -> RtState {
    if s.has("CHOP"@) {
        s
    } else {
        s.def_rec("_CHOP"@, chop_helper_t())
            .def("CHOP"@, app2_t(rec_t(var_t("_CHOP"@)), list::empty_t(), list::empty_t()))
    }
}

/// Chops the number into parts using the template, where a 1-bit ends a part, and returns a
/// big-endian list of the parts, each with its bits reversed.
fn chop(rt: &mut RuntimeGenerator, a: Expr, template: Expr) -> (e: Expr)
    requires
        old(rt).wf(),
    ensures
        final(rt).wf(),
        final(rt).st() == chop_st(old(rt).st()),
        e@ == app2_t(var_t("CHOP"@), a@, template@),
{
    if !rt.has("CHOP") {
        let new_part = list::node(list::get_head(var("a")), var("part"));
        let keep = apply4(
            rec(var("_CHOP")),
            var("parts"),
            new_part.duplicate(),
            list::get_tail(var("a")),
            list::get_tail(var("template")),
        );
        let end = apply4(
            rec(var("_CHOP")),
            list::node(new_part, var("parts")),
            list::empty(),
            list::get_tail(var("a")),
            list::get_tail(var("template")),
        );
        let body = abs4("parts", "part", "a", "template", select(
            list::is_not_empty(var("template")),
            var("parts"),
            select(list::get_head(var("template")), keep, end),
        ));
        rt.def_rec("_CHOP", body);
        rt.def("CHOP", apply2(rec(var("_CHOP")), list::empty(), list::empty()));
    }
    apply2(var("CHOP"), a, template)
}

/// Whether the widths are a supported pair for splitting into bytes.
pub open spec fn split_widths_ok(source_bits: u8, target_bits: u8) -> bool {
    ||| source_bits == 32 && (target_bits == 8 || target_bits == 16 || target_bits == 32)
    ||| source_bits == 64 && (target_bits == 8 || target_bits == 16 || target_bits == 32 || target_bits == 64)
}

/// The template that marks the end of every byte of the `target_bits` lowest bits.
pub open spec fn byte_template(target_bits: u8) -> u64 {
    if target_bits == 8 {
        0x80
    } else if target_bits == 16 {
        0x8080
    } else if target_bits == 32 {
        0x8080_8080
    } else {
        0x8080_8080_8080_8080
    }
}

pub open spec fn split_st(s: RtState, source_bits: u8, target_bits: u8) -> RtState {
    chop_st(s.with_num(source_bits == 64, byte_template(target_bits)))
}

pub open spec fn split_t(a: Term, source_bits: u8, target_bits: u8) -> Term {
    app2_t(var_t("CHOP"@), a, num_t(source_bits == 64, byte_template(target_bits)))
}

/// Takes the `target_bits` lowest bits of a number with `source_bits` and converts them to a
/// big-endian list of bytes.
pub fn split_lowest_bits_to_be_bytes(rt: &mut RuntimeGenerator, a: Expr, source_bits: u8, target_bits: u8) -> (e: Expr)
    requires
        old(rt).wf(),
        split_widths_ok(source_bits, target_bits),
    ensures
        final(rt).wf(),
        final(rt).st() == split_st(old(rt).st(), source_bits, target_bits),
        e@ == split_t(a@, source_bits, target_bits),
{
    let template_value: u64 = if target_bits == 8 {
        0x80
    } else if target_bits == 16 {
        0x8080
    } else if target_bits == 32 {
        0x8080_8080
    } else {
        0x8080_8080_8080_8080
    };
    let byte_template = rt.num_const(source_bits == 64, template_value);
    chop(rt, a, byte_template)
}

pub open spec fn wrap_st(s: RtState, is64: bool) -> RtState {
    if is64 { chop_st(s.with_i64(0x8000_0000_0000_0000)) } else { chop_st(s.with_i32(0x8000_0000)) }
}

pub open spec fn wrap_t(a: Term, is64: bool) -> Term {
    let template = if is64 { num_t(true, 0x8000_0000_0000_0000) } else { num_t(false, 0x8000_0000) };
    app_t(var_t("Rev"@), list::head_t(app2_t(var_t("CHOP"@), a, template)))
}

/// Wraps the bits at a limit of 32 bits.
pub fn wrap_i32(rt: &mut RuntimeGenerator, a: Expr) -> (e: Expr)
    requires
        old(rt).wf(),
    ensures
        final(rt).wf(),
        final(rt).st() == wrap_st(old(rt).st(), false),
        e@ == wrap_t(a@, false),
{
    let template = rt.i32_const(0x8000_0000);
    let parts = chop(rt, a, template);
    // Convert it back to a little-endian number
    number::reverse_bits(list::get_head(parts))
}

/// Wraps the bits at a limit of 64 bits.
pub fn wrap_i64(rt: &mut RuntimeGenerator, a: Expr) -> (e: Expr)
    requires
        old(rt).wf(),
    ensures
        final(rt).wf(),
        final(rt).st() == wrap_st(old(rt).st(), true),
        e@ == wrap_t(a@, true),
{
    let template = rt.i64_const(0x8000_0000_0000_0000);
    let parts = chop(rt, a, template);
    number::reverse_bits(list::get_head(parts))
}

/// Keeps the lower half of a 32-bit number as an ID.
pub fn i32_to_id(rt: &mut RuntimeGenerator, a: Expr) -> (e: Expr)
    requires
        old(rt).wf(),
    ensures
        final(rt).wf(),
        final(rt).st() == chop_st(old(rt).st().with_i32(0x8000)),
        e@ == list::head_t(app2_t(var_t("CHOP"@), a@, num_t(false, 0x8000))),
{
    // Cut the number in half (only the lower part is kept)
    let template = rt.i32_const(0x8000);
    let parts = chop(rt, a, template);
    list::get_head(parts)
}

/// The lowest byte of a 32-bit number.
pub fn i32_to_byte(rt: &mut RuntimeGenerator, a: Expr) -> (e: Expr)
    requires
        old(rt).wf(),
    ensures
        final(rt).wf(),
        final(rt).st() == split_st(old(rt).st(), 32, 8),
        e@ == list::head_t(split_t(a@, 32, 8)),
{
    let bytes = split_lowest_bits_to_be_bytes(rt, a, 32, 8);
    list::get_head(bytes)
}

pub open spec fn widen_helper_t() -> Term {
    abs_t("a"@, abs_t("template"@, select_t(
        list::is_not_empty_t(var_t("a"@)),
        var_t("template"@),
        list::node_t(
            list::head_t(var_t("a"@)),
            app2_t(rec_t(var_t("_WIDEN"@)), list::tail_t(var_t("a"@)), list::tail_t(var_t("template"@))),
        ),
    )))
}

pub open spec fn widen_st(s: RtState) -> RtState {
    if s.has("WIDEN"@) {
        s
    } else {
        s.def_rec("_WIDEN"@, widen_helper_t()).def("WIDEN"@, rec_t(var_t("_WIDEN"@)))
    }
}

/// Widens a number by copying the missing bits from the template (which should be zero).
fn widen(rt: &mut RuntimeGenerator, a: Expr, template: Expr) -> (e: Expr)
    requires
        old(rt).wf(),
    ensures
        final(rt).wf(),
        final(rt).st() == widen_st(old(rt).st()),
        e@ == app2_t(var_t("WIDEN"@), a@, template@),
{
    if !rt.has("WIDEN") {
        let body = select(
            list::is_not_empty(var("a")),
            var("template"),
            list::node(
                list::get_head(var("a")),
                apply2(rec(var("_WIDEN")), list::get_tail(var("a")), list::get_tail(var("template"))),
            ),
        );
        rt.def_rec("_WIDEN", abs2("a", "template", body));
        rt.def("WIDEN", rec(var("_WIDEN")));
    }
    apply2(var("WIDEN"), a, template)
}

/// Widens a given list of bits to an I32.
pub fn widen_i32(rt: &mut RuntimeGenerator, a: Expr) -> (e: Expr)
    requires
        old(rt).wf(),
    ensures
        final(rt).wf(),
        final(rt).st() == widen_st(old(rt).st().with_i32(0)),
        e@ == app2_t(var_t("WIDEN"@), a@, num_t(false, 0)),
{
    let template = rt.i32_const(0);
    widen(rt, a, template)
}

/// Widens a given list of bits to an I64.
pub fn widen_i64(rt: &mut RuntimeGenerator, a: Expr) -> (e: Expr)
    requires
        old(rt).wf(),
    ensures
        final(rt).wf(),
        final(rt).st() == widen_st(old(rt).st().with_i64(0)),
        e@ == app2_t(var_t("WIDEN"@), a@, num_t(true, 0)),
{
    let template = rt.i64_const(0);
    widen(rt, a, template)
}

pub open spec fn sgnext_helper_t() -> Term {
    let a_head = list::head_t(var_t("a"@));
    let a_tail = list::tail_t(var_t("a"@));
    let mask_tail = list::tail_t(var_t("mask"@));
    abs_t("bit"@, abs_t("a"@, abs_t("mask"@, select_t(
        list::is_not_empty_t(var_t("a"@)),
        list::empty_t(),
        select_t(
            list::head_t(var_t("mask"@)),
            list::node_t(a_head, app3_t(rec_t(var_t("_SGNEXT"@)), a_head, a_tail, mask_tail)),
            list::node_t(var_t("bit"@), app3_t(rec_t(var_t("_SGNEXT"@)), var_t("bit"@), a_tail, mask_tail)),
        ),
    ))))
}

pub open spec fn sgnext_st(s: RtState) -> RtState {
    if s.has("SGNEXT"@) {
        s
    } else {
        s.def_rec("_SGNEXT"@, sgnext_helper_t()).def("SGNEXT"@, app_t(rec_t(var_t("_SGNEXT"@)), bit_t(false)))
    }
}

/// Copies the sign bit of `a` into the bits masked by `extension_mask`.
fn sign_extend_with_mask(rt: &mut RuntimeGenerator, a: Expr, extension_mask: Expr) -> (e: Expr)
    requires
        old(rt).wf(),
    ensures
        final(rt).wf(),
        final(rt).st() == sgnext_st(old(rt).st()),
        e@ == app2_t(var_t("SGNEXT"@), a@, extension_mask@),
{
    if !rt.has("SGNEXT") {
        let a_head = list::get_head(var("a"));
        let a_tail = list::get_tail(var("a"));
        let mask_tail = list::get_tail(var("mask"));
        let copy = list::node(
            a_head.duplicate(),
            apply3(rec(var("_SGNEXT")), a_head, a_tail.duplicate(), mask_tail.duplicate()),
        );
        let extend = list::node(var("bit"), apply3(rec(var("_SGNEXT")), var("bit"), a_tail, mask_tail));
        let definition = abs3("bit", "a", "mask", select(
            list::is_not_empty(var("a")),
            list::empty(),
            select(list::get_head(var("mask")), copy, extend),
        ));
        rt.def_rec("_SGNEXT", definition);
        rt.def("SGNEXT", apply1(rec(var("_SGNEXT")), bit(false)));
    }
    apply2(var("SGNEXT"), a, extension_mask)
}

/// Whether the widths are a supported pair for sign extension.
pub open spec fn extend_widths_ok(target_bits: u8, source_bits: u8) -> bool {
    ||| target_bits == 32 && (source_bits == 8 || source_bits == 16)
    ||| target_bits == 64 && (source_bits == 8 || source_bits == 16 || source_bits == 32)
}

/// The mask of the bits above the `source_bits` lowest ones.
pub open spec fn extension_mask(target_bits: u8, source_bits: u8) -> u64 {
    if target_bits == 32 {
        if source_bits == 8 { 0xffff_ff00 } else { 0xffff_0000 }
    } else if source_bits == 8 {
        0xffff_ffff_ffff_ff00
    } else if source_bits == 16 {
        0xffff_ffff_ffff_0000
    } else {
        0xffff_ffff_0000_0000
    }
}

pub open spec fn sign_extend_st(s: RtState, target_bits: u8, source_bits: u8) -> RtState {
    sgnext_st(s.with_num(target_bits == 64, extension_mask(target_bits, source_bits)))
}

pub open spec fn sign_extend_t(a: Term, target_bits: u8, source_bits: u8) -> Term {
    app2_t(var_t("SGNEXT"@), a, num_t(target_bits == 64, extension_mask(target_bits, source_bits)))
}

/// Sign-extends the `source_bits` lowest bits of a `target_bits`-wide number.
pub fn sign_extend(rt: &mut RuntimeGenerator, a: Expr, target_bits: u8, source_bits: u8) -> (e: Expr)
    requires
        old(rt).wf(),
        extend_widths_ok(target_bits, source_bits),
    ensures
        final(rt).wf(),
        final(rt).st() == sign_extend_st(old(rt).st(), target_bits, source_bits),
        e@ == sign_extend_t(a@, target_bits, source_bits),
{
    let mask_value: u64 = if target_bits == 32 {
        if source_bits == 8 { 0xffff_ff00 } else { 0xffff_0000 }
    } else if source_bits == 8 {
        0xffff_ffff_ffff_ff00
    } else if source_bits == 16 {
        0xffff_ffff_ffff_0000
    } else {
        0xffff_ffff_0000_0000
    };
    let extension_mask = rt.num_const(target_bits == 64, mask_value);
    sign_extend_with_mask(rt, a, extension_mask)
}

pub open spec fn wsgnext_helper_t() -> Term {
    let template_tail = list::tail_t(var_t("template"@));
    let a_head = list::head_t(var_t("a"@));
    abs_t("bit"@, abs_t("a"@, abs_t("template"@, select_t(
        list::is_not_empty_t(var_t("template"@)),
        var_t("a"@),
        select_t(
            list::is_not_empty_t(var_t("a"@)),
            list::node_t(var_t("bit"@), app3_t(rec_t(var_t("_WSGNEXT"@)), var_t("bit"@), list::empty_t(), template_tail)),
            list::node_t(a_head, app3_t(rec_t(var_t("_WSGNEXT"@)), a_head, list::tail_t(var_t("a"@)), template_tail)),
        ),
    ))))
}

pub open spec fn wsgnext_st(s: RtState) -> RtState {
    if s.has("WSGNEXT"@) {
        s
    } else {
        s.def_rec("_WSGNEXT"@, wsgnext_helper_t()).def("WSGNEXT"@, app_t(rec_t(var_t("_WSGNEXT"@)), bit_t(false)))
    }
}

/// Widens a number to the width of the template by copying the sign bit.
fn widen_and_sign_extend_with_template(rt: &mut RuntimeGenerator, a: Expr, template: Expr) -> (e: Expr)
    requires
        old(rt).wf(),
    ensures
        final(rt).wf(),
        final(rt).st() == wsgnext_st(old(rt).st()),
        e@ == app2_t(var_t("WSGNEXT"@), a@, template@),
{
    if !rt.has("WSGNEXT") {
        let template_tail = list::get_tail(var("template"));
        let a_head = list::get_head(var("a"));
        let extend = list::node(var("bit"), apply3(rec(var("_WSGNEXT")), var("bit"), list::empty(), template_tail.duplicate()));
        let copy = list::node(a_head.duplicate(), apply3(rec(var("_WSGNEXT")), a_head, list::get_tail(var("a")), template_tail));
        let definition = abs3("bit", "a", "template", select(
            list::is_not_empty(var("template")),
            var("a"),
            select(list::is_not_empty(var("a")), extend, copy),
        ));
        rt.def_rec("_WSGNEXT", definition);
        rt.def("WSGNEXT", apply1(rec(var("_WSGNEXT")), bit(false)));
    }
    apply2(var("WSGNEXT"), a, template)
}

pub fn widen_and_sign_extend_i32(rt: &mut RuntimeGenerator, a: Expr) -> (e: Expr)
    requires
        old(rt).wf(),
    ensures
        final(rt).wf(),
        final(rt).st() == wsgnext_st(old(rt).st().with_i32(0)),
        e@ == app2_t(var_t("WSGNEXT"@), a@, num_t(false, 0)),
{
    let template = rt.i32_const(0);
    widen_and_sign_extend_with_template(rt, a, template)
}

pub fn widen_and_sign_extend_i64(rt: &mut RuntimeGenerator, a: Expr) -> (e: Expr)
    requires
        old(rt).wf(),
    ensures
        final(rt).wf(),
        final(rt).st() == wsgnext_st(old(rt).st().with_i64(0)),
        e@ == app2_t(var_t("WSGNEXT"@), a@, num_t(true, 0)),
{
    let template = rt.i64_const(0);
    widen_and_sign_extend_with_template(rt, a, template)
}

/// Chopping into parts defines its utilities after what they refer to.
pub proof fn lemma_chop_ordered(s: RtState)
    requires
        rt_ok(s),
    ensures
        grows(s, chop_st(s)),
        in_scope(chop_st(s)).contains("CHOP"@),
{
    if s.has("CHOP"@) {
        lemma_grows_refl(s);
        lemma_has_in_scope(s, "CHOP"@);
    } else {
        lemma_core_names(s);
        let e = in_scope(s).insert("_CHOP"@);
        let main = app2_t(rec_t(var_t("_CHOP"@)), list::empty_t(), list::empty_t());
        assert(scoped(chop_helper_t(), e)) by { reveal_with_fuel(scoped, 20); }
        assert(scoped(main, e)) by { reveal_with_fuel(scoped, 5); }
        lemma_grows_pair(s, "_CHOP"@, chop_helper_t(), "CHOP"@, main);
    }
}

/// Widening defines its utilities after what they refer to.
pub proof fn lemma_widen_ordered(s: RtState)
    requires
        rt_ok(s),
    ensures
        grows(s, widen_st(s)),
        in_scope(widen_st(s)).contains("WIDEN"@),
{
    if s.has("WIDEN"@) {
        lemma_grows_refl(s);
        lemma_has_in_scope(s, "WIDEN"@);
    } else {
        lemma_core_names(s);
        let e = in_scope(s).insert("_WIDEN"@);
        let main = rec_t(var_t("_WIDEN"@));
        assert(scoped(widen_helper_t(), e)) by { reveal_with_fuel(scoped, 16); }
        assert(scoped(main, e)) by { reveal_with_fuel(scoped, 5); }
        lemma_grows_pair(s, "_WIDEN"@, widen_helper_t(), "WIDEN"@, main);
    }
}

/// Sign extension defines its utilities after what they refer to.
pub proof fn lemma_sgnext_ordered(s: RtState)
    requires
        rt_ok(s),
    ensures
        grows(s, sgnext_st(s)),
        in_scope(sgnext_st(s)).contains("SGNEXT"@),
{
    if s.has("SGNEXT"@) {
        lemma_grows_refl(s);
        lemma_has_in_scope(s, "SGNEXT"@);
    } else {
        lemma_core_names(s);
        let e = in_scope(s).insert("_SGNEXT"@);
        let main = app_t(rec_t(var_t("_SGNEXT"@)), bit_t(false));
        assert(scoped(sgnext_helper_t(), e)) by { reveal_with_fuel(scoped, 18); }
        assert(scoped(main, e)) by { reveal_with_fuel(scoped, 5); }
        lemma_grows_pair(s, "_SGNEXT"@, sgnext_helper_t(), "SGNEXT"@, main);
    }
}

/// Widening with the sign defines its utilities after what they refer to.
pub proof fn lemma_wsgnext_ordered(s: RtState)
    requires
        rt_ok(s),
    ensures
        grows(s, wsgnext_st(s)),
        in_scope(wsgnext_st(s)).contains("WSGNEXT"@),
{
    if s.has("WSGNEXT"@) {
        lemma_grows_refl(s);
        lemma_has_in_scope(s, "WSGNEXT"@);
    } else {
        lemma_core_names(s);
        let e = in_scope(s).insert("_WSGNEXT"@);
        let main = app_t(rec_t(var_t("_WSGNEXT"@)), bit_t(false));
        assert(scoped(wsgnext_helper_t(), e)) by { reveal_with_fuel(scoped, 18); }
        assert(scoped(main, e)) by { reveal_with_fuel(scoped, 5); }
        lemma_grows_pair(s, "_WSGNEXT"@, wsgnext_helper_t(), "WSGNEXT"@, main);
    }
}

/// Splitting into bytes defines its utilities after what they refer to.
pub proof fn lemma_split_ordered(s: RtState, source_bits: u8, target_bits: u8)
    requires
        rt_ok(s),
    ensures
        grows(s, split_st(s, source_bits, target_bits)),
        in_scope(split_st(s, source_bits, target_bits)).contains("CHOP"@),
        in_scope(split_st(s, source_bits, target_bits)).contains(
            num_t(source_bits == 64, byte_template(target_bits))->Var_0,
        ),
{
    let s0 = s.with_num(source_bits == 64, byte_template(target_bits));
    lemma_grows_num(s, source_bits == 64, byte_template(target_bits));
    lemma_chop_ordered(s0);
    lemma_grows_trans(s, s0, chop_st(s0));
}

/// Wrapping defines its utilities after what they refer to.
pub proof fn lemma_wrap_ordered(s: RtState, is64: bool)
    requires
        rt_ok(s),
    ensures
        grows(s, wrap_st(s, is64)),
        in_scope(wrap_st(s, is64)).contains("CHOP"@),
        in_scope(wrap_st(s, is64)).contains("Rev"@),
        is64 ==> in_scope(wrap_st(s, is64)).contains(num_t(true, 0x8000_0000_0000_0000)->Var_0),
        !is64 ==> in_scope(wrap_st(s, is64)).contains(num_t(false, 0x8000_0000)->Var_0),
{
    let n: u64 = if is64 { 0x8000_0000_0000_0000 } else { 0x8000_0000 };
    let s0 = s.with_num(is64, n);
    lemma_grows_num(s, is64, n);
    lemma_chop_ordered(s0);
    lemma_grows_trans(s, s0, chop_st(s0));
    lemma_core_names(wrap_st(s, is64));
}

/// Sign extension of the lowest bits defines its utilities after what they refer to.
pub proof fn lemma_sign_extend_ordered(s: RtState, target_bits: u8, source_bits: u8)
    requires
        rt_ok(s),
    ensures
        grows(s, sign_extend_st(s, target_bits, source_bits)),
        in_scope(sign_extend_st(s, target_bits, source_bits)).contains("SGNEXT"@),
        in_scope(sign_extend_st(s, target_bits, source_bits)).contains(
            num_t(target_bits == 64, extension_mask(target_bits, source_bits))->Var_0,
        ),
{
    let s0 = s.with_num(target_bits == 64, extension_mask(target_bits, source_bits));
    lemma_grows_num(s, target_bits == 64, extension_mask(target_bits, source_bits));
    lemma_sgnext_ordered(s0);
    lemma_grows_trans(s, s0, sgnext_st(s0));
}

} // verus!
