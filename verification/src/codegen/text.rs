//! Names of generated definitions: numbers written in decimal or hexadecimal notation.

use vstd::prelude::*;

verus! {

/// The digit `d` (below 16) in hexadecimal notation, upper or lower case.
pub open spec fn digit_char(d: nat, upper: bool) -> char {
    if d == 0 { '0' }
    else if d == 1 { '1' }
    else if d == 2 { '2' }
    else if d == 3 { '3' }
    else if d == 4 { '4' }
    else if d == 5 { '5' }
    else if d == 6 { '6' }
    else if d == 7 { '7' }
    else if d == 8 { '8' }
    else if d == 9 { '9' }
    else if d == 10 { if upper { 'A' } else { 'a' } }
    else if d == 11 { if upper { 'B' } else { 'b' } }
    else if d == 12 { if upper { 'C' } else { 'c' } }
    else if d == 13 { if upper { 'D' } else { 'd' } }
    else if d == 14 { if upper { 'E' } else { 'e' } }
    else { if upper { 'F' } else { 'f' } }
}

/// `n` written in base `radix` (2 to 16) without leading zeroes; `0` is written as one digit.
pub open spec fn radix_t(n: nat, radix: nat, upper: bool) -> Seq<char>
    decreases n,
{
    if radix < 2 || n < radix {
        seq![digit_char(n, upper)]
    } else {
        proof {
            assert(n / radix < n) by (nonlinear_arith)
                requires
                    radix >= 2,
                    n >= radix,
            ;
        }
        radix_t(n / radix, radix, upper) + seq![digit_char(n % radix, upper)]
    }
}

/// `n` in decimal notation, as `format!("{}", n)` writes it.
pub open spec fn dec_t(n: nat) -> Seq<char> {
    radix_t(n, 10, false)
}

/// `n` in upper-case hexadecimal notation, as `format!("{:X}", n)` writes it.
pub open spec fn hex_upper_t(n: nat) -> Seq<char> {
    radix_t(n, 16, true)
}

/// `n` in lower-case hexadecimal notation, as `format!("{:x}", n)` writes it.
pub open spec fn hex_lower_t(n: nat) -> Seq<char> {
    radix_t(n, 16, false)
}

/// A number written in a base has at least one digit.
pub proof fn lemma_radix_nonempty(n: nat, radix: nat, upper: bool)
    ensures
        radix_t(n, radix, upper).len() >= 1,
    decreases n,
{
    if radix >= 2 && n >= radix {
        assert(n / radix < n) by (nonlinear_arith)
            requires
                radix >= 2,
                n >= radix,
        ;
        lemma_radix_nonempty(n / radix, radix, upper);
    }
}

/// Different numbers are written differently in any base from 2 to 16.
pub proof fn lemma_radix_injective(n: nat, m: nat, radix: nat, upper: bool)
    requires
        2 <= radix <= 16,
        radix_t(n, radix, upper) == radix_t(m, radix, upper),
    ensures
        n == m,
    decreases n,
{
    if n < radix && m < radix {
        assert(radix_t(n, radix, upper)[0] == digit_char(n, upper));
        assert(radix_t(m, radix, upper)[0] == digit_char(m, upper));
    } else if n < radix {
        assert(m / radix < m) by (nonlinear_arith)
            requires
                radix >= 2,
                m >= radix,
        ;
        lemma_radix_nonempty(m / radix, radix, upper);
        assert(radix_t(m, radix, upper).len() >= 2);
    } else if m < radix {
        assert(n / radix < n) by (nonlinear_arith)
            requires
                radix >= 2,
                n >= radix,
        ;
        lemma_radix_nonempty(n / radix, radix, upper);
        assert(radix_t(n, radix, upper).len() >= 2);
    } else {
        assert(n / radix < n) by (nonlinear_arith)
            requires
                radix >= 2,
                n >= radix,
        ;
        let sn = radix_t(n, radix, upper);
        let sm = radix_t(m, radix, upper);
        let pn = radix_t(n / radix, radix, upper);
        let pm = radix_t(m / radix, radix, upper);
        assert(sn == pn + seq![digit_char(n % radix, upper)]);
        assert(sm == pm + seq![digit_char(m % radix, upper)]);
        assert(sn.last() == digit_char(n % radix, upper));
        assert(sm.last() == digit_char(m % radix, upper));
        assert(n % radix < 16 && m % radix < 16);
        assert(n % radix == m % radix);
        assert(pn =~= sn.drop_last());
        assert(pm =~= sm.drop_last());
        lemma_radix_injective(n / radix, m / radix, radix, upper);
        assert(n == (n / radix) * radix + n % radix) by (nonlinear_arith)
            requires
                radix >= 2,
        ;
        assert(m == (m / radix) * radix + m % radix) by (nonlinear_arith)
            requires
                radix >= 2,
        ;
    }
}

/// Different numbers have different names: `prefix` followed by the number in any base from
/// 2 to 16, then `suffix`.
pub proof fn lemma_number_names_distinct(prefix: Seq<char>, n: nat, m: nat, radix: nat, upper: bool, suffix: Seq<char>)
    requires
        2 <= radix <= 16,
        n != m,
    ensures
        prefix + radix_t(n, radix, upper) + suffix != prefix + radix_t(m, radix, upper) + suffix,
{
    if prefix + radix_t(n, radix, upper) + suffix == prefix + radix_t(m, radix, upper) + suffix {
        let a = prefix + radix_t(n, radix, upper) + suffix;
        let b = prefix + radix_t(m, radix, upper) + suffix;
        assert(radix_t(n, radix, upper) =~= a.subrange(prefix.len() as int, a.len() - suffix.len()));
        assert(radix_t(m, radix, upper) =~= b.subrange(prefix.len() as int, b.len() - suffix.len()));
        lemma_radix_injective(n, m, radix, upper);
    }
}

fn digit_str(d: u64, upper: bool) -> (s: &'static str)
    requires
        d < 16,
    ensures
        s@ == seq![digit_char(d as nat, upper)],
{
    proof {
        reveal_strlit("0"); reveal_strlit("1"); reveal_strlit("2"); reveal_strlit("3");
        reveal_strlit("4"); reveal_strlit("5"); reveal_strlit("6"); reveal_strlit("7");
        reveal_strlit("8"); reveal_strlit("9");
        reveal_strlit("A"); reveal_strlit("B"); reveal_strlit("C");
        reveal_strlit("D"); reveal_strlit("E"); reveal_strlit("F");
        reveal_strlit("a"); reveal_strlit("b"); reveal_strlit("c");
        reveal_strlit("d"); reveal_strlit("e"); reveal_strlit("f");
    }
    if d == 0 { "0" }
    else if d == 1 { "1" }
    else if d == 2 { "2" }
    else if d == 3 { "3" }
    else if d == 4 { "4" }
    else if d == 5 { "5" }
    else if d == 6 { "6" }
    else if d == 7 { "7" }
    else if d == 8 { "8" }
    else if d == 9 { "9" }
    else if d == 10 { if upper { "A" } else { "a" } }
    else if d == 11 { if upper { "B" } else { "b" } }
    else if d == 12 { if upper { "C" } else { "c" } }
    else if d == 13 { if upper { "D" } else { "d" } }
    else if d == 14 { if upper { "E" } else { "e" } }
    else { if upper { "F" } else { "f" } }
}

/// Writes `n` in base `radix` at the end of `out`.
pub fn write_radix(n: u64, radix: u64, upper: bool, out: &mut String)
    requires
        2 <= radix <= 16,
    ensures
        final(out)@ == old(out)@ + radix_t(n as nat, radix as nat, upper),
    decreases n,
{
    let ghost start = out@;
    if n >= radix {
        assert(n / radix < n) by (nonlinear_arith)
            requires
                radix >= 2,
                n >= radix,
        ;
        write_radix(n / radix, radix, upper, out);
    }
    out.append(digit_str(n % radix, upper));
    proof {
        if n < radix {
            assert(n % radix == n) by (nonlinear_arith)
                requires
                    n < radix,
            ;
        }
        assert(out@ =~= start + radix_t(n as nat, radix as nat, upper));
    }
}

/// `prefix`, then `n` in base `radix`, then `suffix`.
pub fn number_name(prefix: &str, n: u64, radix: u64, upper: bool, suffix: &str) -> (s: String)
    requires
        2 <= radix <= 16,
    ensures
        s@ == prefix@ + radix_t(n as nat, radix as nat, upper) + suffix@,
{
    let mut s = String::from_str(prefix);
    write_radix(n, radix, upper, &mut s);
    s.append(suffix);
    s
}

/// `prefix` followed by `n` in decimal notation.
pub fn dec_name(prefix: &str, n: u64) -> (s: String)
    ensures
        s@ == prefix@ + dec_t(n as nat),
{
    let s = number_name(prefix, n, 10, false, "");
    proof {
        reveal_strlit("");
        assert(s@ =~= prefix@ + dec_t(n as nat));
    }
    s
}

/// `prefix` followed by `n` in lower-case hexadecimal notation.
pub fn hex_lower_name(prefix: &str, n: u64) -> (s: String)
    ensures
        s@ == prefix@ + hex_lower_t(n as nat),
{
    let s = number_name(prefix, n, 16, false, "");
    proof {
        reveal_strlit("");
        assert(s@ =~= prefix@ + hex_lower_t(n as nat));
    }
    s
}

/// `n` in upper-case hexadecimal notation followed by `suffix`.
pub fn hex_upper_name(n: u64, suffix: &str) -> (s: String)
    ensures
        s@ == hex_upper_t(n as nat) + suffix@,
{
    let s = number_name("", n, 16, true, suffix);
    proof {
        reveal_strlit("");
        assert(s@ =~= hex_upper_t(n as nat) + suffix@);
    }
    s
}

/// Whether two strings are equal.
pub fn str_eq(a: &str, b: &str) -> (r: bool)
    ensures
        r == (a@ == b@),
{
    String::from_str(a) == String::from_str(b)
}

/// `n` in decimal notation.
pub fn dec_string(n: u64) -> (s: String)
    ensures
        s@ == dec_t(n as nat),
{
    let mut s = String::new();
    write_radix(n, 10, false, &mut s);
    proof {
        assert(s@ =~= dec_t(n as nat));
    }
    s
}

} // verus!
