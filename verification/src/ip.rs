//! Network addresses as plain values, with their canonical text form.
//!
//! A target address is either four IPv4 octets or eight IPv6 groups. The
//! canonical text of an IPv4 address is the dotted decimal form with no
//! leading zeros; the canonical text used here for an IPv6 address is the
//! eight lowercase hexadecimal groups joined by colons, without `::`
//! compression.

use vstd::prelude::*;

use crate::text::all_digits;
use crate::text::digit_val;
use crate::text::is_digit;
use crate::text::is_hex_digit;
use crate::text::lemma_canonical_dec;
use crate::text::lemma_dec_injective;
use crate::text::lemma_dec_shape;
use crate::text::lemma_dec_value_of;
use crate::text::lemma_hex_injective;
use crate::text::lemma_hex_shape;
use crate::text::spec_dec;
use crate::text::spec_dec_value;
use crate::text::spec_hex;
use crate::text::u64_to_dec;
use crate::text::u64_to_hex;

verus! {

/// A resolved network address, held as plain numeric values.
#[derive(Clone, Copy, PartialEq, Eq, Structural, Debug)]
pub enum IpAddress {
    /// An IPv4 address, one field per octet of `a.b.c.d`.
    V4 { a: u8, b: u8, c: u8, d: u8 },
    /// An IPv6 address, one field per 16-bit group of `g0:g1:...:g7`.
    V6 { g0: u16, g1: u16, g2: u16, g3: u16, g4: u16, g5: u16, g6: u16, g7: u16 },
}

/// Canonical dotted decimal text of an IPv4 address.
pub open spec fn spec_format_ipv4(a: u8, b: u8, c: u8, d: u8) -> Seq<char> {
    spec_dec(a as nat) + seq!['.'] + spec_dec(b as nat) + seq!['.'] + spec_dec(c as nat)
        + seq!['.'] + spec_dec(d as nat)
}

/// Canonical (uncompressed) colon-separated hexadecimal text of an IPv6
/// address.
pub open spec fn spec_format_ipv6(
    g0: u16,
    g1: u16,
    g2: u16,
    g3: u16,
    g4: u16,
    g5: u16,
    g6: u16,
    g7: u16,
) -> Seq<char> {
    spec_hex(g0 as nat) + seq![':'] + spec_hex(g1 as nat) + seq![':'] + spec_hex(g2 as nat)
        + seq![':'] + spec_hex(g3 as nat) + seq![':'] + spec_hex(g4 as nat) + seq![':']
        + spec_hex(g5 as nat) + seq![':'] + spec_hex(g6 as nat) + seq![':'] + spec_hex(g7 as nat)
}

/// Canonical text of an address.
pub open spec fn spec_format_ip(ip: IpAddress) -> Seq<char> {
    match ip {
        IpAddress::V4 { a, b, c, d } => spec_format_ipv4(a, b, c, d),
        IpAddress::V6 { g0, g1, g2, g3, g4, g5, g6, g7 } => spec_format_ipv6(
            g0,
            g1,
            g2,
            g3,
            g4,
            g5,
            g6,
            g7,
        ),
    }
}

/// Index of the first separator in the canonical IPv4 text.
pub open spec fn dot_pos_1(a: u8) -> int {
    spec_dec(a as nat).len() as int
}

/// Index of the second separator in the canonical IPv4 text.
pub open spec fn dot_pos_2(a: u8, b: u8) -> int {
    dot_pos_1(a) + 1 + spec_dec(b as nat).len()
}

/// Index of the third separator in the canonical IPv4 text.
pub open spec fn dot_pos_3(a: u8, b: u8, c: u8) -> int {
    dot_pos_2(a, b) + 1 + spec_dec(c as nat).len()
}

/// A decimal digit is not a dot.
proof fn lemma_digit_not_dot(c: char)
    requires
        is_digit(c),
    ensures
        c != '.',
{
    assert('.' as int == 46);
}

/// Layout of the canonical IPv4 text: the three dots stand exactly at the
/// separator positions, and the four octet regions are the octets' decimal
/// texts.
proof fn lemma_ipv4_format_structure(a: u8, b: u8, c: u8, d: u8)
    ensures
        spec_format_ipv4(a, b, c, d).len() == dot_pos_3(a, b, c) + 1 + spec_dec(d as nat).len(),
        0 < dot_pos_1(a) < dot_pos_2(a, b) < dot_pos_3(a, b, c) < spec_format_ipv4(
            a,
            b,
            c,
            d,
        ).len(),
        spec_format_ipv4(a, b, c, d)[dot_pos_1(a)] == '.',
        spec_format_ipv4(a, b, c, d)[dot_pos_2(a, b)] == '.',
        spec_format_ipv4(a, b, c, d)[dot_pos_3(a, b, c)] == '.',
        forall|j: int|
            0 <= j < spec_format_ipv4(a, b, c, d).len() && spec_format_ipv4(a, b, c, d)[j] == '.'
                ==> j == dot_pos_1(a) || j == dot_pos_2(a, b) || j == dot_pos_3(a, b, c),
        spec_format_ipv4(a, b, c, d).subrange(0, dot_pos_1(a)) == spec_dec(a as nat),
        spec_format_ipv4(a, b, c, d).subrange(dot_pos_1(a) + 1, dot_pos_2(a, b)) == spec_dec(
            b as nat,
        ),
        spec_format_ipv4(a, b, c, d).subrange(dot_pos_2(a, b) + 1, dot_pos_3(a, b, c)) == spec_dec(
            c as nat,
        ),
        spec_format_ipv4(a, b, c, d).subrange(
            dot_pos_3(a, b, c) + 1,
            spec_format_ipv4(a, b, c, d).len() as int,
        ) == spec_dec(d as nat),
{
    lemma_dec_shape(a as nat);
    lemma_dec_shape(b as nat);
    lemma_dec_shape(c as nat);
    lemma_dec_shape(d as nat);
    let f = spec_format_ipv4(a, b, c, d);
    let p1 = dot_pos_1(a);
    let p2 = dot_pos_2(a, b);
    let p3 = dot_pos_3(a, b, c);
    assert(f.subrange(0, p1) =~= spec_dec(a as nat));
    assert(f.subrange(p1 + 1, p2) =~= spec_dec(b as nat));
    assert(f.subrange(p2 + 1, p3) =~= spec_dec(c as nat));
    assert(f.subrange(p3 + 1, f.len() as int) =~= spec_dec(d as nat));
    assert forall|j: int| 0 <= j < f.len() && f[j] == '.' implies j == p1 || j == p2 || j == p3 by {
        if j < p1 {
            assert(f[j] == spec_dec(a as nat)[j]);
            lemma_digit_not_dot(f[j]);
        } else if p1 < j < p2 {
            assert(f[j] == spec_dec(b as nat)[j - p1 - 1]);
            lemma_digit_not_dot(f[j]);
        } else if p2 < j < p3 {
            assert(f[j] == spec_dec(c as nat)[j - p2 - 1]);
            lemma_digit_not_dot(f[j]);
        } else if p3 < j {
            assert(f[j] == spec_dec(d as nat)[j - p3 - 1]);
            lemma_digit_not_dot(f[j]);
        }
    }
}

/// A lowercase hexadecimal digit is neither a dot nor a colon.
proof fn lemma_hex_digit_plain(c: char)
    requires
        is_hex_digit(c),
    ensures
        c != '.',
        c != ':',
{
    assert('.' as int == 46);
    assert(':' as int == 58);
}

/// Splitting a text at its first separator is unambiguous: two such splits
/// agree piece by piece.
proof fn lemma_split_at_sep(s1: Seq<char>, t1: Seq<char>, s2: Seq<char>, t2: Seq<char>, sep: char)
    requires
        forall|i: int| 0 <= i < s1.len() ==> s1[i] != sep,
        forall|i: int| 0 <= i < s2.len() ==> s2[i] != sep,
        s1 + seq![sep] + t1 == s2 + seq![sep] + t2,
    ensures
        s1 == s2,
        t1 == t2,
{
    let l = s1 + seq![sep] + t1;
    if s1.len() < s2.len() {
        assert(l[s1.len() as int] == sep);
        assert(l[s1.len() as int] == s2[s1.len() as int]);
        assert(false);
    }
    if s2.len() < s1.len() {
        assert(l[s2.len() as int] == s1[s2.len() as int]);
        assert(l[s2.len() as int] == sep);
        assert(false);
    }
    assert forall|i: int| 0 <= i < s1.len() implies s1[i] == s2[i] by {
        assert(l[i] == s1[i]);
        assert(l[i] == s2[i]);
    }
    assert(s1 =~= s2);
    assert(l.len() == s2.len() + 1 + t2.len());
    assert(t1.len() == t2.len());
    assert forall|i: int| 0 <= i < t1.len() implies t1[i] == t2[i] by {
        assert(l[s1.len() + 1 + i] == t1[i]);
        assert(l[s1.len() + 1 + i] == t2[i]);
    }
    assert(t1 =~= t2);
}

/// Concatenation of texts is associative.
proof fn lemma_seq_assoc(a: Seq<char>, b: Seq<char>, c: Seq<char>)
    ensures
        (a + b) + c == a + (b + c),
{
    assert((a + b) + c =~= a + (b + c));
}

/// Peels one hexadecimal group off the front of two equal colon-joined
/// texts.
proof fn lemma_peel_group(m: nat, r1: Seq<char>, k: nat, r2: Seq<char>)
    requires
        spec_hex(m) + (seq![':'] + r1) == spec_hex(k) + (seq![':'] + r2),
    ensures
        m == k,
        r1 == r2,
{
    lemma_hex_shape(m);
    lemma_hex_shape(k);
    assert(spec_hex(m) + seq![':'] + r1 =~= spec_hex(m) + (seq![':'] + r1));
    assert(spec_hex(k) + seq![':'] + r2 =~= spec_hex(k) + (seq![':'] + r2));
    assert forall|i: int| 0 <= i < spec_hex(m).len() implies spec_hex(m)[i] != ':' by {
        lemma_hex_digit_plain(spec_hex(m)[i]);
    }
    assert forall|i: int| 0 <= i < spec_hex(k).len() implies spec_hex(k)[i] != ':' by {
        lemma_hex_digit_plain(spec_hex(k)[i]);
    }
    lemma_split_at_sep(spec_hex(m), r1, spec_hex(k), r2, ':');
    lemma_hex_injective(m, k);
}

/// No character of canonical IPv6 text is a dot.
proof fn lemma_ipv6_format_no_dot(
    g0: u16,
    g1: u16,
    g2: u16,
    g3: u16,
    g4: u16,
    g5: u16,
    g6: u16,
    g7: u16,
)
    ensures
        forall|j: int|
            0 <= j < spec_format_ipv6(g0, g1, g2, g3, g4, g5, g6, g7).len() ==> spec_format_ipv6(
                g0,
                g1,
                g2,
                g3,
                g4,
                g5,
                g6,
                g7,
            )[j] != '.',
{
    lemma_hex_shape(g0 as nat);
    lemma_hex_shape(g1 as nat);
    lemma_hex_shape(g2 as nat);
    lemma_hex_shape(g3 as nat);
    lemma_hex_shape(g4 as nat);
    lemma_hex_shape(g5 as nat);
    lemma_hex_shape(g6 as nat);
    lemma_hex_shape(g7 as nat);
    let f = spec_format_ipv6(g0, g1, g2, g3, g4, g5, g6, g7);
    assert forall|j: int| 0 <= j < f.len() implies f[j] != '.' by {
        if f[j] == '.' {
            assert(f[j] != ':');
            // The character then lies inside one of the eight hexadecimal
            // groups, whose characters are hexadecimal digits.
            assert(is_hex_digit(f[j]));
            lemma_hex_digit_plain(f[j]);
        }
    }
}

/// Peels the colon-joined tail of canonical IPv6 text apart, group by group.
#[verifier::rlimit(100)]
proof fn lemma_ipv6_format_injective(
    g0: u16, g1: u16, g2: u16, g3: u16, g4: u16, g5: u16, g6: u16, g7: u16,
    k0: u16, k1: u16, k2: u16, k3: u16, k4: u16, k5: u16, k6: u16, k7: u16,
)
    requires
        spec_format_ipv6(g0, g1, g2, g3, g4, g5, g6, g7) == spec_format_ipv6(
            k0, k1, k2, k3, k4, k5, k6, k7,
        ),
    ensures
        g0 == k0 && g1 == k1 && g2 == k2 && g3 == k3 && g4 == k4 && g5 == k5 && g6 == k6 && g7
            == k7,
{
    let c = seq![':'];
    let h0 = spec_hex(g0 as nat);
    let h1 = spec_hex(g1 as nat);
    let h2 = spec_hex(g2 as nat);
    let h3 = spec_hex(g3 as nat);
    let h4 = spec_hex(g4 as nat);
    let h5 = spec_hex(g5 as nat);
    let h6 = spec_hex(g6 as nat);
    let h7 = spec_hex(g7 as nat);
    let x7 = h7;
    let x6 = h6 + (c + x7);
    let x5 = h5 + (c + x6);
    let x4 = h4 + (c + x5);
    let x3 = h3 + (c + x4);
    let x2 = h2 + (c + x3);
    let x1 = h1 + (c + x2);
    let x0 = h0 + (c + x1);
    // Reassociate the flat text of the definition into the nested form,
    // one group at a time.
    lemma_seq_assoc(h0, c, x1);
    lemma_seq_assoc(h0 + c, h1, c + x2);
    lemma_seq_assoc(h0 + c + h1, c, x2);
    lemma_seq_assoc(h0 + c + h1 + c, h2, c + x3);
    lemma_seq_assoc(h0 + c + h1 + c + h2, c, x3);
    lemma_seq_assoc(h0 + c + h1 + c + h2 + c, h3, c + x4);
    lemma_seq_assoc(h0 + c + h1 + c + h2 + c + h3, c, x4);
    lemma_seq_assoc(h0 + c + h1 + c + h2 + c + h3 + c, h4, c + x5);
    lemma_seq_assoc(h0 + c + h1 + c + h2 + c + h3 + c + h4, c, x5);
    lemma_seq_assoc(h0 + c + h1 + c + h2 + c + h3 + c + h4 + c, h5, c + x6);
    lemma_seq_assoc(h0 + c + h1 + c + h2 + c + h3 + c + h4 + c + h5, c, x6);
    lemma_seq_assoc(h0 + c + h1 + c + h2 + c + h3 + c + h4 + c + h5 + c, h6, c + x7);
    lemma_seq_assoc(h0 + c + h1 + c + h2 + c + h3 + c + h4 + c + h5 + c + h6, c, x7);
    assert(x0 == spec_format_ipv6(g0, g1, g2, g3, g4, g5, g6, g7));
    let e0 = spec_hex(k0 as nat);
    let e1 = spec_hex(k1 as nat);
    let e2 = spec_hex(k2 as nat);
    let e3 = spec_hex(k3 as nat);
    let e4 = spec_hex(k4 as nat);
    let e5 = spec_hex(k5 as nat);
    let e6 = spec_hex(k6 as nat);
    let e7 = spec_hex(k7 as nat);
    let y7 = e7;
    let y6 = e6 + (c + y7);
    let y5 = e5 + (c + y6);
    let y4 = e4 + (c + y5);
    let y3 = e3 + (c + y4);
    let y2 = e2 + (c + y3);
    let y1 = e1 + (c + y2);
    let y0 = e0 + (c + y1);
    lemma_seq_assoc(e0, c, y1);
    lemma_seq_assoc(e0 + c, e1, c + y2);
    lemma_seq_assoc(e0 + c + e1, c, y2);
    lemma_seq_assoc(e0 + c + e1 + c, e2, c + y3);
    lemma_seq_assoc(e0 + c + e1 + c + e2, c, y3);
    lemma_seq_assoc(e0 + c + e1 + c + e2 + c, e3, c + y4);
    lemma_seq_assoc(e0 + c + e1 + c + e2 + c + e3, c, y4);
    lemma_seq_assoc(e0 + c + e1 + c + e2 + c + e3 + c, e4, c + y5);
    lemma_seq_assoc(e0 + c + e1 + c + e2 + c + e3 + c + e4, c, y5);
    lemma_seq_assoc(e0 + c + e1 + c + e2 + c + e3 + c + e4 + c, e5, c + y6);
    lemma_seq_assoc(e0 + c + e1 + c + e2 + c + e3 + c + e4 + c + e5, c, y6);
    lemma_seq_assoc(e0 + c + e1 + c + e2 + c + e3 + c + e4 + c + e5 + c, e6, c + y7);
    lemma_seq_assoc(e0 + c + e1 + c + e2 + c + e3 + c + e4 + c + e5 + c + e6, c, y7);
    assert(y0 == spec_format_ipv6(k0, k1, k2, k3, k4, k5, k6, k7));
    lemma_peel_group(g0 as nat, x1, k0 as nat, y1);
    lemma_peel_group(g1 as nat, x2, k1 as nat, y2);
    lemma_peel_group(g2 as nat, x3, k2 as nat, y3);
    lemma_peel_group(g3 as nat, x4, k3 as nat, y4);
    lemma_peel_group(g4 as nat, x5, k4 as nat, y5);
    lemma_peel_group(g5 as nat, x6, k5 as nat, y6);
    lemma_peel_group(g6 as nat, x7, k6 as nat, y7);
    lemma_hex_injective(g7 as nat, k7 as nat);
}

/// Canonical text denotes exactly one address: two addresses with the same
/// text are the same address. Together with the parser's and the resolver's
/// contracts this says that an address literal resolves to the very address
/// it spells.
pub proof fn lemma_ip_format_injective(ip1: IpAddress, ip2: IpAddress)
    requires
        spec_format_ip(ip1) == spec_format_ip(ip2),
    ensures
        ip1 == ip2,
{
    match (ip1, ip2) {
        (IpAddress::V4 { .. }, IpAddress::V4 { .. }) => {
            lemma_ipv4_format_injective(ip1, ip2);
        },
        (
            IpAddress::V6 { g0, g1, g2, g3, g4, g5, g6, g7 },
            IpAddress::V6 { g0: k0, g1: k1, g2: k2, g3: k3, g4: k4, g5: k5, g6: k6, g7: k7 },
        ) => {
            lemma_ipv6_format_injective(
                g0, g1, g2, g3, g4, g5, g6, g7, k0, k1, k2, k3, k4, k5, k6, k7,
            );
        },
        (IpAddress::V4 { a, b, c, d }, IpAddress::V6 { g0, g1, g2, g3, g4, g5, g6, g7 }) => {
            lemma_ipv4_format_structure(a, b, c, d);
            lemma_ipv6_format_no_dot(g0, g1, g2, g3, g4, g5, g6, g7);
            assert(spec_format_ip(ip1)[dot_pos_1(a)] == '.');
            assert(false);
        },
        (IpAddress::V6 { g0, g1, g2, g3, g4, g5, g6, g7 }, IpAddress::V4 { a, b, c, d }) => {
            lemma_ipv4_format_structure(a, b, c, d);
            lemma_ipv6_format_no_dot(g0, g1, g2, g3, g4, g5, g6, g7);
            assert(spec_format_ip(ip2)[dot_pos_1(a)] == '.');
            assert(false);
        },
    }
}

/// Canonical IPv4 text denotes exactly one IPv4 address.
proof fn lemma_ipv4_format_injective(ip1: IpAddress, ip2: IpAddress)
    requires
        ip1 is V4,
        ip2 is V4,
        spec_format_ip(ip1) == spec_format_ip(ip2),
    ensures
        ip1 == ip2,
{
    let (a1, b1, c1, d1) = (ip1->V4_a, ip1->V4_b, ip1->V4_c, ip1->V4_d);
    let (a2, b2, c2, d2) = (ip2->V4_a, ip2->V4_b, ip2->V4_c, ip2->V4_d);
    let f = spec_format_ipv4(a1, b1, c1, d1);
    lemma_ipv4_format_structure(a1, b1, c1, d1);
    lemma_ipv4_format_structure(a2, b2, c2, d2);
    // The first dot of the common text stands at both first separator
    // positions, so those agree; then the further separators agree in turn.
    assert(dot_pos_1(a1) == dot_pos_1(a2));
    assert(f.subrange(0, dot_pos_1(a1)) == spec_dec(a2 as nat));
    lemma_dec_injective(a1 as nat, a2 as nat);
    assert(dot_pos_2(a1, b1) == dot_pos_2(a2, b2));
    assert(f.subrange(dot_pos_1(a1) + 1, dot_pos_2(a1, b1)) == spec_dec(b2 as nat));
    lemma_dec_injective(b1 as nat, b2 as nat);
    assert(dot_pos_3(a1, b1, c1) == dot_pos_3(a2, b2, c2));
    assert(f.subrange(dot_pos_2(a1, b1) + 1, dot_pos_3(a1, b1, c1)) == spec_dec(c2 as nat));
    lemma_dec_injective(c1 as nat, c2 as nat);
    assert(f.subrange(dot_pos_3(a1, b1, c1) + 1, f.len() as int) == spec_dec(d2 as nat));
    lemma_dec_injective(d1 as nat, d2 as nat);
}

/// Index of the first `'.'` in `s` at or after `from`, if any.
fn find_dot(s: &str, from: usize, n: usize) -> (r: Option<usize>)
    requires
        n == s@.len(),
        from <= n,
    ensures
        match r {
            Some(j) => from <= j < n && s@[j as int] == '.' && (forall|k: int|
                from <= k < j ==> s@[k] != '.'),
            None => forall|k: int| from <= k < n ==> s@[k] != '.',
        },
{
    let mut i = from;
    while i < n
        invariant
            n == s@.len(),
            from <= i <= n,
            forall|k: int| from <= k < i ==> s@[k] != '.',
        decreases n - i,
    {
        if s.get_char(i) == '.' {
            return Some(i);
        }
        i = i + 1;
    }
    None
}

/// Reads `s[from..to]` as a canonical decimal octet: one to three digits, no
/// leading zero, value at most 255. Returns the value exactly when the slice
/// is the canonical decimal text of some octet.
fn parse_octet(s: &str, from: usize, to: usize, n: usize) -> (r: Option<u8>)
    requires
        n == s@.len(),
        from <= to <= n,
    ensures
        match r {
            Some(v) => s@.subrange(from as int, to as int) == spec_dec(v as nat),
            None => forall|v: u8| s@.subrange(from as int, to as int) != spec_dec(v as nat),
        },
{
    let ghost part = s@.subrange(from as int, to as int);
    let len = to - from;
    if len == 0 || len > 3 {
        proof {
            assert forall|v: u8| part != spec_dec(v as nat) by {
                lemma_dec_shape(v as nat);
            }
        }
        return None;
    }
    let mut i = from;
    let mut val: u32 = 0;
    while i < to
        invariant
            n == s@.len(),
            from <= i <= to <= n,
            to - from <= 3,
            part == s@.subrange(from as int, to as int),
            all_digits(s@.subrange(from as int, i as int)),
            val == spec_dec_value(s@.subrange(from as int, i as int)),
            i - from == 0 ==> val == 0,
            i - from == 1 ==> val <= 9,
            i - from == 2 ==> val <= 99,
            i - from == 3 ==> val <= 999,
        decreases to - i,
    {
        let c = s.get_char(i);
        if !(c >= '0' && c <= '9') {
            proof {
                assert(part[i - from] == s@[i as int]);
                assert forall|v: u8| part != spec_dec(v as nat) by {
                    lemma_dec_shape(v as nat);
                    if part == spec_dec(v as nat) {
                        assert(is_digit(part[i - from]));
                    }
                }
            }
            return None;
        }
        proof {
            let prefix = s@.subrange(from as int, i as int);
            let ext = s@.subrange(from as int, i + 1 as int);
            assert(ext.drop_last() =~= prefix);
            assert(ext.last() == s@[i as int]);
            assert(is_digit(s@[i as int]));
            assert(digit_val(s@[i as int]) == c as u32 - 48);
        }
        val = val * 10 + (c as u32 - 48);
        i = i + 1;
    }
    // The whole slice is digits and `val` is its value.
    if len > 1 && s.get_char(from) == '0' {
        proof {
            assert(part[0] == s@[from as int]);
            assert forall|v: u8| part != spec_dec(v as nat) by {
                lemma_dec_shape(v as nat);
            }
        }
        return None;
    }
    if val > 255 {
        proof {
            assert forall|v: u8| part != spec_dec(v as nat) by {
                if part == spec_dec(v as nat) {
                    lemma_dec_value_of(v as nat);
                }
            }
        }
        return None;
    }
    proof {
        lemma_canonical_dec(part);
    }
    Some(val as u8)
}

/// In canonical IPv4 text, the first three dots found left to right are the
/// three separators.
proof fn lemma_dots_located(
    s: Seq<char>,
    a: u8,
    b: u8,
    c: u8,
    d: u8,
    i1: int,
    i2: int,
    i3: int,
)
    requires
        s == spec_format_ipv4(a, b, c, d),
        0 <= i1 < s.len(),
        s[i1] == '.',
        forall|k: int| 0 <= k < i1 ==> s[k] != '.',
        i1 < i2 < s.len(),
        s[i2] == '.',
        forall|k: int| i1 < k < i2 ==> s[k] != '.',
        i2 < i3 < s.len(),
        s[i3] == '.',
        forall|k: int| i2 < k < i3 ==> s[k] != '.',
    ensures
        i1 == dot_pos_1(a),
        i2 == dot_pos_2(a, b),
        i3 == dot_pos_3(a, b, c),
{
    lemma_ipv4_format_structure(a, b, c, d);
    let f = spec_format_ipv4(a, b, c, d);
    assert(f[i1] == '.' && f[i2] == '.' && f[i3] == '.');
    assert(f[dot_pos_1(a)] == '.' && f[dot_pos_2(a, b)] == '.' && f[dot_pos_3(a, b, c)] == '.');
}

impl IpAddress {
    /// Reads canonical dotted decimal IPv4 text, and nothing else: the result
    /// is the address whose canonical text `s` is, exactly when `s` is such a
    /// text.
    pub fn parse_ipv4(s: &str) -> (r: Option<IpAddress>)
        ensures
            match r {
                Some(ip) => ip is V4 && s@ == spec_format_ip(ip),
                None => forall|ip: IpAddress| ip is V4 ==> s@ != spec_format_ip(ip),
            },
    {
        let n = s.unicode_len();
        let i1 = match find_dot(s, 0, n) {
            Some(i) => i,
            None => {
                proof {
                    assert forall|ip: IpAddress| ip is V4 implies s@ != spec_format_ip(ip) by {
                        if s@ == spec_format_ip(ip) {
                            lemma_ipv4_format_structure(ip->V4_a, ip->V4_b, ip->V4_c, ip->V4_d);
                            assert(s@[dot_pos_1(ip->V4_a)] == '.');
                        }
                    }
                }
                return None;
            },
        };
        let i2 = match find_dot(s, i1 + 1, n) {
            Some(i) => i,
            None => {
                proof {
                    assert forall|ip: IpAddress| ip is V4 implies s@ != spec_format_ip(ip) by {
                        if s@ == spec_format_ip(ip) {
                            let (a, b, c) = (ip->V4_a, ip->V4_b, ip->V4_c);
                            lemma_ipv4_format_structure(a, b, c, ip->V4_d);
                            assert(s@[dot_pos_1(a)] == '.');
                            assert(i1 == dot_pos_1(a));
                            assert(s@[dot_pos_2(a, b)] == '.');
                        }
                    }
                }
                return None;
            },
        };
        let i3 = match find_dot(s, i2 + 1, n) {
            Some(i) => i,
            None => {
                proof {
                    assert forall|ip: IpAddress| ip is V4 implies s@ != spec_format_ip(ip) by {
                        if s@ == spec_format_ip(ip) {
                            let (a, b, c) = (ip->V4_a, ip->V4_b, ip->V4_c);
                            lemma_ipv4_format_structure(a, b, c, ip->V4_d);
                            assert(s@[dot_pos_1(a)] == '.');
                            assert(i1 == dot_pos_1(a));
                            assert(s@[dot_pos_2(a, b)] == '.');
                            assert(i2 == dot_pos_2(a, b));
                            assert(s@[dot_pos_3(a, b, c)] == '.');
                        }
                    }
                }
                return None;
            },
        };
        if let Some(extra) = find_dot(s, i3 + 1, n) {
            proof {
                assert forall|ip: IpAddress| ip is V4 implies s@ != spec_format_ip(ip) by {
                    if s@ == spec_format_ip(ip) {
                        let (a, b, c) = (ip->V4_a, ip->V4_b, ip->V4_c);
                        lemma_dots_located(s@, a, b, c, ip->V4_d, i1 as int, i2 as int, i3 as int);
                        lemma_ipv4_format_structure(a, b, c, ip->V4_d);
                        assert(s@[extra as int] == '.');
                    }
                }
            }
            return None;
        }
        let oa = parse_octet(s, 0, i1, n);
        let ob = parse_octet(s, i1 + 1, i2, n);
        let oc = parse_octet(s, i2 + 1, i3, n);
        let od = parse_octet(s, i3 + 1, n, n);
        proof {
            // Whenever `s` is canonical text, the four slices are the four
            // octets' decimal texts, so none of the reads below may fail.
            assert forall|ip: IpAddress|
                ip is V4 && s@ == spec_format_ip(ip) implies {
                    &&& s@.subrange(0, i1 as int) == spec_dec(ip->V4_a as nat)
                    &&& s@.subrange(i1 + 1 as int, i2 as int) == spec_dec(ip->V4_b as nat)
                    &&& s@.subrange(i2 + 1 as int, i3 as int) == spec_dec(ip->V4_c as nat)
                    &&& s@.subrange(i3 + 1 as int, n as int) == spec_dec(ip->V4_d as nat)
                } by {
                let (a, b, c, d) = (ip->V4_a, ip->V4_b, ip->V4_c, ip->V4_d);
                lemma_dots_located(s@, a, b, c, d, i1 as int, i2 as int, i3 as int);
                lemma_ipv4_format_structure(a, b, c, d);
            }
        }
        let a = match oa {
            Some(v) => v,
            None => {
                return None;
            },
        };
        let b = match ob {
            Some(v) => v,
            None => {
                return None;
            },
        };
        let c = match oc {
            Some(v) => v,
            None => {
                return None;
            },
        };
        let d = match od {
            Some(v) => v,
            None => {
                return None;
            },
        };
        let ip = IpAddress::V4 { a, b, c, d };
        proof {
            assert(s@ =~= spec_format_ipv4(a, b, c, d));
        }
        Some(ip)
    }

    /// The canonical text of this address.
    pub fn format(&self) -> (r: String)
        ensures
            r@ == spec_format_ip(*self),
    {
        proof {
            reveal_strlit(".");
            reveal_strlit(":");
        }
        match self {
            IpAddress::V4 { a, b, c, d } => {
                let mut s = u64_to_dec(*a as u64);
                s.append(".");
                s.append(u64_to_dec(*b as u64).as_str());
                s.append(".");
                s.append(u64_to_dec(*c as u64).as_str());
                s.append(".");
                s.append(u64_to_dec(*d as u64).as_str());
                proof {
                    assert(s@ =~= spec_format_ip(*self));
                }
                s
            },
            IpAddress::V6 { g0, g1, g2, g3, g4, g5, g6, g7 } => {
                let mut s = u64_to_hex(*g0 as u64);
                s.append(":");
                s.append(u64_to_hex(*g1 as u64).as_str());
                s.append(":");
                s.append(u64_to_hex(*g2 as u64).as_str());
                s.append(":");
                s.append(u64_to_hex(*g3 as u64).as_str());
                s.append(":");
                s.append(u64_to_hex(*g4 as u64).as_str());
                s.append(":");
                s.append(u64_to_hex(*g5 as u64).as_str());
                s.append(":");
                s.append(u64_to_hex(*g6 as u64).as_str());
                s.append(":");
                s.append(u64_to_hex(*g7 as u64).as_str());
                proof {
                    assert(s@ =~= spec_format_ip(*self));
                }
                s
            },
        }
    }
}

} // verus!
