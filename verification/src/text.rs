//! Decimal and hexadecimal text for unsigned integers, written and proved
//! against spec-level character sequences. These are the building blocks of
//! the address and report formatting.

use vstd::prelude::*;

verus! {

/// Whether `c` is a decimal digit.
pub open spec fn is_digit(c: char) -> bool {
    '0' <= c && c <= '9'
}

/// Numeric value of a decimal digit character.
pub open spec fn digit_val(c: char) -> int {
    c as int - '0' as int
}

/// The decimal digit character for a value below ten.
pub open spec fn digit_char(d: int) -> char {
    if d == 0 {
        '0'
    } else if d == 1 {
        '1'
    } else if d == 2 {
        '2'
    } else if d == 3 {
        '3'
    } else if d == 4 {
        '4'
    } else if d == 5 {
        '5'
    } else if d == 6 {
        '6'
    } else if d == 7 {
        '7'
    } else if d == 8 {
        '8'
    } else {
        '9'
    }
}

/// The canonical decimal text of `n`: minimal digits, no leading zero
/// (except for `n == 0` itself).
pub open spec fn spec_dec(n: nat) -> Seq<char>
    decreases n,
{
    if n < 10 {
        seq![digit_char(n as int)]
    } else {
        spec_dec(n / 10) + seq![digit_char((n % 10) as int)]
    }
}

/// The single-character string for a decimal digit value.
pub fn digit_str(d: u64) -> (r: &'static str)
    requires
        d < 10,
    ensures
        r@ == seq![digit_char(d as int)],
{
    proof {
        reveal_strlit("0");
        reveal_strlit("1");
        reveal_strlit("2");
        reveal_strlit("3");
        reveal_strlit("4");
        reveal_strlit("5");
        reveal_strlit("6");
        reveal_strlit("7");
        reveal_strlit("8");
        reveal_strlit("9");
    }
    if d == 0 {
        "0"
    } else if d == 1 {
        "1"
    } else if d == 2 {
        "2"
    } else if d == 3 {
        "3"
    } else if d == 4 {
        "4"
    } else if d == 5 {
        "5"
    } else if d == 6 {
        "6"
    } else if d == 7 {
        "7"
    } else if d == 8 {
        "8"
    } else {
        "9"
    }
}

/// The canonical decimal text of `n`.
pub fn u64_to_dec(n: u64) -> (r: String)
    ensures
        r@ == spec_dec(n as nat),
    decreases n,
{
    if n < 10 {
        digit_str(n).to_owned()
    } else {
        let mut s = u64_to_dec(n / 10);
        s.append(digit_str(n % 10));
        s
    }
}

/// The lowercase hexadecimal digit character for a value below sixteen.
pub open spec fn hex_digit_char(d: int) -> char {
    if d == 0 {
        '0'
    } else if d == 1 {
        '1'
    } else if d == 2 {
        '2'
    } else if d == 3 {
        '3'
    } else if d == 4 {
        '4'
    } else if d == 5 {
        '5'
    } else if d == 6 {
        '6'
    } else if d == 7 {
        '7'
    } else if d == 8 {
        '8'
    } else if d == 9 {
        '9'
    } else if d == 10 {
        'a'
    } else if d == 11 {
        'b'
    } else if d == 12 {
        'c'
    } else if d == 13 {
        'd'
    } else if d == 14 {
        'e'
    } else {
        'f'
    }
}

/// The canonical lowercase hexadecimal text of `n`: minimal digits, no
/// leading zero (except for `n == 0` itself).
pub open spec fn spec_hex(n: nat) -> Seq<char>
    decreases n,
{
    if n < 16 {
        seq![hex_digit_char(n as int)]
    } else {
        spec_hex(n / 16) + seq![hex_digit_char((n % 16) as int)]
    }
}

/// The single-character string for a hexadecimal digit value.
pub fn hex_digit_str(d: u64) -> (r: &'static str)
    requires
        d < 16,
    ensures
        r@ == seq![hex_digit_char(d as int)],
{
    proof {
        reveal_strlit("a");
        reveal_strlit("b");
        reveal_strlit("c");
        reveal_strlit("d");
        reveal_strlit("e");
        reveal_strlit("f");
    }
    if d < 10 {
        digit_str(d)
    } else if d == 10 {
        "a"
    } else if d == 11 {
        "b"
    } else if d == 12 {
        "c"
    } else if d == 13 {
        "d"
    } else if d == 14 {
        "e"
    } else {
        "f"
    }
}

/// The canonical lowercase hexadecimal text of `n`.
pub fn u64_to_hex(n: u64) -> (r: String)
    ensures
        r@ == spec_hex(n as nat),
    decreases n,
{
    if n < 16 {
        hex_digit_str(n).to_owned()
    } else {
        let mut s = u64_to_hex(n / 16);
        s.append(hex_digit_str(n % 16));
        s
    }
}

/// Whether `c` is a lowercase hexadecimal digit.
pub open spec fn is_hex_digit(c: char) -> bool {
    is_digit(c) || ('a' <= c && c <= 'f')
}

/// Numeric value of a lowercase hexadecimal digit character.
pub open spec fn hex_digit_val(c: char) -> int {
    if is_digit(c) {
        digit_val(c)
    } else {
        c as int - 87
    }
}

/// Whether every character of `s` is a lowercase hexadecimal digit.
pub open spec fn all_hex_digits(s: Seq<char>) -> bool {
    forall|i: int| 0 <= i < s.len() ==> is_hex_digit(#[trigger] s[i])
}

/// Numeric value of the hexadecimal digit string `s`, most significant digit
/// first.
pub open spec fn spec_hex_value(s: Seq<char>) -> int
    decreases s.len(),
{
    if s.len() == 0 {
        0
    } else {
        spec_hex_value(s.drop_last()) * 16 + hex_digit_val(s.last())
    }
}

/// A value below sixteen maps to a hexadecimal digit character and back.
pub proof fn lemma_hex_digit_char_val(d: int)
    requires
        0 <= d < 16,
    ensures
        is_hex_digit(hex_digit_char(d)),
        hex_digit_val(hex_digit_char(d)) == d,
{
}

/// Shape of canonical hexadecimal text: nonempty and all hexadecimal digits.
pub proof fn lemma_hex_shape(n: nat)
    ensures
        spec_hex(n).len() >= 1,
        all_hex_digits(spec_hex(n)),
    decreases n,
{
    if n < 16 {
        lemma_hex_digit_char_val(n as int);
    } else {
        lemma_hex_shape(n / 16);
        lemma_hex_digit_char_val((n % 16) as int);
        let p = spec_hex(n / 16);
        assert(spec_hex(n) == p + seq![hex_digit_char((n % 16) as int)]);
        assert(forall|i: int| 0 <= i < spec_hex(n).len() ==> is_hex_digit(#[trigger] spec_hex(n)[i]))
            by {
            assert(forall|i: int| 0 <= i < p.len() ==> is_hex_digit(#[trigger] p[i]));
        }
    }
}

/// The canonical hexadecimal text of `n` denotes `n`.
pub proof fn lemma_hex_value_of(n: nat)
    ensures
        spec_hex_value(spec_hex(n)) == n,
    decreases n,
{
    if n < 16 {
        lemma_hex_digit_char_val(n as int);
        let s = spec_hex(n);
        assert(s.drop_last() =~= Seq::<char>::empty());
        assert(spec_hex_value(Seq::<char>::empty()) == 0);
        assert(s.last() == hex_digit_char(n as int));
        assert(spec_hex_value(s) == hex_digit_val(hex_digit_char(n as int)));
    } else {
        lemma_hex_value_of(n / 16);
        lemma_hex_digit_char_val((n % 16) as int);
        let s = spec_hex(n);
        assert(s.drop_last() =~= spec_hex(n / 16));
        assert(s.last() == hex_digit_char((n % 16) as int));
        assert(spec_hex_value(s) == (n / 16) * 16 + n % 16);
    }
}

/// Two numbers with the same canonical hexadecimal text are equal.
pub proof fn lemma_hex_injective(m: nat, n: nat)
    requires
        spec_hex(m) == spec_hex(n),
    ensures
        m == n,
{
    lemma_hex_value_of(m);
    lemma_hex_value_of(n);
}

/// Numeric value of the digit string `s`, most significant digit first.
pub open spec fn spec_dec_value(s: Seq<char>) -> int
    decreases s.len(),
{
    if s.len() == 0 {
        0
    } else {
        spec_dec_value(s.drop_last()) * 10 + digit_val(s.last())
    }
}

/// Whether every character of `s` is a decimal digit.
pub open spec fn all_digits(s: Seq<char>) -> bool {
    forall|i: int| 0 <= i < s.len() ==> is_digit(#[trigger] s[i])
}

/// A digit value below ten maps to a digit character and back.
pub proof fn lemma_digit_char_val(d: int)
    requires
        0 <= d < 10,
    ensures
        is_digit(digit_char(d)),
        digit_val(digit_char(d)) == d,
{
}

/// A digit character maps to its value and back.
pub proof fn lemma_digit_char_of_val(c: char)
    requires
        is_digit(c),
    ensures
        digit_char(digit_val(c)) == c,
{
    let v = c as int;
    if v == 48 {
        assert(c == '0');
    } else if v == 49 {
        assert(c == '1');
    } else if v == 50 {
        assert(c == '2');
    } else if v == 51 {
        assert(c == '3');
    } else if v == 52 {
        assert(c == '4');
    } else if v == 53 {
        assert(c == '5');
    } else if v == 54 {
        assert(c == '6');
    } else if v == 55 {
        assert(c == '7');
    } else if v == 56 {
        assert(c == '8');
    } else {
        assert(c == '9');
    }
}

/// Shape of canonical decimal text: nonempty, all digits, no leading zero
/// for a positive number, and a length that mirrors the magnitude.
pub proof fn lemma_dec_shape(n: nat)
    ensures
        spec_dec(n).len() >= 1,
        all_digits(spec_dec(n)),
        n >= 1 ==> spec_dec(n)[0] != '0',
        n == 0 ==> spec_dec(n) == seq!['0'],
        (spec_dec(n).len() == 1) == (n < 10),
        (spec_dec(n).len() <= 2) == (n < 100),
        (spec_dec(n).len() <= 3) == (n < 1000),
    decreases n,
{
    if n < 10 {
        lemma_digit_char_val(n as int);
        if n >= 1 {
            assert(spec_dec(n)[0] != '0');
        }
    } else {
        lemma_dec_shape(n / 10);
        lemma_digit_char_val((n % 10) as int);
        let p = spec_dec(n / 10);
        assert(spec_dec(n) == p + seq![digit_char((n % 10) as int)]);
        assert(spec_dec(n)[0] == p[0]);
        assert(forall|i: int| 0 <= i < spec_dec(n).len() ==> is_digit(#[trigger] spec_dec(n)[i]))
            by {
            assert(forall|i: int| 0 <= i < p.len() ==> is_digit(#[trigger] p[i]));
        }
    }
}

/// The canonical decimal text of `n` denotes `n`.
pub proof fn lemma_dec_value_of(n: nat)
    ensures
        spec_dec_value(spec_dec(n)) == n,
    decreases n,
{
    if n < 10 {
        lemma_digit_char_val(n as int);
        let s = spec_dec(n);
        assert(s.drop_last() =~= Seq::<char>::empty());
        assert(spec_dec_value(Seq::<char>::empty()) == 0);
        assert(s.last() == digit_char(n as int));
        assert(spec_dec_value(s) == digit_val(digit_char(n as int)));
    } else {
        lemma_dec_value_of(n / 10);
        lemma_digit_char_val((n % 10) as int);
        let s = spec_dec(n);
        assert(s.drop_last() =~= spec_dec(n / 10));
        assert(s.last() == digit_char((n % 10) as int));
        assert(spec_dec_value(s) == (n / 10) * 10 + n % 10);
    }
}

/// Two numbers with the same canonical decimal text are equal.
pub proof fn lemma_dec_injective(m: nat, n: nat)
    requires
        spec_dec(m) == spec_dec(n),
    ensures
        m == n,
{
    lemma_dec_value_of(m);
    lemma_dec_value_of(n);
}

/// A digit string denotes a nonnegative number.
pub proof fn lemma_value_nonneg(s: Seq<char>)
    requires
        all_digits(s),
    ensures
        spec_dec_value(s) >= 0,
    decreases s.len(),
{
    if s.len() > 0 {
        lemma_value_nonneg(s.drop_last());
    }
}

/// A digit string that does not start with `'0'` denotes a positive number.
pub proof fn lemma_value_pos(s: Seq<char>)
    requires
        all_digits(s),
        s.len() >= 1,
        s[0] != '0',
    ensures
        spec_dec_value(s) >= 1,
    decreases s.len(),
{
    if s.len() == 1 {
        assert(s.drop_last() =~= Seq::<char>::empty());
        assert(spec_dec_value(Seq::<char>::empty()) == 0);
        assert(s.last() == s[0]);
        if s[0] as int == 48 {
            assert(s[0] == '0');
        }
    } else {
        lemma_value_pos(s.drop_last());
    }
}

/// A nonempty digit string without a leading zero is the canonical decimal
/// text of its own value.
pub proof fn lemma_canonical_dec(s: Seq<char>)
    requires
        all_digits(s),
        s.len() >= 1,
        s.len() > 1 ==> s[0] != '0',
    ensures
        spec_dec_value(s) >= 0,
        spec_dec(spec_dec_value(s) as nat) == s,
    decreases s.len(),
{
    lemma_value_nonneg(s);
    if s.len() == 1 {
        assert(s.drop_last() =~= Seq::<char>::empty());
        assert(spec_dec_value(Seq::<char>::empty()) == 0);
        assert(s.last() == s[0]);
        let d = digit_val(s[0]);
        assert(spec_dec_value(s) == d);
        lemma_digit_char_of_val(s[0]);
        assert(spec_dec(d as nat) =~= s);
    } else {
        let p = s.drop_last();
        lemma_value_nonneg(p);
        lemma_value_pos(p);
        lemma_canonical_dec(p);
        let vp = spec_dec_value(p);
        let d = digit_val(s.last());
        let v = spec_dec_value(s);
        assert(v == vp * 10 + d);
        assert(0 <= d < 10);
        assert(v >= 10);
        assert(v / 10 == vp && v % 10 == d) by (nonlinear_arith)
            requires
                v == vp * 10 + d,
                0 <= d < 10,
                vp >= 1,
        ;
        lemma_digit_char_of_val(s.last());
        assert(spec_dec(v as nat) == spec_dec(vp as nat) + seq![digit_char(d)]);
        assert(spec_dec(v as nat) =~= s);
    }
}

} // verus!
