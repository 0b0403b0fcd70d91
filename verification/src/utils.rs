use vstd::prelude::*;

use crate::argb::Argb;

verus! {

/// The lowercase hexadecimal digit for a value below 16.
pub open spec fn hex_digit(d: int) -> char {
    if d < 10 {
        ('0' as int + d) as char
    } else {
        ('a' as int + d - 10) as char
    }
}

/// The lowercase hexadecimal numeral of `v`, without leading zeros.
pub open spec fn hex_numeral(v: nat) -> Seq<char>
    decreases v,
{
    if v < 16 {
        seq![hex_digit(v as int)]
    } else {
        hex_numeral(v / 16).push(hex_digit((v % 16) as int))
    }
}

/// Maps an angle in whole degrees into `0..360`, except that negative
/// multiples of 360 map to 360.
pub fn sanitize_degrees_int(degrees: i32) -> (r: i32)
    ensures
        r == if degrees < 0 && degrees % 360 == 0 {
            360
        } else {
            degrees % 360
        },
        0 <= r <= 360,
        (r - degrees) % 360 == 0,
{
    if degrees < 0 {
        (degrees % 360) + 360
    } else if degrees >= 360 {
        degrees % 360
    } else {
        degrees
    }
}

/// The one-character string of a hexadecimal digit.
fn hex_digit_str(d: u32) -> (r: &'static str)
    requires
        d < 16,
    ensures
        r@ == seq![hex_digit(d as int)],
{
    proof {
        reveal_strlit("0");
        reveal_strlit("1");
        reveal_strlit("2");
        reveal_strlit("3");
        reveal_strlit("4");
        reveal_strlit("5");
        reveal_strlit("6");
        reveal_strlit("7");
        reveal_strlit("8");
        reveal_strlit("9");
        reveal_strlit("a");
        reveal_strlit("b");
        reveal_strlit("c");
        reveal_strlit("d");
        reveal_strlit("e");
        reveal_strlit("f");
    }
    match d {
        0 => "0",
        1 => "1",
        2 => "2",
        3 => "3",
        4 => "4",
        5 => "5",
        6 => "6",
        7 => "7",
        8 => "8",
        9 => "9",
        10 => "a",
        11 => "b",
        12 => "c",
        13 => "d",
        14 => "e",
        _ => "f",
    }
}

/// Appends the hexadecimal numeral of `v` to `out`.
fn append_hex(v: u32, out: &mut String)
    ensures
        final(out)@ == old(out)@ + hex_numeral(v as nat),
    decreases v,
{
    if v >= 16 {
        append_hex(v / 16, out);
    }
    out.append(hex_digit_str(v % 16));
    proof {
        if v >= 16 {
            assert(hex_numeral(v as nat) == hex_numeral((v / 16) as nat).push(
                hex_digit((v % 16) as int),
            ));
        }
    }
}

/// Whether `c` is a lowercase hexadecimal digit, `0`-`9` or `a`-`f`.
pub open spec fn is_hex_char(c: char) -> bool {
    ('0' <= c && c <= '9') || ('a' <= c && c <= 'f')
}

/// The value of a lowercase hexadecimal digit.
pub open spec fn hex_char_value(c: char) -> int {
    if c <= '9' {
        c as int - '0' as int
    } else {
        c as int - 'a' as int + 10
    }
}

/// The number that a hexadecimal numeral spells, most significant digit
/// first.
pub open spec fn hex_value(s: Seq<char>) -> int
    decreases s.len(),
{
    if s.len() == 0 {
        0
    } else {
        hex_value(s.drop_last()) * 16 + hex_char_value(s.last())
    }
}

/// `16` to the power `n`.
pub open spec fn pow16(n: nat) -> nat
    decreases n,
{
    if n == 0 {
        1
    } else {
        16 * pow16((n - 1) as nat)
    }
}

proof fn lemma_hex_digit(d: int)
    requires
        0 <= d < 16,
    ensures
        is_hex_char(hex_digit(d)),
        hex_char_value(hex_digit(d)) == d,
        (hex_digit(d) == '0') == (d == 0),
{
}

/// The hexadecimal numeral of `v` is made of the digits `0`-`9` and `a`-`f`
/// only, reads back as `v`, starts with `0` only when it is `"0"`, and has
/// `n` digits when `16^(n-1) <= v < 16^n` (so eight for every value from
/// `0x10000000` up, which includes every opaque color).
pub proof fn lemma_hex_numeral(v: nat)
    ensures
        hex_numeral(v).len() >= 1,
        forall|i: int| 0 <= i < hex_numeral(v).len() ==> is_hex_char(#[trigger] hex_numeral(v)[i]),
        hex_value(hex_numeral(v)) == v,
        (hex_numeral(v)[0] == '0') == (v == 0),
        v == 0 ==> hex_numeral(v) == seq!['0'],
        forall|n: nat|
            n >= 1 && (n == 1 || pow16((n - 1) as nat) <= v) && v < #[trigger] pow16(n)
                ==> hex_numeral(v).len() == n,
    decreases v,
{
    if v < 16 {
        lemma_hex_digit(v as int);
        let s = hex_numeral(v);
        assert(s.drop_last() =~= Seq::<char>::empty());
        assert(hex_value(s.drop_last()) == 0);
        assert(hex_value(s) == v);
        assert forall|n: nat|
            n >= 1 && (n == 1 || pow16((n - 1) as nat) <= v) && v < #[trigger] pow16(n) implies s.len()
            == n by {
            if n > 1 {
                assert(pow16((n - 1) as nat) == 16 * pow16((n - 2) as nat));
                lemma_pow16_positive((n - 2) as nat);
            }
        }
    } else {
        let q = v / 16;
        let d = (v % 16) as int;
        lemma_hex_numeral(q);
        lemma_hex_digit(d);
        let p = hex_numeral(q);
        let s = hex_numeral(v);
        assert(s == p.push(hex_digit(d)));
        assert(s.drop_last() =~= p);
        assert(s.last() == hex_digit(d));
        assert(hex_value(s) == hex_value(p) * 16 + d);
        assert(v == q * 16 + d);
        assert(s[0] == p[0]);
        assert forall|i: int| 0 <= i < s.len() implies is_hex_char(#[trigger] s[i]) by {
            if i < p.len() {
                assert(s[i] == p[i]);
            }
        }
        assert forall|n: nat|
            n >= 1 && (n == 1 || pow16((n - 1) as nat) <= v) && v < #[trigger] pow16(n) implies s.len()
            == n by {
            if n == 1 {
                assert(pow16(1) == 16 * pow16(0));
            } else {
                let m = (n - 1) as nat;
                assert(pow16(n) == 16 * pow16(m));
                assert(pow16(m) == 16 * pow16((m - 1) as nat));
                assert(q < pow16(m));
                assert(m == 1 || pow16((m - 1) as nat) <= q);
                assert(p.len() == m);
            }
        }
    }
}

proof fn lemma_pow16_positive(n: nat)
    ensures
        pow16(n) >= 1,
    decreases n,
{
    if n > 0 {
        lemma_pow16_positive((n - 1) as nat);
    }
}

/// The packed value of `argb` as lowercase hexadecimal, without leading
/// zeros (so an opaque color gives eight digits).
pub fn hex_from_argb(argb: Argb) -> (r: String)
    ensures
        r@ == hex_numeral(argb@ as nat),
        forall|i: int| 0 <= i < r@.len() ==> is_hex_char(#[trigger] r@[i]),
        hex_value(r@) == argb@,
        r@.len() >= 1,
        (r@[0] == '0') == (argb@ == 0),
        argb@ >= 0x1000_0000 ==> r@.len() == 8,
{
    let mut out = String::new();
    append_hex(argb.to_u32(), &mut out);
    proof {
        lemma_hex_numeral(argb@ as nat);
        if argb@ >= 0x1000_0000 {
            reveal_with_fuel(pow16, 9);
            assert(pow16(7) == 0x1000_0000);
            assert(pow16(8) == 0x1_0000_0000);
            assert(hex_numeral(argb@ as nat).len() == 8);
        }
    }
    out
}

} // verus!
