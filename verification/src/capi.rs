use vstd::prelude::*;
use vstd::string::StringSliceAdditionalSpecFns;

verus! {

/// Whether every byte is an ASCII decimal digit.
pub open spec fn all_digits(s: Seq<u8>) -> bool {
    forall|i: int| 0 <= i < s.len() ==> 48 <= #[trigger] s[i] <= 57
}

/// The number that the decimal digits `s` spell (0 for no digits).
pub open spec fn decimal_value(s: Seq<u8>) -> int
    decreases s.len(),
{
    if s.len() == 0 {
        0
    } else {
        decimal_value(s.drop_last()) * 10 + (s.last() - 48)
    }
}

proof fn lemma_decimal_prefix(s: Seq<u8>, k: int)
    requires
        all_digits(s),
        0 <= k <= s.len(),
    ensures
        0 <= decimal_value(s.take(k)) <= decimal_value(s),
    decreases s.len(),
{
    if k < s.len() {
        assert(s.drop_last().take(k) =~= s.take(k));
        lemma_decimal_prefix(s.drop_last(), k);
        lemma_decimal_prefix(s.drop_last(), s.len() - 1);
        assert(s.drop_last().take(s.len() - 1) =~= s.drop_last());
    } else {
        assert(s.take(k) =~= s);
        if s.len() > 0 {
            lemma_decimal_prefix(s.drop_last(), s.len() - 1);
            assert(s.drop_last().take(s.len() - 1) =~= s.drop_last());
        }
    }
}

/// Parses a version component made of decimal digits, such as the `3` of
/// `1.3.0`.
pub fn parse_version_component(value: &str) -> (r: u32)
    requires
        all_digits(value.spec_bytes()),
        decimal_value(value.spec_bytes()) <= u32::MAX,
    ensures
        r == decimal_value(value.spec_bytes()),
{
    let bytes = value.as_bytes();
    let ghost s = bytes@;
    let mut index: usize = 0;
    let mut parsed: u32 = 0;
    while index < bytes.len()
        invariant
            s == bytes@,
            all_digits(s),
            decimal_value(s) <= u32::MAX,
            index <= s.len(),
            parsed == decimal_value(s.take(index as int)),
        decreases s.len() - index,
    {
        let byte = bytes[index];
        proof {
            assert(s.take(index + 1).drop_last() =~= s.take(index as int));
            assert(s.take(index + 1).last() == byte);
            lemma_decimal_prefix(s, index + 1);
        }
        parsed = parsed * 10 + (byte - 48) as u32;
        index = index + 1;
    }
    proof {
        assert(s.take(index as int) =~= s);
    }
    parsed
}

} // verus!
