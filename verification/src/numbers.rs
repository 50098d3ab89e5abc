//! Decimal number parsing: plain digit runs read in base ten, as the OCR
//! table's position columns and the embedding response's token counts hold
//! them. No sign, no spaces, no other radix.

use vstd::prelude::*;

verus! {

pub open spec fn is_digit(c: char) -> bool {
    48 <= (c as u32) <= 57
}

pub open spec fn digit_val(c: char) -> int {
    (c as u32) - 48
}

/// A non-empty, all-digit character sequence.
pub open spec fn is_dec(s: Seq<char>) -> bool {
    s.len() > 0 && forall|i: int| 0 <= i < s.len() ==> is_digit(#[trigger] s[i])
}

/// The value of a digit sequence read in base ten.
pub open spec fn dec_val(s: Seq<char>) -> int
    decreases s.len(),
{
    if s.len() == 0 {
        0
    } else {
        dec_val(s.drop_last()) * 10 + digit_val(s.last())
    }
}

/// The number a field holds, when it is all digits and fits a 32-bit word.
pub open spec fn parse_u32_spec(s: Seq<char>) -> Option<int> {
    if is_dec(s) && dec_val(s) <= u32::MAX as int {
        Option::Some(dec_val(s))
    } else {
        Option::None
    }
}

/// The number a field holds, when it is all digits and fits a 64-bit word.
pub open spec fn parse_u64_spec(s: Seq<char>) -> Option<int> {
    if is_dec(s) && dec_val(s) <= u64::MAX as int {
        Option::Some(dec_val(s))
    } else {
        Option::None
    }
}

proof fn lemma_dec_val_nonneg(s: Seq<char>)
    requires
        forall|i: int| 0 <= i < s.len() ==> is_digit(#[trigger] s[i]),
    ensures
        dec_val(s) >= 0,
    decreases s.len(),
{
    if s.len() > 0 {
        assert(forall|i: int|
            0 <= i < s.drop_last().len() ==> is_digit(#[trigger] s.drop_last()[i]));
        lemma_dec_val_nonneg(s.drop_last());
    }
}

proof fn lemma_dec_val_prefix_le(s: Seq<char>, i: int)
    requires
        0 <= i <= s.len(),
        forall|j: int| 0 <= j < s.len() ==> is_digit(#[trigger] s[j]),
    ensures
        dec_val(s.take(i)) <= dec_val(s),
    decreases s.len() - i,
{
    if i < s.len() {
        assert(forall|j: int| 0 <= j < s.take(i).len() ==> is_digit(#[trigger] s.take(i)[j]));
        lemma_dec_val_nonneg(s.take(i));
        assert(s.take(i + 1).drop_last() =~= s.take(i));
        assert(s.take(i + 1).last() == s[i]);
        assert(dec_val(s.take(i + 1)) == dec_val(s.take(i)) * 10 + digit_val(s[i]));
        lemma_dec_val_prefix_le(s, i + 1);
    } else {
        assert(s.take(i) =~= s);
    }
}

/// Parse a digit run as a 64-bit number.
pub fn parse_u64(s: &Vec<char>) -> (r: Option<u64>)
    ensures
        (match r {
            Option::Some(v) => parse_u64_spec(s@) == Option::Some(v as int),
            Option::None => parse_u64_spec(s@) is None,
        }),
{
    if s.len() == 0 {
        return None;
    }
    let mut val: u128 = 0;
    let mut i: usize = 0;
    proof {
        assert(s@.take(0) =~= Seq::<char>::empty());
    }
    while i < s.len()
        invariant
            0 < s@.len(),
            i <= s@.len(),
            forall|j: int| 0 <= j < i ==> is_digit(#[trigger] s@[j]),
            val as int == dec_val(s@.take(i as int)),
            val <= u64::MAX,
        decreases s@.len() - i,
    {
        let c = s[i];
        let cu = c as u32;
        if cu < 48 || cu > 57 {
            proof {
                assert(!is_digit(s@[i as int]));
                assert(!is_dec(s@));
            }
            return None;
        }
        let d: u128 = (cu - 48) as u128;
        let nv: u128 = val * 10 + d;
        proof {
            assert(s@.take(i + 1).drop_last() =~= s@.take(i as int));
            assert(s@.take(i + 1).last() == s@[i as int]);
            assert(nv as int == dec_val(s@.take(i + 1)));
        }
        if nv > u64::MAX as u128 {
            proof {
                if is_dec(s@) {
                    lemma_dec_val_prefix_le(s@, i + 1);
                }
            }
            return None;
        }
        val = nv;
        i = i + 1;
    }
    proof {
        assert(s@.take(s@.len() as int) =~= s@);
        assert(is_dec(s@));
    }
    Some(val as u64)
}

/// Parse a digit run as a 32-bit number.
pub fn parse_u32(s: &Vec<char>) -> (r: Option<u32>)
    ensures
        (match r {
            Option::Some(v) => parse_u32_spec(s@) == Option::Some(v as int),
            Option::None => parse_u32_spec(s@) is None,
        }),
{
    match parse_u64(s) {
        Some(v) => {
            if v <= u32::MAX as u64 {
                Some(v as u32)
            } else {
                None
            }
        },
        None => None,
    }
}

} // verus!
