use vstd::prelude::*;
use vstd::string::*;

verus! {

/// Why a text is not the name of an `aut-num`.
#[derive(Clone, Copy, Debug, PartialEq, Eq, Structural)]
pub enum AsNameError {
    /// The text is not `AS` followed by decimal digits.
    Malformed,
    /// The number does not fit in 32 bits.
    OutOfRange,
}

/// The largest AS number.
pub const MAX_AS_NUM: u64 = 0xFFFF_FFFF;

pub open spec fn is_digit(c: char) -> bool {
    '0' <= c <= '9'
}

/// The number that the decimal digits `s` write.
pub open spec fn digits_value(s: Seq<char>) -> int
    decreases s.len(),
{
    if s.len() == 0 {
        0
    } else {
        digits_value(s.drop_last()) * 10 + (s.last() as int - '0' as int)
    }
}

/// `s` is `AS`, in either case, followed by at least one decimal digit.
pub open spec fn is_as_name_form(s: Seq<char>) -> bool {
    &&& s.len() >= 3
    &&& (s[0] == 'A' || s[0] == 'a')
    &&& (s[1] == 'S' || s[1] == 's')
    &&& forall|i: int| 2 <= i < s.len() ==> is_digit(#[trigger] s[i])
}

/// The AS number that the name `s` writes.
pub open spec fn as_name_value(s: Seq<char>) -> int {
    digits_value(s.subrange(2, s.len() as int))
}

proof fn lemma_digits_nonneg(s: Seq<char>)
    requires
        forall|i: int| 0 <= i < s.len() ==> is_digit(#[trigger] s[i]),
    ensures
        digits_value(s) >= 0,
    decreases s.len(),
{
    if s.len() > 0 {
        lemma_digits_nonneg(s.drop_last());
    }
}

proof fn lemma_digits_grow(s: Seq<char>, j: int)
    requires
        0 <= j <= s.len(),
        forall|i: int| 0 <= i < s.len() ==> is_digit(#[trigger] s[i]),
    ensures
        digits_value(s.subrange(0, j)) <= digits_value(s),
    decreases s.len() - j,
{
    if j < s.len() {
        lemma_digits_grow(s.drop_last(), j);
        lemma_digits_nonneg(s.drop_last());
        assert(s.drop_last().subrange(0, j) =~= s.subrange(0, j));
    } else {
        assert(s.subrange(0, j) =~= s);
    }
}

/// The number of the `aut-num` named `name`, as in `AS2340`.
pub fn parse_aut_num_name(name: &str) -> (r: Result<u64, AsNameError>)
    ensures
        !is_as_name_form(name@) ==> r == Err::<u64, AsNameError>(AsNameError::Malformed),
        is_as_name_form(name@) && as_name_value(name@) > MAX_AS_NUM ==> r == Err::<u64, AsNameError>(
            AsNameError::OutOfRange,
        ),
        is_as_name_form(name@) && as_name_value(name@) <= MAX_AS_NUM ==> r == Ok::<u64, AsNameError>(
            as_name_value(name@) as u64,
        ),
{
    let len = name.unicode_len();
    if len < 3 {
        return Err(AsNameError::Malformed);
    }
    let (a, s) = (name.get_char(0), name.get_char(1));
    if !((a == 'A' || a == 'a') && (s == 'S' || s == 's')) {
        return Err(AsNameError::Malformed);
    }
    let mut i: usize = 2;
    while i < len
        invariant
            len == name@.len(),
            2 <= i <= len,
            name@[0] == 'A' || name@[0] == 'a',
            name@[1] == 'S' || name@[1] == 's',
            forall|k: int| 2 <= k < i ==> is_digit(#[trigger] name@[k]),
        decreases len - i,
    {
        let c = name.get_char(i);
        if !('0' <= c && c <= '9') {
            return Err(AsNameError::Malformed);
        }
        i = i + 1;
    }
    assert(is_as_name_form(name@));
    let ghost digits = name@.subrange(2, len as int);
    let mut value: u64 = 0;
    let mut i: usize = 2;
    while i < len
        invariant
            len == name@.len(),
            2 <= i <= len,
            digits == name@.subrange(2, len as int),
            is_as_name_form(name@),
            forall|k: int| 2 <= k < len ==> is_digit(#[trigger] name@[k]),
            value as int == digits_value(name@.subrange(2, i as int)),
            value <= MAX_AS_NUM,
        decreases len - i,
    {
        let c = name.get_char(i);
        let d = (c as u32 - '0' as u32) as u64;
        let ghost before = name@.subrange(2, i as int);
        proof {
            let after = name@.subrange(2, i + 1);
            assert(after.drop_last() =~= before);
            assert(after.last() == c);
        }
        value = value * 10 + d;
        i = i + 1;
        if value > MAX_AS_NUM {
            proof {
                assert(forall|k: int| 0 <= k < digits.len() ==> is_digit(#[trigger] digits[k])) by {
                    assert forall|k: int| 0 <= k < digits.len() implies is_digit(#[trigger] digits[k]) by {
                        assert(digits[k] == name@[k + 2]);
                    }
                }
                lemma_digits_grow(digits, i - 2);
                assert(digits.subrange(0, i - 2) =~= name@.subrange(2, i as int));
            }
            return Err(AsNameError::OutOfRange);
        }
    }
    assert(name@.subrange(2, i as int) =~= digits);
    Ok(value)
}

} // verus!
