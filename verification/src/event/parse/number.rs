//! The parameters inside a control sequence: fields between separators, and numbers.
use vstd::prelude::*;
use vstd::slice::slice_subrange;

verus! {

/// `;`, between parameters.
pub const SEMICOLON: u8 = 0x3b;

/// `:`, between the parts of a parameter.
pub const COLON: u8 = 0x3a;

/// `/`, between the components of a color.
pub const SLASH: u8 = 0x2f;

/// `+`, which a number may begin with.
pub const PLUS: u8 = 0x2b;

/// The position of the first separator, or the length where there is none.
pub open spec fn separator(s: Seq<u8>, sep: u8) -> nat
    decreases s.len(),
{
    if s.len() == 0 || s[0] == sep {
        0
    } else {
        1 + separator(s.skip(1), sep)
    }
}

/// The field with index `n` of a text that separators divide, where there are that many.
pub open spec fn field(s: Seq<u8>, sep: u8, n: nat) -> Option<Seq<u8>>
    decreases n,
{
    let end = separator(s, sep);
    if n == 0 {
        Some(s.take(end as int))
    } else if end < s.len() {
        field(s.skip((end + 1) as int), sep, (n - 1) as nat)
    } else {
        None
    }
}

/// Whether a byte is an ASCII digit.
pub open spec fn is_digit(byte: u8) -> bool {
    0x30 <= byte <= 0x39
}

/// The number that decimal digits spell, where every byte is a digit and the number is at most
/// `max`.
pub open spec fn digits(s: Seq<u8>, max: nat) -> Option<nat>
    decreases s.len(),
{
    if s.len() == 0 {
        Some(0)
    } else {
        match digits(s.drop_last(), max) {
            Some(high) => if is_digit(s.last()) && high * 10 + (s.last() - 0x30) <= max {
                Some((high * 10 + (s.last() - 0x30)) as nat)
            } else {
                None
            },
            None => None,
        }
    }
}

/// The number that a text spells: decimal digits, which a plus sign may precede.
pub open spec fn number(s: Seq<u8>, max: nat) -> Option<nat> {
    let unsigned = if s.len() > 0 && s[0] == PLUS {
        s.skip(1)
    } else {
        s
    };
    if unsigned.len() == 0 {
        None
    } else {
        digits(unsigned, max)
    }
}

/// The number in the field with index `n`.
pub open spec fn number_field(s: Seq<u8>, sep: u8, n: nat, max: nat) -> Option<nat> {
    match field(s, sep, n) {
        Some(text) => number(text, max),
        None => None,
    }
}

pub(crate) proof fn lemma_separator_bound(s: Seq<u8>, sep: u8)
    ensures
        separator(s, sep) <= s.len(),
    decreases s.len(),
{
    if s.len() != 0 && s[0] != sep {
        lemma_separator_bound(s.skip(1), sep);
    }
}

/// Bytes before the first separator do not count for where it is.
pub(crate) proof fn lemma_separator_skip(s: Seq<u8>, sep: u8, i: nat)
    requires
        i <= s.len(),
        forall|j: int| 0 <= j < i ==> s[j] != sep,
    ensures
        separator(s, sep) == i + separator(s.skip(i as int), sep),
    decreases i,
{
    if i == 0 {
        assert(s.skip(0) =~= s);
    } else {
        lemma_separator_skip(s.skip(1), sep, (i - 1) as nat);
        assert(s.skip(1).skip(i - 1) =~= s.skip(i as int));
    }
}

/// Returns the position of the first separator, or the length where there is none.
pub fn find_separator(s: &[u8], sep: u8) -> (r: usize)
    ensures
        r == separator(s@, sep),
        r <= s@.len(),
{
    let mut i: usize = 0;
    while i < s.len()
        invariant
            i <= s@.len(),
            forall|j: int| 0 <= j < i ==> s@[j] != sep,
        decreases s@.len() - i,
    {
        if s[i] == sep {
            proof {
                lemma_separator_skip(s@, sep, i as nat);
            }
            return i;
        }
        i = i + 1;
    }
    proof {
        lemma_separator_skip(s@, sep, i as nat);
    }
    i
}

/// Returns the field with index `n`.
pub fn nth_field(s: &[u8], sep: u8, n: usize) -> (r: Option<&[u8]>)
    ensures
        r is Some <==> field(s@, sep, n as nat) is Some,
        r matches Some(text) ==> text@ == field(s@, sep, n as nat)->0,
    decreases n,
{
    let end: usize = find_separator(s, sep);
    if n == 0 {
        assert(s@.take(end as int) == s@.subrange(0, end as int));
        Some(slice_subrange(s, 0, end))
    } else if end < s.len() {
        assert(s@.skip(end + 1) == s@.subrange(end + 1, s@.len() as int));
        nth_field(slice_subrange(s, end + 1, s.len()), sep, n - 1)
    } else {
        None
    }
}

proof fn lemma_digits_none(s: Seq<u8>, i: int, max: nat)
    requires
        0 <= i <= s.len(),
        digits(s.take(i), max) is None,
    ensures
        digits(s, max) is None,
    decreases s.len() - i,
{
    if i == s.len() {
        assert(s.take(i) =~= s);
    } else {
        assert(s.take(i + 1).drop_last() =~= s.take(i));
        lemma_digits_none(s, i + 1, max);
    }
}

/// Reads decimal digits.
fn read_digits(s: &[u8], max: u32) -> (r: Option<u32>)
    ensures
        r is Some <==> digits(s@, max as nat) is Some,
        r matches Some(value) ==> value == digits(s@, max as nat)->0,
{
    let mut value: u64 = 0;
    let mut i: usize = 0;
    assert(s@.take(0) =~= Seq::<u8>::empty());
    while i < s.len()
        invariant
            i <= s@.len(),
            value <= max,
            digits(s@.take(i as int), max as nat) == Some(value as nat),
        decreases s@.len() - i,
    {
        assert(s@.take(i + 1).drop_last() =~= s@.take(i as int));
        assert(s@.take(i + 1).last() == s@[i as int]);
        let byte: u8 = s[i];
        if byte < 0x30 || byte > 0x39 || value * 10 + ((byte - 0x30) as u64) > max as u64 {
            proof {
                lemma_digits_none(s@, i + 1, max as nat);
            }
            return None;
        }
        value = value * 10 + ((byte - 0x30) as u64);
        i = i + 1;
    }
    assert(s@.take(i as int) =~= s@);
    Some(value as u32)
}

/// Reads a number of at most `max`.
pub fn read_number(s: &[u8], max: u32) -> (r: Option<u32>)
    ensures
        r is Some <==> number(s@, max as nat) is Some,
        r matches Some(value) ==> value == number(s@, max as nat)->0 && value <= max,
{
    proof {
        lemma_number_bound(s@, max as nat);
    }
    if s.len() > 0 && s[0] == PLUS {
        assert(s@.skip(1) == s@.subrange(1, s@.len() as int));
        if s.len() == 1 {
            None
        } else {
            read_digits(slice_subrange(s, 1, s.len()), max)
        }
    } else if s.len() == 0 {
        None
    } else {
        read_digits(s, max)
    }
}

pub(crate) proof fn lemma_number_bound(s: Seq<u8>, max: nat)
    ensures
        number(s, max) matches Some(value) ==> value <= max,
{
}

/// Reads the number in the field with index `n`.
pub fn read_number_field(s: &[u8], sep: u8, n: usize, max: u32) -> (r: Option<u32>)
    ensures
        r is Some <==> number_field(s@, sep, n as nat, max as nat) is Some,
        r matches Some(value) ==> value == number_field(s@, sep, n as nat, max as nat)->0 && value
            <= max,
{
    match nth_field(s, sep, n) {
        Some(text) => read_number(text, max),
        None => None,
    }
}

} // verus!
