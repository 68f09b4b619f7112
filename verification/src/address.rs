//! Syntax of hardware addresses: six groups of two hexadecimal digits joined
//! by colons, accepted in either case and stored in lower case.

use vstd::prelude::*;
use crate::text::chars_of;

verus! {

/// Number of characters of a well-formed address: twelve digits, five colons.
pub const ADDRESS_LEN: usize = 17;

/// `c` is one of `0-9`, `a-f`, `A-F`.
pub open spec fn is_hex_digit(c: char) -> bool {
    ('0' <= c && c <= '9') || ('a' <= c && c <= 'f') || ('A' <= c && c <= 'F')
}

/// `s` is six groups of two hexadecimal digits joined by colons
/// (`HH:HH:HH:HH:HH:HH`): every third character is a colon, every other one a
/// hexadecimal digit of either case.
pub open spec fn is_mac_format(s: Seq<char>) -> bool {
    &&& s.len() == ADDRESS_LEN
    &&& forall|i: int|
        0 <= i < s.len() ==> if i % 3 == 2 {
            s[i] == ':'
        } else {
            is_hex_digit(#[trigger] s[i])
        }
}

/// The lower-case form of an upper-case hexadecimal digit; any other character
/// is left alone.
pub open spec fn lower_hex(c: char) -> char {
    if c == 'A' {
        'a'
    } else if c == 'B' {
        'b'
    } else if c == 'C' {
        'c'
    } else if c == 'D' {
        'd'
    } else if c == 'E' {
        'e'
    } else if c == 'F' {
        'f'
    } else {
        c
    }
}

/// The stored form of an address: each hexadecimal digit in lower case.
pub open spec fn normalized(s: Seq<char>) -> Seq<char> {
    Seq::new(s.len(), |i: int| lower_hex(s[i]))
}

/// `s` is a well-formed address already in its stored form.
pub open spec fn is_canonical(s: Seq<char>) -> bool {
    is_mac_format(s) && normalized(s) == s
}

/// Decides whether `c` is a hexadecimal digit.
pub fn hex_digit(c: char) -> (r: bool)
    ensures
        r == is_hex_digit(c),
{
    ('0' <= c && c <= '9') || ('a' <= c && c <= 'f') || ('A' <= c && c <= 'F')
}

/// Maps an upper-case hexadecimal digit to lower case.
pub fn to_lower_hex(c: char) -> (r: char)
    ensures
        r == lower_hex(c),
{
    if c == 'A' {
        'a'
    } else if c == 'B' {
        'b'
    } else if c == 'C' {
        'c'
    } else if c == 'D' {
        'd'
    } else if c == 'E' {
        'e'
    } else if c == 'F' {
        'f'
    } else {
        c
    }
}

/// Decides whether the characters `v` form a well-formed address.
pub fn chars_are_address(v: &Vec<char>) -> (r: bool)
    ensures
        r == is_mac_format(v@),
{
    if v.len() != ADDRESS_LEN {
        return false;
    }
    let mut i: usize = 0;
    while i < ADDRESS_LEN
        invariant
            i <= ADDRESS_LEN,
            v.len() == ADDRESS_LEN,
            forall|j: int|
                0 <= j < i ==> if j % 3 == 2 {
                    v@[j] == ':'
                } else {
                    is_hex_digit(#[trigger] v@[j])
                },
        decreases ADDRESS_LEN - i,
    {
        let c = v[i];
        let fits = if i % 3 == 2 {
            c == ':'
        } else {
            hex_digit(c)
        };
        if !fits {
            return false;
        }
        i += 1;
    }
    true
}

/// Decides whether `mac` is a well-formed address. Nothing is normalized:
/// this is the syntactic check alone.
pub fn is_valid_address(mac: &str) -> (r: bool)
    ensures
        r == is_mac_format(mac@),
{
    let v = chars_of(mac);
    chars_are_address(&v)
}

/// The stored form of `mac`, or `None` when `mac` is not a well-formed
/// address.
pub fn normalize(mac: &str) -> (r: Option<String>)
    ensures
        r is Some <==> is_mac_format(mac@),
        r matches Some(n) ==> n@ == normalized(mac@) && is_canonical(n@),
{
    let v = chars_of(mac);
    if !chars_are_address(&v) {
        return None;
    }
    let mut n = String::new();
    let mut i: usize = 0;
    while i < v.len()
        invariant
            i <= v.len(),
            n@.len() == i,
            forall|j: int| 0 <= j < i ==> n@[j] == lower_hex(v@[j]),
        decreases v.len() - i,
    {
        n.push(to_lower_hex(v[i]));
        i += 1;
    }
    proof {
        assert(n@ =~= normalized(v@));
        lemma_normalized_is_canonical(v@);
    }
    Some(n)
}

/// Normalizing a well-formed address gives a well-formed address in stored
/// form: the syntax does not depend on the case of the digits, and
/// normalizing twice changes nothing.
pub proof fn lemma_normalized_is_canonical(s: Seq<char>)
    requires
        is_mac_format(s),
    ensures
        is_canonical(normalized(s)),
        normalized(normalized(s)) == normalized(s),
{
    let n = normalized(s);
    assert forall|i: int| 0 <= i < n.len() implies if i % 3 == 2 {
        n[i] == ':'
    } else {
        is_hex_digit(#[trigger] n[i])
    } by {
        assert(n[i] == lower_hex(s[i]));
        if i % 3 != 2 {
            assert(is_hex_digit(s[i]));
        }
    }
    assert(normalized(n) =~= n);
}

/// The case of the digits makes no difference: two texts that differ only in
/// the case of their hexadecimal digits have the same stored form, and one is
/// a well-formed address where the other is.
pub proof fn lemma_case_is_ignored(a: Seq<char>, b: Seq<char>)
    requires
        a.len() == b.len(),
        forall|i: int| 0 <= i < a.len() ==> lower_hex(a[i]) == lower_hex(b[i]),
    ensures
        normalized(a) == normalized(b),
        is_mac_format(a) ==> is_mac_format(b),
{
    assert(normalized(a) =~= normalized(b));
    if is_mac_format(a) {
        assert forall|i: int| 0 <= i < b.len() implies if i % 3 == 2 {
            b[i] == ':'
        } else {
            is_hex_digit(#[trigger] b[i])
        } by {
            assert(lower_hex(a[i]) == lower_hex(b[i]));
            if i % 3 != 2 {
                assert(is_hex_digit(a[i]));
            }
        }
    }
}

} // verus!
