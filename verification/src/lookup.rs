//! Normalization of postal-code queries, as the read-side lookup service
//! applies it: full-width alphanumerics and symbols become half-width,
//! Unicode space variants collapse to one plain space, hyphens are removed.

use vstd::prelude::*;
use vstd::string::*;

verus! {

/// The half-width counterpart of a character: printable ASCII stays as it
/// is, the full-width forms map onto it, space variants become a plain
/// space, anything else is untouched.
pub open spec fn hankaku_of(c: char) -> char {
    if '\u{0020}' <= c <= '\u{007E}' {
        c
    } else if '\u{FF01}' <= c <= '\u{FF5E}' {
        ((c as u32 - 0xFF01 + 0x21) as char)
    } else if '\u{2002}' <= c <= '\u{200B}' {
        ' '
    } else if c == '\u{3000}' || c == '\u{FEFF}' {
        ' '
    } else {
        c
    }
}

/// Relies on char::from_u32: it returns the character of exactly every
/// valid Unicode scalar value, and nothing otherwise.
#[verifier::external_body]
fn char_of_u32(i: u32) -> (r: Option<char>)
    ensures
        r matches Some(c) ==> c as u32 == i,
        (i < 0xD800 || (0xE000 <= i && i <= 0x10FFFF)) <==> r is Some,
{
    char::from_u32(i)
}

/// The character of scalar value `i`, or `def` when `i` is no valid
/// scalar value.
pub fn char_from_u32(i: u32, def: char) -> (r: char)
    ensures
        (i < 0xD800 || (0xE000 <= i && i <= 0x10FFFF)) ==> r as u32 == i,
        !(i < 0xD800 || (0xE000 <= i && i <= 0x10FFFF)) ==> r == def,
{
    match char_of_u32(i) {
        Some(c) => c,
        None => def,
    }
}

/// Maps one character to its half-width counterpart.
pub fn zenkaku_to_hankaku(c: char) -> (r: char)
    ensures
        r == hankaku_of(c),
{
    if '\u{0020}' <= c && c <= '\u{007E}' {
        c
    } else if '\u{FF01}' <= c && c <= '\u{FF5E}' {
        let r = char_from_u32(c as u32 - 0xFF01 + 0x21, c);
        proof {
            assert(r as u32 == c as u32 - 0xFF01 + 0x21);
            assert(((c as u32 - 0xFF01 + 0x21) as char) as u32 == c as u32 - 0xFF01 + 0x21);
        }
        r
    } else if '\u{2002}' <= c && c <= '\u{200B}' {
        ' '
    } else if c == '\u{3000}' || c == '\u{FEFF}' {
        ' '
    } else {
        c
    }
}

/// A normalized postal-code query: each character mapped to its half-width
/// counterpart, hyphens removed.
pub open spec fn normalized_postal(s: Seq<char>) -> Seq<char>
    decreases s.len(),
{
    if s.len() == 0 {
        Seq::empty()
    } else {
        let rest = normalized_postal(s.drop_last());
        if hankaku_of(s.last()) == '-' {
            rest
        } else {
            rest.push(hankaku_of(s.last()))
        }
    }
}

/// Relies on String's character collection: the string of exactly the
/// characters of `v`, in order.
#[verifier::external_body]
fn chars_to_string(v: &Vec<char>) -> (r: String)
    ensures
        r@ == v@,
{
    v.iter().collect()
}

/// Normalizes a raw postal-code query.
pub fn postal_code_normalize(postal_code: &str) -> (r: String)
    ensures
        r@ == normalized_postal(postal_code@),
{
    let n = postal_code.unicode_len();
    let mut out: Vec<char> = Vec::new();
    let mut i: usize = 0;
    proof {
        assert(postal_code@.subrange(0, 0) =~= Seq::<char>::empty());
    }
    while i < n
        invariant
            i <= n,
            n == postal_code@.len(),
            out@ == normalized_postal(postal_code@.subrange(0, i as int)),
        decreases n - i,
    {
        let c = zenkaku_to_hankaku(postal_code.get_char(i));
        proof {
            let prefix = postal_code@.subrange(0, i as int + 1);
            assert(prefix.drop_last() =~= postal_code@.subrange(0, i as int));
            assert(prefix.last() == postal_code@[i as int]);
        }
        if c != '-' {
            out.push(c);
        }
        i = i + 1;
    }
    proof {
        assert(postal_code@.subrange(0, n as int) =~= postal_code@);
    }
    chars_to_string(&out)
}

} // verus!
