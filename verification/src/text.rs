//! Character classes and case-insensitive comparison on words.

use vstd::prelude::*;
use vstd::std_specs::iter::IteratorSpec;

verus! {

/// ASCII whitespace separates words.
pub open spec fn is_space(c: char) -> bool {
    c == ' ' || c == '\t' || c == '\n' || c == '\r' || c == '\x0C'
}

pub open spec fn is_digit(c: char) -> bool {
    '0' <= c && c <= '9'
}

/// ASCII lower-casing of one character; other characters are unchanged.
pub open spec fn lower_char(c: char) -> char {
    if 'A' <= c && c <= 'Z' {
        ((c as u32) + 32) as char
    } else {
        c
    }
}

/// ASCII lower-casing of a word.
pub open spec fn lower(s: Seq<char>) -> Seq<char> {
    s.map_values(|c: char| lower_char(c))
}

pub fn is_space_char(c: char) -> (r: bool)
    ensures
        r == is_space(c),
{
    c == ' ' || c == '\t' || c == '\n' || c == '\r' || c == '\x0C'
}

pub fn is_digit_char(c: char) -> (r: bool)
    ensures
        r == is_digit(c),
{
    '0' <= c && c <= '9'
}

/// Whether `c` lower-cased is `k`.
pub fn lower_char_is(c: char, k: char) -> (r: bool)
    ensures
        r == (lower_char(c) == k),
{
    if 'A' <= c && c <= 'Z' {
        let u: u32 = c as u32;
        assert(65 <= u <= 90);
        let v: u32 = u + 32;
        assert(((c as u32) + 32) as char == k <==> v == (k as u32)) by {
            assert(v as char as u32 == v);
        }
        v == (k as u32)
    } else {
        c == k
    }
}

/// The characters of a string, in order.
pub fn chars_of(s: &str) -> (v: Vec<char>)
    ensures
        v@ == s@,
{
    broadcast use vstd::string::group_string_axioms;

    let n = s.unicode_len();
    let mut it = s.chars();
    let mut v: Vec<char> = Vec::new();
    let mut i: usize = 0;
    while i < n
        invariant
            n == s@.len(),
            i <= n,
            v@ + it.remaining() == s@,
            v@.len() == i,
        decreases n - i,
    {
        match it.next() {
            Some(c) => {
                v.push(c);
            },
            None => {
                return v;
            },
        }
        i = i + 1;
    }
    v
}

/// Whether the characters `cs[from..to]`, lower-cased, spell `kw`.
pub fn lower_range_is(cs: &Vec<char>, from: usize, to: usize, kw: &str) -> (r: bool)
    requires
        from <= to <= cs@.len(),
    ensures
        r == (lower(cs@.subrange(from as int, to as int)) == kw@),
{
    let n = kw.unicode_len();
    if to - from != n {
        proof {
            assert(lower(cs@.subrange(from as int, to as int)).len() != kw@.len());
        }
        return false;
    }
    let mut i: usize = 0;
    while i < n
        invariant
            n == kw@.len(),
            from <= to <= cs@.len(),
            to - from == n,
            i <= n,
            forall|j: int| 0 <= j < i ==> lower_char(#[trigger] cs@[from + j]) == kw@[j],
        decreases n - i,
    {
        let k = kw.get_char(i);
        if !lower_char_is(cs[from + i], k) {
            proof {
                assert(lower(cs@.subrange(from as int, to as int))[i as int] != kw@[i as int]);
            }
            return false;
        }
        i = i + 1;
    }
    proof {
        assert(lower(cs@.subrange(from as int, to as int)) =~= kw@) by {
            assert forall|j: int| 0 <= j < n implies lower(cs@.subrange(from as int, to as int))[j]
                == kw@[j] by {
                assert(lower_char(cs@[from + j]) == kw@[j]);
            }
        }
    }
    true
}

/// Whether `w`, lower-cased, spells `kw`.
pub fn lower_is(w: &str, kw: &str) -> (r: bool)
    ensures
        r == (lower(w@) == kw@),
{
    let cs = chars_of(w);
    let r = lower_range_is(&cs, 0, cs.len(), kw);
    assert(cs@.subrange(0, cs@.len() as int) =~= w@);
    r
}

} // verus!
