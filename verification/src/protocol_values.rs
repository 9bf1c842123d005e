//! What the values of attributes mean.
use vstd::prelude::*;

use crate::protocol_markup::{find_char, part_of, place_of_char};
use crate::protocol_text::chars_of;

verus! {

/// The value of a digit, if it is one.
pub open spec fn digit_value(c: u32, radix: u32) -> Option<u32> {
    let value = if 0x30 <= c <= 0x39 {
        c - 0x30
    } else if 0x61 <= c <= 0x66 {
        c - 0x61 + 10
    } else if 0x41 <= c <= 0x46 {
        c - 0x41 + 10
    } else {
        radix as int
    };
    if value < radix {
        Some(value as u32)
    } else {
        None
    }
}

/// The number that digits stand for, if all of them are digits.
pub open spec fn digits_value(s: Seq<u32>, radix: u32) -> Option<nat>
    decreases s.len(),
{
    if s.len() == 0 {
        Some(0)
    } else {
        match (digits_value(s.drop_last(), radix), digit_value(s.last(), radix)) {
            (Some(before), Some(digit)) => Some(before * radix as nat + digit as nat),
            _ => None,
        }
    }
}

/// The number of 32 bits that a text without a sign stands for, if it stands for one.
pub open spec fn unsigned_number(s: Seq<u32>, radix: u32) -> Option<u32> {
    match digits_value(s, radix) {
        Some(value) if s.len() > 0 && value <= u32::MAX => Some(value as u32),
        _ => None,
    }
}

/// The number of 32 bits that a text stands for, if it stands for one. A plus sign may stand first.
pub open spec fn number(s: Seq<u32>, radix: u32) -> Option<u32> {
    if s.len() > 0 && s[0] == 0x2b {
        unsigned_number(s.skip(1), radix)
    } else {
        unsigned_number(s, radix)
    }
}

/// The number that a text stands for, if it stands for one: a hexadecimal one after `0x`, or else a
/// decimal one.
pub open spec fn prefixed_number(s: Seq<u32>) -> Option<u32> {
    if s.len() >= 2 && s[0] == 0x30 && s[1] == 0x78 {
        number(s.skip(2), 16)
    } else {
        number(s, 10)
    }
}

/// The numbers of characters.
pub open spec fn codes(s: Seq<char>) -> Seq<u32> {
    s.map_values(|c: char| c as u32)
}

/// Whether a number is the number of a character.
pub open spec fn is_character(n: u32) -> bool {
    0 < n < 0xd800 || 0xdfff < n <= 0x10ffff
}

/// The character with a number that is written in decimal or, after an `x`, in hexadecimal.
pub open spec fn numbered_character(s: Seq<char>) -> Option<u32> {
    let n = if s.len() > 0 && s[0] == 'x' {
        unsigned_number(codes(s.skip(1)), 16)
    } else {
        unsigned_number(codes(s), 10)
    };
    match n {
        Some(n) if is_character(n) => Some(n),
        _ => None,
    }
}

/// The character that a reference stands for, if it stands for one.
pub open spec fn referred(s: Seq<char>) -> Option<u32> {
    if s.len() > 0 && s[0] == '#' {
        numbered_character(s.skip(1))
    } else if s == "lt"@ {
        Some(0x3c)
    } else if s == "gt"@ {
        Some(0x3e)
    } else if s == "amp"@ {
        Some(0x26)
    } else if s == "apos"@ {
        Some(0x27)
    } else if s == "quot"@ {
        Some(0x22)
    } else {
        None
    }
}

/// The numbers of the characters of a value, each reference replaced by what it stands for. There are
/// none if a reference stands for no character.
pub open spec fn meaning(s: Seq<char>) -> Option<Seq<u32>>
    decreases s.len(),
{
    if s.len() == 0 {
        Some(Seq::empty())
    } else {
        let end = place_of_char(s, 1, ';');
        let (first, rest) = if s[0] != '&' {
            (Some(s[0] as u32), meaning(s.skip(1)))
        } else if 0 < end < s.len() {
            (referred(s.subrange(1, end)), meaning(s.skip(end + 1)))
        } else {
            (None, None)
        };
        match (first, rest) {
            (Some(c), Some(r)) => Some(seq![c] + r),
            _ => None,
        }
    }
}

fn find_digit(c: u32, radix: u32) -> (r: Option<u32>)
    ensures
        r == digit_value(c, radix),
        r matches Some(d) ==> d < 16 && d < radix,
{
    let value: u32 = if 0x30 <= c && c <= 0x39 {
        c - 0x30
    } else if 0x61 <= c && c <= 0x66 {
        c - 0x61 + 10
    } else if 0x41 <= c && c <= 0x46 {
        c - 0x41 + 10
    } else {
        radix
    };
    if value < radix {
        Some(value)
    } else {
        None
    }
}

fn read_unsigned(s: &Vec<u32>, from: usize, radix: u32) -> (r: Option<u32>)
    requires
        from <= s.len(),
        2 <= radix <= 16,
    ensures
        r == unsigned_number(s@.skip(from as int), radix),
{
    let ghost all = s@.skip(from as int);
    if from == s.len() {
        return None;
    }
    let mut value: u64 = 0;
    let mut i: usize = from;
    assert(all.take(0) =~= Seq::<u32>::empty());
    while i < s.len()
        invariant
            from <= i <= s.len(),
            2 <= radix <= 16,
            all == s@.skip(from as int),
            value <= 0x1_0000_0000,
            digits_value(all.take(i - from), radix) matches Some(v) && (if v <= u32::MAX {
                value == v
            } else {
                value == 0x1_0000_0000
            }),
        decreases s.len() - i,
    {
        let ghost before = all.take(i - from);
        let ghost after = all.take(i - from + 1);
        assert(after.drop_last() =~= before);
        assert(after.last() == s@[i as int]);
        match find_digit(s[i], radix) {
            Some(digit) => {
                let ghost v = digits_value(before, radix)->0;
                assert(v * radix >= v) by (nonlinear_arith)
                    requires
                        v >= 0,
                        radix >= 2,
                ;
                assert(value * radix <= 0x1_0000_0000 * 16) by (nonlinear_arith)
                    requires
                        0 <= value <= 0x1_0000_0000,
                        0 <= radix <= 16,
                ;
                assert(value * radix >= value) by (nonlinear_arith)
                    requires
                        value >= 0,
                        radix >= 2,
                ;
                let next: u64 = value * radix as u64 + digit as u64;
                value = if next > 0xffff_ffff {
                    0x1_0000_0000
                } else {
                    next
                };
            },
            None => {
                proof {
                    lemma_no_digit(all, radix, i - from);
                }
                return None;
            },
        }
        i = i + 1;
    }
    assert(all.take(i - from) =~= all);
    if value > 0xffff_ffff {
        None
    } else {
        Some(value as u32)
    }
}

/// A text with something in it that is no digit stands for no number.
proof fn lemma_no_digit(s: Seq<u32>, radix: u32, i: int)
    requires
        0 <= i < s.len(),
        digit_value(s[i], radix) is None,
    ensures
        digits_value(s, radix) is None,
    decreases s.len(),
{
    if i < s.len() - 1 {
        lemma_no_digit(s.drop_last(), radix, i);
    }
}

fn read_number(s: &Vec<u32>, from: usize, radix: u32) -> (r: Option<u32>)
    requires
        from <= s.len(),
        2 <= radix <= 16,
    ensures
        r == number(s@.skip(from as int), radix),
{
    if from < s.len() && s[from] == 0x2b {
        assert(s@.skip(from as int).skip(1) =~= s@.skip(from + 1));
        read_unsigned(s, from + 1, radix)
    } else {
        read_unsigned(s, from, radix)
    }
}

/// Whether a text stands for a number: a decimal one or, where `hex` is set, one that may be hexadecimal.
pub fn is_number(s: &Vec<u32>, hex: bool) -> (r: bool)
    ensures
        r == (if hex {
            prefixed_number(s@) is Some
        } else {
            number(s@, 10) is Some
        }),
{
    assert(s@.skip(0) =~= s@);
    if hex && s.len() >= 2 && s[0] == 0x30 && s[1] == 0x78 {
        read_number(s, 2, 16).is_some()
    } else {
        read_number(s, 0, 10).is_some()
    }
}

fn read_codes(s: &Vec<char>, from: usize) -> (r: Vec<u32>)
    requires
        from <= s.len(),
    ensures
        r@ == codes(s@.skip(from as int)),
{
    let mut r: Vec<u32> = Vec::new();
    let mut i: usize = from;
    while i < s.len()
        invariant
            from <= i <= s.len(),
            r@ == codes(s@.subrange(from as int, i as int)),
        decreases s.len() - i,
    {
        r.push(s[i] as u32);
        i = i + 1;
        assert(r@ =~= codes(s@.subrange(from as int, i as int)));
    }
    assert(s@.subrange(from as int, i as int) =~= s@.skip(from as int));
    r
}

/// Whether characters are those of a word.
pub fn is_word(s: &Vec<char>, word: &str) -> (r: bool)
    ensures
        r == (s@ == word@),
{
    let w = chars_of(word);
    if s.len() != w.len() {
        return false;
    }
    let mut i: usize = 0;
    while i < s.len()
        invariant
            i <= s.len(),
            s@.len() == w@.len(),
            w@ == word@,
            forall|j: int| 0 <= j < i ==> s@[j] == w@[j],
        decreases s.len() - i,
    {
        if s[i] != w[i] {
            return false;
        }
        i = i + 1;
    }
    assert(s@ =~= w@);
    true
}

fn read_numbered_character(s: &Vec<char>, from: usize) -> (r: Option<u32>)
    requires
        from <= s.len(),
    ensures
        r == numbered_character(s@.skip(from as int)),
{
    let ghost all = s@.skip(from as int);
    let n = if from < s.len() && s[from] == 'x' {
        assert(all.skip(1) =~= s@.skip(from + 1));
        let digits = read_codes(s, from + 1);
        assert(digits@.skip(0) =~= digits@);
        read_unsigned(&digits, 0, 16)
    } else {
        let digits = read_codes(s, from);
        assert(digits@.skip(0) =~= digits@);
        read_unsigned(&digits, 0, 10)
    };
    match n {
        Some(n) => if (0 < n && n < 0xd800) || (0xdfff < n && n <= 0x10ffff) {
            Some(n)
        } else {
            None
        },
        None => None,
    }
}

fn read_reference(s: &Vec<char>) -> (r: Option<u32>)
    ensures
        r == referred(s@),
{
    if s.len() > 0 && s[0] == '#' {
        read_numbered_character(s, 1)
    } else if is_word(s, "lt") {
        Some(0x3c)
    } else if is_word(s, "gt") {
        Some(0x3e)
    } else if is_word(s, "amp") {
        Some(0x26)
    } else if is_word(s, "apos") {
        Some(0x27)
    } else if is_word(s, "quot") {
        Some(0x22)
    } else {
        None
    }
}

/// The first place from a place of a part on, seen from the whole.
proof fn lemma_place_in_part(s: Seq<char>, from: int, i: int, c: char)
    requires
        0 <= from <= s.len(),
        0 <= i,
    ensures
        place_of_char(s.skip(from), i, c) + from == place_of_char(s, from + i, c),
    decreases s.len() - from - i,
{
    if from + i < s.len() && s[from + i] != c {
        lemma_place_in_part(s, from, i + 1, c);
    }
}

/// The numbers of the characters of a value, each reference replaced by what it stands for. There are
/// none if a reference stands for no character.
pub fn read_value(s: &Vec<char>) -> (r: Option<Vec<u32>>)
    ensures
        match r {
            Some(r) => meaning(s@) == Some(r@),
            None => meaning(s@) is None,
        },
{
    let mut r: Vec<u32> = Vec::new();
    let mut i: usize = 0;
    assert(s@.skip(0) =~= s@);
    assert(meaning(s@) matches Some(m) ==> r@ + m =~= m);
    while i < s.len()
        invariant
            i <= s.len(),
            match meaning(s@.skip(i as int)) {
                Some(m) => meaning(s@) == Some(r@ + m),
                None => meaning(s@) is None,
            },
        decreases s.len() - i,
    {
        let ghost rest = s@.skip(i as int);
        let ghost before = r@;
        assert(rest[0] == s@[i as int]);
        let (c, next): (u32, usize) = if s[i] != '&' {
            assert(rest.skip(1) =~= s@.skip(i + 1));
            (s[i] as u32, i + 1)
        } else {
            let end = find_char(s, i + 1, ';');
            proof {
                lemma_place_in_part(s@, i as int, 1, ';');
            }
            if end >= s.len() {
                return None;
            }
            let name = part_of(s, i + 1, end);
            assert(name@ =~= rest.subrange(1, end - i));
            assert(rest.skip(end - i + 1) =~= s@.skip(end + 1));
            match read_reference(&name) {
                Some(c) => (c, end + 1),
                None => {
                    return None;
                },
            }
        };
        r.push(c);
        i = next;
        proof {
            if let Some(m) = meaning(s@.skip(i as int)) {
                assert(before + (seq![c] + m) =~= r@ + m);
            }
        }
    }
    assert(s@.skip(i as int).len() == 0);
    assert(r@ + Seq::<u32>::empty() =~= r@);
    Some(r)
}

} // verus!
