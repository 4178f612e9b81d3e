//! Text as UTF-16, the form in which Windows keeps file names. Not all units
//! make up text: a file name can hold a surrogate on its own.

use crate::text::{chars_of, code};
use vstd::prelude::*;

verus! {

/// Whether a unit is the first of a pair.
pub open spec fn high(unit: u16) -> bool {
    0xD800 <= unit <= 0xDBFF
}

/// Whether a unit is the second of a pair.
pub open spec fn low(unit: u16) -> bool {
    0xDC00 <= unit <= 0xDFFF
}

/// The code point of a pair.
pub open spec fn paired(a: u16, b: u16) -> int {
    0x10000 + (a - 0xD800) * 0x400 + (b - 0xDC00)
}

/// The units of a character.
pub open spec fn units_of(c: char) -> Seq<u16> {
    let n = c as int;
    if n < 0x10000 {
        seq![n as u16]
    } else {
        seq![(0xD800 + (n - 0x10000) / 0x400) as u16, (0xDC00 + (n - 0x10000) % 0x400) as u16]
    }
}

/// The units of a text.
pub open spec fn encoded(text: Seq<char>) -> Seq<u16>
    decreases text.len(),
{
    if text.len() == 0 {
        seq![]
    } else {
        units_of(text[0]) + encoded(text.skip(1))
    }
}

/// The text that units make up, where they do.
pub open spec fn decoded(units: Seq<u16>) -> Option<Seq<char>>
    decreases units.len(),
{
    if units.len() == 0 {
        Some(seq![])
    } else if !high(units[0]) && !low(units[0]) {
        match decoded(units.skip(1)) {
            Some(rest) => Some(seq![units[0] as char] + rest),
            None => None,
        }
    } else if high(units[0]) && units.len() >= 2 && low(units[1]) {
        match decoded(units.skip(2)) {
            Some(rest) => Some(seq![paired(units[0], units[1]) as char] + rest),
            None => None,
        }
    } else {
        None
    }
}

/// A character has one unit that is none of a pair, or the two of a pair.
proof fn lemma_units(c: char)
    ensures
        ({
            let units = units_of(c);
            if c as int >= 0x10000 {
                &&& units.len() == 2
                &&& high(units[0])
                &&& low(units[1])
                &&& paired(units[0], units[1]) as char == c
            } else {
                &&& units.len() == 1
                &&& !high(units[0])
                &&& !low(units[0])
                &&& units[0] as char == c
            }
        }),
{
    let n = c as int;
    if n >= 0x10000 {
        assert(0 <= (n - 0x10000) / 0x400 < 0x400);
    }
}

/// Text survives being encoded.
pub proof fn encoded_text_is_decoded(text: Seq<char>)
    ensures
        decoded(encoded(text)) == Some(text),
    decreases text.len(),
{
    if text.len() > 0 {
        let c = text[0];
        let rest = encoded(text.skip(1));
        let all = encoded(text);
        encoded_text_is_decoded(text.skip(1));
        lemma_units(c);
        let units = units_of(c);
        if c as int >= 0x10000 {
            assert(all[0] == units[0] && all[1] == units[1]);
            assert(all.skip(2) =~= rest);
        } else {
            assert(all[0] == units[0]);
            assert(all.skip(1) =~= rest);
        }
        assert(seq![c] + text.skip(1) =~= text);
    } else {
        assert(text =~= seq![]);
    }
}

/// Units that make up text are the units of that text.
pub proof fn decoded_units_are_encoded(units: Seq<u16>)
    ensures
        decoded(units) matches Some(text) ==> encoded(text) == units,
    decreases units.len(),
{
    if units.len() == 0 {
        assert(units =~= seq![]);
    } else if !high(units[0]) && !low(units[0]) {
        decoded_units_are_encoded(units.skip(1));
        if let Some(rest) = decoded(units.skip(1)) {
            let c = units[0] as char;
            let text = seq![c] + rest;
            assert(text.skip(1) =~= rest);
            assert(units_of(c) =~= seq![units[0]]);
            assert(seq![units[0]] + units.skip(1) =~= units);
        }
    } else if high(units[0]) && units.len() >= 2 && low(units[1]) {
        decoded_units_are_encoded(units.skip(2));
        if let Some(rest) = decoded(units.skip(2)) {
            let n = paired(units[0], units[1]);
            let c = n as char;
            let text = seq![c] + rest;
            assert(text.skip(1) =~= rest);
            assert((n - 0x10000) / 0x400 == units[0] - 0xD800);
            assert((n - 0x10000) % 0x400 == units[1] - 0xDC00);
            assert(units_of(c) =~= seq![units[0], units[1]]);
            assert(seq![units[0], units[1]] + units.skip(2) =~= units);
        }
    }
}

/// The units of a text.
pub fn encode(text: &str) -> (r: Vec<u16>)
    ensures
        r@ == encoded(text@),
{
    let t = chars_of(text);
    let mut r: Vec<u16> = Vec::new();
    let mut i: usize = 0;
    assert(t@.skip(0) =~= t@);
    while i < t.len()
        invariant
            i <= t.len(),
            t@ == text@,
            encoded(text@) =~= r@ + encoded(t@.skip(i as int)),
        decreases t.len() - i,
    {
        let ghost r0 = r@;
        let ghost rest = t@.skip(i as int);
        assert(rest[0] == t[i as int]);
        assert(rest.skip(1) =~= t@.skip(i + 1));
        let n: u32 = code(t[i]);
        if n < 0x10000 {
            r.push(n as u16);
        } else {
            r.push((0xD800 + (n - 0x10000) / 0x400) as u16);
            r.push((0xDC00 + (n - 0x10000) % 0x400) as u16);
        }
        assert(r@ =~= r0 + units_of(t[i as int]));
        assert(r@ + encoded(t@.skip(i + 1)) =~= r0 + encoded(rest));
        i += 1;
    }
    assert(t@.skip(i as int) =~= seq![]);
    assert(r@ =~= encoded(text@));
    r
}

/// The text that units make up, where they do.
pub fn decode(units: &Vec<u16>) -> (r: Option<String>)
    ensures
        match decoded(units@) {
            Some(text) => r is Some && r->0@ == text,
            None => r is None,
        },
{
    let mut s = String::new();
    let mut i: usize = 0;
    assert(units@.skip(0) =~= units@);
    assert(forall|t: Seq<char>| s@ + t =~= t);
    while i < units.len()
        invariant
            i <= units.len(),
            decoded(units@) == match decoded(units@.skip(i as int)) {
                Some(rest) => Some(s@ + rest),
                None => None,
            },
        decreases units.len() - i,
    {
        let ghost rest = units@.skip(i as int);
        let ghost s0 = s@;
        let u: u16 = units[i];
        assert(rest[0] == u);
        if u < 0xD800 || u > 0xDFFF {
            match char::from_u32(u as u32) {
                Some(c) => s.push(c),
                None => {},
            }
            assert(rest.skip(1) =~= units@.skip(i + 1));
            proof {
                let c = u as char;
                assert(s@ =~= s0 + seq![c]);
                if let Some(more) = decoded(rest.skip(1)) {
                    assert(s0 + (seq![c] + more) =~= s@ + more);
                }
            }
            i += 1;
        } else {
            if u > 0xDBFF || i + 1 >= units.len() {
                return None;
            }
            let v: u16 = units[i + 1];
            assert(rest[1] == v);
            if v < 0xDC00 || v > 0xDFFF {
                return None;
            }
            let n: u32 = 0x10000 + (u - 0xD800) as u32 * 0x400 + (v - 0xDC00) as u32;
            match char::from_u32(n) {
                Some(c) => s.push(c),
                None => {},
            }
            assert(rest.skip(2) =~= units@.skip(i + 2));
            proof {
                let c = paired(u, v) as char;
                assert(n == paired(u, v));
                assert(s@ =~= s0 + seq![c]);
                if let Some(more) = decoded(rest.skip(2)) {
                    assert(s0 + (seq![c] + more) =~= s@ + more);
                }
            }
            i += 2;
        }
    }
    assert(units@.skip(i as int) =~= seq![]);
    assert(s@ + Seq::<char>::empty() =~= s@);
    Some(s)
}

/// The units of two texts, one after the other, are those of the one and then those
/// of the other.
pub proof fn texts_are_encoded_one_after_the_other(a: Seq<char>, b: Seq<char>)
    ensures
        encoded(a + b) == encoded(a) + encoded(b),
    decreases a.len(),
{
    if a.len() == 0 {
        assert(a + b =~= b);
        assert(encoded(a) + encoded(b) =~= encoded(b));
    } else {
        texts_are_encoded_one_after_the_other(a.skip(1), b);
        assert((a + b).skip(1) =~= a.skip(1) + b);
        assert((a + b)[0] == a[0]);
        assert(encoded(a + b) =~= encoded(a) + encoded(b));
    }
}

/// A text of one character has one unit, the character's number, or, from 65536 on,
/// a high and a low surrogate that share the ten upper and the ten lower bits of
/// what is above 65536.
pub proof fn a_character_has_one_unit_or_two(text: &str, r: Vec<u16>)
    requires
        call_ensures(encode, (text,), r),
        text@.len() == 1,
    ensures
        (text@[0] as int) < 0x10000 ==> r.len() == 1 && r[0] == text@[0] as int,
        (text@[0] as int) >= 0x10000 ==> {
            &&& r.len() == 2
            &&& 0xD800 <= r[0] <= 0xDBFF
            &&& 0xDC00 <= r[1] <= 0xDFFF
            &&& (r[0] - 0xD800) * 0x400 + (r[1] - 0xDC00) + 0x10000 == text@[0] as int
        },
{
    lemma_units(text@[0]);
    assert(text@.skip(1).len() == 0);
    assert(encoded(text@.skip(1)) =~= seq![]);
    assert(r@ =~= units_of(text@[0]));
}

/// Units are decoded exactly where they are the units of some text, and then to that
/// text.
pub proof fn units_are_decoded_where_they_are_text(units: &Vec<u16>, r: Option<String>)
    requires
        call_ensures(decode, (units,), r),
    ensures
        forall|text: Seq<char>| #[trigger]
            encoded(text) == units@ ==> r is Some && r->0@ == text,
        r is Some ==> encoded(r->0@) == units@,
{
    decoded_units_are_encoded(units@);
    assert forall|text: Seq<char>| #[trigger] encoded(text) == units@ implies r is Some && r->0@
        == text by {
        encoded_text_is_decoded(text);
    }
}

} // verus!
