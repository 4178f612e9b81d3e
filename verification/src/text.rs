//! Building text: decimal and hexadecimal numbers, padding, trimming.

use crate::order::{dictionary, first_at, lemma_dictionary_order, strict_total, Duplicate, Ordered, Place};
use vstd::arithmetic::div_mod::lemma_mod_breakdown;
use vstd::arithmetic::power::{lemma_pow_positive, pow};
use vstd::prelude::*;

verus! {

/// `String::push` appends one character to the end of the text.
pub assume_specification[ String::push ](s: &mut String, c: char)
    ensures
        final(s)@ == old(s)@.push(c),
;

/// `char::from_u32` gives the character of a code point: any up to
/// `0x10FFFF` but the surrogates, which are no characters.
pub assume_specification[ char::from_u32 ](n: u32) -> (r: Option<char>)
    ensures
        r == if scalar(n) {
            Some(n as char)
        } else {
            None
        },
;

/// Whether `code` is the code point of a character.
pub open spec fn scalar(code: u32) -> bool {
    code <= 0xD7FF || 0xE000 <= code <= 0x10FFFF
}

/// The text of code points, the replacement character standing for those that
/// are none.
pub open spec fn lossy(codes: Seq<u32>) -> Seq<char> {
    codes.map_values(|c: u32| if scalar(c) { c as char } else { '\u{FFFD}' })
}

/// The text of code points, the replacement character standing for those that
/// are none.
pub fn lossy_text(codes: &Vec<u32>) -> (r: String)
    ensures
        r@ == lossy(codes@),
{
    let mut s = String::new();
    let mut i: usize = 0;
    while i < codes.len()
        invariant
            i <= codes.len(),
            s@ == lossy(codes@.take(i as int)),
        decreases codes.len() - i,
    {
        match char::from_u32(codes[i]) {
            Some(c) => s.push(c),
            None => s.push('\u{FFFD}'),
        }
        assert(s@ =~= lossy(codes@.take(i + 1)));
        i += 1;
    }
    assert(codes@.take(i as int) =~= codes@);
    s
}

/// The decimal digit `d`, for `d` below ten.
pub open spec fn digit(d: int) -> char {
    (48 + d) as char
}

/// `n` in decimal, without leading zeros.
pub open spec fn decimal(n: nat) -> Seq<char>
    decreases n,
{
    if n < 10 {
        seq![digit(n as int)]
    } else {
        decimal(n / 10).push(digit((n % 10) as int))
    }
}

/// The last `width` decimal digits of `n`, zeros first.
pub open spec fn padded(n: nat, width: nat) -> Seq<char>
    decreases width,
{
    if width == 0 {
        seq![]
    } else {
        padded(n / 10, (width - 1) as nat).push(digit((n % 10) as int))
    }
}

/// A padded number is as wide as it was to be.
pub proof fn lemma_padded_length(n: nat, width: nat)
    ensures
        padded(n, width).len() == width,
    decreases width,
{
    if width > 0 {
        lemma_padded_length(n / 10, (width - 1) as nat);
    }
}

/// The hexadecimal digit `d`, for `d` below sixteen, letters in lower case.
pub open spec fn hex_digit(d: int) -> char {
    if d < 10 {
        (48 + d) as char
    } else {
        (87 + d) as char
    }
}

/// The last `width` hexadecimal digits of `n`, zeros first.
pub open spec fn hex(n: nat, width: nat) -> Seq<char>
    decreases width,
{
    if width == 0 {
        seq![]
    } else {
        hex(n / 16, (width - 1) as nat).push(hex_digit((n % 16) as int))
    }
}

/// Append `n` in decimal.
pub fn push_decimal(s: &mut String, n: u64)
    ensures
        final(s)@ == old(s)@ + decimal(n as nat),
    decreases n,
{
    if n >= 10 {
        push_decimal(s, n / 10);
    }
    let d: u8 = (n % 10) as u8;
    s.push((48 + d) as char);
}

/// Append `n` in decimal.
pub fn push_long(s: &mut String, n: u128)
    ensures
        final(s)@ == old(s)@ + decimal(n as nat),
    decreases n,
{
    if n >= 10 {
        push_long(s, n / 10);
    }
    let d: u8 = (n % 10) as u8;
    s.push((48 + d) as char);
}

/// Append the last `width` decimal digits of `n`.
pub fn push_padded(s: &mut String, n: u64, width: u32)
    ensures
        final(s)@ == old(s)@ + padded(n as nat, width as nat),
    decreases width,
{
    if width > 0 {
        push_padded(s, n / 10, width - 1);
        let d: u8 = (n % 10) as u8;
        s.push((48 + d) as char);
    }
}

/// Append the last `width` hexadecimal digits of `n`.
pub fn push_hex(s: &mut String, n: u64, width: u32)
    ensures
        final(s)@ == old(s)@ + hex(n as nat, width as nat),
    decreases width,
{
    if width > 0 {
        push_hex(s, n / 16, width - 1);
        let d: u8 = (n % 16) as u8;
        if d < 10 {
            s.push((48 + d) as char);
        } else {
            s.push((87 + d) as char);
        }
    }
}

/// One text after the other.
pub fn concat(a: &str, b: &str) -> (r: String)
    ensures
        r@ == a@ + b@,
{
    let mut s = String::from_str(a);
    s.append(b);
    s
}

/// The characters of a text.
pub fn chars_of(s: &str) -> (r: Vec<char>)
    ensures
        r@ == s@,
{
    let mut r: Vec<char> = Vec::new();
    for c in it: s.chars()
        invariant
            it.seq() == s@,
            r@ == s@.take(it.index()),
    {
        r.push(c);
        assert(r@ =~= s@.take(it.index() + 1));
    }
    assert(s@.take(s@.len() as int) =~= s@);
    r
}

/// The code point of a character.
pub fn code(c: char) -> (r: u32)
    ensures
        r as int == c as int,
{
    c as u32
}

/// The order of characters.
pub open spec fn char_order() -> spec_fn(char, char) -> bool {
    |a: char, b: char| (a as int) < (b as int)
}

/// The order of texts.
pub open spec fn text_before(a: Seq<char>, b: Seq<char>) -> bool {
    dictionary(char_order())(a, b)
}

/// Texts are in a strict total order.
pub proof fn text_order_is_total(a: Seq<char>, b: Seq<char>, c: Seq<char>)
    ensures
        !text_before(a, a),
        text_before(a, b) && text_before(b, c) ==> text_before(a, c),
        a == b || text_before(a, b) || text_before(b, a),
        !(text_before(a, b) && text_before(b, a)),
{
    assert(strict_total(char_order()));
    lemma_dictionary_order(char_order());
    let d = dictionary(char_order());
    assert(!d(a, a));
    assert(d(a, b) && d(b, c) ==> d(a, c));
    assert(a == b || d(a, b) || d(b, a));
    assert(d(a, b) && d(b, a) ==> d(a, a));
}

/// Whether a number has no more than `width` digits.
pub open spec fn fits(n: nat, width: nat) -> bool
    decreases width,
{
    if width == 0 {
        n == 0
    } else {
        fits(n / 10, (width - 1) as nat)
    }
}

/// Texts that begin alike are in the order of what follows.
proof fn lemma_begin_alike(start: Seq<char>, a: Seq<char>, b: Seq<char>)
    requires
        text_before(a, b),
    ensures
        text_before(start + a, start + b),
{
    let k = choose|k: int| first_at(char_order(), a, b, k);
    let x = start + a;
    let y = start + b;
    let at = start.len() + k;
    assert forall|i: int| 0 <= i < at implies x[i] == y[i] by {
        if i >= start.len() {
            assert(a[i - start.len()] == b[i - start.len()]);
        }
    }
    assert(first_at(char_order(), x, y, at));
}

/// What follows two texts of one length leaves their order alone.
proof fn lemma_goes_on(a: Seq<char>, b: Seq<char>, c: Seq<char>, d: Seq<char>)
    requires
        a.len() == b.len(),
        text_before(a, b),
    ensures
        text_before(a + c, b + d),
{
    let k = choose|k: int| first_at(char_order(), a, b, k);
    assert forall|i: int| 0 <= i < k implies (a + c)[i] == (b + d)[i] by {
        assert(a[i] == b[i]);
    }
    assert(first_at(char_order(), a + c, b + d, k));
}

/// Padded to one width, numbers are in the same order as their texts.
proof fn lemma_padded_order(m: nat, n: nat, width: nat)
    requires
        m < n,
        fits(n, width),
    ensures
        text_before(padded(m, width), padded(n, width)),
    decreases width,
{
    if width > 0 {
        let w = (width - 1) as nat;
        let x = seq![digit((m % 10) as int)];
        let y = seq![digit((n % 10) as int)];
        assert(padded(m, width) =~= padded(m / 10, w) + x);
        assert(padded(n, width) =~= padded(n / 10, w) + y);
        if m / 10 < n / 10 {
            lemma_padded_order(m / 10, n / 10, w);
            lemma_padded_length(m / 10, w);
            lemma_padded_length(n / 10, w);
            lemma_goes_on(padded(m / 10, w), padded(n / 10, w), x, y);
        } else {
            assert(first_at(char_order(), x, y, 0));
            lemma_begin_alike(padded(m / 10, w), x, y);
        }
    }
}

/// Texts that begin alike and go on with two padded numbers are in the order of
/// the numbers.
pub proof fn lemma_padded_decides(
    a: Seq<char>,
    b: Seq<char>,
    start: Seq<char>,
    m: nat,
    n: nat,
    width: nat,
)
    requires
        m < n,
        fits(n, width),
        begins_with(a, start + padded(m, width)),
        begins_with(b, start + padded(n, width)),
    ensures
        text_before(a, b),
{
    lemma_padded_order(m, n, width);
    lemma_padded_length(m, width);
    lemma_padded_length(n, width);
    let x = start + padded(m, width);
    let y = start + padded(n, width);
    lemma_begin_alike(start, padded(m, width), padded(n, width));
    lemma_goes_on(x, y, a.skip(x.len() as int), b.skip(y.len() as int));
    assert(a =~= x + a.skip(x.len() as int));
    assert(b =~= y + b.skip(y.len() as int));
}

impl Ordered for String {
    open spec fn before(a: Seq<char>, b: Seq<char>) -> bool {
        text_before(a, b)
    }

    proof fn order_is_total(a: Seq<char>, b: Seq<char>, c: Seq<char>) {
        text_order_is_total(a, b, c);
    }

    fn place(&self, other: &String) -> (r: Place) {
        let a = chars_of(self.as_str());
        let b = chars_of(other.as_str());
        proof {
            text_order_is_total(self@, other@, self@);
        }
        let mut i: usize = 0;
        while i < a.len() && i < b.len()
            invariant
                i <= a.len(),
                i <= b.len(),
                a@ == self@,
                b@ == other@,
                forall|j: int| 0 <= j < i ==> a[j] == b[j],
                !(text_before(a@, b@) && text_before(b@, a@)),
                text_before(a@, b@) ==> a@ != b@,
                text_before(b@, a@) ==> a@ != b@,
            decreases a.len() - i,
        {
            let x: char = a[i];
            let y: char = b[i];
            if code(x) < code(y) {
                assert(first_at(char_order(), a@, b@, i as int));
                return Place::Before;
            }
            if code(x) > code(y) {
                assert(first_at(char_order(), b@, a@, i as int));
                return Place::After;
            }
            i += 1;
        }
        if i < b.len() {
            assert(first_at(char_order(), a@, b@, i as int));
            Place::Before
        } else if i < a.len() {
            assert(first_at(char_order(), b@, a@, i as int));
            Place::After
        } else {
            assert(a@ =~= b@);
            Place::Same
        }
    }
}

impl Duplicate for String {
    fn duplicate(&self) -> (r: String) {
        self.clone()
    }
}

/// The text in lower case, as `str::to_lowercase` gives it.
pub uninterp spec fn lowercase(text: Seq<char>) -> Seq<char>;

/// `str::to_lowercase` gives the text in lower case, by Unicode's own tables:
/// the same text gives the same result. What those tables hold is left unsaid.
pub assume_specification[ str::to_lowercase ](s: &str) -> (r: String)
    ensures
        r@ == lowercase(s@),
;

/// Whether the text begins so.
pub open spec fn begins_with(text: Seq<char>, start: Seq<char>) -> bool {
    start.len() <= text.len() && text.take(start.len() as int) == start
}

/// Whether the text begins so.
pub fn starts_with(text: &str, start: &str) -> (r: bool)
    ensures
        r == begins_with(text@, start@),
{
    let a = chars_of(text);
    let b = chars_of(start);
    if b.len() > a.len() {
        return false;
    }
    let mut i: usize = 0;
    while i < b.len()
        invariant
            i <= b.len() <= a.len(),
            a@ == text@,
            b@ == start@,
            forall|j: int| 0 <= j < i ==> a[j] == b[j],
        decreases b.len() - i,
    {
        if a[i] != b[i] {
            assert(text@.take(start@.len() as int)[i as int] != start@[i as int]);
            return false;
        }
        i += 1;
    }
    assert(text@.take(start@.len() as int) =~= start@);
    true
}

/// Where a character is last, or -1.
pub open spec fn last_place(text: Seq<char>, c: char) -> int
    decreases text.len(),
{
    if text.len() == 0 {
        -1
    } else if text.last() == c {
        text.len() - 1
    } else {
        last_place(text.drop_last(), c)
    }
}

/// Where a character is first, or the length of the text.
pub open spec fn first_place(text: Seq<char>, c: char) -> int
    decreases text.len(),
{
    if text.len() == 0 {
        0
    } else if text[0] == c {
        0
    } else {
        1 + first_place(text.drop_first(), c)
    }
}

/// What stands after the last `c`; the whole text where there is none.
pub open spec fn after_last(text: Seq<char>, c: char) -> Seq<char> {
    text.skip(last_place(text, c) + 1)
}

/// What stands before the first `c`; the whole text where there is none.
pub open spec fn before_first(text: Seq<char>, c: char) -> Seq<char> {
    text.take(first_place(text, c))
}

proof fn lemma_last_place(text: Seq<char>, c: char)
    ensures
        -1 <= last_place(text, c) < text.len(),
    decreases text.len(),
{
    if text.len() > 0 {
        lemma_last_place(text.drop_last(), c);
    }
}

proof fn lemma_first_place(text: Seq<char>, c: char)
    ensures
        0 <= first_place(text, c) <= text.len(),
    decreases text.len(),
{
    if text.len() > 0 {
        lemma_first_place(text.drop_first(), c);
    }
}

/// The place after the last `c` of a text.
pub fn past_last(text: &Vec<char>, c: char) -> (r: usize)
    ensures
        r == last_place(text@, c) + 1,
        r <= text.len(),
{
    let mut n: usize = text.len();
    assert(text@.take(n as int) =~= text@);
    while n > 0
        invariant
            n <= text.len(),
            last_place(text@, c) == last_place(text@.take(n as int), c),
        decreases n,
    {
        assert(text@.take(n as int).last() == text[n - 1]);
        assert(text@.take(n as int).drop_last() =~= text@.take(n - 1));
        if text[n - 1] == c {
            return n;
        }
        n -= 1;
    }
    0
}

/// The place of the first `c` of a text, from `start` on; its end where there
/// is none.
pub fn find_from(text: &Vec<char>, start: usize, c: char) -> (r: usize)
    requires
        start <= text.len(),
    ensures
        start <= r <= text.len(),
        r == start + first_place(text@.skip(start as int), c),
{
    let mut i: usize = start;
    while i < text.len()
        invariant
            start <= i <= text.len(),
            first_place(text@.skip(start as int), c) == (i - start) + first_place(
                text@.skip(i as int),
                c,
            ),
        decreases text.len() - i,
    {
        assert(text@.skip(i as int)[0] == text[i as int]);
        assert(text@.skip(i as int).drop_first() =~= text@.skip(i + 1));
        if text[i] == c {
            return i;
        }
        i += 1;
    }
    i
}

/// The text of characters from `start` to `end`.
pub fn text_between(text: &Vec<char>, start: usize, end: usize) -> (r: String)
    requires
        start <= end <= text.len(),
    ensures
        r@ == text@.subrange(start as int, end as int),
{
    let mut s = String::new();
    let mut i: usize = start;
    while i < end
        invariant
            start <= i <= end <= text.len(),
            s@ == text@.subrange(start as int, i as int),
        decreases end - i,
    {
        s.push(text[i]);
        assert(s@ =~= text@.subrange(start as int, i + 1));
        i += 1;
    }
    s
}

/// The characters with Unicode's `White_Space` property.
pub open spec fn white_space(c: char) -> bool {
    let n = c as int;
    ||| 0x9 <= n <= 0xd
    ||| n == 0x20
    ||| n == 0x85
    ||| n == 0xa0
    ||| n == 0x1680
    ||| 0x2000 <= n <= 0x200a
    ||| n == 0x2028
    ||| n == 0x2029
    ||| n == 0x202f
    ||| n == 0x205f
    ||| n == 0x3000
}

/// `char::is_whitespace` tells whether a character has Unicode's `White_Space`
/// property.
pub assume_specification[ char::is_whitespace ](c: char) -> (r: bool)
    ensures
        r == white_space(c),
;

/// The text without the white space it ends in.
pub open spec fn trimmed_end(text: Seq<char>) -> Seq<char>
    decreases text.len(),
{
    if text.len() > 0 && white_space(text.last()) {
        trimmed_end(text.drop_last())
    } else {
        text
    }
}

/// The text without the white space it begins with.
pub open spec fn trimmed_start(text: Seq<char>) -> Seq<char>
    decreases text.len(),
{
    if text.len() > 0 && white_space(text[0]) {
        trimmed_start(text.drop_first())
    } else {
        text
    }
}

/// The text without white space at either end.
pub open spec fn trimmed(text: Seq<char>) -> Seq<char> {
    trimmed_end(trimmed_start(text))
}

/// What is left of a text without white space at its ends is a part of it, and
/// begins with none.
pub proof fn lemma_trimmed_part(text: Seq<char>)
    ensures
        trimmed(text).len() > 0 ==> !white_space(trimmed(text)[0]),
        forall|i: int|
            0 <= i < trimmed(text).len() ==> text.contains(#[trigger] trimmed(text)[i]),
{
    lemma_trimmed_start(text);
    lemma_trimmed_end(trimmed_start(text));
}

proof fn lemma_trimmed_start(text: Seq<char>)
    ensures
        trimmed_start(text).len() > 0 ==> !white_space(trimmed_start(text)[0]),
        trimmed_start(text).len() <= text.len(),
        trimmed_start(text) == text.skip(text.len() - trimmed_start(text).len()),
    decreases text.len(),
{
    if text.len() > 0 && white_space(text[0]) {
        lemma_trimmed_start(text.drop_first());
    }
    assert(trimmed_start(text) =~= text.skip(text.len() - trimmed_start(text).len()));
}

proof fn lemma_trimmed_end(text: Seq<char>)
    ensures
        trimmed_end(text).len() <= text.len(),
        trimmed_end(text) == text.take(trimmed_end(text).len() as int),
    decreases text.len(),
{
    if text.len() > 0 && white_space(text.last()) {
        lemma_trimmed_end(text.drop_last());
    }
    assert(trimmed_end(text) =~= text.take(trimmed_end(text).len() as int));
}

/// The text without white space at either end.
pub fn trim(text: &str) -> (r: String)
    ensures
        r@ == trimmed(text@),
{
    let c = chars_of(text);
    let n: usize = c.len();
    let mut start: usize = 0;
    assert(c@.skip(0) =~= c@);
    while start < n && c[start].is_whitespace()
        invariant
            start <= n,
            n == c.len(),
            trimmed_start(c@) == trimmed_start(c@.skip(start as int)),
        ensures
            start <= n,
            trimmed_start(c@) == trimmed_start(c@.skip(start as int)),
            start < n ==> !white_space(c[start as int]),
        decreases n - start,
    {
        assert(c@.skip(start as int)[0] == c[start as int]);
        assert(c@.skip(start as int).drop_first() =~= c@.skip(start + 1));
        start += 1;
    }
    proof {
        if start < n {
            assert(c@.skip(start as int)[0] == c[start as int]);
        }
        assert(trimmed_start(c@) =~= c@.skip(start as int));
    }
    let mut end: usize = n;
    assert(c@.subrange(start as int, end as int) =~= c@.skip(start as int));
    while end > start && c[end - 1].is_whitespace()
        invariant
            start <= end <= n,
            n == c.len(),
            trimmed_end(c@.skip(start as int)) == trimmed_end(
                c@.subrange(start as int, end as int),
            ),
        ensures
            start <= end <= n,
            trimmed_end(c@.skip(start as int)) == trimmed_end(
                c@.subrange(start as int, end as int),
            ),
            end > start ==> !white_space(c[end - 1]),
        decreases end - start,
    {
        let ghost s = c@.subrange(start as int, end as int);
        assert(s.last() == c[end - 1]);
        assert(s.drop_last() =~= c@.subrange(start as int, end - 1));
        end -= 1;
    }
    proof {
        let s = c@.subrange(start as int, end as int);
        if end > start {
            assert(s.last() == c[end - 1]);
        }
        assert(trimmed_end(s) == s);
    }
    text_between(&c, start, end)
}

/// Whether one text stands in another, from the character at `i` on.
pub open spec fn stands_at(text: Seq<char>, part: Seq<char>, i: int) -> bool {
    0 <= i && i + part.len() <= text.len() && text.subrange(i, i + part.len()) == part
}

/// Whether one text stands somewhere in another.
pub open spec fn holds(text: Seq<char>, part: Seq<char>) -> bool {
    exists|i: int| stands_at(text, part, i)
}

/// Whether one text stands in another, from the character at `i` on.
fn part_at(text: &Vec<char>, part: &Vec<char>, i: usize) -> (r: bool)
    requires
        i + part.len() <= text.len(),
    ensures
        r == stands_at(text@, part@, i as int),
{
    let ghost here = text@.subrange(i as int, i + part.len());
    let mut k: usize = 0;
    while k < part.len()
        invariant
            k <= part.len(),
            i + part.len() <= text.len(),
            here == text@.subrange(i as int, i + part.len()),
            forall|j: int| 0 <= j < k ==> here[j] == part[j],
        decreases part.len() - k,
    {
        assert(here[k as int] == text[i + k]);
        if text[i + k] != part[k] {
            return false;
        }
        k += 1;
    }
    assert(here =~= part@);
    true
}

/// Whether one text stands somewhere in another.
pub fn contains_text(text: &str, part: &str) -> (r: bool)
    ensures
        r == holds(text@, part@),
{
    let t = chars_of(text);
    let p = chars_of(part);
    let mut i: usize = 0;
    while i < t.len() && p.len() <= t.len() - i
        invariant
            i <= t.len(),
            t@ == text@,
            p@ == part@,
            forall|j: int| 0 <= j < i ==> !stands_at(text@, part@, j),
        ensures
            i <= t.len(),
            i + p.len() > t.len() || i == t.len(),
            forall|j: int| 0 <= j < i ==> !stands_at(text@, part@, j),
        decreases t.len() - i,
    {
        if part_at(&t, &p, i) {
            return true;
        }
        i += 1;
    }
    if p.len() == 0 {
        assert(text@.subrange(i as int, i as int) =~= part@);
        assert(stands_at(text@, part@, i as int));
        true
    } else {
        assert forall|j: int| !stands_at(text@, part@, j) by {}
        false
    }
}

/// The text without the `c`s that it ends in.
pub open spec fn trimmed_of(text: Seq<char>, c: Seq<char>) -> Seq<char>
    decreases text.len(),
{
    if text.len() > 0 && c.contains(text.last()) {
        trimmed_of(text.drop_last(), c)
    } else {
        text
    }
}

/// Whether a text has a character.
fn has_char(text: &Vec<char>, c: char) -> (r: bool)
    ensures
        r == text@.contains(c),
{
    let mut i: usize = 0;
    while i < text.len()
        invariant
            i <= text.len(),
            forall|j: int| 0 <= j < i ==> text[j] != c,
        decreases text.len() - i,
    {
        if text[i] == c {
            return true;
        }
        i += 1;
    }
    false
}

/// The text without those of the characters `of` that it ends in.
pub fn trim_end_of(text: &str, of: &str) -> (r: String)
    ensures
        r@ == trimmed_of(text@, of@),
{
    let t = chars_of(text);
    let c = chars_of(of);
    let mut n: usize = t.len();
    assert(t@.take(n as int) =~= t@);
    while n > 0 && has_char(&c, t[n - 1])
        invariant
            n <= t.len(),
            t@ == text@,
            c@ == of@,
            trimmed_of(text@, of@) == trimmed_of(t@.take(n as int), of@),
        ensures
            n <= t.len(),
            trimmed_of(text@, of@) == trimmed_of(t@.take(n as int), of@),
            n > 0 ==> !of@.contains(t[n - 1]),
        decreases n,
    {
        assert(t@.take(n as int).last() == t[n - 1]);
        assert(t@.take(n as int).drop_last() =~= t@.take(n - 1));
        n -= 1;
    }
    if n > 0 {
        assert(t@.take(n as int).last() == t[n - 1]);
    }
    assert(t@.subrange(0, n as int) =~= t@.take(n as int));
    text_between(&t, 0, n)
}

/// A hexadecimal digit's value, or -1.
pub open spec fn hex_value(c: char) -> int {
    let n = c as int;
    if 48 <= n <= 57 {
        n - 48
    } else if 65 <= n <= 70 {
        n - 55
    } else if 97 <= n <= 102 {
        n - 87
    } else {
        -1
    }
}

/// A hexadecimal digit's value.
pub fn hex_digit_of(c: char) -> (r: Option<u32>)
    ensures
        match r {
            Some(d) => d == hex_value(c) && d < 16,
            None => hex_value(c) == -1,
        },
{
    let n: u32 = code(c);
    if 48 <= n && n <= 57 {
        Some(n - 48)
    } else if 65 <= n && n <= 70 {
        Some(n - 55)
    } else if 97 <= n && n <= 102 {
        Some(n - 87)
    } else {
        None
    }
}

/// Whether all characters are hexadecimal digits.
pub open spec fn all_hex(digits: Seq<char>) -> bool {
    forall|i: int| 0 <= i < digits.len() ==> hex_value(#[trigger] digits[i]) >= 0
}

/// The number that hexadecimal digits stand for.
pub open spec fn hex_number(digits: Seq<char>) -> nat
    decreases digits.len(),
{
    if digits.len() == 0 {
        0
    } else {
        (hex_number(digits.drop_last()) * 16 + hex_value(digits.last())) as nat
    }
}

/// The number that the next `width` characters stand for, where all of them are
/// hexadecimal digits.
pub fn parse_hex(text: &Vec<char>, start: usize, width: usize) -> (r: Option<u32>)
    requires
        start + width <= text.len(),
        width <= 8,
    ensures
        match r {
            Some(n) => {
                &&& all_hex(text@.subrange(start as int, start + width))
                &&& n == hex_number(text@.subrange(start as int, start + width))
            },
            None => !all_hex(text@.subrange(start as int, start + width)),
        },
{
    let ghost part = text@.subrange(start as int, start + width);
    let mut n: u64 = 0;
    let mut i: usize = 0;
    let ghost mut bound: int = 1;
    proof {
        vstd::arithmetic::power::lemma_pow0(16);
    }
    while i < width
        invariant
            i <= width <= 8,
            start + width <= text.len(),
            part == text@.subrange(start as int, start + width),
            forall|j: int| 0 <= j < i ==> hex_value(#[trigger] part[j]) >= 0,
            n == hex_number(part.take(i as int)),
            n < bound,
            bound == vstd::arithmetic::power::pow(16, i as nat),
            bound <= 0x1_0000_0000,
        decreases width - i,
    {
        assert(part[i as int] == text[start + i]);
        assert(part.take(i + 1).drop_last() =~= part.take(i as int));
        assert(part.take(i + 1).last() == part[i as int]);
        match hex_digit_of(text[start + i]) {
            Some(d) => {
                n = n * 16 + d as u64;
            },
            None => {
                return None;
            },
        }
        proof {
            lemma_hex_bound(i as nat);
            bound = bound * 16;
        }
        i += 1;
    }
    assert(part.take(i as int) =~= part);
    Some(n as u32)
}

proof fn lemma_hex_bound(i: nat)
    requires
        i < 8,
    ensures
        vstd::arithmetic::power::pow(16, i + 1) == vstd::arithmetic::power::pow(16, i) * 16,
        vstd::arithmetic::power::pow(16, i + 1) <= 0x1_0000_0000,
{
    reveal(vstd::arithmetic::power::pow);
    reveal_with_fuel(vstd::arithmetic::power::pow, 9);
}

// ---------------------------------------------------------------------------
// Laws
// ---------------------------------------------------------------------------

/// The value of a hexadecimal digit in lower case.
pub open spec fn worth(c: char) -> int {
    if c as int >= 97 {
        c as int - 87
    } else {
        c as int - 48
    }
}

/// The number that digits of a base stand for, the last one counting once, the one
/// before it as often as the base says, and so on.
pub open spec fn reads(digits: Seq<char>, base: int) -> int
    decreases digits.len(),
{
    if digits.len() == 0 {
        0
    } else {
        reads(digits.drop_last(), base) * base + worth(digits.last())
    }
}

/// Whether all characters are the digits from 0 to 9.
pub open spec fn all_decimal(digits: Seq<char>) -> bool {
    forall|i: int| 0 <= i < digits.len() ==> '0' <= (#[trigger] digits[i]) <= '9'
}

/// Whether all characters are the digits from 0 to 9 or the letters from a to f.
pub open spec fn all_lower_hex(digits: Seq<char>) -> bool {
    forall|i: int|
        0 <= i < digits.len() ==> '0' <= (#[trigger] digits[i]) <= '9' || 'a' <= digits[i] <= 'f'
}

proof fn lemma_decimal_reads(n: nat)
    ensures
        reads(decimal(n), 10) == n,
        all_decimal(decimal(n)),
        decimal(n).len() > 0,
        n > 0 ==> decimal(n)[0] != '0',
        n == 0 ==> decimal(n).len() == 1,
    decreases n,
{
    if n < 10 {
        assert(decimal(n).drop_last() =~= seq![]);
        assert(reads(decimal(n).drop_last(), 10) == 0);
    } else {
        lemma_decimal_reads(n / 10);
        assert(decimal(n).drop_last() =~= decimal(n / 10));
    }
}

/// A padded number reads as the number, less what is too high for its digits.
pub proof fn lemma_padded_reads(n: nat, width: nat)
    ensures
        padded(n, width).len() == width,
        all_decimal(padded(n, width)),
        reads(padded(n, width), 10) == n as int % pow(10, width),
    decreases width,
{
    reveal(pow);
    if width > 0 {
        let less = (width - 1) as nat;
        lemma_padded_reads(n / 10, less);
        assert(padded(n, width).drop_last() =~= padded(n / 10, less));
        lemma_pow_positive(10, less);
        lemma_mod_breakdown(n as int, 10, pow(10, less));
    }
}

proof fn lemma_hex_reads(n: nat, width: nat)
    ensures
        hex(n, width).len() == width,
        all_lower_hex(hex(n, width)),
        reads(hex(n, width), 16) == n as int % pow(16, width),
    decreases width,
{
    reveal(pow);
    if width > 0 {
        let less = (width - 1) as nat;
        lemma_hex_reads(n / 16, less);
        assert(hex(n, width).drop_last() =~= hex(n / 16, less));
        lemma_pow_positive(16, less);
        lemma_mod_breakdown(n as int, 16, pow(16, less));
    }
}

/// A number is appended in decimal: what is appended are digits, of which the first
/// is no zero unless it is the only one, and read as a decimal number they are the
/// number.
pub proof fn a_decimal_reads_as_its_number(s: &mut String, n: u64)
    requires
        call_ensures(push_decimal, (s, n), ()),
    ensures
        begins_with(final(s)@, old(s)@),
        ({
            let digits = final(s)@.skip(old(s)@.len() as int);
            &&& digits.len() > 0
            &&& all_decimal(digits)
            &&& digits[0] == '0' ==> digits.len() == 1
            &&& reads(digits, 10) == n
        }),
{
    lemma_decimal_reads(n as nat);
    assert(final(s)@.take(old(s)@.len() as int) =~= old(s)@);
    assert(final(s)@.skip(old(s)@.len() as int) =~= decimal(n as nat));
}

/// The same of a long number.
pub proof fn a_long_decimal_reads_as_its_number(s: &mut String, n: u128)
    requires
        call_ensures(push_long, (s, n), ()),
    ensures
        begins_with(final(s)@, old(s)@),
        ({
            let digits = final(s)@.skip(old(s)@.len() as int);
            &&& digits.len() > 0
            &&& all_decimal(digits)
            &&& digits[0] == '0' ==> digits.len() == 1
            &&& reads(digits, 10) == n
        }),
{
    lemma_decimal_reads(n as nat);
    assert(final(s)@.take(old(s)@.len() as int) =~= old(s)@);
    assert(final(s)@.skip(old(s)@.len() as int) =~= decimal(n as nat));
}

/// A padded number is appended in as many digits as were asked for, and they read as
/// the number, less what is too high for them.
pub proof fn a_padded_number_reads_as_its_number(s: &mut String, n: u64, width: u32)
    requires
        call_ensures(push_padded, (s, n, width), ()),
    ensures
        begins_with(final(s)@, old(s)@),
        ({
            let digits = final(s)@.skip(old(s)@.len() as int);
            &&& digits.len() == width
            &&& all_decimal(digits)
            &&& reads(digits, 10) == n as int % pow(10, width as nat)
        }),
{
    lemma_padded_reads(n as nat, width as nat);
    assert(final(s)@.take(old(s)@.len() as int) =~= old(s)@);
    assert(final(s)@.skip(old(s)@.len() as int) =~= padded(n as nat, width as nat));
}

/// A number is appended in as many hexadecimal digits as were asked for, letters in
/// lower case, and they read as the number, less what is too high for them.
pub proof fn a_hex_number_reads_as_its_number(s: &mut String, n: u64, width: u32)
    requires
        call_ensures(push_hex, (s, n, width), ()),
    ensures
        begins_with(final(s)@, old(s)@),
        ({
            let digits = final(s)@.skip(old(s)@.len() as int);
            &&& digits.len() == width
            &&& all_lower_hex(digits)
            &&& reads(digits, 16) == n as int % pow(16, width as nat)
        }),
{
    lemma_hex_reads(n as nat, width as nat);
    assert(final(s)@.take(old(s)@.len() as int) =~= old(s)@);
    assert(final(s)@.skip(old(s)@.len() as int) =~= hex(n as nat, width as nat));
}

proof fn lemma_trimmed_ends(text: Seq<char>)
    ensures
        trimmed_end(text).len() > 0 ==> !white_space(trimmed_end(text).last()),
        trimmed_end(text).len() <= text.len(),
        forall|i: int|
            trimmed_end(text).len() <= i < text.len() ==> white_space(#[trigger] text[i]),
    decreases text.len(),
{
    if text.len() > 0 && white_space(text.last()) {
        lemma_trimmed_ends(text.drop_last());
        assert forall|i: int| trimmed_end(text).len() <= i < text.len() implies white_space(
            #[trigger] text[i],
        ) by {
            if i < text.len() - 1 {
                assert(text.drop_last()[i] == text[i]);
            }
        }
    }
}

proof fn lemma_trimmed_starts(text: Seq<char>)
    ensures
        trimmed_start(text).len() <= text.len(),
        forall|i: int|
            0 <= i < text.len() - trimmed_start(text).len() ==> white_space(#[trigger] text[i]),
    decreases text.len(),
{
    if text.len() > 0 && white_space(text[0]) {
        lemma_trimmed_starts(text.drop_first());
        assert forall|i: int|
            0 <= i < text.len() - trimmed_start(text).len() implies white_space(
            #[trigger] text[i],
        ) by {
            if i > 0 {
                assert(text.drop_first()[i - 1] == text[i]);
            }
        }
    }
}

/// Whether a text is another without what stands before `i` and from `j` on.
pub open spec fn cut_to(text: Seq<char>, part: Seq<char>, i: int, j: int) -> bool {
    0 <= i <= j <= text.len() && part == text.subrange(i, j)
}

/// Trimming cuts off white space at both ends, all of it and nothing else.
pub proof fn trimming_cuts_white_space_alone(text: &str, r: String)
    requires
        call_ensures(trim, (text,), r),
    ensures
        r@.len() > 0 ==> !white_space(r@[0]) && !white_space(r@.last()),
        exists|i: int, j: int|
            {
                &&& #[trigger] cut_to(text@, r@, i, j)
                &&& forall|k: int| 0 <= k < i ==> white_space(#[trigger] text@[k])
                &&& forall|k: int| j <= k < text@.len() ==> white_space(#[trigger] text@[k])
            },
{
    let t = text@;
    let start = trimmed_start(t);
    lemma_trimmed_start(t);
    lemma_trimmed_starts(t);
    lemma_trimmed_end(start);
    lemma_trimmed_ends(start);
    let i = t.len() - start.len();
    let j = i + r@.len();
    assert(r@ =~= t.subrange(i, j));
    assert(cut_to(t, r@, i, j));
    if r@.len() > 0 {
        assert(r@[0] == start[0]);
    }
    assert forall|k: int| j <= k < t.len() implies white_space(#[trigger] t[k]) by {
        assert(start[k - i] == t[k]);
    }
}

proof fn lemma_trimmed_of(text: Seq<char>, of: Seq<char>)
    ensures
        ({
            let r = trimmed_of(text, of);
            &&& r.len() <= text.len()
            &&& r == text.take(r.len() as int)
            &&& r.len() > 0 ==> !of.contains(r.last())
            &&& forall|i: int| r.len() <= i < text.len() ==> of.contains(#[trigger] text[i])
        }),
    decreases text.len(),
{
    let r = trimmed_of(text, of);
    if text.len() > 0 && of.contains(text.last()) {
        let less = text.drop_last();
        lemma_trimmed_of(less, of);
        assert(r =~= text.take(r.len() as int));
        assert forall|i: int| r.len() <= i < text.len() implies of.contains(#[trigger] text[i]) by {
            if i < less.len() {
                assert(less[i] == text[i]);
            }
        }
    } else {
        assert(r =~= text.take(r.len() as int));
    }
}

/// Trimming the end of given characters cuts those off that the text ends in, all
/// of them and nothing else.
pub proof fn trimming_an_end_cuts_the_given_characters(text: &str, of: &str, r: String)
    requires
        call_ensures(trim_end_of, (text, of), r),
    ensures
        r@.len() <= text@.len(),
        r@ == text@.take(r@.len() as int),
        r@.len() > 0 ==> !of@.contains(r@.last()),
        forall|i: int| r@.len() <= i < text@.len() ==> of@.contains(#[trigger] text@[i]),
{
    lemma_trimmed_of(text@, of@);
}

/// A text begins with another where the two have the same characters as far as the
/// other goes.
pub proof fn a_text_begins_with_another(text: &str, start: &str, r: bool)
    requires
        call_ensures(starts_with, (text, start), r),
    ensures
        r <==> start@.len() <= text@.len() && forall|i: int|
            0 <= i < start@.len() ==> (#[trigger] text@[i]) == start@[i],
{
    if start@.len() <= text@.len() && forall|i: int|
        0 <= i < start@.len() ==> (#[trigger] text@[i]) == start@[i] {
        assert(text@.take(start@.len() as int) =~= start@);
    }
    if r {
        assert forall|i: int| 0 <= i < start@.len() implies (#[trigger] text@[i]) == start@[i] by {
            assert(text@.take(start@.len() as int)[i] == start@[i]);
        }
    }
}

/// A text holds another where it is something, the other, and something.
pub proof fn a_text_holds_another(text: &str, part: &str, r: bool)
    requires
        call_ensures(contains_text, (text, part), r),
    ensures
        r ==> exists|a: Seq<char>, b: Seq<char>| #[trigger] (a + part@ + b) == text@,
        forall|a: Seq<char>, b: Seq<char>| #[trigger] (a + part@ + b) == text@ ==> r,
{
    if r {
        let i = choose|i: int| stands_at(text@, part@, i);
        let a = text@.take(i);
        let b = text@.skip(i + part@.len());
        assert(a + part@ + b =~= text@);
    }
    assert forall|a: Seq<char>, b: Seq<char>| #[trigger] (a + part@ + b) == text@ implies r by {
        assert(text@.subrange(a.len() as int, (a.len() + part@.len()) as int) =~= part@);
        assert(stands_at(text@, part@, a.len() as int));
    }
}

proof fn lemma_places(text: Seq<char>, c: char)
    ensures
        -1 <= last_place(text, c) < text.len(),
        last_place(text, c) >= 0 ==> text[last_place(text, c)] == c,
        forall|i: int| last_place(text, c) < i < text.len() ==> (#[trigger] text[i]) != c,
    decreases text.len(),
{
    if text.len() > 0 && text.last() != c {
        let less = text.drop_last();
        lemma_places(less, c);
        assert forall|i: int| last_place(text, c) < i < text.len() implies (#[trigger] text[i])
            != c by {
            if i < less.len() {
                assert(less[i] == text[i]);
            }
        }
    }
}

proof fn lemma_first(text: Seq<char>, c: char)
    ensures
        0 <= first_place(text, c) <= text.len(),
        first_place(text, c) < text.len() ==> text[first_place(text, c)] == c,
        forall|i: int| 0 <= i < first_place(text, c) ==> (#[trigger] text[i]) != c,
    decreases text.len(),
{
    if text.len() > 0 && text[0] != c {
        let less = text.drop_first();
        lemma_first(less, c);
        assert forall|i: int| 0 <= i < first_place(text, c) implies (#[trigger] text[i]) != c by {
            if i > 0 {
                assert(less[i - 1] == text[i]);
            }
        }
    }
}

/// The place past the last of a character has the character before it and none after
/// it; 0 where the text has none.
pub proof fn past_the_last_there_is_none(text: &Vec<char>, c: char, r: usize)
    requires
        call_ensures(past_last, (text, c), r),
    ensures
        r <= text.len(),
        r > 0 ==> text[r - 1] == c,
        forall|i: int| r <= i < text.len() ==> (#[trigger] text[i]) != c,
{
    lemma_places(text@, c);
}

/// The place that is found has the character, and none before it has from the start
/// on; the end where there is none.
pub proof fn before_the_first_there_is_none(text: &Vec<char>, start: usize, c: char, r: usize)
    requires
        call_ensures(find_from, (text, start, c), r),
        start <= text.len(),
    ensures
        start <= r <= text.len(),
        r < text.len() ==> text[r as int] == c,
        forall|i: int| start <= i < r ==> (#[trigger] text[i]) != c,
{
    let rest = text@.skip(start as int);
    lemma_first(rest, c);
    assert forall|i: int| start <= i < r implies (#[trigger] text[i]) != c by {
        assert(rest[i - start] == text[i]);
    }
}

/// The hexadecimal digits are 0 to 9, and the letters a to f in either case for 10
/// to 15.
pub proof fn the_hexadecimal_digits(c: char, r: Option<u32>)
    requires
        call_ensures(hex_digit_of, (c,), r),
    ensures
        '0' <= c <= '9' ==> r == Some((c as int - '0' as int) as u32),
        'a' <= c <= 'f' ==> r == Some((c as int - 'a' as int + 10) as u32),
        'A' <= c <= 'F' ==> r == Some((c as int - 'A' as int + 10) as u32),
        !('0' <= c <= '9') && !('a' <= c <= 'f') && !('A' <= c <= 'F') ==> r is None,
{
}

/// One more digit counts once, and those before it sixteen times what they did. A
/// character that is no digit leaves no number.
pub proof fn each_hexadecimal_digit_counts(
    text: &Vec<char>,
    start: usize,
    width: usize,
    more: usize,
    a: Option<u32>,
    b: Option<u32>,
    d: Option<u32>,
)
    requires
        start + width < text.len(),
        width < 8,
        more == width + 1,
        call_ensures(parse_hex, (text, start, width), a),
        call_ensures(parse_hex, (text, start, more), b),
        call_ensures(hex_digit_of, (text[start + width],), d),
    ensures
        width == 0 ==> a == Some(0u32),
        b is Some <==> a is Some && d is Some,
        b is Some ==> b->0 == a->0 * 16 + d->0,
{
    let less = text@.subrange(start as int, start + width);
    let all = text@.subrange(start as int, start + more);
    assert(all.drop_last() =~= less);
    assert(all.last() == text[start + width]);
    assert forall|i: int| 0 <= i < less.len() implies less[i] == #[trigger] all[i] by {}
    if b is Some {
        assert forall|i: int| 0 <= i < less.len() implies hex_value(#[trigger] less[i]) >= 0 by {
            assert(hex_value(all[i]) >= 0);
        }
        assert(hex_value(all[all.len() - 1]) >= 0);
    }
    if a is Some && d is Some {
        assert forall|i: int| 0 <= i < all.len() implies hex_value(#[trigger] all[i]) >= 0 by {
            if i < less.len() {
                assert(hex_value(less[i]) >= 0);
            }
        }
    }
}

/// Texts stand in the order of a dictionary: one that goes on where the other ends
/// comes after it, and where they first differ the one with the lower character
/// comes first.
pub proof fn texts_stand_in_dictionary_order(a: &String, b: &String, k: int, r: Place)
    requires
        call_ensures(String::place, (a, b), r),
        0 <= k <= a@.len(),
        k <= b@.len(),
        a@.take(k) == b@.take(k),
    ensures
        k == a@.len() && k < b@.len() ==> r is Before,
        k < a@.len() && k == b@.len() ==> r is After,
        k < a@.len() && k < b@.len() && a@[k] < b@[k] ==> r is Before,
        k < a@.len() && k < b@.len() && a@[k] > b@[k] ==> r is After,
        k == a@.len() && k == b@.len() ==> r is Same,
{
    assert forall|i: int| 0 <= i < k implies a@[i] == b@[i] by {
        assert(a@.take(k)[i] == a@[i] && b@.take(k)[i] == b@[i]);
    }
    if k == a@.len() && k == b@.len() {
        assert(a@ =~= b@);
    } else if k < b@.len() && (k == a@.len() || a@[k] < b@[k]) {
        assert(first_at(char_order(), a@, b@, k));
    } else if k < a@.len() && (k == b@.len() || b@[k] < a@[k]) {
        assert(first_at(char_order(), b@, a@, k));
    }
}

} // verus!
