//! Building display text from characters and numbers.

use vstd::prelude::*;

verus! {

/// Appends one character to `text` by calling `String::push`, whose
/// documented effect this contract states without proof: the new text is
/// the old one with `c` at its end.
#[verifier::external_body]
pub(crate) fn push_char(text: &mut String, c: char)
    ensures
        final(text)@ == old(text)@.push(c),
{
    text.push(c);
}

/// The ASCII digit for `d`, for `d < 10`.
pub open spec fn digit_char(d: nat) -> char {
    (d + 48) as char
}

/// The decimal numeral of `n`, as Rust's `{}` formatting writes it.
pub open spec fn decimal(n: nat) -> Seq<char>
    decreases n,
{
    if n < 10 {
        seq![digit_char(n)]
    } else {
        decimal(n / 10).push(digit_char(n % 10))
    }
}

/// `n` written with exactly two digits, padded with a leading zero (`{:02}`), for `n < 100`.
pub open spec fn two_digits(n: nat) -> Seq<char> {
    seq![digit_char(n / 10), digit_char(n % 10)]
}

/// `q / 10^1` written with one decimal place.
pub open spec fn fixed1(q: nat) -> Seq<char> {
    decimal(q / 10) + seq!['.', digit_char(q % 10)]
}

/// `q / 10^2` written with two decimal places.
pub open spec fn fixed2(q: nat) -> Seq<char> {
    decimal(q / 100) + seq!['.'] + two_digits(q % 100)
}

/// The ASCII digit character for a value below ten.
pub fn digit(d: u64) -> (c: char)
    requires
        d < 10,
    ensures
        c == digit_char(d as nat),
{
    let b: u8 = (d as u8) + 48;
    b as char
}

/// Appends the decimal numeral of `n`.
pub fn push_decimal(text: &mut String, n: u64)
    ensures
        final(text)@ == old(text)@ + decimal(n as nat),
    decreases n,
{
    if n >= 10 {
        push_decimal(text, n / 10);
    }
    push_char(text, digit(n % 10));
    proof {
        if n >= 10 {
            assert(old(text)@ + decimal(n as nat) == old(text)@ + decimal((n / 10) as nat) + seq![digit_char((n % 10) as nat)]);
        } else {
            assert(decimal(n as nat) == seq![digit_char(n as nat)]);
        }
    }
}

/// The decimal numeral of `n` (`n.to_string()`).
pub fn decimal_string(n: u64) -> (r: String)
    ensures
        r@ == decimal(n as nat),
{
    let mut text = String::new();
    push_decimal(&mut text, n);
    assert(text@ == Seq::<char>::empty() + decimal(n as nat));
    text
}

/// Appends `n` with two digits, zero padded.
pub fn push_two_digits(text: &mut String, n: u64)
    requires
        n < 100,
    ensures
        final(text)@ == old(text)@ + two_digits(n as nat),
{
    push_char(text, digit(n / 10));
    push_char(text, digit(n % 10));
}

/// Appends `q / 10` with one decimal place.
pub fn push_fixed1(text: &mut String, q: u64)
    ensures
        final(text)@ == old(text)@ + fixed1(q as nat),
{
    push_decimal(text, q / 10);
    push_char(text, '.');
    push_char(text, digit(q % 10));
    assert(final(text)@ == old(text)@ + fixed1(q as nat));
}

/// Appends `q / 100` with two decimal places.
pub fn push_fixed2(text: &mut String, q: u64)
    ensures
        final(text)@ == old(text)@ + fixed2(q as nat),
{
    push_decimal(text, q / 100);
    push_char(text, '.');
    push_two_digits(text, q % 100);
    assert(final(text)@ == old(text)@ + fixed2(q as nat));
}

} // verus!

verus! {

/// The characters of `s`, in order.
pub fn chars_of(s: &str) -> (r: Vec<char>)
    ensures
        r@ == s@,
{
    let mut out: Vec<char> = Vec::new();
    let ghost chars = s@;
    for c in it: s.chars()
        invariant
            it.seq() == chars,
            out@ == chars.take(it.index() as int),
    {
        proof {
            assert(chars.take(it.index() + 1) == chars.take(it.index() as int).push(c));
        }
        out.push(c);
    }
    proof {
        assert(chars.take(chars.len() as int) == chars);
    }
    out
}

/// Appends the characters `chars[from..to]`.
pub fn push_chars(text: &mut String, chars: &Vec<char>, from: usize, to: usize)
    requires
        from <= to <= chars.len(),
    ensures
        final(text)@ == old(text)@ + chars@.subrange(from as int, to as int),
{
    let mut i = from;
    while i < to
        invariant
            from <= i <= to <= chars.len(),
            text@ == old(text)@ + chars@.subrange(from as int, i as int),
        decreases to - i,
    {
        proof {
            assert(chars@.subrange(from as int, i + 1) == chars@.subrange(from as int, i as int).push(chars@[i as int]));
        }
        push_char(text, chars[i]);
        i = i + 1;
    }
}

/// A string holding `chars[from..to]`.
pub fn string_of(chars: &Vec<char>, from: usize, to: usize) -> (r: String)
    requires
        from <= to <= chars.len(),
    ensures
        r@ == chars@.subrange(from as int, to as int),
{
    let mut text = String::new();
    push_chars(&mut text, chars, from, to);
    assert(text@ == Seq::<char>::empty() + chars@.subrange(from as int, to as int));
    text
}

/// Whether `text` spells exactly `word`.
pub fn spells(text: &String, word: &str) -> (r: bool)
    ensures
        r == (text@ == word@),
{
    let other = word.to_owned();
    *text == other
}

} // verus!

verus! {

/// Whether `needle` occurs in `haystack` starting at position `at`.
pub open spec fn occurs_at<T>(haystack: Seq<T>, needle: Seq<T>, at: int) -> bool {
    0 <= at && at + needle.len() <= haystack.len() && forall|j: int|
        0 <= j < needle.len() ==> #[trigger] haystack[at + j] == needle[j]
}

/// Whether `needle` occurs anywhere in `haystack`.
pub open spec fn occurs_in<T>(haystack: Seq<T>, needle: Seq<T>) -> bool {
    exists|at: int| occurs_at(haystack, needle, at)
}

/// Whether `needle` occurs in `haystack` (`str::contains` on text).
pub fn contains_text(haystack: &str, needle: &str) -> (r: bool)
    ensures
        r == occurs_in(haystack@, needle@),
{
    let h = chars_of(haystack);
    let n = chars_of(needle);
    if n.len() > h.len() {
        assert(!occurs_in(haystack@, needle@)) by {
            if occurs_in(haystack@, needle@) {
                let at = choose|at: int| occurs_at(haystack@, needle@, at);
            }
        }
        return false;
    }
    let mut at: usize = 0;
    while at <= h.len() - n.len()
        invariant
            h@ == haystack@,
            n@ == needle@,
            n.len() <= h.len(),
            at <= h.len() - n.len() + 1,
            forall|k: int| 0 <= k < at ==> !occurs_at(h@, n@, k),
        decreases h.len() - at,
    {
        let mut j: usize = 0;
        let mut matched = true;
        while j < n.len()
            invariant
                at + n.len() <= h.len(),
                j <= n.len(),
                matched ==> forall|i: int| 0 <= i < j ==> h@[at + i] == n@[i],
                !matched ==> !occurs_at(h@, n@, at as int),
            decreases n.len() - j,
        {
            if h[at + j] != n[j] {
                matched = false;
            }
            j = j + 1;
        }
        if matched {
            assert(occurs_at(h@, n@, at as int));
            return true;
        }
        at = at + 1;
    }
    assert(!occurs_in(haystack@, needle@)) by {
        if occurs_in(haystack@, needle@) {
            let k = choose|k: int| occurs_at(haystack@, needle@, k);
            assert(!occurs_at(h@, n@, k));
        }
    }
    false
}

} // verus!
