//! String helpers shared by the request builders and extractors.

use vstd::prelude::*;
use vstd::string::StringExecFns;
use vstd::utf8::decode_utf8;
use vstd::utf8::encode_utf8;

verus! {

/// The character sequences held by a sequence of strings.
pub open spec fn texts(items: Seq<String>) -> Seq<Seq<char>> {
    items.map_values(|s: String| s@)
}

/// `String::push` appends one character to the end of the string.
pub assume_specification[ String::push ](s: &mut String, c: char)
    ensures
        final(s)@ == old(s)@.push(c),
;

/// Whether the two hold the same characters in the same order. The bytes
/// are compared: two texts have the same UTF-8 form exactly when they are
/// the same.
pub fn same_text(a: &str, b: &str) -> (same: bool)
    ensures
        same == (a@ == b@),
{
    broadcast use vstd::utf8::encode_utf8_decode_utf8;

    let left = a.as_bytes();
    let right = b.as_bytes();
    if left.len() != right.len() {
        return false;
    }
    let mut i: usize = 0;
    while i < left.len()
        invariant
            i <= left.len(),
            left.len() == right.len(),
            left@ == encode_utf8(a@),
            right@ == encode_utf8(b@),
            forall|j: int| 0 <= j < i ==> left@[j] == right@[j],
        decreases left.len() - i,
    {
        if left[i] != right[i] {
            return false;
        }
        i = i + 1;
    }
    proof {
        assert(left@ =~= right@);
        assert(decode_utf8(encode_utf8(a@)) == a@);
        assert(decode_utf8(encode_utf8(b@)) == b@);
    }
    true
}

/// The characters of `s`, in order.
pub fn chars_of(s: &str) -> (chars: Vec<char>)
    ensures
        chars@ == s@,
{
    broadcast use vstd::string::group_string_axioms;

    let mut chars: Vec<char> = Vec::new();
    for c in it: s.chars()
        invariant
            it.seq() == s@,
            chars@ == s@.take(it.index()),
    {
        chars.push(c);
    }
    chars
}

/// The string made of `chars`, in order.
pub fn string_of(chars: &Vec<char>) -> (s: String)
    ensures
        s@ == chars@,
{
    let mut s = String::new();
    let mut i: usize = 0;
    while i < chars.len()
        invariant
            i <= chars.len(),
            s@ == chars@.take(i as int),
        decreases chars.len() - i,
    {
        s.push(chars[i]);
        i = i + 1;
    }
    s
}

/// `a` followed by `b`.
pub fn appended(a: &str, b: &str) -> (s: String)
    ensures
        s@ == a@ + b@,
{
    let mut s = String::from_str(a);
    s.append(b);
    s
}

/// The decimal digit for `d`, where `d` is below ten.
pub open spec fn digit(d: nat) -> char {
    (48 + d) as char
}

/// The decimal numeral for `n`, without leading zeros.
pub open spec fn decimal(n: nat) -> Seq<char>
    decreases n,
{
    if n < 10 {
        seq![digit(n)]
    } else {
        decimal(n / 10).push(digit(n % 10))
    }
}

/// Appends the decimal numeral for `n` to `out`.
pub fn push_decimal(out: &mut String, n: u64)
    ensures
        final(out)@ == old(out)@ + decimal(n as nat),
    decreases n,
{
    if n >= 10 {
        push_decimal(out, n / 10);
    }
    let d: u8 = (n % 10) as u8;
    let c: char = (48u8 + d) as char;
    out.push(c);
}

/// Whether `pattern` stands in `text` at position `at`.
pub open spec fn occurs_at(text: Seq<char>, pattern: Seq<char>, at: int) -> bool {
    &&& 0 <= at
    &&& at + pattern.len() <= text.len()
    &&& text.subrange(at, at + pattern.len()) == pattern
}

/// `text` with each occurrence of `placeholder` replaced by `value`.
/// Occurrences are found from left to right and do not overlap; an empty
/// placeholder occurs nowhere.
pub open spec fn substituted(text: Seq<char>, placeholder: Seq<char>, value: Seq<char>) -> Seq<char>
    decreases text.len(),
{
    if placeholder.len() == 0 || text.len() == 0 {
        text
    } else if occurs_at(text, placeholder, 0) {
        value + substituted(text.skip(placeholder.len() as int), placeholder, value)
    } else {
        seq![text[0]] + substituted(text.skip(1), placeholder, value)
    }
}

/// Whether `pattern` stands in `text` at position `at`.
fn matches_at(text: &Vec<char>, pattern: &Vec<char>, at: usize) -> (found: bool)
    requires
        at <= text.len(),
    ensures
        found == occurs_at(text@, pattern@, at as int),
{
    if pattern.len() > text.len() - at {
        return false;
    }
    let mut k: usize = 0;
    while k < pattern.len()
        invariant
            k <= pattern.len(),
            at + pattern.len() <= text.len(),
            forall|j: int| 0 <= j < k ==> text@[at + j] == pattern@[j],
        decreases pattern.len() - k,
    {
        if text[at + k] != pattern[k] {
            assert(text@.subrange(at as int, at + pattern.len())[k as int] != pattern@[k as int]);
            return false;
        }
        k = k + 1;
    }
    assert(text@.subrange(at as int, at + pattern.len()) =~= pattern@);
    true
}

/// Replaces each occurrence of `placeholder` in `text` by `value`.
pub fn substitute(text: &str, placeholder: &str, value: &str) -> (out: String)
    ensures
        out@ == substituted(text@, placeholder@, value@),
{
    let pattern = chars_of(placeholder);
    if pattern.len() == 0 {
        return String::from_str(text);
    }
    let source = chars_of(text);
    let mut out = String::new();
    let mut i: usize = 0;
    assert(source@.skip(0) =~= source@);
    while i < source.len()
        invariant
            i <= source.len(),
            pattern@ == placeholder@,
            pattern@.len() > 0,
            source@ == text@,
            out@ + substituted(source@.skip(i as int), pattern@, value@) == substituted(
                source@,
                pattern@,
                value@,
            ),
        decreases source.len() - i,
    {
        let ghost rest = source@.skip(i as int);
        if matches_at(&source, &pattern, i) {
            assert(rest.subrange(0, pattern@.len() as int) =~= source@.subrange(
                i as int,
                i + pattern@.len(),
            ));
            assert(rest.skip(pattern@.len() as int) =~= source@.skip(i + pattern@.len()));
            out.append(value);
            i = i + pattern.len();
        } else {
            proof {
                if i + pattern@.len() <= source@.len() {
                    assert(rest.subrange(0, pattern@.len() as int) =~= source@.subrange(
                        i as int,
                        i + pattern@.len(),
                    ));
                }
            }
            assert(rest.skip(1) =~= source@.skip(i + 1));
            out.push(source[i]);
            i = i + 1;
        }
    }
    assert(source@.skip(i as int) =~= Seq::<char>::empty());
    out
}

/// Whether `c` is one of the ten ASCII digits.
pub open spec fn is_digit(c: char) -> bool {
    '0' <= c <= '9'
}

/// The digits of `text`, in order: every other character is left out.
pub open spec fn digits_of(text: Seq<char>) -> Seq<char> {
    text.filter(|c: char| is_digit(c))
}

/// What `digits_of` keeps is made of digits only.
pub proof fn lemma_digits_of_all_digits(text: Seq<char>)
    ensures
        all_digits(digits_of(text)),
{
    let keep = |c: char| is_digit(c);
    assert forall|i: int| 0 <= i < digits_of(text).len() implies is_digit(
        #[trigger] digits_of(text)[i],
    ) by {
        text.lemma_filter_pred(keep, i);
    }
}

/// Strips every character that is no digit.
pub fn digits_only(text: &str) -> (kept: String)
    ensures
        kept@ == digits_of(text@),
        all_digits(kept@),
{
    broadcast use vstd::string::group_string_axioms;

    let ghost keep = |c: char| is_digit(c);
    let mut kept = String::new();
    assert(text@.take(0).filter(keep) =~= Seq::<char>::empty()) by {
        reveal(Seq::filter);
    }
    for c in it: text.chars()
        invariant
            it.seq() == text@,
            keep == (|c: char| is_digit(c)),
            kept@ == text@.take(it.index()).filter(keep),
    {
        proof {
            assert(text@.take(it.index() + 1) =~= text@.take(it.index()).push(c));
            text@.take(it.index()).lemma_filter_push(c, keep);
        }
        if '0' <= c && c <= '9' {
            kept.push(c);
        }
    }
    proof {
        assert(text@.take(text@.len() as int) =~= text@);
        lemma_digits_of_all_digits(text@);
    }
    kept
}

/// Whether `s` is made of ASCII digits only.
pub open spec fn all_digits(s: Seq<char>) -> bool {
    forall|i: int| 0 <= i < s.len() ==> is_digit(#[trigger] s[i])
}

/// The number that the digits `s` write in base ten.
pub open spec fn digits_value(s: Seq<char>) -> nat
    decreases s.len(),
{
    if s.len() == 0 {
        0
    } else {
        (digits_value(s.drop_last()) * 10 + (s.last() as nat - 48)) as nat
    }
}

/// The count that `s` writes: a number where `s` is a non-empty run of
/// ASCII digits whose value fits in 32 bits, nothing otherwise.
pub open spec fn parsed_count(s: Seq<char>) -> Option<u32> {
    if s.len() > 0 && all_digits(s) && digits_value(s) <= u32::MAX {
        Some(digits_value(s) as u32)
    } else {
        None
    }
}

/// The value of the digits read so far never exceeds the value of all.
pub proof fn lemma_digits_value_grows(s: Seq<char>, i: int)
    requires
        all_digits(s),
        0 <= i <= s.len(),
    ensures
        digits_value(s.take(i)) <= digits_value(s),
    decreases s.len() - i,
{
    if i == s.len() {
        assert(s.take(i) =~= s);
    } else {
        lemma_digits_value_grows(s, i + 1);
        assert(s.take(i + 1).drop_last() =~= s.take(i));
        assert(is_digit(s[i]));
    }
}

/// Reads a count written in ASCII digits.
pub fn parse_count(digits: &str) -> (count: Option<u32>)
    ensures
        count == parsed_count(digits@),
{
    broadcast use vstd::string::group_string_axioms;

    let mut value: u64 = 0;
    let mut any = false;
    for c in it: digits.chars()
        invariant
            it.seq() == digits@,
            any == (it.index() > 0),
            all_digits(digits@.take(it.index())),
            value == digits_value(digits@.take(it.index())),
            value <= u32::MAX,
    {
        let ghost done = it.index();
        proof {
            assert(digits@.take(done + 1).drop_last() =~= digits@.take(done));
            assert(digits@.take(done + 1).last() == c);
        }
        if c < '0' || c > '9' {
            assert(!is_digit(digits@[done]));
            return None;
        }
        let d: u64 = (c as u32 - 48) as u64;
        value = value * 10 + d;
        if value > 0xffff_ffff {
            proof {
                if all_digits(digits@) {
                    lemma_digits_value_grows(digits@, done + 1);
                }
            }
            return None;
        }
        any = true;
        assert forall|i: int| 0 <= i < done + 1 implies is_digit(
            #[trigger] digits@.take(done + 1)[i],
        ) by {
            if i < done {
                assert(digits@.take(done)[i] == digits@.take(done + 1)[i]);
            }
        }
    }
    proof {
        assert(digits@.take(digits@.len() as int) =~= digits@);
    }
    if any {
        Some(value as u32)
    } else {
        None
    }
}

} // verus!
