//! What the interactive layer reads from its user: a menu choice, or a list
//! of items separated by commas.

use crate::text::chars_of;
use crate::text::string_of;
use crate::text::texts;
use vstd::prelude::*;

verus! {

/// Whether `c` is white space: one of the twenty-five characters that have
/// Unicode's `White_Space` property.
pub open spec fn is_whitespace_char(c: char) -> bool {
    let code = c as u32;
    ||| 0x0009 <= code <= 0x000d
    ||| code == 0x0020
    ||| code == 0x0085
    ||| code == 0x00a0
    ||| code == 0x1680
    ||| 0x2000 <= code <= 0x200a
    ||| code == 0x2028
    ||| code == 0x2029
    ||| code == 0x202f
    ||| code == 0x205f
    ||| code == 0x3000
}

/// Whether `c` is white space.
pub fn is_whitespace(c: char) -> (white: bool)
    ensures
        white == is_whitespace_char(c),
{
    let code: u32 = c as u32;
    (0x0009 <= code && code <= 0x000d) || code == 0x0020 || code == 0x0085 || code == 0x00a0
        || code == 0x1680 || (0x2000 <= code && code <= 0x200a) || code == 0x2028 || code
        == 0x2029 || code == 0x202f || code == 0x205f || code == 0x3000
}

/// `s` without the white space that opens it.
pub open spec fn trim_start_of(s: Seq<char>) -> Seq<char>
    decreases s.len(),
{
    if s.len() > 0 && is_whitespace_char(s[0]) {
        trim_start_of(s.skip(1))
    } else {
        s
    }
}

/// `s` without the white space that closes it.
pub open spec fn trim_end_of(s: Seq<char>) -> Seq<char>
    decreases s.len(),
{
    if s.len() > 0 && is_whitespace_char(s.last()) {
        trim_end_of(s.drop_last())
    } else {
        s
    }
}

/// `s` without the white space around it.
pub open spec fn trimmed(s: Seq<char>) -> Seq<char> {
    trim_end_of(trim_start_of(s))
}

/// The pieces of `s` between its commas; there is always at least one.
pub open spec fn pieces(s: Seq<char>) -> Seq<Seq<char>>
    decreases s.len(),
{
    if s.len() == 0 {
        seq![Seq::<char>::empty()]
    } else {
        let earlier = pieces(s.drop_last());
        if s.last() == ',' {
            earlier.push(Seq::<char>::empty())
        } else {
            earlier.drop_last().push(earlier.last().push(s.last()))
        }
    }
}

/// The pieces trimmed, without those that trimming leaves empty.
pub open spec fn kept_items(list: Seq<Seq<char>>) -> Seq<Seq<char>>
    decreases list.len(),
{
    if list.len() == 0 {
        Seq::empty()
    } else if trimmed(list.last()).len() > 0 {
        kept_items(list.drop_last()).push(trimmed(list.last()))
    } else {
        kept_items(list.drop_last())
    }
}

/// The items of a comma-separated list: its pieces, each trimmed, the empty
/// ones left out.
pub open spec fn list_items(input: Seq<char>) -> Seq<Seq<char>> {
    kept_items(pieces(input))
}

/// What opens with white space up to `k` and goes on otherwise trims at the
/// start to what follows `k`.
proof fn lemma_trim_start(s: Seq<char>, k: int)
    requires
        0 <= k <= s.len(),
        forall|i: int| 0 <= i < k ==> is_whitespace_char(#[trigger] s[i]),
        k == s.len() || !is_whitespace_char(s[k]),
    ensures
        trim_start_of(s) == s.skip(k),
    decreases k,
{
    if k == 0 {
        assert(s.skip(0) =~= s);
    } else {
        let rest = s.skip(1);
        assert forall|i: int| 0 <= i < k - 1 implies is_whitespace_char(#[trigger] rest[i]) by {
            assert(rest[i] == s[i + 1]);
        }
        lemma_trim_start(rest, k - 1);
        assert(rest.skip(k - 1) =~= s.skip(k));
    }
}

/// What closes with white space from `k` on and ends otherwise before it
/// trims at the end to what precedes `k`.
proof fn lemma_trim_end(s: Seq<char>, k: int)
    requires
        0 <= k <= s.len(),
        forall|i: int| k <= i < s.len() ==> is_whitespace_char(#[trigger] s[i]),
        k == 0 || !is_whitespace_char(s[k - 1]),
    ensures
        trim_end_of(s) == s.take(k),
    decreases s.len() - k,
{
    if k == s.len() {
        assert(s.take(k) =~= s);
    } else {
        let rest = s.drop_last();
        lemma_trim_end(rest, k);
        assert(rest.take(k) =~= s.take(k));
    }
}

/// The characters without the white space around them.
fn trim_chars(chars: &Vec<char>) -> (kept: Vec<char>)
    ensures
        kept@ == trimmed(chars@),
{
    let mut start: usize = 0;
    while start < chars.len() && is_whitespace(chars[start])
        invariant
            start <= chars.len(),
            forall|i: int| 0 <= i < start ==> is_whitespace_char(#[trigger] chars@[i]),
        decreases chars.len() - start,
    {
        start = start + 1;
    }
    let mut end: usize = chars.len();
    while end > start && is_whitespace(chars[end - 1])
        invariant
            start <= end <= chars.len(),
            forall|i: int| end <= i < chars.len() ==> is_whitespace_char(#[trigger] chars@[i]),
        decreases end - start,
    {
        end = end - 1;
    }
    let mut kept: Vec<char> = Vec::new();
    let mut i: usize = start;
    while i < end
        invariant
            start <= i <= end,
            end <= chars.len(),
            kept@ == chars@.subrange(start as int, i as int),
        decreases end - i,
    {
        kept.push(chars[i]);
        i = i + 1;
    }
    proof {
        let front = chars@.skip(start as int);
        lemma_trim_start(chars@, start as int);
        assert forall|j: int| end - start <= j < front.len() implies is_whitespace_char(
            #[trigger] front[j],
        ) by {
            assert(front[j] == chars@[j + start]);
        }
        if end > start {
            assert(front[end - start - 1] == chars@[end - 1]);
        }
        lemma_trim_end(front, end - start);
        assert(front.take(end - start) =~= chars@.subrange(start as int, end as int));
    }
    kept
}

/// `text` without the white space around it.
pub fn trim(text: &str) -> (kept: String)
    ensures
        kept@ == trimmed(text@),
{
    let chars = chars_of(text);
    let kept = trim_chars(&chars);
    string_of(&kept)
}

/// The items of a comma-separated list: what stands between the commas,
/// each item without the white space around it, the empty ones left out.
pub fn split_list(input: &str) -> (items: Vec<String>)
    ensures
        texts(items@) == list_items(input@),
        forall|i: int| 0 <= i < items.len() ==> (#[trigger] items@[i])@.len() > 0,
{
    let chars = chars_of(input);
    let mut items: Vec<String> = Vec::new();
    let mut piece: Vec<char> = Vec::new();
    let mut i: usize = 0;
    assert(texts(items@) =~= Seq::<Seq<char>>::empty());
    assert(pieces(chars@.take(0)) =~= seq![piece@]);
    assert(pieces(chars@.take(0)).drop_last() =~= Seq::<Seq<char>>::empty());
    while i < chars.len()
        invariant
            i <= chars.len(),
            chars@ == input@,
            pieces(chars@.take(i as int)).len() > 0,
            pieces(chars@.take(i as int)).last() == piece@,
            texts(items@) == kept_items(pieces(chars@.take(i as int)).drop_last()),
            forall|j: int| 0 <= j < items.len() ==> (#[trigger] items@[j])@.len() > 0,
        decreases chars.len() - i,
    {
        let ghost earlier = pieces(chars@.take(i as int));
        let ghost before = items@;
        proof {
            assert(chars@.take(i + 1).drop_last() =~= chars@.take(i as int));
            assert(chars@.take(i + 1).last() == chars@[i as int]);
        }
        if chars[i] == ',' {
            let kept = trim_chars(&piece);
            if kept.len() > 0 {
                let item = string_of(&kept);
                items.push(item);
                assert(texts(items@) =~= texts(before).push(item@));
            }
            piece = Vec::new();
            proof {
                let now = pieces(chars@.take(i + 1));
                assert(now == earlier.push(Seq::<char>::empty()));
                assert(now.drop_last() =~= earlier);
                assert(earlier.drop_last().push(earlier.last()) =~= earlier);
            }
        } else {
            piece.push(chars[i]);
            proof {
                let now = pieces(chars@.take(i + 1));
                assert(now.drop_last() =~= earlier.drop_last());
            }
        }
        i = i + 1;
    }
    let ghost all = pieces(chars@);
    let ghost before = items@;
    assert(chars@.take(i as int) =~= chars@);
    let kept = trim_chars(&piece);
    if kept.len() > 0 {
        let item = string_of(&kept);
        items.push(item);
        assert(texts(items@) =~= texts(before).push(item@));
    }
    proof {
        assert(all.drop_last().push(all.last()) =~= all);
    }
    items
}

/// What the user chose from the main menu.
#[derive(Debug, Clone, Copy, PartialEq, Eq, Structural)]
pub enum MenuChoice {
    Parser,
    VulnScanner,
    KeywordGenerator,
    DorkGenerator,
    DorkChecker,
    Exit,
    /// Anything else.
    Invalid,
}

/// The choice that a line stands for: the white space around it apart, `1`
/// to `5` pick a feature and `6` leaves.
pub open spec fn choice_of(line: Seq<char>) -> MenuChoice {
    let word = trimmed(line);
    if word == seq!['1'] {
        MenuChoice::Parser
    } else if word == seq!['2'] {
        MenuChoice::VulnScanner
    } else if word == seq!['3'] {
        MenuChoice::KeywordGenerator
    } else if word == seq!['4'] {
        MenuChoice::DorkGenerator
    } else if word == seq!['5'] {
        MenuChoice::DorkChecker
    } else if word == seq!['6'] {
        MenuChoice::Exit
    } else {
        MenuChoice::Invalid
    }
}

/// The choice that a line stands for.
pub fn parse_choice(line: &str) -> (choice: MenuChoice)
    ensures
        choice == choice_of(line@),
{
    let chars = chars_of(line);
    let word = trim_chars(&chars);
    if word.len() != 1 {
        return MenuChoice::Invalid;
    }
    let c = word[0];
    assert(word@ =~= seq![c]);
    if c == '1' {
        MenuChoice::Parser
    } else if c == '2' {
        MenuChoice::VulnScanner
    } else if c == '3' {
        MenuChoice::KeywordGenerator
    } else if c == '4' {
        MenuChoice::DorkGenerator
    } else if c == '5' {
        MenuChoice::DorkChecker
    } else if c == '6' {
        MenuChoice::Exit
    } else {
        MenuChoice::Invalid
    }
}

} // verus!
