//! Operations on text that the rest of the library is stated with.

use vstd::prelude::*;
use vstd::string::*;

verus! {

/// The characters with the Unicode property White_Space.
pub open spec fn is_white_space(c: char) -> bool {
    let n = c as int;
    ||| 0x9 <= n <= 0xD
    ||| n == 0x20
    ||| n == 0x85
    ||| n == 0xA0
    ||| n == 0x1680
    ||| 0x2000 <= n <= 0x200A
    ||| n == 0x2028
    ||| n == 0x2029
    ||| n == 0x202F
    ||| n == 0x205F
    ||| n == 0x3000
}

/// `s` without the white space at its two ends.
pub open spec fn trimmed(s: Seq<char>) -> Seq<char>
    decreases s.len(),
{
    if s.len() == 0 {
        s
    } else if is_white_space(s.first()) {
        trimmed(s.drop_first())
    } else if is_white_space(s.last()) {
        trimmed(s.drop_last())
    } else {
        s
    }
}

/// `c`, or the small letter where `c` is a capital letter of ASCII.
pub open spec fn ascii_lower(c: char) -> char {
    if 'A' <= c && c <= 'Z' {
        (c as int + 32) as char
    } else {
        c
    }
}

/// `part` stands somewhere in `whole`.
pub open spec fn holds_text(whole: Seq<char>, part: Seq<char>) -> bool {
    exists|i: int|
        0 <= i && i + part.len() <= whole.len() && #[trigger] whole.subrange(
            i,
            i + part.len(),
        ) == part
}

/// `str::trim` returns the text without leading and trailing white space, where white space
/// is what the Unicode property White_Space says.
pub assume_specification[ str::trim ](text: &str) -> (result: &str)
    ensures
        result@ == trimmed(text@),
;

/// `str::to_ascii_lowercase` maps the letters A to Z to a to z and leaves every other
/// character alone.
pub assume_specification[ str::to_ascii_lowercase ](text: &str) -> (result: String)
    ensures
        result@ == text@.map_values(|c: char| ascii_lower(c)),
;

/// `str::contains` with a string as its pattern says whether that string stands somewhere in
/// the text.
#[verifier::external_body]
fn contains_text(whole: &str, part: &str) -> (found: bool)
    ensures
        found == holds_text(whole@, part@),
{
    whole.contains(part)
}

/// The two texts are the same.
pub fn same_text(a: &String, b: &str) -> (same: bool)
    ensures
        same == (a@ == b@),
{
    *a == b.to_owned()
}

/// `text` holds `part`, letters of ASCII compared without regard to case; `part` itself is
/// written in small letters.
pub open spec fn mentions(text: Seq<char>, part: Seq<char>) -> bool {
    holds_text(text.map_values(|c: char| ascii_lower(c)), part)
}

pub fn text_mentions(text: &String, part: &str) -> (found: bool)
    ensures
        found == mentions(text@, part@),
{
    let lower = text.as_str().to_ascii_lowercase();
    contains_text(lower.as_str(), part)
}

/// The texts one after the other, with `separator` between them.
pub open spec fn joined(texts: Seq<Seq<char>>, separator: Seq<char>) -> Seq<char>
    decreases texts.len(),
{
    if texts.len() == 0 {
        seq![]
    } else if texts.len() == 1 {
        texts[0]
    } else {
        joined(texts.drop_last(), separator) + separator + texts.last()
    }
}

/// What the strings of a vector hold.
pub open spec fn texts_of(texts: Seq<String>) -> Seq<Seq<char>> {
    texts.map_values(|t: String| t@)
}

/// What an optional string holds.
pub open spec fn text_of(text: Option<String>) -> Option<Seq<char>> {
    match text {
        Some(t) => Some(t@),
        None => None,
    }
}

pub fn join_texts(texts: &Vec<String>, separator: &str) -> (result: String)
    ensures
        result@ == joined(texts_of(texts@), separator@),
{
    let mut result = String::new();
    let mut i: usize = 0;
    let ghost all = texts_of(texts@);
    assert(all.take(0) =~= seq![]);
    while i < texts.len()
        invariant
            i <= texts@.len(),
            all == texts_of(texts@),
            result@ == joined(all.take(i as int), separator@),
        decreases texts@.len() - i,
    {
        proof {
            let next = all.take(i + 1);
            assert(next.drop_last() =~= all.take(i as int));
            assert(next.last() == texts@[i as int]@);
        }
        if i > 0 {
            result.append(separator);
            result.append(texts[i].as_str());
        } else {
            result = texts[i].clone();
        }
        i = i + 1;
    }
    assert(all.take(i as int) =~= all);
    result
}

/// Trimming takes away white space at the two ends and nothing else: what stays starts and ends
/// with something else, or is empty.
pub proof fn trimming_takes_white_space_alone(s: Seq<char>) -> (ends: (int, int))
    ensures
        0 <= ends.0 <= ends.1 <= s.len(),
        trimmed(s) == s.subrange(ends.0, ends.1),
        forall|i: int| 0 <= i < ends.0 ==> is_white_space(#[trigger] s[i]),
        forall|i: int| ends.1 <= i < s.len() ==> is_white_space(#[trigger] s[i]),
        ends.0 < ends.1 ==> !is_white_space(s[ends.0]) && !is_white_space(s[ends.1 - 1]),
    decreases s.len(),
{
    if s.len() == 0 {
        assert(s.subrange(0, 0) =~= s);
        (0, 0)
    } else if is_white_space(s.first()) {
        let rest = s.drop_first();
        let (a, b) = trimming_takes_white_space_alone(rest);
        assert(s.subrange(a + 1, b + 1) =~= rest.subrange(a, b));
        assert forall|i: int| 0 <= i < a + 1 implies is_white_space(#[trigger] s[i]) by {
            if i > 0 {
                assert(rest[i - 1] == s[i]);
            }
        }
        assert forall|i: int| b + 1 <= i < s.len() implies is_white_space(#[trigger] s[i]) by {
            assert(rest[i - 1] == s[i]);
        }
        if a < b {
            assert(rest[a] == s[a + 1]);
            assert(rest[b - 1] == s[b]);
        }
        (a + 1, b + 1)
    } else if is_white_space(s.last()) {
        let rest = s.drop_last();
        let (a, b) = trimming_takes_white_space_alone(rest);
        assert(s.subrange(a, b) =~= rest.subrange(a, b));
        assert forall|i: int| 0 <= i < a implies is_white_space(#[trigger] s[i]) by {
            assert(rest[i] == s[i]);
        }
        assert forall|i: int| b <= i < s.len() implies is_white_space(#[trigger] s[i]) by {
            if i < s.len() - 1 {
                assert(rest[i] == s[i]);
            }
        }
        (a, b)
    } else {
        assert(s.subrange(0, s.len() as int) =~= s);
        (0, s.len() as int)
    }
}

/// A text mentions another where that one stands somewhere in it, capital letters of ASCII
/// counted as small ones.
pub proof fn mentions_are_found_in_any_case(text: Seq<char>, part: Seq<char>)
    ensures
        mentions(text, part) <==> exists|i: int|
            0 <= i && i + part.len() <= text.len() && #[trigger] stands_at(text, part, i),
        forall|c: char|
            #![trigger ascii_lower(c)]
            ascii_lower(c) as int == (if 65 <= c as int <= 90 {
                c as int + 32
            } else {
                c as int
            }),
{
    let lower = text.map_values(|c: char| ascii_lower(c));
    if mentions(text, part) {
        let i = choose|i: int|
            0 <= i && i + part.len() <= lower.len() && #[trigger] lower.subrange(i, i + part.len())
                == part;
        assert forall|j: int| 0 <= j < part.len() implies ascii_lower(text[i + j])
            == #[trigger] part[j] by {
            assert(lower.subrange(i, i + part.len())[j] == lower[i + j]);
        }
        assert(stands_at(text, part, i));
    }
    if exists|i: int|
        0 <= i && i + part.len() <= text.len() && #[trigger] stands_at(text, part, i) {
        let i = choose|i: int|
            0 <= i && i + part.len() <= text.len() && #[trigger] stands_at(text, part, i);
        assert(lower.subrange(i, i + part.len()) =~= part);
    }
}

/// `part` stands in `text` from the character `i` on, in any case.
pub open spec fn stands_at(text: Seq<char>, part: Seq<char>, i: int) -> bool {
    forall|j: int| 0 <= j < part.len() ==> ascii_lower(text[i + j]) == #[trigger] part[j]
}

/// Texts are joined one after the other: two lists joined are the first joined, the separator
/// and the second joined.
pub proof fn joined_lists_are_joined_in_order(
    a: Seq<Seq<char>>,
    b: Seq<Seq<char>>,
    separator: Seq<char>,
)
    requires
        a.len() > 0,
        b.len() > 0,
    ensures
        joined(a + b, separator) == joined(a, separator) + separator + joined(b, separator),
    decreases b.len(),
{
    assert((a + b).drop_last() =~= a + b.drop_last());
    assert((a + b).last() == b.last());
    if b.len() == 1 {
        assert(a + b.drop_last() =~= a);
    } else {
        joined_lists_are_joined_in_order(a, b.drop_last(), separator);
        let (x, y) = (joined(a, separator), joined(b.drop_last(), separator));
        assert((x + separator + y) + separator + b.last() =~= x + separator + (y + separator
            + b.last()));
    }
}

/// A single text is joined to itself, and no text to nothing.
pub proof fn single_texts_are_joined_as_they_are(text: Seq<char>, separator: Seq<char>)
    ensures
        joined(seq![text], separator) == text,
        joined(seq![], separator) == Seq::<char>::empty(),
{
}

/// What strings hold is taken over as it is.
pub proof fn texts_are_taken_over_whole(text: String, texts: Seq<String>)
    ensures
        text_of(Some(text)) == Some(text@),
        text_of(None) is None,
        texts_of(texts).len() == texts.len(),
        forall|i: int| 0 <= i < texts.len() ==> #[trigger] texts_of(texts)[i] == texts[i]@,
{
}

} // verus!
