//! Character-level text utilities the markdown parser is built on:
//! whitespace trimming, prefix tests, and locating `#` tag markers.

use vstd::prelude::*;

verus! {

use vstd::string::StrSliceExecFns;

/// Whether the character is whitespace, over the same set of characters
/// Rust's `char::is_whitespace` accepts.
pub open spec fn is_space(c: char) -> bool {
    let u = c as u32;
    u == 0x9 || u == 0xA || u == 0xB || u == 0xC || u == 0xD || u == 0x20 || u == 0x85
        || u == 0xA0 || u == 0x1680 || (0x2000 <= u && u <= 0x200A) || u == 0x2028 || u == 0x2029
        || u == 0x202F || u == 0x205F || u == 0x3000
}

/// Whitespace test on one character.
pub fn is_space_char(c: char) -> (r: bool)
    ensures
        r == is_space(c),
{
    let u = c as u32;
    u == 0x9 || u == 0xA || u == 0xB || u == 0xC || u == 0xD || u == 0x20 || u == 0x85
        || u == 0xA0 || u == 0x1680 || (0x2000 <= u && u <= 0x200A) || u == 0x2028 || u == 0x2029
        || u == 0x202F || u == 0x205F || u == 0x3000
}

/// The text with its leading whitespace removed.
pub open spec fn trim_start(s: Seq<char>) -> Seq<char>
    decreases s.len(),
{
    if s.len() > 0 && is_space(s.first()) {
        trim_start(s.drop_first())
    } else {
        s
    }
}

/// The text with its trailing whitespace removed.
pub open spec fn trim_end(s: Seq<char>) -> Seq<char>
    decreases s.len(),
{
    if s.len() > 0 && is_space(s.last()) {
        trim_end(s.drop_last())
    } else {
        s
    }
}

/// The text with leading and trailing whitespace removed.
pub open spec fn trim(s: Seq<char>) -> Seq<char> {
    trim_end(trim_start(s))
}

/// When the first `i` characters are whitespace and the next one (if any)
/// is not, trimming the start drops exactly those `i`.
proof fn lemma_trim_start_skip(s: Seq<char>, i: int)
    requires
        0 <= i <= s.len(),
        forall|k: int| 0 <= k < i ==> is_space(s[k]),
        i < s.len() ==> !is_space(s[i]),
    ensures
        trim_start(s) == s.skip(i),
    decreases i,
{
    if i == 0 {
        assert(s.skip(0) =~= s);
    } else {
        lemma_trim_start_skip(s.drop_first(), i - 1);
        assert(s.drop_first().skip(i - 1) =~= s.skip(i));
    }
}

/// When the characters from `e` on are whitespace and the one before `e`
/// (if any) is not, trimming the end keeps exactly the first `e`.
proof fn lemma_trim_end_take(s: Seq<char>, e: int)
    requires
        0 <= e <= s.len(),
        forall|k: int| e <= k < s.len() ==> is_space(s[k]),
        e > 0 ==> !is_space(s[e - 1]),
    ensures
        trim_end(s) == s.take(e),
    decreases s.len(),
{
    if e == s.len() {
        assert(s.take(e) =~= s);
    } else {
        lemma_trim_end_take(s.drop_last(), e);
        assert(s.drop_last().take(e) =~= s.take(e));
    }
}

/// The text with leading and trailing whitespace removed, as a fresh
/// string.
pub fn trim_str(s: &str) -> (r: String)
    ensures
        r@ == trim(s@),
{
    let len = s.unicode_len();
    let mut start: usize = 0;
    while start < len && is_space_char(s.get_char(start))
        invariant
            len == s@.len(),
            start <= len,
            forall|k: int| 0 <= k < start ==> is_space(s@[k]),
        decreases len - start,
    {
        start += 1;
    }
    let mut end: usize = len;
    while end > start && is_space_char(s.get_char(end - 1))
        invariant
            len == s@.len(),
            start <= end <= len,
            forall|k: int| end <= k < len ==> is_space(s@[k]),
        decreases end,
    {
        end -= 1;
    }
    let mid = s.substring_char(start, end);
    proof {
        lemma_trim_start_skip(s@, start as int);
        lemma_trim_end_take(s@.skip(start as int), end - start);
        assert(s@.skip(start as int).take(end - start) =~= s@.subrange(start as int, end as int));
    }
    mid.to_owned()
}

/// Whether `s` begins with `p`.
pub open spec fn starts_with(s: Seq<char>, p: Seq<char>) -> bool {
    p.len() <= s.len() && forall|k: int| 0 <= k < p.len() ==> s[k] == p[k]
}

/// Prefix test on strings.
pub fn starts_with_str(s: &str, p: &str) -> (r: bool)
    ensures
        r == starts_with(s@, p@),
{
    let sl = s.unicode_len();
    let pl = p.unicode_len();
    if pl > sl {
        return false;
    }
    let mut k: usize = 0;
    while k < pl
        invariant
            sl == s@.len(),
            pl == p@.len(),
            pl <= sl,
            k <= pl,
            forall|j: int| 0 <= j < k ==> s@[j] == p@[j],
        decreases pl - k,
    {
        if s.get_char(k) != p.get_char(k) {
            return false;
        }
        k += 1;
    }
    true
}

/// Whether the line is a markdown horizontal rule, in any of the four
/// spellings the note files use.
pub open spec fn is_hr(s: Seq<char>) -> bool {
    starts_with(s, "---"@) || starts_with(s, "- - -"@) || starts_with(s, "***"@) || starts_with(
        s,
        "* * *"@,
    )
}

/// Horizontal-rule test on a line.
pub fn is_hr_line(s: &str) -> (r: bool)
    ensures
        r == is_hr(s@),
{
    starts_with_str(s, "---") || starts_with_str(s, "- - -") || starts_with_str(s, "***")
        || starts_with_str(s, "* * *")
}

/// The index of the first `#` in the line, or the line length when there
/// is none.
pub open spec fn first_hash(s: Seq<char>) -> int
    decreases s.len(),
{
    if s.len() == 0 {
        0
    } else if s[0] == '#' {
        0
    } else {
        1 + first_hash(s.drop_first())
    }
}

/// When no `#` stands before index `i` and one stands at `i` (or `i` is
/// the length), the first `#` is at `i`.
proof fn lemma_first_hash_at(s: Seq<char>, i: int)
    requires
        0 <= i <= s.len(),
        forall|k: int| 0 <= k < i ==> s[k] != '#',
        i < s.len() ==> s[i] == '#',
        i == s.len() ==> forall|k: int| 0 <= k < s.len() ==> s[k] != '#',
    ensures
        first_hash(s) == i,
    decreases i,
{
    if i > 0 {
        lemma_first_hash_at(s.drop_first(), i - 1);
    }
}

/// Finds the first `#` in the line, or the line length when there is
/// none.
pub fn first_hash_str(s: &str) -> (r: usize)
    ensures
        r == first_hash(s@),
        r <= s@.len(),
{
    let len = s.unicode_len();
    let mut i: usize = 0;
    while i < len
        invariant
            len == s@.len(),
            i <= len,
            forall|k: int| 0 <= k < i ==> s@[k] != '#',
        decreases len - i,
    {
        if s.get_char(i) == '#' {
            proof {
                lemma_first_hash_at(s@, i as int);
            }
            return i;
        }
        i += 1;
    }
    proof {
        lemma_first_hash_at(s@, len as int);
    }
    len
}

/// Whether some `#` in the line opens a tag that begins with
/// "flashcard" — the marker that makes a line a flashcard question.
pub open spec fn has_flashcard_tag(s: Seq<char>) -> bool {
    exists|i: int|
        0 <= i < s.len() && (#[trigger] s[i]) == '#' && starts_with(s.skip(i + 1), "flashcard"@)
}

/// Tag-marker test on a line.
pub fn has_flashcard_tag_str(s: &str) -> (r: bool)
    ensures
        r == has_flashcard_tag(s@),
{
    let len = s.unicode_len();
    let mut i: usize = 0;
    while i < len
        invariant
            len == s@.len(),
            i <= len,
            forall|k: int|
                0 <= k < i ==> !((#[trigger] s@[k]) == '#' && starts_with(
                    s@.skip(k + 1),
                    "flashcard"@,
                )),
        decreases len - i,
    {
        if s.get_char(i) == '#' {
            let tail = s.substring_char(i + 1, len);
            proof {
                assert(tail@ =~= s@.skip(i + 1));
            }
            if starts_with_str(tail, "flashcard") {
                return true;
            }
        }
        i += 1;
    }
    false
}

} // verus!
