//! Character-level text operations on endpoint URLs and response bodies.

use vstd::prelude::*;
use vstd::string::*;

verus! {

/// The characters with the Unicode property `White_Space`.
pub open spec fn white_space(c: char) -> bool {
    let code = c as u32;
    ||| 0x09 <= code <= 0x0d
    ||| code == 0x20
    ||| code == 0x85
    ||| code == 0xa0
    ||| code == 0x1680
    ||| 0x2000 <= code <= 0x200a
    ||| code == 0x2028
    ||| code == 0x2029
    ||| code == 0x202f
    ||| code == 0x205f
    ||| code == 0x3000
}

/// The characters of the Unicode general category `Cc`.
pub open spec fn control(c: char) -> bool {
    let code = c as u32;
    code <= 0x1f || 0x7f <= code <= 0x9f
}

/// The ASCII letter `c` in lower case; any other character unchanged.
pub open spec fn ascii_lower(c: char) -> char {
    if 'A' <= c <= 'Z' {
        ((c as u32) + 32) as char
    } else {
        c
    }
}

/// `s` without the white space it starts with.
pub open spec fn trim_start(s: Seq<char>) -> Seq<char>
    decreases s.len(),
{
    if s.len() > 0 && white_space(s.first()) {
        trim_start(s.drop_first())
    } else {
        s
    }
}

/// `s` without the white space it ends with.
pub open spec fn trim_end(s: Seq<char>) -> Seq<char>
    decreases s.len(),
{
    if s.len() > 0 && white_space(s.last()) {
        trim_end(s.drop_last())
    } else {
        s
    }
}

/// `s` without the white space around it.
pub open spec fn trimmed(s: Seq<char>) -> Seq<char> {
    trim_end(trim_start(s))
}

/// `s` without the slashes it ends with.
pub open spec fn without_trailing_slashes(s: Seq<char>) -> Seq<char>
    decreases s.len(),
{
    if s.len() > 0 && s.last() == '/' {
        without_trailing_slashes(s.drop_last())
    } else {
        s
    }
}

/// `s` starts with `prefix` when ASCII letters of `s` are read in lower case.
pub open spec fn starts_with_lowered(s: Seq<char>, prefix: Seq<char>) -> bool {
    &&& prefix.len() <= s.len()
    &&& forall|i: int| 0 <= i < prefix.len() ==> ascii_lower(#[trigger] s[i]) == prefix[i]
}

/// Tells whether `c` is white space.
pub fn is_white_space(c: char) -> (r: bool)
    ensures
        r == white_space(c),
{
    let code: u32 = c as u32;
    (0x09 <= code && code <= 0x0d) || code == 0x20 || code == 0x85 || code == 0xa0 || code == 0x1680
        || (0x2000 <= code && code <= 0x200a) || code == 0x2028 || code == 0x2029 || code == 0x202f
        || code == 0x205f || code == 0x3000
}

/// Tells whether `c` is a control character.
pub fn is_control(c: char) -> (r: bool)
    ensures
        r == control(c),
{
    let code: u32 = c as u32;
    code <= 0x1f || (0x7f <= code && code <= 0x9f)
}

/// The characters of `s`.
pub fn chars_of(s: &str) -> (r: Vec<char>)
    ensures
        r@ == s@,
{
    let mut chars: Vec<char> = Vec::new();
    for c in it: s.chars()
        invariant
            chars@ == it.seq().take(it.index() as int),
            it.seq() == s@,
    {
        chars.push(c);
    }
    chars
}

proof fn lemma_trim_start_step(s: Seq<char>, i: int)
    requires
        0 <= i < s.len(),
        white_space(s[i]),
    ensures
        trim_start(s.skip(i)) == trim_start(s.skip(i + 1)),
{
    assert(s.skip(i).first() == s[i]);
    assert(s.skip(i).drop_first() == s.skip(i + 1));
}

/// `s` without the white space around it.
pub fn trim(s: &str) -> (r: String)
    ensures
        r@ == trimmed(s@),
{
    let chars = chars_of(s);
    let mut start: usize = 0;
    assert(s@.skip(0) == s@);
    while start < chars.len() && is_white_space(chars[start])
        invariant
            chars@ == s@,
            start <= chars@.len(),
            trim_start(s@.skip(start as int)) == trim_start(s@),
        decreases chars@.len() - start,
    {
        proof {
            lemma_trim_start_step(s@, start as int);
        }
        start = start + 1;
    }
    let ghost front = s@.skip(start as int);
    assert(trim_start(front) == front) by {
        if start < chars@.len() {
            assert(front.first() == s@[start as int]);
        }
    }
    let mut end: usize = chars.len();
    assert(front.take(end - start) == front);
    while start < end && is_white_space(chars[end - 1])
        invariant
            chars@ == s@,
            start <= end <= chars@.len(),
            front == s@.skip(start as int),
            trim_end(front.take(end - start)) == trim_end(front),
        decreases end,
    {
        proof {
            let kept = front.take(end - start);
            assert(kept.last() == s@[end - 1]);
            assert(kept.drop_last() == front.take(end - 1 - start));
        }
        end = end - 1;
    }
    proof {
        let kept = front.take(end - start);
        if start < end {
            assert(kept.last() == s@[end - 1]);
        }
        assert(trim_end(kept) == kept);
        assert(kept == s@.subrange(start as int, end as int));
    }
    s.substring_char(start, end).to_owned()
}

/// `s` without the slashes it ends with.
pub fn strip_trailing_slashes(s: &str) -> (r: String)
    ensures
        r@ == without_trailing_slashes(s@),
{
    let chars = chars_of(s);
    let mut end: usize = chars.len();
    assert(s@.take(end as int) == s@);
    while 0 < end && chars[end - 1] == '/'
        invariant
            chars@ == s@,
            end <= chars@.len(),
            without_trailing_slashes(s@.take(end as int)) == without_trailing_slashes(s@),
        decreases end,
    {
        proof {
            let kept = s@.take(end as int);
            assert(kept.last() == s@[end - 1]);
            assert(kept.drop_last() == s@.take(end - 1));
        }
        end = end - 1;
    }
    proof {
        let kept = s@.take(end as int);
        if 0 < end {
            assert(kept.last() == s@[end - 1]);
        }
        assert(without_trailing_slashes(kept) == kept);
        assert(kept == s@.subrange(0, end as int));
    }
    s.substring_char(0, end).to_owned()
}

/// Tells whether the ASCII letter case of `c` set aside, `c` is `lower`.
fn lowers_to(c: char, lower: char) -> (r: bool)
    ensures
        r == (ascii_lower(c) == lower),
{
    let code: u32 = c as u32;
    if 65 <= code && code <= 90 {
        code + 32 == lower as u32
    } else {
        c == lower
    }
}

/// Tells whether `s` starts with `prefix`, ASCII letters of `s` read in lower case.
pub fn starts_with_ignore_case(s: &str, prefix: &str) -> (r: bool)
    ensures
        r == starts_with_lowered(s@, prefix@),
{
    let chars = chars_of(s);
    let wanted = chars_of(prefix);
    if chars.len() < wanted.len() {
        return false;
    }
    let mut i: usize = 0;
    while i < wanted.len()
        invariant
            chars@ == s@,
            wanted@ == prefix@,
            i <= wanted@.len() <= chars@.len(),
            forall|k: int| 0 <= k < i ==> ascii_lower(#[trigger] s@[k]) == prefix@[k],
        decreases wanted@.len() - i,
    {
        if !lowers_to(chars[i], wanted[i]) {
            return false;
        }
        i = i + 1;
    }
    true
}

/// Tells whether `s` holds white space or a control character.
pub fn has_white_space_or_control(s: &str) -> (r: bool)
    ensures
        r == exists|i: int| 0 <= i < s@.len() && (control(#[trigger] s@[i]) || white_space(s@[i])),
{
    let chars = chars_of(s);
    let mut i: usize = 0;
    while i < chars.len()
        invariant
            chars@ == s@,
            i <= chars@.len(),
            forall|k: int| 0 <= k < i ==> !control(#[trigger] s@[k]) && !white_space(s@[k]),
        decreases chars@.len() - i,
    {
        if is_control(chars[i]) || is_white_space(chars[i]) {
            return true;
        }
        i = i + 1;
    }
    false
}

} // verus!
