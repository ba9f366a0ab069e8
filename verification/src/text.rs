//! Text as a sequence of characters: classes of characters and trimming, with the conventions of
//! the standard library's `str`.

use vstd::prelude::*;
use vstd::slice::slice_subrange;
use vstd::string::*;

verus! {

/// `String::push` adds one character at the end of the string.
pub assume_specification[ String::push ](s: &mut String, ch: char)
    ensures
        final(s)@ == old(s)@.push(ch),
;

// ---------------------------------------------------------------------------
// Characters
// ---------------------------------------------------------------------------

/// The code points with the Unicode property White_Space.
pub open spec fn is_space(c: char) -> bool {
    ||| '\u{9}' <= c <= '\u{d}'
    ||| c == '\u{20}'
    ||| c == '\u{85}'
    ||| c == '\u{a0}'
    ||| c == '\u{1680}'
    ||| '\u{2000}' <= c <= '\u{200a}'
    ||| c == '\u{2028}'
    ||| c == '\u{2029}'
    ||| c == '\u{202f}'
    ||| c == '\u{205f}'
    ||| c == '\u{3000}'
}

pub open spec fn is_digit(c: char) -> bool {
    '0' <= c <= '9'
}

pub open spec fn is_alphanumeric(c: char) -> bool {
    'a' <= c <= 'z' || 'A' <= c <= 'Z' || is_digit(c)
}

/// The lower-case form of an ASCII letter; any other character as it is.
pub open spec fn ascii_lower(c: char) -> char {
    if 'A' <= c <= 'Z' {
        (c as u32 + 32) as char
    } else {
        c
    }
}

/// The upper-case form of an ASCII letter; any other character as it is.
pub open spec fn ascii_upper(c: char) -> char {
    if 'a' <= c <= 'z' {
        (c as u32 - 32) as char
    } else {
        c
    }
}

/// A text with its ASCII letters in lower case.
pub open spec fn lower_ascii(s: Seq<char>) -> Seq<char> {
    s.map_values(|c: char| ascii_lower(c))
}

/// A text with its ASCII letters in upper case.
pub open spec fn upper_ascii(s: Seq<char>) -> Seq<char> {
    s.map_values(|c: char| ascii_upper(c))
}

/// Whether `c` is white space.
pub fn space(c: char) -> (r: bool)
    ensures
        r == is_space(c),
{
    ('\u{9}' <= c && c <= '\u{d}') || c == '\u{20}' || c == '\u{85}' || c == '\u{a0}' || c
        == '\u{1680}' || ('\u{2000}' <= c && c <= '\u{200a}') || c == '\u{2028}' || c == '\u{2029}'
        || c == '\u{202f}' || c == '\u{205f}' || c == '\u{3000}'
}

/// Whether `c` is an ASCII decimal digit.
pub fn digit(c: char) -> (r: bool)
    ensures
        r == is_digit(c),
{
    '0' <= c && c <= '9'
}

/// Whether `c` is an ASCII letter or digit.
pub fn alphanumeric(c: char) -> (r: bool)
    ensures
        r == is_alphanumeric(c),
{
    ('a' <= c && c <= 'z') || ('A' <= c && c <= 'Z') || digit(c)
}

/// Lower-cases an ASCII letter.
pub fn lower_char(c: char) -> (r: char)
    ensures
        r == ascii_lower(c),
{
    if 'A' <= c && c <= 'Z' {
        let code: u8 = c as u8;
        (code + 32) as char
    } else {
        c
    }
}

// ---------------------------------------------------------------------------
// Between strings and characters
// ---------------------------------------------------------------------------

/// The texts of a list of strings.
pub open spec fn texts(v: Seq<String>) -> Seq<Seq<char>> {
    v.map_values(|s: String| s@)
}

/// The text of an optional string.
pub open spec fn opt_text(o: Option<String>) -> Option<Seq<char>> {
    match o {
        Some(s) => Some(s@),
        None => None,
    }
}

/// The text of an optional string slice.
pub open spec fn opt_str(o: Option<&str>) -> Option<Seq<char>> {
    match o {
        Some(s) => Some(s@),
        None => None,
    }
}

/// The characters of a string, in order.
pub fn chars_of(s: &str) -> (v: Vec<char>)
    ensures
        v@ == s@,
{
    let mut v: Vec<char> = Vec::new();
    for c in it: s.chars()
        invariant
            v@ == s@.take(it.index() as int),
            it.seq() == s@,
    {
        v.push(c);
        assert(s@.take(it.index() + 1) =~= s@.take(it.index() as int).push(c));
    }
    assert(s@.take(s@.len() as int) =~= s@);
    v
}

/// The string made of the given characters.
pub fn string_of(v: &[char]) -> (s: String)
    ensures
        s@ == v@,
{
    let mut s: String = String::new();
    for i in 0..v.len()
        invariant
            s@ == v@.take(i as int),
    {
        s.push(v[i]);
        assert(v@.take(i + 1) =~= v@.take(i as int).push(v@[i as int]));
    }
    assert(v@.take(v@.len() as int) =~= v@);
    s
}

/// Whether two strings hold the same text.
pub fn same(a: &str, b: &str) -> (r: bool)
    ensures
        r == (a@ == b@),
{
    a.to_owned() == b.to_owned()
}

// ---------------------------------------------------------------------------
// Trimming
// ---------------------------------------------------------------------------

/// The characters that count as white space.
pub open spec fn spaces() -> spec_fn(char) -> bool {
    |c: char| is_space(c)
}

/// The one character `x`.
pub open spec fn only(x: char) -> spec_fn(char) -> bool {
    |c: char| c == x
}

/// `s` without its longest prefix of characters in `p`.
pub open spec fn drop_front(s: Seq<char>, p: spec_fn(char) -> bool) -> Seq<char>
    decreases s.len(),
{
    if s.len() > 0 && p(s[0]) {
        drop_front(s.skip(1), p)
    } else {
        s
    }
}

/// `s` without its longest suffix of characters in `p`.
pub open spec fn drop_back(s: Seq<char>, p: spec_fn(char) -> bool) -> Seq<char>
    decreases s.len(),
{
    if s.len() > 0 && p(s.last()) {
        drop_back(s.drop_last(), p)
    } else {
        s
    }
}

/// `s` without the characters in `p` at both of its ends.
pub open spec fn drop_ends(s: Seq<char>, p: spec_fn(char) -> bool) -> Seq<char> {
    drop_back(drop_front(s, p), p)
}

/// `s` without the white space at both of its ends.
pub open spec fn trimmed(s: Seq<char>) -> Seq<char> {
    drop_ends(s, spaces())
}

/// `s` without the white space at its start.
pub open spec fn start_trimmed(s: Seq<char>) -> Seq<char> {
    drop_front(s, spaces())
}

/// `s` without the white space at its end.
pub open spec fn end_trimmed(s: Seq<char>) -> Seq<char> {
    drop_back(s, spaces())
}

/// Trimming leaves no character of `p` at the start, and cuts a prefix only.
pub proof fn front_is_trimmed(s: Seq<char>, p: spec_fn(char) -> bool)
    ensures
        drop_front(s, p).len() <= s.len(),
        drop_front(s, p) == s.skip(s.len() - drop_front(s, p).len()),
        drop_front(s, p).len() > 0 ==> !p(drop_front(s, p)[0]),
        forall|i: int| 0 <= i < s.len() - drop_front(s, p).len() ==> p(#[trigger] s[i]),
    decreases s.len(),
{
    if s.len() > 0 && p(s[0]) {
        let t = s.skip(1);
        front_is_trimmed(t, p);
        let d = drop_front(t, p);
        assert(d =~= s.skip(s.len() - d.len()));
        assert forall|i: int| 0 <= i < s.len() - d.len() implies p(#[trigger] s[i]) by {
            if i > 0 {
                assert(t[i - 1] == s[i]);
            }
        }
    } else {
        assert(s =~= s.skip(0));
    }
}

/// Trimming leaves no character of `p` at the end, and cuts a suffix only.
pub proof fn back_is_trimmed(s: Seq<char>, p: spec_fn(char) -> bool)
    ensures
        drop_back(s, p).len() <= s.len(),
        drop_back(s, p) == s.take(drop_back(s, p).len() as int),
        drop_back(s, p).len() > 0 ==> !p(drop_back(s, p).last()),
        forall|i: int| drop_back(s, p).len() <= i < s.len() ==> p(#[trigger] s[i]),
    decreases s.len(),
{
    if s.len() > 0 && p(s.last()) {
        let t = s.drop_last();
        back_is_trimmed(t, p);
        let d = drop_back(t, p);
        assert(d =~= s.take(d.len() as int));
        assert forall|i: int| d.len() <= i < s.len() implies p(#[trigger] s[i]) by {
            if i < s.len() - 1 {
                assert(t[i] == s[i]);
            }
        }
    } else {
        assert(s =~= s.take(s.len() as int));
    }
}

/// Nothing is left of a text without the white space at its ends exactly where it holds nothing
/// else.
pub proof fn blank_is_all_space(s: Seq<char>)
    ensures
        trimmed(s).len() == 0 <==> forall|i: int| 0 <= i < s.len() ==> is_space(#[trigger] s[i]),
{
    let p = spaces();
    let t = drop_front(s, p);
    front_is_trimmed(s, p);
    back_is_trimmed(t, p);
    if t.len() > 0 {
        assert(t[0] == s[s.len() - t.len()]);
        if drop_back(t, p).len() == 0 {
            assert(p(t[0]));
        }
    } else {
        assert forall|i: int| 0 <= i < s.len() implies is_space(#[trigger] s[i]) by {
            assert(p(s[i]));
        }
    }
}

/// Where the text of `v` starts once the white space in front is cut.
fn first_non_space(v: &[char]) -> (k: usize)
    ensures
        k <= v@.len(),
        v@.skip(k as int) == start_trimmed(v@),
{
    let mut k: usize = 0;
    assert(v@.skip(0) =~= v@);
    while k < v.len() && space(v[k])
        invariant
            k <= v@.len(),
            start_trimmed(v@.skip(k as int)) == start_trimmed(v@),
        decreases v@.len() - k,
    {
        assert(v@.skip(k as int).skip(1) =~= v@.skip(k + 1));
        k = k + 1;
    }
    k
}

/// Where the text of `v` ends once the white space behind is cut.
fn after_last_non_space(v: &[char]) -> (k: usize)
    ensures
        k <= v@.len(),
        v@.take(k as int) == end_trimmed(v@),
{
    let mut k: usize = v.len();
    assert(v@.take(k as int) =~= v@);
    while k > 0 && space(v[k - 1])
        invariant
            k <= v@.len(),
            end_trimmed(v@.take(k as int)) == end_trimmed(v@),
        decreases k,
    {
        assert(v@.take(k as int).drop_last() =~= v@.take(k - 1));
        k = k - 1;
    }
    k
}

/// The part of `v` that is left once white space is cut at both ends.
pub fn trim_chars(v: &[char]) -> (r: &[char])
    ensures
        r@ == trimmed(v@),
{
    let a: usize = first_non_space(v);
    let w: &[char] = slice_subrange(v, a, v.len());
    assert(w@ =~= v@.skip(a as int));
    let b: usize = after_last_non_space(w);
    let r: &[char] = slice_subrange(w, 0, b);
    assert(r@ =~= w@.take(b as int));
    r
}

/// `s` without the white space at both of its ends.
pub fn trim(s: &str) -> (r: String)
    ensures
        r@ == trimmed(s@),
{
    let v: Vec<char> = chars_of(s);
    string_of(trim_chars(v.as_slice()))
}

/// `s` without the white space at its start.
pub fn trim_start(s: &str) -> (r: String)
    ensures
        r@ == start_trimmed(s@),
{
    let v: Vec<char> = chars_of(s);
    let a: usize = first_non_space(v.as_slice());
    let w: &[char] = slice_subrange(v.as_slice(), a, v.len());
    assert(w@ =~= v@.skip(a as int));
    string_of(w)
}

/// `s` without the white space at its end.
pub fn trim_end(s: &str) -> (r: String)
    ensures
        r@ == end_trimmed(s@),
{
    let v: Vec<char> = chars_of(s);
    let b: usize = after_last_non_space(v.as_slice());
    let w: &[char] = slice_subrange(v.as_slice(), 0, b);
    assert(w@ =~= v@.take(b as int));
    string_of(w)
}

/// `v` without the characters `x` at its start.
pub fn drop_front_char(v: &[char], x: char) -> (r: &[char])
    ensures
        r@ == drop_front(v@, only(x)),
{
    let mut k: usize = 0;
    assert(v@.skip(0) =~= v@);
    while k < v.len() && v[k] == x
        invariant
            k <= v@.len(),
            drop_front(v@.skip(k as int), only(x)) == drop_front(v@, only(x)),
        decreases v@.len() - k,
    {
        assert(v@.skip(k as int).skip(1) =~= v@.skip(k + 1));
        k = k + 1;
    }
    let r: &[char] = slice_subrange(v, k, v.len());
    assert(r@ =~= v@.skip(k as int));
    r
}

/// `v` without the characters `x` at its end.
pub fn drop_back_char(v: &[char], x: char) -> (r: &[char])
    ensures
        r@ == drop_back(v@, only(x)),
{
    let mut k: usize = v.len();
    assert(v@.take(k as int) =~= v@);
    while k > 0 && v[k - 1] == x
        invariant
            k <= v@.len(),
            drop_back(v@.take(k as int), only(x)) == drop_back(v@, only(x)),
        decreases k,
    {
        assert(v@.take(k as int).drop_last() =~= v@.take(k - 1));
        k = k - 1;
    }
    let r: &[char] = slice_subrange(v, 0, k);
    assert(r@ =~= v@.take(k as int));
    r
}

/// What is left of a text once it is trimmed is one stretch of it: white space alone stands in front
/// of that stretch and behind it, and neither its first character nor its last one is white space.
pub proof fn trimming_cuts_white_space_alone(s: Seq<char>)
    ensures
        exists|i: int, j: int|
            0 <= i <= j <= s.len() && trimmed(s) == #[trigger] s.subrange(i, j) && (forall|k: int|
                0 <= k < i || j <= k < s.len() ==> is_space(#[trigger] s[k])),
        trimmed(s).len() > 0 ==> !is_space(trimmed(s)[0]) && !is_space(trimmed(s).last()),
{
    let p = spaces();
    let t = drop_front(s, p);
    let r = drop_back(t, p);
    front_is_trimmed(s, p);
    back_is_trimmed(t, p);
    let i = s.len() - t.len();
    let j = i + r.len();
    assert(r =~= s.subrange(i, j));
    assert forall|k: int| 0 <= k < i || j <= k < s.len() implies is_space(#[trigger] s[k]) by {
        if k < i {
            assert(p(s[k]));
        } else {
            assert(t[k - i] == s[k]);
            assert(p(t[k - i]));
        }
    }
    if r.len() > 0 {
        assert(r[0] == t[0]);
        assert(!p(t[0]));
        assert(!p(r.last()));
    }
}

/// White space at the ends of a text does not matter: with more of it in front or behind, the
/// trimmed text is the same, and a text that has none at its ends is its own trimmed text.
pub proof fn white_space_around_does_not_matter(s: Seq<char>, c: char)
    requires
        is_space(c),
    ensures
        trimmed(s.push(c)) == trimmed(s),
        trimmed(seq![c] + s) == trimmed(s),
        s.len() > 0 && !is_space(s[0]) && !is_space(s.last()) ==> trimmed(s) == s,
        end_trimmed(s.push(c)) == end_trimmed(s),
        s.len() > 0 && !is_space(s.last()) ==> end_trimmed(s) == s,
        start_trimmed(seq![c] + s) == start_trimmed(s),
        s.len() > 0 && !is_space(s[0]) ==> start_trimmed(s) == s,
    decreases s.len(),
{
    let p = spaces();
    assert((seq![c] + s).skip(1) =~= s);
    assert(s.push(c).drop_last() =~= s);
    lemma_space_behind(s, c);
}

proof fn lemma_space_behind(s: Seq<char>, c: char)
    requires
        is_space(c),
    ensures
        trimmed(s.push(c)) == trimmed(s),
    decreases s.len(),
{
    let p = spaces();
    if s.len() > 0 && p(s[0]) {
        assert(s.push(c).skip(1) =~= s.skip(1).push(c));
        lemma_space_behind(s.skip(1), c);
    } else if s.len() > 0 {
        assert(s.push(c).drop_last() =~= s);
        assert(drop_front(s.push(c), p) == s.push(c));
    } else {
        assert(s.push(c).skip(1) =~= Seq::<char>::empty());
        assert(drop_front(Seq::<char>::empty(), p) == Seq::<char>::empty());
        assert(s =~= Seq::<char>::empty());
    }
}

/// The white space is that of Unicode: these characters and no others.
pub proof fn white_space_is_that_of_unicode(c: char)
    ensures
        is_space(c) <==> 9 <= c as int <= 13 || c as int == 0x20 || c as int == 0x85 || c as int
            == 0xa0 || c as int == 0x1680 || 0x2000 <= c as int <= 0x200a || c as int == 0x2028
            || c as int == 0x2029 || c as int == 0x202f || c as int == 0x205f || c as int == 0x3000,
        33 <= c as int <= 126 ==> !is_space(c),
{
}

/// Changing the case of a text changes its ASCII letters alone, each one to the letter of the other
/// case; done twice it changes nothing more.
pub proof fn case_changes_letters_alone(s: Seq<char>, i: int)
    requires
        0 <= i < s.len(),
    ensures
        lower_ascii(s).len() == s.len(),
        65 <= s[i] as int <= 90 ==> lower_ascii(s)[i] as int == s[i] as int + 32,
        !(65 <= s[i] as int <= 90) ==> lower_ascii(s)[i] == s[i],
        lower_ascii(lower_ascii(s)) == lower_ascii(s),
        97 <= s[i] as int <= 122 ==> ascii_upper(s[i]) as int == s[i] as int - 32,
        !(97 <= s[i] as int <= 122) ==> ascii_upper(s[i]) == s[i],
        is_digit(s[i]) <==> 48 <= s[i] as int <= 57,
        is_alphanumeric(s[i]) <==> 48 <= s[i] as int <= 57 || 65 <= s[i] as int <= 90 || 97
            <= s[i] as int <= 122,
{
    assert(lower_ascii(lower_ascii(s)) =~= lower_ascii(s));
}

}
