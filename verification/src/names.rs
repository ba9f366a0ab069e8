//! Names: slugs, safe path segments, quantization tags and weight formats.

use crate::kinds::ModelFormat;
use crate::outside;
use crate::search;
use crate::text;
use vstd::prelude::*;
use vstd::string::*;
use vstd::utf8::*;

verus! {

// ---------------------------------------------------------------------------
// Slugs
// ---------------------------------------------------------------------------

/// The words of a text: its maximal runs of ASCII letters and digits, in lower case.
pub open spec fn words(s: Seq<char>) -> Seq<Seq<char>>
    decreases s.len(),
{
    if s.len() == 0 {
        Seq::empty()
    } else {
        let t = s.drop_last();
        let before = words(t);
        let c = text::ascii_lower(s.last());
        if !text::is_alphanumeric(s.last()) {
            before
        } else if t.len() > 0 && text::is_alphanumeric(t.last()) {
            before.drop_last().push(before.last().push(c))
        } else {
            before.push(seq![c])
        }
    }
}

/// The words of a text with a dash between each two.
pub open spec fn slug(s: Seq<char>) -> Seq<char> {
    search::joined(words(s), seq!['-'])
}

/// A lower-case ASCII letter or a digit.
pub open spec fn is_slug_letter(c: char) -> bool {
    'a' <= c <= 'z' || text::is_digit(c)
}

/// No word is empty, each is made of lower-case letters and digits, and a text that ends in a
/// letter or digit has a last word that ends there.
proof fn lemma_words(s: Seq<char>)
    ensures
        forall|i: int| 0 <= i < words(s).len() ==> #[trigger] words(s)[i].len() > 0,
        forall|i: int, j: int|
            0 <= i < words(s).len() && 0 <= j < words(s)[i].len() ==> is_slug_letter(
                #[trigger] words(s)[i][j],
            ),
        s.len() > 0 && text::is_alphanumeric(s.last()) ==> words(s).len() > 0,
    decreases s.len(),
{
    if s.len() > 0 {
        let t = s.drop_last();
        let c = text::ascii_lower(s.last());
        lemma_words(t);
        assert(text::is_alphanumeric(s.last()) ==> is_slug_letter(c));
        let before = words(t);
        let after = words(s);
        assert forall|i: int, j: int|
            0 <= i < after.len() && 0 <= j < after[i].len() implies is_slug_letter(
            #[trigger] after[i][j],
        ) by {
            if i < before.len() && j < before[i].len() {
                assert(is_slug_letter(before[i][j]));
            }
        }
        assert forall|i: int| 0 <= i < after.len() implies #[trigger] after[i].len() > 0 by {
            if i < before.len() {
                assert(before[i].len() > 0);
            }
        }
    }
}

/// How a slug grows by one character.
proof fn lemma_slug_step(t: Seq<char>, c: char)
    ensures
        !text::is_alphanumeric(c) ==> slug(t.push(c)) == slug(t),
        text::is_alphanumeric(c) && t.len() > 0 && text::is_alphanumeric(t.last()) ==> slug(
            t.push(c),
        ) == slug(t).push(text::ascii_lower(c)),
        text::is_alphanumeric(c) && !(t.len() > 0 && text::is_alphanumeric(t.last()))
            && words(t).len() > 0 ==> slug(t.push(c)) == slug(t).push('-').push(
            text::ascii_lower(c),
        ),
        words(t).len() == 0 && text::is_alphanumeric(c) && !(t.len() > 0 && text::is_alphanumeric(
            t.last(),
        )) ==> slug(t.push(c)) == seq![text::ascii_lower(c)],
        words(t).len() == 0 <==> slug(t).len() == 0,
        words(t).len() > 0 ==> is_slug_letter(slug(t).last()),
{
    let s = t.push(c);
    let x = text::ascii_lower(c);
    let dash = seq!['-'];
    assert(s.drop_last() =~= t);
    lemma_words(t);
    let before = words(t);
    if before.len() > 0 {
        let last = before.last();
        assert(last.len() > 0);
        assert(is_slug_letter(before[before.len() - 1][last.len() - 1]));
    }
    if text::is_alphanumeric(c) {
        if t.len() > 0 && text::is_alphanumeric(t.last()) {
            let after = words(s);
            assert(after == before.drop_last().push(before.last().push(x)));
            assert(after.drop_last() =~= before.drop_last());
            assert(dash + after.last() =~= (dash + before.last()).push(x));
            assert(slug(s) =~= slug(t).push(x));
        } else {
            let after = words(s);
            assert(after == before.push(seq![x]));
            assert(after.drop_last() =~= before);
            if before.len() > 0 {
                assert(slug(s) =~= slug(t).push('-').push(x));
            } else {
                assert(slug(s) =~= seq![x]);
            }
        }
    }
}

/// A slug holds lower-case letters, digits and dashes only, starts and ends with no dash, and has
/// no two dashes side by side.
pub proof fn slug_is_well_formed(s: Seq<char>)
    ensures
        forall|i: int|
            0 <= i < slug(s).len() ==> is_slug_letter(#[trigger] slug(s)[i]) || slug(s)[i] == '-',
        slug(s).len() > 0 ==> slug(s)[0] != '-' && slug(s).last() != '-',
        forall|i: int, j: int|
            0 <= i && j == i + 1 && j < slug(s).len() ==> !(#[trigger] slug(s)[i] == '-'
                && #[trigger] slug(s)[j] == '-'),
    decreases s.len(),
{
    if s.len() > 0 {
        let t = s.drop_last();
        slug_is_well_formed(t);
        assert(t.push(s.last()) =~= s);
        lemma_slug_step(t, s.last());
    }
}

/// The words of a slug are the words of the text that it was made from.
proof fn lemma_slug_words(s: Seq<char>)
    ensures
        words(slug(s)) == words(s),
    decreases s.len(),
{
    if s.len() > 0 {
        let t = s.drop_last();
        let c = s.last();
        let x = text::ascii_lower(c);
        lemma_slug_words(t);
        assert(t.push(c) =~= s);
        lemma_slug_step(t, c);
        lemma_words(t);
        if text::is_alphanumeric(c) {
            let before = slug(t);
            if t.len() > 0 && text::is_alphanumeric(t.last()) {
                assert(before.push(x).drop_last() =~= before);
                assert(words(before.push(x)) =~= words(s));
            } else if words(t).len() > 0 {
                let dashed = before.push('-');
                assert(dashed.drop_last() =~= before);
                assert(words(dashed) == words(before));
                assert(dashed.push(x).drop_last() =~= dashed);
                assert(words(dashed.push(x)) =~= words(s));
            } else {
                assert(seq![x].drop_last() =~= Seq::<char>::empty());
                assert(words(Seq::<char>::empty()) =~= Seq::<Seq<char>>::empty());
                assert(words(seq![x]) =~= words(s));
            }
        }
    } else {
        assert(slug(s) =~= s);
    }
}

/// A slug is its own slug.
pub proof fn slug_is_stable(s: Seq<char>)
    ensures
        slug(slug(s)) == slug(s),
{
    lemma_slug_words(s);
}

/// Lowercase, filesystem/url-safe slug from a display name.
pub fn slugify(s: &str) -> (r: String)
    ensures
        r@ == slug(s@),
{
    let v: Vec<char> = text::chars_of(s);
    let mut out: String = String::new();
    let mut gap: bool = true;
    assert(slug(v@.take(0)) =~= Seq::<char>::empty());
    for i in 0..v.len()
        invariant
            out@ == slug(v@.take(i as int)),
            gap == !(i > 0 && text::is_alphanumeric(v@[i - 1])),
    {
        let c: char = v[i];
        proof {
            lemma_slug_step(v@.take(i as int), c);
            assert(v@.take(i as int).push(c) =~= v@.take(i + 1));
        }
        if text::alphanumeric(c) {
            if gap && !out.as_str().is_empty() {
                out.push('-');
            }
            out.push(text::lower_char(c));
            gap = false;
        } else {
            gap = true;
        }
    }
    assert(v@.take(v@.len() as int) =~= v@);
    out
}

// ---------------------------------------------------------------------------
// Path segments
// ---------------------------------------------------------------------------

/// A character that a path segment may hold.
pub open spec fn is_segment_char(c: char) -> bool {
    text::is_alphanumeric(c) || c == '.' || c == '_' || c == '-' || c == '+' || c == '='
}

/// A name that can stand as one segment of a path: not empty, not a dot, without two dots side
/// by side, and made of letters, digits and a few signs, none of which separates segments.
pub open spec fn is_segment(s: Seq<char>) -> bool {
    &&& s.len() > 0
    &&& s != seq!['.']
    &&& forall|i: int, j: int|
        0 <= i && j == i + 1 && j < s.len() ==> !(#[trigger] s[i] == '.' && #[trigger] s[j] == '.')
    &&& forall|i: int| 0 <= i < s.len() ==> is_segment_char(#[trigger] s[i])
}

/// Rejects path traversal and separators in a tied-file or model-dir name. To be called before
/// anything is written into `services/<dir>/<filename>`.
pub fn is_safe_segment(name: &str) -> (r: bool)
    ensures
        r == is_segment(name@),
{
    let v: Vec<char> = text::chars_of(name);
    if v.len() == 0 {
        return false;
    }
    if v.len() == 1 && v[0] == '.' {
        assert(v@ =~= seq!['.']);
        return false;
    }
    assert(v@ != seq!['.']) by {
        if v@ == seq!['.'] {
            assert(v@[0] == '.' && v@.len() == 1);
        }
    }
    for i in 0..v.len()
        invariant
            v@ == name@,
            forall|k: int| 0 <= k < i ==> is_segment_char(#[trigger] v@[k]),
            forall|k: int, l: int|
                0 <= k && l == k + 1 && l < i ==> !(#[trigger] v@[k] == '.' && #[trigger] v@[l]
                    == '.'),
    {
        let c: char = v[i];
        if !(text::alphanumeric(c) || c == '.' || c == '_' || c == '-' || c == '+' || c == '=') {
            return false;
        }
        if i > 0 && c == '.' && v[i - 1] == '.' {
            assert(v@[i - 1] == '.' && v@[i as int] == '.');
            return false;
        }
    }
    true
}

/// A segment holds no separator, and is neither the current nor the parent directory.
pub proof fn segment_is_one_component(s: Seq<char>)
    requires
        is_segment(s),
    ensures
        !s.contains('/'),
        !s.contains('\\'),
        s != seq!['.'],
        s != seq!['.', '.'],
        !search::has_text(s, seq!['.', '.']),
{
    let up = seq!['.', '.'];
    if search::has_text(s, up) {
        let i = choose|i: int| search::occurs_at(s, up, i);
        assert(s.subrange(i, i + up.len())[0] == s[i]);
        assert(s.subrange(i, i + up.len())[1] == s[i + 1]);
        assert(s[i] == '.' && s[i + 1] == '.');
    }
    if s == up {
        assert(s[0] == '.' && s[1] == '.');
    }
}

/// A slug that is not empty is a safe segment, alone and with a dotted ending behind it.
pub proof fn slug_is_segment(s: Seq<char>, ending: Seq<char>)
    requires
        slug(s).len() > 0,
        forall|i: int| 0 <= i < ending.len() ==> is_segment_char(#[trigger] ending[i]),
        forall|i: int, j: int|
            0 <= i && j == i + 1 && j < ending.len() ==> !(#[trigger] ending[i] == '.'
                && #[trigger] ending[j] == '.'),
    ensures
        is_segment(slug(s)),
        is_segment(slug(s) + ending),
{
    slug_is_well_formed(s);
    let whole = slug(s) + ending;
    assert(slug(s)[0] != '.');
    assert(whole[0] == slug(s)[0]);
    assert forall|i: int, j: int| 0 <= i && j == i + 1 && j < whole.len() implies !(
    #[trigger] whole[i] == '.' && #[trigger] whole[j] == '.') by {
        if j >= slug(s).len() && i >= slug(s).len() {
            assert(whole[i] == ending[i - slug(s).len()]);
            assert(whole[j] == ending[j - slug(s).len()]);
        }
    }
}

// ---------------------------------------------------------------------------
// Quantization tags
// ---------------------------------------------------------------------------

/// One of the number formats that stand as a tag by themselves.
pub open spec fn is_number_format(t: Seq<char>) -> bool {
    t == "F16"@ || t == "F32"@ || t == "BF16"@ || t == "FP8"@ || t == "INT4"@ || t == "INT8"@ || t
        == "AWQ"@
}

/// Whether a token looks like a quantization tag: `Q` or `IQ` with a digit right behind, at most
/// eight bytes long, or a number format.
pub open spec fn is_quant(t: Seq<char>) -> bool {
    ||| ((t.len() >= 2 && t[0] == 'Q' && text::is_digit(t[1])) || (t.len() >= 3 && t[0] == 'I'
        && t[1] == 'Q' && text::is_digit(t[2]))) && encode_utf8(t).len() <= 8
    ||| is_number_format(t)
}

/// The first of the tokens, without the white space around it, that looks like a tag.
pub open spec fn first_quant(tokens: Seq<Seq<char>>) -> Option<Seq<char>>
    decreases tokens.len(),
{
    if tokens.len() == 0 {
        None
    } else if is_quant(text::trimmed(tokens[0])) {
        Some(text::trimmed(tokens[0]))
    } else {
        first_quant(tokens.skip(1))
    }
}

/// The tag in an upper-case file name: its tokens stand between dashes and dots.
pub open spec fn quant_tag(upper: Seq<char>) -> Option<Seq<char>> {
    first_quant(search::split(upper, seq!['-', '.']))
}

/// Whether a token looks like a quantization tag.
fn looks_like_quant(t: &[char]) -> (r: bool)
    ensures
        r == is_quant(t@),
{
    let s: String = text::string_of(t);
    let short: bool = s.as_str().as_bytes().len() <= 8;
    let q: bool = t.len() >= 2 && t[0] == 'Q' && text::digit(t[1]);
    let iq: bool = t.len() >= 3 && t[0] == 'I' && t[1] == 'Q' && text::digit(t[2]);
    if (q || iq) && short {
        return true;
    }
    let w: &str = s.as_str();
    text::same(w, "F16") || text::same(w, "F32") || text::same(w, "BF16") || text::same(w, "FP8")
        || text::same(w, "INT4") || text::same(w, "INT8") || text::same(w, "AWQ")
}

/// The quantization tag in an upper-case file name.
pub fn quant_from_uppercase(upper: &str) -> (r: Option<String>)
    ensures
        text::opt_text(r) == quant_tag(upper@),
{
    let v: Vec<char> = text::chars_of(upper);
    let seps: Vec<char> = vec!['-', '.'];
    assert(seps@ =~= seq!['-', '.']);
    let tokens: Vec<String> = search::split_chars(v.as_slice(), seps.as_slice());
    let ghost all = text::texts(tokens@);
    assert(all.skip(0) =~= all);
    for i in 0..tokens.len()
        invariant
            all == text::texts(tokens@),
            all == search::split(upper@, seq!['-', '.']),
            first_quant(all.skip(i as int)) == first_quant(all),
    {
        let c: Vec<char> = text::chars_of(tokens[i].as_str());
        let t: &[char] = text::trim_chars(c.as_slice());
        assert(all.skip(i as int)[0] == tokens@[i as int]@);
        assert(all.skip(i as int).skip(1) =~= all.skip(i + 1));
        if looks_like_quant(t) {
            return Some(text::string_of(t));
        }
    }
    None
}

/// The tag in a file name, whatever the case of its ASCII letters.
pub open spec fn quant_of(filename: Seq<char>) -> Option<Seq<char>> {
    quant_tag(outside::uppercase(text::lower_ascii(filename)))
}

/// Best-effort quantization tag parsed from a GGUF filename (e.g. "...-Q4_K.gguf" -> "Q4_K",
/// "...i1-Q4_0.gguf" -> "Q4_0").
pub fn parse_quant(filename: &str) -> (r: Option<String>)
    ensures
        text::opt_text(r) == quant_tag(outside::uppercase(filename@)),
        text::opt_text(r) == quant_of(filename@),
        is_ascii_chars(filename@) ==> text::opt_text(r) == quant_tag(text::upper_ascii(filename@)),
{
    let upper: String = outside::to_uppercase(filename);
    quant_from_uppercase(upper.as_str())
}

/// The tag of a file name does not depend on the case of its ASCII letters: the name in lower case
/// and the name in upper case have the same tag as the name itself.
pub proof fn quant_tag_ignores_ascii_case(filename: Seq<char>)
    ensures
        quant_of(text::lower_ascii(filename)) == quant_of(filename),
        quant_of(text::upper_ascii(filename)) == quant_of(filename),
{
    let lower = text::lower_ascii(filename);
    let upper = text::upper_ascii(filename);
    assert forall|i: int| 0 <= i < filename.len() implies text::lower_ascii(lower)[i] == lower[i]
        && text::lower_ascii(upper)[i] == lower[i] by {
        assert(lower[i] == text::ascii_lower(filename[i]));
        assert(upper[i] == text::ascii_upper(filename[i]));
    }
    assert(text::lower_ascii(lower) =~= lower);
    assert(text::lower_ascii(upper) =~= lower);
}

/// A tag that is found looks like one.
pub proof fn quant_tag_is_quant(upper: Seq<char>)
    ensures
        quant_tag(upper) matches Some(t) ==> is_quant(t),
{
    lemma_first_quant(search::split(upper, seq!['-', '.']));
}

proof fn lemma_first_quant(tokens: Seq<Seq<char>>)
    ensures
        first_quant(tokens) matches Some(t) ==> is_quant(t),
    decreases tokens.len(),
{
    if tokens.len() > 0 {
        lemma_first_quant(tokens.skip(1));
    }
}

// ---------------------------------------------------------------------------
// Formats
// ---------------------------------------------------------------------------

/// The weight format that a lower-case path stands for.
pub open spec fn format_named(lower: Seq<char>) -> ModelFormat {
    if search::has_suffix(lower, ".gguf"@) {
        ModelFormat::Gguf
    } else if search::has_suffix(lower, ".safetensors"@) {
        ModelFormat::Safetensors
    } else if search::has_text(lower, "/hub/models--"@) || search::has_text(lower, "hf-cache"@) {
        ModelFormat::HfRepo
    } else {
        ModelFormat::Other
    }
}

/// The weight format that a lower-case path stands for.
pub fn format_from_lowercase(lower: &str) -> (r: ModelFormat)
    ensures
        r == format_named(lower@),
{
    if search::ends_with(lower, ".gguf") {
        ModelFormat::Gguf
    } else if search::ends_with(lower, ".safetensors") {
        ModelFormat::Safetensors
    } else if search::contains(lower, "/hub/models--") || search::contains(lower, "hf-cache") {
        ModelFormat::HfRepo
    } else {
        ModelFormat::Other
    }
}

/// Infer format from a path.
pub fn infer_format(path: &str) -> (r: ModelFormat)
    ensures
        r == format_named(outside::lowercase(path@)),
        is_ascii_chars(path@) ==> r == format_named(text::lower_ascii(path@)),
{
    let lower: String = outside::to_lowercase(path);
    format_from_lowercase(lower.as_str())
}

// ---------------------------------------------------------------------------
// Laws
// ---------------------------------------------------------------------------

/// The words of a text and of another behind a character that is no letter or digit.
proof fn lemma_words_apart(a: Seq<char>, c: char, b: Seq<char>)
    requires
        !text::is_alphanumeric(c),
    ensures
        words(a.push(c) + b) == words(a) + words(b),
    decreases b.len(),
{
    let front = a.push(c);
    if b.len() == 0 {
        assert(front + b =~= front);
        assert(front.drop_last() =~= a);
        assert(words(a) + words(b) =~= words(a));
    } else {
        let d = b.drop_last();
        lemma_words_apart(a, c, d);
        lemma_words(d);
        assert((front + b).drop_last() =~= front + d);
        assert((front + b).last() == b.last());
        if d.len() > 0 {
            assert((front + d).last() == d.last());
        } else {
            assert((front + d).last() == c);
        }
        assert(words(front + b) =~= words(a) + words(b));
    }
}

/// Lists of parts, one behind the other, joined.
proof fn lemma_joined_concat(a: Seq<Seq<char>>, b: Seq<Seq<char>>, sep: Seq<char>)
    requires
        a.len() > 0,
        b.len() > 0,
    ensures
        search::joined(a + b, sep) == search::joined(a, sep) + (sep + search::joined(b, sep)),
    decreases b.len(),
{
    let all = a + b;
    if b.len() == 1 {
        assert(all.drop_last() =~= a);
        assert(all.last() == b[0]);
    } else {
        lemma_joined_concat(a, b.drop_last(), sep);
        assert(all.drop_last() =~= a + b.drop_last());
        assert(all.last() == b.last());
        let x = search::joined(a, sep);
        let y = search::joined(b.drop_last(), sep);
        assert(x + (sep + y) + (sep + b.last()) =~= x + (sep + (y + (sep + b.last()))));
    }
}

/// A word of ASCII letters and digits is its own slug, in lower case.
pub proof fn slug_of_one_word(word: Seq<char>)
    requires
        forall|i: int|
            0 <= i < word.len() ==> ('a' <= #[trigger] word[i] <= 'z' || 'A' <= word[i] <= 'Z' || '0'
                <= word[i] <= '9'),
    ensures
        slug(word).len() == word.len(),
        forall|i: int|
            0 <= i < word.len() ==> #[trigger] slug(word)[i] == (if 'A' <= word[i] <= 'Z' {
                (word[i] as u32 + 32) as char
            } else {
                word[i]
            }),
    decreases word.len(),
{
    if word.len() > 0 {
        let t = word.drop_last();
        assert forall|i: int| 0 <= i < t.len() implies ('a' <= #[trigger] t[i] <= 'z' || 'A' <= t[i]
            <= 'Z' || '0' <= t[i] <= '9') by {
            assert(t[i] == word[i]);
        }
        slug_of_one_word(t);
        let c = word.last();
        assert(c == word[word.len() - 1]);
        assert(t.push(c) =~= word);
        lemma_slug_step(t, c);
        if t.len() > 0 {
            assert(t.last() == word[word.len() - 2]);
            assert(slug(word) == slug(t).push(text::ascii_lower(c)));
        } else {
            assert(slug(word) == seq![text::ascii_lower(c)]);
        }
    } else {
        assert(slug(word) =~= Seq::<char>::empty());
    }
}

/// Whatever is no ASCII letter or digit parts two words: the slug of a text around it is the slugs of
/// its two sides with one dash between them, and a side without a word leaves nothing.
pub proof fn slug_has_a_dash_between_words(a: Seq<char>, c: char, b: Seq<char>)
    requires
        !('a' <= c <= 'z' || 'A' <= c <= 'Z' || '0' <= c <= '9'),
    ensures
        slug(a).len() > 0 && slug(b).len() > 0 ==> slug(a.push(c) + b) == slug(a) + seq!['-'] + slug(
            b,
        ),
        slug(a).len() == 0 ==> slug(a.push(c) + b) == slug(b),
        slug(b).len() == 0 ==> slug(a.push(c) + b) == slug(a),
{
    lemma_words_apart(a, c, b);
    lemma_slug_step(a, c);
    lemma_slug_step(b, c);
    if words(a).len() > 0 && words(b).len() > 0 {
        lemma_joined_concat(words(a), words(b), seq!['-']);
        assert(slug(a) + (seq!['-'] + slug(b)) =~= slug(a) + seq!['-'] + slug(b));
    } else if words(a).len() == 0 {
        assert(words(a) + words(b) =~= words(b));
    } else {
        assert(words(a) + words(b) =~= words(a));
    }
    if words(a).len() == 0 && words(b).len() == 0 {
        assert(slug(a) =~= slug(b));
    }
}

/// Every ordinary name is a safe segment: one of ASCII letters, digits and the signs `.`, `_`, `-`,
/// `+` and `=`, which is not a dot alone and has no two dots side by side. A name with anything else
/// in it is not safe, nor is an empty one.
pub proof fn ordinary_names_are_safe(s: Seq<char>)
    ensures
        s.len() > 0 && s != seq!['.'] && !search::has_text(s, seq!['.', '.']) && (forall|i: int|
            0 <= i < s.len() ==> ('a' <= #[trigger] s[i] <= 'z' || 'A' <= s[i] <= 'Z' || '0' <= s[i]
                <= '9' || seq!['.', '_', '-', '+', '='].contains(s[i]))) ==> is_segment(s),
        is_segment(s) ==> s.len() > 0 && s != seq!['.'] && !search::has_text(s, seq!['.', '.']),
        forall|i: int|
            0 <= i < s.len() && is_segment(s) ==> ('a' <= #[trigger] s[i] <= 'z' || 'A' <= s[i] <= 'Z'
                || '0' <= s[i] <= '9' || seq!['.', '_', '-', '+', '='].contains(s[i])),
{
    let signs = seq!['.', '_', '-', '+', '='];
    assert(signs[0] == '.' && signs[1] == '_' && signs[2] == '-' && signs[3] == '+' && signs[4]
        == '=');
    let up = seq!['.', '.'];
    if s.len() > 0 && s != seq!['.'] && !search::has_text(s, up) && (forall|i: int|
        0 <= i < s.len() ==> ('a' <= #[trigger] s[i] <= 'z' || 'A' <= s[i] <= 'Z' || '0' <= s[i]
            <= '9' || signs.contains(s[i]))) {
        assert forall|i: int, j: int| 0 <= i && j == i + 1 && j < s.len() implies !(
        #[trigger] s[i] == '.' && #[trigger] s[j] == '.') by {
            if s[i] == '.' && s[j] == '.' {
                assert(s.subrange(i, i + 2) =~= up);
                assert(search::occurs_at(s, up, i));
            }
        }
        assert forall|i: int| 0 <= i < s.len() implies is_segment_char(#[trigger] s[i]) by {
            if signs.contains(s[i]) {
                let k = choose|k: int| 0 <= k < signs.len() && signs[k] == s[i];
                assert(k == 0 || k == 1 || k == 2 || k == 3 || k == 4);
            }
        }
    }
    if is_segment(s) && search::has_text(s, up) {
        let i = choose|i: int| search::occurs_at(s, up, i);
        assert(s.subrange(i, i + 2) == up);
        assert(s[i] == up[0] && s[i + 1] == up[1]) by {
            assert(s.subrange(i, i + 2)[0] == s[i]);
            assert(s.subrange(i, i + 2)[1] == s[i + 1]);
        }
    }
    assert forall|i: int| 0 <= i < s.len() && is_segment(s) implies ('a' <= #[trigger] s[i] <= 'z'
        || 'A' <= s[i] <= 'Z' || '0' <= s[i] <= '9' || signs.contains(s[i])) by {
        assert(is_segment_char(s[i]));
    }
}

/// The tag of a file name is the first of its tokens, between dashes and dots, that looks like one,
/// and there is none only where no token does.
pub proof fn first_token_that_looks_like_a_tag(upper: Seq<char>, tokens: Seq<Seq<char>>, i: int)
    requires
        tokens == search::split(upper, seq!['-', '.']),
        0 <= i < tokens.len(),
        is_quant(text::trimmed(tokens[i])),
        forall|k: int| 0 <= k < i ==> !is_quant(text::trimmed(#[trigger] tokens[k])),
    ensures
        quant_tag(upper) == Some(text::trimmed(tokens[i])),
{
    lemma_first_quant_at(tokens, i);
}

proof fn lemma_first_quant_at(tokens: Seq<Seq<char>>, i: int)
    requires
        0 <= i < tokens.len(),
        is_quant(text::trimmed(tokens[i])),
        forall|k: int| 0 <= k < i ==> !is_quant(text::trimmed(#[trigger] tokens[k])),
    ensures
        first_quant(tokens) == Some(text::trimmed(tokens[i])),
    decreases i,
{
    if i > 0 {
        let rest = tokens.skip(1);
        assert(!is_quant(text::trimmed(tokens[0])));
        assert forall|k: int| 0 <= k < i - 1 implies !is_quant(
            text::trimmed(#[trigger] rest[k]),
        ) by {
            assert(rest[k] == tokens[k + 1]);
        }
        assert(rest[i - 1] == tokens[i]);
        lemma_first_quant_at(rest, i - 1);
    }
}

/// A file name without a token that looks like a tag has none.
pub proof fn no_token_no_tag(upper: Seq<char>, tokens: Seq<Seq<char>>)
    requires
        tokens == search::split(upper, seq!['-', '.']),
        forall|k: int| 0 <= k < tokens.len() ==> !is_quant(text::trimmed(#[trigger] tokens[k])),
    ensures
        quant_tag(upper) is None,
{
    lemma_no_quant(tokens);
}

proof fn lemma_no_quant(tokens: Seq<Seq<char>>)
    requires
        forall|k: int| 0 <= k < tokens.len() ==> !is_quant(text::trimmed(#[trigger] tokens[k])),
    ensures
        first_quant(tokens) is None,
    decreases tokens.len(),
{
    if tokens.len() > 0 {
        let rest = tokens.skip(1);
        assert forall|k: int| 0 <= k < rest.len() implies !is_quant(
            text::trimmed(#[trigger] rest[k]),
        ) by {
            assert(rest[k] == tokens[k + 1]);
        }
        lemma_no_quant(rest);
        assert(!is_quant(text::trimmed(tokens[0])));
    }
}

/// Which tokens look like a tag: `Q` or `IQ`, a digit and what follows, up to eight bytes in all;
/// and seven names of number formats. A token of another beginning never does.
pub proof fn tokens_that_look_like_tags(digit: char, rest: Seq<char>, t: Seq<char>)
    requires
        '0' <= digit <= '9',
        is_ascii_chars(rest),
    ensures
        rest.len() <= 6 <==> is_quant(seq!['Q', digit] + rest),
        rest.len() <= 5 <==> is_quant(seq!['I', 'Q', digit] + rest),
        is_quant("F16"@) && is_quant("F32"@) && is_quant("BF16"@) && is_quant("FP8"@) && is_quant(
            "INT4"@,
        ) && is_quant("INT8"@) && is_quant("AWQ"@),
        is_quant(t) ==> t.len() >= 2 && seq!['Q', 'I', 'F', 'B', 'A'].contains(t[0]),
        is_quant(t) && t[0] == 'Q' ==> '0' <= t[1] <= '9',
        is_quant(t) && t[0] == 'F' ==> t == "F16"@ || t == "F32"@ || t == "FP8"@,
        is_quant(t) && t[0] == 'B' ==> t == "BF16"@,
        is_quant(t) && t[0] == 'A' ==> t == "AWQ"@,
        is_quant(t) && t[0] == 'I' ==> t == "INT4"@ || t == "INT8"@ || (t.len() >= 3 && t[1] == 'Q'
            && '0' <= t[2] <= '9'),
{
    reveal_strlit("F16");
    reveal_strlit("F32");
    reveal_strlit("BF16");
    reveal_strlit("FP8");
    reveal_strlit("INT4");
    reveal_strlit("INT8");
    reveal_strlit("AWQ");
    let heads = seq!['Q', 'I', 'F', 'B', 'A'];
    assert(heads[0] == 'Q' && heads[1] == 'I' && heads[2] == 'F' && heads[3] == 'B' && heads[4]
        == 'A');
    let q = seq!['Q', digit] + rest;
    let iq = seq!['I', 'Q', digit] + rest;
    assert(is_ascii_chars(q)) by {
        assert forall|i: int| 0 <= i < q.len() implies '\0' <= #[trigger] q[i] <= '\u{7f}' by {
            if i >= 2 {
                assert(q[i] == rest[i - 2]);
            }
        }
    }
    assert(is_ascii_chars(iq)) by {
        assert forall|i: int| 0 <= i < iq.len() implies '\0' <= #[trigger] iq[i] <= '\u{7f}' by {
            if i >= 3 {
                assert(iq[i] == rest[i - 3]);
            }
        }
    }
    is_ascii_chars_encode_utf8(q);
    is_ascii_chars_encode_utf8(iq);
    assert(q[0] == 'Q' && iq[0] == 'I' && iq[1] == 'Q');
    assert("INT4"@[1] == 'N' && "INT8"@[1] == 'N');
}

/// The format of a path is that of its extension, and a path without such an extension is a cached
/// repo where it leads through the cache.
pub proof fn extension_tells_the_format(stem: Seq<char>, lower: Seq<char>)
    ensures
        format_named(stem + ".gguf"@) == ModelFormat::Gguf,
        format_named(stem + ".safetensors"@) == ModelFormat::Safetensors,
        format_named(lower) == ModelFormat::Gguf ==> search::has_suffix(lower, ".gguf"@),
        format_named(lower) == ModelFormat::Safetensors ==> search::has_suffix(
            lower,
            ".safetensors"@,
        ),
        !search::has_suffix(lower, ".gguf"@) && !search::has_suffix(lower, ".safetensors"@) && (
        search::has_text(lower, "/hub/models--"@) || search::has_text(lower, "hf-cache"@))
            <==> format_named(lower) == ModelFormat::HfRepo,
{
    search::parts_of_a_text(stem, ".gguf"@, lower);
    search::parts_of_a_text(stem, ".safetensors"@, lower);
    reveal_strlit(".gguf");
    reveal_strlit(".safetensors");
    let s = stem + ".safetensors"@;
    let n = s.len() as int;
    if search::has_suffix(s, ".gguf"@) {
        assert(s.skip(n - 5)[4] == s[n - 1]);
        assert(s[n - 1] == ".safetensors"@[11]);
    }
}

/// A token that starts like a tag of a quantisation is one exactly where it has at most eight bytes.
pub proof fn tags_have_at_most_eight_bytes(t: Seq<char>)
    ensures
        t.len() >= 2 && t[0] == 'Q' && '0' <= t[1] <= '9' ==> (is_quant(t) <==> encode_utf8(t).len()
            <= 8),
        t.len() >= 3 && t[0] == 'I' && t[1] == 'Q' && '0' <= t[2] <= '9' ==> (is_quant(t)
            <==> encode_utf8(t).len() <= 8),
{
    reveal_strlit("F16");
    reveal_strlit("F32");
    reveal_strlit("BF16");
    reveal_strlit("FP8");
    reveal_strlit("INT4");
    reveal_strlit("INT8");
    reveal_strlit("AWQ");
}

/// The tag of a file name is the first token of its upper-case form that looks like one, and it has
/// none where no token does.
pub proof fn file_name_tells_its_tag(filename: Seq<char>, tokens: Seq<Seq<char>>, i: int)
    requires
        tokens == search::split(outside::uppercase(text::lower_ascii(filename)), seq!['-', '.']),
        0 <= i < tokens.len(),
        forall|k: int| 0 <= k < i ==> !is_quant(text::trimmed(#[trigger] tokens[k])),
    ensures
        is_quant(text::trimmed(tokens[i])) ==> quant_of(filename) == Some(text::trimmed(tokens[i])),
        !is_quant(text::trimmed(tokens[i])) && i == tokens.len() - 1 ==> quant_of(filename) is None,
{
    if is_quant(text::trimmed(tokens[i])) {
        lemma_first_quant_at(tokens, i);
    } else if i == tokens.len() - 1 {
        lemma_no_quant(tokens);
    }
}

}
