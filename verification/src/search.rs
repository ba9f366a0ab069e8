//! Searching, splitting and replacing in text.

use crate::text;
use vstd::prelude::*;
use vstd::slice::slice_subrange;
use vstd::string::*;

verus! {

// ---------------------------------------------------------------------------
// Prefixes, suffixes and occurrences
// ---------------------------------------------------------------------------

/// Whether `p` stands in `s` at position `i`.
pub open spec fn occurs_at(s: Seq<char>, p: Seq<char>, i: int) -> bool {
    0 <= i && i + p.len() <= s.len() && s.subrange(i, i + p.len()) == p
}

pub open spec fn has_prefix(s: Seq<char>, p: Seq<char>) -> bool {
    p.len() <= s.len() && s.take(p.len() as int) == p
}

pub open spec fn has_suffix(s: Seq<char>, p: Seq<char>) -> bool {
    p.len() <= s.len() && s.skip(s.len() - p.len()) == p
}

/// Whether `p` stands anywhere in `s`.
pub open spec fn has_text(s: Seq<char>, p: Seq<char>) -> bool {
    exists|i: int| occurs_at(s, p, i)
}

/// What follows the prefix `p` in `s`, if `s` starts with it.
pub open spec fn after_prefix(s: Seq<char>, p: Seq<char>) -> Option<Seq<char>> {
    if has_prefix(s, p) {
        Some(s.skip(p.len() as int))
    } else {
        None
    }
}

/// Whether `p` stands in `v` at position `i`.
pub fn matches_at(v: &[char], p: &[char], i: usize) -> (r: bool)
    ensures
        r == occurs_at(v@, p@, i as int),
{
    if i > v.len() || p.len() > v.len() - i {
        return false;
    }
    let n: usize = v.len();
    let mut k: usize = 0;
    while k < p.len()
        invariant
            k <= p@.len(),
            n == v@.len(),
            i + p@.len() <= n,
            forall|j: int| 0 <= j < k ==> v@[i + j] == #[trigger] p@[j],
        decreases p@.len() - k,
    {
        if v[i + k] != p[k] {
            assert(v@.subrange(i as int, i + p@.len())[k as int] != p@[k as int]);
            return false;
        }
        k = k + 1;
    }
    assert(v@.subrange(i as int, i + p@.len()) =~= p@);
    true
}

/// The first position of `p` in `v`, if there is one.
pub fn find(v: &[char], p: &[char]) -> (r: Option<usize>)
    ensures
        match r {
            Some(k) => occurs_at(v@, p@, k as int) && forall|i: int|
                0 <= i < k ==> !occurs_at(v@, p@, i),
            None => !has_text(v@, p@),
        },
{
    if p.len() > v.len() {
        return None;
    }
    let last: usize = v.len() - p.len();
    let mut i: usize = 0;
    loop
        invariant
            i <= last,
            last == v@.len() - p@.len(),
            forall|j: int| 0 <= j < i ==> !occurs_at(v@, p@, j),
        decreases last - i,
    {
        if matches_at(v, p, i) {
            return Some(i);
        }
        if i == last {
            return None;
        }
        i = i + 1;
    }
}

/// Whether `s` starts with `p`.
pub fn starts_with(s: &str, p: &str) -> (r: bool)
    ensures
        r == has_prefix(s@, p@),
{
    let v: Vec<char> = text::chars_of(s);
    let q: Vec<char> = text::chars_of(p);
    let r: bool = matches_at(v.as_slice(), q.as_slice(), 0);
    assert(q@.len() <= v@.len() ==> v@.subrange(0, q@.len() as int) =~= v@.take(q@.len() as int));
    r
}

/// Whether `s` ends with `p`.
pub fn ends_with(s: &str, p: &str) -> (r: bool)
    ensures
        r == has_suffix(s@, p@),
{
    let v: Vec<char> = text::chars_of(s);
    let q: Vec<char> = text::chars_of(p);
    if q.len() > v.len() {
        return false;
    }
    let k: usize = v.len() - q.len();
    assert(v@.subrange(k as int, k + q@.len()) =~= v@.skip(v@.len() - q@.len()));
    matches_at(v.as_slice(), q.as_slice(), k)
}

/// Whether `p` stands anywhere in `s`.
pub fn contains(s: &str, p: &str) -> (r: bool)
    ensures
        r == has_text(s@, p@),
{
    let v: Vec<char> = text::chars_of(s);
    let q: Vec<char> = text::chars_of(p);
    find(v.as_slice(), q.as_slice()).is_some()
}

/// What follows the prefix `p` in `s`, if `s` starts with it.
pub fn strip_prefix(s: &str, p: &str) -> (r: Option<String>)
    ensures
        text::opt_text(r) == after_prefix(s@, p@),
{
    let v: Vec<char> = text::chars_of(s);
    let q: Vec<char> = text::chars_of(p);
    assert(q@.len() <= v@.len() ==> v@.subrange(0, q@.len() as int) =~= v@.take(q@.len() as int));
    if matches_at(v.as_slice(), q.as_slice(), 0) {
        let w: &[char] = slice_subrange(v.as_slice(), q.len(), v.len());
        assert(w@ =~= s@.skip(q@.len() as int));
        Some(text::string_of(w))
    } else {
        None
    }
}

// ---------------------------------------------------------------------------
// Splitting and joining
// ---------------------------------------------------------------------------

/// The pieces of `s` between the characters of `seps`: always one more than there are such
/// characters in `s`.
pub open spec fn split(s: Seq<char>, seps: Seq<char>) -> Seq<Seq<char>>
    decreases s.len(),
{
    if s.len() == 0 {
        seq![Seq::empty()]
    } else {
        let before = split(s.drop_last(), seps);
        if seps.contains(s.last()) {
            before.push(Seq::empty())
        } else {
            before.drop_last().push(before.last().push(s.last()))
        }
    }
}

/// A line without the carriage return at its end.
pub open spec fn without_cr(line: Seq<char>) -> Seq<char> {
    if line.len() > 0 && line.last() == '\r' {
        line.drop_last()
    } else {
        line
    }
}

/// The lines of `s`. A line ends in a newline, or in a carriage return and a newline; what
/// follows the last newline is a line of its own unless it is empty.
pub open spec fn lines(s: Seq<char>) -> Seq<Seq<char>> {
    let parts = split(s, seq!['\n']);
    let ended = parts.drop_last().map_values(|l: Seq<char>| without_cr(l));
    if parts.last().len() == 0 {
        ended
    } else {
        ended.push(parts.last())
    }
}

/// The parts, in order, with `sep` between each two.
pub open spec fn joined(parts: Seq<Seq<char>>, sep: Seq<char>) -> Seq<char>
    decreases parts.len(),
{
    if parts.len() == 0 {
        Seq::empty()
    } else if parts.len() == 1 {
        parts[0]
    } else {
        joined(parts.drop_last(), sep) + (sep + parts.last())
    }
}

/// A split gives at least one piece, and no piece holds a separator.
pub proof fn lemma_split_pieces(s: Seq<char>, seps: Seq<char>)
    ensures
        split(s, seps).len() >= 1,
        forall|i: int, j: int|
            0 <= i < split(s, seps).len() && 0 <= j < split(s, seps)[i].len()
                ==> !seps.contains(#[trigger] split(s, seps)[i][j]),
    decreases s.len(),
{
    if s.len() > 0 {
        lemma_split_pieces(s.drop_last(), seps);
    }
}

/// Splitting at one character loses nothing: the pieces joined by it give the text back.
pub proof fn joining_undoes_splitting(s: Seq<char>, sep: char)
    ensures
        joined(split(s, seq![sep]), seq![sep]) == s,
    decreases s.len(),
{
    let seps = seq![sep];
    lemma_split_pieces(s, seps);
    if s.len() > 0 {
        let t = s.drop_last();
        joining_undoes_splitting(t, sep);
        lemma_split_pieces(t, seps);
        let before = split(t, seps);
        if seps.contains(s.last()) {
            let parts = before.push(Seq::<char>::empty());
            assert(parts.drop_last() =~= before);
            assert(s =~= t + (seps + Seq::<char>::empty()));
        } else {
            let parts = before.drop_last().push(before.last().push(s.last()));
            assert(parts.drop_last() =~= before.drop_last());
            if before.len() == 1 {
                assert(parts.len() == 1);
                assert(s =~= t.push(s.last()));
            } else {
                assert(seps + parts.last() =~= (seps + before.last()).push(s.last()));
                assert(joined(parts, seps) =~= joined(before, seps).push(s.last()));
                assert(s =~= t.push(s.last()));
            }
        }
    }
}

/// Whether `c` is one of `seps`.
fn is_one_of(seps: &[char], c: char) -> (r: bool)
    ensures
        r == seps@.contains(c),
{
    for i in 0..seps.len()
        invariant
            forall|j: int| 0 <= j < i ==> seps@[j] != c,
    {
        if seps[i] == c {
            return true;
        }
    }
    false
}

/// The pieces of `v` between the characters of `seps`.
pub fn split_chars(v: &[char], seps: &[char]) -> (r: Vec<String>)
    ensures
        text::texts(r@) == split(v@, seps@),
{
    let mut done: Vec<String> = Vec::new();
    let mut cur: String = String::new();
    assert(v@.take(0) =~= Seq::<char>::empty());
    assert(text::texts(done@).push(cur@) =~= split(v@.take(0), seps@));
    for i in 0..v.len()
        invariant
            text::texts(done@).push(cur@) == split(v@.take(i as int), seps@),
    {
        let ghost before = split(v@.take(i as int), seps@);
        let ghost old_done = text::texts(done@);
        let c: char = v[i];
        assert(v@.take(i + 1).drop_last() =~= v@.take(i as int));
        assert(v@.take(i + 1).last() == c);
        assert(before.drop_last() =~= old_done);
        if is_one_of(seps, c) {
            done.push(cur);
            cur = String::new();
            assert(text::texts(done@) =~= before);
        } else {
            cur.push(c);
        }
    }
    done.push(cur);
    assert(v@.take(v@.len() as int) =~= v@);
    assert(text::texts(done@) =~= split(v@, seps@));
    done
}

/// The pieces of `s` between the characters `sep`.
pub fn split_at_char(s: &str, sep: char) -> (r: Vec<String>)
    ensures
        text::texts(r@) == split(s@, seq![sep]),
{
    let v: Vec<char> = text::chars_of(s);
    let seps: Vec<char> = vec![sep];
    assert(seps@ =~= seq![sep]);
    split_chars(v.as_slice(), seps.as_slice())
}

/// A line without the carriage return at its end.
fn drop_cr(line: &String) -> (r: String)
    ensures
        r@ == without_cr(line@),
{
    let v: Vec<char> = text::chars_of(line.as_str());
    if v.len() > 0 && v[v.len() - 1] == '\r' {
        let w: &[char] = slice_subrange(v.as_slice(), 0, v.len() - 1);
        assert(w@ =~= line@.drop_last());
        text::string_of(w)
    } else {
        line.clone()
    }
}

/// The lines of `s`.
pub fn lines_of(s: &str) -> (r: Vec<String>)
    ensures
        text::texts(r@) == lines(s@),
{
    let parts: Vec<String> = split_at_char(s, '\n');
    proof {
        lemma_split_pieces(s@, seq!['\n']);
        assert(text::texts(parts@).len() == parts@.len());
    }
    let n: usize = parts.len() - 1;
    let mut out: Vec<String> = Vec::new();
    let ghost ended = text::texts(parts@).drop_last().map_values(|l: Seq<char>| without_cr(l));
    for i in 0..n
        invariant
            n == parts@.len() - 1,
            ended == text::texts(parts@).drop_last().map_values(|l: Seq<char>| without_cr(l)),
            text::texts(out@) == ended.take(i as int),
    {
        let line: String = drop_cr(&parts[i]);
        let ghost before = text::texts(out@);
        out.push(line);
        assert(ended[i as int] == without_cr(text::texts(parts@)[i as int]));
        assert(text::texts(out@) =~= before.push(ended[i as int]));
        assert(ended.take(i + 1) =~= ended.take(i as int).push(ended[i as int]));
    }
    assert(ended.take(n as int) =~= ended);
    if !parts[n].as_str().is_empty() {
        out.push(parts[n].clone());
        assert(text::texts(out@) =~= ended.push(text::texts(parts@).last()));
    }
    out
}

/// The parts, in order, with `sep` between each two.
pub fn join(parts: &Vec<String>, sep: &str) -> (r: String)
    ensures
        r@ == joined(text::texts(parts@), sep@),
{
    let mut out: String = String::new();
    for i in 0..parts.len()
        invariant
            out@ == joined(text::texts(parts@).take(i as int), sep@),
    {
        let ghost next = text::texts(parts@).take(i + 1);
        assert(next.drop_last() =~= text::texts(parts@).take(i as int));
        if i > 0 {
            out.append(sep);
        }
        out.append(parts[i].as_str());
        assert(out@ =~= joined(next, sep@));
    }
    assert(text::texts(parts@).take(parts@.len() as int) =~= text::texts(parts@));
    out
}

// ---------------------------------------------------------------------------
// Replacing
// ---------------------------------------------------------------------------

/// `s` with every occurrence of `from` replaced by `to`. Occurrences are taken from the left
/// and do not overlap.
pub open spec fn replaced(s: Seq<char>, from: Seq<char>, to: Seq<char>) -> Seq<char>
    decreases s.len(),
{
    if from.len() == 0 || s.len() < from.len() {
        s
    } else if has_prefix(s, from) {
        to + replaced(s.skip(from.len() as int), from, to)
    } else {
        s.take(1) + replaced(s.skip(1), from, to)
    }
}

/// `s` with its first occurrence of `from` replaced by `to`.
pub open spec fn replaced_first(s: Seq<char>, from: Seq<char>, to: Seq<char>) -> Seq<char>
    decreases s.len(),
{
    if from.len() == 0 || s.len() < from.len() {
        s
    } else if has_prefix(s, from) {
        to + s.skip(from.len() as int)
    } else {
        s.take(1) + replaced_first(s.skip(1), from, to)
    }
}

/// Where `from` does not occur, there is nothing to replace.
pub proof fn lemma_replaced_absent(s: Seq<char>, from: Seq<char>, to: Seq<char>)
    requires
        !has_text(s, from),
    ensures
        replaced(s, from, to) == s,
        replaced_first(s, from, to) == s,
    decreases s.len(),
{
    if from.len() != 0 && s.len() >= from.len() {
        if has_prefix(s, from) {
            assert(s.subrange(0, from.len() as int) =~= s.take(from.len() as int));
            assert(occurs_at(s, from, 0));
        }
        let t = s.skip(1);
        if has_text(t, from) {
            let i = choose|i: int| occurs_at(t, from, i);
            assert(s.subrange(i + 1, i + 1 + from.len()) =~= t.subrange(i, i + from.len()));
            assert(occurs_at(s, from, i + 1));
        }
        lemma_replaced_absent(t, from, to);
        assert(s.take(1) + t =~= s);
    }
}

/// `s` with every occurrence of `from` replaced by `to`.
pub fn replace(s: &str, from: &str, to: &str) -> (r: String)
    requires
        from@.len() > 0,
    ensures
        r@ == replaced(s@, from@, to@),
{
    let v: Vec<char> = text::chars_of(s);
    let p: Vec<char> = text::chars_of(from);
    let mut out: String = String::new();
    let mut i: usize = 0;
    assert(v@.skip(0) =~= v@);
    while i < v.len()
        invariant
            i <= v@.len(),
            p@ == from@,
            p@.len() > 0,
            v@ == s@,
            out@ + replaced(v@.skip(i as int), from@, to@) == replaced(s@, from@, to@),
        decreases v@.len() - i,
    {
        let ghost rest = v@.skip(i as int);
        let ghost before = out@;
        assert(p@.len() <= rest.len() ==> v@.subrange(i as int, i + p@.len()) =~= rest.take(
            p@.len() as int,
        ));
        if matches_at(v.as_slice(), p.as_slice(), i) {
            out.append(to);
            assert(rest.skip(p@.len() as int) =~= v@.skip(i + p@.len()));
            assert(out@ + replaced(v@.skip(i + p@.len()), from@, to@) =~= before + replaced(
                rest,
                from@,
                to@,
            ));
            i = i + p.len();
        } else {
            out.push(v[i]);
            assert(rest.take(1) =~= seq![v@[i as int]]);
            assert(rest.skip(1) =~= v@.skip(i + 1));
            assert(rest =~= seq![v@[i as int]] + v@.skip(i + 1));
            assert(out@ + replaced(v@.skip(i + 1), from@, to@) =~= before + replaced(
                rest,
                from@,
                to@,
            ));
            i = i + 1;
        }
    }
    assert(v@.skip(i as int) =~= Seq::<char>::empty());
    assert(out@ =~= out@ + replaced(v@.skip(i as int), from@, to@));
    out
}

/// `s` with its first occurrence of `from` replaced by `to`.
pub fn replace_first(s: &str, from: &str, to: &str) -> (r: String)
    requires
        from@.len() > 0,
    ensures
        r@ == replaced_first(s@, from@, to@),
{
    let v: Vec<char> = text::chars_of(s);
    let p: Vec<char> = text::chars_of(from);
    match find(v.as_slice(), p.as_slice()) {
        None => {
            proof {
                lemma_replaced_absent(s@, from@, to@);
            }
            s.to_owned()
        },
        Some(k) => {
            proof {
                lemma_replaced_first_at(s@, from@, to@, k as int);
            }
            let n: usize = v.len();
            assert(k + p@.len() <= n);
            let a: &[char] = slice_subrange(v.as_slice(), 0, k);
            let b: &[char] = slice_subrange(v.as_slice(), k + p.len(), n);
            assert(a@ =~= s@.take(k as int));
            assert(b@ =~= s@.skip(k + from@.len()));
            let mut out: String = text::string_of(a);
            out.append(to);
            out.append(text::string_of(b).as_str());
            out
        },
    }
}

/// The first occurrence is the one that is replaced, and the text around it stays.
pub proof fn lemma_replaced_first_at(s: Seq<char>, from: Seq<char>, to: Seq<char>, k: int)
    requires
        from.len() > 0,
        occurs_at(s, from, k),
        forall|i: int| 0 <= i < k ==> !occurs_at(s, from, i),
    ensures
        replaced_first(s, from, to) == s.take(k) + to + s.skip(k + from.len()),
    decreases s.len(),
{
    assert(s.subrange(0, from.len() as int) =~= s.take(from.len() as int));
    if k == 0 {
        assert(s.take(0) + to =~= to);
    } else {
        assert(!occurs_at(s, from, 0));
        let t = s.skip(1);
        assert forall|i: int| 0 <= i < k - 1 implies !occurs_at(t, from, i) by {
            if occurs_at(t, from, i) {
                assert(s.subrange(i + 1, i + 1 + from.len()) =~= t.subrange(i, i + from.len()));
                assert(occurs_at(s, from, i + 1));
            }
        }
        assert(t.subrange(k - 1, k - 1 + from.len()) =~= s.subrange(k, k + from.len()));
        lemma_replaced_first_at(t, from, to, k - 1);
        assert(s.take(1) + (t.take(k - 1) + to + t.skip(k - 1 + from.len())) =~= s.take(k) + to
            + s.skip(k + from.len()));
    }
}

/// Whether `p` cannot stand at position `i` of a text that holds `t` there: the two differ where
/// they overlap.
pub open spec fn clashes(t: Seq<char>, p: Seq<char>, i: int) -> bool {
    exists|j: int| 0 <= j < p.len() && i + j < t.len() && #[trigger] p[j] != t[i + j]
}

/// What stands in front of the first replacement was there before.
proof fn lemma_replaced_front(s: Seq<char>, from: Seq<char>, to: Seq<char>, k: int)
    requires
        to.len() > 0,
        0 <= k <= replaced(s, from, to).len(),
        forall|j: int| 0 <= j < k ==> #[trigger] replaced(s, from, to)[j] != to[0],
    ensures
        k <= s.len(),
        s.take(k) == replaced(s, from, to).take(k),
    decreases s.len(),
{
    let r = replaced(s, from, to);
    if k > 0 && from.len() > 0 && s.len() >= from.len() {
        if has_prefix(s, from) {
            assert(r[0] == to[0]);
        } else {
            let rest = replaced(s.skip(1), from, to);
            assert forall|j: int| 0 <= j < k - 1 implies #[trigger] rest[j] != to[0] by {
                assert(r[j + 1] == rest[j]);
            }
            lemma_replaced_front(s.skip(1), from, to, k - 1);
            assert(s.take(k) =~= s.take(1) + s.skip(1).take(k - 1));
            assert(r.take(k) =~= s.take(1) + rest.take(k - 1));
        }
    } else {
        assert(s.take(k) =~= r.take(k));
    }
}

/// A text that a replacement cannot bring in is not in the result, if it was not there before or
/// is the one replaced.
pub proof fn lemma_replaced_is_gone(s: Seq<char>, from: Seq<char>, to: Seq<char>, p: Seq<char>)
    requires
        from.len() > 0,
        p.len() > 0,
        to.len() > 0,
        p == from || !has_text(s, p),
        forall|j: int| 1 <= j < p.len() ==> #[trigger] p[j] != to[0],
        forall|i: int| 0 <= i < to.len() ==> #[trigger] clashes(to, p, i),
    ensures
        !has_text(replaced(s, from, to), p),
    decreases s.len(),
{
    let r = replaced(s, from, to);
    if has_text(r, p) {
        let i = choose|i: int| occurs_at(r, p, i);
        assert(r.subrange(i, i + p.len()) == p);
        assert forall|j: int| 0 <= j < p.len() implies #[trigger] p[j] == r[i + j] by {
            assert(r.subrange(i, i + p.len())[j] == r[i + j]);
        }
        if s.len() < from.len() {
            assert(occurs_at(s, p, i));
            if p == from {
                assert(i + p.len() <= s.len());
            }
        } else if has_prefix(s, from) {
            let rest = replaced(s.skip(from.len() as int), from, to);
            if i < to.len() {
                assert(clashes(to, p, i));
                let j = choose|j: int|
                    0 <= j < p.len() && i + j < to.len() && #[trigger] p[j] != to[i + j];
                assert(r[i + j] == to[i + j]);
            } else {
                let k = i - to.len();
                assert(rest.subrange(k, k + p.len()) =~= p);
                assert(occurs_at(rest, p, k));
                if p != from {
                    lemma_absent_behind(s, p, from.len() as int);
                }
                lemma_replaced_is_gone(s.skip(from.len() as int), from, to, p);
            }
        } else {
            let rest = replaced(s.skip(1), from, to);
            if i >= 1 {
                assert(rest.subrange(i - 1, i - 1 + p.len()) =~= p);
                assert(occurs_at(rest, p, i - 1));
                if p != from {
                    lemma_absent_behind(s, p, 1);
                }
                lemma_replaced_is_gone(s.skip(1), from, to, p);
            } else {
                let k = p.len() - 1;
                assert forall|j: int| 0 <= j < k implies #[trigger] rest[j] != to[0] by {
                    assert(r[j + 1] == rest[j]);
                    assert(p[j + 1] == r[0 + (j + 1)]);
                }
                lemma_replaced_front(s.skip(1), from, to, k);
                assert(s.skip(1).take(k) =~= rest.take(k));
                assert forall|j: int| 0 <= j < p.len() implies #[trigger] p[j] == s[j] by {
                    assert(p[j] == r[0 + j]);
                    if j > 0 {
                        assert(s.skip(1).take(k)[j - 1] == rest.take(k)[j - 1]);
                        assert(r[j] == rest[j - 1]);
                    }
                }
                assert(s.subrange(0, p.len() as int) =~= p);
                assert(s.take(p.len() as int) =~= p);
                assert(occurs_at(s, p, 0));
            }
        }
    }
}

/// What does not stand in a text does not stand in its end.
proof fn lemma_absent_behind(s: Seq<char>, p: Seq<char>, k: int)
    requires
        0 <= k <= s.len(),
        !has_text(s, p),
    ensures
        !has_text(s.skip(k), p),
{
    if has_text(s.skip(k), p) {
        let i = choose|i: int| occurs_at(s.skip(k), p, i);
        assert(s.subrange(k + i, k + i + p.len()) =~= s.skip(k).subrange(i, i + p.len()));
        assert(occurs_at(s, p, k + i));
    }
}

/// A text that a replacement cannot bring in is not in the result of a single one, if it was not
/// there before.
pub proof fn lemma_replaced_first_is_gone(
    s: Seq<char>,
    from: Seq<char>,
    to: Seq<char>,
    p: Seq<char>,
)
    requires
        from.len() > 0,
        p.len() > 0,
        to.len() > 0,
        !has_text(s, p),
        forall|j: int| 1 <= j < p.len() ==> #[trigger] p[j] != to[0],
        forall|i: int| 0 <= i < to.len() ==> #[trigger] clashes(to, p, i),
    ensures
        !has_text(replaced_first(s, from, to), p),
    decreases s.len(),
{
    let r = replaced_first(s, from, to);
    if has_text(r, p) {
        let i = choose|i: int| occurs_at(r, p, i);
        assert(r.subrange(i, i + p.len()) == p);
        assert forall|j: int| 0 <= j < p.len() implies #[trigger] p[j] == r[i + j] by {
            assert(r.subrange(i, i + p.len())[j] == r[i + j]);
        }
        if s.len() < from.len() {
            assert(occurs_at(s, p, i));
        } else if has_prefix(s, from) {
            if i < to.len() {
                assert(clashes(to, p, i));
                let j = choose|j: int|
                    0 <= j < p.len() && i + j < to.len() && #[trigger] p[j] != to[i + j];
                assert(r[i + j] == to[i + j]);
            } else {
                let rest = s.skip(from.len() as int);
                let k = i - to.len();
                assert(rest.subrange(k, k + p.len()) =~= p);
                assert(occurs_at(rest, p, k));
                lemma_absent_behind(s, p, from.len() as int);
            }
        } else {
            let rest = replaced_first(s.skip(1), from, to);
            lemma_absent_behind(s, p, 1);
            if i >= 1 {
                assert(rest.subrange(i - 1, i - 1 + p.len()) =~= p);
                assert(occurs_at(rest, p, i - 1));
                lemma_replaced_first_is_gone(s.skip(1), from, to, p);
            } else {
                let k = p.len() - 1;
                assert forall|j: int| 0 <= j < k implies #[trigger] rest[j] != to[0] by {
                    assert(r[j + 1] == rest[j]);
                    assert(p[j + 1] == r[0 + (j + 1)]);
                }
                lemma_replaced_first_front(s.skip(1), from, to, k);
                assert forall|j: int| 0 <= j < p.len() implies #[trigger] p[j] == s[j] by {
                    assert(p[j] == r[0 + j]);
                    if j > 0 {
                        assert(s.skip(1).take(k)[j - 1] == rest.take(k)[j - 1]);
                        assert(r[j] == rest[j - 1]);
                    }
                }
                assert(s.subrange(0, p.len() as int) =~= p);
                assert(occurs_at(s, p, 0));
            }
        }
    }
}

/// What stands in front of the replacement was there before.
proof fn lemma_replaced_first_front(s: Seq<char>, from: Seq<char>, to: Seq<char>, k: int)
    requires
        to.len() > 0,
        0 <= k <= replaced_first(s, from, to).len(),
        forall|j: int| 0 <= j < k ==> #[trigger] replaced_first(s, from, to)[j] != to[0],
    ensures
        k <= s.len(),
        s.take(k) == replaced_first(s, from, to).take(k),
    decreases s.len(),
{
    let r = replaced_first(s, from, to);
    if k > 0 && from.len() > 0 && s.len() >= from.len() {
        if has_prefix(s, from) {
            assert(r[0] == to[0]);
        } else {
            let rest = replaced_first(s.skip(1), from, to);
            assert forall|j: int| 0 <= j < k - 1 implies #[trigger] rest[j] != to[0] by {
                assert(r[j + 1] == rest[j]);
            }
            lemma_replaced_first_front(s.skip(1), from, to, k - 1);
            assert(s.take(k) =~= s.take(1) + s.skip(1).take(k - 1));
            assert(r.take(k) =~= s.take(1) + rest.take(k - 1));
        }
    } else {
        assert(s.take(k) =~= r.take(k));
    }
}

// ---------------------------------------------------------------------------
// Cutting at a character
// ---------------------------------------------------------------------------

/// The text in front of the first `c` and the text behind it, if `s` holds a `c`.
pub open spec fn cut_once(s: Seq<char>, c: char) -> Option<(Seq<char>, Seq<char>)>
    decreases s.len(),
{
    if s.len() == 0 {
        None
    } else if s[0] == c {
        Some((Seq::empty(), s.skip(1)))
    } else {
        match cut_once(s.skip(1), c) {
            Some((a, b)) => Some((s.take(1) + a, b)),
            None => None,
        }
    }
}

/// The text behind the last `c`, or all of it where it holds none.
pub open spec fn after_last(s: Seq<char>, c: char) -> Seq<char>
    decreases s.len(),
{
    if s.len() == 0 || s.last() == c {
        Seq::empty()
    } else {
        after_last(s.drop_last(), c).push(s.last())
    }
}

/// The lines of a text that ends in a line break and of a text behind it are those of the first
/// and then those of the second.
pub proof fn lines_of_joined_texts(a: Seq<char>, b: Seq<char>)
    ensures
        lines(a.push('\n') + b) == lines(a.push('\n')) + lines(b),
{
    let seps = seq!['\n'];
    lemma_split_pieces(a, seps);
    lemma_split_pieces(b, seps);
    lemma_split_concat(a.push('\n'), b, seps);
    assert(seps[0] == '\n');
    assert(a.push('\n').drop_last() =~= a);
    let first = split(a, seps);
    let second = split(b, seps);
    assert(first.push(Seq::<char>::empty()).drop_last() =~= first);
    assert(Seq::<char>::empty() + b =~= b);
    assert(split(a.push('\n') + b, seps) == first + second);
    assert((first + second).drop_last() =~= first + second.drop_last());
    assert(lines(a.push('\n') + b) =~= lines(a.push('\n')) + lines(b));
}

/// A line break at the end of a text ends its last line, and adds an empty one where that is ended
/// already.
pub proof fn lines_of_ended_text(a: Seq<char>)
    ensures
        lines(a.push('\n')) == if split(a, seq!['\n']).last().len() == 0 {
            lines(a).push(Seq::empty())
        } else {
            lines(a).drop_last().push(without_cr(lines(a).last()))
        },
        split(a, seq!['\n']).last().len() > 0 ==> lines(a).len() > 0,
{
    let seps = seq!['\n'];
    lemma_split_pieces(a, seps);
    assert(seps[0] == '\n');
    assert(a.push('\n').drop_last() =~= a);
    let first = split(a, seps);
    assert(first.push(Seq::<char>::empty()).drop_last() =~= first);
    if first.last().len() == 0 {
        assert(without_cr(first.last()) =~= Seq::<char>::empty());
        assert(lines(a.push('\n')) =~= lines(a).push(Seq::empty()));
    } else {
        assert(lines(a.push('\n')) =~= lines(a).drop_last().push(without_cr(lines(a).last())));
    }
}

/// Text behind a text lengthens its last piece and adds the pieces that follow.
pub proof fn lemma_split_concat(a: Seq<char>, b: Seq<char>, seps: Seq<char>)
    ensures
        split(a + b, seps) == split(a, seps).drop_last() + split(split(a, seps).last() + b, seps),
    decreases b.len(),
{
    lemma_split_pieces(a, seps);
    let last = split(a, seps).last();
    if b.len() == 0 {
        assert(a + b =~= a);
        assert(last + b =~= last);
        lemma_split_whole(last, seps);
        assert(split(a, seps) =~= split(a, seps).drop_last() + split(last, seps));
    } else {
        let c = b.drop_last();
        lemma_split_concat(a, c, seps);
        lemma_split_pieces(last + c, seps);
        assert((a + b).drop_last() =~= a + c);
        assert((last + b).drop_last() =~= last + c);
        let front = split(a, seps).drop_last();
        let before = split(last + c, seps);
        assert((front + before).drop_last() =~= front + before.drop_last());
        assert(split(a + b, seps) =~= front + split(last + b, seps));
    }
}

/// A text without separators is one piece.
proof fn lemma_split_whole(s: Seq<char>, seps: Seq<char>)
    requires
        forall|i: int| 0 <= i < s.len() ==> !seps.contains(#[trigger] s[i]),
    ensures
        split(s, seps) == seq![s],
    decreases s.len(),
{
    if s.len() > 0 {
        assert forall|i: int| 0 <= i < s.drop_last().len() implies !seps.contains(
            #[trigger] s.drop_last()[i],
        ) by {
            assert(s.drop_last()[i] == s[i]);
        }
        lemma_split_whole(s.drop_last(), seps);
        assert(seq![s.drop_last()].drop_last() =~= Seq::<Seq<char>>::empty());
        assert(s.drop_last().push(s.last()) =~= s);
        assert(split(s, seps) =~= seq![s]);
    } else {
        assert(s =~= Seq::<char>::empty());
    }
}

/// The two sides of a cut hold the whole text, and the front holds no further `c`.
pub proof fn cut_holds_the_whole_text(s: Seq<char>, c: char)
    ensures
        match cut_once(s, c) {
            Some((a, b)) => s == a.push(c) + b && !a.contains(c),
            None => !s.contains(c),
        },
    decreases s.len(),
{
    if s.len() > 0 {
        let t = s.skip(1);
        cut_holds_the_whole_text(t, c);
        if s[0] == c {
            assert(s =~= Seq::<char>::empty().push(c) + t);
        } else {
            match cut_once(t, c) {
                Some((a, b)) => {
                    assert(s =~= s.take(1) + t);
                    assert((s.take(1) + a).push(c) + b =~= s.take(1) + (a.push(c) + b));
                    assert(!(s.take(1) + a).contains(c));
                },
                None => {
                    assert forall|i: int| 0 <= i < s.len() implies s[i] != c by {
                        if i > 0 {
                            assert(t[i - 1] == s[i]);
                        }
                    }
                },
            }
        }
    }
}

/// The text in front of the first `c` of `s` and the text behind it.
pub fn split_once(s: &str, c: char) -> (r: Option<(String, String)>)
    ensures
        match r {
            Some((a, b)) => cut_once(s@, c) == Some((a@, b@)),
            None => cut_once(s@, c) is None,
        },
{
    let v: Vec<char> = text::chars_of(s);
    let mut i: usize = 0;
    assert(v@.skip(0) =~= v@);
    proof {
        match cut_once(v@, c) {
            Some((a, b)) => {
                assert(v@.take(0) + a =~= a);
            },
            None => {},
        }
    }
    while i < v.len()
        invariant
            i <= v@.len(),
            v@ == s@,
            cut_once(s@, c) == (match cut_once(v@.skip(i as int), c) {
                Some((a, b)) => Some((v@.take(i as int) + a, b)),
                None => None,
            }),
        decreases v@.len() - i,
    {
        let ghost rest = v@.skip(i as int);
        assert(rest[0] == v@[i as int]);
        assert(rest.skip(1) =~= v@.skip(i + 1));
        if v[i] == c {
            let n: usize = v.len();
            let a: &[char] = slice_subrange(v.as_slice(), 0, i);
            let b: &[char] = slice_subrange(v.as_slice(), i + 1, n);
            assert(a@ =~= v@.take(i as int) + Seq::<char>::empty());
            assert(b@ =~= v@.skip(i + 1));
            return Some((text::string_of(a), text::string_of(b)));
        }
        proof {
            match cut_once(v@.skip(i + 1), c) {
                Some((a, b)) => {
                    assert(v@.take(i as int) + (rest.take(1) + a) =~= v@.take(i + 1) + a);
                },
                None => {},
            }
        }
        i = i + 1;
    }
    None
}

/// The text of `s` behind its last `c`.
pub fn last_piece(s: &str, c: char) -> (r: String)
    ensures
        r@ == after_last(s@, c),
{
    let v: Vec<char> = text::chars_of(s);
    let n: usize = v.len();
    let mut k: usize = n;
    assert(v@.take(n as int) =~= v@);
    assert(after_last(v@, c) =~= after_last(v@.take(n as int), c) + v@.skip(n as int));
    while k > 0 && v[k - 1] != c
        invariant
            k <= n,
            n == v@.len(),
            after_last(v@, c) == after_last(v@.take(k as int), c) + v@.skip(k as int),
        decreases k,
    {
        assert(v@.take(k as int).drop_last() =~= v@.take(k - 1));
        assert(after_last(v@.take(k as int), c) + v@.skip(k as int) =~= after_last(
            v@.take(k - 1),
            c,
        ) + v@.skip(k - 1));
        k = k - 1;
    }
    let w: &[char] = slice_subrange(v.as_slice(), k, n);
    assert(w@ =~= v@.skip(k as int));
    assert(w@ =~= after_last(v@.take(k as int), c) + v@.skip(k as int));
    text::string_of(w)
}

/// The pieces of `s` between commas, without the white space around them; empty ones left out.
pub open spec fn comma_list(s: Seq<char>) -> Seq<Seq<char>> {
    kept(split(s, seq![',']))
}

/// The pieces without the white space around them; empty ones left out.
pub open spec fn kept(pieces: Seq<Seq<char>>) -> Seq<Seq<char>>
    decreases pieces.len(),
{
    if pieces.len() == 0 {
        Seq::empty()
    } else {
        let before = kept(pieces.drop_last());
        let t = text::trimmed(pieces.last());
        if t.len() == 0 {
            before
        } else {
            before.push(t)
        }
    }
}

/// The pieces of `s` between commas, without the white space around them; empty ones left out.
pub fn comma_separated(s: &str) -> (r: Vec<String>)
    ensures
        text::texts(r@) == comma_list(s@),
{
    let pieces: Vec<String> = split_at_char(s, ',');
    let ghost all = text::texts(pieces@);
    let mut out: Vec<String> = Vec::new();
    assert(text::texts(out@) =~= kept(all.take(0)));
    for i in 0..pieces.len()
        invariant
            all == text::texts(pieces@),
            text::texts(out@) == kept(all.take(i as int)),
    {
        assert(all.take(i + 1).drop_last() =~= all.take(i as int));
        let t: String = text::trim(pieces[i].as_str());
        let ghost before = text::texts(out@);
        let ghost shown = t@;
        if !t.as_str().is_empty() {
            out.push(t);
            assert(text::texts(out@) =~= before.push(shown));
        }
    }
    assert(all.take(all.len() as int) =~= all);
    out
}

// ---------------------------------------------------------------------------
// Laws
// ---------------------------------------------------------------------------

/// A text starts with another exactly where it is that text with something behind it, and ends with
/// another exactly where it is that text with something in front; it holds another exactly where
/// it is that text with something on both sides.
pub proof fn parts_of_a_text(a: Seq<char>, p: Seq<char>, b: Seq<char>)
    ensures
        has_prefix(p + b, p),
        has_suffix(a + p, p),
        has_text(a + p + b, p),
        has_prefix(a, p) ==> a == p + a.skip(p.len() as int),
        has_suffix(a, p) ==> a == a.take(a.len() - p.len()) + p,
        after_prefix(p + b, p) == Some(b),
        !has_prefix(a, p) ==> after_prefix(a, p) is None,
{
    assert((p + b).take(p.len() as int) =~= p);
    assert((p + b).skip(p.len() as int) =~= b);
    assert((a + p).skip((a + p).len() - p.len()) =~= p);
    let s = a + p + b;
    assert(s.subrange(a.len() as int, a.len() as int + p.len()) =~= p);
    assert(occurs_at(s, p, a.len() as int));
    if has_prefix(a, p) {
        assert(a =~= a.take(p.len() as int) + a.skip(p.len() as int));
    }
    if has_suffix(a, p) {
        assert(a =~= a.take(a.len() - p.len()) + a.skip(a.len() - p.len()));
    }
}

/// Where a text is held by another, the other can be taken apart around it.
pub proof fn held_text_can_be_cut_out(s: Seq<char>, p: Seq<char>)
    ensures
        has_text(s, p) <==> exists|i: int|
            0 <= i <= s.len() - p.len() && s == #[trigger] s.take(i) + p + s.skip(i + p.len()),
{
    if has_text(s, p) {
        let i = choose|i: int| occurs_at(s, p, i);
        assert(s =~= s.take(i) + s.subrange(i, i + p.len()) + s.skip(i + p.len()));
    }
    if exists|i: int|
        0 <= i <= s.len() - p.len() && s == #[trigger] s.take(i) + p + s.skip(i + p.len()) {
        let i = choose|i: int|
            0 <= i <= s.len() - p.len() && s == #[trigger] s.take(i) + p + s.skip(i + p.len());
        let whole = s.take(i) + p + s.skip(i + p.len());
        assert(whole.subrange(i, i + p.len()) =~= p);
        assert(occurs_at(s, p, i));
    }
}

/// Texts without a separator, joined by it, are the pieces between the separators again.
pub proof fn splitting_undoes_joining(pieces: Seq<Seq<char>>, sep: char)
    requires
        pieces.len() > 0,
        forall|i: int| 0 <= i < pieces.len() ==> !(#[trigger] pieces[i]).contains(sep),
    ensures
        split(joined(pieces, seq![sep]), seq![sep]) == pieces,
    decreases pieces.len(),
{
    let seps = seq![sep];
    let last = pieces.last();
    assert(!pieces[pieces.len() - 1].contains(sep));
    assert forall|i: int| 0 <= i < last.len() implies !seps.contains(#[trigger] last[i]) by {
        if seps.contains(last[i]) {
            assert(last[i] == sep);
            assert(last.contains(sep));
        }
    }
    lemma_split_whole(last, seps);
    if pieces.len() == 1 {
        assert(seq![last] =~= pieces);
    } else {
        let front = pieces.drop_last();
        assert forall|i: int| 0 <= i < front.len() implies !(#[trigger] front[i]).contains(sep) by {
            assert(front[i] == pieces[i]);
        }
        splitting_undoes_joining(front, sep);
        let a = joined(front, seps);
        assert(joined(pieces, seps) =~= a.push(sep) + last);
        lemma_split_concat(a.push(sep), last, seps);
        assert(seps[0] == sep);
        assert(a.push(sep).drop_last() =~= a);
        assert(split(a.push(sep), seps) == front.push(Seq::<char>::empty()));
        assert(front.push(Seq::<char>::empty()).drop_last() =~= front);
        assert(Seq::<char>::empty() + last =~= last);
        assert(front + seq![last] =~= pieces);
    }
}

/// The lines of texts that hold no line break, each ended by one, are these texts; the last of them
/// may do without the break where it is not empty. A carriage return in front of a break is part of
/// the break.
pub proof fn lines_are_what_stands_between_breaks(texts: Seq<Seq<char>>)
    requires
        texts.len() > 0,
        forall|i: int| 0 <= i < texts.len() ==> !(#[trigger] texts[i]).contains('\n'),
        forall|i: int|
            0 <= i < texts.len() ==> !(#[trigger] texts[i].len() > 0 && texts[i].last() == '\r'),
    ensures
        lines(joined(texts, seq!['\n']).push('\n')) == texts,
        texts.last().len() > 0 ==> lines(joined(texts, seq!['\n'])) == texts,
        lines(joined(texts, seq!['\r', '\n']) + seq!['\r', '\n']) == texts,
{
    let seps = seq!['\n'];
    let s = joined(texts, seps);
    splitting_undoes_joining(texts, '\n');
    assert(seps[0] == '\n');
    assert(s.push('\n').drop_last() =~= s);
    let parts = texts.push(Seq::<char>::empty());
    assert(split(s.push('\n'), seps) == parts);
    assert(parts.drop_last() =~= texts);
    assert forall|i: int| 0 <= i < texts.len() implies without_cr(#[trigger] texts[i])
        == texts[i] by {
        assert(!(texts[i].len() > 0 && texts[i].last() == '\r'));
    }
    assert(lines(s.push('\n')) =~= texts);
    if texts.last().len() > 0 {
        assert(lines(s) =~= texts);
    }
    let ended = texts.map_values(|t: Seq<char>| t.push('\r'));
    assert forall|i: int| 0 <= i < ended.len() implies !(#[trigger] ended[i]).contains('\n') by {
        assert(!texts[i].contains('\n'));
        if ended[i].contains('\n') {
            let k = choose|k: int| 0 <= k < ended[i].len() && ended[i][k] == '\n';
            assert(texts[i][k] == '\n');
        }
    }
    splitting_undoes_joining(ended, '\n');
    let e = joined(ended, seps);
    lemma_joined_with_cr(texts);
    assert(joined(texts, seq!['\r', '\n']) + seq!['\r', '\n'] =~= e.push('\n'));
    assert(e.push('\n').drop_last() =~= e);
    let pieces = ended.push(Seq::<char>::empty());
    assert(split(e.push('\n'), seps) == pieces);
    assert(pieces.drop_last() =~= ended);
    assert forall|i: int| 0 <= i < ended.len() implies without_cr(#[trigger] ended[i])
        == texts[i] by {
        assert(texts[i].push('\r').drop_last() =~= texts[i]);
    }
    assert(lines(e.push('\n')) =~= texts);
}

proof fn lemma_joined_with_cr(texts: Seq<Seq<char>>)
    requires
        texts.len() > 0,
    ensures
        joined(texts.map_values(|t: Seq<char>| t.push('\r')), seq!['\n']) == joined(
            texts,
            seq!['\r', '\n'],
        ).push('\r'),
    decreases texts.len(),
{
    let ended = texts.map_values(|t: Seq<char>| t.push('\r'));
    if texts.len() > 1 {
        let front = texts.drop_last();
        lemma_joined_with_cr(front);
        assert(ended.drop_last() =~= front.map_values(|t: Seq<char>| t.push('\r')));
        assert(joined(ended, seq!['\n']) =~= joined(texts, seq!['\r', '\n']).push('\r'));
    }
}

/// The text behind the last `c` of a text holds no `c` itself and stands behind one; a text without
/// a `c` is all of it.
pub proof fn last_piece_stands_behind_the_last(a: Seq<char>, c: char, b: Seq<char>)
    requires
        !b.contains(c),
    ensures
        after_last(a.push(c) + b, c) == b,
        after_last(b, c) == b,
    decreases b.len(),
{
    if b.len() == 0 {
        assert(a.push(c) + b =~= a.push(c));
        assert(after_last(a.push(c), c) =~= b);
    } else {
        let d = b.drop_last();
        assert(!d.contains(c)) by {
            if d.contains(c) {
                let i = choose|i: int| 0 <= i < d.len() && d[i] == c;
                assert(b[i] == c);
            }
        }
        assert(b[b.len() - 1] == b.last());
        last_piece_stands_behind_the_last(a, c, d);
        assert((a.push(c) + b).drop_last() =~= a.push(c) + d);
        assert(d.push(b.last()) =~= b);
    }
}

/// A replacement puts the new text in place of the old one and leaves what stands around: in front
/// of the first occurrence nothing changes, and behind it the replacement goes on.
pub proof fn replacing_goes_from_left_to_right(
    s: Seq<char>,
    from: Seq<char>,
    to: Seq<char>,
    k: int,
)
    requires
        from.len() > 0,
        occurs_at(s, from, k),
        forall|i: int| 0 <= i < k ==> !occurs_at(s, from, i),
    ensures
        replaced(s, from, to) == s.take(k) + to + replaced(s.skip(k + from.len()), from, to),
        replaced_first(s, from, to) == s.take(k) + to + s.skip(k + from.len()),
    decreases s.len(),
{
    lemma_replaced_first_at(s, from, to, k);
    assert(s.subrange(0, from.len() as int) =~= s.take(from.len() as int));
    if k == 0 {
        assert(s.take(0) + to =~= to);
    } else {
        assert(!occurs_at(s, from, 0));
        let t = s.skip(1);
        assert forall|i: int| 0 <= i < k - 1 implies !occurs_at(t, from, i) by {
            if occurs_at(t, from, i) {
                assert(s.subrange(i + 1, i + 1 + from.len()) =~= t.subrange(i, i + from.len()));
                assert(occurs_at(s, from, i + 1));
            }
        }
        assert(t.subrange(k - 1, k - 1 + from.len()) =~= s.subrange(k, k + from.len()));
        replacing_goes_from_left_to_right(t, from, to, k - 1);
        assert(t.skip(k - 1 + from.len()) =~= s.skip(k + from.len()));
        assert(s.take(1) + (t.take(k - 1) + to + replaced(s.skip(k + from.len()), from, to))
            =~= s.take(k) + to + replaced(s.skip(k + from.len()), from, to));
    }
}

/// A comma-separated list keeps its items in order, without the white space around them; an item
/// of white space alone is left out.
pub proof fn list_grows_by_one_item(items: Seq<Seq<char>>, item: Seq<char>)
    requires
        items.len() > 0,
        forall|i: int| 0 <= i < items.len() ==> !(#[trigger] items[i]).contains(','),
        !item.contains(','),
    ensures
        comma_list(joined(items.push(item), seq![','])) == if text::trimmed(item).len() == 0 {
            comma_list(joined(items, seq![',']))
        } else {
            comma_list(joined(items, seq![','])).push(text::trimmed(item))
        },
        comma_list(item) == if text::trimmed(item).len() == 0 {
            Seq::empty()
        } else {
            seq![text::trimmed(item)]
        },
{
    let all = items.push(item);
    assert forall|i: int| 0 <= i < all.len() implies !(#[trigger] all[i]).contains(',') by {
        if i < items.len() {
            assert(all[i] == items[i]);
        }
    }
    splitting_undoes_joining(all, ',');
    splitting_undoes_joining(items, ',');
    assert(all.drop_last() =~= items);
    let one = seq![item];
    splitting_undoes_joining(one, ',');
    assert(joined(one, seq![',']) == item);
    assert(one.drop_last() =~= Seq::<Seq<char>>::empty());
    assert(kept(one.drop_last()) =~= Seq::<Seq<char>>::empty());
    assert(comma_list(item) =~= if text::trimmed(item).len() == 0 {
        Seq::empty()
    } else {
        seq![text::trimmed(item)]
    });
}

/// A text is split at each separator: the pieces of a text around one are those of its two sides, and
/// a text without any is one piece.
pub proof fn split_goes_on_behind_a_separator(
    a: Seq<char>,
    c: char,
    b: Seq<char>,
    seps: Seq<char>,
    i: int,
)
    requires
        0 <= i < seps.len(),
        seps[i] == c,
    ensures
        split(a.push(c) + b, seps) == split(a, seps) + split(b, seps),
        (forall|k: int| 0 <= k < a.len() ==> !seps.contains(#[trigger] a[k])) ==> split(a, seps)
            == seq![a],
{
    lemma_split_pieces(a, seps);
    lemma_split_concat(a.push(c), b, seps);
    assert(a.push(c).drop_last() =~= a);
    assert(split(a.push(c), seps) == split(a, seps).push(Seq::<char>::empty()));
    assert(split(a, seps).push(Seq::<char>::empty()).drop_last() =~= split(a, seps));
    assert(Seq::<char>::empty() + b =~= b);
    if forall|k: int| 0 <= k < a.len() ==> !seps.contains(#[trigger] a[k]) {
        lemma_split_whole(a, seps);
    }
}

/// A text in which `from` cannot start stays in front of what is replaced behind it.
pub proof fn lemma_replaced_behind(u: Seq<char>, rest: Seq<char>, from: Seq<char>, to: Seq<char>)
    requires
        from.len() > 0,
        forall|i: int| 0 <= i < u.len() ==> #[trigger] clashes(u, from, i),
    ensures
        replaced(u + rest, from, to) == u + replaced(rest, from, to),
        replaced_first(u + rest, from, to) == u + replaced_first(rest, from, to),
    decreases u.len(),
{
    let s = u + rest;
    if u.len() == 0 {
        assert(s =~= rest);
        assert(u + replaced(rest, from, to) =~= replaced(rest, from, to));
        assert(u + replaced_first(rest, from, to) =~= replaced_first(rest, from, to));
    } else if s.len() >= from.len() {
        assert(clashes(u, from, 0));
        let j = choose|j: int| 0 <= j < from.len() && 0 + j < u.len() && #[trigger] from[j] != u[0 + j];
        assert(s.take(from.len() as int)[j] == u[j]);
        assert(!has_prefix(s, from));
        let v = u.skip(1);
        assert forall|i: int| 0 <= i < v.len() implies #[trigger] clashes(v, from, i) by {
            assert(clashes(u, from, i + 1));
            let k = choose|k: int|
                0 <= k < from.len() && i + 1 + k < u.len() && #[trigger] from[k] != u[i + 1 + k];
            assert(v[i + k] == u[i + 1 + k]);
            assert(from[k] != v[i + k]);
        }
        lemma_replaced_behind(v, rest, from, to);
        assert(s.skip(1) =~= v + rest);
        assert(s.take(1) + (v + replaced(rest, from, to)) =~= u + replaced(rest, from, to));
        assert(s.take(1) + (v + replaced_first(rest, from, to)) =~= u + replaced_first(
            rest,
            from,
            to,
        ));
    }
}

/// `from` cannot start in a text that does not hold its first character.
pub proof fn lemma_no_start(u: Seq<char>, from: Seq<char>)
    requires
        from.len() > 0,
        !u.contains(from[0]),
    ensures
        forall|i: int| 0 <= i < u.len() ==> #[trigger] clashes(u, from, i),
{
    assert forall|i: int| 0 <= i < u.len() implies #[trigger] clashes(u, from, i) by {
        assert(u.contains(u[i]));
        assert(from[0] != u[i + 0]);
    }
}

/// Where `from` can start in neither of two texts, it can start in none of them put together.
pub proof fn lemma_no_start_in_both(a: Seq<char>, b: Seq<char>, from: Seq<char>)
    requires
        forall|i: int| 0 <= i < a.len() ==> #[trigger] clashes(a, from, i),
        forall|i: int| 0 <= i < b.len() ==> #[trigger] clashes(b, from, i),
    ensures
        forall|i: int| 0 <= i < (a + b).len() ==> #[trigger] clashes(a + b, from, i),
{
    let u = a + b;
    assert forall|i: int| 0 <= i < u.len() implies #[trigger] clashes(u, from, i) by {
        if i < a.len() {
            assert(clashes(a, from, i));
            let k = choose|k: int|
                0 <= k < from.len() && i + k < a.len() && #[trigger] from[k] != a[i + k];
            assert(from[k] != u[i + k]);
        } else {
            let n = i - a.len();
            assert(clashes(b, from, n));
            let k = choose|k: int|
                0 <= k < from.len() && n + k < b.len() && #[trigger] from[k] != b[n + k];
            assert(u[i + k] == b[n + k]);
            assert(from[k] != u[i + k]);
        }
    }
}

/// A replacement at the start of a text goes on behind it.
pub proof fn lemma_replaced_here(from: Seq<char>, rest: Seq<char>, to: Seq<char>)
    requires
        from.len() > 0,
    ensures
        replaced(from + rest, from, to) == to + replaced(rest, from, to),
        replaced_first(from + rest, from, to) == to + rest,
{
    let s = from + rest;
    assert(s.take(from.len() as int) =~= from);
    assert(s.skip(from.len() as int) =~= rest);
}

/// A text that does not hold `p` stays free of it in front of a text in which `p` can neither start
/// nor go on.
pub proof fn lemma_no_start_in_row(x: Seq<char>, link: Seq<char>, p: Seq<char>)
    requires
        !has_text(x, p),
        link.len() > 0,
        forall|j: int| 1 <= j < p.len() ==> #[trigger] p[j] != link[0],
        forall|i: int| 0 <= i < link.len() ==> #[trigger] clashes(link, p, i),
    ensures
        forall|i: int| 0 <= i < (x + link).len() ==> #[trigger] clashes(x + link, p, i),
{
    let u = x + link;
    assert forall|i: int| 0 <= i < u.len() implies #[trigger] clashes(u, p, i) by {
        if i >= x.len() {
            let n = i - x.len();
            assert(clashes(link, p, n));
            let k = choose|k: int|
                0 <= k < p.len() && n + k < link.len() && #[trigger] p[k] != link[n + k];
            assert(u[i + k] == link[n + k]);
            assert(p[k] != u[i + k]);
        } else if i + p.len() <= x.len() {
            assert(!occurs_at(x, p, i));
            if forall|k: int| 0 <= k < p.len() ==> #[trigger] p[k] == x[i + k] {
                assert(x.subrange(i, i + p.len()) =~= p);
            }
            let k = choose|k: int| 0 <= k < p.len() && #[trigger] p[k] != x[i + k];
            assert(p[k] != u[i + k]);
        } else {
            let k = x.len() - i;
            assert(u[i + k] == link[0]);
            assert(p[k] != u[i + k]);
        }
    }
}

/// The first replacement in a text that holds `from` behind a text that does not.
pub proof fn lemma_replaced_next(x: Seq<char>, from: Seq<char>, rest: Seq<char>, to: Seq<char>)
    requires
        from.len() > 0,
        !has_text(x, from),
        forall|j: int| 1 <= j < from.len() ==> #[trigger] from[j] != from[0],
    ensures
        replaced(x + from + rest, from, to) == x + to + replaced(rest, from, to),
        replaced_first(x + from + rest, from, to) == x + to + rest,
{
    let s = x + from + rest;
    let n = x.len() as int;
    assert(s.subrange(n, n + from.len()) =~= from);
    assert forall|i: int| 0 <= i < n implies !occurs_at(s, from, i) by {
        if occurs_at(s, from, i) {
            assert(s.subrange(i, i + from.len()) == from);
            if i + from.len() <= n {
                assert(x.subrange(i, i + from.len()) =~= s.subrange(i, i + from.len()));
                assert(occurs_at(x, from, i));
            } else {
                assert(s.subrange(i, i + from.len())[n - i] == s[n]);
                assert(from[n - i] == from[0]);
            }
        }
    }
    replacing_goes_from_left_to_right(s, from, to, n);
    assert(s.take(n) =~= x);
    assert(s.skip(n + from.len()) =~= rest);
}

}
