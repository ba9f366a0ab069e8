//! Unix paths as byte sequences, with the conventions of `std::path`, and the check that keeps a
//! requested path inside a directory.

use vstd::prelude::*;
use vstd::slice::slice_subrange;
use vstd::utf8::*;

verus! {

/// The separator of path segments, `/`.
pub const SEPARATOR: u8 = 47;

/// The byte `.`.
pub const DOT: u8 = 46;

// ---------------------------------------------------------------------------
// Components
// ---------------------------------------------------------------------------

/// A component of a path.
#[derive(Debug, PartialEq)]
pub enum Part {
    /// The root directory, in front of an absolute path.
    Root,
    /// `.` in front of a relative path.
    Current,
    /// `..`
    Parent,
    /// A name.
    Normal(Vec<u8>),
}

/// The contents of a [`Part`].
pub enum PartView {
    Root,
    Current,
    Parent,
    Normal(Seq<u8>),
}

impl View for Part {
    type V = PartView;

    open spec fn view(&self) -> PartView {
        match self {
            Part::Root => PartView::Root,
            Part::Current => PartView::Current,
            Part::Parent => PartView::Parent,
            Part::Normal(name) => PartView::Normal(name@),
        }
    }
}

/// The contents of a list of parts.
pub open spec fn part_views(v: Seq<Part>) -> Seq<PartView> {
    v.map_values(|p: Part| p@)
}

/// The text between the separators of a path.
pub open spec fn segments(p: Seq<u8>) -> Seq<Seq<u8>>
    decreases p.len(),
{
    if p.len() == 0 {
        seq![Seq::empty()]
    } else {
        let before = segments(p.drop_last());
        if p.last() == SEPARATOR {
            before.push(Seq::empty())
        } else {
            before.drop_last().push(before.last().push(p.last()))
        }
    }
}

/// What one segment adds to the components: an empty one and a dot add nothing.
pub open spec fn part_of(segment: Seq<u8>) -> Seq<PartView> {
    if segment.len() == 0 || segment == seq![DOT] {
        Seq::empty()
    } else if segment == seq![DOT, DOT] {
        seq![PartView::Parent]
    } else {
        seq![PartView::Normal(segment)]
    }
}

/// The components that a list of segments stands for.
pub open spec fn body(segs: Seq<Seq<u8>>) -> Seq<PartView>
    decreases segs.len(),
{
    if segs.len() == 0 {
        Seq::empty()
    } else {
        body(segs.drop_last()) + part_of(segs.last())
    }
}

pub open spec fn is_absolute(p: Seq<u8>) -> bool {
    p.len() > 0 && p[0] == SEPARATOR
}

/// Whether a path starts with a dot that stands as a component of its own.
pub open spec fn starts_current(p: Seq<u8>) -> bool {
    p.len() > 0 && p[0] == DOT && (p.len() == 1 || p[1] == SEPARATOR)
}

/// The component in front of all segments.
pub open spec fn head(p: Seq<u8>) -> Seq<PartView> {
    if is_absolute(p) {
        seq![PartView::Root]
    } else if starts_current(p) {
        seq![PartView::Current]
    } else {
        Seq::empty()
    }
}

/// The components of a path. Repeated and trailing separators add nothing, and a dot counts only
/// in front of a relative path.
pub open spec fn parts(p: Seq<u8>) -> Seq<PartView> {
    head(p) + body(segments(p))
}

/// Whether one path starts with the components of another.
pub open spec fn is_within(p: Seq<u8>, root: Seq<u8>) -> bool {
    parts(root).len() <= parts(p).len() && parts(p).take(parts(root).len() as int) == parts(root)
}

/// Whether a path goes up anywhere.
pub open spec fn has_parent_part(p: Seq<u8>) -> bool {
    exists|i: int| 0 <= i < parts(p).len() && #[trigger] parts(p)[i] is Parent
}

/// The path `rel` as seen from `base`: `rel` itself where it is absolute.
pub open spec fn joined(base: Seq<u8>, rel: Seq<u8>) -> Seq<u8> {
    if is_absolute(rel) {
        rel
    } else if base.len() > 0 && base.last() != SEPARATOR {
        base.push(SEPARATOR) + rel
    } else {
        base + rel
    }
}

proof fn lemma_segments(p: Seq<u8>)
    ensures
        segments(p).len() >= 1,
        forall|i: int| 0 <= i < segments(p).len() ==> !(#[trigger] segments(p)[i]).contains(
            SEPARATOR,
        ),
    decreases p.len(),
{
    if p.len() > 0 {
        lemma_segments(p.drop_last());
        let before = segments(p.drop_last());
        let after = segments(p);
        assert forall|i: int| 0 <= i < after.len() implies !(#[trigger] after[i]).contains(
            SEPARATOR,
        ) by {
            if i < before.len() {
                assert(!before[i].contains(SEPARATOR));
            }
        }
    }
}

/// The component that a segment stands for, if any.
fn part_from(segment: Vec<u8>) -> (r: Option<Part>)
    ensures
        match r {
            Some(p) => part_of(segment@) == seq![p@],
            None => part_of(segment@) == Seq::<PartView>::empty(),
        },
{
    assert(segment@.len() == 1 && segment@[0] == DOT ==> segment@ =~= seq![DOT]);
    assert(segment@.len() == 2 && segment@[0] == DOT && segment@[1] == DOT ==> segment@ =~= seq![
        DOT,
        DOT,
    ]);
    if segment.len() == 0 || (segment.len() == 1 && segment[0] == DOT) {
        None
    } else if segment.len() == 2 && segment[0] == DOT && segment[1] == DOT {
        Some(Part::Parent)
    } else {
        assert(segment@ != seq![DOT] && segment@ != seq![DOT, DOT]);
        Some(Part::Normal(segment))
    }
}

/// The components of a path.
pub fn parts_of(p: &[u8]) -> (r: Vec<Part>)
    ensures
        part_views(r@) == parts(p@),
{
    let mut out: Vec<Part> = Vec::new();
    if p.len() > 0 && p[0] == SEPARATOR {
        out.push(Part::Root);
    } else if p.len() > 0 && p[0] == DOT && (p.len() == 1 || p[1] == SEPARATOR) {
        out.push(Part::Current);
    }
    let mut cur: Vec<u8> = Vec::new();
    let ghost mut done: Seq<Seq<u8>> = Seq::empty();
    assert(part_views(out@) =~= head(p@) + body(done));
    assert(done.push(cur@) =~= segments(p@.take(0)));
    for i in 0..p.len()
        invariant
            part_views(out@) == head(p@) + body(done),
            done.push(cur@) == segments(p@.take(i as int)),
    {
        let c: u8 = p[i];
        assert(p@.take(i + 1).drop_last() =~= p@.take(i as int));
        assert(segments(p@.take(i as int)).drop_last() =~= done);
        if c == SEPARATOR {
            let ghost next = done.push(cur@);
            assert(next.drop_last() =~= done);
            let ghost before = part_views(out@);
            if let Some(part) = part_from(cur) {
                out.push(part);
                assert(part_views(out@) =~= before + seq![part@]);
            }
            assert(part_views(out@) =~= head(p@) + body(next));
            cur = Vec::new();
            proof {
                done = next;
            }
        } else {
            cur.push(c);
        }
    }
    assert(p@.take(p@.len() as int) =~= p@);
    let ghost all = segments(p@);
    assert(all.drop_last() =~= done);
    let ghost before = part_views(out@);
    if let Some(part) = part_from(cur) {
        out.push(part);
        assert(part_views(out@) =~= before + seq![part@]);
    }
    assert(part_views(out@) =~= parts(p@));
    out
}

/// Whether two components are the same.
fn same_part(a: &Part, b: &Part) -> (r: bool)
    ensures
        r == (a@ == b@),
{
    match (a, b) {
        (Part::Root, Part::Root) => true,
        (Part::Current, Part::Current) => true,
        (Part::Parent, Part::Parent) => true,
        (Part::Normal(x), Part::Normal(y)) => same_bytes(x.as_slice(), y.as_slice()),
        _ => false,
    }
}

/// Whether two byte sequences are the same.
fn same_bytes(a: &[u8], b: &[u8]) -> (r: bool)
    ensures
        r == (a@ == b@),
{
    if a.len() != b.len() {
        return false;
    }
    for i in 0..a.len()
        invariant
            a@.len() == b@.len(),
            forall|j: int| 0 <= j < i ==> a@[j] == b@[j],
    {
        if a[i] != b[i] {
            return false;
        }
    }
    assert(a@ =~= b@);
    true
}

/// Whether `p` starts with the components of `root`.
pub fn within(p: &[u8], root: &[u8]) -> (r: bool)
    ensures
        r == is_within(p@, root@),
{
    let a: Vec<Part> = parts_of(p);
    let b: Vec<Part> = parts_of(root);
    assert(part_views(a@).len() == a@.len());
    assert(part_views(b@).len() == b@.len());
    if b.len() > a.len() {
        return false;
    }
    for i in 0..b.len()
        invariant
            b@.len() <= a@.len(),
            part_views(a@) == parts(p@),
            part_views(b@) == parts(root@),
            forall|j: int| 0 <= j < i ==> (#[trigger] a@[j])@ == b@[j]@,
    {
        if !same_part(&a[i], &b[i]) {
            assert(parts(p@).take(b@.len() as int)[i as int] == a@[i as int]@);
            assert(parts(root@)[i as int] == b@[i as int]@);
            return false;
        }
    }
    assert forall|i: int| 0 <= i < b@.len() implies parts(p@).take(b@.len() as int)[i] == parts(
        root@,
    )[i] by {
        assert(a@[i]@ == b@[i]@);
    }
    assert(parts(p@).take(b@.len() as int) =~= parts(root@));
    true
}

/// Whether `p` goes up anywhere.
pub fn goes_up(p: &[u8]) -> (r: bool)
    ensures
        r == has_parent_part(p@),
{
    let a: Vec<Part> = parts_of(p);
    assert(part_views(a@).len() == a@.len());
    for i in 0..a.len()
        invariant
            part_views(a@) == parts(p@),
            part_views(a@).len() == a@.len(),
            forall|j: int| 0 <= j < i ==> !(#[trigger] parts(p@)[j] is Parent),
    {
        assert(parts(p@)[i as int] == a@[i as int]@);
        if let Part::Parent = &a[i] {
            assert(parts(p@)[i as int] is Parent);
            return true;
        }
    }
    false
}

/// The path `rel` as seen from `base`.
pub fn join(base: &[u8], rel: &[u8]) -> (r: Vec<u8>)
    ensures
        r@ == joined(base@, rel@),
{
    let mut out: Vec<u8> = Vec::new();
    if rel.len() > 0 && rel[0] == SEPARATOR {
        append(&mut out, rel);
        assert(out@ =~= rel@);
        return out;
    }
    append(&mut out, base);
    assert(out@ =~= base@);
    if base.len() > 0 && base[base.len() - 1] != SEPARATOR {
        out.push(SEPARATOR);
    }
    append(&mut out, rel);
    out
}

/// Adds bytes at the end.
fn append(out: &mut Vec<u8>, more: &[u8])
    ensures
        final(out)@ == old(out)@ + more@,
{
    let ghost start = out@;
    for i in 0..more.len()
        invariant
            out@ == start + more@.take(i as int),
    {
        out.push(more[i]);
        assert(more@.take(i + 1) =~= more@.take(i as int).push(more@[i as int]));
        assert(out@ =~= start + more@.take(i + 1));
    }
    assert(more@.take(more@.len() as int) =~= more@);
}

// ---------------------------------------------------------------------------
// Parents
// ---------------------------------------------------------------------------

/// The length of what stands in front of the segments of a path: the root, or a leading dot.
pub open spec fn body_start(p: Seq<u8>) -> int {
    if is_absolute(p) || starts_current(p) {
        1
    } else {
        0
    }
}

/// Where the last segment of `p` starts, at `from` or later.
pub open spec fn last_segment_start(p: Seq<u8>, from: int) -> int
    decreases p.len(),
{
    if p.len() == 0 || p.len() <= from || p.last() == SEPARATOR {
        p.len() as int
    } else {
        last_segment_start(p.drop_last(), from)
    }
}

/// The last segment of a path.
pub open spec fn last_segment(p: Seq<u8>) -> Seq<u8> {
    p.skip(last_segment_start(p, body_start(p)))
}

/// A path without its last segment and the separator in front of that.
pub open spec fn cut_last(p: Seq<u8>) -> Seq<u8> {
    let k = last_segment_start(p, body_start(p));
    if k > body_start(p) {
        p.take(k - 1)
    } else {
        p.take(k)
    }
}

/// A path without the trailing segments that are no component.
pub open spec fn end_trimmed(p: Seq<u8>) -> Seq<u8>
    decreases p.len(),
    via end_trimmed_decreases
{
    if p.len() > body_start(p) && part_of(last_segment(p)).len() == 0 {
        end_trimmed(cut_last(p))
    } else {
        p
    }
}

#[via_fn]
proof fn end_trimmed_decreases(p: Seq<u8>) {
    lemma_last_segment(p, body_start(p));
}

proof fn lemma_last_segment(p: Seq<u8>, from: int)
    requires
        0 <= from,
    ensures
        last_segment_start(p, from) <= p.len(),
        from <= p.len() ==> from <= last_segment_start(p, from),
        last_segment_start(p, from) > from ==> p[last_segment_start(p, from) - 1] == SEPARATOR,
        forall|i: int| last_segment_start(p, from) <= i < p.len() ==> p[i] != SEPARATOR,
    decreases p.len(),
{
    if !(p.len() == 0 || p.len() <= from || p.last() == SEPARATOR) {
        let t = p.drop_last();
        lemma_last_segment(t, from);
        assert forall|i: int| last_segment_start(p, from) <= i < p.len() implies p[i]
            != SEPARATOR by {
            if i < t.len() {
                assert(t[i] != SEPARATOR);
            }
        }
    }
}

/// The directory that a path lies in: the path without its last component. `None` for the root
/// and for an empty path.
pub open spec fn parent_of(p: Seq<u8>) -> Option<Seq<u8>> {
    let q = end_trimmed(p);
    if q.len() > body_start(q) {
        Some(end_trimmed(cut_last(q)))
    } else if q.len() > 0 && !is_absolute(q) {
        Some(Seq::empty())
    } else {
        None
    }
}

fn start_of_body(p: &[u8]) -> (r: usize)
    ensures
        r == body_start(p@),
        r <= p@.len(),
{
    if p.len() > 0 && (p[0] == SEPARATOR || (p[0] == DOT && (p.len() == 1 || p[1] == SEPARATOR))) {
        1
    } else {
        0
    }
}

fn start_of_last_segment(p: &[u8], from: usize) -> (k: usize)
    requires
        from <= p@.len(),
    ensures
        k == last_segment_start(p@, from as int),
        from <= k <= p@.len(),
{
    let mut k: usize = p.len();
    assert(p@.take(k as int) =~= p@);
    while k > from && p[k - 1] != SEPARATOR
        invariant
            from <= k <= p@.len(),
            last_segment_start(p@.take(k as int), from as int) == last_segment_start(
                p@,
                from as int,
            ),
        decreases k,
    {
        assert(p@.take(k as int).drop_last() =~= p@.take(k - 1));
        k = k - 1;
    }
    k
}

proof fn lemma_end_trimmed_len(p: Seq<u8>)
    ensures
        end_trimmed(p).len() <= p.len(),
    decreases p.len(),
{
    if p.len() > body_start(p) && part_of(last_segment(p)).len() == 0 {
        lemma_last_segment(p, body_start(p));
        lemma_end_trimmed_len(cut_last(p));
    }
}

/// The directory above a path is written with fewer bytes.
proof fn lemma_parent_is_shorter(p: Seq<u8>)
    ensures
        parent_of(p) matches Some(d) ==> d.len() < p.len(),
{
    let q = end_trimmed(p);
    lemma_end_trimmed_len(p);
    if q.len() > body_start(q) {
        lemma_last_segment(q, body_start(q));
        lemma_end_trimmed_len(cut_last(q));
        assert(cut_last(q).len() < q.len()) by {
            if last_segment_start(q, body_start(q)) == q.len() {
                assert(body_start(q) < q.len());
            }
        }
    }
}

/// Where `p` ends once the trailing segments that are no component are cut.
fn trimmed_end(p: &[u8]) -> (r: &[u8])
    ensures
        r@ == end_trimmed(p@),
{
    let mut q: &[u8] = p;
    loop
        invariant
            end_trimmed(q@) == end_trimmed(p@),
        decreases q@.len(),
    {
        let b: usize = start_of_body(q);
        if q.len() <= b {
            return q;
        }
        let k: usize = start_of_last_segment(q, b);
        let n: usize = q.len();
        let seg: &[u8] = slice_subrange(q, k, n);
        assert(seg@ =~= last_segment(q@));
        assert(seg@.len() == 1 && seg@[0] == DOT ==> seg@ =~= seq![DOT]);
        if !(seg.len() == 0 || (seg.len() == 1 && seg[0] == DOT)) {
            assert(seg@ != seq![DOT]);
            return q;
        }
        let cut: usize = if k > b {
            k - 1
        } else {
            k
        };
        proof {
            lemma_last_segment(q@, b as int);
        }
        let next: &[u8] = slice_subrange(q, 0, cut);
        assert(next@ =~= cut_last(q@));
        q = next;
    }
}

/// The directory that `p` lies in.
pub fn parent(p: &[u8]) -> (r: Option<Vec<u8>>)
    ensures
        match r {
            Some(d) => parent_of(p@) == Some(d@),
            None => parent_of(p@) is None,
        },
{
    let q: &[u8] = trimmed_end(p);
    let b: usize = start_of_body(q);
    if q.len() > b {
        let k: usize = start_of_last_segment(q, b);
        let cut: usize = if k > b {
            k - 1
        } else {
            k
        };
        let above: &[u8] = slice_subrange(q, 0, cut);
        assert(above@ =~= cut_last(q@));
        let d: &[u8] = trimmed_end(above);
        let mut out: Vec<u8> = Vec::new();
        append(&mut out, d);
        assert(out@ =~= d@);
        Some(out)
    } else if q.len() > 0 && q[0] != SEPARATOR {
        let out: Vec<u8> = Vec::new();
        assert(out@ =~= Seq::<u8>::empty());
        Some(out)
    } else {
        None
    }
}

// ---------------------------------------------------------------------------
// Confinement
// ---------------------------------------------------------------------------

/// What the file system says of one path. Resolving a path makes it absolute and follows its
/// symbolic links.
#[derive(Debug, PartialEq)]
pub enum Seen {
    /// Nothing stands there.
    Absent,
    /// Something stands there; its resolved form.
    Resolved(Vec<u8>),
    /// A symbolic link stands there that leads to nothing; the path that it holds.
    Link(Vec<u8>),
    /// Something stands there that could not be resolved.
    Unresolved,
}

/// Where a path leads once its symbolic links are followed.
#[derive(Debug, PartialEq)]
pub enum Lead {
    /// To a place, which may be empty; its resolved form.
    Somewhere(Vec<u8>),
    /// From link to link without an end.
    Nowhere,
    /// Something on the way could not be resolved.
    Unknown,
}

/// What the file system says of a target path.
#[derive(Debug, PartialEq)]
pub enum Target {
    /// The target exists; its resolved form.
    Existing(Vec<u8>),
    /// The target does not exist: the resolved form of the nearest directory above it that does,
    /// and how many of its last components are missing there.
    Missing(Vec<u8>, usize),
    /// A symbolic link that leads to nothing stands at the target or on the way there: the
    /// resolved form of the directory that holds the link, how many of the last components lie
    /// below it, and the place that the target leads to; `None` where its links never end.
    Dangling(Vec<u8>, usize, Option<Vec<u8>>),
    /// The target, or what stands nearest above it, could not be resolved.
    Unresolved,
}

/// The contents of a [`Seen`].
pub enum SeenView {
    Absent,
    Resolved(Seq<u8>),
    Link(Seq<u8>),
    Unresolved,
}

/// The contents of a [`Lead`].
pub enum LeadView {
    Somewhere(Seq<u8>),
    Nowhere,
    Unknown,
}

/// The contents of a [`Target`].
pub enum TargetView {
    Existing(Seq<u8>),
    Missing(Seq<u8>, nat),
    Dangling(Seq<u8>, nat, Option<Seq<u8>>),
    Unresolved,
}

/// The contents of optional bytes.
pub open spec fn opt_bytes(o: Option<Vec<u8>>) -> Option<Seq<u8>> {
    match o {
        Some(b) => Some(b@),
        None => None,
    }
}

impl View for Seen {
    type V = SeenView;

    open spec fn view(&self) -> SeenView {
        match self {
            Seen::Absent => SeenView::Absent,
            Seen::Resolved(p) => SeenView::Resolved(p@),
            Seen::Link(t) => SeenView::Link(t@),
            Seen::Unresolved => SeenView::Unresolved,
        }
    }
}

impl View for Lead {
    type V = LeadView;

    open spec fn view(&self) -> LeadView {
        match self {
            Lead::Somewhere(p) => LeadView::Somewhere(p@),
            Lead::Nowhere => LeadView::Nowhere,
            Lead::Unknown => LeadView::Unknown,
        }
    }
}

impl View for Target {
    type V = TargetView;

    open spec fn view(&self) -> TargetView {
        match self {
            Target::Existing(p) => TargetView::Existing(p@),
            Target::Missing(d, n) => TargetView::Missing(d@, *n as nat),
            Target::Dangling(d, n, lead) => TargetView::Dangling(d@, *n as nat, opt_bytes(*lead)),
            Target::Unresolved => TargetView::Unresolved,
        }
    }
}

/// Why a requested path is refused.
#[derive(Debug, PartialEq)]
pub enum ConfineError {
    /// The path has a `..` component.
    Traversal,
    /// The target exists but could not be resolved.
    Unresolved,
    /// A new target has no parent.
    NoParent,
    /// What is missing of a new target is no list of names.
    NoFileName,
    /// The resolved path, or the place that it leads to, lies outside the resolved root.
    Escapes(Vec<u8>, Vec<u8>),
}

/// The contents of a [`ConfineError`].
pub enum ConfineErrorView {
    Traversal,
    Unresolved,
    NoParent,
    NoFileName,
    Escapes(Seq<u8>, Seq<u8>),
}

impl View for ConfineError {
    type V = ConfineErrorView;

    open spec fn view(&self) -> ConfineErrorView {
        match self {
            ConfineError::Traversal => ConfineErrorView::Traversal,
            ConfineError::Unresolved => ConfineErrorView::Unresolved,
            ConfineError::NoParent => ConfineErrorView::NoParent,
            ConfineError::NoFileName => ConfineErrorView::NoFileName,
            ConfineError::Escapes(path, root) => ConfineErrorView::Escapes(path@, root@),
        }
    }
}

/// The contents of the outcome of a check.
pub open spec fn outcome(r: Result<Vec<u8>, ConfineError>) -> Result<Seq<u8>, ConfineErrorView> {
    match r {
        Ok(p) => Ok(p@),
        Err(e) => Err(e@),
    }
}

/// A path and the directories above it, innermost first.
pub open spec fn upward(p: Seq<u8>) -> Seq<Seq<u8>>
    decreases p.len(),
    via upward_decreases
{
    match parent_of(p) {
        Some(d) => seq![p] + upward(d),
        None => seq![p],
    }
}

#[via_fn]
proof fn upward_decreases(p: Seq<u8>) {
    lemma_parent_is_shorter(p);
}

/// The paths that the file system is asked of before a request is granted: the path, without what
/// trails its last component, and the directories above it, innermost first.
pub open spec fn asked(p: Seq<u8>) -> Seq<Seq<u8>> {
    upward(end_trimmed(p))
}

/// How many answers in front say that nothing stands there.
pub open spec fn nearest(seen: Seq<SeenView>) -> nat
    decreases seen.len(),
{
    if seen.len() > 0 && seen[0] is Absent {
        1 + nearest(seen.skip(1))
    } else {
        0
    }
}

/// The answer that decides of `path`, from those on the paths that are [`asked`]: the nearest that
/// is not absent, and how many components of the path lie below it.
pub open spec fn answer(path: Seq<u8>, seen: Seq<SeenView>) -> Option<(SeenView, nat)> {
    let n = nearest(seen);
    if n < seen.len() && n < asked(path).len() {
        Some((seen[n as int], n))
    } else {
        None
    }
}

/// The last `n` components of a path.
pub open spec fn last_parts(path: Seq<u8>, n: nat) -> Seq<PartView> {
    parts(path).skip(parts(path).len() - n)
}

/// The path with further components behind it, as they are written.
pub open spec fn continued(path: Seq<u8>, more: Seq<PartView>) -> Seq<u8>
    decreases more.len(),
{
    if more.len() == 0 {
        path
    } else {
        let front = continued(path, more.drop_last());
        match more.last() {
            PartView::Normal(n) => joined(front, n),
            PartView::Parent => joined(front, seq![DOT, DOT]),
            _ => front,
        }
    }
}

/// The path that stands for `path` once the link `n` components above its end is followed: what
/// the link holds, seen from the directory of the link, and what lies below the link.
pub open spec fn link_path(path: Seq<u8>, n: nat, held: Seq<u8>) -> Seq<u8> {
    let dir = match parent_of(asked(path)[n as int]) {
        Some(d) => d,
        None => Seq::empty(),
    };
    continued(joined(dir, held), last_parts(path, n))
}

/// The place that components lead to from a resolved directory in which nothing stands at the
/// first of them: a name leads down, and `..` leads back up.
pub open spec fn placed(dir: Seq<u8>, more: Seq<PartView>) -> Seq<u8>
    decreases more.len(),
{
    if more.len() == 0 {
        dir
    } else {
        let front = placed(dir, more.drop_last());
        match more.last() {
            PartView::Normal(n) => joined(front, n),
            PartView::Parent => match parent_of(front) {
                Some(d) => d,
                None => front,
            },
            _ => front,
        }
    }
}

/// Where a path leads. The first round of answers is on the path itself, and each further one on
/// the [`link_path`] of the one before.
pub open spec fn lead_from(path: Seq<u8>, rounds: Seq<Seq<SeenView>>) -> LeadView
    decreases rounds.len(),
{
    if rounds.len() == 0 {
        LeadView::Nowhere
    } else {
        match answer(path, rounds[0]) {
            Some((SeenView::Resolved(p), n)) => LeadView::Somewhere(
                placed(p, last_parts(path, n)),
            ),
            Some((SeenView::Link(held), n)) => lead_from(
                link_path(path, n, held),
                rounds.skip(1),
            ),
            _ => LeadView::Unknown,
        }
    }
}

/// What is known of a target, from the rounds of answers that say where it leads.
pub open spec fn target_from(path: Seq<u8>, rounds: Seq<Seq<SeenView>>) -> TargetView {
    if rounds.len() == 0 {
        TargetView::Unresolved
    } else {
        match answer(path, rounds[0]) {
            Some((SeenView::Resolved(p), n)) => if n == 0 {
                TargetView::Existing(p)
            } else {
                TargetView::Missing(p, n)
            },
            Some((SeenView::Link(_), n)) => if n + 1 < rounds[0].len() {
                match (rounds[0][n as int + 1], lead_from(path, rounds)) {
                    (SeenView::Resolved(d), LeadView::Somewhere(q)) => TargetView::Dangling(
                        d,
                        n + 1,
                        Some(q),
                    ),
                    (SeenView::Resolved(d), LeadView::Nowhere) => TargetView::Dangling(
                        d,
                        n + 1,
                        None,
                    ),
                    _ => TargetView::Unresolved,
                }
            } else {
                TargetView::Unresolved
            },
            _ => TargetView::Unresolved,
        }
    }
}

/// The contents of a list of answers.
pub open spec fn seen_views(v: Seq<Seen>) -> Seq<SeenView> {
    v.map_values(|s: Seen| s@)
}

/// The contents of rounds of answers.
pub open spec fn round_views(v: Seq<Vec<Seen>>) -> Seq<Seq<SeenView>> {
    v.map_values(|r: Vec<Seen>| seen_views(r@))
}

/// The path that a request stands for, seen from `root`; refused where it goes up anywhere.
pub open spec fn requested_path(root: Seq<u8>, requested: Seq<u8>) -> Result<
    Seq<u8>,
    ConfineErrorView,
> {
    if has_parent_part(joined(root, requested)) {
        Err(ConfineErrorView::Traversal)
    } else {
        Ok(joined(root, requested))
    }
}

/// Whether the last `n` components of a path are names, one at least.
pub open spec fn ends_in_names(path: Seq<u8>, n: nat) -> bool {
    &&& 0 < n <= parts(path).len()
    &&& forall|i: int|
        parts(path).len() - n <= i < parts(path).len() ==> #[trigger] parts(path)[i] is Normal
}

/// The last `n` components of `path` in the resolved directory that they lie in.
pub open spec fn placed_path(path: Seq<u8>, dir: Seq<u8>, n: nat) -> Result<
    Seq<u8>,
    ConfineErrorView,
> {
    if parent_of(path) is None {
        Err(ConfineErrorView::NoParent)
    } else if !ends_in_names(path, n) {
        Err(ConfineErrorView::NoFileName)
    } else {
        Ok(placed(dir, last_parts(path, n)))
    }
}

/// The form of `path` that is held against the root: resolved where it exists, else what is
/// missing of it below the nearest directory that exists, resolved. A link that leads to nothing
/// is not followed.
pub open spec fn resolved_path(path: Seq<u8>, target: TargetView) -> Result<
    Seq<u8>,
    ConfineErrorView,
> {
    match target {
        TargetView::Existing(p) => Ok(p),
        TargetView::Unresolved => Err(ConfineErrorView::Unresolved),
        TargetView::Missing(dir, n) => placed_path(path, dir, n),
        TargetView::Dangling(dir, n, _) => placed_path(path, dir, n),
    }
}

/// The place that reading or writing at a path comes to, all links followed; `None` where it comes
/// to none, because the links never end.
pub open spec fn destination(target: TargetView, resolved: Seq<u8>) -> Option<Seq<u8>> {
    match target {
        TargetView::Dangling(_, _, lead) => lead,
        _ => Some(resolved),
    }
}

/// The root in resolved form. A root that cannot be resolved stands as it is.
pub open spec fn resolved_root(root: Seq<u8>, found: TargetView) -> Seq<u8> {
    match resolved_path(root, found) {
        Ok(p) => p,
        Err(_) => root,
    }
}

/// The place that the root leads to, all links followed.
pub open spec fn root_place(root: Seq<u8>, found: TargetView) -> Seq<u8> {
    match destination(found, resolved_root(root, found)) {
        Some(p) => p,
        None => resolved_root(root, found),
    }
}

/// The whole check: the requested path in resolved form, if it goes nowhere up and lies within
/// the resolved root, and if the place that it leads to lies within the root too.
pub open spec fn confined(
    root: Seq<u8>,
    requested: Seq<u8>,
    found: TargetView,
    target: TargetView,
) -> Result<Seq<u8>, ConfineErrorView> {
    let base = resolved_root(root, found);
    let place = root_place(root, found);
    match requested_path(root, requested) {
        Err(e) => Err(e),
        Ok(path) => match resolved_path(path, target) {
            Err(e) => Err(e),
            Ok(check) => if !is_within(check, base) {
                Err(ConfineErrorView::Escapes(check, base))
            } else {
                match destination(target, check) {
                    Some(q) => if is_within(q, place) {
                        Ok(check)
                    } else {
                        Err(ConfineErrorView::Escapes(q, place))
                    },
                    None => Ok(check),
                }
            },
        },
    }
}

/// The path that `requested` stands for, seen from `root`, before the file system is asked.
pub fn confine_target(root: &[u8], requested: &str) -> (r: Result<Vec<u8>, ConfineError>)
    ensures
        outcome(r) == requested_path(root@, encode_utf8(requested@)),
{
    let path: Vec<u8> = join(root, requested.as_bytes());
    if goes_up(path.as_slice()) {
        Err(ConfineError::Traversal)
    } else {
        Ok(path)
    }
}

/// The contents of a list of paths.
pub open spec fn byte_views(v: Seq<Vec<u8>>) -> Seq<Seq<u8>> {
    v.map_values(|p: Vec<u8>| p@)
}

/// The paths that the file system is asked of before a request for `path` is granted: the path
/// and the directories above it, innermost first. An empty one stands for the current directory.
pub fn ancestors(path: &[u8]) -> (r: Vec<Vec<u8>>)
    ensures
        byte_views(r@) == asked(path@),
{
    let mut out: Vec<Vec<u8>> = Vec::new();
    let mut at: Vec<u8> = Vec::new();
    append(&mut at, trimmed_end(path));
    assert(at@ =~= end_trimmed(path@));
    assert(byte_views(out@) + upward(at@) =~= asked(path@));
    loop
        invariant
            byte_views(out@) + upward(at@) == asked(path@),
        decreases at@.len(),
    {
        let up: Option<Vec<u8>> = parent(at.as_slice());
        proof {
            lemma_parent_is_shorter(at@);
        }
        let ghost before = byte_views(out@);
        let ghost here = at@;
        out.push(at);
        assert(byte_views(out@) =~= before.push(here));
        match up {
            Some(d) => {
                assert(before + (seq![here] + upward(d@)) =~= before.push(here) + upward(d@));
                at = d;
            },
            None => {
                assert(before.push(here) =~= before + seq![here]);
                return out;
            },
        }
    }
}

/// How many answers in front say that nothing stands there.
fn count_absent(seen: &Vec<Seen>) -> (r: usize)
    ensures
        r as nat == nearest(seen_views(seen@)),
        r <= seen@.len(),
{
    let ghost all = seen_views(seen@);
    assert(all.skip(0) =~= all);
    let mut k: usize = 0;
    while k < seen.len()
        invariant
            k <= seen@.len(),
            all == seen_views(seen@),
            nearest(all) == k + nearest(all.skip(k as int)),
        decreases seen@.len() - k,
    {
        assert(all.skip(k as int)[0] == seen@[k as int]@);
        match &seen[k] {
            Seen::Absent => {
                assert(all.skip(k as int).skip(1) =~= all.skip(k + 1));
                k = k + 1;
            },
            _ => {
                return k;
            },
        }
    }
    assert(all.skip(k as int).len() == 0);
    k
}

/// Puts further components behind a path: as they are written, or, where `resolving`, so that
/// `..` leads back up.
fn put_behind(path: &[u8], all: &Vec<Part>, n: usize, resolving: bool) -> (r: Vec<u8>)
    requires
        n <= all@.len(),
    ensures
        ({
            let more = part_views(all@).skip(all@.len() - n);
            r@ == if resolving {
                placed(path@, more)
            } else {
                continued(path@, more)
            }
        }),
{
    let start: usize = all.len() - n;
    let ghost more = part_views(all@).skip(all@.len() - n);
    let mut out: Vec<u8> = Vec::new();
    append(&mut out, path);
    assert(out@ =~= path@);
    assert(more.take(0) =~= Seq::<PartView>::empty());
    for i in start..all.len()
        invariant
            start == all@.len() - n,
            n <= all@.len(),
            more == part_views(all@).skip(all@.len() - n),
            out@ == if resolving {
                placed(path@, more.take(i - start))
            } else {
                continued(path@, more.take(i - start))
            },
    {
        assert(more[i - start] == all@[i as int]@);
        assert(more.take(i - start + 1).drop_last() =~= more.take(i - start));
        assert(more.take(i - start + 1).last() == all@[i as int]@);
        match &all[i] {
            Part::Normal(name) => {
                out = join(out.as_slice(), name.as_slice());
            },
            Part::Parent => if resolving {
                if let Some(d) = parent(out.as_slice()) {
                    out = d;
                }
            } else {
                let dots: Vec<u8> = vec![DOT, DOT];
                assert(dots@ =~= seq![DOT, DOT]);
                out = join(out.as_slice(), dots.as_slice());
            },
            _ => {},
        }
    }
    assert(more.take(n as int) =~= more);
    out
}

/// The path that stands for `path` once the link `n` components above its end is followed.
fn follow(path: &[u8], n: usize, held: &[u8]) -> (r: Vec<u8>)
    requires
        n < asked(path@).len(),
    ensures
        r@ == link_path(path@, n as nat, held@),
{
    let up: Vec<Vec<u8>> = ancestors(path);
    assert(byte_views(up@).len() == up@.len());
    assert(byte_views(up@)[n as int] == up@[n as int]@);
    let dir: Vec<u8> = match parent(up[n].as_slice()) {
        Some(d) => d,
        None => {
            let e: Vec<u8> = Vec::new();
            assert(e@ =~= Seq::<u8>::empty());
            e
        },
    };
    proof {
        ancestors_lose_one_component_each(path@, n as int);
    }
    let all: Vec<Part> = parts_of(path);
    assert(part_views(all@).len() == all@.len());
    put_behind(join(dir.as_slice(), held).as_slice(), &all, n, false)
}

/// How many of the paths that the file system is asked of were asked in vain, if that leaves one.
fn decide(path: &[u8], seen: &Vec<Seen>) -> (r: Option<usize>)
    ensures
        match r {
            Some(n) => n < seen@.len() && n < asked(path@).len() && answer(
                path@,
                seen_views(seen@),
            ) == Some((seen@[n as int]@, n as nat)),
            None => answer(path@, seen_views(seen@)) is None,
        },
{
    let n: usize = count_absent(seen);
    let up: Vec<Vec<u8>> = ancestors(path);
    assert(byte_views(up@).len() == up@.len());
    if n < seen.len() && n < up.len() {
        assert(seen_views(seen@)[n as int] == seen@[n as int]@);
        Some(n)
    } else {
        None
    }
}

/// The path that is to be asked of next, after these answers on the [`ancestors`] of `path`: there
/// is one where a link leads on.
pub fn next_path(path: &[u8], seen: &Vec<Seen>) -> (r: Option<Vec<u8>>)
    ensures
        opt_bytes(r) == match answer(path@, seen_views(seen@)) {
            Some((SeenView::Link(held), n)) => Some(link_path(path@, n, held)),
            _ => None,
        },
{
    match decide(path, seen) {
        Some(n) => match &seen[n] {
            Seen::Link(held) => Some(follow(path, n, held.as_slice())),
            _ => None,
        },
        None => None,
    }
}

/// Where a path leads, from the rounds of answers.
pub fn lead_of(path: &[u8], rounds: &Vec<Vec<Seen>>) -> (r: Lead)
    ensures
        r@ == lead_from(path@, round_views(rounds@)),
{
    let ghost all = round_views(rounds@);
    assert(all.skip(0) =~= all);
    let mut at: Vec<u8> = Vec::new();
    append(&mut at, path);
    assert(at@ =~= path@);
    for k in 0..rounds.len()
        invariant
            all == round_views(rounds@),
            lead_from(at@, all.skip(k as int)) == lead_from(path@, all),
    {
        let seen: &Vec<Seen> = &rounds[k];
        assert(all.skip(k as int)[0] == seen_views(seen@));
        assert(all.skip(k as int).skip(1) =~= all.skip(k + 1));
        let n: usize = match decide(at.as_slice(), seen) {
            Some(n) => n,
            None => {
                return Lead::Unknown;
            },
        };
        match &seen[n] {
            Seen::Resolved(p) => {
                proof {
                    ancestors_lose_one_component_each(at@, n as int);
                }
                let parts: Vec<Part> = parts_of(at.as_slice());
                assert(part_views(parts@).len() == parts@.len());
                return Lead::Somewhere(put_behind(p.as_slice(), &parts, n, true));
            },
            Seen::Link(held) => {
                let next: Vec<u8> = follow(at.as_slice(), n, held.as_slice());
                at = next;
            },
            _ => {
                return Lead::Unknown;
            },
        }
    }
    assert(all.skip(rounds@.len() as int).len() == 0);
    Lead::Nowhere
}

/// What is known of a target, from the rounds of answers that say where it leads: the first is on
/// the [`ancestors`] of `path`, and each further one on those of the [`next_path`].
pub fn target_of(path: &[u8], rounds: &Vec<Vec<Seen>>) -> (r: Target)
    ensures
        r@ == target_from(path@, round_views(rounds@)),
{
    if rounds.len() == 0 {
        return Target::Unresolved;
    }
    let seen: &Vec<Seen> = &rounds[0];
    assert(round_views(rounds@)[0] == seen_views(seen@));
    let n: usize = match decide(path, seen) {
        Some(n) => n,
        None => {
            return Target::Unresolved;
        },
    };
    match &seen[n] {
        Seen::Resolved(p) => {
            let at: Vec<u8> = p.clone();
            assert(at@ =~= p@);
            if n == 0 {
                Target::Existing(at)
            } else {
                Target::Missing(at, n)
            }
        },
        Seen::Link(_) => {
            if n >= seen.len() - 1 {
                return Target::Unresolved;
            }
            assert(seen_views(seen@)[n + 1] == seen@[n + 1]@);
            match (&seen[n + 1], lead_of(path, rounds)) {
                (Seen::Resolved(d), Lead::Somewhere(q)) => {
                    let at: Vec<u8> = d.clone();
                    assert(at@ =~= d@);
                    Target::Dangling(at, n + 1, Some(q))
                },
                (Seen::Resolved(d), Lead::Nowhere) => {
                    let at: Vec<u8> = d.clone();
                    assert(at@ =~= d@);
                    Target::Dangling(at, n + 1, None)
                },
                _ => Target::Unresolved,
            }
        },
        _ => Target::Unresolved,
    }
}

/// Whether the last `n` components are names, one at least.
fn are_names(path: &[u8], all: &Vec<Part>, n: usize) -> (r: bool)
    requires
        part_views(all@) == parts(path@),
    ensures
        r == ends_in_names(path@, n as nat),
{
    assert(part_views(all@).len() == all@.len());
    if n == 0 || n > all.len() {
        return false;
    }
    for i in all.len() - n..all.len()
        invariant
            0 < n <= all@.len(),
            part_views(all@) == parts(path@),
            part_views(all@).len() == all@.len(),
            forall|j: int| all@.len() - n <= j < i ==> #[trigger] parts(path@)[j] is Normal,
    {
        assert(parts(path@)[i as int] == all@[i as int]@);
        match &all[i] {
            Part::Normal(_) => {},
            _ => {
                assert(!(parts(path@)[i as int] is Normal));
                return false;
            },
        }
    }
    true
}

/// The last `n` components of `path` in the resolved directory that they lie in.
fn place(path: &[u8], dir: &[u8], n: usize) -> (r: Result<Vec<u8>, ConfineError>)
    ensures
        outcome(r) == placed_path(path@, dir@, n as nat),
{
    if parent(path).is_none() {
        return Err(ConfineError::NoParent);
    }
    let all: Vec<Part> = parts_of(path);
    assert(part_views(all@).len() == all@.len());
    if are_names(path, &all, n) {
        Ok(put_behind(dir, &all, n, true))
    } else {
        Err(ConfineError::NoFileName)
    }
}

/// The form of `path` that is held against the root.
fn resolve(path: &[u8], target: &Target) -> (r: Result<Vec<u8>, ConfineError>)
    ensures
        outcome(r) == resolved_path(path@, target@),
{
    match target {
        Target::Existing(p) => {
            let out: Vec<u8> = p.clone();
            assert(out@ =~= p@);
            Ok(out)
        },
        Target::Unresolved => Err(ConfineError::Unresolved),
        Target::Missing(dir, n) => place(path, dir.as_slice(), *n),
        Target::Dangling(dir, n, _) => place(path, dir.as_slice(), *n),
    }
}

/// The place that reading or writing at a path comes to.
fn destination_of(target: &Target, resolved: &Vec<u8>) -> (r: Option<Vec<u8>>)
    ensures
        opt_bytes(r) == destination(target@, resolved@),
{
    match target {
        Target::Dangling(_, _, Some(q)) => {
            let out: Vec<u8> = q.clone();
            assert(out@ =~= q@);
            Some(out)
        },
        Target::Dangling(_, _, None) => None,
        _ => {
            let out: Vec<u8> = resolved.clone();
            assert(out@ =~= resolved@);
            Some(out)
        },
    }
}

/// Resolves `requested` (absolute or relative to `root`) and guarantees that it stays within
/// `root`. `found` and `target` are what the file system says of the root and of the path that
/// [`confine_target`] gives.
pub fn confine(root: &[u8], requested: &str, found: &Target, target: &Target) -> (r: Result<
    Vec<u8>,
    ConfineError,
>)
    ensures
        outcome(r) == confined(root@, encode_utf8(requested@), found@, target@),
{
    let path: Vec<u8> = match confine_target(root, requested) {
        Ok(p) => p,
        Err(e) => {
            return Err(e);
        },
    };
    let check: Vec<u8> = match resolve(path.as_slice(), target) {
        Ok(p) => p,
        Err(e) => {
            return Err(e);
        },
    };
    let base: Vec<u8> = match resolve(root, found) {
        Ok(b) => b,
        Err(_) => {
            let mut b: Vec<u8> = Vec::new();
            append(&mut b, root);
            assert(b@ =~= root@);
            b
        },
    };
    if !within(check.as_slice(), base.as_slice()) {
        return Err(ConfineError::Escapes(check, base));
    }
    match destination_of(target, &check) {
        Some(q) => {
            let place: Vec<u8> = match destination_of(found, &base) {
                Some(p) => p,
                None => base,
            };
            if within(q.as_slice(), place.as_slice()) {
                Ok(check)
            } else {
                Err(ConfineError::Escapes(q, place))
            }
        },
        None => Ok(check),
    }
}

// ---------------------------------------------------------------------------
// Laws
// ---------------------------------------------------------------------------

/// Bytes without a separator lengthen the last segment.
proof fn lemma_segments_append(d: Seq<u8>, n: Seq<u8>)
    requires
        !n.contains(SEPARATOR),
    ensures
        segments(d + n) == segments(d).drop_last().push(segments(d).last() + n),
    decreases n.len(),
{
    lemma_segments(d);
    if n.len() == 0 {
        assert(d + n =~= d);
        assert(segments(d).last() + n =~= segments(d).last());
        assert(segments(d) =~= segments(d).drop_last().push(segments(d).last() + n));
    } else {
        let m = n.drop_last();
        assert(!m.contains(SEPARATOR)) by {
            if m.contains(SEPARATOR) {
                let i = choose|i: int| 0 <= i < m.len() && m[i] == SEPARATOR;
                assert(n[i] == SEPARATOR);
            }
        }
        lemma_segments_append(d, m);
        assert((d + n).drop_last() =~= d + m);
        assert(n.last() != SEPARATOR) by {
            assert(n[n.len() - 1] == n.last());
        }
        let before = segments(d + m);
        assert(before.drop_last() =~= segments(d).drop_last());
        assert(before.last().push(n.last()) =~= segments(d).last() + n);
    }
}

/// A name that can stand as one component of a path.
pub open spec fn is_name(n: Seq<u8>) -> bool {
    !n.contains(SEPARATOR) && part_of(n) == seq![PartView::Normal(n)]
}

/// Joining a name to a path adds one component, and nothing else.
pub proof fn join_adds_one_component(d: Seq<u8>, n: Seq<u8>)
    requires
        is_name(n),
    ensures
        parts(joined(d, n)) == parts(d).push(PartView::Normal(n)),
{
    assert(n.len() > 0) by {
        if n.len() == 0 {
            assert(part_of(n).len() == 0);
        }
    }
    assert(n[0] != SEPARATOR) by {
        if n[0] == SEPARATOR {
            assert(n.contains(SEPARATOR));
        }
    }
    assert(!starts_current(n)) by {
        if starts_current(n) {
            if n.len() == 1 {
                assert(n =~= seq![DOT]);
                assert(part_of(n).len() == 0);
            } else {
                assert(n[1] == SEPARATOR);
                assert(n.contains(SEPARATOR));
            }
        }
    }
    lemma_segments(d);
    let p = joined(d, n);
    if d.len() > 0 && d.last() != SEPARATOR {
        let e = d.push(SEPARATOR);
        lemma_segments_append(e, n);
        assert(e.drop_last() =~= d);
        assert(segments(e) == segments(d).push(Seq::<u8>::empty()));
        assert(segments(e).drop_last() =~= segments(d));
        assert(segments(e).last() + n =~= n);
        assert(segments(p) == segments(d).push(n));
        assert(segments(p).drop_last() =~= segments(d));
        assert(p[0] == d[0]);
        if d.len() >= 2 {
            assert(p[1] == d[1]);
        } else {
            assert(p[1] == SEPARATOR);
        }
        assert(head(p) == head(d));
    } else if d.len() > 0 {
        lemma_segments_append(d, n);
        let before = segments(d.drop_last());
        lemma_segments(d.drop_last());
        assert(segments(d) == before.push(Seq::<u8>::empty()));
        assert(segments(d).drop_last() =~= before);
        assert(segments(d).last() + n =~= n);
        assert(segments(p) == before.push(n));
        assert(segments(p).drop_last() =~= before);
        assert(part_of(Seq::<u8>::empty()) =~= Seq::<PartView>::empty());
        assert(body(segments(d)) =~= body(before));
        assert(p[0] == d[0]);
        if d.len() >= 2 {
            assert(p[1] == d[1]);
        }
        assert(head(p) == head(d));
    } else {
        assert(p =~= n);
        assert(d =~= Seq::<u8>::empty());
        lemma_segments_append(d, n);
        assert(d + n =~= n);
        assert(segments(d) == seq![Seq::<u8>::empty()]);
        assert(segments(d).last() + n =~= n);
        assert(segments(p) =~= seq![n]);
        assert(segments(p).drop_last() =~= Seq::<Seq<u8>>::empty());
        assert(segments(d).drop_last() =~= Seq::<Seq<u8>>::empty());
        assert(body(Seq::<Seq<u8>>::empty()) =~= Seq::<PartView>::empty());
        assert(part_of(Seq::<u8>::empty()) =~= Seq::<PartView>::empty());
    }
    assert(parts(p) =~= parts(d).push(PartView::Normal(n)));
}

/// Cutting the last segment of a path takes away what that segment stands for.
proof fn lemma_cut_last(p: Seq<u8>)
    requires
        p.len() > body_start(p),
    ensures
        parts(p) == parts(cut_last(p)) + part_of(last_segment(p)),
        cut_last(p).len() < p.len(),
        !last_segment(p).contains(SEPARATOR),
{
    let b = body_start(p);
    let k = last_segment_start(p, b);
    lemma_last_segment(p, b);
    let seg = last_segment(p);
    let front = p.take(k);
    let cut = cut_last(p);
    assert(!seg.contains(SEPARATOR)) by {
        if seg.contains(SEPARATOR) {
            let i = choose|i: int| 0 <= i < seg.len() && seg[i] == SEPARATOR;
            assert(p[k + i] == SEPARATOR);
        }
    }
    assert(p =~= front + seg);
    lemma_segments_append(front, seg);
    lemma_segments(front);
    assert(part_of(Seq::<u8>::empty()) =~= Seq::<PartView>::empty());
    if k > b {
        assert(front.drop_last() =~= cut);
        assert(front.last() == SEPARATOR);
        assert(segments(front) == segments(cut).push(Seq::<u8>::empty()));
        assert(segments(front).drop_last() =~= segments(cut));
        assert(segments(front).last() + seg =~= seg);
        assert(segments(p) == segments(cut).push(seg));
        assert(segments(p).drop_last() =~= segments(cut));
        assert(cut.len() >= 1);
        assert(cut[0] == p[0]);
        if cut.len() >= 2 {
            assert(cut[1] == p[1]);
        } else {
            assert(p[1] == SEPARATOR);
        }
        assert(head(cut) == head(p));
        assert(parts(p) =~= parts(cut) + part_of(seg));
    } else {
        assert(k == b);
        assert(cut =~= front);
        if b == 0 {
            assert(cut =~= Seq::<u8>::empty());
            assert(segments(cut) == seq![Seq::<u8>::empty()]);
            assert(segments(cut).last() + seg =~= seg);
            assert(segments(p) =~= seq![seg]);
            assert(segments(p).drop_last() =~= Seq::<Seq<u8>>::empty());
            assert(segments(cut).drop_last() =~= Seq::<Seq<u8>>::empty());
            assert(body(Seq::<Seq<u8>>::empty()) =~= Seq::<PartView>::empty());
            assert(parts(p) =~= parts(cut) + part_of(seg));
        } else {
            if !is_absolute(p) {
                assert(p[1] == SEPARATOR);
                assert(false);
            }
            assert(cut =~= seq![SEPARATOR]);
            assert(cut.drop_last() =~= Seq::<u8>::empty());
            assert(segments(Seq::<u8>::empty()) == seq![Seq::<u8>::empty()]);
            assert(segments(cut) =~= seq![Seq::<u8>::empty(), Seq::<u8>::empty()]);
            assert(segments(cut).drop_last() =~= seq![Seq::<u8>::empty()]);
            assert(segments(cut).last() + seg =~= seg);
            assert(segments(p).drop_last() =~= seq![Seq::<u8>::empty()]);
            let one = seq![Seq::<u8>::empty()];
            assert(one.drop_last() =~= Seq::<Seq<u8>>::empty());
            assert(body(Seq::<Seq<u8>>::empty()) =~= Seq::<PartView>::empty());
            assert(body(one) =~= Seq::<PartView>::empty());
            assert(parts(p) =~= parts(cut) + part_of(seg));
        }
    }
}

/// Trimming the end of a path keeps its components.
proof fn lemma_end_trimmed(p: Seq<u8>)
    ensures
        parts(end_trimmed(p)) == parts(p),
    decreases p.len(),
{
    if p.len() > body_start(p) && part_of(last_segment(p)).len() == 0 {
        lemma_cut_last(p);
        lemma_end_trimmed(cut_last(p));
        assert(part_of(last_segment(p)) =~= Seq::<PartView>::empty());
        assert(parts(p) =~= parts(cut_last(p)));
    }
}

/// The directory above a path has the components of the path but the last.
proof fn lemma_parent_parts(p: Seq<u8>)
    ensures
        parent_of(p) matches Some(d) ==> parts(p).len() > 0 && parts(d) == parts(p).drop_last(),
{
    let q = end_trimmed(p);
    lemma_end_trimmed(p);
    if q.len() > body_start(q) {
        lemma_cut_last(q);
        lemma_end_trimmed(cut_last(q));
        assert(part_of(last_segment(q)).len() > 0) by {
            lemma_end_trimmed_stays(p);
        }
        assert(parts(parent_of(p)->0) =~= parts(p).drop_last());
    } else if q.len() > 0 && q[0] != SEPARATOR {
        assert(q =~= seq![DOT]);
        assert(q.drop_last() =~= Seq::<u8>::empty());
        let e = Seq::<u8>::empty();
        assert(segments(e) == seq![e]);
        assert(seq![e].drop_last() =~= Seq::<Seq<u8>>::empty());
        assert(e.push(DOT) =~= seq![DOT]);
        assert(segments(q) =~= seq![seq![DOT]]);
        assert(segments(q).drop_last() =~= Seq::<Seq<u8>>::empty());
        assert(body(Seq::<Seq<u8>>::empty()) =~= Seq::<PartView>::empty());
        assert(body(segments(q)) =~= Seq::<PartView>::empty());
        assert(body(segments(e)) =~= Seq::<PartView>::empty());
        assert(parts(q) =~= seq![PartView::Current]);
        assert(parts(e) =~= Seq::<PartView>::empty());
        assert(parts(p).drop_last() =~= Seq::<PartView>::empty());
    }
}

/// What is left of a path after trimming ends in a segment that is a component.
proof fn lemma_end_trimmed_stays(p: Seq<u8>)
    ensures
        end_trimmed(p).len() > body_start(end_trimmed(p)) ==> part_of(
            last_segment(end_trimmed(p)),
        ).len() > 0,
    decreases p.len(),
{
    if p.len() > body_start(p) && part_of(last_segment(p)).len() == 0 {
        lemma_cut_last(p);
        lemma_end_trimmed_stays(cut_last(p));
    }
}

proof fn lemma_upward_parts(p: Seq<u8>, i: int)
    requires
        0 <= i < upward(p).len(),
    ensures
        i <= parts(p).len(),
        parts(upward(p)[i]) == parts(p).take(parts(p).len() - i),
    decreases p.len(),
{
    lemma_parent_is_shorter(p);
    lemma_parent_parts(p);
    if i == 0 {
        assert(parts(p).take(parts(p).len() as int) =~= parts(p));
    } else {
        let d = parent_of(p)->0;
        assert(upward(p)[i] == upward(d)[i - 1]);
        lemma_upward_parts(d, i - 1);
        assert(parts(d).take(parts(d).len() - (i - 1)) =~= parts(p).take(parts(p).len() - i));
    }
}

/// Each of the paths that the file system is asked of has the components of the one before it but
/// the last; the first has those of the path itself.
pub proof fn ancestors_lose_one_component_each(p: Seq<u8>, i: int)
    requires
        0 <= i < asked(p).len(),
    ensures
        i <= parts(p).len(),
        parts(asked(p)[i]) == parts(p).take(parts(p).len() - i),
{
    lemma_end_trimmed(p);
    lemma_upward_parts(end_trimmed(p), i);
}

/// The nearest path that is not absent decides what is known of a target.
pub proof fn nearest_answer_decides(seen: Seq<SeenView>, i: int)
    requires
        0 <= i < seen.len(),
        !(seen[i] is Absent),
        forall|k: int| 0 <= k < i ==> #[trigger] seen[k] is Absent,
    ensures
        nearest(seen) == i,
    decreases i,
{
    if i > 0 {
        let rest = seen.skip(1);
        assert(seen[0] is Absent);
        assert forall|k: int| 0 <= k < i - 1 implies #[trigger] rest[k] is Absent by {
            assert(rest[k] == seen[k + 1]);
        }
        assert(rest[i - 1] == seen[i]);
        nearest_answer_decides(rest, i - 1);
    }
}

/// Every name among the components that segments stand for can stand as a component.
proof fn lemma_names(segs: Seq<Seq<u8>>, i: int)
    requires
        forall|k: int| 0 <= k < segs.len() ==> !(#[trigger] segs[k]).contains(SEPARATOR),
        0 <= i < body(segs).len(),
    ensures
        body(segs)[i] matches PartView::Normal(n) ==> is_name(n),
    decreases segs.len(),
{
    let before = segs.drop_last();
    if i < body(before).len() {
        assert forall|k: int| 0 <= k < before.len() implies !(#[trigger] before[k]).contains(
            SEPARATOR,
        ) by {
            assert(before[k] == segs[k]);
        }
        lemma_names(before, i);
    } else {
        assert(!segs[segs.len() - 1].contains(SEPARATOR));
    }
}

/// Every name among the components of a path can stand as a component.
proof fn lemma_part_names(path: Seq<u8>, i: int)
    requires
        0 <= i < parts(path).len(),
    ensures
        parts(path)[i] matches PartView::Normal(n) ==> is_name(n),
{
    lemma_segments(path);
    if i >= head(path).len() {
        assert(parts(path)[i] == body(segments(path))[i - head(path).len()]);
        lemma_names(segments(path), i - head(path).len());
    } else {
        assert(parts(path)[i] == head(path)[i]);
    }
}

/// Going down by names adds these names to the components, and nothing else.
proof fn lemma_placed(dir: Seq<u8>, names: Seq<PartView>)
    requires
        forall|i: int|
            0 <= i < names.len() ==> #[trigger] names[i] is Normal && is_name(names[i]->Normal_0),
    ensures
        parts(placed(dir, names)) == parts(dir) + names,
    decreases names.len(),
{
    if names.len() == 0 {
        assert(parts(dir) + names =~= parts(dir));
    } else {
        let before = names.drop_last();
        assert forall|i: int| 0 <= i < before.len() implies #[trigger] before[i] is Normal
            && is_name(before[i]->Normal_0) by {
            assert(before[i] == names[i]);
        }
        lemma_placed(dir, before);
        assert(names[names.len() - 1] == names.last());
        join_adds_one_component(placed(dir, before), names.last()->Normal_0);
        assert((parts(dir) + before).push(names.last()) =~= parts(dir) + names);
    }
}

/// The resolved form of a missing path: the components of the directory that exists, and below
/// them the missing names of the path.
proof fn lemma_missing(path: Seq<u8>, dir: Seq<u8>, n: nat)
    requires
        ends_in_names(path, n),
    ensures
        parts(placed(dir, last_parts(path, n))) == parts(dir) + last_parts(path, n),
{
    let names = last_parts(path, n);
    assert forall|i: int| 0 <= i < names.len() implies #[trigger] names[i] is Normal && is_name(
        names[i]->Normal_0,
    ) by {
        let j = parts(path).len() - n + i;
        assert(names[i] == parts(path)[j]);
        lemma_part_names(path, j);
    }
    lemma_placed(dir, names);
}

/// What passes the check lies within the resolved root, and so does the place that it leads to.
pub proof fn confined_stays_within_root(
    root: Seq<u8>,
    requested: Seq<u8>,
    found: TargetView,
    target: TargetView,
)
    ensures
        confined(root, requested, found, target) matches Ok(p) ==> {
            &&& is_within(p, resolved_root(root, found))
            &&& destination(target, p) matches Some(q) ==> is_within(q, root_place(root, found))
        },
{
}

/// A request that goes up anywhere is refused, whatever the file system holds.
pub proof fn going_up_is_refused(
    root: Seq<u8>,
    requested: Seq<u8>,
    found: TargetView,
    target: TargetView,
)
    requires
        has_parent_part(joined(root, requested)),
    ensures
        confined(root, requested, found, target) == Err::<Seq<u8>, ConfineErrorView>(
            ConfineErrorView::Traversal,
        ),
{
}

/// What passes the check is the resolved target, or the last names of the request below a resolved
/// directory. A link that leads to nothing passes as the link that it is.
pub proof fn confined_is_resolved(
    root: Seq<u8>,
    requested: Seq<u8>,
    found: TargetView,
    target: TargetView,
)
    ensures
        confined(root, requested, found, target) matches Ok(p) ==> match target {
            TargetView::Existing(q) => p == q,
            TargetView::Missing(dir, n) => {
                &&& ends_in_names(joined(root, requested), n)
                &&& parts(p) == parts(dir) + last_parts(joined(root, requested), n)
            },
            TargetView::Dangling(dir, n, _) => {
                &&& ends_in_names(joined(root, requested), n)
                &&& parts(p) == parts(dir) + last_parts(joined(root, requested), n)
            },
            TargetView::Unresolved => false,
        },
{
    let path = joined(root, requested);
    match target {
        TargetView::Missing(dir, n) => {
            if ends_in_names(path, n) {
                lemma_missing(path, dir, n);
            }
        },
        TargetView::Dangling(dir, n, _) => {
            if ends_in_names(path, n) {
                lemma_missing(path, dir, n);
            }
        },
        _ => {},
    }
}

/// Whether none of the components of a path, seen from its start, is one of `links`.
pub open spec fn crosses_none(p: Seq<PartView>, links: Set<Seq<PartView>>) -> bool {
    forall|k: int| 0 < k <= p.len() ==> !links.contains(#[trigger] p.take(k))
}

/// Whether no name among `more` leads to one of `links`, from a directory on.
pub open spec fn all_empty(dir: Seq<u8>, more: Seq<PartView>, links: Set<Seq<PartView>>) -> bool {
    forall|k: int|
        0 < k <= more.len() && more[k - 1] is Normal ==> !links.contains(
            parts(placed(dir, #[trigger] more.take(k))),
        )
}

/// Whether the answers are right where `links` are the places of all symbolic links: what was
/// resolved crosses none, nothing stands where something is missing, and the same holds of where
/// a link leads on.
pub open spec fn told_truly(
    path: Seq<u8>,
    rounds: Seq<Seq<SeenView>>,
    links: Set<Seq<PartView>>,
) -> bool
    decreases rounds.len(),
{
    rounds.len() > 0 ==> match answer(path, rounds[0]) {
        Some((SeenView::Resolved(p), n)) => crosses_none(parts(p), links) && all_empty(
            p,
            last_parts(path, n),
            links,
        ),
        Some((SeenView::Link(held), n)) => told_truly(
            link_path(path, n, held),
            rounds.skip(1),
            links,
        ),
        _ => true,
    }
}

/// From a directory that crosses no link, a way on which nothing stands crosses none either.
proof fn lemma_placed_crosses_none(
    dir: Seq<u8>,
    more: Seq<PartView>,
    links: Set<Seq<PartView>>,
)
    requires
        crosses_none(parts(dir), links),
        all_empty(dir, more, links),
        forall|i: int|
            0 <= i < more.len() ==> (#[trigger] more[i] matches PartView::Normal(n) ==> is_name(n)),
    ensures
        crosses_none(parts(placed(dir, more)), links),
    decreases more.len(),
{
    if more.len() > 0 {
        let before = more.drop_last();
        assert forall|k: int|
            0 < k <= before.len() && before[k - 1] is Normal implies !links.contains(
            parts(placed(dir, #[trigger] before.take(k))),
        ) by {
            assert(before[k - 1] == more[k - 1]);
            assert(before.take(k) =~= more.take(k));
        }
        assert forall|i: int| 0 <= i < before.len() implies (#[trigger] before[i] matches
            PartView::Normal(n) ==> is_name(n)) by {
            assert(before[i] == more[i]);
        }
        lemma_placed_crosses_none(dir, before, links);
        let front = placed(dir, before);
        let whole = placed(dir, more);
        assert(more[more.len() - 1] == more.last());
        match more.last() {
            PartView::Normal(n) => {
                join_adds_one_component(front, n);
                assert(more.take(more.len() as int) =~= more);
                assert forall|k: int| 0 < k <= parts(whole).len() implies !links.contains(
                    #[trigger] parts(whole).take(k),
                ) by {
                    if k < parts(whole).len() {
                        assert(parts(whole).take(k) =~= parts(front).take(k));
                    } else {
                        assert(parts(whole).take(k) =~= parts(whole));
                    }
                }
            },
            PartView::Parent => {
                lemma_parent_parts(front);
                assert forall|k: int| 0 < k <= parts(whole).len() implies !links.contains(
                    #[trigger] parts(whole).take(k),
                ) by {
                    assert(parts(whole).take(k) =~= parts(front).take(k));
                }
            },
            _ => {},
        }
    }
}

/// The place that a path leads to crosses no link, so following links there leads nowhere else.
pub proof fn lead_crosses_no_link(
    path: Seq<u8>,
    rounds: Seq<Seq<SeenView>>,
    links: Set<Seq<PartView>>,
)
    requires
        told_truly(path, rounds, links),
    ensures
        lead_from(path, rounds) matches LeadView::Somewhere(q) ==> crosses_none(parts(q), links),
    decreases rounds.len(),
{
    if rounds.len() > 0 {
        match answer(path, rounds[0]) {
            Some((SeenView::Resolved(p), n)) => {
                let more = last_parts(path, n);
                ancestors_lose_one_component_each(path, n as int);
                assert forall|i: int| 0 <= i < more.len() implies (#[trigger] more[i] matches
                    PartView::Normal(name) ==> is_name(name)) by {
                    let j = parts(path).len() - n + i;
                    assert(more[i] == parts(path)[j]);
                    lemma_part_names(path, j);
                }
                lemma_placed_crosses_none(p, more, links);
            },
            Some((SeenView::Link(held), n)) => {
                lead_crosses_no_link(link_path(path, n, held), rounds.skip(1), links);
            },
            _ => {},
        }
    }
}

/// Whatever passes the check, reading or writing there comes to a place within the root, or to
/// none: the place lies within the root and crosses no symbolic link, so that no link leads out.
pub proof fn no_link_leads_out_of_root(
    root: Seq<u8>,
    requested: Seq<u8>,
    found: TargetView,
    rounds: Seq<Seq<SeenView>>,
    links: Set<Seq<PartView>>,
)
    requires
        told_truly(joined(root, requested), rounds, links),
    ensures
        ({
            let target = target_from(joined(root, requested), rounds);
            confined(root, requested, found, target) matches Ok(p) ==> {
                &&& is_within(p, resolved_root(root, found))
                &&& destination(target, p) matches Some(q) ==> is_within(
                    q,
                    root_place(root, found),
                ) && crosses_none(parts(q), links)
                &&& destination(target, p) is None ==> lead_from(
                    joined(root, requested),
                    rounds,
                ) is Nowhere
            }
        }),
{
    let path = joined(root, requested);
    let target = target_from(path, rounds);
    lead_crosses_no_link(path, rounds, links);
    if let TargetView::Existing(p) = target {
        assert(last_parts(path, 0) =~= Seq::<PartView>::empty());
        assert(placed(p, last_parts(path, 0)) == p);
    }
}

/// What passes the check never goes up: a resolved path holds no `..`, and a request that holds
/// one is refused.
pub proof fn confined_never_goes_up(
    root: Seq<u8>,
    requested: Seq<u8>,
    found: TargetView,
    target: TargetView,
)
    requires
        target matches TargetView::Existing(p) ==> !has_parent_part(p),
        target matches TargetView::Missing(d, _) ==> !has_parent_part(d),
        target matches TargetView::Dangling(d, _, _) ==> !has_parent_part(d),
    ensures
        confined(root, requested, found, target) matches Ok(p) ==> !has_parent_part(p),
{
    let path = joined(root, requested);
    confined_is_resolved(root, requested, found, target);
    if let Ok(p) = confined(root, requested, found, target) {
        if !(target is Existing) {
            let (d, n) = match target {
                TargetView::Missing(d, n) => (d, n),
                TargetView::Dangling(d, n, _) => (d, n),
                _ => (p, 0),
            };
            assert forall|i: int| 0 <= i < parts(p).len() implies !(#[trigger] parts(
                p,
            )[i] is Parent) by {
                if i < parts(d).len() {
                    assert(parts(p)[i] == parts(d)[i]);
                } else {
                    let j = parts(path).len() - n + (i - parts(d).len());
                    assert(parts(p)[i] == parts(path)[j]);
                }
            }
        }
    }
}

/// Once something stands at the place that a request leads to, and the root resolves to the place
/// that it led to, the same request leads to that place.
pub proof fn placed_target_is_found_again(
    root: Seq<u8>,
    requested: Seq<u8>,
    found: TargetView,
    target: TargetView,
    found_then: TargetView,
)
    requires
        resolved_root(root, found_then) == root_place(root, found),
        root_place(root, found_then) == root_place(root, found),
    ensures
        confined(root, requested, found, target) matches Ok(p) ==> (destination(target, p) matches
            Some(q) ==> confined(root, requested, found_then, TargetView::Existing(q)) == Ok::<
            Seq<u8>,
            ConfineErrorView,
        >(q)),
{
}

/// An existing target passes the check exactly where it lies within the resolved root, if the
/// request goes nowhere up; it passes as it is, however deep it lies.
pub proof fn existing_target_inside_is_let_through(
    root: Seq<u8>,
    requested: Seq<u8>,
    found: TargetView,
    p: Seq<u8>,
)
    requires
        !has_parent_part(joined(root, requested)),
        !(found is Dangling),
    ensures
        is_within(p, resolved_root(root, found)) ==> confined(
            root,
            requested,
            found,
            TargetView::Existing(p),
        ) == Ok::<Seq<u8>, ConfineErrorView>(p),
        !is_within(p, resolved_root(root, found)) ==> confined(
            root,
            requested,
            found,
            TargetView::Existing(p),
        ) == Err::<Seq<u8>, ConfineErrorView>(
            ConfineErrorView::Escapes(p, resolved_root(root, found)),
        ),
        found matches TargetView::Existing(r) ==> resolved_root(root, found) == r,
        found is Unresolved ==> resolved_root(root, found) == root,
{
}

/// A new target passes the check where the directory that stands nearest to it lies below the
/// resolved root, if the request goes nowhere up; it passes as the missing names below that directory.
pub proof fn new_target_inside_is_let_through(
    root: Seq<u8>,
    requested: Seq<u8>,
    found: TargetView,
    dir: Seq<u8>,
    n: nat,
)
    requires
        !has_parent_part(joined(root, requested)),
        !(found is Dangling),
        parent_of(joined(root, requested)) is Some,
        0 < n <= parts(joined(root, requested)).len(),
        forall|i: int|
            parts(joined(root, requested)).len() - n <= i < parts(joined(root, requested)).len()
                ==> #[trigger] parts(joined(root, requested))[i] is Normal,
        is_within(dir, resolved_root(root, found)),
    ensures
        confined(root, requested, found, TargetView::Missing(dir, n)) matches Ok(p) && parts(p)
            == parts(dir) + parts(joined(root, requested)).skip(
            parts(joined(root, requested)).len() - n,
        ),
{
    let path = joined(root, requested);
    let base = resolved_root(root, found);
    lemma_missing(path, dir, n);
    let p = placed(dir, last_parts(path, n));
    assert(parts(p).take(parts(base).len() as int) =~= parts(dir).take(parts(base).len() as int));
}

/// A path lies within itself and within the directory above it, and what lies within a directory
/// that lies within another lies within that one too.
pub proof fn within_goes_down_the_tree(p: Seq<u8>, q: Seq<u8>, r: Seq<u8>, name: Seq<u8>)
    ensures
        is_within(p, p),
        is_within(p, q) && is_within(q, r) ==> is_within(p, r),
        is_name(name) ==> is_within(joined(p, name), p) && !is_within(p, joined(p, name)),
        parent_of(p) matches Some(d) ==> is_within(p, d),
{
    assert(parts(p).take(parts(p).len() as int) =~= parts(p));
    if is_within(p, q) && is_within(q, r) {
        let n = parts(r).len() as int;
        assert(parts(p).take(n) =~= parts(p).take(parts(q).len() as int).take(n));
    }
    if is_name(name) {
        join_adds_one_component(p, name);
        assert(parts(joined(p, name)).take(parts(p).len() as int) =~= parts(p));
    }
    lemma_parent_parts(p);
    if let Some(d) = parent_of(p) {
        assert(parts(p).take(parts(d).len() as int) =~= parts(p).drop_last());
    }
}

/// A path with a segment of two dots goes up: in front, behind or between others.
pub proof fn two_dots_go_up(a: Seq<u8>, b: Seq<u8>)
    ensures
        has_parent_part(seq![DOT, DOT]),
        has_parent_part(a + seq![SEPARATOR, DOT, DOT]),
        has_parent_part(seq![DOT, DOT, SEPARATOR] + b),
        has_parent_part(a + seq![SEPARATOR, DOT, DOT, SEPARATOR] + b),
{
    let none = Seq::<u8>::empty();
    lemma_goes_up(none, none, false, false);
    lemma_goes_up(a, none, true, false);
    lemma_goes_up(none, b, false, true);
    lemma_goes_up(a, b, true, true);
    assert(none + none + seq![DOT, DOT] + none + none =~= seq![DOT, DOT]);
    assert(a + seq![SEPARATOR] + seq![DOT, DOT] + none + none =~= a + seq![SEPARATOR, DOT, DOT]);
    assert(none + none + seq![DOT, DOT] + seq![SEPARATOR] + b =~= seq![DOT, DOT, SEPARATOR] + b);
    assert(a + seq![SEPARATOR] + seq![DOT, DOT] + seq![SEPARATOR] + b =~= a + seq![
        SEPARATOR,
        DOT,
        DOT,
        SEPARATOR,
    ] + b);
}

/// The segments of a path that goes on behind a separator.
proof fn lemma_segments_concat(a: Seq<u8>, b: Seq<u8>)
    ensures
        segments(a + seq![SEPARATOR] + b) == segments(a) + segments(b),
    decreases b.len(),
{
    let s = a + seq![SEPARATOR];
    lemma_segments(a);
    lemma_segments(b);
    if b.len() == 0 {
        assert(s + b =~= a.push(SEPARATOR));
        assert(a.push(SEPARATOR).drop_last() =~= a);
        assert(segments(b) == seq![Seq::<u8>::empty()]);
        assert(segments(a).push(Seq::<u8>::empty()) =~= segments(a) + segments(b));
    } else {
        let c = b.drop_last();
        lemma_segments_concat(a, c);
        lemma_segments(c);
        assert((s + b).drop_last() =~= s + c);
        assert((s + b).last() == b.last());
        assert((segments(a) + segments(c)).drop_last() =~= segments(a) + segments(c).drop_last());
        assert(segments(s + b) =~= segments(a) + segments(b));
    }
}

/// What segments stand for, one list behind the other.
proof fn lemma_body_concat(a: Seq<Seq<u8>>, b: Seq<Seq<u8>>)
    ensures
        body(a + b) == body(a) + body(b),
    decreases b.len(),
{
    if b.len() == 0 {
        assert(a + b =~= a);
        assert(body(a) + body(b) =~= body(a));
    } else {
        lemma_body_concat(a, b.drop_last());
        assert((a + b).drop_last() =~= a + b.drop_last());
        assert(body(a + b) =~= body(a) + body(b));
    }
}

proof fn lemma_goes_up(a: Seq<u8>, b: Seq<u8>, front: bool, back: bool)
    requires
        front || a.len() == 0,
        back || b.len() == 0,
    ensures
        ({
            let none = Seq::<u8>::empty();
            let sep = seq![SEPARATOR];
            has_parent_part(
                a + (if front {
                    sep
                } else {
                    none
                }) + seq![DOT, DOT] + (if back {
                    sep
                } else {
                    none
                }) + b,
            )
        }),
{
    let none = Seq::<u8>::empty();
    let dots = seq![DOT, DOT];
    let tail = if back {
        dots + seq![SEPARATOR] + b
    } else {
        dots
    };
    lemma_segments_append(none, dots);
    assert(none + dots =~= dots);
    assert(segments(none) == seq![none]);
    assert(segments(none).last() + dots =~= dots);
    assert(segments(dots) =~= seq![dots]);
    if back {
        lemma_segments_concat(dots, b);
    }
    lemma_segments(b);
    assert(segments(tail)[0] == dots);
    let p = if front {
        a + seq![SEPARATOR] + tail
    } else {
        tail
    };
    let first = if front {
        segments(a)
    } else {
        Seq::<Seq<u8>>::empty()
    };
    if front {
        lemma_segments_concat(a, tail);
    } else {
        assert(first + segments(tail) =~= segments(tail));
    }
    assert(segments(p) == first + segments(tail));
    let rest = segments(tail).skip(1);
    assert(segments(p) =~= first + seq![dots] + rest);
    lemma_body_concat(first + seq![dots], rest);
    lemma_body_concat(first, seq![dots]);
    assert(seq![dots].drop_last() =~= Seq::<Seq<u8>>::empty());
    assert(body(Seq::<Seq<u8>>::empty()) =~= Seq::<PartView>::empty());
    assert(body(seq![dots]) =~= part_of(dots));
    assert(part_of(dots) =~= seq![PartView::Parent]);
    let at = head(p).len() + body(first).len();
    assert(parts(p)[at as int] == PartView::Parent);
    assert(parts(p)[at as int] is Parent);
    let whole = a + (if front {
        seq![SEPARATOR]
    } else {
        none
    }) + dots + (if back {
        seq![SEPARATOR]
    } else {
        none
    }) + b;
    assert(whole =~= p);
}

/// A relative path seen from a directory has the components of the directory and then its own; an
/// absolute one stays as it is.
pub proof fn relative_path_goes_on_behind_the_directory(d: Seq<u8>, r: Seq<u8>)
    ensures
        r.len() > 0 && r[0] == SEPARATOR ==> joined(d, r) == r,
        d.len() > 0 && !(r.len() > 0 && r[0] == SEPARATOR) && !(r.len() > 0 && r[0] == DOT && (r.len()
            == 1 || r[1] == SEPARATOR)) ==> parts(joined(d, r)) == parts(d) + parts(r),
{
    if d.len() > 0 && !is_absolute(r) && !starts_current(r) {
        let p = joined(d, r);
        let e = if d.last() == SEPARATOR {
            d.drop_last()
        } else {
            d
        };
        assert(p =~= e + seq![SEPARATOR] + r);
        lemma_segments_concat(e, r);
        lemma_body_concat(segments(e), segments(r));
        if d.last() == SEPARATOR {
            let before = segments(e);
            assert(segments(d) == before.push(Seq::<u8>::empty()));
            assert(segments(d).drop_last() =~= before);
            assert(part_of(Seq::<u8>::empty()) =~= Seq::<PartView>::empty());
            assert(body(segments(d)) =~= body(before));
        }
        assert(p[0] == d[0]);
        if d.len() >= 2 {
            assert(p[1] == d[1]);
        } else if d.last() != SEPARATOR {
            assert(p[1] == SEPARATOR);
        }
        assert(head(p) == head(d));
        assert(head(r) =~= Seq::<PartView>::empty());
        assert(parts(p) =~= parts(d) + parts(r));
    }
}

/// Two dots behind a path add one component.
proof fn lemma_join_dots(d: Seq<u8>)
    ensures
        parts(joined(d, seq![DOT, DOT])) == parts(d).push(PartView::Parent),
{
    let none = Seq::<u8>::empty();
    let dots = seq![DOT, DOT];
    lemma_segments_append(none, dots);
    assert(none + dots =~= dots);
    assert(segments(none) == seq![none]);
    assert(segments(none).last() + dots =~= dots);
    assert(segments(dots) =~= seq![dots]);
    assert(seq![dots].drop_last() =~= Seq::<Seq<u8>>::empty());
    assert(body(Seq::<Seq<u8>>::empty()) =~= Seq::<PartView>::empty());
    assert(part_of(dots) =~= seq![PartView::Parent]);
    assert(body(segments(dots)) =~= seq![PartView::Parent]);
    assert(dots[0] == DOT && dots[1] == DOT);
    assert(parts(dots) =~= seq![PartView::Parent]);
    if d.len() > 0 {
        relative_path_goes_on_behind_the_directory(d, dots);
        assert(parts(d) + parts(dots) =~= parts(d).push(PartView::Parent));
    } else {
        assert(d =~= none);
        assert(joined(d, dots) =~= dots);
        assert(seq![none].drop_last() =~= Seq::<Seq<u8>>::empty());
        assert(part_of(none) =~= Seq::<PartView>::empty());
        assert(parts(d) =~= Seq::<PartView>::empty());
        assert(parts(d).push(PartView::Parent) =~= parts(dots));
    }
}

/// A path that is continued by names and steps up has those components behind its own.
pub proof fn continued_path_keeps_its_components(path: Seq<u8>, more: Seq<PartView>)
    requires
        forall|i: int|
            0 <= i < more.len() ==> (#[trigger] more[i] is Parent || more[i] is Normal && is_name(
                more[i]->Normal_0,
            )),
    ensures
        parts(continued(path, more)) == parts(path) + more,
    decreases more.len(),
{
    if more.len() == 0 {
        assert(parts(path) + more =~= parts(path));
    } else {
        let before = more.drop_last();
        assert forall|i: int| 0 <= i < before.len() implies (#[trigger] before[i] is Parent
            || before[i] is Normal && is_name(before[i]->Normal_0)) by {
            assert(before[i] == more[i]);
        }
        continued_path_keeps_its_components(path, before);
        let front = continued(path, before);
        assert(more[more.len() - 1] == more.last());
        match more.last() {
            PartView::Normal(n) => {
                join_adds_one_component(front, n);
            },
            PartView::Parent => {
                lemma_join_dots(front);
            },
            _ => {},
        }
        assert((parts(path) + before).push(more.last()) =~= parts(path) + more);
    }
}

/// A link is followed from the directory in which it stands: what lies below it in the path comes
/// behind what it holds, and that comes behind the directory where it is relative.
pub proof fn followed_link_keeps_what_lies_below(
    path: Seq<u8>,
    n: nat,
    held: Seq<u8>,
    dir: Seq<u8>,
)
    requires
        n <= parts(path).len(),
        forall|i: int|
            parts(path).len() - n <= i < parts(path).len() ==> (#[trigger] parts(path)[i] is Normal
                || parts(path)[i] is Parent),
        parent_of(asked(path)[n as int]) == Some(dir),
    ensures
        held.len() > 0 && held[0] == SEPARATOR ==> parts(link_path(path, n, held)) == parts(held)
            + parts(path).skip(parts(path).len() - n),
        dir.len() > 0 && !(held.len() > 0 && held[0] == SEPARATOR) && !(held.len() > 0 && held[0]
            == DOT && (held.len() == 1 || held[1] == SEPARATOR)) ==> parts(link_path(path, n, held))
            == parts(dir) + parts(held) + parts(path).skip(parts(path).len() - n),
{
    let more = last_parts(path, n);
    assert forall|i: int| 0 <= i < more.len() implies (#[trigger] more[i] is Parent || more[i] is Normal
        && is_name(more[i]->Normal_0)) by {
        let j = parts(path).len() - n + i;
        assert(more[i] == parts(path)[j]);
        lemma_part_names(path, j);
    }
    relative_path_goes_on_behind_the_directory(dir, held);
    continued_path_keeps_its_components(joined(dir, held), more);
}

}
