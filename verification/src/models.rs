//! Model discovery: weights below models/ and cached repos below hf-cache/hub.

use crate::kinds::ModelFormat;
use crate::names;
use crate::outside;
use crate::paths;
use crate::paths::Part;
use crate::records::{ModelFile, ModelFileView, Timestamp};
use crate::search;
use crate::text;
use crate::tree;
use crate::tree::Config;
use vstd::prelude::*;
use vstd::string::*;

verus! {

// ---------------------------------------------------------------------------
// What the file system holds
// ---------------------------------------------------------------------------

/// What the file system says of a file itself; a symbolic link is not followed.
#[derive(Debug, Clone, Copy, PartialEq, Eq)]
pub struct Meta {
    pub len: u64,
    pub modified: Option<Timestamp>,
}

/// What a symbolic link leads to.
#[derive(Debug, Clone, Copy, PartialEq, Eq)]
pub struct Aim {
    pub len: u64,
    pub is_dir: bool,
    /// Whether it lies in the tree that is walked, so that the walk meets it where it stands.
    pub met: bool,
}

/// What stands behind an entry of a directory.
#[derive(Debug, PartialEq)]
pub enum Node {
    /// A directory, with its entries in the order in which they were read; `None` where they
    /// could not be read.
    Dir(Option<Vec<Entry>>),
    /// A symbolic link: what is known of the link, and of what it leads to.
    Link(Option<Meta>, Option<Aim>),
    File(Option<Meta>),
    /// Something whose type could not be read.
    Unknown,
}

/// An entry of a directory.
#[derive(Debug, PartialEq)]
pub struct Entry {
    pub name: String,
    pub node: Node,
}

/// An entry of the cache, with the entries of the directory it names; `None` where those could
/// not be read.
#[derive(Debug, PartialEq)]
pub struct CacheEntry {
    pub name: String,
    pub contents: Option<Vec<Entry>>,
}

/// How many directories deep weights are looked for below models/.
pub const WEIGHTS_DEPTH: usize = 4;

/// How many directories deep the files of a cached repo are counted.
pub const CACHE_DEPTH: usize = 6;

/// The contents of a list of models.
pub open spec fn model_views(v: Seq<ModelFile>) -> Seq<ModelFileView> {
    v.map_values(|m: ModelFile| m@)
}

// ---------------------------------------------------------------------------
// Weights
// ---------------------------------------------------------------------------

/// Whether a directory is hidden.
pub open spec fn is_hidden(name: Seq<char>) -> bool {
    search::has_prefix(name, "."@)
}

/// Whether a file of that name, in lower case, holds weights.
pub open spec fn is_weights(lower: Seq<char>) -> bool {
    search::has_suffix(lower, ".gguf"@) || search::has_suffix(lower, ".safetensors"@)
}

/// The model that a file of weights stands for.
pub open spec fn weights_file(
    dir: Seq<char>,
    name: Seq<char>,
    meta: Option<Meta>,
) -> ModelFileView {
    ModelFileView {
        vm: Seq::empty(),
        path: tree::child_path(dir, name),
        filename: name,
        size_bytes: match meta {
            Some(m) => m.len,
            None => 0,
        },
        format: Some(names::format_named(outside::lowercase(name))),
        quant: names::quant_tag(outside::uppercase(name)),
        modified: match meta {
            Some(m) => m.modified,
            None => None,
        },
    }
}

/// The file of weights that an entry is, if it is one.
pub open spec fn weights_entry(dir: Seq<char>, name: Seq<char>, meta: Option<Meta>) -> Seq<
    ModelFileView,
> {
    if is_weights(outside::lowercase(name)) {
        seq![weights_file(dir, name, meta)]
    } else {
        Seq::empty()
    }
}

/// A file of weights has the format of its extension.
pub proof fn weights_have_the_format_of_their_extension(
    dir: Seq<char>,
    name: Seq<char>,
    meta: Option<Meta>,
)
    requires
        is_weights(outside::lowercase(name)),
    ensures
        weights_file(dir, name, meta).format == Some(
            if search::has_suffix(outside::lowercase(name), ".gguf"@) {
                ModelFormat::Gguf
            } else {
                ModelFormat::Safetensors
            },
        ),
{
}

/// The weights below a directory with these entries, in the order in which they are met. Hidden
/// directories are left out, and so is what lies deeper than `max`.
pub open spec fn weights_in(dir: Seq<char>, entries: Seq<Entry>, depth: nat, max: nat) -> Seq<
    ModelFileView,
>
    decreases max + 1 - depth, entries.len(),
{
    if depth > max || entries.len() == 0 {
        Seq::empty()
    } else {
        let before = weights_in(dir, entries.drop_last(), depth, max);
        let e = entries.last();
        before + match e.node {
            Node::Dir(Some(inner)) => if is_hidden(e.name@) {
                Seq::empty()
            } else {
                weights_in(tree::child_path(dir, e.name@), inner@, depth + 1, max)
            },
            Node::Dir(None) => Seq::empty(),
            Node::Link(meta, _) => weights_entry(dir, e.name@, meta),
            Node::File(meta) => weights_entry(dir, e.name@, meta),
            Node::Unknown => Seq::empty(),
        }
    }
}

/// Whether the walk enters a directory of that name.
pub fn enters(name: &str) -> (r: bool)
    ensures
        r == !is_hidden(name@),
{
    !search::starts_with(name, ".")
}

/// The model that a file stands for, if it holds weights. `lower` is its name in lower case; the
/// format and the tag are those that its name tells of.
pub fn weights_model(
    dir: &str,
    name: &str,
    lower: &str,
    format: ModelFormat,
    quant: Option<String>,
    meta: &Option<Meta>,
) -> (r: Option<ModelFile>)
    ensures
        match r {
            Some(m) => is_weights(lower@) && m@ == (ModelFileView {
                vm: Seq::empty(),
                path: tree::child_path(dir@, name@),
                filename: name@,
                size_bytes: match *meta {
                    Some(f) => f.len,
                    None => 0,
                },
                format: Some(format),
                quant: text::opt_text(quant),
                modified: match *meta {
                    Some(f) => f.modified,
                    None => None,
                },
            }),
            None => !is_weights(lower@),
        },
{
    if search::ends_with(lower, ".gguf") || search::ends_with(lower, ".safetensors") {
        let (size, modified): (u64, Option<Timestamp>) = match meta {
            Some(m) => (m.len, m.modified),
            None => (0, None),
        };
        Some(
            ModelFile {
                vm: String::new(),
                path: tree::child(dir, name),
                filename: name.to_owned(),
                size_bytes: size,
                format: Some(format),
                quant,
                modified,
            },
        )
    } else {
        None
    }
}

/// Adds the file of weights that an entry is, if it is one.
fn add_weights(dir: &str, name: &str, meta: &Option<Meta>, out: &mut Vec<ModelFile>)
    ensures
        model_views(final(out)@) == model_views(old(out)@) + weights_entry(dir@, name@, *meta),
{
    let lower: String = outside::to_lowercase(name);
    let ghost before = model_views(out@);
    let format: ModelFormat = names::format_from_lowercase(lower.as_str());
    let quant: Option<String> = names::parse_quant(name);
    match weights_model(dir, name, lower.as_str(), format, quant, meta) {
        Some(file) => {
            assert(file@ =~= weights_file(dir@, name@, *meta));
            out.push(file);
            assert(model_views(out@) =~= before + seq![weights_file(dir@, name@, *meta)]);
        },
        None => {
            assert(before + Seq::<ModelFileView>::empty() =~= before);
        },
    }
}

/// Adds the weights below a directory with these entries.
pub fn walk_weights(
    dir: &str,
    entries: &Vec<Entry>,
    depth: usize,
    max: usize,
    out: &mut Vec<ModelFile>,
)
    ensures
        model_views(final(out)@) == model_views(old(out)@) + weights_in(
            dir@,
            entries@,
            depth as nat,
            max as nat,
        ),
    decreases max + 1 - depth,
{
    let ghost start = model_views(out@);
    if depth > max {
        assert(start + Seq::<ModelFileView>::empty() =~= start);
        return;
    }
    assert(start + weights_in(dir@, entries@.take(0), depth as nat, max as nat) =~= start);
    for i in 0..entries.len()
        invariant
            depth <= max,
            model_views(out@) == start + weights_in(
                dir@,
                entries@.take(i as int),
                depth as nat,
                max as nat,
            ),
    {
        let e: &Entry = &entries[i];
        assert(entries@.take(i + 1).drop_last() =~= entries@.take(i as int));
        assert(entries@.take(i + 1).last() == *e);
        let ghost before = weights_in(dir@, entries@.take(i as int), depth as nat, max as nat);
        let ghost sofar = model_views(out@);
        match &e.node {
            Node::Dir(Some(inner)) => {
                if enters(e.name.as_str()) {
                    if depth < max {
                        let path: String = tree::child(dir, e.name.as_str());
                        walk_weights(path.as_str(), inner, depth + 1, max, out);
                    } else {
                        assert(weights_in(
                            tree::child_path(dir@, e.name@),
                            inner@,
                            (depth + 1) as nat,
                            max as nat,
                        ) =~= Seq::<ModelFileView>::empty());
                    }
                }
            },
            Node::Dir(None) => {},
            Node::Link(meta, _) => {
                add_weights(dir, e.name.as_str(), meta, out);
            },
            Node::File(meta) => {
                add_weights(dir, e.name.as_str(), meta, out);
            },
            Node::Unknown => {},
        }
        assert(model_views(out@) =~= start + weights_in(
            dir@,
            entries@.take(i + 1),
            depth as nat,
            max as nat,
        ));
    }
    assert(entries@.take(entries@.len() as int) =~= entries@);
}

// ---------------------------------------------------------------------------
// Sizes
// ---------------------------------------------------------------------------

/// What a symbolic link adds to the size of a tree.
pub open spec fn link_size(aim: Aim) -> nat {
    if aim.met && !aim.is_dir {
        0
    } else {
        aim.len as nat
    }
}

/// The size of the files below a directory with these entries. Each file counts once: a symbolic
/// link counts as what it leads to, but for one that leads to a file in the tree itself. What lies
/// deeper than `max` does not count.
pub open spec fn size_in(entries: Seq<Entry>, depth: nat, max: nat) -> nat
    decreases max + 1 - depth, entries.len(),
{
    if depth > max || entries.len() == 0 {
        0
    } else {
        size_in(entries.drop_last(), depth, max) + match entries.last().node {
            Node::Link(_, Some(aim)) => link_size(aim),
            Node::Link(_, None) => 0,
            Node::Dir(Some(inner)) => size_in(inner@, depth + 1, max),
            Node::Dir(None) => 0,
            Node::File(Some(m)) => m.len as nat,
            Node::File(None) => 0,
            Node::Unknown => 0,
        }
    }
}

/// The first entries are no larger than all of them.
proof fn lemma_size_prefix(entries: Seq<Entry>, i: int, depth: nat, max: nat)
    requires
        0 <= i <= entries.len(),
    ensures
        size_in(entries.take(i), depth, max) <= size_in(entries, depth, max),
    decreases entries.len() - i,
{
    if i < entries.len() {
        lemma_size_prefix(entries, i + 1, depth, max);
        assert(entries.take(i + 1).drop_last() =~= entries.take(i));
    } else {
        assert(entries.take(i) =~= entries);
    }
}

/// The size of the files below a directory with these entries; `None` where it is more than a
/// `u64` can hold.
pub fn dir_size(entries: &Vec<Entry>, depth: usize, max: usize) -> (r: Option<u64>)
    ensures
        match r {
            Some(n) => n as nat == size_in(entries@, depth as nat, max as nat),
            None => size_in(entries@, depth as nat, max as nat) > u64::MAX,
        },
    decreases max + 1 - depth,
{
    if depth > max {
        return Some(0);
    }
    let mut total: u64 = 0;
    for i in 0..entries.len()
        invariant
            depth <= max,
            total as nat == size_in(entries@.take(i as int), depth as nat, max as nat),
    {
        let e: &Entry = &entries[i];
        assert(entries@.take(i + 1).drop_last() =~= entries@.take(i as int));
        assert(entries@.take(i + 1).last() == *e);
        proof {
            lemma_size_prefix(entries@, i + 1, depth as nat, max as nat);
        }
        let size: u64 = match &e.node {
            Node::Link(_, Some(aim)) => if aim.met && !aim.is_dir {
                0
            } else {
                aim.len
            },
            Node::Dir(Some(inner)) => if depth < max {
                match dir_size(inner, depth + 1, max) {
                    Some(n) => n,
                    None => {
                        return None;
                    },
                }
            } else {
                assert(size_in(inner@, (depth + 1) as nat, max as nat) == 0);
                0
            },
            Node::File(Some(m)) => m.len,
            _ => 0,
        };
        match total.checked_add(size) {
            Some(n) => {
                total = n;
            },
            None => {
                return None;
            },
        }
    }
    assert(entries@.take(entries@.len() as int) =~= entries@);
    Some(total)
}

/// Whether a walk from `root` meets what stands at `target`, both resolved.
pub fn is_met(root: &[u8], target: &[u8], max: usize) -> (r: bool)
    ensures
        r == (paths::is_within(target@, root@) && paths::parts(target@).len() - paths::parts(
            root@,
        ).len() <= max + 1),
{
    if !paths::within(target, root) {
        return false;
    }
    let a: Vec<Part> = paths::parts_of(target);
    let b: Vec<Part> = paths::parts_of(root);
    assert(paths::part_views(a@).len() == a@.len());
    assert(paths::part_views(b@).len() == b@.len());
    a.len() == b.len() || a.len() - b.len() - 1 <= max
}

/// A link that leads to a file in the tree itself adds nothing to the size of the tree: the file is
/// counted where it stands.
pub proof fn links_to_files_in_the_tree_add_nothing(entries: Seq<Entry>, i: int, depth: nat, max: nat)
    requires
        0 <= i < entries.len(),
        entries[i].node matches Node::Link(_, Some(aim)) && aim.met && !aim.is_dir,
    ensures
        size_in(entries.remove(i), depth, max) == size_in(entries, depth, max),
    decreases entries.len(),
{
    if i == entries.len() - 1 {
        assert(entries.remove(i) =~= entries.drop_last());
    } else {
        links_to_files_in_the_tree_add_nothing(entries.drop_last(), i, depth, max);
        assert(entries.remove(i).drop_last() =~= entries.drop_last().remove(i));
        assert(entries.remove(i).last() == entries.last());
    }
}

// ---------------------------------------------------------------------------
// Cached repos
// ---------------------------------------------------------------------------

/// The size of a cached repo.
pub open spec fn repo_size(e: CacheEntry) -> nat {
    match e.contents {
        Some(c) => size_in(c@, 0, CACHE_DEPTH as nat),
        None => 0,
    }
}

/// The model that an entry of the cache stands for, if it is a repo.
pub open spec fn repo_entry(hub: Seq<char>, e: CacheEntry) -> Seq<ModelFileView> {
    match search::after_prefix(e.name@, "models--"@) {
        Some(repo) => seq![
            ModelFileView {
                vm: Seq::empty(),
                path: tree::child_path(hub, e.name@),
                filename: search::replaced(repo, "--"@, "/"@),
                size_bytes: repo_size(e) as u64,
                format: Some(ModelFormat::HfRepo),
                quant: None,
                modified: None,
            },
        ],
        None => Seq::empty(),
    }
}

/// The repos of a cache with these entries, in order.
pub open spec fn repos_in(hub: Seq<char>, entries: Seq<CacheEntry>) -> Seq<ModelFileView>
    decreases entries.len(),
{
    if entries.len() == 0 {
        Seq::empty()
    } else {
        repos_in(hub, entries.drop_last()) + repo_entry(hub, entries.last())
    }
}

/// Whether the size of each repo fits in a `u64`.
pub open spec fn sizes_fit(entries: Seq<CacheEntry>) -> bool {
    forall|i: int|
        0 <= i < entries.len() && search::has_prefix(entries[i].name@, "models--"@) ==> repo_size(
            #[trigger] entries[i],
        ) <= u64::MAX
}

/// Adds the repos of a cache with these entries. `false` where the size of one is more than a
/// `u64` can hold.
fn add_repos(hub: &str, entries: &Vec<CacheEntry>, out: &mut Vec<ModelFile>) -> (r: bool)
    ensures
        r == sizes_fit(entries@),
        r ==> model_views(final(out)@) == model_views(old(out)@) + repos_in(hub@, entries@),
{
    let ghost start = model_views(out@);
    assert(start + repos_in(hub@, entries@.take(0)) =~= start);
    for i in 0..entries.len()
        invariant
            forall|j: int|
                0 <= j < i && search::has_prefix(entries@[j].name@, "models--"@) ==> repo_size(
                    #[trigger] entries@[j],
                ) <= u64::MAX,
            model_views(out@) == start + repos_in(hub@, entries@.take(i as int)),
    {
        let e: &CacheEntry = &entries[i];
        assert(entries@.take(i + 1).drop_last() =~= entries@.take(i as int));
        assert(entries@.take(i + 1).last() == *e);
        assert(entries@[i as int] == *e);
        let ghost sofar = model_views(out@);
        if let Some(rest) = search::strip_prefix(e.name.as_str(), "models--") {
            let size: u64 = match &e.contents {
                Some(c) => match dir_size(c, 0, CACHE_DEPTH) {
                    Some(n) => n,
                    None => {
                        assert(repo_size(entries@[i as int]) > u64::MAX);
                        return false;
                    },
                },
                None => 0,
            };
            proof {
                reveal_strlit("--");
            }
            let file: ModelFile = ModelFile {
                vm: String::new(),
                path: tree::child(hub, e.name.as_str()),
                filename: search::replace(rest.as_str(), "--", "/"),
                size_bytes: size,
                format: Some(ModelFormat::HfRepo),
                quant: None,
                modified: None,
            };
            let ghost shown = file@;
            assert(repo_entry(hub@, *e) =~= seq![shown]);
            out.push(file);
            assert(model_views(out@) =~= sofar + seq![shown]);
        } else {
            assert(sofar + repo_entry(hub@, *e) =~= sofar);
        }
        assert(model_views(out@) =~= start + repos_in(hub@, entries@.take(i + 1)));
    }
    assert(entries@.take(entries@.len() as int) =~= entries@);
    true
}

// ---------------------------------------------------------------------------
// Order
// ---------------------------------------------------------------------------

/// Whether a text stands at or in front of another, by the first code point in which they differ;
/// a text stands in front of those that continue it.
pub open spec fn ordered(a: Seq<char>, b: Seq<char>) -> bool
    decreases a.len(),
{
    if a.len() == 0 {
        true
    } else if b.len() == 0 {
        false
    } else if a[0] == b[0] {
        ordered(a.skip(1), b.skip(1))
    } else {
        a[0] < b[0]
    }
}

/// Where a key goes in an ordered list: behind the last entry whose key does not stand behind it.
pub open spec fn slot(s: Seq<(Seq<char>, ModelFileView)>, key: Seq<char>) -> int
    decreases s.len(),
{
    if s.len() == 0 || ordered(s.last().0, key) {
        s.len() as int
    } else {
        slot(s.drop_last(), key)
    }
}

/// Models ordered by the keys in front of them, those with the same key in the order in which they
/// came.
pub open spec fn by_key(s: Seq<(Seq<char>, ModelFileView)>) -> Seq<(Seq<char>, ModelFileView)>
    decreases s.len(),
{
    if s.len() == 0 {
        s
    } else {
        let before = by_key(s.drop_last());
        before.insert(slot(before, s.last().0), s.last())
    }
}

/// The models behind keys.
pub open spec fn without_keys(s: Seq<(Seq<char>, ModelFileView)>) -> Seq<ModelFileView> {
    s.map_values(|e: (Seq<char>, ModelFileView)| e.1)
}

/// Models with their keys: their names in lower case.
pub open spec fn with_names(s: Seq<ModelFileView>) -> Seq<(Seq<char>, ModelFileView)> {
    s.map_values(|m: ModelFileView| (outside::lowercase(m.filename), m))
}

/// The models ordered by name, whatever the case of its letters; those with the same name in the
/// order in which they came.
pub open spec fn by_name(s: Seq<ModelFileView>) -> Seq<ModelFileView> {
    without_keys(by_key(with_names(s)))
}

/// Whether a text stands at or in front of another.
fn in_order(a: &[char], b: &[char]) -> (r: bool)
    ensures
        r == ordered(a@, b@),
{
    let n: usize = a.len();
    let m: usize = b.len();
    let mut i: usize = 0;
    assert(a@.skip(0) =~= a@);
    assert(b@.skip(0) =~= b@);
    while i < n && i < m && a[i] == b[i]
        invariant
            n == a@.len(),
            m == b@.len(),
            i <= n,
            i <= m,
            ordered(a@.skip(i as int), b@.skip(i as int)) == ordered(a@, b@),
        decreases n - i,
    {
        assert(a@.skip(i as int).skip(1) =~= a@.skip(i + 1));
        assert(b@.skip(i as int).skip(1) =~= b@.skip(i + 1));
        i = i + 1;
    }
    if i == n {
        true
    } else if i == m {
        false
    } else {
        a[i] < b[i]
    }
}

proof fn lemma_slot(s: Seq<(Seq<char>, ModelFileView)>, key: Seq<char>)
    ensures
        0 <= slot(s, key) <= s.len(),
        slot(s, key) > 0 ==> ordered(s[slot(s, key) - 1].0, key),
        forall|i: int| slot(s, key) <= i < s.len() ==> !ordered(#[trigger] s[i].0, key),
    decreases s.len(),
{
    if s.len() > 0 && !ordered(s.last().0, key) {
        lemma_slot(s.drop_last(), key);
        assert forall|i: int| slot(s, key) <= i < s.len() implies !ordered(
            #[trigger] s[i].0,
            key,
        ) by {
            if i < s.len() - 1 {
                assert(s.drop_last()[i] == s[i]);
            }
        }
    }
}

/// The contents of a list of models with keys.
pub open spec fn keyed_views(v: Seq<(String, ModelFile)>) -> Seq<(Seq<char>, ModelFileView)> {
    v.map_values(|e: (String, ModelFile)| (e.0@, e.1@))
}

/// Sorts models by the keys in front of them; those with the same key stay in the order in which
/// they came.
pub fn sort_by_key(list: Vec<(String, ModelFile)>) -> (r: Vec<ModelFile>)
    ensures
        model_views(r@) == without_keys(by_key(keyed_views(list@))),
{
    let ghost all = keyed_views(list@);
    let ghost given = list@;
    let mut out: Vec<ModelFile> = Vec::new();
    let mut keys: Vec<Vec<char>> = Vec::new();
    let ghost mut sorted = by_key(all.take(0));
    assert(model_views(out@) =~= without_keys(sorted));
    for entry in it: list
        invariant
            it.seq() == given,
            all == keyed_views(given),
            sorted == by_key(all.take(it.index() as int)),
            model_views(out@) == without_keys(sorted),
            out@.len() == sorted.len(),
            keys@.len() == sorted.len(),
            forall|i: int| 0 <= i < keys@.len() ==> (#[trigger] keys@[i])@ == sorted[i].0,
    {
        let ghost n = it.index() as int;
        let ghost shown = (entry.0@, entry.1@);
        assert(all[n] == shown);
        assert(all.take(n + 1).drop_last() =~= all.take(n));
        assert(all.take(n + 1).last() == shown);
        let (name, model): (String, ModelFile) = entry;
        let key: Vec<char> = text::chars_of(name.as_str());
        let ghost old_keys = keys@;
        let ghost before = model_views(out@);
        let mut k: usize = out.len();
        assert(sorted.take(k as int) =~= sorted);
        while k > 0 && !in_order(keys[k - 1].as_slice(), key.as_slice())
            invariant
                k <= sorted.len(),
                keys@.len() == sorted.len(),
                forall|i: int| 0 <= i < keys@.len() ==> (#[trigger] keys@[i])@ == sorted[i].0,
                slot(sorted, key@) == slot(sorted.take(k as int), key@),
            decreases k,
        {
            assert(sorted.take(k as int).drop_last() =~= sorted.take(k - 1));
            assert(sorted.take(k as int).last() == sorted[k - 1]);
            k = k - 1;
        }
        assert(k == slot(sorted, key@)) by {
            if k > 0 {
                assert(sorted.take(k as int).last() == sorted[k - 1]);
            }
        }
        out.insert(k, model);
        keys.insert(k, key);
        let ghost after = sorted.insert(k as int, shown);
        assert(model_views(out@) =~= before.insert(k as int, shown.1));
        assert(without_keys(after) =~= before.insert(k as int, shown.1));
        assert forall|i: int| 0 <= i < keys@.len() implies (#[trigger] keys@[i])@
            == after[i].0 by {
            if i < k {
                assert(keys@[i] == old_keys[i]);
            } else if i > k {
                assert(keys@[i] == old_keys[i - 1]);
            }
        }
        proof {
            sorted = after;
        }
    }
    assert(all.take(all.len() as int) =~= all);
    out
}

/// Sorts the models by name, whatever the case of its letters; those with the same name stay in
/// the order in which they came.
pub fn sort_models(list: Vec<ModelFile>) -> (r: Vec<ModelFile>)
    ensures
        model_views(r@) == by_name(model_views(list@)),
{
    let ghost given = list@;
    let ghost want = with_names(model_views(given));
    let mut keyed: Vec<(String, ModelFile)> = Vec::new();
    assert(keyed_views(keyed@) =~= want.take(0));
    for m in it: list
        invariant
            it.seq() == given,
            want == with_names(model_views(given)),
            keyed_views(keyed@) == want.take(it.index() as int),
    {
        let ghost n = it.index() as int;
        let ghost before = keyed_views(keyed@);
        assert(model_views(given)[n] == m@);
        let key: String = outside::to_lowercase(m.filename.as_str());
        let ghost shown = (key@, m@);
        assert(want[n] == shown);
        keyed.push((key, m));
        assert(keyed_views(keyed@) =~= before.push(shown));
        assert(want.take(n + 1) =~= want.take(n).push(shown));
    }
    assert(want.take(want.len() as int) =~= want);
    sort_by_key(keyed)
}

/// All models of a VM: the weights below models/ and the cached repos, by name. `models` and
/// `hub` are the entries of models/ and of hf-cache/hub, `None` where they could not be read; the
/// result is `None` where the size of a repo is more than a `u64` can hold.
pub fn list_models(
    cfg: &Config,
    models: &Option<Vec<Entry>>,
    hub: &Option<Vec<CacheEntry>>,
) -> (r: Option<Vec<ModelFile>>)
    ensures
        match r {
            Some(v) => (hub matches Some(h) ==> sizes_fit(h@)) && model_views(v@) == by_name(
                all_models(cfg.jarvis@, *models, *hub),
            ),
            None => hub matches Some(h) && !sizes_fit(h@),
        },
{
    let mut out: Vec<ModelFile> = Vec::new();
    assert(model_views(out@) =~= Seq::<ModelFileView>::empty());
    if let Some(entries) = models {
        let dir: String = cfg.models_dir();
        walk_weights(dir.as_str(), entries, 0, WEIGHTS_DEPTH, &mut out);
    }
    assert(model_views(out@) =~= found_weights(cfg.jarvis@, *models));
    if let Some(entries) = hub {
        let cache: String = cfg.cache_dir();
        let dir: String = tree::child(cache.as_str(), "hub");
        if !add_repos(dir.as_str(), entries, &mut out) {
            return None;
        }
    }
    assert(model_views(out@) =~= all_models(cfg.jarvis@, *models, *hub));
    Some(sort_models(out))
}

/// The weights below models/.
pub open spec fn found_weights(jarvis: Seq<char>, models: Option<Vec<Entry>>) -> Seq<
    ModelFileView,
> {
    match models {
        Some(entries) => weights_in(
            tree::child_path(jarvis, "models"@),
            entries@,
            0,
            WEIGHTS_DEPTH as nat,
        ),
        None => Seq::empty(),
    }
}

/// All models of a VM in the order in which they are met.
pub open spec fn all_models(
    jarvis: Seq<char>,
    models: Option<Vec<Entry>>,
    hub: Option<Vec<CacheEntry>>,
) -> Seq<ModelFileView> {
    found_weights(jarvis, models) + match hub {
        Some(entries) => repos_in(
            tree::child_path(tree::child_path(jarvis, "hf-cache"@), "hub"@),
            entries@,
        ),
        None => Seq::empty(),
    }
}

// ---------------------------------------------------------------------------
// Laws
// ---------------------------------------------------------------------------

/// Of two texts, one stands at or in front of the other.
proof fn lemma_ordered_total(a: Seq<char>, b: Seq<char>)
    ensures
        ordered(a, b) || ordered(b, a),
    decreases a.len(),
{
    if a.len() > 0 && b.len() > 0 && a[0] == b[0] {
        lemma_ordered_total(a.skip(1), b.skip(1));
    }
}

proof fn lemma_ordered_transitive(a: Seq<char>, b: Seq<char>, c: Seq<char>)
    requires
        ordered(a, b),
        ordered(b, c),
    ensures
        ordered(a, c),
    decreases a.len(),
{
    if a.len() > 0 && a[0] == b[0] && b[0] == c[0] {
        lemma_ordered_transitive(a.skip(1), b.skip(1), c.skip(1));
    }
}

/// Whether entries stand in the order of their keys.
pub open spec fn is_sorted(s: Seq<(Seq<char>, ModelFileView)>) -> bool {
    forall|i: int, j: int|
        0 <= i <= j < s.len() ==> ordered(#[trigger] s[i].0, #[trigger] s[j].0)
}

/// Sorted entries stand in the order of their keys.
pub proof fn sorting_orders_the_keys(s: Seq<(Seq<char>, ModelFileView)>)
    ensures
        is_sorted(by_key(s)),
    decreases s.len(),
{
    if s.len() > 0 {
        let before = by_key(s.drop_last());
        let m = s.last();
        let k = slot(before, m.0);
        sorting_orders_the_keys(s.drop_last());
        lemma_slot(before, m.0);
        let after = before.insert(k, m);
        assert forall|i: int, j: int| 0 <= i <= j < after.len() implies ordered(
            #[trigger] after[i].0,
            #[trigger] after[j].0,
        ) by {
            if i == k && j == k {
                lemma_ordered_total(m.0, m.0);
            } else if i == k {
                assert(after[j] == before[j - 1]);
                lemma_ordered_total(m.0, before[j - 1].0);
            } else if j == k {
                assert(after[i] == before[i]);
                assert(ordered(before[i].0, before[k - 1].0));
                lemma_ordered_transitive(before[i].0, before[k - 1].0, m.0);
            } else {
                let a = if i < k {
                    i
                } else {
                    i - 1
                };
                let b = if j < k {
                    j
                } else {
                    j - 1
                };
                assert(after[i] == before[a]);
                assert(after[j] == before[b]);
            }
        }
    }
}

/// Sorting loses no entry and adds none.
pub proof fn sorting_keeps_the_entries(s: Seq<(Seq<char>, ModelFileView)>)
    ensures
        by_key(s).to_multiset() == s.to_multiset(),
        by_key(s).len() == s.len(),
    decreases s.len(),
{
    broadcast use vstd::seq_lib::group_to_multiset_ensures;

    if s.len() > 0 {
        let before = by_key(s.drop_last());
        let m = s.last();
        let k = slot(before, m.0);
        sorting_keeps_the_entries(s.drop_last());
        lemma_slot(before, m.0);
        assert(s =~= s.drop_last().push(m));
        vstd::seq_lib::to_multiset_insert(before, k, m);
    }
}

/// The entries that have that key.
pub open spec fn has_key(key: Seq<char>) -> spec_fn((Seq<char>, ModelFileView)) -> bool {
    |m: (Seq<char>, ModelFileView)| m.0 == key
}

/// The entries with that key, in order.
pub open spec fn with_key(s: Seq<(Seq<char>, ModelFileView)>, key: Seq<char>) -> Seq<
    (Seq<char>, ModelFileView),
> {
    s.filter(has_key(key))
}

proof fn lemma_no_such_key(s: Seq<(Seq<char>, ModelFileView)>, key: Seq<char>)
    requires
        forall|i: int| 0 <= i < s.len() ==> #[trigger] s[i].0 != key,
    ensures
        with_key(s, key) == Seq::<(Seq<char>, ModelFileView)>::empty(),
    decreases s.len(),
{
    reveal(Seq::filter);
    if s.len() > 0 {
        assert forall|i: int| 0 <= i < s.drop_last().len() implies #[trigger] s.drop_last()[i].0
            != key by {
            assert(s.drop_last()[i] == s[i]);
        }
        lemma_no_such_key(s.drop_last(), key);
        assert(s.last() == s[s.len() - 1]);
    }
}

/// Sorting leaves entries with the same key in the order in which they came.
pub proof fn sorting_is_stable(s: Seq<(Seq<char>, ModelFileView)>, key: Seq<char>)
    ensures
        with_key(by_key(s), key) == with_key(s, key),
    decreases s.len(),
{
    if s.len() > 0 {
        let p = has_key(key);
        let before = by_key(s.drop_last());
        let m = s.last();
        let k = slot(before, m.0);
        lemma_slot(before, m.0);
        sorting_is_stable(s.drop_last(), key);
        let front = before.subrange(0, k);
        let back = before.subrange(k, before.len() as int);
        assert(before =~= front + back);
        Seq::filter_distributes_over_add(front, back, p);
        Seq::filter_distributes_over_add(front.push(m), back, p);
        front.lemma_filter_push(m, p);
        s.drop_last().lemma_filter_push(m, p);
        assert(s =~= s.drop_last().push(m));
        if m.0 == key {
            lemma_ordered_total(key, key);
            assert forall|i: int| 0 <= i < back.len() implies #[trigger] back[i].0 != key by {
                assert(back[i] == before[k + i]);
            }
            lemma_no_such_key(back, key);
        }
        assert(with_key(by_key(s), key) =~= with_key(s, key));
    }
}

/// What is listed is what was found: the weights and the repos, each as often as it was met, in the
/// order of their names in lower case.
pub proof fn listing_is_complete_and_sorted(
    jarvis: Seq<char>,
    models: Option<Vec<Entry>>,
    hub: Option<Vec<CacheEntry>>,
)
    ensures
        ({
            let found = all_models(jarvis, models, hub);
            let listed = by_key(with_names(found));
            &&& by_name(found) == without_keys(listed)
            &&& is_sorted(listed)
            &&& listed.to_multiset() == with_names(found).to_multiset()
        }),
{
    let found = with_names(all_models(jarvis, models, hub));
    sorting_orders_the_keys(found);
    sorting_keeps_the_entries(found);
}

proof fn lemma_weights_concat(
    dir: Seq<char>,
    a: Seq<Entry>,
    b: Seq<Entry>,
    depth: nat,
    max: nat,
)
    ensures
        weights_in(dir, a + b, depth, max) == weights_in(dir, a, depth, max) + weights_in(
            dir,
            b,
            depth,
            max,
        ),
    decreases b.len(),
{
    if b.len() == 0 {
        assert(a + b =~= a);
        assert(weights_in(dir, a, depth, max) + weights_in(dir, b, depth, max) =~= weights_in(
            dir,
            a,
            depth,
            max,
        ));
    } else {
        lemma_weights_concat(dir, a, b.drop_last(), depth, max);
        assert((a + b).drop_last() =~= a + b.drop_last());
        assert((a + b).last() == b.last());
        assert(weights_in(dir, a + b, depth, max) =~= weights_in(dir, a, depth, max) + weights_in(
            dir,
            b,
            depth,
            max,
        ));
    }
}

proof fn lemma_weights_of_one(dir: Seq<char>, e: Entry, depth: nat, max: nat)
    requires
        depth <= max,
    ensures
        weights_in(dir, seq![e], depth, max) == match e.node {
            Node::Dir(Some(inner)) => if is_hidden(e.name@) {
                Seq::empty()
            } else {
                weights_in(tree::child_path(dir, e.name@), inner@, depth + 1, max)
            },
            Node::Dir(None) => Seq::empty(),
            Node::Link(meta, _) => weights_entry(dir, e.name@, meta),
            Node::File(meta) => weights_entry(dir, e.name@, meta),
            Node::Unknown => Seq::empty(),
        },
{
    let one = seq![e];
    assert(one.drop_last() =~= Seq::<Entry>::empty());
    assert(weights_in(dir, one.drop_last(), depth, max) =~= Seq::<ModelFileView>::empty());
    let own = weights_in(dir, one, depth, max);
    match e.node {
        Node::Dir(Some(inner)) => {
            if is_hidden(e.name@) {
                assert(own =~= Seq::<ModelFileView>::empty());
            } else {
                assert(own =~= weights_in(
                    tree::child_path(dir, e.name@),
                    inner@,
                    depth + 1,
                    max,
                ));
            }
        },
        Node::Link(meta, _) => {
            assert(own =~= weights_entry(dir, e.name@, meta));
        },
        Node::File(meta) => {
            assert(own =~= weights_entry(dir, e.name@, meta));
        },
        _ => {
            assert(own =~= Seq::<ModelFileView>::empty());
        },
    }
}

/// The weights of a directory are those of its entries, one after the other, in their order.
pub proof fn weights_of_entries_add_up(
    dir: Seq<char>,
    a: Seq<Entry>,
    b: Seq<Entry>,
    depth: nat,
    max: nat,
)
    ensures
        weights_in(dir, a + b, depth, max) == weights_in(dir, a, depth, max) + weights_in(
            dir,
            b,
            depth,
            max,
        ),
        weights_in(dir, Seq::empty(), depth, max).len() == 0,
{
    lemma_weights_concat(dir, a, b, depth, max);
}

/// A directory is left out of the walk exactly where the first character of its name is a dot, or
/// where it lies too deep: otherwise its weights are listed as those of a directory of its own, with
/// its name in their paths.
pub proof fn only_hidden_directories_are_left_out(
    dir: Seq<char>,
    e: Entry,
    inner: Vec<Entry>,
    depth: nat,
    max: nat,
)
    requires
        e.node == Node::Dir(Some(inner)),
        dir.len() > 0,
        dir.last() != '/',
        e.name@.len() > 0,
        e.name@[0] != '/',
    ensures
        e.name@[0] != '.' && depth < max ==> weights_in(dir, seq![e], depth, max) == weights_in(
            dir + seq!['/'] + e.name@,
            inner@,
            depth + 1,
            max,
        ),
        e.name@[0] == '.' ==> weights_in(dir, seq![e], depth, max).len() == 0,
        depth >= max ==> weights_in(dir, seq![e], depth, max).len() == 0,
{
    reveal_strlit(".");
    assert("."@ =~= seq!['.']);
    assert(e.name@.take(1) =~= seq![e.name@[0]]);
    assert(is_hidden(e.name@) <==> e.name@[0] == '.') by {
        if is_hidden(e.name@) {
            assert(e.name@.take(1)[0] == '.');
        }
    }
    tree::child_stands_behind_one_slash(dir, e.name@);
    if depth <= max {
        lemma_weights_of_one(dir, e, depth, max);
        if depth == max {
            assert(weights_in(
                tree::child_path(dir, e.name@),
                inner@,
                depth + 1,
                max,
            ).len() == 0);
        }
    }
}

/// A file or a link whose name, in lower case, ends in `.gguf` or `.safetensors` is listed once, under
/// its name and its path in the directory, with its own size and time; any other is not listed.
pub proof fn every_file_of_weights_is_listed(
    dir: Seq<char>,
    e: Entry,
    meta: Option<Meta>,
    aim: Option<Aim>,
    depth: nat,
    max: nat,
)
    requires
        e.node == Node::File(meta) || e.node == Node::Link(meta, aim),
        depth <= max,
        dir.len() > 0,
        dir.last() != '/',
        e.name@.len() > 0,
        e.name@[0] != '/',
    ensures
        search::has_suffix(outside::lowercase(e.name@), ".gguf"@) || search::has_suffix(
            outside::lowercase(e.name@),
            ".safetensors"@,
        ) ==> {
            let got = weights_in(dir, seq![e], depth, max);
            &&& got.len() == 1
            &&& got[0].path == dir + seq!['/'] + e.name@
            &&& got[0].filename == e.name@
            &&& meta matches Some(m) ==> got[0].size_bytes == m.len && got[0].modified == m.modified
            &&& meta is None ==> got[0].size_bytes == 0 && got[0].modified is None
            &&& got[0].format == Some(names::format_named(outside::lowercase(e.name@)))
            &&& got[0].quant == names::quant_tag(outside::uppercase(e.name@))
            &&& got[0].vm.len() == 0
        },
        !search::has_suffix(outside::lowercase(e.name@), ".gguf"@) && !search::has_suffix(
            outside::lowercase(e.name@),
            ".safetensors"@,
        ) ==> weights_in(dir, seq![e], depth, max).len() == 0,
{
    lemma_weights_of_one(dir, e, depth, max);
    tree::child_stands_behind_one_slash(dir, e.name@);
}

/// Every weights file of a directory that is entered is in the listing of the directory above, with
/// its path below that directory; and so on, down to the greatest depth.
pub proof fn nested_weights_are_listed(
    dir: Seq<char>,
    entries: Seq<Entry>,
    i: int,
    inner: Vec<Entry>,
    depth: nat,
    max: nat,
    m: ModelFileView,
)
    requires
        0 <= i < entries.len(),
        entries[i].node == Node::Dir(Some(inner)),
        dir.len() > 0,
        dir.last() != '/',
        entries[i].name@.len() > 0,
        entries[i].name@[0] != '.',
        entries[i].name@[0] != '/',
        depth < max,
        weights_in(dir + seq!['/'] + entries[i].name@, inner@, depth + 1, max).contains(m),
    ensures
        weights_in(dir, entries, depth, max).contains(m),
{
    let e = entries[i];
    only_hidden_directories_are_left_out(dir, e, inner, depth, max);
    let a = entries.take(i);
    let b = entries.skip(i + 1);
    assert(entries =~= a + (seq![e] + b));
    lemma_weights_concat(dir, a, seq![e] + b, depth, max);
    lemma_weights_concat(dir, seq![e], b, depth, max);
    let x = weights_in(dir, a, depth, max);
    let y = weights_in(dir, seq![e], depth, max);
    let z = weights_in(dir, b, depth, max);
    let k = choose|k: int| 0 <= k < y.len() && y[k] == m;
    assert((x + (y + z))[x.len() + k] == m);
}

/// Weights are looked for in models/ and four directories further down, and the files of a cached
/// repo are counted six directories down.
pub proof fn depths_of_the_walks(jarvis: Seq<char>, entries: Vec<Entry>, e: CacheEntry)
    requires
        jarvis.len() > 0,
        jarvis.last() != '/',
    ensures
        found_weights(jarvis, Some(entries)) == weights_in(jarvis + "/models"@, entries@, 0, 4),
        found_weights(jarvis, None).len() == 0,
        e.contents matches Some(c) ==> repo_size(e) == size_in(c@, 0, 6),
        e.contents is None ==> repo_size(e) == 0,
{
    reveal_strlit("models");
    reveal_strlit("/models");
    tree::child_stands_behind_one_slash(jarvis, "models"@);
    assert(tree::child_path(jarvis, "models"@) =~= jarvis + "/models"@);
}

/// The size of a tree is the sum of its entries.
pub proof fn sizes_add_up(a: Seq<Entry>, b: Seq<Entry>, depth: nat, max: nat)
    ensures
        size_in(a + b, depth, max) == size_in(a, depth, max) + size_in(b, depth, max),
        size_in(Seq::empty(), depth, max) == 0,
    decreases b.len(),
{
    if b.len() == 0 {
        assert(a + b =~= a);
    } else {
        sizes_add_up(a, b.drop_last(), depth, max);
        assert((a + b).drop_last() =~= a + b.drop_last());
        assert((a + b).last() == b.last());
    }
}

/// What one entry adds to the size of a tree: a file its own size, a link that of what it leads to,
/// unless that is a file which is met in the tree itself, and a directory that of its entries, down
/// to the greatest depth. What cannot be read adds nothing.
pub proof fn size_of_one_entry(e: Entry, depth: nat, max: nat)
    requires
        depth <= max,
    ensures
        e.node matches Node::File(Some(m)) ==> size_in(seq![e], depth, max) == m.len,
        e.node matches Node::Link(_, Some(aim)) ==> (aim.met && !aim.is_dir ==> size_in(
            seq![e],
            depth,
            max,
        ) == 0) && (!aim.met || aim.is_dir ==> size_in(seq![e], depth, max) == aim.len),
        e.node matches Node::Dir(Some(inner)) ==> (depth < max ==> size_in(seq![e], depth, max)
            == size_in(inner@, depth + 1, max)) && (depth == max ==> size_in(seq![e], depth, max)
            == 0),
        e.node is Unknown || e.node == Node::Dir(None) || e.node == Node::File(None) ==> size_in(
            seq![e],
            depth,
            max,
        ) == 0,
        e.node matches Node::Link(_, None) ==> size_in(seq![e], depth, max) == 0,
{
    let one = seq![e];
    assert(one.drop_last() =~= Seq::<Entry>::empty());
    assert(size_in(one.drop_last(), depth, max) == 0);
    if let Node::Dir(Some(inner)) = e.node {
        if depth == max {
            assert(size_in(inner@, depth + 1, max) == 0);
        }
    }
}

/// The repos of a cache are listed in the order of its entries, one for each entry whose name starts
/// with `models--`, and none for any other.
pub proof fn repos_are_listed_one_by_one(hub: Seq<char>, entries: Seq<CacheEntry>, e: CacheEntry)
    requires
        hub.len() > 0,
        hub.last() != '/',
    ensures
        search::has_prefix(e.name@, "models--"@) ==> {
            let got = repos_in(hub, entries.push(e));
            &&& got.len() == repos_in(hub, entries).len() + 1
            &&& got.drop_last() == repos_in(hub, entries)
            &&& got.last().path == hub + seq!['/'] + e.name@
            &&& got.last().format == Some(ModelFormat::HfRepo)
            &&& got.last().quant is None
            &&& got.last().modified is None
            &&& got.last().vm.len() == 0
            &&& repo_size(e) <= 0xffff_ffff_ffff_ffff ==> got.last().size_bytes == repo_size(e)
        },
        !search::has_prefix(e.name@, "models--"@) ==> repos_in(hub, entries.push(e)) == repos_in(
            hub,
            entries,
        ),
        repos_in(hub, Seq::empty()).len() == 0,
{
    reveal_strlit("models--");
    assert(entries.push(e).drop_last() =~= entries);
    assert(entries.push(e).last() == e);
    let before = repos_in(hub, entries);
    let got = repos_in(hub, entries.push(e));
    if search::has_prefix(e.name@, "models--"@) {
        assert(e.name@.take(8)[0] == 'm');
        assert(e.name@[0] == 'm');
        tree::child_stands_behind_one_slash(hub, e.name@);
        assert(got.drop_last() =~= before);
    } else {
        assert(got =~= before);
    }
}

/// A cached repo is named like the repo: behind `models--`, two dashes stand for the slash between
/// its owner and its name.
pub proof fn cached_repo_is_named_like_the_repo(
    hub: Seq<char>,
    e: CacheEntry,
    owner: Seq<char>,
    name: Seq<char>,
)
    requires
        e.name@ == "models--"@ + owner + seq!['-', '-'] + name,
        !search::has_text(owner, seq!['-', '-']),
        owner.len() > 0 ==> owner.last() != '-',
        !search::has_text(name, seq!['-', '-']),
    ensures
        repo_entry(hub, e).len() == 1,
        repo_entry(hub, e)[0].filename == owner + seq!['/'] + name,
{
    reveal_strlit("--");
    reveal_strlit("/");
    let dash = seq!['-', '-'];
    assert("--"@ =~= dash);
    assert("/"@ =~= seq!['/']);
    let repo = owner + dash + name;
    assert(e.name@ =~= "models--"@ + repo);
    search::parts_of_a_text(e.name@, "models--"@, repo);
    let k = owner.len() as int;
    assert(repo.subrange(k, k + 2) =~= dash);
    assert(search::occurs_at(repo, dash, k));
    assert forall|i: int| 0 <= i < k implies !search::occurs_at(repo, dash, i) by {
        if search::occurs_at(repo, dash, i) {
            assert(repo.subrange(i, i + 2)[0] == repo[i]);
            assert(repo.subrange(i, i + 2)[1] == repo[i + 1]);
            if i + 1 < k {
                assert(owner.subrange(i, i + 2) =~= dash);
                assert(search::occurs_at(owner, dash, i));
            } else {
                assert(owner.last() == '-');
            }
        }
    }
    search::replacing_goes_from_left_to_right(repo, dash, seq!['/'], k);
    assert(repo.take(k) =~= owner);
    assert(repo.skip(k + 2) =~= name);
    search::lemma_replaced_absent(name, dash, seq!['/']);
}

/// Texts stand in the order of their first different characters, and a text stands in front of those
/// that continue it.
pub proof fn order_is_that_of_the_first_difference(a: Seq<char>, b: Seq<char>, k: int)
    requires
        0 <= k <= a.len(),
        k <= b.len(),
        a.take(k) == b.take(k),
    ensures
        k < a.len() && k < b.len() && a[k] < b[k] ==> ordered(a, b) && !ordered(b, a),
        k == a.len() ==> ordered(a, b),
        k == a.len() && k < b.len() ==> !ordered(b, a),
    decreases k,
{
    if k > 0 {
        assert(a.take(k)[0] == a[0] && b.take(k)[0] == b[0]);
        assert(a.skip(1).take(k - 1) =~= a.take(k).skip(1));
        assert(b.skip(1).take(k - 1) =~= b.take(k).skip(1));
        order_is_that_of_the_first_difference(a.skip(1), b.skip(1), k - 1);
    }
}

/// The listing holds what was found, each model as often as it was found and with all that was found
/// of it, and the names in lower case stand in order.
pub proof fn listing_is_in_the_order_of_names(found: Seq<ModelFileView>)
    ensures
        by_name(found).to_multiset() == found.to_multiset(),
        by_name(found).len() == found.len(),
        forall|i: int, j: int|
            0 <= i <= j < by_name(found).len() ==> ordered(
                outside::lowercase(#[trigger] by_name(found)[i].filename),
                outside::lowercase(#[trigger] by_name(found)[j].filename),
            ),
{
    let keyed = with_names(found);
    let sorted = by_key(keyed);
    sorting_orders_the_keys(keyed);
    sorting_keeps_the_entries(keyed);
    lemma_keys_stay(keyed);
    lemma_multiset_of_models(found);
    lemma_without_keys_multiset(sorted, keyed);
    assert(without_keys(keyed) =~= found);
    assert forall|i: int, j: int| 0 <= i <= j < by_name(found).len() implies ordered(
        outside::lowercase(#[trigger] by_name(found)[i].filename),
        outside::lowercase(#[trigger] by_name(found)[j].filename),
    ) by {
        assert(by_name(found)[i] == sorted[i].1);
        assert(by_name(found)[j] == sorted[j].1);
        assert(ordered(sorted[i].0, sorted[j].0));
    }
}

/// Each entry keeps the key that it came with.
proof fn lemma_keys_stay(s: Seq<(Seq<char>, ModelFileView)>)
    requires
        forall|i: int|
            0 <= i < s.len() ==> #[trigger] s[i].0 == outside::lowercase(s[i].1.filename),
    ensures
        forall|i: int|
            0 <= i < by_key(s).len() ==> #[trigger] by_key(s)[i].0 == outside::lowercase(
                by_key(s)[i].1.filename,
            ),
    decreases s.len(),
{
    if s.len() > 0 {
        let front = s.drop_last();
        assert forall|i: int| 0 <= i < front.len() implies #[trigger] front[i].0
            == outside::lowercase(front[i].1.filename) by {
            assert(front[i] == s[i]);
        }
        lemma_keys_stay(front);
        let before = by_key(front);
        let k = slot(before, s.last().0);
        lemma_slot(before, s.last().0);
        assert(s.last() == s[s.len() - 1]);
        assert forall|i: int| 0 <= i < by_key(s).len() implies #[trigger] by_key(s)[i].0
            == outside::lowercase(by_key(s)[i].1.filename) by {
            if i < k {
                assert(by_key(s)[i] == before[i]);
            } else if i > k {
                assert(by_key(s)[i] == before[i - 1]);
            }
        }
    }
}

proof fn lemma_multiset_of_models(found: Seq<ModelFileView>)
    ensures
        without_keys(with_names(found)) == found,
{
    assert(without_keys(with_names(found)) =~= found);
}

/// Lists of the same entries hold the same models.
proof fn lemma_without_keys_multiset(
    a: Seq<(Seq<char>, ModelFileView)>,
    b: Seq<(Seq<char>, ModelFileView)>,
)
    requires
        a.to_multiset() == b.to_multiset(),
    ensures
        without_keys(a).to_multiset() == without_keys(b).to_multiset(),
        a.len() == b.len(),
    decreases a.len(),
{
    broadcast use vstd::seq_lib::group_to_multiset_ensures;

    if a.len() > 0 {
        let x = a.last();
        assert(a.to_multiset().count(x) > 0) by {
            assert(a[a.len() - 1] == x);
            assert(a.contains(x));
        }
        assert(b.contains(x));
        let i = choose|i: int| 0 <= i < b.len() && b[i] == x;
        assert(a.remove(a.len() - 1) =~= a.drop_last());
        vstd::seq_lib::to_multiset_remove(a, a.len() - 1);
        vstd::seq_lib::to_multiset_remove(b, i);
        lemma_without_keys_multiset(a.drop_last(), b.remove(i));
        assert(without_keys(a.drop_last()) =~= without_keys(a).remove(a.len() - 1));
        assert(without_keys(b.remove(i)) =~= without_keys(b).remove(i));
        vstd::seq_lib::to_multiset_remove(without_keys(a), a.len() - 1);
        vstd::seq_lib::to_multiset_remove(without_keys(b), i);
        assert(without_keys(a)[a.len() - 1] == x.1);
        assert(without_keys(b)[i] == x.1);
        assert(without_keys(a).contains(x.1));
        assert(without_keys(b).contains(x.1));
        let m = without_keys(a).to_multiset();
        let n = without_keys(b).to_multiset();
        assert(m.count(x.1) > 0 && n.count(x.1) > 0);
        assert(m =~= m.remove(x.1).insert(x.1));
        assert(n =~= n.remove(x.1).insert(x.1));
    } else {
        if b.len() > 0 {
            assert(b.contains(b[0]));
            assert(b.to_multiset().count(b[0]) > 0);
            assert(a.to_multiset().count(b[0]) == 0);
        }
        assert(without_keys(a) =~= without_keys(b));
    }
}

/// The models of a VM are the weights below models/ and the repos of the cache, these behind those; a
/// directory that is not there has none.
pub proof fn models_are_weights_and_repos(
    jarvis: Seq<char>,
    models: Vec<Entry>,
    hub: Vec<CacheEntry>,
)
    requires
        jarvis.len() > 0,
        jarvis.last() != '/',
    ensures
        all_models(jarvis, Some(models), Some(hub)) == weights_in(
            jarvis + "/models"@,
            models@,
            0,
            4,
        ) + repos_in(jarvis + "/hf-cache/hub"@, hub@),
        all_models(jarvis, Some(models), None) == weights_in(jarvis + "/models"@, models@, 0, 4),
        all_models(jarvis, None, Some(hub)) == repos_in(jarvis + "/hf-cache/hub"@, hub@),
        all_models(jarvis, None, None).len() == 0,
{
    reveal_strlit("models");
    reveal_strlit("/models");
    reveal_strlit("hf-cache");
    reveal_strlit("hub");
    reveal_strlit("/hf-cache/hub");
    let cache = tree::child_path(jarvis, "hf-cache"@);
    tree::child_stands_behind_one_slash(jarvis, "models"@);
    tree::child_stands_behind_one_slash(jarvis, "hf-cache"@);
    tree::child_stands_behind_one_slash(cache, "hub"@);
    assert(tree::child_path(jarvis, "models"@) =~= jarvis + "/models"@);
    assert(tree::child_path(cache, "hub"@) =~= jarvis + "/hf-cache/hub"@);
    let weights = weights_in(jarvis + "/models"@, models@, 0, 4);
    let repos = repos_in(jarvis + "/hf-cache/hub"@, hub@);
    assert(weights + Seq::<ModelFileView>::empty() =~= weights);
    assert(Seq::<ModelFileView>::empty() + repos =~= repos);
}

}
