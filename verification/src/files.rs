//! Confined file access on a VM: which file a request leads to, and what a refusal says.

use crate::outside;
use crate::paths;
use crate::paths::{ConfineError, ConfineErrorView, Target};
use crate::records::FilePayload;
use crate::text;
use crate::tree;
use crate::tree::Config;
use vstd::prelude::*;
use vstd::string::*;
use vstd::utf8::*;

verus! {

/// What the file system says of a request below some root: of the root, and of the path that the
/// request leads to.
#[derive(Debug, PartialEq)]
pub struct Lookup {
    pub root: Target,
    pub target: Target,
}

/// The outcome of a confined request, with its message where it is refused.
pub open spec fn reply(r: Result<Vec<u8>, String>) -> Result<Seq<u8>, Seq<char>> {
    match r {
        Ok(p) => Ok(p@),
        Err(m) => Err(m@),
    }
}

/// What the refusal of a path outside its root says.
pub open spec fn escape_text(path: Seq<char>, root: Seq<char>) -> Seq<char> {
    "path "@ + path + " escapes "@ + root
}

/// What a refusal says. `os` is the error with which an existing target could not be resolved.
pub open spec fn refusal_text(e: ConfineErrorView, requested: Seq<char>, os: Seq<char>) -> Seq<
    char,
> {
    match e {
        ConfineErrorView::Traversal => "path traversal rejected: "@ + requested,
        ConfineErrorView::Unresolved => os,
        ConfineErrorView::NoParent => "no parent for "@ + requested,
        ConfineErrorView::NoFileName => "no filename"@,
        ConfineErrorView::Escapes(path, root) => escape_text(
            outside::utf8_lossy(path),
            outside::utf8_lossy(root),
        ),
    }
}

/// The path that a request below `root` leads to, or the message with which it is refused.
pub open spec fn located(
    root: Seq<char>,
    requested: Seq<char>,
    found: Lookup,
    os: Seq<char>,
) -> Result<Seq<u8>, Seq<char>> {
    match paths::confined(
        encode_utf8(root),
        encode_utf8(requested),
        found.root@,
        found.target@,
    ) {
        Ok(p) => Ok(p),
        Err(e) => Err(refusal_text(e, requested, os)),
    }
}

/// What the refusal of a path outside its root says.
pub fn escape_message(path: &str, root: &str) -> (r: String)
    ensures
        r@ == escape_text(path@, root@),
{
    let mut m: String = "path ".to_owned();
    m.append(path);
    m.append(" escapes ");
    m.append(root);
    m
}

/// What a refusal says.
pub fn refusal(e: &ConfineError, requested: &str, os: &str) -> (r: String)
    ensures
        r@ == refusal_text(e@, requested@, os@),
{
    match e {
        ConfineError::Traversal => {
            let mut m: String = "path traversal rejected: ".to_owned();
            m.append(requested);
            m
        },
        ConfineError::Unresolved => os.to_owned(),
        ConfineError::NoParent => {
            let mut m: String = "no parent for ".to_owned();
            m.append(requested);
            m
        },
        ConfineError::NoFileName => "no filename".to_owned(),
        ConfineError::Escapes(path, root) => {
            let p: String = outside::from_utf8_lossy(path.as_slice());
            let r: String = outside::from_utf8_lossy(root.as_slice());
            escape_message(p.as_str(), r.as_str())
        },
    }
}

/// The path that a request below `root` leads to. `os` is the error with which an existing target
/// could not be resolved.
pub fn locate(root: &str, requested: &str, found: &Lookup, os: &str) -> (r: Result<
    Vec<u8>,
    String,
>)
    ensures
        reply(r) == located(root@, requested@, *found, os@),
{
    match paths::confine(root.as_bytes(), requested, &found.root, &found.target) {
        Ok(p) => Ok(p),
        Err(e) => Err(refusal(&e, requested, os)),
    }
}

/// The contents of a file that was read, under the path at which it was found.
pub fn read_file(path: &[u8], content: String) -> (r: FilePayload)
    ensures
        r@.path == outside::utf8_lossy(path@),
        r@.content == content@,
{
    FilePayload { path: outside::from_utf8_lossy(path), content }
}

/// The message for a file that could not be read.
pub fn reading_failed(path: &[u8]) -> (r: String)
    ensures
        r@ == "reading "@ + outside::utf8_lossy(path@),
{
    let mut m: String = "reading ".to_owned();
    m.append(outside::from_utf8_lossy(path).as_str());
    m
}

/// The message for a file that could not be written.
pub fn writing_failed(path: &[u8]) -> (r: String)
    ensures
        r@ == "writing "@ + outside::utf8_lossy(path@),
{
    let mut m: String = "writing ".to_owned();
    m.append(outside::from_utf8_lossy(path).as_str());
    m
}

/// A file to be written: the directory to create first, the path and the text.
#[derive(Debug, PartialEq)]
pub struct FileWrite {
    pub dir: Option<Vec<u8>>,
    pub path: Vec<u8>,
    pub content: String,
}

/// The writing of a payload to the path that its request leads to.
pub fn write_file(path: Vec<u8>, payload: FilePayload) -> (r: FileWrite)
    ensures
        paths::opt_bytes(r.dir) == paths::parent_of(path@),
        r.path@ == path@,
        r.content@ == payload@.content,
{
    let dir: Option<Vec<u8>> = paths::parent(path.as_slice());
    FileWrite { dir, path, content: payload.content }
}

/// The model that a deletion is about: a path below models/, or else one below hf-cache/. `models`
/// and `cache` are what the file system says of the request below each of the two.
pub fn delete_model(cfg: &Config, path: &str, models: &Lookup, cache: &Lookup) -> (r: Result<
    Vec<u8>,
    String,
>)
    ensures
        reply(r) == deleted(cfg.jarvis@, path@, *models, *cache),
{
    let first: String = cfg.models_dir();
    if let Ok(p) = paths::confine(first.as_str().as_bytes(), path, &models.root, &models.target) {
        return Ok(p);
    }
    let second: String = cfg.cache_dir();
    match paths::confine(second.as_str().as_bytes(), path, &cache.root, &cache.target) {
        Ok(p) => Ok(p),
        Err(_) => Err("model path must be under models/ or hf-cache/".to_owned()),
    }
}

/// The path that is deleted, or the message with which the deletion is refused.
pub open spec fn deleted(
    jarvis: Seq<char>,
    path: Seq<char>,
    models: Lookup,
    cache: Lookup,
) -> Result<Seq<u8>, Seq<char>> {
    let first = paths::confined(
        encode_utf8(tree::child_path(jarvis, "models"@)),
        encode_utf8(path),
        models.root@,
        models.target@,
    );
    let second = paths::confined(
        encode_utf8(tree::child_path(jarvis, "hf-cache"@)),
        encode_utf8(path),
        cache.root@,
        cache.target@,
    );
    match (first, second) {
        (Ok(p), _) => Ok(p),
        (_, Ok(p)) => Ok(p),
        _ => Err("model path must be under models/ or hf-cache/"@),
    }
}

/// A root as the file system resolves it, or as it stands where it could not be resolved.
pub open spec fn resolved_root(root: Seq<char>, found: Lookup) -> Seq<u8> {
    paths::resolved_root(encode_utf8(root), found.root@)
}

/// Only what lies below models/ or hf-cache/ is ever deleted.
pub proof fn only_models_are_deleted(
    jarvis: Seq<char>,
    path: Seq<char>,
    models: Lookup,
    cache: Lookup,
)
    ensures
        deleted(jarvis, path, models, cache) matches Ok(p) ==> paths::is_within(
            p,
            resolved_root(tree::child_path(jarvis, "models"@), models),
        ) || paths::is_within(p, resolved_root(tree::child_path(jarvis, "hf-cache"@), cache)),
{
}

/// The place that a root leads to, all links followed.
pub open spec fn root_place(root: Seq<char>, found: Lookup) -> Seq<u8> {
    paths::root_place(encode_utf8(root), found.root@)
}

/// Whatever a request asks for, the file it leads to lies within the root, and so does the place
/// that reading or writing there comes to.
pub proof fn located_file_lies_within_root(
    root: Seq<char>,
    requested: Seq<char>,
    found: Lookup,
    os: Seq<char>,
)
    ensures
        located(root, requested, found, os) matches Ok(p) ==> {
            &&& paths::is_within(p, resolved_root(root, found))
            &&& paths::destination(found.target@, p) matches Some(q) ==> paths::is_within(
                q,
                root_place(root, found),
            )
        },
{
    paths::confined_stays_within_root(
        encode_utf8(root),
        encode_utf8(requested),
        found.root@,
        found.target@,
    );
}

/// A payload that was written to the path its request led to is found by the same request, once
/// the file stands at the place that the path leads to and the root resolves to its own place:
/// reading leads to the file that was written. But for a link that led to nothing before, that is
/// the path itself.
pub proof fn written_file_is_found_again(
    root: Seq<char>,
    requested: Seq<char>,
    before: Lookup,
    after: Lookup,
    os: Seq<char>,
    os_then: Seq<char>,
    p: Seq<u8>,
    q: Seq<u8>,
)
    requires
        located(root, requested, before, os) == Ok::<Seq<u8>, Seq<char>>(p),
        paths::destination(before.target@, p) == Some(q),
        after.target@ == paths::TargetView::Existing(q),
        resolved_root(root, after) == root_place(root, before),
        root_place(root, after) == root_place(root, before),
    ensures
        located(root, requested, after, os_then) == Ok::<Seq<u8>, Seq<char>>(q),
        !(before.target@ is Dangling) ==> q == p,
{
    paths::placed_target_is_found_again(
        encode_utf8(root),
        encode_utf8(requested),
        before.root@,
        before.target@,
        after.root@,
    );
}

/// Whatever the check below models/ lets through is deleted, at any depth, and what it refuses is
/// deleted where the check below hf-cache/ lets it through; a deletion is refused only where both
/// refuse it.
pub proof fn what_both_checks_refuse_is_kept(
    jarvis: Seq<char>,
    path: Seq<char>,
    models: Lookup,
    cache: Lookup,
)
    ensures
        ({
            let below_models = paths::confined(
                encode_utf8(tree::child_path(jarvis, "models"@)),
                encode_utf8(path),
                models.root@,
                models.target@,
            );
            let below_cache = paths::confined(
                encode_utf8(tree::child_path(jarvis, "hf-cache"@)),
                encode_utf8(path),
                cache.root@,
                cache.target@,
            );
            &&& below_models matches Ok(p) ==> deleted(jarvis, path, models, cache) == Ok::<
                Seq<u8>,
                Seq<char>,
            >(p)
            &&& below_models is Err ==> (below_cache matches Ok(q) ==> deleted(
                jarvis,
                path,
                models,
                cache,
            ) == Ok::<Seq<u8>, Seq<char>>(q))
            &&& below_models is Err && below_cache is Err ==> deleted(jarvis, path, models, cache)
                == Err::<Seq<u8>, Seq<char>>("model path must be under models/ or hf-cache/"@)
        }),
{
}

/// A model that stands below models/ can be deleted, however deep it lies: a request that goes
/// nowhere up and leads to it is never refused. The same holds of what stands below hf-cache/ and
/// not below models/.
pub proof fn existing_model_can_be_deleted(
    jarvis: Seq<char>,
    path: Seq<char>,
    models: Lookup,
    cache: Lookup,
    p: Seq<u8>,
)
    requires
        !paths::has_parent_part(
            paths::joined(encode_utf8(tree::child_path(jarvis, "models"@)), encode_utf8(path)),
        ),
        !paths::has_parent_part(
            paths::joined(encode_utf8(tree::child_path(jarvis, "hf-cache"@)), encode_utf8(path)),
        ),
        models.target@ == paths::TargetView::Existing(p),
        cache.target@ == paths::TargetView::Existing(p),
        !(models.root@ is Dangling),
        !(cache.root@ is Dangling),
    ensures
        paths::is_within(p, resolved_root(tree::child_path(jarvis, "models"@), models))
            || paths::is_within(p, resolved_root(tree::child_path(jarvis, "hf-cache"@), cache))
            <==> deleted(jarvis, path, models, cache) == Ok::<Seq<u8>, Seq<char>>(p),
{
    paths::existing_target_inside_is_let_through(
        encode_utf8(tree::child_path(jarvis, "models"@)),
        encode_utf8(path),
        models.root@,
        p,
    );
    paths::existing_target_inside_is_let_through(
        encode_utf8(tree::child_path(jarvis, "hf-cache"@)),
        encode_utf8(path),
        cache.root@,
        p,
    );
}

/// A file that stands in the tree can be read and written by every request that leads to it and goes
/// nowhere up; one that stands elsewhere is refused, with both places in the message.
pub proof fn files_in_the_tree_can_be_reached(
    root: Seq<char>,
    requested: Seq<char>,
    found: Lookup,
    os: Seq<char>,
    p: Seq<u8>,
)
    requires
        !paths::has_parent_part(paths::joined(encode_utf8(root), encode_utf8(requested))),
        !(found.root@ is Dangling),
        found.target@ == paths::TargetView::Existing(p),
    ensures
        paths::is_within(p, resolved_root(root, found)) <==> located(root, requested, found, os)
            == Ok::<Seq<u8>, Seq<char>>(p),
        !paths::is_within(p, resolved_root(root, found)) ==> located(root, requested, found, os)
            == Err::<Seq<u8>, Seq<char>>(
            "path "@ + outside::utf8_lossy(p) + " escapes "@ + outside::utf8_lossy(
                resolved_root(root, found),
            ),
        ),
{
    paths::existing_target_inside_is_let_through(
        encode_utf8(root),
        encode_utf8(requested),
        found.root@,
        p,
    );
}

/// A new file can be written below any directory that stands in the tree, by a request that goes
/// nowhere up: its path is that of the directory with the missing names below it.
pub proof fn new_files_can_be_placed(
    root: Seq<char>,
    requested: Seq<char>,
    found: Lookup,
    os: Seq<char>,
    dir: Seq<u8>,
    n: nat,
)
    requires
        !paths::has_parent_part(paths::joined(encode_utf8(root), encode_utf8(requested))),
        !(found.root@ is Dangling),
        found.target@ == paths::TargetView::Missing(dir, n),
        paths::parent_of(paths::joined(encode_utf8(root), encode_utf8(requested))) is Some,
        0 < n <= paths::parts(paths::joined(encode_utf8(root), encode_utf8(requested))).len(),
        forall|i: int|
            paths::parts(paths::joined(encode_utf8(root), encode_utf8(requested))).len() - n <= i
                < paths::parts(paths::joined(encode_utf8(root), encode_utf8(requested))).len()
                ==> #[trigger] paths::parts(
                paths::joined(encode_utf8(root), encode_utf8(requested)),
            )[i] is Normal,
        paths::is_within(dir, resolved_root(root, found)),
    ensures
        located(root, requested, found, os) matches Ok(p) && paths::parts(p) == paths::parts(dir)
            + paths::parts(paths::joined(encode_utf8(root), encode_utf8(requested))).skip(
            paths::parts(paths::joined(encode_utf8(root), encode_utf8(requested))).len() - n,
        ),
{
    paths::new_target_inside_is_let_through(
        encode_utf8(root),
        encode_utf8(requested),
        found.root@,
        dir,
        n,
    );
}

/// What a refusal says: which request went up, which target could not be resolved and why, or that
/// there is no place for a new file.
pub proof fn refusals_name_the_request(requested: Seq<char>, os: Seq<char>)
    ensures
        refusal_text(ConfineErrorView::Traversal, requested, os) == "path traversal rejected: "@
            + requested,
        refusal_text(ConfineErrorView::Unresolved, requested, os) == os,
        refusal_text(ConfineErrorView::NoParent, requested, os) == "no parent for "@ + requested,
        refusal_text(ConfineErrorView::NoFileName, requested, os) == "no filename"@,
{
}

}
