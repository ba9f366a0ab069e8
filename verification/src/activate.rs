//! Profile activation, the swap: the files that a profile puts in place, the compose run that
//! replaces whatever was active, and the health check of the published port.

use crate::docker;
use crate::names;
use crate::numbers;
use crate::outside;
use crate::paths;
use crate::records::{
    ActivateResult, ActivateResultView, ServiceProfile, ServiceProfileView, TiedFile, TiedFileView,
};
use crate::search;
use crate::text;
use crate::tree;
use crate::tree::Config;
use vstd::prelude::*;
use vstd::string::*;
use vstd::utf8::*;

verus! {

// ---------------------------------------------------------------------------
// The compose document
// ---------------------------------------------------------------------------

/// Whether a compose text is a whole document rather than the entry of one service.
pub open spec fn is_document(frag: Seq<char>) -> bool {
    search::has_prefix(text::start_trimmed(frag), "services:"@) || search::has_prefix(
        text::start_trimmed(frag),
        "name:"@,
    )
}

/// A line two columns further in; an empty one stays empty.
pub open spec fn indented(line: Seq<char>) -> Seq<char> {
    if line.len() == 0 {
        line
    } else {
        "  "@ + line
    }
}

/// The compose document of a fragment: the fragment itself where it is a whole document, else
/// the entry of one service under a `services:` key.
pub open spec fn document(fragment: Seq<char>) -> Seq<char> {
    let frag = text::end_trimmed(fragment);
    if is_document(frag) {
        frag
    } else {
        "services:\n"@ + search::joined(
            search::lines(frag).map_values(|l: Seq<char>| indented(l)),
            "\n"@,
        ) + "\n"@
    }
}

/// Wraps a single-service fragment into a complete compose document.
pub fn render_compose(profile: &ServiceProfile) -> (r: String)
    ensures
        r@ == document(profile@.compose_fragment),
{
    let frag: String = text::trim_end(profile.compose_fragment.as_str());
    let front: String = text::trim_start(frag.as_str());
    if search::starts_with(front.as_str(), "services:") || search::starts_with(
        front.as_str(),
        "name:",
    ) {
        frag
    } else {
        let lines: Vec<String> = search::lines_of(frag.as_str());
        let ghost all = text::texts(lines@);
        let ghost want = all.map_values(|l: Seq<char>| indented(l));
        let mut moved: Vec<String> = Vec::new();
        for i in 0..lines.len()
            invariant
                all == text::texts(lines@),
                want == all.map_values(|l: Seq<char>| indented(l)),
                text::texts(moved@) =~= want.take(i as int),
        {
            let ghost before = text::texts(moved@);
            assert(all[i as int] == lines@[i as int]@);
            let mut line: String = String::new();
            if !lines[i].as_str().is_empty() {
                line.append("  ");
                line.append(lines[i].as_str());
            }
            assert(line@ =~= want[i as int]);
            moved.push(line);
            assert(text::texts(moved@) =~= before.push(want[i as int]));
            assert(want.take(i + 1) =~= want.take(i as int).push(want[i as int]));
        }
        assert(want.take(want.len() as int) =~= want);
        let mut out: String = "services:\n".to_owned();
        out.append(search::join(&moved, "\n").as_str());
        out.append("\n");
        out
    }
}

/// Whatever the fragment, its compose document is a whole one.
pub proof fn document_is_whole(fragment: Seq<char>)
    ensures
        is_document(document(fragment)),
{
    let frag = text::end_trimmed(fragment);
    if !is_document(frag) {
        let doc = document(fragment);
        reveal_strlit("services:\n");
        reveal_strlit("services:");
        assert(doc[0] == 's');
        assert(text::start_trimmed(doc) == doc);
        assert(doc.take(9) =~= "services:"@);
    }
}

// ---------------------------------------------------------------------------
// What is put in place
// ---------------------------------------------------------------------------

/// One thing that an activation puts in place.
#[derive(Debug, PartialEq)]
pub enum Step {
    /// A directory, with those above it.
    CreateDir(String),
    /// A file with that text.
    Write(String, String),
}

/// The contents of a [`Step`].
pub enum StepView {
    CreateDir(Seq<char>),
    Write(Seq<char>, Seq<char>),
}

impl View for Step {
    type V = StepView;

    open spec fn view(&self) -> StepView {
        match self {
            Step::CreateDir(p) => StepView::CreateDir(p@),
            Step::Write(p, c) => StepView::Write(p@, c@),
        }
    }
}

impl StepView {
    /// The path that is put in place.
    pub open spec fn path(self) -> Seq<char> {
        match self {
            StepView::CreateDir(p) => p,
            StepView::Write(p, _) => p,
        }
    }
}

/// The contents of a list of steps.
pub open spec fn step_views(v: Seq<Step>) -> Seq<StepView> {
    v.map_values(|s: Step| s@)
}

/// The directory that holds the tied files of a model.
pub open spec fn model_dir(jarvis: Seq<char>, model_dir_name: Seq<char>) -> Seq<char> {
    tree::child_path(tree::child_path(jarvis, "services"@), model_dir_name)
}

/// How many of the files, from the first on, have a safe name.
pub open spec fn safe_run(files: Seq<TiedFileView>) -> nat
    decreases files.len(),
{
    if files.len() == 0 || !names::is_segment(files[0].filename) {
        0
    } else {
        1 + safe_run(files.skip(1))
    }
}

/// The writing of the first `n` files into `dir`.
pub open spec fn tied_writes(dir: Seq<char>, files: Seq<TiedFileView>, n: nat) -> Seq<StepView> {
    Seq::new(
        n,
        |i: int|
            StepView::Write(tree::child_path(dir, files[i].filename), files[i].content),
    )
}

/// The name of the managed compose file of a profile.
pub open spec fn compose_name(name: Seq<char>) -> Seq<char> {
    (if names::slug(name).len() == 0 {
        "profile"@
    } else {
        names::slug(name)
    }) + ".mdk.yml"@
}

/// The managed compose file of a profile, at the root of the tree.
pub open spec fn compose_path(jarvis: Seq<char>, name: Seq<char>) -> Seq<char> {
    tree::child_path(jarvis, compose_name(name))
}

/// The directory and the tied files of a profile: what is put in place, and the message that
/// stops the activation behind that, if anything does.
pub open spec fn tied_part(jarvis: Seq<char>, p: ServiceProfileView) -> (
    Seq<StepView>,
    Option<Seq<char>>,
) {
    let dir = model_dir(jarvis, p.model_dir_name);
    let n = safe_run(p.tied_files);
    if !names::is_segment(p.model_dir_name) {
        (Seq::empty(), Some("unsafe model_dir_name: "@ + p.model_dir_name))
    } else if text::trimmed(p.service_name).len() == 0 {
        (Seq::empty(), Some("profile has no service_name"@))
    } else {
        (
            seq![StepView::CreateDir(dir)] + tied_writes(dir, p.tied_files, n),
            if n < p.tied_files.len() {
                Some("unsafe tied filename: "@ + p.tied_files[n as int].filename)
            } else {
                None
            },
        )
    }
}

/// The Dockerfile of a profile that has both its name and its text, written at the root of the
/// tree; the message that stops the activation where the name is not safe.
pub open spec fn dockerfile_part(jarvis: Seq<char>, p: ServiceProfileView) -> (
    Seq<StepView>,
    Option<Seq<char>>,
) {
    match (p.dockerfile_name, p.dockerfile) {
        (Some(name), Some(body)) => if names::is_segment(name) {
            (seq![StepView::Write(tree::child_path(jarvis, name), body)], None)
        } else {
            (Seq::empty(), Some("unsafe dockerfile name: "@ + name))
        },
        _ => (Seq::empty(), None),
    }
}

/// All that an activation puts in place, in order, and the message that stops it behind that, if
/// anything does: the tied files, the Dockerfile, the compose document and the state directory.
pub open spec fn prepared(jarvis: Seq<char>, p: ServiceProfileView) -> (
    Seq<StepView>,
    Option<Seq<char>>,
) {
    let tied = tied_part(jarvis, p);
    let docker = dockerfile_part(jarvis, p);
    if tied.1 is Some {
        tied
    } else if docker.1 is Some {
        (tied.0 + docker.0, docker.1)
    } else {
        (
            tied.0 + docker.0 + seq![
                StepView::Write(compose_path(jarvis, p.name), document(p.compose_fragment)),
                StepView::CreateDir(tree::child_path(jarvis, ".modeldeck"@)),
            ],
            None,
        )
    }
}

fn message(front: &str, name: &str) -> (r: String)
    ensures
        r@ == front@ + name@,
{
    let mut m: String = front.to_owned();
    m.append(name);
    m
}

/// A step in front of a run is in the run.
proof fn lemma_safe_run(files: Seq<TiedFileView>, i: int)
    requires
        0 <= i <= safe_run(files),
    ensures
        safe_run(files) <= files.len(),
        safe_run(files) == i + safe_run(files.skip(i)),
        safe_run(files) < files.len() ==> !names::is_segment(
            files[safe_run(files) as int].filename,
        ),
        forall|k: int| 0 <= k < i ==> names::is_segment(#[trigger] files[k].filename),
    decreases files.len(),
{
    if files.len() > 0 && names::is_segment(files[0].filename) {
        let rest = files.skip(1);
        if i > 0 {
            lemma_safe_run(rest, i - 1);
            assert(rest.skip(i - 1) =~= files.skip(i));
            assert forall|k: int| 0 <= k < i implies names::is_segment(
                #[trigger] files[k].filename,
            ) by {
                if k > 0 {
                    assert(rest[k - 1] == files[k]);
                }
            }
        } else {
            lemma_safe_run(rest, 0);
            assert(rest.skip(0) =~= rest);
            assert(files.skip(0) =~= files);
        }
        if safe_run(files) < files.len() {
            assert(rest[safe_run(rest) as int] == files[safe_run(files) as int]);
        }
    } else {
        assert(files.skip(0) =~= files);
    }
}

/// The tied files of a profile, put in place behind what `steps` holds; the message that stops
/// the activation, if anything does.
fn prepare_tied(jarvis: &str, p: &ServiceProfile) -> (r: (Vec<Step>, Option<String>))
    ensures
        (step_views(r.0@), text::opt_text(r.1)) == tied_part(jarvis@, p@),
{
    let mut steps: Vec<Step> = Vec::new();
    assert(step_views(steps@) =~= Seq::<StepView>::empty());
    if !names::is_safe_segment(p.model_dir_name.as_str()) {
        return (steps, Some(message("unsafe model_dir_name: ", p.model_dir_name.as_str())));
    }
    if text::trim(p.service_name.as_str()).as_str().is_empty() {
        return (steps, Some("profile has no service_name".to_owned()));
    }
    let services: String = tree::child(jarvis, "services");
    let dir: String = tree::child(services.as_str(), p.model_dir_name.as_str());
    let ghost d = model_dir(jarvis@, p@.model_dir_name);
    let ghost files = p@.tied_files;
    steps.push(Step::CreateDir(dir.clone()));
    assert(step_views(steps@) =~= seq![StepView::CreateDir(d)] + tied_writes(d, files, 0));
    assert(files.skip(0) =~= files);
    for i in 0..p.tied_files.len()
        invariant
            files == p@.tied_files,
            dir@ == d,
            d == model_dir(jarvis@, p@.model_dir_name),
            names::is_segment(p@.model_dir_name),
            text::trimmed(p@.service_name).len() > 0,
            i <= safe_run(files),
            step_views(steps@) == seq![StepView::CreateDir(d)] + tied_writes(d, files, i as nat),
    {
        let tf: &TiedFile = &p.tied_files[i];
        assert(files[i as int] == tf@);
        proof {
            lemma_safe_run(files, i as int);
            assert(files.skip(i as int)[0] == files[i as int]);
        }
        if !names::is_safe_segment(tf.filename.as_str()) {
            assert(safe_run(files) == i as nat);
            return (steps, Some(message("unsafe tied filename: ", tf.filename.as_str())));
        }
        let ghost before = step_views(steps@);
        let step: Step = Step::Write(
            tree::child(dir.as_str(), tf.filename.as_str()),
            tf.content.clone(),
        );
        let ghost shown = step@;
        steps.push(step);
        assert(step_views(steps@) =~= before.push(shown));
        assert(tied_writes(d, files, (i + 1) as nat) =~= tied_writes(d, files, i as nat).push(
            shown,
        ));
        assert(step_views(steps@) =~= seq![StepView::CreateDir(d)] + tied_writes(
            d,
            files,
            (i + 1) as nat,
        ));
    }
    proof {
        lemma_safe_run(files, files.len() as int);
    }
    (steps, None)
}

/// What an activation puts in place, and the message that stops it, if anything does.
fn prepare(cfg: &Config, p: &ServiceProfile) -> (r: (Vec<Step>, Option<String>))
    ensures
        (step_views(r.0@), text::opt_text(r.1)) == prepared(cfg.jarvis@, p@),
{
    let (mut steps, refusal): (Vec<Step>, Option<String>) = prepare_tied(cfg.jarvis.as_str(), p);
    if refusal.is_some() {
        return (steps, refusal);
    }
    let ghost tied = step_views(steps@);
    let ghost docker = dockerfile_part(cfg.jarvis@, p@);
    if let (Some(name), Some(body)) = (&p.dockerfile_name, &p.dockerfile) {
        if !names::is_safe_segment(name.as_str()) {
            assert(tied + docker.0 =~= tied);
            return (steps, Some(message("unsafe dockerfile name: ", name.as_str())));
        }
        let step: Step = Step::Write(
            tree::child(cfg.jarvis.as_str(), name.as_str()),
            body.clone(),
        );
        let ghost shown = step@;
        steps.push(step);
        assert(step_views(steps@) =~= tied.push(shown));
        assert(tied.push(shown) =~= tied + docker.0);
    } else {
        assert(tied + docker.0 =~= tied);
    }
    assert(step_views(steps@) == tied + docker.0);
    let file: String = managed_file(cfg, p);
    steps.push(Step::Write(file, render_compose(p)));
    steps.push(Step::CreateDir(cfg.state_dir()));
    assert(step_views(steps@) =~= prepared(cfg.jarvis@, p@).0);
    (steps, None)
}

/// The managed compose file of a profile.
fn managed_file(cfg: &Config, p: &ServiceProfile) -> (r: String)
    ensures
        r@ == compose_path(cfg.jarvis@, p@.name),
{
    let slug: String = names::slugify(p.name.as_str());
    let mut name: String = if slug.as_str().is_empty() {
        "profile".to_owned()
    } else {
        slug
    };
    name.append(".mdk.yml");
    tree::child(cfg.jarvis.as_str(), name.as_str())
}

// ---------------------------------------------------------------------------
// Where things are put
// ---------------------------------------------------------------------------

/// Whether a path lies below a directory by way of plain names alone.
pub open spec fn lies_below(path: Seq<char>, dir: Seq<char>) -> bool {
    let p = paths::parts(encode_utf8(path));
    let d = paths::parts(encode_utf8(dir));
    &&& d.len() < p.len()
    &&& p.take(d.len() as int) == d
    &&& forall|i: int| d.len() <= i < p.len() ==> #[trigger] p[i] is Normal
}

/// An entry of a directory lies below it.
proof fn lemma_entry_lies_below(dir: Seq<char>, name: Seq<char>)
    requires
        names::is_segment(name),
    ensures
        lies_below(tree::child_path(dir, name), dir),
{
    tree::segment_stays_in_directory(dir, name);
    let p = paths::parts(encode_utf8(tree::child_path(dir, name)));
    let d = paths::parts(encode_utf8(dir));
    assert(p.take(d.len() as int) =~= d);
}

/// An entry of a directory that lies below another lies below that one too.
proof fn lemma_entry_lies_further_below(top: Seq<char>, dir: Seq<char>, name: Seq<char>)
    requires
        names::is_segment(name),
        lies_below(dir, top),
    ensures
        lies_below(tree::child_path(dir, name), top),
{
    tree::segment_stays_in_directory(dir, name);
    let p = paths::parts(encode_utf8(tree::child_path(dir, name)));
    let d = paths::parts(encode_utf8(dir));
    let t = paths::parts(encode_utf8(top));
    assert(p.take(t.len() as int) =~= d.take(t.len() as int));
    assert forall|i: int| t.len() <= i < p.len() implies #[trigger] p[i] is Normal by {
        if i < d.len() {
            assert(p[i] == d[i]);
        }
    }
}

/// The names that are fixed are safe segments, and so is the name of a managed compose file.
proof fn lemma_fixed_names(name: Seq<char>)
    ensures
        names::is_segment("services"@),
        names::is_segment(".modeldeck"@),
        names::is_segment(compose_name(name)),
{
    reveal_strlit("services");
    reveal_strlit(".modeldeck");
    reveal_strlit("profile");
    reveal_strlit(".mdk.yml");
    assert("services"@.len() != seq!['.'].len());
    assert(".modeldeck"@.len() != seq!['.'].len());
    if names::slug(name).len() > 0 {
        names::slug_is_segment(name, ".mdk.yml"@);
    } else {
        let n = compose_name(name);
        assert(n.len() == 15);
        assert(n.len() != seq!['.'].len());
        assert(n[0] == 'p' && n[1] == 'r' && n[2] == 'o' && n[3] == 'f' && n[4] == 'i' && n[5]
            == 'l' && n[6] == 'e' && n[7] == '.' && n[8] == 'm' && n[9] == 'd' && n[10] == 'k'
            && n[11] == '.' && n[12] == 'y' && n[13] == 'm' && n[14] == 'l');
    }
}

/// The components of what an activation puts in place, seen from the root of the tree: an entry
/// of the root, the model's directory, or an entry of that.
proof fn lemma_step_parts(jarvis: Seq<char>, p: ServiceProfileView, i: int)
    requires
        0 <= i < prepared(jarvis, p).0.len(),
    ensures
        names::is_segment(p.model_dir_name),
        ({
            let path = prepared(jarvis, p).0[i].path();
            ||| exists|n: Seq<char>| #[trigger]
                names::is_segment(n) && path == tree::child_path(jarvis, n)
            ||| path == model_dir(jarvis, p.model_dir_name)
            ||| exists|n: Seq<char>| #[trigger]
                names::is_segment(n) && path == tree::child_path(
                    model_dir(jarvis, p.model_dir_name),
                    n,
                )
        }),
{
    lemma_fixed_names(p.name);
    let tied = tied_part(jarvis, p);
    let docker = dockerfile_part(jarvis, p);
    let n = safe_run(p.tied_files);
    let dir = model_dir(jarvis, p.model_dir_name);
    lemma_safe_run(p.tied_files, n as int);
    assert(tied.0.len() > 0 ==> names::is_segment(p.model_dir_name));
    let all = prepared(jarvis, p).0;
    if i < tied.0.len() {
        assert(all[i] == tied.0[i]);
        if i > 0 {
            let f = p.tied_files[i - 1];
            assert(names::is_segment(f.filename));
            assert(all[i].path() == tree::child_path(dir, f.filename));
        }
    } else if i < tied.0.len() + docker.0.len() {
        assert(all[i] == docker.0[i - tied.0.len()]);
        let name = p.dockerfile_name->0;
        assert(names::is_segment(name));
        assert(all[i].path() == tree::child_path(jarvis, name));
    } else if i == tied.0.len() + docker.0.len() {
        assert(names::is_segment(compose_name(p.name)));
        assert(all[i].path() == compose_path(jarvis, p.name));
    } else {
        assert(names::is_segment(".modeldeck"@));
        assert(all[i].path() == tree::child_path(jarvis, ".modeldeck"@));
    }
}

/// Whatever an activation puts in place lies below the root of the tree, reached by plain names
/// alone, whatever the profile holds.
pub proof fn activation_stays_in_tree(jarvis: Seq<char>, p: ServiceProfileView, i: int)
    requires
        0 <= i < prepared(jarvis, p).0.len(),
    ensures
        lies_below(prepared(jarvis, p).0[i].path(), jarvis),
{
    let path = prepared(jarvis, p).0[i].path();
    let services = tree::child_path(jarvis, "services"@);
    let dir = model_dir(jarvis, p.model_dir_name);
    lemma_fixed_names(p.name);
    lemma_step_parts(jarvis, p, i);
    lemma_entry_lies_below(jarvis, "services"@);
    lemma_entry_lies_further_below(jarvis, services, p.model_dir_name);
    if path == dir {
    } else if exists|n: Seq<char>| #[trigger]
        names::is_segment(n) && path == tree::child_path(jarvis, n) {
        let n = choose|n: Seq<char>| #[trigger]
            names::is_segment(n) && path == tree::child_path(jarvis, n);
        lemma_entry_lies_below(jarvis, n);
    } else {
        let n = choose|n: Seq<char>| #[trigger]
            names::is_segment(n) && path == tree::child_path(dir, n);
        lemma_entry_lies_further_below(jarvis, dir, n);
    }
}

/// The tied files of a profile are put in the directory of its model.
pub proof fn tied_files_go_to_the_models_directory(jarvis: Seq<char>, p: ServiceProfileView, i: int)
    requires
        1 <= i < tied_part(jarvis, p).0.len(),
    ensures
        prepared(jarvis, p).0.len() > i,
        prepared(jarvis, p).0[i] == StepView::Write(
            tree::child_path(
                model_dir(jarvis, p.model_dir_name),
                p.tied_files[i - 1].filename,
            ),
            p.tied_files[i - 1].content,
        ),
        lies_below(prepared(jarvis, p).0[i].path(), model_dir(jarvis, p.model_dir_name)),
{
    let n = safe_run(p.tied_files);
    lemma_safe_run(p.tied_files, n as int);
    assert(prepared(jarvis, p).0[i] == tied_part(jarvis, p).0[i]);
    assert(names::is_segment(p.tied_files[i - 1].filename));
    lemma_entry_lies_below(
        model_dir(jarvis, p.model_dir_name),
        p.tied_files[i - 1].filename,
    );
}

/// Different texts have different bytes.
proof fn lemma_encode_injective(a: Seq<char>, b: Seq<char>)
    requires
        encode_utf8(a) == encode_utf8(b),
    ensures
        a == b,
{
    encode_utf8_decode_utf8(a);
    encode_utf8_decode_utf8(b);
}

/// An activation puts nothing into the directory of another model, so a tied file can never be
/// used by the wrong model.
pub proof fn other_models_directory_is_left_alone(
    jarvis: Seq<char>,
    p: ServiceProfileView,
    other: Seq<char>,
    i: int,
)
    requires
        names::is_segment(other),
        other != p.model_dir_name,
        0 <= i < prepared(jarvis, p).0.len(),
    ensures
        !paths::is_within(
            encode_utf8(prepared(jarvis, p).0[i].path()),
            encode_utf8(model_dir(jarvis, other)),
        ),
{
    let path = prepared(jarvis, p).0[i].path();
    let services = tree::child_path(jarvis, "services"@);
    let dir = model_dir(jarvis, p.model_dir_name);
    let theirs = model_dir(jarvis, other);
    lemma_fixed_names(p.name);
    lemma_step_parts(jarvis, p, i);
    tree::segment_stays_in_directory(jarvis, "services"@);
    tree::segment_stays_in_directory(services, p.model_dir_name);
    tree::segment_stays_in_directory(services, other);
    let root = paths::parts(encode_utf8(jarvis));
    let mine = paths::parts(encode_utf8(dir));
    let them = paths::parts(encode_utf8(theirs));
    let found = paths::parts(encode_utf8(path));
    let at = root.len() + 1;
    assert(mine[at as int] == paths::PartView::Normal(encode_utf8(p.model_dir_name)));
    assert(them[at as int] == paths::PartView::Normal(encode_utf8(other)));
    if encode_utf8(other) == encode_utf8(p.model_dir_name) {
        lemma_encode_injective(other, p.model_dir_name);
    }
    if paths::is_within(encode_utf8(path), encode_utf8(theirs)) {
        assert(found.take(them.len() as int)[at as int] == found[at as int]);
        if path == dir {
        } else if exists|n: Seq<char>| #[trigger]
            names::is_segment(n) && path == tree::child_path(jarvis, n) {
            let n = choose|n: Seq<char>| #[trigger]
                names::is_segment(n) && path == tree::child_path(jarvis, n);
            tree::segment_stays_in_directory(jarvis, n);
        } else {
            let n = choose|n: Seq<char>| #[trigger]
                names::is_segment(n) && path == tree::child_path(dir, n);
            tree::segment_stays_in_directory(dir, n);
            assert(found[at as int] == mine[at as int]);
        }
    }
}

/// An unsafe directory name or a missing service name stops an activation before anything is put
/// in place.
pub proof fn refused_up_front(jarvis: Seq<char>, p: ServiceProfileView)
    requires
        !names::is_segment(p.model_dir_name) || text::trimmed(p.service_name).len() == 0,
    ensures
        prepared(jarvis, p).0.len() == 0,
        prepared(jarvis, p).1 is Some,
{
}

/// A profile with a service name and safe names throughout is not refused, and its compose document
/// is put in place.
pub proof fn complete_profile_is_not_refused(jarvis: Seq<char>, p: ServiceProfileView)
    requires
        names::is_segment(p.model_dir_name),
        text::trimmed(p.service_name).len() > 0,
        forall|i: int|
            0 <= i < p.tied_files.len() ==> names::is_segment(#[trigger] p.tied_files[i].filename),
        p.dockerfile_name is Some && p.dockerfile is Some ==> names::is_segment(
            p.dockerfile_name->0,
        ),
    ensures
        prepared(jarvis, p).1 is None,
        prepared(jarvis, p).0.contains(
            StepView::Write(compose_path(jarvis, p.name), document(p.compose_fragment)),
        ),
{
    let n = safe_run(p.tied_files);
    lemma_safe_run(p.tied_files, n as int);
    if n < p.tied_files.len() {
        assert(names::is_segment(p.tied_files[n as int].filename));
    }
    let all = prepared(jarvis, p).0;
    assert(all[all.len() - 2] == StepView::Write(
        compose_path(jarvis, p.name),
        document(p.compose_fragment),
    ));
}

// ---------------------------------------------------------------------------
// The swap
// ---------------------------------------------------------------------------

/// How long the published port is given to answer, in seconds.
pub const HEALTH_TIMEOUT: u64 = 120;

/// The pause behind a round of probes, in seconds.
pub const PAUSE: u64 = 3;

/// How many rounds of probes are made.
pub const ROUNDS: u64 = HEALTH_TIMEOUT / PAUSE;

/// How many log lines a failed activation hands back.
pub const FAILED_TAIL: usize = 40;

/// All that an activation will do.
#[derive(Debug, PartialEq)]
pub struct Swap {
    /// What is put in place, in order.
    pub steps: Vec<Step>,
    /// What stops the activation behind that.
    pub refusal: Option<String>,
    /// The arguments of `docker` that bring the service up under the stable project.
    pub up_args: Vec<String>,
    /// Where the active pointer is recorded, and what it holds.
    pub record_path: String,
    pub record: Vec<u8>,
    pub name: String,
    pub container_name: String,
    pub host_port: Option<u16>,
}

/// The contents of a [`Swap`].
#[verifier::ext_equal]
pub struct SwapView {
    pub steps: Seq<StepView>,
    pub refusal: Option<Seq<char>>,
    pub up_args: Seq<Seq<char>>,
    pub record_path: Seq<char>,
    pub record: Seq<u8>,
    pub name: Seq<char>,
    pub container_name: Seq<char>,
    pub host_port: Option<u16>,
}

impl View for Swap {
    type V = SwapView;

    open spec fn view(&self) -> SwapView {
        SwapView {
            steps: step_views(self.steps@),
            refusal: text::opt_text(self.refusal),
            up_args: text::texts(self.up_args@),
            record_path: self.record_path@,
            record: self.record@,
            name: self.name@,
            container_name: self.container_name@,
            host_port: self.host_port,
        }
    }
}

/// The members of the record of the active profile.
pub open spec fn record_members(p: ServiceProfileView, compose_file: Seq<char>) -> Seq<
    (Seq<char>, Seq<char>),
> {
    seq![
        ("profile_id"@, p.id),
        ("name"@, p.name),
        ("service_name"@, p.service_name),
        ("compose_file"@, compose_file),
    ]
}

/// The record of the active profile; empty where it could not be encoded.
pub open spec fn record_of(p: ServiceProfileView, compose_file: Seq<char>) -> Seq<u8> {
    match outside::json_pretty(record_members(p, compose_file)) {
        Some(b) => b,
        None => Seq::empty(),
    }
}

/// What activating a profile does, in a tree at `jarvis` under that compose project.
pub open spec fn swap_of(
    jarvis: Seq<char>,
    project: Seq<char>,
    p: ServiceProfileView,
) -> SwapView {
    SwapView {
        steps: prepared(jarvis, p).0,
        refusal: prepared(jarvis, p).1,
        up_args: docker::up_args(compose_path(jarvis, p.name), Some(project)),
        record_path: tree::child_path(tree::child_path(jarvis, ".modeldeck"@), "active.json"@),
        record: record_of(p, compose_path(jarvis, p.name)),
        name: p.name,
        container_name: p.container_name,
        host_port: p.host_port,
    }
}

/// The record of the active profile.
fn active_record(p: &ServiceProfile, compose_file: &str) -> (r: Vec<u8>)
    ensures
        r@ == record_of(p@, compose_file@),
{
    let mut members: Vec<(String, String)> = Vec::new();
    members.push(("profile_id".to_owned(), p.id.clone()));
    members.push(("name".to_owned(), p.name.clone()));
    members.push(("service_name".to_owned(), p.service_name.clone()));
    members.push(("compose_file".to_owned(), compose_file.to_owned()));
    assert(outside::text_pairs(members@) =~= record_members(p@, compose_file@));
    match outside::to_vec_pretty(&members) {
        Ok(b) => b,
        Err(_) => Vec::new(),
    }
}

/// Materializes a profile's tied files into `services/<model_dir_name>/`, writes its managed
/// compose file at the root of the tree, then brings it up under the stable swap project,
/// replacing whatever was active, and checks the health of the published port.
pub fn activate(cfg: &Config, profile: &ServiceProfile) -> (r: Swap)
    ensures
        r@ == swap_of(cfg.jarvis@, cfg.project@, profile@),
{
    let (steps, refusal): (Vec<Step>, Option<String>) = prepare(cfg, profile);
    let file: String = managed_file(cfg, profile);
    let state: String = cfg.state_dir();
    Swap {
        steps,
        refusal,
        up_args: docker::compose_up(file.as_str(), Some(cfg.project.as_str())),
        record_path: tree::child(state.as_str(), "active.json"),
        record: active_record(profile, file.as_str()),
        name: profile.name.clone(),
        container_name: profile.container_name.clone(),
        host_port: profile.host_port,
    }
}

/// Where an activation stands.
#[derive(Debug, PartialEq)]
pub enum Stage {
    /// The step with that number is being put in place.
    Preparing(usize),
    /// Compose is bringing the service up.
    Starting,
    /// The active pointer is being recorded; what compose said.
    Recording(Result<String, String>),
    /// The probe with that number is under way; what compose said.
    Probing(u64, String),
    /// The pause behind that many rounds of probes; what compose said.
    Pausing(u64, String),
    /// The logs are being read for the result of a failed activation; what compose said.
    Failed(String),
    /// The logs are being read for the result of an activation; what compose said, and whether
    /// the port is healthy.
    Activated(String, bool),
    Ended,
}

/// The contents of a [`Stage`].
pub enum StageView {
    Preparing(int),
    Starting,
    Recording(Result<Seq<char>, Seq<char>>),
    Probing(int, Seq<char>),
    Pausing(int, Seq<char>),
    Failed(Seq<char>),
    Activated(Seq<char>, bool),
    Ended,
}

/// The texts of an outcome: what a piece of work handed back, or the message with which it
/// failed.
pub open spec fn outcome_text(o: Result<String, String>) -> Result<Seq<char>, Seq<char>> {
    match o {
        Ok(s) => Ok(s@),
        Err(m) => Err(m@),
    }
}

impl View for Stage {
    type V = StageView;

    open spec fn view(&self) -> StageView {
        match self {
            Stage::Preparing(n) => StageView::Preparing(*n as int),
            Stage::Starting => StageView::Starting,
            Stage::Recording(up) => StageView::Recording(outcome_text(*up)),
            Stage::Probing(k, up) => StageView::Probing(*k as int, up@),
            Stage::Pausing(k, up) => StageView::Pausing(*k as int, up@),
            Stage::Failed(up) => StageView::Failed(up@),
            Stage::Activated(up, health) => StageView::Activated(up@, *health),
            Stage::Ended => StageView::Ended,
        }
    }
}

/// What is to be done next.
#[derive(Debug, PartialEq)]
pub enum Action {
    /// Put a directory or a file in place.
    Place(Step),
    /// Run `docker` with these arguments; its output is what it hands back.
    Up(Vec<String>),
    /// Write these bytes to that path.
    Record(String, Vec<u8>),
    /// Run `curl` with these arguments; an exit code other than zero is a failure.
    Probe(Vec<String>),
    /// Wait that many seconds.
    Pause(u64),
    /// Run `docker` with these arguments; both its outputs are what it hands back.
    Logs(Vec<String>),
    /// Hand this to the caller.
    Finish(Result<ActivateResult, String>),
}

/// The contents of an [`Action`].
pub enum ActionView {
    Place(StepView),
    Up(Seq<Seq<char>>),
    Record(Seq<char>, Seq<u8>),
    Probe(Seq<Seq<char>>),
    Pause(int),
    Logs(Seq<Seq<char>>),
    Finish(Result<ActivateResultView, Seq<char>>),
}

impl View for Action {
    type V = ActionView;

    open spec fn view(&self) -> ActionView {
        match self {
            Action::Place(s) => ActionView::Place(s@),
            Action::Up(a) => ActionView::Up(text::texts(a@)),
            Action::Record(p, b) => ActionView::Record(p@, b@),
            Action::Probe(a) => ActionView::Probe(text::texts(a@)),
            Action::Pause(s) => ActionView::Pause(*s as int),
            Action::Logs(a) => ActionView::Logs(text::texts(a@)),
            Action::Finish(Ok(r)) => ActionView::Finish(Ok(r@)),
            Action::Finish(Err(m)) => ActionView::Finish(Err(m@)),
        }
    }
}

/// The arguments of `docker logs` for the last lines of a container.
pub open spec fn logs_args(container: Seq<char>, tail: nat) -> Seq<Seq<char>> {
    seq!["logs"@, "--tail"@, numbers::decimal(tail), container]
}

/// The address of a probe: the health page and the list of models in turn.
pub open spec fn probe_url(port: u16, k: int) -> Seq<char> {
    "http://127.0.0.1:"@ + numbers::decimal(port as nat) + if k % 2 == 0 {
        "/health"@
    } else {
        "/v1/models"@
    }
}

/// The arguments of `curl` for a probe.
pub open spec fn probe_args(url: Seq<char>) -> Seq<Seq<char>> {
    seq!["-fsS"@, "-m"@, "3"@, "-o"@, "/dev/null"@, url]
}

/// The lines of a text from the last to the first, at most so many.
pub open spec fn last_lines(s: Seq<char>, most: int) -> Seq<Seq<char>> {
    let l = search::lines(s).reverse();
    if l.len() <= most {
        l
    } else {
        l.take(most)
    }
}

/// The text that came back, empty where there was a failure.
pub open spec fn text_or_empty(o: Result<Seq<char>, Seq<char>>) -> Seq<char> {
    match o {
        Ok(s) => s,
        Err(_) => Seq::empty(),
    }
}

/// What an activation whose compose run failed comes to.
pub open spec fn failed_result(up: Seq<char>, logs: Seq<char>) -> ActivateResultView {
    ActivateResultView {
        ok: false,
        message: "compose up failed: "@ + up,
        health_ok: false,
        log_tail: last_lines(logs, FAILED_TAIL as int),
    }
}

/// What an activation comes to.
pub open spec fn activated_result(
    name: Seq<char>,
    up: Seq<char>,
    health: bool,
    logs: Seq<char>,
) -> ActivateResultView {
    ActivateResultView {
        ok: true,
        message: "activated "@ + name + " ("@ + text::trimmed(up) + ")"@,
        health_ok: health,
        log_tail: search::lines(logs),
    }
}

/// The stage at the step with that number, and what is to be done there: behind the last step
/// the activation stops where something stops it, and goes on to compose otherwise.
pub open spec fn at_step(s: SwapView, n: int) -> (StageView, ActionView) {
    if n < s.steps.len() {
        (StageView::Preparing(n), ActionView::Place(s.steps[n]))
    } else {
        match s.refusal {
            Some(m) => (StageView::Ended, ActionView::Finish(Err(m))),
            None => (StageView::Starting, ActionView::Up(s.up_args)),
        }
    }
}

/// The stage at the probe with that number. Behind the last round the port is not healthy.
pub open spec fn at_probe(s: SwapView, port: u16, k: int, up: Seq<char>) -> (
    StageView,
    ActionView,
) {
    if k < 2 * ROUNDS {
        (StageView::Probing(k, up), ActionView::Probe(probe_args(probe_url(port, k))))
    } else {
        at_activated(s, up, false)
    }
}

/// The stage of an activation whose health is settled.
pub open spec fn at_activated(s: SwapView, up: Seq<char>, health: bool) -> (StageView, ActionView) {
    (StageView::Activated(up, health), ActionView::Logs(logs_args(s.container_name, 40)))
}

/// The next stage and what is to be done there, from a stage and the outcome of what was done in
/// it.
pub open spec fn next(s: SwapView, stage: StageView, outcome: Result<Seq<char>, Seq<char>>) -> (
    StageView,
    ActionView,
) {
    match stage {
        StageView::Preparing(n) => match outcome {
            Ok(_) => at_step(s, n + 1),
            Err(m) => (StageView::Ended, ActionView::Finish(Err(m))),
        },
        StageView::Starting => (
            StageView::Recording(outcome),
            ActionView::Record(s.record_path, s.record),
        ),
        StageView::Recording(Err(m)) => (
            StageView::Failed(m),
            ActionView::Logs(logs_args(s.container_name, 60)),
        ),
        StageView::Recording(Ok(up)) => match s.host_port {
            Some(port) => at_probe(s, port, 0, up),
            None => at_activated(s, up, true),
        },
        StageView::Probing(k, up) => if outcome is Ok {
            at_activated(s, up, true)
        } else if k % 2 == 0 {
            at_probe(s, s.host_port->0, k + 1, up)
        } else {
            (StageView::Pausing(k + 1, up), ActionView::Pause(PAUSE as int))
        },
        StageView::Pausing(k, up) => at_probe(s, s.host_port->0, k, up),
        StageView::Failed(up) => (
            StageView::Ended,
            ActionView::Finish(Ok(failed_result(up, text_or_empty(outcome)))),
        ),
        StageView::Activated(up, health) => (
            StageView::Ended,
            ActionView::Finish(Ok(activated_result(s.name, up, health, text_or_empty(outcome)))),
        ),
        StageView::Ended => (StageView::Ended, ActionView::Finish(Err(Seq::empty()))),
    }
}

/// The stages that an activation can stand at.
pub open spec fn stands(s: SwapView, stage: StageView) -> bool {
    match stage {
        StageView::Preparing(n) => 0 <= n < s.steps.len(),
        StageView::Probing(k, _) => s.host_port is Some && 0 <= k < 2 * ROUNDS,
        StageView::Pausing(k, _) => s.host_port is Some && 0 <= k <= 2 * ROUNDS && k % 2 == 0,
        _ => true,
    }
}

/// How many pieces of work an activation has in front of it at most.
pub open spec fn work_left(s: SwapView, stage: StageView) -> int {
    match stage {
        StageView::Preparing(n) => s.steps.len() - n + 3 + 3 * ROUNDS,
        StageView::Starting => 3 + 3 * ROUNDS,
        StageView::Recording(_) => 2 + 3 * ROUNDS,
        StageView::Probing(k, _) => 1 + 3 * (ROUNDS - k / 2) - k % 2,
        StageView::Pausing(k, _) => 2 + 3 * (ROUNDS - k / 2),
        StageView::Failed(_) => 1,
        StageView::Activated(_, _) => 1,
        StageView::Ended => 0,
    }
}

fn copy_step(s: &Step) -> (r: Step)
    ensures
        r@ == s@,
{
    match s {
        Step::CreateDir(p) => Step::CreateDir(p.clone()),
        Step::Write(p, c) => Step::Write(p.clone(), c.clone()),
    }
}

fn copy_texts(v: &Vec<String>) -> (r: Vec<String>)
    ensures
        text::texts(r@) == text::texts(v@),
{
    let mut out: Vec<String> = Vec::new();
    for i in 0..v.len()
        invariant
            text::texts(out@) =~= text::texts(v@).take(i as int),
    {
        let ghost before = text::texts(out@);
        out.push(v[i].clone());
        assert(text::texts(out@) =~= before.push(v@[i as int]@));
        assert(text::texts(v@).take(i + 1) =~= text::texts(v@).take(i as int).push(
            text::texts(v@)[i as int],
        ));
    }
    assert(text::texts(v@).take(v@.len() as int) =~= text::texts(v@));
    out
}

/// The stage and the action at the step with that number.
fn place_step(swap: &Swap, n: usize) -> (r: (Stage, Action))
    ensures
        (r.0@, r.1@) == at_step(swap@, n as int),
{
    if n < swap.steps.len() {
        assert(swap@.steps[n as int] == swap.steps@[n as int]@);
        (Stage::Preparing(n), Action::Place(copy_step(&swap.steps[n])))
    } else {
        match &swap.refusal {
            Some(m) => (Stage::Ended, Action::Finish(Err(m.clone()))),
            None => (Stage::Starting, Action::Up(copy_texts(&swap.up_args))),
        }
    }
}

/// The arguments of `curl` for the probe with that number.
fn probe(port: u16, k: u64) -> (r: Vec<String>)
    ensures
        text::texts(r@) == probe_args(probe_url(port, k as int)),
{
    let mut url: String = "http://127.0.0.1:".to_owned();
    url.append(numbers::decimal_of(port as u64).as_str());
    if k % 2 == 0 {
        url.append("/health");
    } else {
        url.append("/v1/models");
    }
    let ghost shown = url@;
    let mut v: Vec<String> = Vec::new();
    v.push("-fsS".to_owned());
    v.push("-m".to_owned());
    v.push("3".to_owned());
    v.push("-o".to_owned());
    v.push("/dev/null".to_owned());
    v.push(url);
    assert(text::texts(v@) =~= probe_args(shown));
    v
}

/// The stage and the action of an activation whose health is settled.
fn settle(swap: &Swap, up: String, health: bool) -> (r: (Stage, Action))
    ensures
        (r.0@, r.1@) == at_activated(swap@, up@, health),
{
    let args: Vec<String> = docker::logs_args(swap.container_name.as_str(), 40);
    (Stage::Activated(up, health), Action::Logs(args))
}

/// The stage and the action at the probe with that number.
fn start_probe(swap: &Swap, port: u16, k: u64, up: String) -> (r: (Stage, Action))
    ensures
        (r.0@, r.1@) == at_probe(swap@, port, k as int, up@),
{
    if k < 2 * ROUNDS {
        (Stage::Probing(k, up), Action::Probe(probe(port, k)))
    } else {
        settle(swap, up, false)
    }
}

/// The lines of a text from the last to the first, at most so many.
fn tail_of(s: &str, most: usize) -> (r: Vec<String>)
    ensures
        text::texts(r@) == last_lines(s@, most as int),
{
    let lines: Vec<String> = search::lines_of(s);
    let ghost all = search::lines(s@);
    let n: usize = lines.len();
    let mut out: Vec<String> = Vec::new();
    let count: usize = if n <= most {
        n
    } else {
        most
    };
    for i in 0..count
        invariant
            n == lines@.len(),
            count <= n,
            text::texts(lines@) == all,
            text::texts(out@) =~= all.reverse().take(i as int),
    {
        let ghost before = text::texts(out@);
        let line: String = lines[n - 1 - i].clone();
        let ghost shown = line@;
        assert(all[n - 1 - i] == shown);
        assert(all.reverse()[i as int] == shown);
        out.push(line);
        assert(text::texts(out@) =~= before.push(shown));
        assert(all.reverse().take(i + 1) =~= all.reverse().take(i as int).push(shown));
    }
    assert(all.reverse().take(count as int) =~= last_lines(s@, most as int));
    out
}

fn or_empty(outcome: Result<String, String>) -> (r: String)
    ensures
        r@ == text_or_empty(outcome_text(outcome)),
{
    match outcome {
        Ok(s) => s,
        Err(_) => String::new(),
    }
}

/// The first stage of an activation, and what is to be done there.
pub fn begin(swap: &Swap) -> (r: (Stage, Action))
    ensures
        (r.0@, r.1@) == at_step(swap@, 0),
        stands(swap@, r.0@),
        r.0@ is Ended <==> r.1@ is Finish,
{
    place_step(swap, 0)
}

/// The next stage of an activation, and what is to be done there, from a stage and the outcome of
/// what was done in it. Each outcome brings the end nearer.
pub fn advance(swap: &Swap, stage: Stage, outcome: Result<String, String>) -> (r: (Stage, Action))
    requires
        stands(swap@, stage@),
        !(stage@ is Ended),
    ensures
        (r.0@, r.1@) == next(swap@, stage@, outcome_text(outcome)),
        stands(swap@, r.0@),
        r.0@ is Ended <==> r.1@ is Finish,
        0 <= work_left(swap@, r.0@) < work_left(swap@, stage@),
{
    match stage {
        Stage::Preparing(n) => match outcome {
            Ok(_) => {
                assert(n < swap.steps.len());
                place_step(swap, n + 1)
            },
            Err(m) => (Stage::Ended, Action::Finish(Err(m))),
        },
        Stage::Starting => {
            let bytes: Vec<u8> = swap.record.clone();
            assert(bytes@ =~= swap.record@);
            (Stage::Recording(outcome), Action::Record(swap.record_path.clone(), bytes))
        },
        Stage::Recording(Err(m)) => {
            let args: Vec<String> = docker::logs_args(swap.container_name.as_str(), 60);
            (Stage::Failed(m), Action::Logs(args))
        },
        Stage::Recording(Ok(up)) => match swap.host_port {
            Some(port) => start_probe(swap, port, 0, up),
            None => settle(swap, up, true),
        },
        Stage::Probing(k, up) => if outcome.is_ok() {
            settle(swap, up, true)
        } else if k % 2 == 0 {
            match swap.host_port {
                Some(port) => start_probe(swap, port, k + 1, up),
                None => settle(swap, up, true),
            }
        } else {
            (Stage::Pausing(k + 1, up), Action::Pause(PAUSE))
        },
        Stage::Pausing(k, up) => match swap.host_port {
            Some(port) => start_probe(swap, port, k, up),
            None => settle(swap, up, true),
        },
        Stage::Failed(up) => {
            let logs: String = or_empty(outcome);
            let result: ActivateResult = ActivateResult {
                ok: false,
                message: message("compose up failed: ", up.as_str()),
                health_ok: false,
                log_tail: tail_of(logs.as_str(), FAILED_TAIL),
            };
            (Stage::Ended, Action::Finish(Ok(result)))
        },
        Stage::Activated(up, health) => {
            let logs: String = or_empty(outcome);
            let mut m: String = "activated ".to_owned();
            m.append(swap.name.as_str());
            m.append(" (");
            m.append(text::trim(up.as_str()).as_str());
            m.append(")");
            let result: ActivateResult = ActivateResult {
                ok: true,
                message: m,
                health_ok: health,
                log_tail: search::lines_of(logs.as_str()),
            };
            (Stage::Ended, Action::Finish(Ok(result)))
        },
        Stage::Ended => (Stage::Ended, Action::Finish(Err(String::new()))),
    }
}

// ---------------------------------------------------------------------------
// Runs
// ---------------------------------------------------------------------------

/// Where an activation stands, and what is to be done there, after these outcomes.
pub open spec fn run(s: SwapView, outcomes: Seq<Result<Seq<char>, Seq<char>>>) -> (
    StageView,
    ActionView,
)
    decreases outcomes.len(),
{
    if outcomes.len() == 0 {
        at_step(s, 0)
    } else {
        next(s, run(s, outcomes.drop_last()).0, outcomes.last())
    }
}

/// Whether a probe of the published port was answered.
pub open spec fn answered(s: SwapView, o: Seq<Result<Seq<char>, Seq<char>>>) -> bool {
    exists|k: int|
        0 <= k < o.len() && run(s, #[trigger] o.take(k)).1 is Probe && o[k] is Ok
}

/// What a stage says of the outcomes that led to it.
spec fn reached(s: SwapView, stage: StageView, o: Seq<Result<Seq<char>, Seq<char>>>) -> bool {
    let n = s.steps.len();
    let placed = forall|i: int| 0 <= i < n ==> #[trigger] o[i] is Ok;
    &&& stage is Activated || stage is Ended || !answered(s, o)
    &&& match stage {
        StageView::Preparing(k) => o.len() == k && forall|i: int|
            0 <= i < k ==> #[trigger] o[i] is Ok,
        StageView::Starting => o.len() == n && placed && s.refusal is None,
        StageView::Recording(up) => o.len() == n + 1 && placed && s.refusal is None && o[n as int]
            == up,
        StageView::Probing(_, up) => o.len() > n + 1 && placed && s.refusal is None && o[n as int]
            == Ok::<Seq<char>, Seq<char>>(up),
        StageView::Pausing(_, up) => o.len() > n + 1 && placed && s.refusal is None && o[n as int]
            == Ok::<Seq<char>, Seq<char>>(up),
        StageView::Failed(m) => o.len() > n + 1 && placed && s.refusal is None && o[n as int]
            == Err::<Seq<char>, Seq<char>>(m),
        StageView::Activated(up, health) => {
            &&& o.len() > n + 1
            &&& placed
            &&& s.refusal is None
            &&& o[n as int] == Ok::<Seq<char>, Seq<char>>(up)
            &&& health <==> s.host_port is None || answered(s, o)
        },
        StageView::Ended => true,
    }
}

/// A probe was answered before, or the last outcome answered one.
proof fn lemma_answered(s: SwapView, o: Seq<Result<Seq<char>, Seq<char>>>)
    requires
        o.len() > 0,
    ensures
        answered(s, o) <==> answered(s, o.drop_last()) || (run(s, o.drop_last()).1 is Probe
            && o.last() is Ok),
{
    let before = o.drop_last();
    assert(o.take(o.len() - 1) =~= before);
    if answered(s, before) {
        let k = choose|k: int|
            0 <= k < before.len() && run(s, #[trigger] before.take(k)).1 is Probe
                && before[k] is Ok;
        assert(o.take(k) =~= before.take(k));
        assert(o[k] == before[k]);
    }
    if answered(s, o) {
        let k = choose|k: int|
            0 <= k < o.len() && run(s, #[trigger] o.take(k)).1 is Probe && o[k] is Ok;
        if k < before.len() {
            assert(before.take(k) =~= o.take(k));
            assert(before[k] == o[k]);
        }
    }
}

proof fn lemma_reached(s: SwapView, o: Seq<Result<Seq<char>, Seq<char>>>)
    ensures
        reached(s, run(s, o).0, o),
        stands(s, run(s, o).0),
        run(s, o).0 is Ended <==> run(s, o).1 is Finish,
        run(s, o).1 is Up <==> run(s, o).0 is Starting,
        run(s, o).1 is Probe <==> run(s, o).0 is Probing,
    decreases o.len(),
{
    if o.len() > 0 {
        let before = o.drop_last();
        lemma_reached(s, before);
        assert forall|i: int| 0 <= i < before.len() implies #[trigger] o[i] == before[i] by {}
        assert(reached(s, run(s, before).0, before));
        assert(run(s, o) == next(s, run(s, before).0, o.last()));
        lemma_answered(s, o);
    }
}

/// Compose is run only when everything is in place: each step has been done, none has failed, and
/// nothing refuses the profile.
pub proof fn compose_runs_when_all_is_in_place(
    s: SwapView,
    outcomes: Seq<Result<Seq<char>, Seq<char>>>,
)
    requires
        run(s, outcomes).1 is Up,
    ensures
        outcomes.len() == s.steps.len(),
        forall|i: int| 0 <= i < outcomes.len() ==> #[trigger] outcomes[i] is Ok,
        s.refusal is None,
{
    lemma_reached(s, outcomes);
}

/// An activation that ends in a result has run compose. The result is a success exactly where
/// compose succeeded, and it calls the port healthy exactly where, besides, no port is published
/// or a probe of it was answered.
pub proof fn result_tells_what_happened(
    s: SwapView,
    outcomes: Seq<Result<Seq<char>, Seq<char>>>,
    last: Result<Seq<char>, Seq<char>>,
    r: ActivateResultView,
)
    requires
        !(run(s, outcomes).0 is Ended),
        run(s, outcomes.push(last)).1 == ActionView::Finish(Ok(r)),
    ensures
        s.refusal is None,
        outcomes.len() > s.steps.len() + 1,
        r.ok <==> outcomes[s.steps.len() as int] is Ok,
        r.health_ok <==> r.ok && (s.host_port is None || answered(s, outcomes)),
{
    lemma_reached(s, outcomes);
    assert(outcomes.push(last).drop_last() =~= outcomes);
}

/// A refused profile never gets to compose: once what stands in front of the refusal is in place,
/// the activation ends with the message.
pub proof fn refused_profile_is_answered_with_the_reason(
    s: SwapView,
    outcomes: Seq<Result<Seq<char>, Seq<char>>>,
)
    requires
        s.refusal is Some,
        outcomes.len() == s.steps.len(),
        forall|i: int| 0 <= i < outcomes.len() ==> #[trigger] outcomes[i] is Ok,
    ensures
        run(s, outcomes) == (
            StageView::Ended,
            ActionView::Finish(Err::<ActivateResultView, Seq<char>>(s.refusal->0)),
        ),
{
    lemma_placed(s, outcomes, outcomes.len() as int);
    assert(outcomes.take(outcomes.len() as int) =~= outcomes);
}

proof fn lemma_placed(s: SwapView, o: Seq<Result<Seq<char>, Seq<char>>>, k: int)
    requires
        0 <= k <= o.len(),
        k <= s.steps.len(),
        forall|i: int| 0 <= i < o.len() ==> #[trigger] o[i] is Ok,
    ensures
        run(s, o.take(k)) == at_step(s, k),
    decreases k,
{
    if k > 0 {
        lemma_placed(s, o, k - 1);
        assert(o.take(k).drop_last() =~= o.take(k - 1));
        assert(o.take(k).last() == o[k - 1]);
    }
}

// ---------------------------------------------------------------------------
// What an activation is for
// ---------------------------------------------------------------------------

/// The entry of one service keeps its shape in the compose document: behind the line `services:`
/// stand as many lines as the entry has, each two columns further in, and an empty one empty. So
/// any two lines of the entry are as far apart in depth as they were.
pub proof fn fragment_keeps_its_shape(fragment: Seq<char>)
    requires
        text::end_trimmed(fragment).len() > 0,
        !search::has_prefix(text::start_trimmed(text::end_trimmed(fragment)), "services:"@),
        !search::has_prefix(text::start_trimmed(text::end_trimmed(fragment)), "name:"@),
    ensures
        ({
            let given = search::lines(text::end_trimmed(fragment));
            let got = search::split(document(fragment), seq!['\n']);
            &&& given.len() > 0
            &&& got.len() == given.len() + 2
            &&& got[0] == seq!['s', 'e', 'r', 'v', 'i', 'c', 'e', 's', ':']
            &&& got.last().len() == 0
            &&& forall|i: int|
                0 <= i < given.len() && given[i].len() > 0 ==> #[trigger] got[i + 1] == seq![' ', ' ']
                    + given[i]
            &&& forall|i: int|
                0 <= i < given.len() && given[i].len() == 0 ==> #[trigger] got[i + 1].len() == 0
        }),
{
    let frag = text::end_trimmed(fragment);
    let given = search::lines(frag);
    let moved = given.map_values(|l: Seq<char>| indented(l));
    reveal_strlit("services:\n");
    reveal_strlit("  ");
    reveal_strlit("\n");
    let head = seq!['s', 'e', 'r', 'v', 'i', 'c', 'e', 's', ':'];
    assert("services:\n"@ =~= head.push('\n'));
    assert("  "@ =~= seq![' ', ' ']);
    assert("\n"@ =~= seq!['\n']);
    lemma_no_break_in_lines(frag);
    lemma_some_line(frag);
    assert forall|i: int| 0 <= i < moved.len() implies !(#[trigger] moved[i]).contains('\n') by {
        assert(!given[i].contains('\n'));
        if moved[i].contains('\n') {
            let k = choose|k: int| 0 <= k < moved[i].len() && moved[i][k] == '\n';
            assert(given[i].len() > 0);
            assert(moved[i] == "  "@ + given[i]);
            assert(given[i][k - 2] == '\n');
        }
    }
    let all = seq![head] + moved + seq![Seq::<char>::empty()];
    assert forall|i: int| 0 <= i < all.len() implies !(#[trigger] all[i]).contains('\n') by {
        if i == 0 {
        } else if i <= moved.len() {
            assert(all[i] == moved[i - 1]);
        }
    }
    search::splitting_undoes_joining(all, '\n');
    lemma_joined_front(head, moved, seq!['\n']);
    assert(all.drop_last() =~= seq![head] + moved);
    let body = search::joined(moved, seq!['\n']);
    assert(search::joined(seq![head] + moved, seq!['\n']) =~= head.push('\n') + body);
    assert(search::joined(all, seq!['\n']) =~= document(fragment));
}

/// The first of several parts stands in front of the others.
proof fn lemma_joined_front(first: Seq<char>, rest: Seq<Seq<char>>, sep: Seq<char>)
    requires
        rest.len() > 0,
    ensures
        search::joined(seq![first] + rest, sep) == first + (sep + search::joined(rest, sep)),
    decreases rest.len(),
{
    let all = seq![first] + rest;
    if rest.len() == 1 {
        assert(all.drop_last() =~= seq![first]);
        assert(search::joined(seq![first], sep) == first);
        assert(all.last() == rest[0]);
    } else {
        lemma_joined_front(first, rest.drop_last(), sep);
        assert(all.drop_last() =~= seq![first] + rest.drop_last());
        assert(all.last() == rest.last());
        let mid = search::joined(rest.drop_last(), sep);
        assert(first + (sep + mid) + (sep + rest.last()) =~= first + (sep + (mid + (sep
            + rest.last()))));
    }
}

/// No line holds a line break.
proof fn lemma_no_break_in_lines(s: Seq<char>)
    ensures
        forall|i: int|
            0 <= i < search::lines(s).len() ==> !(#[trigger] search::lines(s)[i]).contains('\n'),
{
    let seps = seq!['\n'];
    let parts = search::split(s, seps);
    let all = search::lines(s);
    search::lemma_split_pieces(s, seps);
    assert(seps[0] == '\n');
    assert forall|i: int| 0 <= i < all.len() implies !(#[trigger] all[i]).contains('\n') by {
        if all[i].contains('\n') {
            let k = choose|k: int| 0 <= k < all[i].len() && all[i][k] == '\n';
            assert(parts[i][k] == '\n');
            assert(!seps.contains(parts[i][k]));
        }
    }
}

/// A text that is not empty has a line.
proof fn lemma_some_line(s: Seq<char>)
    requires
        s.len() > 0,
    ensures
        search::lines(s).len() > 0,
{
    let seps = seq!['\n'];
    search::lemma_split_pieces(s.drop_last(), seps);
    search::lemma_split_pieces(s, seps);
}

/// A fragment that is a whole document already, from its first word on, is kept as it is but for the
/// white space at its end, and only such a fragment is.
pub proof fn whole_document_is_kept(fragment: Seq<char>)
    ensures
        search::has_prefix(text::start_trimmed(text::end_trimmed(fragment)), "services:"@)
            || search::has_prefix(text::start_trimmed(text::end_trimmed(fragment)), "name:"@)
            ==> document(fragment) == text::end_trimmed(fragment),
        text::end_trimmed(fragment).len() == 0 ==> document(fragment)
            == "services:"@ + seq!['\n', '\n'],
{
    let frag = text::end_trimmed(fragment);
    if frag.len() == 0 {
        reveal_strlit("services:");
        reveal_strlit("name:");
        reveal_strlit("services:\n");
        reveal_strlit("\n");
        assert(text::start_trimmed(frag).len() == 0);
        let parts = search::split(frag, seq!['\n']);
        assert(parts == seq![Seq::<char>::empty()]);
        assert(search::lines(frag) =~= Seq::<Seq<char>>::empty());
        assert(document(fragment) =~= "services:"@ + seq!['\n', '\n']);
    }
}

/// Where the names of a profile are safe, an activation puts exactly this in place, in this order:
/// the directory of the model, each tied file in it with its text, the Dockerfile where the profile
/// has one, the compose document, and the directory for the record.
pub proof fn all_of_a_profile_is_put_in_place(jarvis: Seq<char>, p: ServiceProfileView)
    requires
        jarvis.len() > 0,
        jarvis.last() != '/',
        names::is_segment(p.model_dir_name),
        text::trimmed(p.service_name).len() > 0,
        forall|i: int|
            0 <= i < p.tied_files.len() ==> names::is_segment(#[trigger] p.tied_files[i].filename),
        p.dockerfile_name is Some && p.dockerfile is Some ==> names::is_segment(
            p.dockerfile_name->0,
        ),
    ensures
        ({
            let n = p.tied_files.len() as int;
            let m: int = if p.dockerfile_name is Some && p.dockerfile is Some {
                1
            } else {
                0
            };
            let dir = jarvis + "/services/"@ + p.model_dir_name;
            let steps = prepared(jarvis, p).0;
            &&& prepared(jarvis, p).1 is None
            &&& steps.len() == n + m + 3
            &&& steps[0] == StepView::CreateDir(dir)
            &&& forall|i: int|
                0 <= i < n ==> #[trigger] steps[i + 1] == StepView::Write(
                    dir + "/"@ + p.tied_files[i].filename,
                    p.tied_files[i].content,
                )
            &&& m == 1 ==> steps[n + 1] == StepView::Write(
                jarvis + "/"@ + p.dockerfile_name->0,
                p.dockerfile->0,
            )
            &&& steps[n + m + 1] == StepView::Write(
                jarvis + "/"@ + (if names::slug(p.name).len() == 0 {
                    "profile"@
                } else {
                    names::slug(p.name)
                }) + ".mdk.yml"@,
                document(p.compose_fragment),
            )
            &&& steps[n + m + 2] == StepView::CreateDir(jarvis + "/.modeldeck"@)
        }),
{
    reveal_strlit("/services/");
    reveal_strlit("services");
    reveal_strlit("/");
    reveal_strlit("/.modeldeck");
    reveal_strlit(".modeldeck");
    let n = p.tied_files.len() as int;
    let run = safe_run(p.tied_files);
    lemma_safe_run(p.tied_files, run as int);
    if run < n {
        assert(names::is_segment(p.tied_files[run as int].filename));
    }
    let services = tree::child_path(jarvis, "services"@);
    let dir = jarvis + "/services/"@ + p.model_dir_name;
    lemma_fixed_names(p.name);
    lemma_safe_child(jarvis, "services"@);
    lemma_safe_child(services, p.model_dir_name);
    lemma_safe_child(jarvis, ".modeldeck"@);
    lemma_safe_child(jarvis, compose_name(p.name));
    assert(services =~= jarvis + "/services"@) by {
        reveal_strlit("/services");
    }
    assert(model_dir(jarvis, p.model_dir_name) =~= dir);
    names::segment_is_one_component(p.model_dir_name);
    assert(dir.last() != '/') by {
        assert(dir.last() == p.model_dir_name.last());
        if p.model_dir_name.last() == '/' {
            assert(p.model_dir_name[p.model_dir_name.len() - 1] == '/');
            assert(p.model_dir_name.contains('/'));
        }
    }
    let steps = prepared(jarvis, p).0;
    assert forall|i: int| 0 <= i < n implies #[trigger] steps[i + 1] == StepView::Write(
        dir + "/"@ + p.tied_files[i].filename,
        p.tied_files[i].content,
    ) by {
        assert(names::is_segment(p.tied_files[i].filename));
        lemma_safe_child(dir, p.tied_files[i].filename);
        assert(steps[i + 1] == tied_part(jarvis, p).0[i + 1]);
    }
    if p.dockerfile_name is Some && p.dockerfile is Some {
        lemma_safe_child(jarvis, p.dockerfile_name->0);
        assert(steps[n + 1] == dockerfile_part(jarvis, p).0[0]);
    }
    assert(jarvis + "/"@ + compose_name(p.name) =~= jarvis + "/"@ + (if names::slug(p.name).len()
        == 0 {
        "profile"@
    } else {
        names::slug(p.name)
    }) + ".mdk.yml"@);
    assert(jarvis + "/"@ + ".modeldeck"@ =~= jarvis + "/.modeldeck"@);
}

/// A safe name stands behind one slash.
proof fn lemma_safe_child(dir: Seq<char>, name: Seq<char>)
    requires
        dir.len() > 0,
        dir.last() != '/',
        names::is_segment(name),
    ensures
        tree::child_path(dir, name) == dir + "/"@ + name,
{
    reveal_strlit("/");
    names::segment_is_one_component(name);
    if name[0] == '/' {
        assert(name.contains('/'));
    }
    tree::child_stands_behind_one_slash(dir, name);
    assert("/"@ =~= seq!['/']);
}

/// What stops an activation, and what it says: an unsafe directory, a missing service name, the
/// first tied file with an unsafe name, an unsafe Dockerfile, in that order. Nothing is put in place
/// behind what stops it, and without any of these nothing stops it.
pub proof fn activation_stops_at_the_first_unsafe_name(jarvis: Seq<char>, p: ServiceProfileView, k: int)
    requires
        0 <= k <= p.tied_files.len(),
        forall|i: int| 0 <= i < k ==> names::is_segment(#[trigger] p.tied_files[i].filename),
        k < p.tied_files.len() ==> !names::is_segment(p.tied_files[k].filename),
    ensures
        !names::is_segment(p.model_dir_name) ==> prepared(jarvis, p).1 == Some(
            "unsafe model_dir_name: "@ + p.model_dir_name,
        ) && prepared(jarvis, p).0.len() == 0,
        names::is_segment(p.model_dir_name) && text::trimmed(p.service_name).len() == 0
            ==> prepared(jarvis, p).1 == Some("profile has no service_name"@) && prepared(
            jarvis,
            p,
        ).0.len() == 0,
        names::is_segment(p.model_dir_name) && text::trimmed(p.service_name).len() > 0 && k
            < p.tied_files.len() ==> prepared(jarvis, p).1 == Some(
            "unsafe tied filename: "@ + p.tied_files[k].filename,
        ) && prepared(jarvis, p).0.len() == k + 1,
        names::is_segment(p.model_dir_name) && text::trimmed(p.service_name).len() > 0 && k
            == p.tied_files.len() && p.dockerfile is Some && (p.dockerfile_name matches Some(d)
            && !names::is_segment(d)) ==> prepared(jarvis, p).1 == Some(
            "unsafe dockerfile name: "@ + p.dockerfile_name->0,
        ) && prepared(jarvis, p).0.len() == k + 1,
        names::is_segment(p.model_dir_name) && text::trimmed(p.service_name).len() > 0 && k
            == p.tied_files.len() && !(p.dockerfile is Some && (p.dockerfile_name matches Some(d)
            && !names::is_segment(d))) ==> prepared(jarvis, p).1 is None,
{
    let run = safe_run(p.tied_files);
    lemma_safe_run(p.tied_files, run as int);
    if run < k {
        assert(names::is_segment(p.tied_files[run as int].filename));
    }
    if k < run {
        assert(names::is_segment(p.tied_files[k].filename));
    }
    assert(run == k);
}

/// Compose is run on the file that the activation has written, under the given project, in the
/// background, and takes down what else ran under it; the record is kept beside and names the
/// profile and that file.
pub proof fn compose_runs_on_the_written_file(
    jarvis: Seq<char>,
    project: Seq<char>,
    p: ServiceProfileView,
)
    requires
        jarvis.len() > 0,
        jarvis.last() != '/',
    ensures
        ({
            let s = swap_of(jarvis, project, p);
            let file = compose_path(jarvis, p.name);
            &&& s.up_args == seq![
                "compose"@,
                "-f"@,
                file,
                "-p"@,
                project,
                "up"@,
                "-d"@,
                "--remove-orphans"@,
            ]
            &&& s.refusal is None ==> s.steps.len() >= 2 && s.steps[s.steps.len() - 2]
                == StepView::Write(file, document(p.compose_fragment))
            &&& s.record_path == jarvis + "/.modeldeck/active.json"@
            &&& outside::json_pretty(
                seq![
                    ("profile_id"@, p.id),
                    ("name"@, p.name),
                    ("service_name"@, p.service_name),
                    ("compose_file"@, file),
                ],
            ) matches Some(b) ==> s.record == b
            &&& s.name == p.name
            &&& s.container_name == p.container_name
            &&& s.host_port == p.host_port
        }),
{
    reveal_strlit("/");
    reveal_strlit(".modeldeck");
    reveal_strlit("active.json");
    reveal_strlit("/.modeldeck/active.json");
    let s = swap_of(jarvis, project, p);
    lemma_fixed_names(p.name);
    lemma_safe_child(jarvis, ".modeldeck"@);
    let state = tree::child_path(jarvis, ".modeldeck"@);
    assert(state.last() == 'k');
    tree::child_stands_behind_one_slash(state, "active.json"@);
    assert(s.record_path =~= jarvis + "/.modeldeck/active.json"@);
    assert(s.up_args =~= seq![
        "compose"@,
        "-f"@,
        compose_path(jarvis, p.name),
        "-p"@,
        project,
        "up"@,
        "-d"@,
        "--remove-orphans"@,
    ]);
    assert(record_members(p, compose_path(jarvis, p.name)) =~= seq![
        ("profile_id"@, p.id),
        ("name"@, p.name),
        ("service_name"@, p.service_name),
        ("compose_file"@, compose_path(jarvis, p.name)),
    ]);
}

/// What is to be done at each stage of an activation: the step that is due, compose with the
/// arguments of the swap, the record, a request to the published port for its health page or its
/// models in turn, a pause of three seconds, or the log of the container.
pub proof fn each_stage_does_its_work(
    s: SwapView,
    o: Seq<Result<Seq<char>, Seq<char>>>,
)
    ensures
        match run(s, o).0 {
            StageView::Preparing(k) => 0 <= k < s.steps.len() && run(s, o).1 == ActionView::Place(
                s.steps[k],
            ),
            StageView::Starting => run(s, o).1 == ActionView::Up(s.up_args),
            StageView::Recording(_) => run(s, o).1 == ActionView::Record(s.record_path, s.record),
            StageView::Probing(k, _) => s.host_port is Some && run(s, o).1 == ActionView::Probe(
                seq![
                    "-fsS"@,
                    "-m"@,
                    "3"@,
                    "-o"@,
                    "/dev/null"@,
                    "http://127.0.0.1:"@ + numbers::decimal(s.host_port->0 as nat) + (if k % 2
                        == 0 {
                        "/health"@
                    } else {
                        "/v1/models"@
                    }),
                ],
            ),
            StageView::Pausing(_, _) => run(s, o).1 == ActionView::Pause(3),
            StageView::Failed(_) => run(s, o).1 == ActionView::Logs(
                seq!["logs"@, "--tail"@, seq!['6', '0'], s.container_name],
            ),
            StageView::Activated(_, _) => run(s, o).1 == ActionView::Logs(
                seq!["logs"@, "--tail"@, seq!['4', '0'], s.container_name],
            ),
            StageView::Ended => run(s, o).1 is Finish,
        },
    decreases o.len(),
{
    lemma_reached(s, o);
    numbers::written_number_has_no_leading_zero(60);
    numbers::written_number_has_no_leading_zero(6);
    numbers::written_number_has_no_leading_zero(40);
    numbers::written_number_has_no_leading_zero(4);
    assert(numbers::decimal(6) =~= seq!['6']);
    assert(numbers::decimal(4) =~= seq!['4']);
    assert(numbers::decimal(60) =~= seq!['6', '0']);
    assert(numbers::decimal(40) =~= seq!['4', '0']);
    if o.len() > 0 {
        let before = o.drop_last();
        lemma_reached(s, before);
        assert(run(s, o) == next(s, run(s, before).0, o.last()));
    }
}

/// Where nothing fails, an activation goes through its steps in order, runs compose, records the
/// profile, and asks the published port, if there is one.
pub proof fn activation_goes_in_order(
    s: SwapView,
    o: Seq<Result<Seq<char>, Seq<char>>>,
    n: int,
)
    requires
        s.refusal is None,
        0 <= n <= o.len(),
        n <= s.steps.len() + 2,
        forall|i: int| 0 <= i < n ==> #[trigger] o[i] is Ok,
    ensures
        n < s.steps.len() ==> run(s, o.take(n)).1 == ActionView::Place(s.steps[n]),
        n == s.steps.len() ==> run(s, o.take(n)).1 == ActionView::Up(s.up_args),
        n == s.steps.len() + 1 ==> run(s, o.take(n)).1 == ActionView::Record(
            s.record_path,
            s.record,
        ),
        n == s.steps.len() + 2 && s.host_port is Some ==> run(s, o.take(n)).1 is Probe,
        n == s.steps.len() + 2 && s.host_port is None ==> run(s, o.take(n)).1 is Logs,
    decreases n,
{
    let k = s.steps.len() as int;
    if n <= k {
        lemma_placed_at(s, o, n);
    } else if n == k + 1 {
        lemma_placed_at(s, o, k);
        assert(o.take(n).drop_last() =~= o.take(k));
        assert(o.take(n).last() == o[k]);
        assert(run(s, o.take(n)) == next(s, run(s, o.take(k)).0, o[k]));
    } else {
        lemma_placed_at(s, o, k);
        assert(o.take(k + 1).drop_last() =~= o.take(k));
        assert(o.take(k + 1).last() == o[k]);
        assert(run(s, o.take(k + 1)) == next(s, run(s, o.take(k)).0, o[k]));
        assert(o.take(n).drop_last() =~= o.take(k + 1));
        assert(o.take(n).last() == o[k + 1]);
        assert(run(s, o.take(n)) == next(s, run(s, o.take(k + 1)).0, o[k + 1]));
        assert(o[k] is Ok);
    }
}

proof fn lemma_placed_at(s: SwapView, o: Seq<Result<Seq<char>, Seq<char>>>, n: int)
    requires
        0 <= n <= o.len(),
        n <= s.steps.len(),
        forall|i: int| 0 <= i < n ==> #[trigger] o[i] is Ok,
    ensures
        run(s, o.take(n)) == at_step(s, n),
    decreases n,
{
    if n > 0 {
        lemma_placed_at(s, o, n - 1);
        assert(o.take(n).drop_last() =~= o.take(n - 1));
        assert(o.take(n).last() == o[n - 1]);
        assert(o[n - 1] is Ok);
    }
}

/// A published port that never answers is asked for its health page and for its models forty times
/// over, with a pause behind each round, and is then called unhealthy, and not before.
pub proof fn silent_port_is_given_up_after_forty_rounds(
    s: SwapView,
    before: Seq<Result<Seq<char>, Seq<char>>>,
    up: Seq<char>,
    o: Seq<Result<Seq<char>, Seq<char>>>,
)
    requires
        s.host_port is Some,
        run(s, before).0 == StageView::Probing(0, up),
        o.len() <= 120,
        forall|i: int| 0 <= i < o.len() && i % 3 != 2 ==> #[trigger] o[i] is Err,
    ensures
        run(s, before + o).0 == if o.len() == 120 {
            StageView::Activated(up, false)
        } else if o.len() % 3 == 0 {
            StageView::Probing(2 * (o.len() as int / 3), up)
        } else if o.len() % 3 == 1 {
            StageView::Probing(2 * (o.len() as int / 3) + 1, up)
        } else {
            StageView::Pausing(2 * (o.len() as int / 3) + 2, up)
        },
    decreases o.len(),
{
    if o.len() == 0 {
        assert(before + o =~= before);
    } else {
        let front = o.drop_last();
        assert forall|i: int| 0 <= i < front.len() && i % 3 != 2 implies #[trigger] front[i] is Err by {
            assert(front[i] == o[i]);
        }
        silent_port_is_given_up_after_forty_rounds(s, before, up, front);
        assert((before + o).drop_last() =~= before + front);
        assert((before + o).last() == o.last());
        assert(o.last() == o[o.len() - 1]);
        assert(run(s, before + o) == next(s, run(s, before + front).0, o.last()));
        assert(o.len() - 1 == front.len());
    }
}

/// The first answer of the port settles that it is healthy, whichever of the two addresses gave it.
pub proof fn one_answer_is_enough(
    s: SwapView,
    before: Seq<Result<Seq<char>, Seq<char>>>,
    k: int,
    up: Seq<char>,
    answer: Seq<char>,
)
    requires
        run(s, before).0 == StageView::Probing(k, up),
    ensures
        run(s, before.push(Ok(answer))).0 == StageView::Activated(up, true),
{
    assert(before.push(Ok(answer)).drop_last() =~= before);
}

/// The result of an activation tells what compose said and what the container logged: after a
/// failure at most its last forty lines, the newest first, and after a success all that was asked
/// for, in order.
pub proof fn result_carries_message_and_log(
    s: SwapView,
    o: Seq<Result<Seq<char>, Seq<char>>>,
    log: Seq<char>,
    r: ActivateResultView,
)
    requires
        !(run(s, o).0 is Ended),
        run(s, o.push(Ok(log))).1 == ActionView::Finish(Ok(r)),
    ensures
        ({
            let said = o[s.steps.len() as int];
            let all = search::lines(log);
            let n = all.len() as int;
            &&& o.len() > s.steps.len()
            &&& said matches Err(m) ==> {
                &&& r.message == "compose up failed: "@ + m
                &&& r.log_tail.len() == (if n < 40 {
                    n
                } else {
                    40
                })
                &&& forall|i: int|
                    0 <= i < r.log_tail.len() ==> #[trigger] r.log_tail[i] == all[n - 1 - i]
            }
            &&& said matches Ok(up) ==> {
                &&& r.message == "activated "@ + s.name + " ("@ + text::trimmed(up) + ")"@
                &&& r.log_tail == all
            }
        }),
{
    lemma_reached(s, o);
    assert(o.push(Ok(log)).drop_last() =~= o);
    let all = search::lines(log);
    let n = all.len() as int;
    if o[s.steps.len() as int] is Err {
        assert forall|i: int| 0 <= i < r.log_tail.len() implies #[trigger] r.log_tail[i] == all[n - 1
            - i] by {
            assert(r.log_tail[i] == all.reverse()[i]);
        }
    }
}

}
