//! HuggingFace downloads: the command that the agent runs, the progress it relays, and how the
//! hub reads that progress from the event stream.

use crate::names;
use crate::numbers;
use crate::outside;
use crate::paths;
use crate::records::{DownloadRequest, DownloadRequestView};
use crate::search;
use crate::text;
use crate::tree;
use crate::tree::Config;
use vstd::prelude::*;
use vstd::string::*;
use vstd::utf8::*;

verus! {

// ---------------------------------------------------------------------------
// The command
// ---------------------------------------------------------------------------

/// A download that can be started: `hf` with these arguments and these variables added to its
/// environment.
#[derive(Debug, PartialEq)]
pub struct Download {
    /// The name of the destination under models/.
    pub dest_name: String,
    /// The destination, to be created first.
    pub dest: String,
    pub args: Vec<String>,
    pub env: Vec<(String, String)>,
}

/// The contents of a [`Download`].
#[verifier::ext_equal]
pub struct DownloadView {
    pub dest_name: Seq<char>,
    pub dest: Seq<char>,
    pub args: Seq<Seq<char>>,
    pub env: Seq<(Seq<char>, Seq<char>)>,
}

impl View for Download {
    type V = DownloadView;

    open spec fn view(&self) -> DownloadView {
        DownloadView {
            dest_name: self.dest_name@,
            dest: self.dest@,
            args: text::texts(self.args@),
            env: outside::text_pairs(self.env@),
        }
    }
}

/// The basename of a repo, or "model" where that names no directory.
pub open spec fn repo_basename(repo: Seq<char>) -> Seq<char> {
    let name = search::after_last(repo, '/');
    if tree::is_entry_name(name) {
        name
    } else {
        "model"@
    }
}

/// The name of the destination: the requested one where that is safe, else the basename of the
/// repo.
pub open spec fn dest_name_of(req: DownloadRequestView) -> Seq<char> {
    match req.dest {
        Some(d) => if names::is_segment(d) {
            d
        } else {
            repo_basename(req.repo)
        },
        None => repo_basename(req.repo),
    }
}

/// The arguments of `hf`.
pub open spec fn hf_args(repo: Seq<char>, file: Option<Seq<char>>, dest: Seq<char>) -> Seq<
    Seq<char>,
> {
    seq!["download"@, repo] + match file {
        Some(f) => seq![f],
        None => Seq::empty(),
    } + seq!["--local-dir"@, dest]
}

/// The variables that are added to the environment of `hf`: the token only where there is one.
pub open spec fn hf_env(jarvis: Seq<char>, token: Option<Seq<char>>) -> Seq<
    (Seq<char>, Seq<char>),
> {
    let always = seq![
        ("HF_HUB_ENABLE_HF_TRANSFER"@, "1"@),
        ("HF_HOME"@, tree::child_path(jarvis, "hf-cache"@)),
    ];
    match token {
        Some(t) => if t.len() > 0 {
            always.push(("HF_TOKEN"@, t))
        } else {
            always
        },
        None => always,
    }
}

/// The download that a request stands for; refused where the repo is blank.
pub open spec fn download_of(jarvis: Seq<char>, req: DownloadRequestView) -> Result<
    DownloadView,
    Seq<char>,
> {
    if text::trimmed(req.repo).len() == 0 {
        Err("empty repo"@)
    } else {
        let dest = tree::child_path(
            tree::child_path(jarvis, "models"@),
            dest_name_of(req),
        );
        Ok(
            DownloadView {
                dest_name: dest_name_of(req),
                dest: dest,
                args: hf_args(req.repo, req.file, dest),
                env: hf_env(jarvis, req.hf_token),
            },
        )
    }
}

fn choose_dest(req: &DownloadRequest) -> (r: String)
    ensures
        r@ == dest_name_of(req@),
{
    if let Some(d) = &req.dest {
        if names::is_safe_segment(d.as_str()) {
            return d.clone();
        }
    }
    let name: String = search::last_piece(req.repo.as_str(), '/');
    proof {
        lemma_after_last(req.repo@, '/');
        reveal_strlit(".");
        reveal_strlit("..");
        assert("."@ =~= seq!['.']);
        assert(".."@ =~= seq!['.', '.']);
    }
    if name.as_str().is_empty() || text::same(name.as_str(), ".") || text::same(
        name.as_str(),
        "..",
    ) {
        "model".to_owned()
    } else {
        name
    }
}

/// The `hf download` that a request stands for.
pub fn spawn_download(cfg: &Config, req: &DownloadRequest) -> (r: Result<Download, String>)
    ensures
        match r {
            Ok(d) => Ok(d@),
            Err(m) => Err(m@),
        } == download_of(cfg.jarvis@, req@),
{
    if text::trim(req.repo.as_str()).as_str().is_empty() {
        return Err("empty repo".to_owned());
    }
    let dest_name: String = choose_dest(req);
    let models: String = cfg.models_dir();
    let dest: String = tree::child(models.as_str(), dest_name.as_str());
    let mut args: Vec<String> = Vec::new();
    args.push("download".to_owned());
    args.push(req.repo.clone());
    if let Some(file) = &req.file {
        args.push(file.clone());
    }
    args.push("--local-dir".to_owned());
    args.push(dest.clone());
    assert(text::texts(args@) =~= hf_args(req@.repo, req@.file, dest@));
    let mut env: Vec<(String, String)> = Vec::new();
    env.push(("HF_HUB_ENABLE_HF_TRANSFER".to_owned(), "1".to_owned()));
    env.push(("HF_HOME".to_owned(), cfg.cache_dir()));
    if let Some(tok) = &req.hf_token {
        if !tok.as_str().is_empty() {
            env.push(("HF_TOKEN".to_owned(), tok.clone()));
        }
    }
    assert(outside::text_pairs(env@) =~= hf_env(cfg.jarvis@, req@.hf_token));
    Ok(Download { dest_name, dest, args, env })
}

proof fn lemma_after_last(s: Seq<char>, c: char)
    ensures
        !search::after_last(s, c).contains(c),
    decreases s.len(),
{
    if s.len() > 0 && s.last() != c {
        lemma_after_last(s.drop_last(), c);
        let before = search::after_last(s.drop_last(), c);
        let after = before.push(s.last());
        if after.contains(c) {
            let i = choose|i: int| 0 <= i < after.len() && after[i] == c;
            assert(i < before.len());
            assert(before[i] == c);
        }
    }
}

/// Every download goes to an entry of models/.
pub proof fn destination_lies_in_models(
    jarvis: Seq<char>,
    req: DownloadRequestView,
    d: DownloadView,
)
    requires
        download_of(jarvis, req) == Ok::<DownloadView, Seq<char>>(d),
    ensures
        paths::parts(encode_utf8(d.dest)) == paths::parts(
            encode_utf8(tree::child_path(jarvis, "models"@)),
        ).push(paths::PartView::Normal(encode_utf8(d.dest_name))),
{
    if let Some(name) = req.dest {
        if name.contains('/') && names::is_segment(name) {
            let i = choose|i: int| 0 <= i < name.len() && name[i] == '/';
            assert(names::is_segment_char(name[i]));
        }
    }
    if let Some(name) = req.dest {
        if names::is_segment(name) && name == seq!['.', '.'] {
            assert(name[0] == '.' && name[1] == '.');
        }
    }
    reveal_strlit("model");
    assert("model"@ =~= seq!['m', 'o', 'd', 'e', 'l']);
    tree::name_stays_in_directory(tree::child_path(jarvis, "models"@), d.dest_name);
}

// ---------------------------------------------------------------------------
// Relaying the progress
// ---------------------------------------------------------------------------

/// How `hf` came to an end.
#[derive(Debug, PartialEq)]
pub enum Exit {
    Success,
    /// Its exit code, `None` where a signal ended it.
    Code(Option<i32>),
    /// It could not be waited for; the error.
    Lost(String),
}

/// The contents of an [`Exit`].
pub enum ExitView {
    Success,
    Code(Option<i32>),
    Lost(Seq<char>),
}

impl View for Exit {
    type V = ExitView;

    open spec fn view(&self) -> ExitView {
        match self {
            Exit::Success => ExitView::Success,
            Exit::Code(c) => ExitView::Code(*c),
            Exit::Lost(m) => ExitView::Lost(m@),
        }
    }
}

/// The first line of the progress.
pub open spec fn opening_line(dest_name: Seq<char>) -> Seq<char> {
    "Downloading "@ + dest_name + " ..."@
}

/// The last line of the progress.
pub open spec fn closing_line(exit: ExitView) -> Seq<char> {
    match exit {
        ExitView::Success => "✅ download complete"@,
        ExitView::Code(c) => "❌ hf exited "@ + numbers::signed_decimal(
            match c {
                Some(n) => n as int,
                None => -1,
            },
        ),
        ExitView::Lost(m) => "❌ "@ + m,
    }
}

/// One of the two outputs of `hf`.
#[derive(Debug, Clone, Copy, PartialEq, Eq, Structural)]
pub enum Pipe {
    Stdout,
    Stderr,
}

/// Where the relaying stands.
#[derive(Debug, Clone, Copy, PartialEq, Eq, Structural)]
pub enum Phase {
    Starting,
    /// The first line is being sent.
    Opening,
    /// A line is being read.
    Reading(Pipe),
    /// A line is being sent.
    Sending(Pipe),
    Waiting,
    /// The last line is being sent.
    Closing,
    Ended,
}

/// What came of the work in a phase.
#[derive(Debug, PartialEq)]
pub enum Event {
    Begun,
    /// Whether a line could be sent.
    Sent(bool),
    /// The line that was read; `None` where there is no further one.
    Line(Option<String>),
    Exited(Exit),
}

/// The contents of an [`Event`].
pub enum EventView {
    Begun,
    Sent(bool),
    Line(Option<Seq<char>>),
    Exited(ExitView),
}

impl View for Event {
    type V = EventView;

    open spec fn view(&self) -> EventView {
        match self {
            Event::Begun => EventView::Begun,
            Event::Sent(ok) => EventView::Sent(*ok),
            Event::Line(l) => EventView::Line(text::opt_text(*l)),
            Event::Exited(e) => EventView::Exited(e@),
        }
    }
}

/// What is to be done next.
#[derive(Debug, PartialEq)]
pub enum Work {
    Send(String),
    Read(Pipe),
    Wait,
    Done,
}

/// The contents of a [`Work`].
pub enum WorkView {
    Send(Seq<char>),
    Read(Pipe),
    Wait,
    Done,
}

impl View for Work {
    type V = WorkView;

    open spec fn view(&self) -> WorkView {
        match self {
            Work::Send(m) => WorkView::Send(m@),
            Work::Read(p) => WorkView::Read(*p),
            Work::Wait => WorkView::Wait,
            Work::Done => WorkView::Done,
        }
    }
}

/// Whether an event can come of the work in a phase.
pub open spec fn fits(phase: Phase, event: EventView) -> bool {
    match phase {
        Phase::Starting => event is Begun,
        Phase::Opening => event is Sent,
        Phase::Reading(_) => event is Line,
        Phase::Sending(_) => event is Sent,
        Phase::Waiting => event is Exited,
        Phase::Closing => event is Sent,
        Phase::Ended => false,
    }
}

/// What follows the last line of an output.
pub open spec fn after_pipe(pipe: Pipe) -> (Phase, WorkView) {
    match pipe {
        Pipe::Stdout => (Phase::Reading(Pipe::Stderr), WorkView::Read(Pipe::Stderr)),
        Pipe::Stderr => (Phase::Waiting, WorkView::Wait),
    }
}

/// The next phase and the work in it. The lines of the two outputs are sent one after the other,
/// and an output is given up when a line of it cannot be sent.
pub open spec fn next_work(dest_name: Seq<char>, phase: Phase, event: EventView) -> (
    Phase,
    WorkView,
) {
    match phase {
        Phase::Starting => (Phase::Opening, WorkView::Send(opening_line(dest_name))),
        Phase::Opening => (Phase::Reading(Pipe::Stdout), WorkView::Read(Pipe::Stdout)),
        Phase::Reading(p) => match event {
            EventView::Line(Some(l)) => (Phase::Sending(p), WorkView::Send(l)),
            _ => after_pipe(p),
        },
        Phase::Sending(p) => match event {
            EventView::Sent(true) => (Phase::Reading(p), WorkView::Read(p)),
            _ => after_pipe(p),
        },
        Phase::Waiting => match event {
            EventView::Exited(e) => (Phase::Closing, WorkView::Send(closing_line(e))),
            _ => (Phase::Ended, WorkView::Done),
        },
        Phase::Closing => (Phase::Ended, WorkView::Done),
        Phase::Ended => (Phase::Ended, WorkView::Done),
    }
}

fn leave_pipe(pipe: Pipe) -> (r: (Phase, Work))
    ensures
        (r.0, r.1@) == after_pipe(pipe),
{
    match pipe {
        Pipe::Stdout => (Phase::Reading(Pipe::Stderr), Work::Read(Pipe::Stderr)),
        Pipe::Stderr => (Phase::Waiting, Work::Wait),
    }
}

fn closing(exit: &Exit) -> (r: String)
    ensures
        r@ == closing_line(exit@),
{
    match exit {
        Exit::Success => "✅ download complete".to_owned(),
        Exit::Code(c) => {
            let code: i32 = match c {
                Some(n) => *n,
                None => -1,
            };
            let mut m: String = "❌ hf exited ".to_owned();
            m.append(numbers::signed_decimal_of(code).as_str());
            m
        },
        Exit::Lost(e) => {
            let mut m: String = "❌ ".to_owned();
            m.append(e.as_str());
            m
        },
    }
}

/// The next phase of the relaying and the work in it, from a phase and what came of the work in
/// that.
pub fn relay(dest_name: &str, phase: Phase, event: Event) -> (r: (Phase, Work))
    requires
        fits(phase, event@),
    ensures
        (r.0, r.1@) == next_work(dest_name@, phase, event@),
{
    match phase {
        Phase::Starting => {
            let mut m: String = "Downloading ".to_owned();
            m.append(dest_name);
            m.append(" ...");
            (Phase::Opening, Work::Send(m))
        },
        Phase::Opening => (Phase::Reading(Pipe::Stdout), Work::Read(Pipe::Stdout)),
        Phase::Reading(p) => match event {
            Event::Line(Some(l)) => (Phase::Sending(p), Work::Send(l)),
            _ => leave_pipe(p),
        },
        Phase::Sending(p) => match event {
            Event::Sent(true) => (Phase::Reading(p), Work::Read(p)),
            _ => leave_pipe(p),
        },
        Phase::Waiting => match event {
            Event::Exited(e) => (Phase::Closing, Work::Send(closing(&e))),
            _ => (Phase::Ended, Work::Done),
        },
        Phase::Closing => (Phase::Ended, Work::Done),
        Phase::Ended => (Phase::Ended, Work::Done),
    }
}

/// How far a phase is from the end, the lines that are still to be read aside.
pub open spec fn rank(phase: Phase, event: EventView) -> nat {
    match phase {
        Phase::Starting => 9,
        Phase::Opening => 8,
        Phase::Reading(Pipe::Stdout) => if event == EventView::Line(None) {
            6
        } else {
            8
        },
        Phase::Sending(Pipe::Stdout) => 7,
        Phase::Reading(Pipe::Stderr) => if event == EventView::Line(None) {
            3
        } else {
            5
        },
        Phase::Sending(Pipe::Stderr) => 4,
        Phase::Waiting => 2,
        Phase::Closing => 1,
        Phase::Ended => 0,
    }
}

/// All that is sent from a phase and an event on, where the outputs still hold these lines, the
/// receiver stays, and `hf` ends that way.
pub open spec fn sent(
    dest_name: Seq<char>,
    phase: Phase,
    event: EventView,
    out: Seq<Seq<char>>,
    err: Seq<Seq<char>>,
    exit: ExitView,
) -> Seq<Seq<char>>
    decreases 4 * (out.len() + err.len()) + rank(phase, event),
{
    let (then, work) = next_work(dest_name, phase, event);
    match work {
        WorkView::Send(m) => seq![m] + sent(
            dest_name,
            then,
            EventView::Sent(true),
            out,
            err,
            exit,
        ),
        WorkView::Read(Pipe::Stdout) => if out.len() == 0 {
            sent(dest_name, then, EventView::Line(None), out, err, exit)
        } else {
            sent(dest_name, then, EventView::Line(Some(out[0])), out.skip(1), err, exit)
        },
        WorkView::Read(Pipe::Stderr) => if err.len() == 0 {
            sent(dest_name, then, EventView::Line(None), out, err, exit)
        } else {
            sent(dest_name, then, EventView::Line(Some(err[0])), out, err.skip(1), exit)
        },
        WorkView::Wait => sent(dest_name, then, EventView::Exited(exit), out, err, exit),
        WorkView::Done => Seq::empty(),
    }
}

/// What is sent while an output is read: its remaining lines, then what follows the output.
proof fn lemma_pipe(
    dest_name: Seq<char>,
    pipe: Pipe,
    out: Seq<Seq<char>>,
    err: Seq<Seq<char>>,
    exit: ExitView,
)
    ensures
        sent(dest_name, Phase::Sending(pipe), EventView::Sent(true), out, err, exit) == match pipe {
            Pipe::Stdout => out + err.push(closing_line(exit)),
            Pipe::Stderr => err.push(closing_line(exit)),
        },
        pipe is Stderr ==> sent(
            dest_name,
            Phase::Reading(Pipe::Stdout),
            EventView::Line(None),
            out,
            err,
            exit,
        ) == err.push(closing_line(exit)),
    decreases (if pipe is Stdout { 1int } else { 0int }), out.len() + err.len(),
{
    reveal_with_fuel(sent, 6);
    let end = closing_line(exit);
    match pipe {
        Pipe::Stdout => {
            if out.len() == 0 {
                lemma_pipe(dest_name, Pipe::Stderr, out, err, exit);
                assert(out + err.push(end) =~= err.push(end));
            } else {
                lemma_pipe(dest_name, Pipe::Stdout, out.skip(1), err, exit);
                assert(seq![out[0]] + (out.skip(1) + err.push(end)) =~= out + err.push(end));
            }
        },
        Pipe::Stderr => {
            if err.len() == 0 {
                assert(seq![end] + Seq::<Seq<char>>::empty() =~= err.push(end));
            } else {
                lemma_pipe(dest_name, Pipe::Stderr, out, err.skip(1), exit);
                assert(seq![err[0]] + err.skip(1).push(end) =~= err.push(end));
            }
        },
    }
}

/// While the receiver stays, it gets the opening line, each line of the standard output, each
/// line of the standard error, and the line that tells how the download ended, in that order.
pub proof fn progress_is_relayed_in_order(
    dest_name: Seq<char>,
    out: Seq<Seq<char>>,
    err: Seq<Seq<char>>,
    exit: ExitView,
)
    ensures
        sent(dest_name, Phase::Starting, EventView::Begun, out, err, exit) == seq![
            opening_line(dest_name),
        ] + out + err + seq![closing_line(exit)],
{
    reveal_with_fuel(sent, 3);
    let end = closing_line(exit);
    let first = opening_line(dest_name);
    let rest = sent(dest_name, Phase::Opening, EventView::Sent(true), out, err, exit);
    lemma_pipe(dest_name, Pipe::Stdout, out, err, exit);
    assert(rest == sent(
        dest_name,
        Phase::Sending(Pipe::Stdout),
        EventView::Sent(true),
        out,
        err,
        exit,
    ));
    assert(seq![first] + (out + err.push(end)) =~= seq![first] + out + err + seq![end]);
}

// ---------------------------------------------------------------------------
// Reading the progress
// ---------------------------------------------------------------------------

/// The log entry that a line of the event stream gives: the data of the line, where it has any.
pub open spec fn entry_of(line: Seq<char>) -> Option<Seq<char>> {
    match search::after_prefix(line, "data:"@) {
        Some(d) => if text::trimmed(d).len() > 0 {
            Some("[hf] "@ + text::trimmed(d))
        } else {
            None
        },
        None => None,
    }
}

/// The log entries that the lines give, in order.
pub open spec fn entries_of(lines: Seq<Seq<char>>) -> Seq<Seq<char>>
    decreases lines.len(),
{
    if lines.len() == 0 {
        Seq::empty()
    } else {
        match entry_of(lines.last()) {
            Some(e) => entries_of(lines.drop_last()).push(e),
            None => entries_of(lines.drop_last()),
        }
    }
}

/// The log entries of the lines that a text completes.
pub open spec fn completed(s: Seq<char>) -> Seq<Seq<char>> {
    entries_of(search::split(s, seq!['\n']).drop_last())
}

/// What follows the last newline of a text.
pub open spec fn left_over(s: Seq<char>) -> Seq<char> {
    search::split(s, seq!['\n']).last()
}

/// The part of an event stream that has come in and holds no complete line yet.
#[derive(Debug, PartialEq)]
pub struct StreamBuffer {
    pub pending: String,
}

fn entry(line: &str) -> (r: Option<String>)
    ensures
        text::opt_text(r) == entry_of(line@),
{
    match search::strip_prefix(line, "data:") {
        Some(d) => {
            let t: String = text::trim(d.as_str());
            if t.as_str().is_empty() {
                None
            } else {
                let mut e: String = "[hf] ".to_owned();
                e.append(t.as_str());
                Some(e)
            }
        },
        None => None,
    }
}

impl StreamBuffer {
    pub fn new() -> (r: StreamBuffer)
        ensures
            r.pending@ == Seq::<char>::empty(),
    {
        StreamBuffer { pending: String::new() }
    }

    /// Takes in more of the stream, and hands back the log entries of the lines that are now
    /// complete.
    pub fn take_in(&mut self, more: &str) -> (r: Vec<String>)
        ensures
            text::texts(r@) == completed(old(self).pending@ + more@),
            final(self).pending@ == left_over(old(self).pending@ + more@),
    {
        let mut all: String = self.pending.clone();
        all.append(more);
        let pieces: Vec<String> = search::split_at_char(all.as_str(), '\n');
        let ghost p = text::texts(pieces@);
        proof {
            search::lemma_split_pieces(all@, seq!['\n']);
        }
        let n: usize = pieces.len();
        let ghost done = p.drop_last();
        let mut out: Vec<String> = Vec::new();
        assert(text::texts(out@) =~= entries_of(done.take(0)));
        for i in 0..n - 1
            invariant
                n == pieces@.len(),
                n >= 1,
                p == text::texts(pieces@),
                done == p.drop_last(),
                text::texts(out@) == entries_of(done.take(i as int)),
        {
            let ghost before = text::texts(out@);
            assert(done.take(i + 1).drop_last() =~= done.take(i as int));
            assert(done[i as int] == pieces@[i as int]@);
            if let Some(e) = entry(pieces[i].as_str()) {
                let ghost shown = e@;
                out.push(e);
                assert(text::texts(out@) =~= before.push(shown));
            }
        }
        assert(done.take(done.len() as int) =~= done);
        self.pending = pieces[n - 1].clone();
        assert(p.last() == pieces@[n - 1]@);
        out
    }

    /// Takes in the bytes of a chunk, each chunk read as text on its own.
    pub fn take_in_bytes(&mut self, chunk: &[u8]) -> (r: Vec<String>)
        ensures
            text::texts(r@) == completed(old(self).pending@ + outside::utf8_lossy(chunk@)),
            final(self).pending@ == left_over(old(self).pending@ + outside::utf8_lossy(chunk@)),
    {
        let more: String = outside::from_utf8_lossy(chunk);
        self.take_in(more.as_str())
    }
}

proof fn lemma_entries_concat(a: Seq<Seq<char>>, b: Seq<Seq<char>>)
    ensures
        entries_of(a + b) == entries_of(a) + entries_of(b),
    decreases b.len(),
{
    if b.len() == 0 {
        assert(a + b =~= a);
        assert(entries_of(a) + entries_of(b) =~= entries_of(a));
    } else {
        lemma_entries_concat(a, b.drop_last());
        assert((a + b).drop_last() =~= a + b.drop_last());
        assert(entries_of(a + b) =~= entries_of(a) + entries_of(b));
    }
}

/// Where a text comes in does not matter: taking in two texts one after the other gives the same
/// log entries, and leaves the same over, as taking in both at once.
pub proof fn chunks_do_not_matter(first: Seq<char>, second: Seq<char>)
    ensures
        completed(first + second) == completed(first) + completed(left_over(first) + second),
        left_over(first + second) == left_over(left_over(first) + second),
{
    let sep = seq!['\n'];
    search::lemma_split_concat(first, second, sep);
    search::lemma_split_pieces(left_over(first) + second, sep);
    let a = search::split(first, sep).drop_last();
    let b = search::split(left_over(first) + second, sep);
    assert((a + b).drop_last() =~= a + b.drop_last());
    lemma_entries_concat(a, b.drop_last());
}

// ---------------------------------------------------------------------------
// What the hub logs of a download
// ---------------------------------------------------------------------------

fn with_repo(front: &str, repo: &str) -> (r: String)
    ensures
        r@ == front@ + repo@,
{
    let mut m: String = front.to_owned();
    m.append(repo);
    m
}

/// The entry with which a download is announced.
pub fn starting_entry(repo: &str) -> (r: String)
    ensures
        r@ == "Starting download: "@ + repo@,
{
    with_repo("Starting download: ", repo)
}

/// The entry for a download that the agent could not be asked for.
pub fn failed_entry(repo: &str, error: &str) -> (r: String)
    ensures
        r@ == "download "@ + repo@ + ": "@ + error@,
{
    let mut m: String = with_repo("download ", repo);
    m.append(": ");
    m.append(error);
    m
}

/// The entry for the end of the event stream.
pub fn ended_entry(repo: &str) -> (r: String)
    ensures
        r@ == "Download stream ended: "@ + repo@,
{
    with_repo("Download stream ended: ", repo)
}

// ---------------------------------------------------------------------------
// What a download is for
// ---------------------------------------------------------------------------

/// A download goes where it was asked to go: a request whose destination is a safe name gets that
/// entry of models/, whatever else it asks for.
pub proof fn requested_destination_is_used(
    jarvis: Seq<char>,
    req: DownloadRequestView,
    dest: Seq<char>,
    d: DownloadView,
)
    requires
        jarvis.len() > 0,
        jarvis.last() != '/',
        req.dest == Some(dest),
        names::is_segment(dest),
        download_of(jarvis, req) == Ok::<DownloadView, Seq<char>>(d),
    ensures
        d.dest_name == dest,
        d.dest == jarvis + "/models/"@ + dest,
{
    lemma_model_path(jarvis, dest);
    names::segment_is_one_component(dest);
}

/// The path of an entry of models/.
proof fn lemma_model_path(jarvis: Seq<char>, name: Seq<char>)
    requires
        jarvis.len() > 0,
        jarvis.last() != '/',
    ensures
        name.len() > 0 && name[0] != '/' ==> tree::child_path(
            tree::child_path(jarvis, "models"@),
            name,
        ) == jarvis + "/models/"@ + name,
        names::is_segment(name) ==> name.len() > 0 && name[0] != '/',
{
    reveal_strlit("models");
    reveal_strlit("/models/");
    tree::child_stands_behind_one_slash(jarvis, "models"@);
    let models = tree::child_path(jarvis, "models"@);
    assert(models =~= jarvis + seq!['/'] + "models"@);
    assert(models.last() == 's');
    if name.len() > 0 {
        tree::child_stands_behind_one_slash(models, name);
        if name[0] != '/' {
            assert(tree::child_path(models, name) =~= jarvis + "/models/"@ + name);
        }
    }
    if names::is_segment(name) {
        names::segment_is_one_component(name);
        if name[0] == '/' {
            assert(name.contains('/'));
        }
    }
}

/// Where no safe destination is asked for, a download goes to the entry of models/ that is named
/// like the last part of the repo.
pub proof fn repo_names_the_destination(
    jarvis: Seq<char>,
    req: DownloadRequestView,
    owner: Seq<char>,
    name: Seq<char>,
    d: DownloadView,
)
    requires
        jarvis.len() > 0,
        jarvis.last() != '/',
        req.dest matches Some(x) ==> !names::is_segment(x),
        req.repo == owner + seq!['/'] + name || req.repo == name,
        !name.contains('/'),
        name.len() > 0,
        name != seq!['.'],
        name != seq!['.', '.'],
        download_of(jarvis, req) == Ok::<DownloadView, Seq<char>>(d),
    ensures
        d.dest_name == name,
        d.dest == jarvis + "/models/"@ + name,
{
    search::last_piece_stands_behind_the_last(owner, '/', name);
    assert(owner.push('/') + name =~= owner + seq!['/'] + name);
    if name[0] == '/' {
        assert(name.contains('/'));
    }
    lemma_model_path(jarvis, name);
}

/// Where a download goes depends on the repo and on the destination alone: neither the file that is
/// asked for nor the token changes it.
pub proof fn destination_depends_on_repo_and_dest_alone(
    jarvis: Seq<char>,
    a: DownloadRequestView,
    b: DownloadRequestView,
)
    requires
        a.repo == b.repo,
        a.dest == b.dest,
    ensures
        download_of(jarvis, a) is Ok <==> download_of(jarvis, b) is Ok,
        download_of(jarvis, a) matches Ok(x) ==> (download_of(jarvis, b) matches Ok(y) && x.dest
            == y.dest && x.dest_name == y.dest_name),
        a.file == b.file ==> (download_of(jarvis, a) matches Ok(x) ==> (download_of(
            jarvis,
            b,
        ) matches Ok(y) && x.args == y.args)),
{
}

/// What `hf` is run with: the repo, the one file where the request names one, and the destination;
/// its cache lies in the tree, and the token goes along exactly where the request has one that is
/// not empty. A repo of white space alone is refused, and no other.
pub proof fn hf_gets_what_was_asked_for(
    jarvis: Seq<char>,
    req: DownloadRequestView,
)
    requires
        jarvis.len() > 0,
        jarvis.last() != '/',
    ensures
        download_of(jarvis, req) is Err <==> text::trimmed(req.repo).len() == 0,
        download_of(jarvis, req) matches Err(m) ==> m == "empty repo"@,
        download_of(jarvis, req) matches Ok(d) ==> {
            &&& req.file matches Some(f) ==> d.args == seq![
                "download"@,
                req.repo,
                f,
                "--local-dir"@,
                d.dest,
            ]
            &&& req.file is None ==> d.args == seq!["download"@, req.repo, "--local-dir"@, d.dest]
            &&& d.env.contains(("HF_HUB_ENABLE_HF_TRANSFER"@, "1"@))
            &&& d.env.contains(("HF_HOME"@, jarvis + "/hf-cache"@))
            &&& req.hf_token matches Some(t) ==> (t.len() > 0 ==> d.env.len() == 3
                && d.env.contains(("HF_TOKEN"@, t)))
            &&& !(req.hf_token matches Some(t) && t.len() > 0) ==> d.env.len() == 2
        },
{
    reveal_strlit("hf-cache");
    reveal_strlit("/hf-cache");
    tree::child_stands_behind_one_slash(jarvis, "hf-cache"@);
    assert(tree::child_path(jarvis, "hf-cache"@) =~= jarvis + "/hf-cache"@);
    if let Ok(d) = download_of(jarvis, req) {
        match req.file {
            Some(f) => {
                assert(d.args =~= seq!["download"@, req.repo, f, "--local-dir"@, d.dest]);
            },
            None => {
                assert(d.args =~= seq!["download"@, req.repo, "--local-dir"@, d.dest]);
            },
        }
        assert(d.env[0] == ("HF_HUB_ENABLE_HF_TRANSFER"@, "1"@));
        assert(d.env[1] == ("HF_HOME"@, jarvis + "/hf-cache"@));
        if let Some(t) = req.hf_token {
            if t.len() > 0 {
                assert(d.env[2] == ("HF_TOKEN"@, t));
            }
        }
    }
}

/// The first line of the progress names the destination, and the last one tells how `hf` ended: a
/// success, the code of a failure, or why it could not be waited for.
pub proof fn first_and_last_line(dest_name: Seq<char>, code: i32, why: Seq<char>)
    ensures
        opening_line(dest_name) == "Downloading "@ + dest_name + " ..."@,
        closing_line(ExitView::Success) == "✅ download complete"@,
        code >= 0 ==> closing_line(ExitView::Code(Some(code))) == "❌ hf exited "@ + numbers::decimal(
            code as nat,
        ),
        code < 0 ==> closing_line(ExitView::Code(Some(code))) == "❌ hf exited "@ + seq!['-']
            + numbers::decimal((-code) as nat),
        closing_line(ExitView::Code(None)) == "❌ hf exited "@ + seq!['-', '1'],
        closing_line(ExitView::Lost(why)) == "❌ "@ + why,
{
    assert(numbers::decimal(1) =~= seq!['1']);
    assert(numbers::signed_decimal(-1) =~= seq!['-', '1']);
    if code < 0 {
        assert("❌ hf exited "@ + (seq!['-'] + numbers::decimal((-code) as nat))
            =~= "❌ hf exited "@ + seq!['-'] + numbers::decimal((-code) as nat));
    }
}

/// When the receiver is gone, no further line of that output is read, but `hf` is waited for all
/// the same and its end is told.
pub proof fn end_is_told_even_without_a_receiver(dest_name: Seq<char>, exit: ExitView)
    ensures
        next_work(dest_name, Phase::Opening, EventView::Sent(false)).1 == WorkView::Read(
            Pipe::Stdout,
        ),
        next_work(dest_name, Phase::Sending(Pipe::Stdout), EventView::Sent(false))
            == next_work(dest_name, Phase::Reading(Pipe::Stdout), EventView::Line(None)),
        next_work(dest_name, Phase::Sending(Pipe::Stdout), EventView::Sent(false)).1
            == WorkView::Read(Pipe::Stderr),
        next_work(dest_name, Phase::Sending(Pipe::Stderr), EventView::Sent(false)).1
            == WorkView::Wait,
        next_work(dest_name, Phase::Reading(Pipe::Stderr), EventView::Line(None)).1
            == WorkView::Wait,
        next_work(dest_name, Phase::Waiting, EventView::Exited(exit)).1 == WorkView::Send(
            closing_line(exit),
        ),
{
}

/// A line of the event stream that starts with `data:` gives one log entry, its data without the
/// white space around it behind the mark `[hf] `; a line of another kind, or one without data, gives
/// none. What has no line break yet waits.
pub proof fn data_lines_are_logged(data: Seq<char>, line: Seq<char>)
    requires
        !data.contains('\n'),
        !line.contains('\n'),
        !search::has_prefix(line, "data:"@),
    ensures
        text::trimmed(data).len() > 0 ==> completed(("data:"@ + data).push('\n')) == seq![
            "[hf] "@ + text::trimmed(data),
        ],
        text::trimmed(data).len() == 0 ==> completed(("data:"@ + data).push('\n')).len() == 0,
        left_over(("data:"@ + data).push('\n')).len() == 0,
        completed(line.push('\n')).len() == 0,
        completed(line).len() == 0,
        left_over(line) == line,
{
    reveal_strlit("data:");
    let full = "data:"@ + data;
    assert(!full.contains('\n')) by {
        if full.contains('\n') {
            let i = choose|i: int| 0 <= i < full.len() && full[i] == '\n';
            assert(data[i - 5] == '\n');
        }
    }
    lemma_one_line(full);
    lemma_one_line(line);
    search::parts_of_a_text(full, "data:"@, data);
}

proof fn lemma_one_line(s: Seq<char>)
    requires
        !s.contains('\n'),
    ensures
        completed(s.push('\n')) == match entry_of(s) {
            Some(e) => seq![e],
            None => Seq::empty(),
        },
        left_over(s.push('\n')).len() == 0,
        completed(s).len() == 0,
        left_over(s) == s,
{
    let sep = seq!['\n'];
    let one = seq![s];
    search::splitting_undoes_joining(one, '\n');
    assert(search::joined(one, sep) == s);
    assert(sep[0] == '\n');
    assert(s.push('\n').drop_last() =~= s);
    let two = one.push(Seq::<char>::empty());
    assert(search::split(s.push('\n'), sep) == two);
    assert(two.drop_last() =~= one);
    assert(one.drop_last() =~= Seq::<Seq<char>>::empty());
    assert(entries_of(Seq::<Seq<char>>::empty()) =~= Seq::<Seq<char>>::empty());
    assert(entries_of(one) =~= match entry_of(s) {
        Some(e) => seq![e],
        None => Seq::empty(),
    });
}

}
