//! The hub's side of the agents' HTTP interface: addresses, requests, and what replies come to.

use crate::numbers;
use crate::outside;
use crate::text;
use vstd::prelude::*;
use vstd::string::*;
use vstd::utf8::*;

verus! {

// ---------------------------------------------------------------------------
// Addresses
// ---------------------------------------------------------------------------

/// The bearer secret: the variable where it is set, else the value the hub was built with.
pub fn secret(var: Option<String>, built_in: Option<String>) -> (r: String)
    ensures
        r@ == match (var, built_in) {
            (Some(s), _) => s@,
            (None, Some(s)) => s@,
            (None, None) => Seq::empty(),
        },
{
    match var {
        Some(s) => s,
        None => match built_in {
            Some(s) => s,
            None => String::new(),
        },
    }
}

/// The address of a path below a base, with one slash between the two.
pub open spec fn address(base: Seq<char>, path: Seq<char>) -> Seq<char> {
    text::drop_back(base, text::only('/')) + "/"@ + text::drop_front(path, text::only('/'))
}

/// The address of a path below a base.
pub fn url(base: &str, path: &str) -> (r: String)
    ensures
        r@ == address(base@, path@),
{
    let b: Vec<char> = text::chars_of(base);
    let p: Vec<char> = text::chars_of(path);
    let mut out: String = text::string_of(text::drop_back_char(b.as_slice(), '/'));
    out.append("/");
    out.append(text::string_of(text::drop_front_char(p.as_slice(), '/')).as_str());
    out
}

/// Slashes at the end of a base or at the start of a path change nothing.
pub proof fn slashes_do_not_matter(base: Seq<char>, path: Seq<char>)
    ensures
        address(base.push('/'), path) == address(base, path),
        address(base, seq!['/'] + path) == address(base, path),
{
    assert(base.push('/').drop_last() =~= base);
    assert((seq!['/'] + path).skip(1) =~= path);
    assert((seq!['/'] + path).drop_first() =~= path);
}

// ---------------------------------------------------------------------------
// Encoding
// ---------------------------------------------------------------------------

/// The bytes that stand for themselves in a query.
pub open spec fn is_plain(b: u8) -> bool {
    ||| 65 <= b <= 90
    ||| 97 <= b <= 122
    ||| 48 <= b <= 57
    ||| b == 45
    ||| b == 95
    ||| b == 46
    ||| b == 126
    ||| b == 47
}

/// The upper-case hexadecimal digit of a value below sixteen.
pub open spec fn hex_char(n: int) -> char {
    if n < 10 {
        (n + 48) as u8 as char
    } else {
        (n + 55) as u8 as char
    }
}

/// The form of one byte: itself, or a percent sign and two hexadecimal digits.
pub open spec fn encoded_byte(b: u8) -> Seq<char> {
    if is_plain(b) {
        seq![b as char]
    } else {
        seq!['%', hex_char(b as int / 16), hex_char(b as int % 16)]
    }
}

/// The percent-encoded form of bytes.
pub open spec fn encoded(b: Seq<u8>) -> Seq<char>
    decreases b.len(),
{
    if b.len() == 0 {
        Seq::empty()
    } else {
        encoded(b.drop_last()) + encoded_byte(b.last())
    }
}

fn hex(n: u8) -> (r: char)
    requires
        n < 16,
    ensures
        r == hex_char(n as int),
{
    if n < 10 {
        (n + 48) as char
    } else {
        (n + 55) as char
    }
}

fn plain(b: u8) -> (r: bool)
    ensures
        r == is_plain(b),
{
    (65 <= b && b <= 90) || (97 <= b && b <= 122) || (48 <= b && b <= 57) || b == 45 || b == 95 || b
        == 46 || b == 126 || b == 47
}

/// The percent-encoded form of the bytes of a text.
pub fn urlencode(s: &str) -> (r: String)
    ensures
        r@ == encoded(encode_utf8(s@)),
{
    let bytes: &[u8] = s.as_bytes();
    let n: usize = bytes.len();
    let mut out: String = String::new();
    assert(out@ =~= encoded(bytes@.take(0)));
    for i in 0..n
        invariant
            n == bytes@.len(),
            out@ == encoded(bytes@.take(i as int)),
    {
        assert(bytes@.take(i + 1).drop_last() =~= bytes@.take(i as int));
        let ghost before = out@;
        let b: u8 = bytes[i];
        if plain(b) {
            out.push(b as char);
            assert(out@ =~= before + encoded_byte(b));
        } else {
            out.push('%');
            out.push(hex(b / 16));
            out.push(hex(b % 16));
            assert(out@ =~= before + encoded_byte(b));
        }
    }
    assert(bytes@.take(n as int) =~= bytes@);
    out
}

/// The value of a hexadecimal digit.
pub open spec fn hex_value(c: char) -> int {
    if '0' <= c <= '9' {
        c as int - 48
    } else {
        c as int - 55
    }
}

/// The bytes that a percent-encoded text stands for.
pub open spec fn decoded(s: Seq<char>) -> Seq<u8>
    decreases s.len(),
{
    if s.len() == 0 {
        Seq::empty()
    } else if s[0] == '%' && s.len() >= 3 {
        seq![(hex_value(s[1]) * 16 + hex_value(s[2])) as u8] + decoded(s.skip(3))
    } else {
        seq![s[0] as u8] + decoded(s.skip(1))
    }
}

proof fn lemma_encoded_front(b: Seq<u8>)
    requires
        b.len() > 0,
    ensures
        encoded(b) == encoded_byte(b[0]) + encoded(b.skip(1)),
    decreases b.len(),
{
    let last = encoded_byte(b.last());
    if b.len() == 1 {
        assert(b.drop_last() =~= Seq::<u8>::empty());
        assert(b.skip(1) =~= Seq::<u8>::empty());
        assert(encoded(b) =~= encoded_byte(b[0]) + encoded(b.skip(1)));
    } else {
        lemma_encoded_front(b.drop_last());
        assert(b.drop_last().skip(1) =~= b.skip(1).drop_last());
        assert(b.skip(1).last() == b.last());
        let mid = encoded(b.skip(1).drop_last());
        assert(encoded_byte(b[0]) + mid + last =~= encoded_byte(b[0]) + (mid + last));
    }
}

/// What was percent-encoded decodes to the bytes it came from.
pub proof fn encoding_can_be_undone(b: Seq<u8>)
    ensures
        decoded(encoded(b)) == b,
    decreases b.len(),
{
    if b.len() > 0 {
        lemma_encoded_front(b);
        encoding_can_be_undone(b.skip(1));
        let e = encoded(b);
        let first = encoded_byte(b[0]);
        let rest = encoded(b.skip(1));
        assert(e[0] == first[0]);
        if is_plain(b[0]) {
            assert(e.skip(1) =~= rest);
            assert(e[0] == b[0] as char);
            assert(e[0] as u8 == b[0]);
        } else {
            assert(e.skip(3) =~= rest);
            assert(e[1] == first[1] && e[2] == first[2]);
            let hi = b[0] as int / 16;
            let lo = b[0] as int % 16;
            assert(hex_value(hex_char(hi)) == hi);
            assert(hex_value(hex_char(lo)) == lo);
            assert(hi * 16 + lo == b[0]);
        }
        assert(seq![b[0]] + b.skip(1) =~= b);
    }
}

/// A percent-encoded text holds no character that means anything in a query: only letters,
/// digits, `-`, `_`, `.`, `~`, `/` and percent signs.
pub proof fn encoded_text_is_plain(b: Seq<u8>)
    ensures
        forall|i: int|
            0 <= i < encoded(b).len() ==> (#[trigger] encoded(b)[i] == '%' || (encoded(b)[i] as int
                <= 126 && is_plain(encoded(b)[i] as u8))),
    decreases b.len(),
{
    if b.len() > 0 {
        encoded_text_is_plain(b.drop_last());
        let front = encoded(b.drop_last());
        let last = encoded_byte(b.last());
        assert forall|i: int| 0 <= i < encoded(b).len() implies (#[trigger] encoded(b)[i] == '%'
            || (encoded(b)[i] as int <= 126 && is_plain(encoded(b)[i] as u8))) by {
            if i < front.len() {
                assert(encoded(b)[i] == front[i]);
            } else {
                assert(encoded(b)[i] == last[i - front.len()]);
            }
        }
    }
}

// ---------------------------------------------------------------------------
// Requests
// ---------------------------------------------------------------------------

/// How long a request may take, in seconds.
pub const TIMEOUT: u64 = 180;

#[derive(Debug, Clone, Copy, PartialEq, Eq, Structural)]
pub enum Method {
    Get,
    Post,
    Put,
}

/// What a request carries.
#[derive(Debug, PartialEq)]
pub enum Body {
    Nothing,
    /// An object with these members, `None` standing for null.
    Members(Vec<(String, Option<String>)>),
    /// The record that the request is about.
    Record,
}

/// The contents of a [`Body`].
pub enum BodyView {
    Nothing,
    Members(Seq<(Seq<char>, Option<Seq<char>>)>),
    Record,
}

/// The contents of a list of members.
pub open spec fn member_views(v: Seq<(String, Option<String>)>) -> Seq<
    (Seq<char>, Option<Seq<char>>),
> {
    v.map_values(|m: (String, Option<String>)| (m.0@, text::opt_text(m.1)))
}

impl View for Body {
    type V = BodyView;

    open spec fn view(&self) -> BodyView {
        match self {
            Body::Nothing => BodyView::Nothing,
            Body::Members(m) => BodyView::Members(member_views(m@)),
            Body::Record => BodyView::Record,
        }
    }
}

/// A request to an agent; `path` is its path below the agent's address.
#[derive(Debug, PartialEq)]
pub struct Request {
    pub method: Method,
    pub path: String,
    pub body: Body,
}

/// The contents of a [`Request`].
#[verifier::ext_equal]
pub struct RequestView {
    pub method: Method,
    pub path: Seq<char>,
    pub body: BodyView,
}

impl View for Request {
    type V = RequestView;

    open spec fn view(&self) -> RequestView {
        RequestView { method: self.method, path: self.path@, body: self.body@ }
    }
}

/// A request that reads something.
pub open spec fn reading(path: Seq<char>) -> RequestView {
    RequestView { method: Method::Get, path: path, body: BodyView::Nothing }
}

/// A request that posts an object.
pub open spec fn posting(
    path: Seq<char>,
    members: Seq<(Seq<char>, Option<Seq<char>>)>,
) -> RequestView {
    RequestView { method: Method::Post, path: path, body: BodyView::Members(members) }
}

fn get(path: &str) -> (r: Request)
    ensures
        r@ == reading(path@),
{
    Request { method: Method::Get, path: path.to_owned(), body: Body::Nothing }
}

fn post_member(path: &str, key: &str, value: &str) -> (r: Request)
    ensures
        r@ == posting(path@, seq![(key@, Some(value@))]),
{
    let mut m: Vec<(String, Option<String>)> = Vec::new();
    m.push((key.to_owned(), Some(value.to_owned())));
    assert(member_views(m@) =~= seq![(key@, Some(value@))]);
    Request { method: Method::Post, path: path.to_owned(), body: Body::Members(m) }
}

/// Asks for the snapshot of the VM.
pub fn info() -> (r: Request)
    ensures
        r@ == reading("info"@),
{
    get("info")
}

/// Asks for the GPUs.
pub fn gpu() -> (r: Request)
    ensures
        r@ == reading("gpu"@),
{
    get("gpu")
}

/// Asks for the containers.
pub fn containers() -> (r: Request)
    ensures
        r@ == reading("containers"@),
{
    get("containers")
}

/// Asks for the compose projects.
pub fn compose_projects() -> (r: Request)
    ensures
        r@ == reading("compose"@),
{
    get("compose")
}

/// Asks for the models.
pub fn models() -> (r: Request)
    ensures
        r@ == reading("models"@),
{
    get("models")
}

/// Asks for a file.
pub fn read_file(path: &str) -> (r: Request)
    ensures
        r@ == reading("file?path="@ + encoded(encode_utf8(path@))),
{
    let mut p: String = "file?path=".to_owned();
    p.append(urlencode(path).as_str());
    get(p.as_str())
}

/// Asks for the last `tail` log lines of a container.
pub fn logs(container: &str, tail: u32) -> (r: Request)
    ensures
        r@ == reading(
            "logs?container="@ + encoded(encode_utf8(container@)) + "&tail="@ + numbers::decimal(
                tail as nat,
            ),
        ),
{
    let mut p: String = "logs?container=".to_owned();
    p.append(urlencode(container).as_str());
    p.append("&tail=");
    p.append(numbers::decimal_of(tail as u64).as_str());
    get(p.as_str())
}

/// Asks for a file to be written; the payload goes along.
pub fn write_file() -> (r: Request)
    ensures
        r@ == (RequestView { method: Method::Put, path: "file"@, body: BodyView::Record }),
{
    Request { method: Method::Put, path: "file".to_owned(), body: Body::Record }
}

/// Asks for a container to be restarted.
pub fn restart(container: &str) -> (r: Request)
    ensures
        r@ == posting("compose/restart"@, seq![("container"@, Some(container@))]),
{
    post_member("compose/restart", "container", container)
}

/// Asks for a compose file to be brought up, under a project where one is named.
pub fn compose_up(file: &str, project: Option<&str>) -> (r: Request)
    ensures
        r@ == posting(
            "compose/up"@,
            seq![
                ("file"@, Some(file@)),
                ("project"@, text::opt_str(project)),
            ],
        ),
{
    let named: Option<String> = match project {
        Some(p) => Some(p.to_owned()),
        None => None,
    };
    let mut m: Vec<(String, Option<String>)> = Vec::new();
    m.push(("file".to_owned(), Some(file.to_owned())));
    m.push(("project".to_owned(), named));
    assert(member_views(m@) =~= seq![
        ("file"@, Some(file@)),
        ("project"@, text::opt_str(project)),
    ]);
    Request { method: Method::Post, path: "compose/up".to_owned(), body: Body::Members(m) }
}

/// Asks for a compose project to be taken down.
pub fn compose_down(project: &str) -> (r: Request)
    ensures
        r@ == posting("compose/down"@, seq![("project"@, Some(project@))]),
{
    post_member("compose/down", "project", project)
}

/// Asks for a model to be deleted.
pub fn delete_model(path: &str) -> (r: Request)
    ensures
        r@ == posting("models/delete"@, seq![("path"@, Some(path@))]),
{
    post_member("models/delete", "path", path)
}

/// Asks for a profile to be activated; the profile goes along.
pub fn activate() -> (r: Request)
    ensures
        r@ == (RequestView { method: Method::Post, path: "activate"@, body: BodyView::Record }),
{
    Request { method: Method::Post, path: "activate".to_owned(), body: Body::Record }
}

/// Asks for a download to be started; the download request goes along.
pub fn start_download() -> (r: Request)
    ensures
        r@ == (RequestView {
            method: Method::Post,
            path: "models/download"@,
            body: BodyView::Record,
        }),
{
    Request { method: Method::Post, path: "models/download".to_owned(), body: Body::Record }
}

// ---------------------------------------------------------------------------
// Replies
// ---------------------------------------------------------------------------

/// The message for a request that could not be sent.
pub fn send_failed(path: &str, error: &str) -> (r: String)
    ensures
        r@ == path@ + ": "@ + error@,
{
    let mut m: String = path.to_owned();
    m.append(": ");
    m.append(error);
    m
}

/// The message for a reply that reports a failure. The text of a reply is told only where the
/// request was to change something.
pub open spec fn failure(
    method: Method,
    path: Seq<char>,
    status: Seq<char>,
    body: Seq<char>,
) -> Seq<char> {
    let front = path + ": HTTP "@ + status;
    match method {
        Method::Get => front,
        _ => front + ": "@ + body,
    }
}

/// The message for a reply that does not decode.
pub open spec fn undecodable(
    method: Method,
    path: Seq<char>,
    error: Seq<char>,
    body: Seq<char>,
) -> Seq<char> {
    let front = path + " decode: "@ + error;
    match method {
        Method::Get => front,
        _ => front + " ("@ + body + ")"@,
    }
}

/// Whether a status code reports success.
pub open spec fn is_success(status: u16) -> bool {
    200 <= status < 300
}

/// Whether a reply may be decoded; the message where it reports a failure. `shown` is the status
/// as it is displayed.
pub fn check_reply(method: Method, path: &str, status: u16, shown: &str, body: &str) -> (r: Result<
    (),
    String,
>)
    ensures
        match r {
            Ok(_) => is_success(status),
            Err(m) => !is_success(status) && m@ == failure(method, path@, shown@, body@),
        },
{
    if 200 <= status && status < 300 {
        return Ok(());
    }
    let mut m: String = path.to_owned();
    m.append(": HTTP ");
    m.append(shown);
    match method {
        Method::Get => {},
        _ => {
            m.append(": ");
            m.append(body);
        },
    }
    Err(m)
}

/// Whether a reply with that status code may be decoded; the message where it reports a failure.
pub fn check_status(method: Method, path: &str, status: u16, body: &str) -> (r: Result<(), String>)
    requires
        100 <= status <= 999,
    ensures
        match r {
            Ok(_) => is_success(status),
            Err(m) => !is_success(status) && m@ == failure(
                method,
                path@,
                outside::status_shown(status),
                body@,
            ),
        },
{
    let shown: String = match outside::status_text(status) {
        Some(s) => s,
        None => String::new(),
    };
    check_reply(method, path, status, shown.as_str(), body)
}

/// The message for a reply that does not decode.
pub fn decode_failed(method: Method, path: &str, error: &str, body: &str) -> (r: String)
    ensures
        r@ == undecodable(method, path@, error@, body@),
{
    let mut m: String = path.to_owned();
    m.append(" decode: ");
    m.append(error);
    match method {
        Method::Get => {},
        _ => {
            m.append(" (");
            m.append(body);
            m.append(")");
        },
    }
    m
}

// ---------------------------------------------------------------------------
// Laws
// ---------------------------------------------------------------------------

/// The address of a path is the base, one slash and the path.
pub proof fn address_has_one_slash(base: Seq<char>, path: Seq<char>)
    requires
        base.len() > 0,
        base.last() != '/',
        path.len() > 0,
        path[0] != '/',
    ensures
        address(base, path) == base + seq!['/'] + path,
        address(base.push('/'), path) == base + seq!['/'] + path,
        address(base, seq!['/'] + path) == base + seq!['/'] + path,
{
    reveal_strlit("/");
    assert("/"@ =~= seq!['/']);
    slashes_do_not_matter(base, path);
    assert(text::drop_back(base, text::only('/')) == base);
    assert(text::drop_front(path, text::only('/')) == path);
}

/// Letters, digits, `-`, `_`, `.`, `~` and `/` stand for themselves in a query, and every other byte
/// is a percent sign and two digits; texts one behind the other are encoded one behind the other.
pub proof fn plain_bytes_stand_for_themselves(a: Seq<u8>, b: Seq<u8>, x: u8)
    ensures
        encoded(a + b) == encoded(a) + encoded(b),
        97 <= x <= 122 || 65 <= x <= 90 || 48 <= x <= 57 || seq![45u8, 95, 46, 126, 47].contains(x)
            ==> encoded(seq![x]) == seq![x as char],
        !(97 <= x <= 122 || 65 <= x <= 90 || 48 <= x <= 57 || seq![45u8, 95, 46, 126, 47].contains(
            x,
        )) ==> encoded(seq![x]).len() == 3 && encoded(seq![x])[0] == '%',
    decreases b.len(),
{
    let plain_signs = seq![45u8, 95, 46, 126, 47];
    assert(plain_signs[0] == 45 && plain_signs[1] == 95 && plain_signs[2] == 46 && plain_signs[3]
        == 126 && plain_signs[4] == 47);
    if plain_signs.contains(x) {
        let k = choose|k: int| 0 <= k < plain_signs.len() && plain_signs[k] == x;
        assert(k == 0 || k == 1 || k == 2 || k == 3 || k == 4);
    }
    let one = seq![x];
    assert(one.drop_last() =~= Seq::<u8>::empty());
    assert(encoded(Seq::<u8>::empty()) =~= Seq::<char>::empty());
    assert(encoded(one) =~= encoded_byte(x));
    if b.len() == 0 {
        assert(a + b =~= a);
        assert(encoded(a) + encoded(b) =~= encoded(a));
    } else {
        plain_bytes_stand_for_themselves(a, b.drop_last(), x);
        assert((a + b).drop_last() =~= a + b.drop_last());
        assert((a + b).last() == b.last());
        assert(encoded(a + b) =~= encoded(a) + encoded(b));
    }
}

/// Exactly the status codes from 200 to 299 report success.
pub proof fn success_is_a_code_of_two_hundred(status: u16)
    ensures
        is_success(status) <==> status as int / 100 == 2,
{
}

/// A failure is told with the path and the status; where the request was to change something, with
/// what the agent said too.
pub proof fn failure_tells_path_and_status(
    path: Seq<char>,
    status: Seq<char>,
    error: Seq<char>,
    body: Seq<char>,
)
    ensures
        failure(Method::Get, path, status, body) == path + ": HTTP "@ + status,
        failure(Method::Post, path, status, body) == path + ": HTTP "@ + status + ": "@ + body,
        failure(Method::Put, path, status, body) == path + ": HTTP "@ + status + ": "@ + body,
        undecodable(Method::Get, path, error, body) == path + " decode: "@ + error,
        undecodable(Method::Post, path, error, body) == path + " decode: "@ + error + " ("@ + body
            + ")"@,
        undecodable(Method::Put, path, error, body) == path + " decode: "@ + error + " ("@ + body
            + ")"@,
{
}

/// A request that reads carries nothing, and one that posts carries what it was given.
pub proof fn requests_carry_what_they_were_given(
    path: Seq<char>,
    members: Seq<(Seq<char>, Option<Seq<char>>)>,
)
    ensures
        reading(path).method == Method::Get,
        reading(path).path == path,
        reading(path).body is Nothing,
        posting(path, members).method == Method::Post,
        posting(path, members).path == path,
        posting(path, members).body == BodyView::Members(members),
{
}

}
