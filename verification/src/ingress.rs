//! Running behind Home Assistant's ingress: the hub is reached below a path prefix, which is
//! taken off requests and put onto the links of what is sent back.

use crate::outside;
use crate::search;
use crate::text;
use vstd::prelude::*;
use vstd::string::*;

verus! {

// ---------------------------------------------------------------------------
// Requests
// ---------------------------------------------------------------------------

/// The prefix that an ingress header names, without the slashes at its end; `None` where it names
/// none.
pub open spec fn prefix_of(header: Option<Seq<char>>) -> Option<Seq<char>> {
    match header {
        Some(h) => if text::drop_back(h, text::only('/')).len() > 0 {
            Some(text::drop_back(h, text::only('/')))
        } else {
            None
        },
        None => None,
    }
}

/// The path and query that a request has once the prefix is taken off; `None` where its path does
/// not start with the prefix.
pub open spec fn stripped(prefix: Seq<char>, path: Seq<char>, query: Option<Seq<char>>) -> Option<
    Seq<char>,
> {
    match search::after_prefix(path, prefix) {
        Some(rest) => {
            let front = if rest.len() == 0 {
                "/"@
            } else {
                rest
            };
            Some(
                match query {
                    Some(q) => front + "?"@ + q,
                    None => front,
                },
            )
        },
        None => None,
    }
}

/// The prefix that an ingress header names.
pub fn ingress_prefix(header: Option<&str>) -> (r: Option<String>)
    ensures
        text::opt_text(r) == prefix_of(text::opt_str(header)),
{
    match header {
        Some(h) => {
            let v: Vec<char> = text::chars_of(h);
            let t: &[char] = text::drop_back_char(v.as_slice(), '/');
            if t.len() > 0 {
                Some(text::string_of(t))
            } else {
                None
            }
        },
        None => None,
    }
}

/// The path and query that a request has once the prefix is taken off.
pub fn strip_prefix(prefix: &str, path: &str, query: Option<&str>) -> (r: Option<String>)
    ensures
        text::opt_text(r) == stripped(prefix@, path@, text::opt_str(query)),
{
    match search::strip_prefix(path, prefix) {
        Some(rest) => {
            let mut out: String = if rest.as_str().is_empty() {
                "/".to_owned()
            } else {
                rest
            };
            if let Some(q) = query {
                out.append("?");
                out.append(q);
            }
            Some(out)
        },
        None => None,
    }
}

/// The path and query that a request is to have instead of its own, if any. What is no address
/// once the prefix is taken off is left as it is.
pub fn strip_ingress_prefix(header: Option<&str>, path: &str, query: Option<&str>) -> (r: Option<
    String,
>)
    ensures
        text::opt_text(r) == match prefix_of(text::opt_str(header)) {
            Some(prefix) => match stripped(prefix, path@, text::opt_str(query)) {
                Some(rest) => if outside::uri_text(rest) {
                    Some(rest)
                } else {
                    None
                },
                None => None,
            },
            None => None,
        },
{
    let prefix: String = match ingress_prefix(header) {
        Some(p) => p,
        None => {
            return None;
        },
    };
    match strip_prefix(prefix.as_str(), path, query) {
        Some(rest) => if outside::is_uri(rest.as_str()) {
            Some(rest)
        } else {
            None
        },
        None => None,
    }
}

/// Taking the prefix off a path that was put below it gives the path back.
pub proof fn stripping_undoes_the_prefix(
    prefix: Seq<char>,
    path: Seq<char>,
    query: Option<Seq<char>>,
)
    requires
        path.len() > 0,
    ensures
        stripped(prefix, prefix + path, query) == Some(
            match query {
                Some(q) => path + "?"@ + q,
                None => path,
            },
        ),
{
    assert((prefix + path).take(prefix.len() as int) =~= prefix);
    assert((prefix + path).skip(prefix.len() as int) =~= path);
}

// ---------------------------------------------------------------------------
// What is sent back
// ---------------------------------------------------------------------------

/// What a response is rewritten as.
#[derive(Debug, Clone, Copy, PartialEq, Eq, Structural)]
pub enum Rewrite {
    Html,
    /// A script or a style sheet.
    Code,
}

/// How a response to that path is rewritten, by the end of the path or by its content type.
pub open spec fn rewrite_for(path: Seq<char>, content_type: Seq<char>) -> Option<Rewrite> {
    if search::has_suffix(path, ".js"@) || search::has_suffix(path, ".css"@) {
        Some(Rewrite::Code)
    } else if search::has_prefix(content_type, "text/html"@) {
        Some(Rewrite::Html)
    } else {
        None
    }
}

/// How a response is rewritten, and with which prefix: not at all without a prefix or where it is
/// encoded.
pub open spec fn rewriting(
    header: Option<Seq<char>>,
    is_encoded: bool,
    path: Seq<char>,
    content_type: Seq<char>,
) -> Option<(Rewrite, Seq<char>)> {
    match (prefix_of(header), rewrite_for(path, content_type)) {
        (Some(prefix), Some(kind)) => if is_encoded {
            None
        } else {
            Some((kind, prefix))
        },
        _ => None,
    }
}

/// How a response is rewritten, and with which prefix.
pub fn plan_rewrite(header: Option<&str>, is_encoded: bool, path: &str, content_type: &str) -> (r:
    Option<(Rewrite, String)>)
    ensures
        match r {
            Some((kind, prefix)) => Some((kind, prefix@)),
            None => None,
        } == rewriting(text::opt_str(header), is_encoded, path@, content_type@),
{
    let prefix: String = match ingress_prefix(header) {
        Some(p) => p,
        None => {
            return None;
        },
    };
    if is_encoded {
        return None;
    }
    if search::ends_with(path, ".js") || search::ends_with(path, ".css") {
        Some((Rewrite::Code, prefix))
    } else if search::starts_with(content_type, "text/html") {
        Some((Rewrite::Html, prefix))
    } else {
        None
    }
}

/// A page with its links below the prefix, and a base for those that are relative.
pub open spec fn html_rewritten(page: Seq<char>, prefix: Seq<char>) -> Seq<char> {
    let a = search::replaced(page, "=\"/api/"@, "=\""@ + prefix + "/api/"@);
    let b = search::replaced(a, "=\"/./assets/"@, "=\""@ + prefix + "/assets/"@);
    let c = search::replaced(b, "=\"/assets/"@, "=\""@ + prefix + "/assets/"@);
    search::replaced_first(c, "<head>"@, "<head><base href=\""@ + prefix + "/\">"@)
}

/// A script or a style sheet with its links below the prefix.
pub open spec fn code_rewritten(code: Seq<char>, prefix: Seq<char>) -> Seq<char> {
    let a = search::replaced(code, "/./assets/"@, prefix + "/assets/"@);
    let b = search::replaced(a, "\"/assets/"@, "\""@ + prefix + "/assets/"@);
    let c = search::replaced(b, "'/assets/"@, "'"@ + prefix + "/assets/"@);
    search::replaced(c, "(/assets/"@, "("@ + prefix + "/assets/"@)
}

/// A text with its links below the prefix.
pub open spec fn rewritten(kind: Rewrite, body: Seq<char>, prefix: Seq<char>) -> Seq<char> {
    match kind {
        Rewrite::Html => html_rewritten(body, prefix),
        Rewrite::Code => code_rewritten(body, prefix),
    }
}

fn around(front: &str, prefix: &str, back: &str) -> (r: String)
    ensures
        r@ == front@ + prefix@ + back@,
{
    let mut s: String = front.to_owned();
    s.append(prefix);
    s.append(back);
    s
}

fn rewrite_html(page: &str, prefix: &str) -> (r: String)
    ensures
        r@ == html_rewritten(page@, prefix@),
{
    proof {
        reveal_strlit("=\"/api/");
        reveal_strlit("=\"/./assets/");
        reveal_strlit("=\"/assets/");
        reveal_strlit("<head>");
    }
    let api: String = around("=\"", prefix, "/api/");
    let assets: String = around("=\"", prefix, "/assets/");
    let base: String = around("<head><base href=\"", prefix, "/\">");
    let a: String = search::replace(page, "=\"/api/", api.as_str());
    let b: String = search::replace(a.as_str(), "=\"/./assets/", assets.as_str());
    let c: String = search::replace(b.as_str(), "=\"/assets/", assets.as_str());
    search::replace_first(c.as_str(), "<head>", base.as_str())
}

fn rewrite_code(code: &str, prefix: &str) -> (r: String)
    ensures
        r@ == code_rewritten(code@, prefix@),
{
    proof {
        reveal_strlit("/./assets/");
        reveal_strlit("\"/assets/");
        reveal_strlit("'/assets/");
        reveal_strlit("(/assets/");
    }
    let mut bare: String = prefix.to_owned();
    bare.append("/assets/");
    let quoted: String = around("\"", prefix, "/assets/");
    let ticked: String = around("'", prefix, "/assets/");
    let called: String = around("(", prefix, "/assets/");
    let a: String = search::replace(code, "/./assets/", bare.as_str());
    let b: String = search::replace(a.as_str(), "\"/assets/", quoted.as_str());
    let c: String = search::replace(b.as_str(), "'/assets/", ticked.as_str());
    search::replace(c.as_str(), "(/assets/", called.as_str())
}

/// A text with its links below the prefix.
pub fn rewrite_text(kind: Rewrite, body: &str, prefix: &str) -> (r: String)
    ensures
        r@ == rewritten(kind, body@, prefix@),
{
    match kind {
        Rewrite::Html => rewrite_html(body, prefix),
        Rewrite::Code => rewrite_code(body, prefix),
    }
}

/// The body of a response with its links below the prefix. Bytes that are no text are shown as
/// the replacement character.
pub fn rewrite_ingress_assets(kind: Rewrite, body: &[u8], prefix: &str) -> (r: String)
    ensures
        r@ == rewritten(kind, outside::utf8_lossy(body@), prefix@),
{
    let s: String = outside::from_utf8_lossy(body);
    rewrite_text(kind, s.as_str(), prefix)
}

/// A script or a style sheet that holds no link to an asset is sent back as it is.
pub proof fn code_without_assets_is_left_alone(code: Seq<char>, prefix: Seq<char>)
    requires
        !search::has_text(code, "/./assets/"@),
        !search::has_text(code, "\"/assets/"@),
        !search::has_text(code, "'/assets/"@),
        !search::has_text(code, "(/assets/"@),
    ensures
        rewritten(Rewrite::Code, code, prefix) == code,
{
    search::lemma_replaced_absent(code, "/./assets/"@, prefix + "/assets/"@);
    search::lemma_replaced_absent(code, "\"/assets/"@, "\""@ + prefix + "/assets/"@);
    search::lemma_replaced_absent(code, "'/assets/"@, "'"@ + prefix + "/assets/"@);
    search::lemma_replaced_absent(code, "(/assets/"@, "("@ + prefix + "/assets/"@);
}

/// A page that holds no link to rewrite and no head is sent back as it is.
pub proof fn page_without_links_is_left_alone(page: Seq<char>, prefix: Seq<char>)
    requires
        !search::has_text(page, "=\"/api/"@),
        !search::has_text(page, "=\"/./assets/"@),
        !search::has_text(page, "=\"/assets/"@),
        !search::has_text(page, "<head>"@),
    ensures
        rewritten(Rewrite::Html, page, prefix) == page,
{
    search::lemma_replaced_absent(page, "=\"/api/"@, "=\""@ + prefix + "/api/"@);
    search::lemma_replaced_absent(page, "=\"/./assets/"@, "=\""@ + prefix + "/assets/"@);
    search::lemma_replaced_absent(page, "=\"/assets/"@, "=\""@ + prefix + "/assets/"@);
    search::lemma_replaced_absent(page, "<head>"@, "<head><base href=\""@ + prefix + "/\">"@);
}

/// A prefix that a link can be put below: it does not lead to the assets itself.
pub open spec fn is_prefix(prefix: Seq<char>) -> bool {
    prefix.len() > 0 && !search::has_prefix(prefix + "/"@, "/assets/"@)
}

/// A link below the prefix is no link to the assets.
proof fn lemma_link_clashes(mark: Seq<char>, prefix: Seq<char>, rest: Seq<char>)
    requires
        is_prefix(prefix),
        rest.len() > 0,
        rest[0] == '/',
    ensures
        search::clashes(mark + prefix + rest, mark + "/assets/"@, 0),
{
    reveal_strlit("/assets/");
    reveal_strlit("/");
    let t = mark + prefix + rest;
    let p = mark + "/assets/"@;
    let n = prefix.len() as int;
    let m = mark.len() as int;
    let tail = "/assets/"@;
    if !search::clashes(t, p, 0) {
        assert forall|j: int| 0 <= j < p.len() && j < t.len() implies #[trigger] p[j] == t[j] by {
            assert(t[0 + j] == t[j]);
        }
        assert forall|k: int| 0 <= k < 8 && k < n + 1 implies #[trigger] tail[k] == (prefix
            + "/"@)[k] by {
            assert(p[m + k] == tail[k]);
            assert(t[m + k] == (prefix + rest)[k]);
            assert(p[m + k] == t[m + k]);
        }
        if n >= 7 {
            assert((prefix + "/"@).take(8) =~= tail);
            assert(false);
        } else {
            assert(tail[n] == '/');
            assert(n == 0);
        }
    }
}

/// Every link of a rewritten page to an asset leads below the prefix. A prefix with an equals sign
/// in it is left aside.
pub proof fn page_links_go_below_the_prefix(page: Seq<char>, prefix: Seq<char>)
    requires
        is_prefix(prefix),
        !prefix.contains('='),
    ensures
        !search::has_text(rewritten(Rewrite::Html, page, prefix), "=\"/assets/"@),
{
    reveal_strlit("=\"/assets/");
    reveal_strlit("=\"");
    reveal_strlit("/assets/");
    reveal_strlit("<head>");
    reveal_strlit("<head><base href=\"");
    reveal_strlit("/\">");
    let p = "=\"/assets/"@;
    let a = search::replaced(page, "=\"/api/"@, "=\""@ + prefix + "/api/"@);
    let b = search::replaced(a, "=\"/./assets/"@, "=\""@ + prefix + "/assets/"@);
    let to = "=\""@ + prefix + "/assets/"@;
    assert(p =~= "=\""@ + "/assets/"@);
    lemma_link_clashes("=\""@, prefix, "/assets/"@);
    assert forall|i: int| 0 <= i < to.len() implies #[trigger] search::clashes(to, p, i) by {
        if i > 0 {
            assert(to[i] != '=') by {
                if 2 <= i < 2 + prefix.len() {
                    assert(to[i] == prefix[i - 2]);
                }
            }
            assert(p[0] != to[i + 0]);
        }
    }
    search::lemma_replaced_is_gone(b, p, to, p);
    let c = search::replaced(b, p, to);
    let base = "<head><base href=\""@ + prefix + "/\">"@;
    lemma_link_clashes("=\""@, prefix, "/\">"@);
    let link = "=\""@ + prefix + "/\">"@;
    assert(base =~= "<head><base href"@ + link) by {
        reveal_strlit("<head><base href");
    }
    assert forall|i: int| 0 <= i < base.len() implies #[trigger] search::clashes(base, p, i) by {
        reveal_strlit("<head><base href");
        if i == 16 {
            let j = choose|j: int|
                0 <= j < p.len() && 0 + j < link.len() && #[trigger] p[j] != link[0 + j];
            assert(base[i + j] == link[j]);
            assert(p[j] != base[i + j]);
        } else {
            assert(base[i] != '=') by {
                if 18 <= i < 18 + prefix.len() {
                    assert(base[i] == prefix[i - 18]);
                }
            }
            assert(p[0] != base[i + 0]);
        }
    }
    search::lemma_replaced_first_is_gone(c, "<head>"@, base, p);
}

/// One more replacement leaves no link with that mark, if there was none before or if it is the one
/// replaced.
proof fn lemma_marked_links(s: Seq<char>, own: char, mark: char, prefix: Seq<char>)
    requires
        is_prefix(prefix),
        !prefix.contains(mark),
        own == '"' || own == '\'' || own == '(',
        mark == '"' || mark == '\'' || mark == '(',
        own == mark || !search::has_text(s, seq![mark] + "/assets/"@),
    ensures
        !search::has_text(
            search::replaced(s, seq![own] + "/assets/"@, seq![own] + prefix + "/assets/"@),
            seq![mark] + "/assets/"@,
        ),
{
    reveal_strlit("/assets/");
    let p = seq![mark] + "/assets/"@;
    let to = seq![own] + prefix + "/assets/"@;
    if own == mark {
        lemma_link_clashes(seq![mark], prefix, "/assets/"@);
    }
    assert forall|i: int| 0 <= i < to.len() implies #[trigger] search::clashes(to, p, i) by {
        if i > 0 || own != mark {
            assert(to[i] != mark) by {
                if 1 <= i < 1 + prefix.len() {
                    assert(to[i] == prefix[i - 1]);
                }
            }
            assert(p[0] != to[i + 0]);
        }
    }
    search::lemma_replaced_is_gone(s, seq![own] + "/assets/"@, to, p);
}

/// Every quoted or bracketed link of a rewritten script or style sheet to an asset leads below the
/// prefix. A prefix with a quote or a bracket in it is left aside.
pub proof fn code_links_go_below_the_prefix(code: Seq<char>, prefix: Seq<char>)
    requires
        is_prefix(prefix),
        !prefix.contains('"'),
        !prefix.contains('\''),
        !prefix.contains('('),
    ensures
        !search::has_text(rewritten(Rewrite::Code, code, prefix), "\"/assets/"@),
        !search::has_text(rewritten(Rewrite::Code, code, prefix), "'/assets/"@),
        !search::has_text(rewritten(Rewrite::Code, code, prefix), "(/assets/"@),
{
    reveal_strlit("/assets/");
    reveal_strlit("\"/assets/");
    reveal_strlit("'/assets/");
    reveal_strlit("(/assets/");
    reveal_strlit("\"");
    reveal_strlit("'");
    reveal_strlit("(");
    assert("\"/assets/"@ =~= seq!['"'] + "/assets/"@);
    assert("'/assets/"@ =~= seq!['\''] + "/assets/"@);
    assert("(/assets/"@ =~= seq!['('] + "/assets/"@);
    assert("\""@ =~= seq!['"']);
    assert("'"@ =~= seq!['\'']);
    assert("("@ =~= seq!['(']);
    let a = search::replaced(code, "/./assets/"@, prefix + "/assets/"@);
    let b = search::replaced(a, "\"/assets/"@, "\""@ + prefix + "/assets/"@);
    let c = search::replaced(b, "'/assets/"@, "'"@ + prefix + "/assets/"@);
    lemma_marked_links(a, '"', '"', prefix);
    lemma_marked_links(b, '\'', '"', prefix);
    lemma_marked_links(b, '\'', '\'', prefix);
    lemma_marked_links(c, '(', '"', prefix);
    lemma_marked_links(c, '(', '\'', prefix);
    lemma_marked_links(c, '(', '(', prefix);
}

// ---------------------------------------------------------------------------
// The browser's side
// ---------------------------------------------------------------------------

/// The pieces that are not empty, in order.
pub open spec fn not_empty(pieces: Seq<Seq<char>>) -> Seq<Seq<char>>
    decreases pieces.len(),
{
    if pieces.len() == 0 {
        Seq::empty()
    } else if pieces.last().len() == 0 {
        not_empty(pieces.drop_last())
    } else {
        not_empty(pieces.drop_last()).push(pieces.last())
    }
}

/// The segments of the path of an address.
pub open spec fn path_segments(path: Seq<char>) -> Seq<Seq<char>> {
    not_empty(search::split(path, seq!['/']))
}

/// The address that the hub's functions are called at, where a page at that path came through the
/// ingress.
pub open spec fn server_base(origin: Seq<char>, path: Seq<char>) -> Option<Seq<char>> {
    let s = path_segments(path);
    if s.len() >= 3 && s[0] == "api"@ && s[1] == "hassio_ingress"@ {
        Some(origin + "/api/hassio_ingress/"@ + s[2])
    } else {
        None
    }
}

fn segments_of(path: &str) -> (r: Vec<String>)
    ensures
        text::texts(r@) == path_segments(path@),
{
    let pieces: Vec<String> = search::split_at_char(path, '/');
    let ghost all = text::texts(pieces@);
    let mut out: Vec<String> = Vec::new();
    assert(text::texts(out@) =~= not_empty(all.take(0)));
    for i in 0..pieces.len()
        invariant
            all == text::texts(pieces@),
            text::texts(out@) == not_empty(all.take(i as int)),
    {
        assert(all.take(i + 1).drop_last() =~= all.take(i as int));
        let ghost before = text::texts(out@);
        if !pieces[i].as_str().is_empty() {
            out.push(pieces[i].clone());
            assert(text::texts(out@) =~= before.push(all[i as int]));
        }
    }
    assert(all.take(all.len() as int) =~= all);
    out
}

/// The address that the hub's functions are called at, where a page at that path came through the
/// ingress.
pub fn ingress_server_url(origin: &str, path: &str) -> (r: Option<String>)
    ensures
        text::opt_text(r) == server_base(origin@, path@),
{
    let s: Vec<String> = segments_of(path);
    let ghost shown = path_segments(path@);
    if s.len() >= 3 {
        assert(shown[0] == s@[0]@ && shown[1] == s@[1]@ && shown[2] == s@[2]@);
        if text::same(s[0].as_str(), "api") && text::same(s[1].as_str(), "hassio_ingress") {
            let mut out: String = origin.to_owned();
            out.append("/api/hassio_ingress/");
            out.append(s[2].as_str());
            return Some(out);
        }
    }
    None
}

// ---------------------------------------------------------------------------
// Laws
// ---------------------------------------------------------------------------

/// The prefix is what the header holds up to the slashes at its end, however many there are; a header
/// of slashes alone, an empty one and a missing one name none.
pub proof fn slashes_behind_the_prefix_do_not_count(h: Seq<char>)
    ensures
        h.len() > 0 && h.last() != '/' ==> prefix_of(Some(h)) == Some(h),
        prefix_of(Some(h.push('/'))) == prefix_of(Some(h)),
        prefix_of(Some(Seq::empty())) is None,
        prefix_of(None) is None,
{
    assert(h.push('/').drop_last() =~= h);
    assert(text::drop_back(h.push('/'), text::only('/')) == text::drop_back(h, text::only('/')));
}

/// A request for the prefix itself is one for the root, with its query; one that does not start with
/// the prefix is left alone.
pub proof fn request_for_the_prefix_is_one_for_the_root(
    prefix: Seq<char>,
    path: Seq<char>,
    q: Seq<char>,
)
    ensures
        stripped(prefix, prefix, None) == Some(seq!['/']),
        stripped(prefix, prefix, Some(q)) == Some(seq!['/', '?'] + q),
        path.len() < prefix.len() ==> stripped(prefix, path, Some(q)) is None && stripped(
            prefix,
            path,
            None,
        ) is None,
        path.len() >= prefix.len() && path.take(prefix.len() as int) != prefix ==> stripped(
            prefix,
            path,
            Some(q),
        ) is None && stripped(prefix, path, None) is None,
{
    reveal_strlit("/");
    reveal_strlit("?");
    assert(prefix.take(prefix.len() as int) =~= prefix);
    assert("/"@ =~= seq!['/']);
    assert("/"@ + "?"@ + q =~= seq!['/', '?'] + q);
}

/// Scripts and style sheets are told by the end of their path, whatever their content type; pages by
/// their content type. Nothing else is rewritten.
pub proof fn path_and_type_tell_the_rewrite(a: Seq<char>, b: Seq<char>)
    ensures
        rewrite_for(a + ".js"@, b) == Some(Rewrite::Code),
        rewrite_for(a + ".css"@, b) == Some(Rewrite::Code),
        !search::has_suffix(a, ".js"@) && !search::has_suffix(a, ".css"@) ==> rewrite_for(
            a,
            "text/html"@ + b,
        ) == Some(Rewrite::Html),
        !search::has_suffix(a, ".js"@) && !search::has_suffix(a, ".css"@) && !search::has_prefix(
            b,
            "text/html"@,
        ) ==> rewrite_for(a, b) is None,
{
    search::parts_of_a_text(a, ".js"@, Seq::empty());
    search::parts_of_a_text(a, ".css"@, Seq::empty());
    search::parts_of_a_text(Seq::empty(), "text/html"@, b);
    assert((a + ".js"@).skip((a + ".js"@).len() - ".js"@.len()) =~= ".js"@);
    assert((a + ".css"@).skip((a + ".css"@).len() - ".css"@.len()) =~= ".css"@);
    assert(("text/html"@ + b).take("text/html"@.len() as int) =~= "text/html"@);
}

/// A response is rewritten exactly where there is a prefix, where it is not encoded and where it is of
/// a kind that is rewritten; then with that kind and that prefix.
pub proof fn plain_responses_behind_a_prefix_are_rewritten(
    header: Option<Seq<char>>,
    path: Seq<char>,
    content_type: Seq<char>,
)
    ensures
        rewriting(header, true, path, content_type) is None,
        prefix_of(header) is None ==> rewriting(header, false, path, content_type) is None,
        rewrite_for(path, content_type) is None ==> rewriting(header, false, path, content_type) is None,
        prefix_of(header) matches Some(p) ==> (rewrite_for(path, content_type) matches Some(k)
            ==> rewriting(header, false, path, content_type) == Some((k, p))),
{
}

/// What a link that is put below a prefix cannot be taken for.
proof fn lemma_new_link(prefix: Seq<char>, rest: Seq<char>)
    requires
        is_prefix(prefix),
        prefix.len() > 1,
        prefix[1] != '.',
        !prefix.contains('='),
        rest.len() > 0,
        rest[0] == '/',
        !rest.contains('='),
    ensures
        forall|i: int|
            0 <= i < ("=\""@ + prefix + rest).len() ==> #[trigger] search::clashes(
                "=\""@ + prefix + rest,
                "=\"/assets/"@,
                i,
            ),
        forall|i: int|
            0 <= i < ("=\""@ + prefix + rest).len() ==> #[trigger] search::clashes(
                "=\""@ + prefix + rest,
                "=\"/./assets/"@,
                i,
            ),
{
    reveal_strlit("=\"/assets/");
    reveal_strlit("=\"/./assets/");
    reveal_strlit("=\"");
    reveal_strlit("/assets/");
    let u = "=\""@ + prefix + rest;
    let p = "=\"/assets/"@;
    let d = "=\"/./assets/"@;
    assert(p =~= "=\""@ + "/assets/"@);
    lemma_link_clashes("=\""@, prefix, rest);
    assert forall|i: int| 0 < i < u.len() implies u[i] != '=' by {
        if 2 <= i < 2 + prefix.len() {
            assert(u[i] == prefix[i - 2]);
        } else if i >= 2 + prefix.len() {
            assert(u[i] == rest[i - 2 - prefix.len()]);
        }
    }
    assert forall|i: int| 0 <= i < u.len() implies #[trigger] search::clashes(u, p, i) by {
        if i > 0 {
            assert(p[0] != u[i + 0]);
        }
    }
    assert forall|i: int| 0 <= i < u.len() implies #[trigger] search::clashes(u, d, i) by {
        if i > 0 {
            assert(d[0] != u[i + 0]);
        } else {
            assert(u[i + 3] == prefix[1]);
            assert(d[3] != u[i + 3]);
        }
    }
}

/// A text that holds no link to rewrite and no head.
pub open spec fn has_no_link(x: Seq<char>) -> bool {
    !search::has_text(x, "=\"/api/"@) && !search::has_text(x, "=\"/assets/"@) && !search::has_text(
        x,
        "=\"/./assets/"@,
    ) && !search::has_text(x, "<head>"@)
}

/// The links of a page are put below the prefix one by one: those to the functions of the hub and those
/// to its assets, however these are written; what stands in front of a link stays, and what stands
/// behind it is rewritten in the same way. A prefix with an equals sign or an angle bracket in it, or
/// one that starts with a dot, is left aside.
pub proof fn page_is_rewritten_link_by_link(x: Seq<char>, y: Seq<char>, prefix: Seq<char>)
    requires
        is_prefix(prefix),
        prefix.len() > 1,
        prefix[1] != '.',
        !prefix.contains('='),
        !prefix.contains('<'),
        has_no_link(x),
    ensures
        rewritten(Rewrite::Html, x + "=\"/api/"@ + y, prefix) == x + ("=\""@ + prefix + "/api/"@)
            + rewritten(Rewrite::Html, y, prefix),
        rewritten(Rewrite::Html, x + "=\"/assets/"@ + y, prefix) == x + ("=\""@ + prefix
            + "/assets/"@) + rewritten(Rewrite::Html, y, prefix),
        rewritten(Rewrite::Html, x + "=\"/./assets/"@ + y, prefix) == x + ("=\""@ + prefix
            + "/assets/"@) + rewritten(Rewrite::Html, y, prefix),
{
    reveal_strlit("=\"/api/");
    reveal_strlit("=\"/assets/");
    reveal_strlit("=\"/./assets/");
    reveal_strlit("=\"");
    reveal_strlit("/api/");
    reveal_strlit("/assets/");
    reveal_strlit("<head>");
    let api = "=\"/api/"@;
    let dot = "=\"/./assets/"@;
    let plain = "=\"/assets/"@;
    let head = "<head>"@;
    let to_api = "=\""@ + prefix + "/api/"@;
    let to = "=\""@ + prefix + "/assets/"@;
    let base = "<head><base href=\""@ + prefix + "/\">"@;
    let a = search::replaced(y, api, to_api);
    let b = search::replaced(a, dot, to);
    let c = search::replaced(b, plain, to);
    lemma_new_link(prefix, "/api/"@);
    lemma_new_link(prefix, "/assets/"@);
    lemma_no_bracket(prefix);
    search::lemma_no_start(to_api, head);
    search::lemma_no_start(to, head);
    // A link to the functions.
    search::lemma_replaced_next(x, api, y, to_api);
    search::lemma_no_start_in_row(x, to_api, dot);
    search::lemma_replaced_behind(x + to_api, a, dot, to);
    search::lemma_no_start_in_row(x, to_api, plain);
    search::lemma_replaced_behind(x + to_api, b, plain, to);
    search::lemma_no_start_in_row(x, to_api, head);
    search::lemma_replaced_behind(x + to_api, c, head, base);
    // Links to the assets.
    search::lemma_no_start_in_row(x, to, plain);
    search::lemma_no_start_in_row(x, to, head);
    search::lemma_replaced_behind(x + to, c, head, base);
    assert forall|i: int| 0 <= i < plain.len() implies #[trigger] search::clashes(plain, api, i) by {
        if i == 0 {
            assert(api[4] != plain[i + 4]);
        } else {
            assert(api[0] != plain[i + 0]);
        }
    }
    assert forall|i: int| 0 <= i < plain.len() implies #[trigger] search::clashes(plain, dot, i) by {
        if i == 0 {
            assert(dot[3] != plain[i + 3]);
        } else {
            assert(dot[0] != plain[i + 0]);
        }
    }
    assert forall|i: int| 0 <= i < dot.len() implies #[trigger] search::clashes(dot, api, i) by {
        if i == 0 {
            assert(api[3] != dot[i + 3]);
        } else {
            assert(api[0] != dot[i + 0]);
        }
    }
    search::lemma_no_start_in_row(x, plain, api);
    search::lemma_replaced_behind(x + plain, y, api, to_api);
    search::lemma_no_start_in_row(x, plain, dot);
    search::lemma_replaced_behind(x + plain, a, dot, to);
    search::lemma_replaced_next(x, plain, b, to);
    search::lemma_no_start_in_row(x, dot, api);
    search::lemma_replaced_behind(x + dot, y, api, to_api);
    search::lemma_replaced_next(x, dot, a, to);
    search::lemma_replaced_behind(x + to, b, plain, to);
}

/// A link below a prefix without an angle bracket holds none.
proof fn lemma_no_bracket(prefix: Seq<char>)
    requires
        !prefix.contains('<'),
    ensures
        !("=\""@ + prefix + "/api/"@).contains('<'),
        !("=\""@ + prefix + "/assets/"@).contains('<'),
{
    reveal_strlit("=\"");
    reveal_strlit("/api/");
    reveal_strlit("/assets/");
    let to_api = "=\""@ + prefix + "/api/"@;
    let to = "=\""@ + prefix + "/assets/"@;
    if to_api.contains('<') {
        let i = choose|i: int| 0 <= i < to_api.len() && to_api[i] == '<';
        assert(prefix[i - 2] == '<');
    }
    if to.contains('<') {
        let i = choose|i: int| 0 <= i < to.len() && to[i] == '<';
        assert(prefix[i - 2] == '<');
    }
}

/// The head of a page gets a base that leads to the prefix, as its first element.
pub proof fn page_gets_a_base(x: Seq<char>, y: Seq<char>, prefix: Seq<char>)
    requires
        prefix.len() > 0,
        !prefix.contains('<'),
        has_no_link(x),
        !search::has_text(y, "<head>"@),
    ensures
        rewritten(Rewrite::Html, x + "<head>"@ + y, prefix) == x + ("<head><base href=\""@ + prefix
            + "/\">"@) + rewritten(Rewrite::Html, y, prefix),
{
    reveal_strlit("=\"/api/");
    reveal_strlit("=\"/assets/");
    reveal_strlit("=\"/./assets/");
    reveal_strlit("=\"");
    reveal_strlit("<head>");
    let api = "=\"/api/"@;
    let dot = "=\"/./assets/"@;
    let plain = "=\"/assets/"@;
    let head = "<head>"@;
    let to_api = "=\""@ + prefix + "/api/"@;
    let to = "=\""@ + prefix + "/assets/"@;
    let base = "<head><base href=\""@ + prefix + "/\">"@;
    let a = search::replaced(y, api, to_api);
    let b = search::replaced(a, dot, to);
    let c = search::replaced(b, plain, to);
    let u = x + head;
    assert(!head.contains('='));
    search::lemma_no_start(head, api);
    search::lemma_no_start(head, dot);
    search::lemma_no_start(head, plain);
    search::lemma_no_start_in_row(x, head, api);
    search::lemma_no_start_in_row(x, head, dot);
    search::lemma_no_start_in_row(x, head, plain);
    search::lemma_replaced_behind(u, y, api, to_api);
    search::lemma_replaced_behind(u, a, dot, to);
    search::lemma_replaced_behind(u, b, plain, to);
    search::lemma_replaced_next(x, head, c, base);
    lemma_no_bracket(prefix);
    search::lemma_no_start(to_api, head);
    search::lemma_no_start(to, head);
    search::lemma_replaced_is_gone(y, api, to_api, head);
    search::lemma_replaced_is_gone(a, dot, to, head);
    search::lemma_replaced_is_gone(b, plain, to, head);
    search::lemma_replaced_absent(c, head, base);
}

/// A text without any of the marks before a link to an asset, and without a slash.
pub open spec fn is_unmarked(s: Seq<char>) -> bool {
    !s.contains('/') && !s.contains('"') && !s.contains('\'') && !s.contains('(')
}

/// What a script or a style sheet becomes from its second replacement on, behind a text that stays.
proof fn lemma_code_stages(u: Seq<char>, a: Seq<char>, prefix: Seq<char>)
    requires
        forall|i: int| 0 <= i < u.len() ==> #[trigger] search::clashes(u, "\"/assets/"@, i),
        forall|i: int| 0 <= i < u.len() ==> #[trigger] search::clashes(u, "'/assets/"@, i),
        forall|i: int| 0 <= i < u.len() ==> #[trigger] search::clashes(u, "(/assets/"@, i),
    ensures
        ({
            let stages = |s: Seq<char>|
                {
                    let b = search::replaced(s, "\"/assets/"@, "\""@ + prefix + "/assets/"@);
                    let c = search::replaced(b, "'/assets/"@, "'"@ + prefix + "/assets/"@);
                    search::replaced(c, "(/assets/"@, "("@ + prefix + "/assets/"@)
                };
            stages(u + a) == u + stages(a)
        }),
{
    reveal_strlit("\"/assets/");
    reveal_strlit("'/assets/");
    reveal_strlit("(/assets/");
    let b = search::replaced(a, "\"/assets/"@, "\""@ + prefix + "/assets/"@);
    let c = search::replaced(b, "'/assets/"@, "'"@ + prefix + "/assets/"@);
    search::lemma_replaced_behind(u, a, "\"/assets/"@, "\""@ + prefix + "/assets/"@);
    search::lemma_replaced_behind(u, b, "'/assets/"@, "'"@ + prefix + "/assets/"@);
    search::lemma_replaced_behind(u, c, "(/assets/"@, "("@ + prefix + "/assets/"@);
}

/// A link below the prefix, with or without a mark, cannot be taken for one to an asset.
proof fn lemma_new_code_link(mark: Seq<char>, prefix: Seq<char>, own: char)
    requires
        is_prefix(prefix),
        !prefix.contains('"'),
        !prefix.contains('\''),
        !prefix.contains('('),
        mark.len() == 0 || mark == seq!['"'] || mark == seq!['\''] || mark == seq!['('],
        own == '"' || own == '\'' || own == '(',
    ensures
        forall|i: int|
            0 <= i < (mark + prefix + "/assets/"@).len() ==> #[trigger] search::clashes(
                mark + prefix + "/assets/"@,
                seq![own] + "/assets/"@,
                i,
            ),
{
    reveal_strlit("/assets/");
    let p = seq![own] + "/assets/"@;
    let link = mark + prefix + "/assets/"@;
    if mark == seq![own] {
        lemma_link_clashes(mark, prefix, "/assets/"@);
    }
    assert forall|i: int| 0 <= i < link.len() implies #[trigger] search::clashes(link, p, i) by {
        if i >= mark.len() || mark != seq![own] {
            assert(link[i] != own) by {
                if mark.len() <= i < mark.len() + prefix.len() {
                    assert(link[i] == prefix[i - mark.len()]);
                }
            }
            assert(p[0] != link[i + 0]);
        }
    }
}

/// The links of a script or a style sheet to assets are put below the prefix one by one, quoted or
/// bracketed, with or without a dot; what stands in front of a link stays, and what stands behind it
/// is rewritten in the same way. A prefix with a quote or a bracket in it is left aside.
pub proof fn code_is_rewritten_link_by_link(
    x: Seq<char>,
    mark: Seq<char>,
    y: Seq<char>,
    prefix: Seq<char>,
)
    requires
        is_prefix(prefix),
        !prefix.contains('"'),
        !prefix.contains('\''),
        !prefix.contains('('),
        !search::has_text(x, "/./assets/"@),
        !search::has_text(x, "\"/assets/"@),
        !search::has_text(x, "'/assets/"@),
        !search::has_text(x, "(/assets/"@),
        mark == seq!['"'] || mark == seq!['\''] || mark == seq!['('],
    ensures
        rewritten(Rewrite::Code, x + (mark + "/./assets/"@) + y, prefix) == x + (mark + prefix
            + "/assets/"@) + rewritten(Rewrite::Code, y, prefix),
        y.len() == 0 || y[0] != '.' ==> rewritten(
            Rewrite::Code,
            x + (mark + "/assets/"@) + y,
            prefix,
        ) == x + (mark + prefix + "/assets/"@) + rewritten(Rewrite::Code, y, prefix),
{
    reveal_strlit("/assets/");
    reveal_strlit("/./assets/");
    reveal_strlit("\"/assets/");
    reveal_strlit("'/assets/");
    reveal_strlit("(/assets/");
    assert("\"/assets/"@ =~= seq!['"'] + "/assets/"@);
    assert("'/assets/"@ =~= seq!['\''] + "/assets/"@);
    assert("(/assets/"@ =~= seq!['('] + "/assets/"@);
    let dot = "/./assets/"@;
    let bare = prefix + "/assets/"@;
    let a = search::replaced(y, dot, bare);
    let link = mark + prefix + "/assets/"@;
    lemma_new_code_link(mark, prefix, '"');
    lemma_new_code_link(mark, prefix, '\'');
    lemma_new_code_link(mark, prefix, '(');
    assert(link[0] == mark[0]);
    search::lemma_no_start_in_row(x, link, "\"/assets/"@);
    search::lemma_no_start_in_row(x, link, "'/assets/"@);
    search::lemma_no_start_in_row(x, link, "(/assets/"@);
    // With a dot.
    let u = x + mark;
    assert(mark.len() == 1 && mark[0] != '/');
    search::lemma_no_start(mark, dot);
    search::lemma_no_start_in_row(x, mark, dot);
    assert(x + (mark + dot) + y =~= u + (dot + y));
    search::lemma_replaced_behind(u, dot + y, dot, bare);
    search::lemma_replaced_here(dot, y, bare);
    assert(u + (bare + a) =~= (x + link) + a);
    lemma_code_stages(x + link, a, prefix);
    // Without one.
    if y.len() == 0 || y[0] != '.' {
        let from = mark + "/assets/"@;
        let front = from.drop_last();
        let tail = seq!['/'] + y;
        assert forall|i: int| 0 <= i < front.len() implies #[trigger] search::clashes(front, dot, i) by {
            if i == 1 {
                assert(dot[1] != front[i + 1]);
            } else {
                assert(dot[0] != front[i + 0]);
            }
        }
        assert(front[0] == mark[0]);
        search::lemma_no_start_in_row(x, front, dot);
        assert(x + from + y =~= (x + front) + tail);
        search::lemma_replaced_behind(x + front, tail, dot, bare);
        if tail.len() >= dot.len() {
            assert(tail.take(dot.len() as int)[1] == y[0]);
            assert(!search::has_prefix(tail, dot));
            assert(tail.skip(1) =~= y);
            assert(tail.take(1) =~= seq!['/']);
            assert(search::replaced(tail, dot, bare) == seq!['/'] + a);
        } else {
            assert(search::replaced(y, dot, bare) == y);
        }
        assert((x + front) + (seq!['/'] + a) =~= x + from + a);
        lemma_code_marked(x, mark, a, prefix);
    }
}

/// The stages of a script behind the first, on a link with a mark.
proof fn lemma_code_marked(x: Seq<char>, mark: Seq<char>, a: Seq<char>, prefix: Seq<char>)
    requires
        is_prefix(prefix),
        !prefix.contains('"'),
        !prefix.contains('\''),
        !prefix.contains('('),
        !search::has_text(x, "\"/assets/"@),
        !search::has_text(x, "'/assets/"@),
        !search::has_text(x, "(/assets/"@),
        mark == seq!['"'] || mark == seq!['\''] || mark == seq!['('],
    ensures
        ({
            let stages = |s: Seq<char>|
                {
                    let b = search::replaced(s, "\"/assets/"@, "\""@ + prefix + "/assets/"@);
                    let c = search::replaced(b, "'/assets/"@, "'"@ + prefix + "/assets/"@);
                    search::replaced(c, "(/assets/"@, "("@ + prefix + "/assets/"@)
                };
            stages(x + (mark + "/assets/"@) + a) == x + (mark + prefix + "/assets/"@) + stages(a)
        }),
{
    reveal_strlit("/assets/");
    reveal_strlit("\"/assets/");
    reveal_strlit("'/assets/");
    reveal_strlit("(/assets/");
    reveal_strlit("\"");
    reveal_strlit("'");
    reveal_strlit("(");
    let p = "\"/assets/"@;
    let q = "'/assets/"@;
    let r = "(/assets/"@;
    assert(p =~= seq!['"'] + "/assets/"@);
    assert(q =~= seq!['\''] + "/assets/"@);
    assert(r =~= seq!['('] + "/assets/"@);
    assert("\""@ =~= seq!['"']);
    assert("'"@ =~= seq!['\'']);
    assert("("@ =~= seq!['(']);
    let tp = "\""@ + prefix + "/assets/"@;
    let tq = "'"@ + prefix + "/assets/"@;
    let tr = "("@ + prefix + "/assets/"@;
    let b = search::replaced(a, p, tp);
    let c = search::replaced(b, q, tq);
    let from = mark + "/assets/"@;
    let link = mark + prefix + "/assets/"@;
    lemma_new_code_link(mark, prefix, '\'');
    lemma_new_code_link(mark, prefix, '(');
    assert(link[0] == mark[0] && from[0] == mark[0]);
    search::lemma_no_start_in_row(x, link, q);
    search::lemma_no_start_in_row(x, link, r);
    assert(mark != seq!['"'] ==> !from.contains('"'));
    assert(mark != seq!['\''] ==> !from.contains('\''));
    if mark == seq!['"'] {
        search::lemma_replaced_next(x, p, a, tp);
        search::lemma_replaced_behind(x + link, b, q, tq);
        search::lemma_replaced_behind(x + link, c, r, tr);
    } else if mark == seq!['\''] {
        search::lemma_no_start(from, p);
        search::lemma_no_start_in_row(x, from, p);
        search::lemma_replaced_behind(x + from, a, p, tp);
        search::lemma_replaced_next(x, q, b, tq);
        search::lemma_replaced_behind(x + link, c, r, tr);
    } else {
        search::lemma_no_start(from, p);
        search::lemma_no_start_in_row(x, from, p);
        search::lemma_replaced_behind(x + from, a, p, tp);
        search::lemma_no_start(from, q);
        search::lemma_no_start_in_row(x, from, q);
        search::lemma_replaced_behind(x + from, b, q, tq);
        search::lemma_replaced_next(x, r, c, tr);
    }
}

/// A link with a dot is put below the prefix even without a quote or a bracket before it.
pub proof fn bare_links_are_rewritten(x: Seq<char>, y: Seq<char>, prefix: Seq<char>)
    requires
        is_prefix(prefix),
        !prefix.contains('"'),
        !prefix.contains('\''),
        !prefix.contains('('),
        is_unmarked(x),
    ensures
        rewritten(Rewrite::Code, x + "/./assets/"@ + y, prefix) == x + (prefix + "/assets/"@)
            + rewritten(Rewrite::Code, y, prefix),
{
    reveal_strlit("/assets/");
    reveal_strlit("/./assets/");
    reveal_strlit("\"/assets/");
    reveal_strlit("'/assets/");
    reveal_strlit("(/assets/");
    let dot = "/./assets/"@;
    let bare = prefix + "/assets/"@;
    let a = search::replaced(y, dot, bare);
    assert("\"/assets/"@ =~= seq!['"'] + "/assets/"@);
    assert("'/assets/"@ =~= seq!['\''] + "/assets/"@);
    assert("(/assets/"@ =~= seq!['('] + "/assets/"@);
    let none = Seq::<char>::empty();
    assert(none + prefix + "/assets/"@ =~= bare);
    lemma_new_code_link(none, prefix, '"');
    lemma_new_code_link(none, prefix, '\'');
    lemma_new_code_link(none, prefix, '(');
    search::lemma_no_start(x, dot);
    search::lemma_no_start(x, "\"/assets/"@);
    search::lemma_no_start(x, "'/assets/"@);
    search::lemma_no_start(x, "(/assets/"@);
    search::lemma_no_start_in_both(x, bare, "\"/assets/"@);
    search::lemma_no_start_in_both(x, bare, "'/assets/"@);
    search::lemma_no_start_in_both(x, bare, "(/assets/"@);
    assert(x + dot + y =~= x + (dot + y));
    search::lemma_replaced_behind(x, dot + y, dot, bare);
    search::lemma_replaced_here(dot, y, bare);
    assert(x + (bare + a) =~= (x + bare) + a);
    lemma_code_stages(x + bare, a, prefix);
}

proof fn lemma_not_empty_concat(a: Seq<Seq<char>>, b: Seq<Seq<char>>)
    ensures
        not_empty(a + b) == not_empty(a) + not_empty(b),
    decreases b.len(),
{
    if b.len() == 0 {
        assert(a + b =~= a);
        assert(not_empty(a) + not_empty(b) =~= not_empty(a));
    } else {
        lemma_not_empty_concat(a, b.drop_last());
        assert((a + b).drop_last() =~= a + b.drop_last());
        assert((a + b).last() == b.last());
        assert(not_empty(a + b) =~= not_empty(a) + not_empty(b));
    }
}

/// The segments of a path are what stands between its slashes: a text without any is one segment, an
/// empty text is none, and the segments around a slash follow each other.
pub proof fn segments_stand_between_slashes(a: Seq<char>, b: Seq<char>)
    ensures
        path_segments(a.push('/') + b) == path_segments(a) + path_segments(b),
        a.len() > 0 && !a.contains('/') ==> path_segments(a) == seq![a],
        path_segments(Seq::empty()).len() == 0,
{
    let seps = seq!['/'];
    assert(seps[0] == '/');
    search::split_goes_on_behind_a_separator(a, '/', b, seps, 0);
    lemma_not_empty_concat(search::split(a, seps), search::split(b, seps));
    if !a.contains('/') {
        assert forall|k: int| 0 <= k < a.len() implies !seps.contains(#[trigger] a[k]) by {
            assert(a.contains(a[k]));
        }
        let one = seq![a];
        assert(search::split(a, seps) == one);
        assert(one.drop_last() =~= Seq::<Seq<char>>::empty());
        assert(not_empty(Seq::<Seq<char>>::empty()) =~= Seq::<Seq<char>>::empty());
        assert(one.last() == a);
        if a.len() > 0 {
            assert(not_empty(one) =~= one);
        }
    }
    let none = Seq::<char>::empty();
    let one = seq![none];
    assert(search::split(none, seps) == one);
    assert(one.drop_last() =~= Seq::<Seq<char>>::empty());
    assert(one.last() == none);
    assert(not_empty(one.drop_last()).len() == 0);
}

/// A page that came through the ingress calls the hub below the path of its ingress, whatever follows
/// in its own path; a page at any other path does not.
pub proof fn page_calls_the_hub_below_its_ingress(
    origin: Seq<char>,
    token: Seq<char>,
    rest: Seq<char>,
    first: Seq<char>,
)
    requires
        token.len() > 0,
        !token.contains('/'),
        first.len() > 0,
        !first.contains('/'),
    ensures
        server_base(origin, "/api/hassio_ingress/"@ + token) == Some(
            origin + "/api/hassio_ingress/"@ + token,
        ),
        server_base(origin, "/api/hassio_ingress/"@ + token.push('/') + rest) == Some(
            origin + "/api/hassio_ingress/"@ + token,
        ),
        first != "api"@ ==> server_base(origin, seq!['/'] + first.push('/') + rest) is None,
        first != "hassio_ingress"@ ==> server_base(origin, "/api/"@ + first.push('/') + rest) is None,
{
    reveal_strlit("/api/hassio_ingress/");
    reveal_strlit("/api/");
    reveal_strlit("api");
    reveal_strlit("hassio_ingress");
    let none = Seq::<char>::empty();
    let api = "api"@;
    let ha = "hassio_ingress"@;
    assert(!api.contains('/'));
    assert(!ha.contains('/'));
    segments_stand_between_slashes(none, none);
    segments_stand_between_slashes(api, none);
    segments_stand_between_slashes(ha, none);
    segments_stand_between_slashes(token, rest);
    segments_stand_between_slashes(first, rest);
    // Below the ingress.
    let whole = token.push('/') + rest;
    segments_stand_between_slashes(ha, token);
    segments_stand_between_slashes(ha, whole);
    segments_stand_between_slashes(api, ha.push('/') + token);
    segments_stand_between_slashes(api, ha.push('/') + whole);
    segments_stand_between_slashes(none, api.push('/') + (ha.push('/') + token));
    segments_stand_between_slashes(none, api.push('/') + (ha.push('/') + whole));
    assert("/api/hassio_ingress/"@ + token =~= none.push('/') + (api.push('/') + (ha.push('/')
        + token)));
    assert("/api/hassio_ingress/"@ + token.push('/') + rest =~= none.push('/') + (api.push('/') + (
    ha.push('/') + whole)));
    let s = path_segments("/api/hassio_ingress/"@ + token);
    assert(s =~= seq![api, ha, token]);
    assert(s[0] == api && s[1] == ha && s[2] == token);
    let t = path_segments("/api/hassio_ingress/"@ + token.push('/') + rest);
    assert(t =~= seq![api, ha, token] + path_segments(rest));
    assert(t[0] == api && t[1] == ha && t[2] == token);
    // Elsewhere.
    let other = first.push('/') + rest;
    segments_stand_between_slashes(none, other);
    assert(seq!['/'] + first.push('/') + rest =~= none.push('/') + other);
    let v = path_segments(seq!['/'] + first.push('/') + rest);
    assert(v =~= seq![first] + path_segments(rest));
    assert(v[0] == first);
    segments_stand_between_slashes(api, other);
    segments_stand_between_slashes(none, api.push('/') + other);
    assert("/api/"@ + first.push('/') + rest =~= none.push('/') + (api.push('/') + other));
    let w = path_segments("/api/"@ + first.push('/') + rest);
    assert(w =~= seq![api, first] + path_segments(rest));
    assert(w[0] == api && w[1] == first);
}

}
