//! The jarvis tree of a VM: the agent's configuration and where its directories lie.

use crate::kinds::AccelKind;
use crate::names;
use crate::numbers;
use crate::outside;
use crate::paths;
use crate::text;
use vstd::prelude::*;
use vstd::string::*;
use vstd::utf8::*;

verus! {

/// The path of `name` in the directory `dir`.
pub open spec fn child_path(dir: Seq<char>, name: Seq<char>) -> Seq<char> {
    if name.len() > 0 && name[0] == '/' {
        name
    } else if dir.len() > 0 && dir.last() != '/' {
        dir.push('/') + name
    } else {
        dir + name
    }
}

/// The path of `name` in the directory `dir`.
pub fn child(dir: &str, name: &str) -> (r: String)
    ensures
        r@ == child_path(dir@, name@),
{
    let d: Vec<char> = text::chars_of(dir);
    let n: Vec<char> = text::chars_of(name);
    if n.len() > 0 && n[0] == '/' {
        return name.to_owned();
    }
    let mut out: String = dir.to_owned();
    if d.len() > 0 && d[d.len() - 1] != '/' {
        out.push('/');
    }
    out.append(name);
    out
}

// ---------------------------------------------------------------------------
// Texts and bytes
// ---------------------------------------------------------------------------

/// The bytes of two texts, one behind the other, are the bytes of the whole.
pub proof fn lemma_encode_concat(a: Seq<char>, b: Seq<char>)
    ensures
        encode_utf8(a + b) == encode_utf8(a) + encode_utf8(b),
    decreases a.len(),
{
    if a.len() == 0 {
        assert(a + b =~= b);
        assert(encode_utf8(a) + encode_utf8(b) =~= encode_utf8(b));
    } else {
        lemma_encode_concat(a.drop_first(), b);
        assert((a + b).drop_first() =~= a.drop_first() + b);
        assert(encode_utf8(a + b) =~= encode_utf8(a) + encode_utf8(b));
    }
}

/// The byte `/` stands among the bytes of one character only if that is `/`, and then it is all
/// of them.
proof fn lemma_encode_slash(c: char)
    ensures
        encode_scalar(c as u32).len() >= 1,
        encode_scalar(c as u32)[0] == paths::SEPARATOR <==> c == '/',
        encode_scalar(c as u32).last() == paths::SEPARATOR <==> c == '/',
        encode_scalar(c as u32).contains(paths::SEPARATOR) <==> c == '/',
{
    let u: u32 = c as u32;
    char_is_scalar(c);
    assert(has_width_1_encoding(u) ==> (u & 0x7F) as u8 == u as u8 && u as u8 == u) by (bit_vector);
    assert((0xC0u8 | ((u >> 6) & 0x1F) as u8) >= 0x80u8) by (bit_vector);
    assert((0xE0u8 | ((u >> 12) & 0x0F) as u8) >= 0x80u8) by (bit_vector);
    assert((0xF0u8 | ((u >> 18) & 0x7) as u8) >= 0x80u8) by (bit_vector);
    assert((0x80u8 | (u & 0x3F) as u8) >= 0x80u8) by (bit_vector);
    assert((0x80u8 | ((u >> 6) & 0x3F) as u8) >= 0x80u8) by (bit_vector);
    assert((0x80u8 | ((u >> 12) & 0x3F) as u8) >= 0x80u8) by (bit_vector);
    let b = encode_scalar(u);
    if c == '/' {
        assert(b[0] == paths::SEPARATOR);
    } else if b.contains(paths::SEPARATOR) {
        let i = choose|i: int| 0 <= i < b.len() && b[i] == paths::SEPARATOR;
        assert(b[i] != paths::SEPARATOR);
    }
}

/// Joining texts and joining their bytes come to the same.
pub proof fn child_path_bytes(dir: Seq<char>, name: Seq<char>)
    ensures
        encode_utf8(child_path(dir, name)) == paths::joined(encode_utf8(dir), encode_utf8(name)),
{
    lemma_encode_concat(dir, name);
    if name.len() > 0 {
        lemma_encode_slash(name[0]);
        assert(encode_utf8(name)[0] == encode_scalar(name[0] as u32)[0]);
    }
    if dir.len() > 0 {
        let front = dir.drop_last();
        let c = dir.last();
        lemma_encode_slash(c);
        assert(front + seq![c] =~= dir);
        lemma_encode_concat(front, seq![c]);
        assert(seq![c].drop_first() =~= Seq::<char>::empty());
        assert(encode_utf8(Seq::<char>::empty()) =~= Seq::<u8>::empty());
        assert(encode_utf8(seq![c]) =~= encode_scalar(c as u32));
        assert(encode_utf8(dir).last() == encode_scalar(c as u32).last());
    }
    let slash = seq!['/'];
    assert(slash.drop_first() =~= Seq::<char>::empty());
    assert(encode_utf8(Seq::<char>::empty()) =~= Seq::<u8>::empty());
    let u: u32 = '/' as u32;
    assert((u & 0x7F) as u8 == 47u8) by (bit_vector)
        requires
            u == 47,
    ;
    assert(encode_utf8(slash) =~= seq![paths::SEPARATOR]);
    lemma_encode_concat(dir, slash);
    lemma_encode_concat(dir.push('/'), name);
    assert(dir + slash =~= dir.push('/'));
    assert(encode_utf8(dir) + seq![paths::SEPARATOR] =~= encode_utf8(dir).push(paths::SEPARATOR));
}

/// Whether a text can name an entry of a directory: it holds no separator, and it is neither
/// empty nor one of the two names that every directory has.
pub open spec fn is_entry_name(name: Seq<char>) -> bool {
    !name.contains('/') && name.len() > 0 && name != seq!['.'] && name != seq!['.', '.']
}

/// A text without a separator has none among its bytes.
proof fn lemma_encode_no_slash(name: Seq<char>)
    requires
        !name.contains('/'),
    ensures
        !encode_utf8(name).contains(paths::SEPARATOR),
    decreases name.len(),
{
    if name.len() > 0 {
        let c = name[0];
        let rest = name.drop_first();
        assert(c != '/') by {
            if c == '/' {
                assert(name.contains('/'));
            }
        }
        assert(!rest.contains('/')) by {
            if rest.contains('/') {
                let i = choose|i: int| 0 <= i < rest.len() && rest[i] == '/';
                assert(name[i + 1] == '/');
            }
        }
        lemma_encode_slash(c);
        lemma_encode_no_slash(rest);
        let b = encode_utf8(name);
        let first = encode_scalar(c as u32);
        assert(b == first + encode_utf8(rest));
        if b.contains(paths::SEPARATOR) {
            let i = choose|i: int| 0 <= i < b.len() && b[i] == paths::SEPARATOR;
            if i < first.len() {
                assert(first[i] == paths::SEPARATOR);
            } else {
                assert(encode_utf8(rest)[i - first.len()] == paths::SEPARATOR);
            }
            assert(false);
        }
    }
}

/// The bytes of the name of an entry are one name.
proof fn lemma_entry_is_name(name: Seq<char>)
    requires
        is_entry_name(name),
    ensures
        paths::is_name(encode_utf8(name)),
{
    let b = encode_utf8(name);
    lemma_encode_no_slash(name);
    lemma_encode_slash(name[0]);
    assert(b == encode_scalar(name[0] as u32) + encode_utf8(name.drop_first()));
    encode_utf8_decode_utf8(name);
    let one = seq!['.'];
    let two = seq!['.', '.'];
    is_ascii_chars_encode_utf8(one);
    is_ascii_chars_encode_utf8(two);
    encode_utf8_decode_utf8(one);
    encode_utf8_decode_utf8(two);
    if b == seq![paths::DOT] {
        assert(b =~= encode_utf8(one));
    }
    if b == seq![paths::DOT, paths::DOT] {
        assert(b =~= encode_utf8(two));
    }
}

/// A name stands for an entry of the directory that it is joined to, and nothing else.
pub proof fn name_stays_in_directory(dir: Seq<char>, name: Seq<char>)
    requires
        is_entry_name(name),
    ensures
        paths::parts(encode_utf8(child_path(dir, name))) == paths::parts(encode_utf8(dir)).push(
            paths::PartView::Normal(encode_utf8(name)),
        ),
{
    child_path_bytes(dir, name);
    lemma_entry_is_name(name);
    paths::join_adds_one_component(encode_utf8(dir), encode_utf8(name));
}

/// A safe segment names an entry of the directory that it is joined to, and nothing else.
pub proof fn segment_stays_in_directory(dir: Seq<char>, name: Seq<char>)
    requires
        names::is_segment(name),
    ensures
        paths::parts(encode_utf8(child_path(dir, name))) == paths::parts(encode_utf8(dir)).push(
            paths::PartView::Normal(encode_utf8(name)),
        ),
{
    if name.contains('/') {
        let i = choose|i: int| 0 <= i < name.len() && name[i] == '/';
        assert(names::is_segment_char(name[i]));
    }
    if name == seq!['.', '.'] {
        assert(name[0] == '.' && name[1] == '.');
    }
    name_stays_in_directory(dir, name);
}

// ---------------------------------------------------------------------------
// Configuration
// ---------------------------------------------------------------------------

/// The environment variables that an agent reads; `None` where one is not set.
#[derive(Debug, Clone, PartialEq)]
pub struct AgentEnv {
    pub jarvis: Option<String>,
    pub secret: Option<String>,
    pub accel: Option<String>,
    pub port: Option<String>,
    pub project: Option<String>,
}

/// Agent configuration, sourced from the environment at startup.
#[derive(Debug, Clone, PartialEq)]
pub struct Config {
    pub secret: String,
    pub jarvis: String,
    pub accel: AccelKind,
    pub port: u16,
    /// Stable compose project name for the single active LLM service (swap target).
    pub project: String,
    pub version: String,
}

/// The port an agent listens on where nothing else is said.
pub const DEFAULT_PORT: u16 = 9777;

/// The text of a variable, or `default` where it is not set.
pub open spec fn set_or(var: Option<String>, default: Seq<char>) -> Seq<char> {
    match var {
        Some(s) => s@,
        None => default,
    }
}

/// The port that a variable gives: the number it holds, where it is one that fits, and else the
/// default.
pub open spec fn port_from(var: Option<String>) -> nat {
    match var {
        Some(s) => match numbers::parsed(s@, u16::MAX as nat) {
            Some(n) => n,
            None => DEFAULT_PORT as nat,
        },
        None => DEFAULT_PORT as nat,
    }
}

fn or_default(var: &Option<String>, default: &str) -> (r: String)
    ensures
        r@ == set_or(*var, default@),
{
    match var {
        Some(s) => s.clone(),
        None => default.to_owned(),
    }
}

impl Config {
    /// The configuration that the environment gives.
    pub fn from_env(env: &AgentEnv, version: &str) -> (r: Config)
        ensures
            r.jarvis@ == set_or(env.jarvis, "/home/shadowbroker/jarvis"@),
            r.secret@ == set_or(env.secret, Seq::empty()),
            r.accel == AccelKind::named(
                outside::lowercase(text::trimmed(set_or(env.accel, "cpu"@))),
            ),
            r.port as nat == port_from(env.port),
            r.project@ == set_or(env.project, "modeldeck-llm"@),
            r.version@ == version@,
    {
        let accel: String = or_default(&env.accel, "cpu");
        let port: u16 = match &env.port {
            Some(s) => match numbers::parse_u16(s.as_str()) {
                Some(n) => n,
                None => DEFAULT_PORT,
            },
            None => DEFAULT_PORT,
        };
        let secret: String = match &env.secret {
            Some(s) => s.clone(),
            None => String::new(),
        };
        Config {
            secret,
            jarvis: or_default(&env.jarvis, "/home/shadowbroker/jarvis"),
            accel: AccelKind::from_str_loose(accel.as_str()),
            port,
            project: or_default(&env.project, "modeldeck-llm"),
            version: version.to_owned(),
        }
    }

    pub fn models_dir(&self) -> (r: String)
        ensures
            r@ == child_path(self.jarvis@, "models"@),
    {
        child(self.jarvis.as_str(), "models")
    }

    pub fn services_dir(&self) -> (r: String)
        ensures
            r@ == child_path(self.jarvis@, "services"@),
    {
        child(self.jarvis.as_str(), "services")
    }

    pub fn state_dir(&self) -> (r: String)
        ensures
            r@ == child_path(self.jarvis@, ".modeldeck"@),
    {
        child(self.jarvis.as_str(), ".modeldeck")
    }

    /// The cache of HuggingFace repos.
    pub fn cache_dir(&self) -> (r: String)
        ensures
            r@ == child_path(self.jarvis@, "hf-cache"@),
    {
        child(self.jarvis.as_str(), "hf-cache")
    }
}

// ---------------------------------------------------------------------------
// Access
// ---------------------------------------------------------------------------

/// Whether a request may pass: the agent has a secret, and the request presents it as a bearer
/// token.
pub open spec fn may_pass(secret: Seq<char>, header: Option<Seq<char>>) -> bool {
    secret.len() > 0 && header == Some("Bearer "@ + secret)
}

/// Bearer-token gate. `header` is the authorization header of the request, where it has one that
/// is text.
pub fn authorized(secret: &str, header: Option<&str>) -> (r: bool)
    ensures
        r == may_pass(secret@, text::opt_str(header)),
{
    if secret.is_empty() {
        return false;
    }
    match header {
        None => false,
        Some(h) => {
            let mut expected: String = "Bearer ".to_owned();
            expected.append(secret);
            text::same(h, expected.as_str())
        },
    }
}

/// An agent without a secret lets nobody in.
pub proof fn no_secret_no_access(header: Option<Seq<char>>)
    ensures
        !may_pass(Seq::empty(), header),
{
}

/// The path of a name in a directory is the directory, one slash and the name; a name that is itself
/// a path from the root stands alone.
pub proof fn child_stands_behind_one_slash(dir: Seq<char>, name: Seq<char>)
    requires
        name.len() > 0,
    ensures
        name[0] != '/' && dir.len() > 0 && dir.last() != '/' ==> child_path(dir, name) == dir + seq![
            '/',
        ] + name && child_path(dir.push('/'), name) == dir + seq!['/'] + name,
        name[0] != '/' && dir.len() == 0 ==> child_path(dir, name) == name,
        name[0] == '/' ==> child_path(dir, name) == name,
{
    if name[0] != '/' && dir.len() == 0 {
        assert(dir + name =~= name);
    }
    assert(dir.push('/') + name =~= dir + seq!['/'] + name);
}

/// A variable that is set is what is used, and the default is used only where it is not set; a port
/// that is no number up to 65535 counts as not set.
pub proof fn environment_comes_before_defaults(s: String, default: Seq<char>)
    ensures
        set_or(Some(s), default) == s@,
        set_or(None, default) == default,
        port_from(None) == 9777,
        port_from(Some(s)) <= 65535,
        numbers::parsed(s@, 65535) matches Some(n) ==> port_from(Some(s)) == n,
        numbers::parsed(s@, 65535) is None ==> port_from(Some(s)) == 9777,
{
}

/// A request passes exactly where it presents the secret behind the word `Bearer` and one space: of
/// two different secrets, the token of one never passes for the other.
pub proof fn only_the_secret_passes(secret: Seq<char>, header: Option<Seq<char>>, other: Seq<char>)
    requires
        secret.len() > 0,
    ensures
        may_pass(secret, header) <==> header == Some(
            seq!['B', 'e', 'a', 'r', 'e', 'r', ' '] + secret,
        ),
        may_pass(secret, header) && may_pass(other, header) ==> other == secret,
        !may_pass(secret, None),
{
    reveal_strlit("Bearer ");
    let word = seq!['B', 'e', 'a', 'r', 'e', 'r', ' '];
    assert("Bearer "@ =~= word);
    if may_pass(secret, header) && may_pass(other, header) {
        assert((word + secret).skip(7) =~= secret);
        assert((word + other).skip(7) =~= other);
    }
}

}
