//! Who may call the API, and the token that opens it.
use crate::api::reply::{self, Reply};
use crate::host::ids;
use crate::text;
use vstd::prelude::*;

verus! {

/// A request passes where no key is set (a blank one is none), where it carries
/// the key, and on its way to the health check.
pub open spec fn passes(key: Option<Seq<char>>, path: Seq<char>, bearer: Option<Seq<char>>) -> bool {
    match key {
        None => true,
        Some(k) => k.len() == 0 || path == "/api/health"@ || bearer == Some(k),
    }
}

/// The refusal of a request that does not carry the key.
pub fn authorize(key: &Option<String>, path: &str, bearer: &Option<String>) -> (r: Option<Reply>)
    ensures
        reply::opt_reply(r) == if passes(text::opt_text(*key), path@, text::opt_text(*bearer)) {
            None
        } else {
            Some(reply::refused(401, "unauthorized"@))
        },
{
    let fine: bool = match key {
        None => true,
        Some(k) => k.as_str().is_empty() || text::same(path, "/api/health") || match bearer {
            Some(b) => text::same(b.as_str(), k.as_str()),
            None => false,
        },
    };
    if fine {
        None
    } else {
        Some(Reply::error(401, "unauthorized"))
    }
}

/// Where the token comes from.
pub enum TokenSource {
    /// It is given.
    Given(String),
    /// It is in the token file.
    Kept(String),
    /// There is none: one has to be made and written to the token file.
    Fresh,
}

pub enum TokenSourceV {
    Given(Seq<char>),
    Kept(Seq<char>),
    Fresh,
}

impl View for TokenSource {
    type V = TokenSourceV;

    open spec fn view(&self) -> TokenSourceV {
        match self {
            TokenSource::Given(t) => TokenSourceV::Given(t@),
            TokenSource::Kept(t) => TokenSourceV::Kept(t@),
            TokenSource::Fresh => TokenSourceV::Fresh,
        }
    }
}

pub open spec fn nonempty(t: Option<Seq<char>>) -> Option<Seq<char>> {
    match t {
        Some(s) => if s.len() > 0 {
            Some(s)
        } else {
            None
        },
        None => None,
    }
}

/// The environment's token comes first, then the configured one, then the one
/// that was kept. What is empty does not count.
pub open spec fn token_source(
    env: Option<Seq<char>>,
    configured: Option<Seq<char>>,
    kept: Option<Seq<char>>,
) -> TokenSourceV {
    match nonempty(env) {
        Some(t) => TokenSourceV::Given(t),
        None => match nonempty(configured) {
            Some(t) => TokenSourceV::Given(t),
            None => match kept {
                Some(k) => if text::trim(k).len() > 0 {
                    TokenSourceV::Kept(text::trim(k))
                } else {
                    TokenSourceV::Fresh
                },
                None => TokenSourceV::Fresh,
            },
        },
    }
}

pub fn resolve_api_token(
    env: Option<String>,
    configured: Option<String>,
    kept: Option<String>,
) -> (r: TokenSource)
    ensures
        r@ == token_source(
            text::opt_text(env),
            text::opt_text(configured),
            text::opt_text(kept),
        ),
{
    if let Some(t) = env {
        if !t.as_str().is_empty() {
            return TokenSource::Given(t);
        }
    }
    if let Some(t) = configured {
        if !t.as_str().is_empty() {
            return TokenSource::Given(t);
        }
    }
    if let Some(k) = kept {
        let t = text::trimmed(k.as_str());
        if !t.as_str().is_empty() {
            return TokenSource::Kept(t);
        }
    }
    TokenSource::Fresh
}

/// A hexadecimal digit.
pub open spec fn hex_digit(n: int) -> char {
    if n < 10 {
        (48 + n) as char
    } else {
        (87 + n) as char
    }
}

/// The digits of a number in hexadecimal.
pub open spec fn hex(n: nat) -> Seq<char>
    decreases n,
{
    if n < 16 {
        seq![hex_digit(n as int)]
    } else {
        hex(n / 16).push(hex_digit((n % 16) as int))
    }
}

/// A number in hexadecimal with at least sixteen digits.
pub open spec fn hex16(n: nat) -> Seq<char> {
    if hex(n).len() < 16 {
        Seq::new((16 - hex(n).len()) as nat, |i: int| '0') + hex(n)
    } else {
        hex(n)
    }
}

/// The token made from an id and a moment: their digits, at most 48.
pub open spec fn token_text(id: Seq<char>, nanos: nat) -> Seq<char> {
    let all = id + hex16(nanos);
    if all.len() > 48 {
        all.take(48)
    } else {
        all
    }
}

fn hex_char(d: u8) -> (c: char)
    requires
        d < 16,
    ensures
        c == hex_digit(d as int),
{
    if d < 10 {
        (48u8 + d) as char
    } else {
        (87u8 + d) as char
    }
}

fn hex_text(n: u128) -> (r: String)
    ensures
        r@ == hex(n as nat),
    decreases n,
{
    if n < 16 {
        let mut s = String::new();
        s.push(hex_char(n as u8));
        assert(s@ =~= hex(n as nat));
        s
    } else {
        let mut s = hex_text(n / 16);
        s.push(hex_char((n % 16) as u8));
        assert(s@ =~= hex(n as nat));
        s
    }
}

/// A number as at least sixteen digits.
pub fn hex16_text(n: u128) -> (r: String)
    ensures
        r@ == hex16(n as nat),
{
    let digits = hex_text(n);
    let v = text::chars_of(digits.as_str());
    let have: usize = v.len();
    let mut out = String::new();
    let mut i: usize = have;
    assert(out@ =~= Seq::new(0, |k: int| '0'));
    while i < 16
        invariant
            have <= i,
            i <= 16 || i == have,
            out@ == Seq::new((i - have) as nat, |k: int| '0'),
        decreases 16 - i,
    {
        out.push('0');
        i = i + 1;
        assert(out@ =~= Seq::new((i - have) as nat, |k: int| '0'));
    }
    let whole = out.concat(digits.as_str());
    assert(whole@ =~= hex16(n as nat));
    whole
}

/// A token from an id and a moment.
pub fn token_from(id: &str, nanos: u128) -> (r: String)
    ensures
        r@ == token_text(id@, nanos as nat),
{
    let whole = text::owned(id).concat(hex16_text(nanos).as_str());
    let w = text::chars_of(whole.as_str());
    if w.len() > 48 {
        let cut = text::string_of(&w, 0, 48);
        assert(cut@ =~= whole@.take(48));
        cut
    } else {
        whole
    }
}

/// A new token at a moment, given in nanoseconds.
pub fn generate_token(nanos: u128) -> (r: String)
    ensures
        exists|id: Seq<char>| ids::is_simple_uuid(id) && r@ == #[trigger] token_text(id, nanos as nat),
{
    let id = ids::random_simple();
    token_from(id.as_str(), nanos)
}

// ---- laws ----

/// With a key set, nothing but the health check is open to a request without it.
pub proof fn the_key_guards_everything_else(
    key: Seq<char>,
    path: Seq<char>,
    bearer: Option<Seq<char>>,
)
    requires
        key.len() > 0,
        path != "/api/health"@,
        bearer != Some(key),
    ensures
        !passes(Some(key), path, bearer),
{
}

/// A token that is found or made is never empty.
pub proof fn tokens_are_never_empty(
    env: Option<Seq<char>>,
    configured: Option<Seq<char>>,
    kept: Option<Seq<char>>,
    id: Seq<char>,
    nanos: nat,
)
    requires
        ids::is_simple_uuid(id),
    ensures
        match token_source(env, configured, kept) {
            TokenSourceV::Given(t) => t.len() > 0,
            TokenSourceV::Kept(t) => t.len() > 0,
            TokenSourceV::Fresh => token_text(id, nanos).len() == 48,
        },
{
    assert(hex16(nanos).len() >= 16);
}

} // verus!
