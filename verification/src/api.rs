use vstd::prelude::*;
use reqwest::Url;
use crate::text::{chars_of, decimal, push_chars, push_decimal, string_of, trim, trimmed};
use crate::tournament::TournamentConfig;

verus! {

// ---------------------------------------------------------------------------
// The bracket service: where its tournament lives, and how its answers are taken.
// ---------------------------------------------------------------------------

/// What `url::Url::parse` (as `reqwest::Url`) makes of a text: its scheme, whether it
/// has a host, its user name, whether it has a password, a query and a fragment, and its
/// path; `None` where it reports an error.
pub uninterp spec fn url_parts(text: Seq<char>) -> Option<(Seq<char>, bool, Seq<char>, bool, bool, bool, Seq<char>)>;

/// What the text of `url::Url::parse(text)` is after `set_path(path)`; `None` where the
/// parse reports an error.
pub uninterp spec fn url_with_path(text: Seq<char>, path: Seq<char>) -> Option<Seq<char>>;

/// The parts of a parsed address.
pub struct UrlParts {
    pub scheme: String,
    pub has_host: bool,
    pub username: String,
    pub has_password: bool,
    pub has_query: bool,
    pub has_fragment: bool,
    pub path: String,
}

/// Parses an address with `reqwest::Url::parse` and reads its parts. The result is named
/// by `url_parts`.
#[verifier::external_body]
fn parse_url(text: &str) -> (res: Option<UrlParts>)
    ensures
        match res {
            Some(p) => url_parts(text@) == Some(
                (p.scheme@, p.has_host, p.username@, p.has_password, p.has_query, p.has_fragment, p.path@),
            ),
            None => url_parts(text@) is None,
        },
{
    let url = Url::parse(text).ok()?;
    Some(UrlParts {
        scheme: url.scheme().to_owned(),
        has_host: url.host_str().is_some(),
        username: url.username().to_owned(),
        has_password: url.password().is_some(),
        has_query: url.query().is_some(),
        has_fragment: url.fragment().is_some(),
        path: url.path().to_owned(),
    })
}

/// Parses an address with `reqwest::Url::parse`, replaces its path with `Url::set_path`
/// and gives the new address's text. The result is named by `url_with_path`.
#[verifier::external_body]
fn set_url_path(text: &str, path: &str) -> (res: Option<String>)
    ensures
        match res {
            Some(s) => url_with_path(text@, path@) == Some(s@),
            None => url_with_path(text@, path@) is None,
        },
{
    let mut url = Url::parse(text).ok()?;
    url.set_path(path);
    Some(url.as_str().to_owned())
}

/// Why the bracket service's address is refused.
#[derive(Clone, Copy, Debug, PartialEq, Eq, Structural)]
pub enum ApiError {
    /// The address cannot be parsed.
    BadUrl,
    /// The address is not a plain HTTP or HTTPS address with a path: it names no host,
    /// carries a user or password, a query or a fragment.
    NotPlain,
}

/// `s` without the `/` at its end (`trim_end_matches('/')`).
pub open spec fn without_slashes(s: Seq<char>) -> Seq<char>
    decreases s.len(),
{
    if s.len() > 0 && s.last() == '/' { without_slashes(s.drop_last()) } else { s }
}

/// The path of the tournament under the service's path: `/v1/tournaments/<id>` after it.
pub open spec fn tournament_path(base: Seq<char>, id: u64) -> Seq<char> {
    without_slashes(base) + seq!['/', 'v', '1', '/', 't', 'o', 'u', 'r', 'n', 'a', 'm', 'e', 'n', 't', 's', '/']
        + decimal(id as nat)
}

/// The scheme is `http` or `https`.
pub open spec fn web_scheme(s: Seq<char>) -> bool {
    s == seq!['h', 't', 't', 'p'] || s == seq!['h', 't', 't', 'p', 's']
}

/// The address of the configured tournament: the configured address (white space around
/// it ignored) must be a plain HTTP or HTTPS address; its path gets
/// `/v1/tournaments/<id>` appended.
pub open spec fn spec_endpoint(config: TournamentConfig) -> Result<Seq<char>, ApiError> {
    let text = trimmed(config.url@);
    match url_parts(text) {
        None => Err(ApiError::BadUrl),
        Some((scheme, has_host, username, has_password, has_query, has_fragment, path)) => if !(web_scheme(scheme)
            && has_host && username.len() == 0 && !has_password && !has_query && !has_fragment) {
            Err(ApiError::NotPlain)
        } else {
            match url_with_path(text, tournament_path(path, config.tournament_id)) {
                None => Err(ApiError::BadUrl),
                Some(endpoint) => Ok(endpoint),
            }
        },
    }
}

/// The bracket service of one tournament.
/// The bracket of the tournament at `endpoint` is read from its path with `.json` added.
pub open spec fn spec_bracket_url(endpoint: Seq<char>) -> Option<Seq<char>> {
    match url_parts(endpoint) {
        None => None,
        Some((_, _, _, _, _, _, path)) => url_with_path(endpoint, path + seq!['.', 'j', 's', 'o', 'n']),
    }
}

/// The result of match `match_id` goes to `/matches/<id>.json` under the tournament's path.
pub open spec fn spec_score_url(endpoint: Seq<char>, match_id: u64) -> Option<Seq<char>> {
    match url_parts(endpoint) {
        None => None,
        Some((_, _, _, _, _, _, path)) => url_with_path(
            endpoint,
            path + seq!['/', 'm', 'a', 't', 'c', 'h', 'e', 's', '/'] + decimal(match_id as nat) + seq![
                '.',
                'j',
                's',
                'o',
                'n',
            ],
        ),
    }
}

pub struct Api {
    pub config: TournamentConfig,
    /// The address of the tournament.
    pub endpoint: String,
}

fn strip_slashes(s: &Vec<char>) -> (res: Vec<char>)
    ensures
        res@ == without_slashes(s@),
{
    let mut n = s.len();
    assert(s@.take(n as int) =~= s@);
    while n > 0 && s[n - 1] == '/'
        invariant
            n <= s@.len(),
            without_slashes(s@) == without_slashes(s@.take(n as int)),
        decreases n,
    {
        assert(s@.take(n as int).drop_last() =~= s@.take(n - 1));
        n = n - 1;
    }
    let mut res: Vec<char> = Vec::new();
    let mut i: usize = 0;
    while i < n
        invariant
            n <= s@.len(),
            i <= n,
            res@ == s@.take(i as int),
        decreases n - i,
    {
        res.push(s[i]);
        i = i + 1;
        assert(res@ =~= s@.take(i as int));
    }
    res
}

fn is_web_scheme(s: &String) -> (res: bool)
    ensures
        res == web_scheme(s@),
{
    let c = chars_of(s.as_str());
    let http = c.len() >= 4 && c[0] == 'h' && c[1] == 't' && c[2] == 't' && c[3] == 'p';
    let res = http && (c.len() == 4 || (c.len() == 5 && c[4] == 's'));
    proof {
        if res {
            if c@.len() == 4 {
                assert(c@ =~= seq!['h', 't', 't', 'p']);
            } else {
                assert(c@ =~= seq!['h', 't', 't', 'p', 's']);
            }
        }
    }
    res
}

impl Api {
    /// The service of the configured tournament (see `spec_endpoint`).
    pub fn new(config: TournamentConfig) -> (res: Result<Api, ApiError>)
        ensures
            match spec_endpoint(config) {
                Ok(endpoint) => res matches Ok(api) && api.config == config && api.endpoint@ == endpoint,
                Err(e) => res matches Err(r) && r == e,
            },
    {
        let text = string_of(&trim(&chars_of(config.url.as_str())));
        let parts = match parse_url(text.as_str()) {
            Some(p) => p,
            None => {
                return Err(ApiError::BadUrl);
            },
        };
        if !(is_web_scheme(&parts.scheme) && parts.has_host && parts.username.as_str().unicode_len() == 0
            && !parts.has_password && !parts.has_query && !parts.has_fragment) {
            return Err(ApiError::NotPlain);
        }
        let mut path: Vec<char> = strip_slashes(&chars_of(parts.path.as_str()));
        let tail = "/v1/tournaments/";
        proof {
            reveal_strlit("/v1/tournaments/");
        }
        let tail_c = chars_of(tail);
        let mut i: usize = 0;
        let ghost base = path@;
        while i < tail_c.len()
            invariant
                i <= tail_c@.len(),
                path@ == base + tail_c@.take(i as int),
            decreases tail_c@.len() - i,
        {
            path.push(tail_c[i]);
            i = i + 1;
            assert(path@ =~= base + tail_c@.take(i as int));
        }
        assert(tail_c@.take(tail_c@.len() as int) =~= tail_c@);
        let mut path_text = string_of(&path);
        push_decimal(&mut path_text, config.tournament_id);
        assert(path_text@ =~= tournament_path(parts.path@, config.tournament_id));
        match set_url_path(text.as_str(), path_text.as_str()) {
            None => Err(ApiError::BadUrl),
            Some(endpoint) => Ok(Api { config, endpoint }),
        }
    }

    /// The address the bracket is read from (see `spec_bracket_url`).
    pub fn bracket_url(&self) -> (res: Option<String>)
        ensures
            match spec_bracket_url(self.endpoint@) {
                Some(u) => res matches Some(s) && s@ == u,
                None => res is None,
            },
    {
        let parts = match parse_url(self.endpoint.as_str()) {
            Some(p) => p,
            None => {
                return None;
            },
        };
        proof {
            reveal_strlit(".json");
        }
        let mut path = parts.path.clone();
        push_chars(&mut path, &chars_of(".json"));
        assert(path@ =~= parts.path@ + seq!['.', 'j', 's', 'o', 'n']);
        set_url_path(self.endpoint.as_str(), path.as_str())
    }

    /// The address the result of match `match_id` is sent to (see `spec_score_url`).
    pub fn score_url(&self, match_id: u64) -> (res: Option<String>)
        ensures
            match spec_score_url(self.endpoint@, match_id) {
                Some(u) => res matches Some(s) && s@ == u,
                None => res is None,
            },
    {
        let parts = match parse_url(self.endpoint.as_str()) {
            Some(p) => p,
            None => {
                return None;
            },
        };
        proof {
            reveal_strlit("/matches/");
            reveal_strlit(".json");
        }
        let mut path = parts.path.clone();
        push_chars(&mut path, &chars_of("/matches/"));
        push_decimal(&mut path, match_id);
        push_chars(&mut path, &chars_of(".json"));
        assert(path@ =~= parts.path@ + seq!['/', 'm', 'a', 't', 'c', 'h', 'e', 's', '/'] + decimal(match_id as nat)
            + seq!['.', 'j', 's', 'o', 'n']);
        set_url_path(self.endpoint.as_str(), path.as_str())
    }

    /// The key under which the result of match `match_id` is reported: the tournament's
    /// address, `#` and the match id.
    pub fn report_key(&self, match_id: u64) -> (res: String)
        ensures
            res@ == self.endpoint@ + seq!['#'] + decimal(match_id as nat),
    {
        let mut res = self.endpoint.clone();
        crate::text::push_char(&mut res, '#');
        push_decimal(&mut res, match_id);
        res
    }
}

/// Attempts at reporting a score before giving up.
pub const REPORT_ATTEMPTS: u32 = 3;

/// After failed attempt `attempt` (counting from 0) at reporting a score: the seconds to
/// wait before the next one (1, then 2), or `None` after the last attempt.
pub fn retry_delay(attempt: u32) -> (res: Option<u64>)
    ensures
        attempt + 1 >= REPORT_ATTEMPTS ==> res is None,
        attempt == 0 ==> res == Some(1u64),
        attempt == 1 ==> res == Some(2u64),
{
    if attempt >= REPORT_ATTEMPTS - 1 {
        None
    } else if attempt == 0 {
        Some(1)
    } else {
        Some(2)
    }
}

/// Largest answer taken from the bracket service: 4 MiB.
pub const MAX_BODY: usize = 4194304;

/// Whether a chunk of the answer may be added to what was read.
pub fn body_fits(read: usize, chunk: usize) -> (res: bool)
    ensures
        res == (read + chunk <= MAX_BODY),
{
    read <= MAX_BODY && chunk <= MAX_BODY - read
}

} // verus!
