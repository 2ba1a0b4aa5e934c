//! The argument parser: validation of the URL, and parsing of `key=value`
//! body tokens for a `post` request.

use vstd::prelude::*;
use vstd::string::StrSliceExecFns;
use vstd::string::StringExecFns;

verus! {

/// The index of the first occurrence of `c` in `s`, or `-1` when `s` does not
/// contain `c`.
pub open spec fn find_char(s: Seq<char>, c: char) -> int
    decreases s.len(),
{
    if s.len() == 0 {
        -1
    } else if s[0] == c {
        0
    } else {
        let r = find_char(s.drop_first(), c);
        if r == -1 {
            -1
        } else {
            r + 1
        }
    }
}

/// `find_char` finds the least index holding `c`, and fails exactly when `s`
/// does not contain `c`.
pub proof fn lemma_find_char(s: Seq<char>, c: char)
    ensures
        find_char(s, c) == -1 <==> !s.contains(c),
        find_char(s, c) != -1 ==> 0 <= find_char(s, c) < s.len() && s[find_char(s, c)] == c,
        find_char(s, c) != -1 ==> forall|j: int| 0 <= j < find_char(s, c) ==> s[j] != c,
    decreases s.len(),
{
    if s.len() == 0 {
        assert(!s.contains(c)) by {
            if s.contains(c) {
                let i = choose|i: int| 0 <= i < s.len() && s[i] == c;
            }
        }
    } else if s[0] == c {
        assert(s.contains(c)) by {
            assert(s[0] == c);
        }
    } else {
        let rest = s.drop_first();
        lemma_find_char(rest, c);
        assert forall|j: int| 0 <= j < rest.len() implies rest[j] == s[j + 1] by {}
        if s.contains(c) {
            let i = choose|i: int| 0 <= i < s.len() && s[i] == c;
            assert(i != 0);
            assert(rest[i - 1] == c);
            assert(rest.contains(c));
        }
        if rest.contains(c) {
            let i = choose|i: int| 0 <= i < rest.len() && rest[i] == c;
            assert(s[i + 1] == c);
            assert(s.contains(c));
        }
        if find_char(s, c) != -1 {
            let f = find_char(rest, c);
            assert(find_char(s, c) == f + 1);
            assert forall|j: int| 0 <= j < f + 1 implies s[j] != c by {
                if j > 0 {
                    assert(rest[j - 1] != c);
                }
            }
        }
    }
}

/// Splitting a token at its first `=`: the key is everything before it, the
/// value everything after it (later `=` characters stay in the value).
/// A token without `=` does not split.
pub open spec fn kv_split(s: Seq<char>) -> Option<(Seq<char>, Seq<char>)> {
    let i = find_char(s, '=');
    if i == -1 {
        None
    } else {
        Some((s.take(i), s.skip(i + 1)))
    }
}

/// A `key=value` pair taken from one command-line token.
#[derive(Debug)]
pub struct KvPair {
    pub k: String,
    pub v: String,
}

impl View for KvPair {
    type V = (Seq<char>, Seq<char>);

    open spec fn view(&self) -> (Seq<char>, Seq<char>) {
        (self.k@, self.v@)
    }
}

/// An argument error: a malformed URL or a malformed `key=value` token,
/// carrying the offending input.
#[derive(Debug)]
pub enum CliError {
    InvalidUrl(String),
    InvalidPair(String),
}

impl CliError {
    /// A human-readable message that echoes the offending input.
    pub fn message(&self) -> (r: String)
        ensures
            self matches CliError::InvalidUrl(t) ==> r@ == "invalid URL: "@ + t@,
            self matches CliError::InvalidPair(t) ==> r@ == "failed to parse key=value pair: "@
                + t@,
    {
        match self {
            CliError::InvalidUrl(t) => {
                let mut m = "invalid URL: ".to_owned();
                m.append(t.as_str());
                m
            },
            CliError::InvalidPair(t) => {
                let mut m = "failed to parse key=value pair: ".to_owned();
                m.append(t.as_str());
                m
            },
        }
    }
}

fn find_eq(s: &str) -> (r: Option<usize>)
    ensures
        match r {
            Some(i) => i == find_char(s@, '='),
            None => find_char(s@, '=') == -1,
        },
{
    let n = s.unicode_len();
    let mut i: usize = 0;
    while i < n
        invariant
            i <= n,
            n == s@.len(),
            forall|j: int| 0 <= j < i ==> s@[j] != '=',
        decreases n - i,
    {
        if s.get_char(i) == '=' {
            proof {
                lemma_find_char(s@, '=');
                assert(s@.contains('='));
                let f = find_char(s@, '=');
                assert(f != -1);
                assert(f >= i) by {
                    if f < i {
                        assert(s@[f] != '=');
                    }
                }
                assert(f <= i) by {
                    if f > i {
                        assert(s@[i as int] != '=');
                    }
                }
            }
            return Some(i);
        }
        i += 1;
    }
    proof {
        lemma_find_char(s@, '=');
        if s@.contains('=') {
            let f = find_char(s@, '=');
            assert(s@[f] != '=');
        }
    }
    None
}

/// Parses one `key=value` token. The first `=` splits; a token without `=` is
/// rejected with an error naming the token.
pub fn parse_kv_pair(s: &str) -> (r: Result<KvPair, CliError>)
    ensures
        match kv_split(s@) {
            Some(kv) => r matches Ok(p) && p@ == kv,
            None => r matches Err(e) && e matches CliError::InvalidPair(t) && t@ == s@,
        },
        r is Ok <==> s@.contains('='),
{
    proof {
        lemma_find_char(s@, '=');
    }
    match find_eq(s) {
        Some(i) => {
            let n = s.unicode_len();
            let k = s.substring_char(0, i).to_owned();
            let v = s.substring_char(i + 1, n).to_owned();
            proof {
                assert(k@ =~= s@.take(i as int));
                assert(v@ =~= s@.skip(i + 1));
            }
            Ok(KvPair { k, v })
        },
        None => Err(CliError::InvalidPair(s.to_owned())),
    }
}

/// Whether a string parses as a syntactically well-formed absolute URL.
pub uninterp spec fn url_ok(s: Seq<char>) -> bool;

/// Relies on `reqwest::Url` (the `url` crate's parser, re-exported by
/// `reqwest`): whether a string parses as an absolute URL depends on its
/// characters alone.
#[verifier::external_body]
fn url_parses(s: &str) -> (r: bool)
    ensures
        r == url_ok(s@),
{
    s.parse::<reqwest::Url>().is_ok()
}

/// The HTTP method of a request this library plans.
#[derive(Clone, Copy, PartialEq, Eq, Structural, Debug)]
pub enum Method {
    Get,
    Post,
}

/// One planned HTTP request: a method, a validated URL, and for `post` the
/// text of the JSON object body.
pub struct RequestSpec {
    pub method: Method,
    pub url: String,
    pub body: Option<String>,
}

/// The views of a list of tokens, as character sequences.
pub open spec fn token_views(s: Seq<String>) -> Seq<Seq<char>> {
    s.map_values(|t: String| t@)
}

/// The key-value pairs of a token list in which every token splits.
pub open spec fn split_tokens(ts: Seq<Seq<char>>) -> Seq<(Seq<char>, Seq<char>)> {
    ts.map_values(|t: Seq<char>| kv_split(t)->0)
}

/// Plans a `get` request: a well-formed URL gives a GET with no body, and
/// anything else is rejected before any request exists.
pub fn plan_get(url: &str) -> (r: Result<RequestSpec, CliError>)
    ensures
        url_ok(url@) ==> (r matches Ok(rs) && rs.method == Method::Get && rs.url@ == url@
            && rs.body is None),
        !url_ok(url@) ==> (r matches Err(e) && e matches CliError::InvalidUrl(t) && t@ == url@),
{
    let u = match parse_url(url) {
        Ok(u) => u,
        Err(e) => {
            return Err(e);
        },
    };
    Ok(RequestSpec { method: Method::Get, url: u, body: None })
}

/// Plans a `post` request: a well-formed URL and tokens that all split as
/// `key=value` give a POST whose body is the JSON object the pairs denote
/// (duplicate keys collapse to the last occurrence). A malformed URL, or the
/// first token without `=`, is rejected before any request exists.
pub fn plan_post(url: &str, tokens: &Vec<String>) -> (r: Result<RequestSpec, CliError>)
    ensures
        !url_ok(url@) ==> (r matches Err(e) && e matches CliError::InvalidUrl(t) && t@ == url@),
        url_ok(url@) && (forall|i: int|
            0 <= i < tokens@.len() ==> token_views(tokens@)[i].contains('=')) ==> (r matches Ok(rs)
            && rs.method == Method::Post && rs.url@ == url@ && (rs.body matches Some(b) && b@
            == crate::body::json_object(
            crate::body::dedup_pairs(split_tokens(token_views(tokens@))),
        ))),
        url_ok(url@) && !(forall|i: int|
            0 <= i < tokens@.len() ==> token_views(tokens@)[i].contains('=')) ==> (r matches Err(e)
            && e matches CliError::InvalidPair(t) && exists|i: int|
            0 <= i < tokens@.len() && t@ == token_views(tokens@)[i] && !token_views(
                tokens@,
            )[i].contains('=') && forall|j: int|
                0 <= j < i ==> token_views(tokens@)[j].contains('=')),
{
    let u = match parse_url(url) {
        Ok(u) => u,
        Err(e) => {
            return Err(e);
        },
    };
    let ghost tvs = token_views(tokens@);
    let mut kvs: Vec<KvPair> = Vec::new();
    proof {
        assert(crate::body::kv_views(kvs@) =~= split_tokens(tvs.take(0)));
    }
    let mut i: usize = 0;
    while i < tokens.len()
        invariant
            i <= tokens@.len(),
            tvs == token_views(tokens@),
            tvs.len() == tokens@.len(),
            url_ok(url@),
            u@ == url@,
            forall|j: int| 0 <= j < i ==> tvs[j].contains('='),
            crate::body::kv_views(kvs@) == split_tokens(tvs.take(i as int)),
        decreases tokens@.len() - i,
    {
        proof {
            assert(tvs[i as int] == tokens@[i as int]@);
        }
        match parse_kv_pair(tokens[i].as_str()) {
            Ok(p) => {
                let ghost before = crate::body::kv_views(kvs@);
                kvs.push(p);
                proof {
                    assert(crate::body::kv_views(kvs@) =~= before.push(p@));
                    assert(split_tokens(tvs.take(i + 1)).drop_last() =~= split_tokens(
                        tvs.take(i as int),
                    ));
                    assert(split_tokens(tvs.take(i + 1)).last() == kv_split(tvs[i as int])->0);
                    assert(crate::body::kv_views(kvs@) =~= split_tokens(tvs.take(i + 1)));
                }
            },
            Err(e) => {
                return Err(e);
            },
        }
        i += 1;
    }
    proof {
        assert(tvs.take(tokens@.len() as int) =~= tvs);
    }
    let b = crate::body::assemble_body(&kvs);
    Ok(RequestSpec { method: Method::Post, url: u, body: Some(b) })
}

/// Validates a URL argument: hands the string back unchanged when it is a
/// well-formed URL, and rejects it with an error naming it otherwise.
pub fn parse_url(s: &str) -> (r: Result<String, CliError>)
    ensures
        url_ok(s@) ==> (r matches Ok(u) && u@ == s@),
        !url_ok(s@) ==> (r matches Err(e) && e matches CliError::InvalidUrl(t) && t@ == s@),
{
    if url_parses(s) {
        Ok(s.to_owned())
    } else {
        Err(CliError::InvalidUrl(s.to_owned()))
    }
}

} // verus!
