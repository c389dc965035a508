//! The data sources: a remote source that queries the package-tracking
//! service over HTTP, a captured source that re-parses one pre-read buffer,
//! and the backend that dispatches between them.

use vstd::prelude::*;

use crate::codec::{
    parse_packages, parse_problems, pkgs_view, probs_view, spec_packages_of_json,
    spec_problems_of_json,
};
use crate::error::RepologyError;
use crate::json::spec_parse_json;
use crate::strutil::{push_str_chars, string_from_chars};
use crate::types::{Package, PackageV, Problem, ProblemV};

verus! {

/// The packages a text holds: a JSON array of package objects.
pub open spec fn spec_text_packages(text: Seq<char>) -> Option<Seq<PackageV>> {
    match spec_parse_json(text) {
        Some(v) => spec_packages_of_json(v),
        None => None,
    }
}

/// The problem reports a text holds: a JSON array of problem objects.
pub open spec fn spec_text_problems(text: Seq<char>) -> Option<Seq<ProblemV>> {
    match spec_parse_json(text) {
        Some(v) => spec_problems_of_json(v),
        None => None,
    }
}

// ---------------------------------------------------------------------------
// Captured source
// ---------------------------------------------------------------------------

/// A captured source: the whole input is buffered once, owned exclusively,
/// and every query re-parses the same text as the record type that query
/// expects. A captured source is therefore single-purpose per run; callers
/// must only invoke the operation matching the data's actual shape.
pub struct BufferApi {
    buf: String,
}

impl BufferApi {
    /// The captured text.
    pub closed spec fn spec_buf(&self) -> Seq<char> {
        self.buf@
    }

    /// Builds a captured source from input text that was already read in
    /// full. Exclusive ownership of the buffer rules out reentrant access.
    pub fn read_from(input: String) -> (r: BufferApi)
        ensures
            r.spec_buf() == input@,
    {
        BufferApi { buf: input }
    }

    /// The captured text parsed as a package list; the queried name is
    /// ignored. Malformed text is a decode error.
    pub fn project(&self, _name: &str) -> (r: Result<Vec<Package>, RepologyError>)
        ensures
            (match spec_text_packages(self.spec_buf()) {
                Some(ps) => r is Ok && pkgs_view((r->Ok_0)@) == ps,
                None => r is Err && r->Err_0 is Decode,
            }),
    {
        parse_packages(self.buf.as_str())
    }

    /// The captured text parsed as a problem list; the queried repository is
    /// ignored.
    pub fn problems_for_repo(&self, _repo: &str) -> (r: Result<Vec<Problem>, RepologyError>)
        ensures
            (match spec_text_problems(self.spec_buf()) {
                Some(ps) => r is Ok && probs_view((r->Ok_0)@) == ps,
                None => r is Err && r->Err_0 is Decode,
            }),
    {
        parse_problems(self.buf.as_str())
    }

    /// The captured text parsed as a problem list; the queried maintainer
    /// and repository are ignored.
    pub fn problems_for_maintainer(&self, _maintainer: &str, _repo: &str) -> (r: Result<
        Vec<Problem>,
        RepologyError,
    >)
        ensures
            (match spec_text_problems(self.spec_buf()) {
                Some(ps) => r is Ok && probs_view((r->Ok_0)@) == ps,
                None => r is Err && r->Err_0 is Decode,
            }),
    {
        parse_problems(self.buf.as_str())
    }
}

// ---------------------------------------------------------------------------
// Remote source
// ---------------------------------------------------------------------------

/// An ASCII character that percent-encoding passes through unchanged.
pub open spec fn is_unreserved(c: char) -> bool {
    ('a' <= c && c <= 'z') || ('A' <= c && c <= 'Z') || ('0' <= c && c <= '9') || c == '-' || c
        == '.' || c == '_' || c == '~'
}

/// The upper-case hexadecimal digit for a value below sixteen.
pub open spec fn hex_digit_upper(v: int) -> char {
    if v < 10 {
        (48 + v) as char
    } else {
        (55 + v) as char
    }
}

/// The percent-encoding of one character: unreserved characters stand for
/// themselves, other ASCII characters are escaped, and characters beyond
/// ASCII are left for the transport to encode.
pub open spec fn url_esc_char(c: char) -> Seq<char> {
    if is_unreserved(c) {
        seq![c]
    } else if (c as u32) < 0x80 {
        seq!['%', hex_digit_upper(((c as u32) / 16) as int), hex_digit_upper(((c as u32) % 16) as int)]
    } else {
        seq![c]
    }
}

/// The percent-encoding of a query argument.
pub open spec fn url_escape(s: Seq<char>) -> Seq<char>
    decreases s.len(),
{
    if s.len() == 0 {
        Seq::empty()
    } else {
        url_esc_char(s[0]) + url_escape(s.drop_first())
    }
}

/// Escaping one more character appends its encoding.
proof fn lemma_url_escape_snoc(s: Seq<char>, c: char)
    ensures
        url_escape(s.push(c)) == url_escape(s) + url_esc_char(c),
    decreases s.len(),
{
    reveal_with_fuel(url_escape, 3);
    if s.len() == 0 {
        assert(s.push(c)[0] == c);
        assert(s.push(c).drop_first() =~= Seq::<char>::empty());
        assert(url_escape(s.push(c)) =~= url_esc_char(c));
        assert(url_escape(s) + url_esc_char(c) =~= url_esc_char(c));
    } else {
        lemma_url_escape_snoc(s.drop_first(), c);
        assert(s.push(c).drop_first() =~= s.drop_first().push(c));
        assert(s.push(c)[0] == s[0]);
        assert(url_escape(s) + url_esc_char(c) =~= url_esc_char(s[0]) + (url_escape(s.drop_first())
            + url_esc_char(c)));
    }
}

/// Appends the percent-encoding of the argument.
fn push_url_escaped(out: &mut Vec<char>, s: &str)
    ensures
        final(out)@ == old(out)@ + url_escape(s@),
{
    let n = s.unicode_len();
    let mut i: usize = 0;
    proof {
        assert(old(out)@ + url_escape(s@.take(0)) =~= old(out)@);
    }
    while i < n
        invariant
            i <= n,
            n == s@.len(),
            out@ == old(out)@ + url_escape(s@.take(i as int)),
        decreases n - i,
    {
        let c = s.get_char(i);
        if ('a' <= c && c <= 'z') || ('A' <= c && c <= 'Z') || ('0' <= c && c <= '9') || c == '-'
            || c == '.' || c == '_' || c == '~' {
            out.push(c);
            assert(out@ =~= old(out)@ + url_escape(s@.take(i as int)) + url_esc_char(c));
        } else if (c as u32) < 0x80 {
            out.push('%');
            let u = c as u32;
            let hi: char = if u / 16 < 10 {
                (48 + (u / 16) as u8) as char
            } else {
                (55 + (u / 16) as u8) as char
            };
            let lo: char = if u % 16 < 10 {
                (48 + (u % 16) as u8) as char
            } else {
                (55 + (u % 16) as u8) as char
            };
            out.push(hi);
            out.push(lo);
            assert(out@ =~= old(out)@ + url_escape(s@.take(i as int)) + url_esc_char(c));
        } else {
            out.push(c);
            assert(out@ =~= old(out)@ + url_escape(s@.take(i as int)) + url_esc_char(c));
        }
        proof {
            lemma_url_escape_snoc(s@.take(i as int), c);
            assert(s@.take(i as int).push(c) =~= s@.take(i as int + 1));
        }
        i += 1;
    }
    proof {
        assert(s@.take(i as int) =~= s@);
    }
}

/// The URL of a project query.
pub open spec fn spec_project_url(base: Seq<char>, name: Seq<char>) -> Seq<char> {
    base + "api/v1/project/"@ + url_escape(name)
}

/// The URL of a repository problems query.
pub open spec fn spec_repo_problems_url(base: Seq<char>, repo: Seq<char>) -> Seq<char> {
    base + "api/v1/repository/"@ + url_escape(repo) + "/problems"@
}

/// The URL of a maintainer problems query, restricted to one repository.
pub open spec fn spec_maintainer_problems_url(
    base: Seq<char>,
    maintainer: Seq<char>,
    repo: Seq<char>,
) -> Seq<char> {
    base + "api/v1/maintainer/"@ + url_escape(maintainer) + "/problems-for-repo/"@ + url_escape(
        repo,
    )
}

/// Relies on curl's `Easy`: performs one blocking GET of the URL and returns
/// the response body with the HTTP status code. The outcome depends on the
/// network, so nothing is promised of it.
#[verifier::external_body]
fn http_get(url: &str) -> (r: Result<(Vec<u8>, u32), RepologyError>)
    ensures
        r is Err ==> r->Err_0 is Transport,
{
    let mut easy = curl::easy::Easy::new();
    let mut buf: Vec<u8> = Vec::new();
    let out = easy.url(url).and_then(|_| easy.get(true)).and_then(|_| {
        let mut t = easy.transfer();
        t.write_function(|d| {
            buf.extend_from_slice(d);
            Ok(d.len())
        }).and_then(|_| t.perform())
    }).and_then(|_| easy.response_code());
    match out {
        Ok(code) => Ok((buf, code)),
        Err(e) => Err(RepologyError::Transport(e.to_string())),
    }
}

/// Relies on `String::from_utf8`: succeeds exactly on valid UTF-8 and
/// decodes it.
#[verifier::external_body]
fn utf8_to_string(b: Vec<u8>) -> (r: Option<String>)
    ensures
        r is Some <==> vstd::utf8::valid_utf8(b@),
        r is Some ==> (r->0)@ == vstd::utf8::decode_utf8(b@),
{
    String::from_utf8(b).ok()
}

/// Classifies one HTTP response, whatever the network returned: the decoded
/// body of a 2xx response; a transport error for any other status; a decode
/// error for a 2xx body that is not valid UTF-8.
pub fn decode_response(body: Vec<u8>, code: u32) -> (r: Result<String, RepologyError>)
    ensures
        (200 <= code && code < 300 && vstd::utf8::valid_utf8(body@)) ==> (r is Ok
            && (r->Ok_0)@ == vstd::utf8::decode_utf8(body@)),
        !(200 <= code && code < 300) ==> (r is Err && r->Err_0 is Transport),
        (200 <= code && code < 300 && !vstd::utf8::valid_utf8(body@)) ==> (r is Err
            && r->Err_0 is Decode),
{
    if 200 <= code && code < 300 {
        match utf8_to_string(body) {
            Some(s) => Ok(s),
            None => Err(RepologyError::Decode(String::from_str("response is not UTF-8"))),
        }
    } else {
        Err(RepologyError::Transport(String::from_str("HTTP status not in 2xx")))
    }
}

/// A remote source: it builds each query URL over the configured base URL
/// (trailing slash required), issues one blocking GET, and parses the
/// response body. A transport failure or a non-2xx status is a transport
/// error; a body that is not UTF-8 or not the expected JSON is a decode
/// error. Nothing is retried.
pub struct RestApi {
    repology: String,
}

impl RestApi {
    /// The configured base URL.
    pub closed spec fn spec_base(&self) -> Seq<char> {
        self.repology@
    }

    pub fn new(repology: String) -> (r: RestApi)
        ensures
            r.spec_base() == repology@,
    {
        RestApi { repology }
    }

    /// Fetches one URL once, never retrying. What came back is classified by
    /// `decode_response`, whose contract pins the outcome for every body and
    /// status; a failure before any response is a transport error.
    fn send_request(&self, url: &str) -> (r: Result<String, RepologyError>)
        ensures
            r is Err ==> (r->Err_0 is Transport || r->Err_0 is Decode),
    {
        match http_get(url) {
            Ok((body, code)) => decode_response(body, code),
            Err(e) => Err(e),
        }
    }

    /// Queries the project endpoint and parses the body as a package list.
    /// Whatever body came back, the result holds exactly the records of that
    /// body or the error that parsing it produced.
    pub fn project(&self, name: &str) -> (r: Result<Vec<Package>, RepologyError>)
        ensures
            r is Ok ==> spec_text_packages_of((r->Ok_0)@),
            r is Err ==> (r->Err_0 is Transport || r->Err_0 is Decode),
    {
        let url = self.project_url(name);
        match self.send_request(url.as_str()) {
            Ok(body) => parse_packages_checked(body.as_str()),
            Err(e) => Err(e),
        }
    }

    /// The URL the project query uses.
    pub fn project_url(&self, name: &str) -> (r: String)
        ensures
            r@ == spec_project_url(self.spec_base(), name@),
    {
        let mut out: Vec<char> = Vec::new();
        push_str_chars(&mut out, self.repology.as_str());
        push_str_chars(&mut out, "api/v1/project/");
        push_url_escaped(&mut out, name);
        string_from_chars(out.as_slice())
    }

    /// The URL the repository problems query uses.
    pub fn repo_problems_url(&self, repo: &str) -> (r: String)
        ensures
            r@ == spec_repo_problems_url(self.spec_base(), repo@),
    {
        let mut out: Vec<char> = Vec::new();
        push_str_chars(&mut out, self.repology.as_str());
        push_str_chars(&mut out, "api/v1/repository/");
        push_url_escaped(&mut out, repo);
        push_str_chars(&mut out, "/problems");
        string_from_chars(out.as_slice())
    }

    /// The URL the maintainer problems query uses.
    pub fn maintainer_problems_url(&self, maintainer: &str, repo: &str) -> (r: String)
        ensures
            r@ == spec_maintainer_problems_url(self.spec_base(), maintainer@, repo@),
    {
        let mut out: Vec<char> = Vec::new();
        push_str_chars(&mut out, self.repology.as_str());
        push_str_chars(&mut out, "api/v1/maintainer/");
        push_url_escaped(&mut out, maintainer);
        push_str_chars(&mut out, "/problems-for-repo/");
        push_url_escaped(&mut out, repo);
        string_from_chars(out.as_slice())
    }

    /// Queries the repository problems endpoint and parses the body as a
    /// problem list.
    pub fn problems_for_repo(&self, repo: &str) -> (r: Result<Vec<Problem>, RepologyError>)
        ensures
            r is Ok ==> spec_text_problems_of((r->Ok_0)@),
            r is Err ==> (r->Err_0 is Transport || r->Err_0 is Decode),
    {
        let url = self.repo_problems_url(repo);
        match self.send_request(url.as_str()) {
            Ok(body) => parse_problems_checked(body.as_str()),
            Err(e) => Err(e),
        }
    }

    /// Queries the maintainer problems endpoint and parses the body as a
    /// problem list.
    pub fn problems_for_maintainer(&self, maintainer: &str, repo: &str) -> (r: Result<
        Vec<Problem>,
        RepologyError,
    >)
        ensures
            r is Ok ==> spec_text_problems_of((r->Ok_0)@),
            r is Err ==> (r->Err_0 is Transport || r->Err_0 is Decode),
    {
        let url = self.maintainer_problems_url(maintainer, repo);
        match self.send_request(url.as_str()) {
            Ok(body) => parse_problems_checked(body.as_str()),
            Err(e) => Err(e),
        }
    }
}

/// Whether some text parses to exactly these package records.
pub open spec fn spec_text_packages_of(ps: Seq<Package>) -> bool {
    exists|text: Seq<char>| spec_text_packages(text) == Some(pkgs_view(ps))
}

/// Whether some text parses to exactly these problem records.
pub open spec fn spec_text_problems_of(ps: Seq<Problem>) -> bool {
    exists|text: Seq<char>| spec_text_problems(text) == Some(probs_view(ps))
}

/// Parses a body as a package list, pinning the result to the body.
fn parse_packages_checked(text: &str) -> (r: Result<Vec<Package>, RepologyError>)
    ensures
        (match spec_text_packages(text@) {
            Some(ps) => r is Ok && pkgs_view((r->Ok_0)@) == ps,
            None => r is Err && r->Err_0 is Decode,
        }),
        r is Ok ==> spec_text_packages_of((r->Ok_0)@),
{
    let r = parse_packages(text);
    proof {
        if spec_text_packages(text@) is Some {
            assert(spec_text_packages_of((r->Ok_0)@)) by {
                assert(spec_text_packages(text@) == Some(pkgs_view((r->Ok_0)@)));
            }
        }
    }
    r
}

/// Parses a body as a problem list, pinning the result to the body.
fn parse_problems_checked(text: &str) -> (r: Result<Vec<Problem>, RepologyError>)
    ensures
        (match spec_text_problems(text@) {
            Some(ps) => r is Ok && probs_view((r->Ok_0)@) == ps,
            None => r is Err && r->Err_0 is Decode,
        }),
        r is Ok ==> spec_text_problems_of((r->Ok_0)@),
{
    let r = parse_problems(text);
    proof {
        if spec_text_problems(text@) is Some {
            assert(spec_text_problems_of((r->Ok_0)@)) by {
                assert(spec_text_problems(text@) == Some(probs_view((r->Ok_0)@)));
            }
        }
    }
    r
}

// ---------------------------------------------------------------------------
// Backend
// ---------------------------------------------------------------------------

/// The source a run uses: a captured buffer or the remote service. Callers
/// dispatch through this type and never downcast to a concrete variant.
pub enum Backend {
    Buffer(BufferApi),
    RepologyOrg(RestApi),
}

impl Backend {
    /// Fetches the packages of a project. Through a captured source the
    /// result is exactly what the buffer holds; through the remote source it
    /// is exactly what the response body held.
    pub fn project(&self, name: &str) -> (r: Result<Vec<Package>, RepologyError>)
        ensures
            (self is Buffer ==> (match spec_text_packages(self->Buffer_0.spec_buf()) {
                Some(ps) => r is Ok && pkgs_view((r->Ok_0)@) == ps,
                None => r is Err && r->Err_0 is Decode,
            })),
            r is Ok ==> spec_text_packages_of((r->Ok_0)@),
            r is Err ==> (r->Err_0 is Transport || r->Err_0 is Decode),
    {
        match self {
            Backend::Buffer(inner) => {
                let r = inner.project(name);
                proof {
                    if spec_text_packages(inner.spec_buf()) is Some {
                        assert(spec_text_packages(inner.spec_buf()) == Some(
                            pkgs_view((r->Ok_0)@),
                        ));
                    }
                }
                r
            },
            Backend::RepologyOrg(inner) => inner.project(name),
        }
    }

    /// Fetches the problem reports of a repository.
    pub fn problems_for_repo(&self, repo: &str) -> (r: Result<Vec<Problem>, RepologyError>)
        ensures
            (self is Buffer ==> (match spec_text_problems(self->Buffer_0.spec_buf()) {
                Some(ps) => r is Ok && probs_view((r->Ok_0)@) == ps,
                None => r is Err && r->Err_0 is Decode,
            })),
            r is Ok ==> spec_text_problems_of((r->Ok_0)@),
            r is Err ==> (r->Err_0 is Transport || r->Err_0 is Decode),
    {
        match self {
            Backend::Buffer(inner) => {
                let r = inner.problems_for_repo(repo);
                proof {
                    if spec_text_problems(inner.spec_buf()) is Some {
                        assert(spec_text_problems(inner.spec_buf()) == Some(
                            probs_view((r->Ok_0)@),
                        ));
                    }
                }
                r
            },
            Backend::RepologyOrg(inner) => inner.problems_for_repo(repo),
        }
    }

    /// Fetches the problem reports of a maintainer within one repository.
    pub fn problems_for_maintainer(&self, maintainer: &str, repo: &str) -> (r: Result<
        Vec<Problem>,
        RepologyError,
    >)
        ensures
            (self is Buffer ==> (match spec_text_problems(self->Buffer_0.spec_buf()) {
                Some(ps) => r is Ok && probs_view((r->Ok_0)@) == ps,
                None => r is Err && r->Err_0 is Decode,
            })),
            r is Ok ==> spec_text_problems_of((r->Ok_0)@),
            r is Err ==> (r->Err_0 is Transport || r->Err_0 is Decode),
    {
        match self {
            Backend::Buffer(inner) => {
                let r = inner.problems_for_maintainer(maintainer, repo);
                proof {
                    if spec_text_problems(inner.spec_buf()) is Some {
                        assert(spec_text_problems(inner.spec_buf()) == Some(
                            probs_view((r->Ok_0)@),
                        ));
                    }
                }
                r
            },
            Backend::RepologyOrg(inner) => inner.problems_for_maintainer(maintainer, repo),
        }
    }
}

} // verus!
