//! A project on the service: the requests that the client sends for it and
//! what it makes of the replies.

use vstd::prelude::*;

use crate::external::{
    format_uuid, join_url, json_string_object, parse_json_string_object, parse_url, text_option,
    url_joined, url_parsed, uuid_text,
};
use crate::string_map::{pairs_map, StringMap};
use crate::text::{decimal_text, push_decimal};
use crate::types::{all_done, ComparisonResult};

verus! {

/// The address of the hosted service.
pub const DEFAULT_URL: &'static str = "https://pixel-eagle.com";

/// A project: the service it lives on and the token that grants access.
pub struct Project {
    /// The serialization of the service's URL.
    pub url: String,
    /// The project's token.
    pub token: String,
}

/// The HTTP method of a request.
#[derive(Clone, Copy, PartialEq, Eq, Structural, Debug)]
pub enum Method {
    Get,
    Post,
}

/// What a request carries.
pub enum RequestBody {
    /// Nothing.
    Empty,
    /// A JSON object of strings.
    Json(StringMap),
    /// A JSON list of `[name, hash]` pairs.
    Hashes(Vec<(String, String)>),
    /// A multipart form: the text field `screenshot` holding the name, and
    /// the part `data` holding the content of the file at `path`.
    Screenshot { name: String, path: String },
}

/// A request to the service. Requests that carry a token also carry the
/// client's `User-Agent`.
pub struct Request {
    pub method: Method,
    /// The full URL.
    pub url: String,
    /// The bearer token, for requests that need one.
    pub token: Option<String>,
    pub body: RequestBody,
}

/// Why a request could not be built.
#[derive(Clone, Copy, PartialEq, Eq, Structural, Debug)]
pub enum RequestError {
    /// The metadata is not a JSON object of strings.
    InvalidMetadata,
    /// The path does not resolve against the service URL.
    InvalidUrl,
}

/// The path of a run.
pub open spec fn run_path(run_id: u32) -> Seq<char> {
    "runs/"@ + decimal_text(run_id as nat)
}

/// The path of the hashes of a run's screenshots.
pub open spec fn hashes_path(run_id: u32) -> Seq<char> {
    run_path(run_id) + "/hashes"@
}

/// The path of the comparison of two runs.
pub open spec fn compare_path(a: u32, b: u32) -> Seq<char> {
    run_path(a) + "/compare/"@ + decimal_text(b as nat)
}

/// The path of the comparison of a run with the run that metadata selects.
pub open spec fn compare_auto_path(a: u32) -> Seq<char> {
    run_path(a) + "/compare/auto"@
}

/// The path of a screenshot's file.
pub open spec fn screenshot_file_path(project_id: u128, hash: Seq<char>) -> Seq<char> {
    "files/"@ + uuid_text(project_id) + "/screenshot/"@ + hash
}

/// The path of the diff image of two screenshots.
pub open spec fn diff_file_path(project_id: u128, a: Seq<char>, b: Seq<char>) -> Seq<char> {
    "files/"@ + uuid_text(project_id) + "/diff/"@ + a + "/"@ + b
}

/// The metadata that a run is created with: none gives an empty map, a text
/// gives the JSON object of strings that it holds.
pub open spec fn metadata_map(metadata: Option<Seq<char>>) -> Option<Map<Seq<char>, Seq<char>>> {
    match metadata {
        None => Some(Map::empty()),
        Some(t) => match json_string_object(t) {
            Some(entries) => Some(pairs_map(entries)),
            None => None,
        },
    }
}

/// Whether an HTTP status reports success (200 to 299).
pub open spec fn success_status(status: u16) -> bool {
    200 <= status && status <= 299
}

/// Whether an HTTP status reports success.
pub fn is_success(status: u16) -> (r: bool)
    ensures
        r == success_status(status),
{
    200 <= status && status <= 299
}

/// The message for a download that the service refused.
pub open spec fn download_failure_text(what: Seq<char>, status: u16) -> Seq<char> {
    "Failed to download "@ + what + " (HTTP "@ + decimal_text(status as nat) + ")"@
}

/// The message for a download of `what` that the service refused.
pub fn download_failure(what: &str, status: u16) -> (r: String)
    ensures
        r@ == download_failure_text(what@, status),
{
    let mut out = String::new();
    out.append("Failed to download ");
    out.append(what);
    out.append(" (HTTP ");
    push_decimal(&mut out, status as u128);
    out.append(")");
    proof {
        assert(out@ =~= download_failure_text(what@, status));
    }
    out
}

/// What to do next while waiting for a comparison to finish.
#[derive(Clone, Copy, PartialEq, Eq, Structural, Debug)]
pub enum WaitStep {
    /// Every changed screenshot has been compared.
    Finished,
    /// The time allowed has passed.
    TimedOut,
    /// Fetch the comparison of these runs again, after a pause.
    Poll { from: u32, to: u32 },
}

/// What to do while waiting for `comparison`, `elapsed_nanos` after the wait
/// began, with `wait_timeout` seconds allowed: stop when it is finished,
/// else give up once more than the timeout has passed, else fetch it again.
pub open spec fn wait_step_spec(comparison: ComparisonResult, elapsed_nanos: u128, wait_timeout: u32) -> WaitStep {
    if all_done(comparison.diff@) {
        WaitStep::Finished
    } else if elapsed_nanos > wait_timeout * 1_000_000_000 {
        WaitStep::TimedOut
    } else {
        WaitStep::Poll { from: comparison.from, to: comparison.to }
    }
}

/// What to do while waiting for a comparison to finish.
pub fn wait_step(comparison: &ComparisonResult, elapsed_nanos: u128, wait_timeout: u32) -> (r: WaitStep)
    ensures
        r == wait_step_spec(*comparison, elapsed_nanos, wait_timeout),
{
    if comparison.is_finished() {
        WaitStep::Finished
    } else if elapsed_nanos > wait_timeout as u128 * 1_000_000_000 {
        WaitStep::TimedOut
    } else {
        WaitStep::Poll { from: comparison.from, to: comparison.to }
    }
}

/// Appends the path of a run.
fn push_run_path(out: &mut String, run_id: u32)
    ensures
        final(out)@ == old(out)@ + run_path(run_id),
{
    out.append("runs/");
    push_decimal(out, run_id as u128);
    proof {
        assert(final(out)@ =~= old(out)@ + run_path(run_id));
    }
}

impl Project {
    /// A project on the service at `url`.
    pub fn new(url: &str, token: String) -> (r: Project)
        requires
            url_parsed(url@) is Some,
        ensures
            r.url@ == url_parsed(url@)->0,
            r.token == token,
    {
        match parse_url(url) {
            Some(u) => Project { url: u, token },
            None => {
                proof {
                    assert(false);
                }
                Project { url: String::new(), token }
            },
        }
    }

    /// A project on the service at `url`, where the URL parses.
    pub fn try_new(url: &str, token: String) -> (r: Option<Project>)
        ensures
            r is Some <==> url_parsed(url@) is Some,
            r matches Some(p) ==> p.url@ == url_parsed(url@)->0 && p.token == token,
    {
        match parse_url(url) {
            Some(_) => Some(Project::new(url, token)),
            None => None,
        }
    }

    /// A project on the hosted service, at `DEFAULT_URL`.
    pub fn hosted(token: String) -> (r: Option<Project>)
        ensures
            r is Some <==> url_parsed(DEFAULT_URL@) is Some,
            r matches Some(p) ==> p.url@ == url_parsed(DEFAULT_URL@)->0 && p.token == token,
    {
        Project::try_new(DEFAULT_URL, token)
    }

    /// Records in a comparison the service it came from.
    pub fn set_comparison_url(&self, comparison: &mut ComparisonResult)
        ensures
            final(comparison).project_url == Some(self.url),
            final(comparison).project_id == old(comparison).project_id,
            final(comparison).from == old(comparison).from,
            final(comparison).to == old(comparison).to,
            final(comparison).missing == old(comparison).missing,
            final(comparison).new == old(comparison).new,
            final(comparison).diff == old(comparison).diff,
            final(comparison).unchanged == old(comparison).unchanged,
    {
        comparison.project_url = Some(self.url.clone());
    }

    /// A request with the project's token, to `path` on the service.
    fn request(&self, method: Method, path: &str, body: RequestBody) -> (r: Option<Request>)
        ensures
            text_option(
                match r {
                    Some(q) => Some(q.url),
                    None => None,
                },
            ) == url_joined(self.url@, path@),
            r matches Some(q) ==> q.method == method && q.token == Some(self.token) && q.body
                == body,
    {
        match join_url(self.url.as_str(), path) {
            Some(url) => Some(Request { method, url, token: Some(self.token.clone()), body }),
            None => None,
        }
    }

    /// The request that creates a run with the given metadata (a JSON
    /// object of strings).
    pub fn create_run_request(&self, metadata: Option<String>) -> (r: Result<Request, RequestError>)
        ensures
            metadata_map(text_option(metadata)) is None ==> r == Err::<Request, RequestError>(
                RequestError::InvalidMetadata,
            ),
            metadata_map(text_option(metadata)) is Some ==> match r {
                Ok(q) => {
                    &&& url_joined(self.url@, "runs"@) == Some(q.url@)
                    &&& q.method == Method::Post
                    &&& q.token == Some(self.token)
                    &&& q.body matches RequestBody::Json(m) && m@ == metadata_map(
                        text_option(metadata),
                    )->0
                },
                Err(e) => e == RequestError::InvalidUrl && url_joined(self.url@, "runs"@) is None,
            },
    {
        let map = match metadata {
            None => StringMap::new(),
            Some(text) => match parse_json_string_object(text.as_str()) {
                Ok(entries) => {
                    let ghost pairs = entries@.map_values(|e: (String, String)| (e.0@, e.1@));
                    let mut map = StringMap::new();
                    let mut i: usize = 0;
                    while i < entries.len()
                        invariant
                            i <= entries@.len(),
                            pairs == entries@.map_values(|e: (String, String)| (e.0@, e.1@)),
                            map@ == pairs_map(pairs.take(i as int)),
                        decreases entries@.len() - i,
                    {
                        map.insert(entries[i].0.clone(), entries[i].1.clone());
                        proof {
                            assert(pairs.take(i + 1).drop_last() =~= pairs.take(i as int));
                            assert(pairs.take(i + 1).last() == pairs[i as int]);
                        }
                        i = i + 1;
                    }
                    proof {
                        assert(pairs.take(i as int) =~= pairs);
                    }
                    map
                },
                Err(_) => {
                    return Err(RequestError::InvalidMetadata);
                },
            },
        };
        match self.request(Method::Post, "runs", RequestBody::Json(map)) {
            Some(q) => Ok(q),
            None => Err(RequestError::InvalidUrl),
        }
    }

    /// The request that uploads the screenshot at `path` under `name` to a
    /// run.
    pub fn upload_request(&self, run_id: u32, path: String, name: String) -> (r: Option<Request>)
        ensures
            text_option(
                match r {
                    Some(q) => Some(q.url),
                    None => None,
                },
            ) == url_joined(self.url@, run_path(run_id)),
            r matches Some(q) ==> q.method == Method::Post && q.token == Some(self.token)
                && q.body == (RequestBody::Screenshot { name, path }),
    {
        let mut p = String::new();
        push_run_path(&mut p, run_id);
        proof {
            assert(p@ =~= run_path(run_id));
        }
        self.request(Method::Post, p.as_str(), RequestBody::Screenshot { name, path })
    }

    /// The request that sends the hashes of screenshots of a run, as
    /// `[name, hash]` pairs, so that the service answers which it lacks.
    pub fn hashes_request(&self, run_id: u32, name_hash: Vec<(String, String)>) -> (r: Option<
        Request,
    >)
        ensures
            text_option(
                match r {
                    Some(q) => Some(q.url),
                    None => None,
                },
            ) == url_joined(self.url@, hashes_path(run_id)),
            r matches Some(q) ==> q.method == Method::Post && q.token == Some(self.token)
                && q.body == RequestBody::Hashes(name_hash),
    {
        let mut p = String::new();
        push_run_path(&mut p, run_id);
        p.append("/hashes");
        proof {
            assert(p@ =~= hashes_path(run_id));
        }
        self.request(Method::Post, p.as_str(), RequestBody::Hashes(name_hash))
    }

    /// The request that triggers (`Post`) or fetches (`Get`) the comparison
    /// of run `a` with run `b`.
    pub fn comparison_request(&self, method: Method, a: u32, b: u32) -> (r: Option<Request>)
        ensures
            text_option(
                match r {
                    Some(q) => Some(q.url),
                    None => None,
                },
            ) == url_joined(self.url@, compare_path(a, b)),
            r matches Some(q) ==> q.method == method && q.token == Some(self.token) && q.body
                == RequestBody::Empty,
    {
        let mut p = String::new();
        push_run_path(&mut p, a);
        p.append("/compare/");
        push_decimal(&mut p, b as u128);
        proof {
            assert(p@ =~= compare_path(a, b));
        }
        self.request(method, p.as_str(), RequestBody::Empty)
    }

    /// The request that compares run `a` with the run that `metadata`
    /// selects.
    pub fn compare_auto_request(&self, a: u32, metadata: StringMap) -> (r: Option<Request>)
        ensures
            text_option(
                match r {
                    Some(q) => Some(q.url),
                    None => None,
                },
            ) == url_joined(self.url@, compare_auto_path(a)),
            r matches Some(q) ==> q.method == Method::Post && q.token == Some(self.token)
                && q.body == RequestBody::Json(metadata),
    {
        let mut p = String::new();
        push_run_path(&mut p, a);
        p.append("/compare/auto");
        proof {
            assert(p@ =~= compare_auto_path(a));
        }
        self.request(Method::Post, p.as_str(), RequestBody::Json(metadata))
    }

    /// A request without token to a file of the service.
    fn file_request(&self, path: &str) -> (r: Option<Request>)
        ensures
            text_option(
                match r {
                    Some(q) => Some(q.url),
                    None => None,
                },
            ) == url_joined(self.url@, path@),
            r matches Some(q) ==> q.method == Method::Get && q.token is None && q.body
                == RequestBody::Empty,
    {
        match join_url(self.url.as_str(), path) {
            Some(url) => Some(Request { method: Method::Get, url, token: None, body: RequestBody::Empty }),
            None => None,
        }
    }

    /// The request that downloads the screenshot with the given hash.
    pub fn download_screenshot_request(&self, project_id: u128, hash: &str) -> (r: Option<Request>)
        ensures
            text_option(
                match r {
                    Some(q) => Some(q.url),
                    None => None,
                },
            ) == url_joined(self.url@, screenshot_file_path(project_id, hash@)),
            r matches Some(q) ==> q.method == Method::Get && q.token is None && q.body
                == RequestBody::Empty,
    {
        let mut p = String::new();
        p.append("files/");
        let id = format_uuid(project_id);
        p.append(id.as_str());
        p.append("/screenshot/");
        p.append(hash);
        proof {
            assert(p@ =~= screenshot_file_path(project_id, hash@));
        }
        self.file_request(p.as_str())
    }

    /// The request that downloads the diff image of two screenshots.
    pub fn download_diff_request(&self, project_id: u128, hash_a: &str, hash_b: &str) -> (r: Option<
        Request,
    >)
        ensures
            text_option(
                match r {
                    Some(q) => Some(q.url),
                    None => None,
                },
            ) == url_joined(self.url@, diff_file_path(project_id, hash_a@, hash_b@)),
            r matches Some(q) ==> q.method == Method::Get && q.token is None && q.body
                == RequestBody::Empty,
    {
        let mut p = String::new();
        p.append("files/");
        let id = format_uuid(project_id);
        p.append(id.as_str());
        p.append("/diff/");
        p.append(hash_a);
        p.append("/");
        p.append(hash_b);
        proof {
            assert(p@ =~= diff_file_path(project_id, hash_a@, hash_b@));
        }
        self.file_request(p.as_str())
    }
}

} // verus!
