//! How a request is answered from the object store: what is fetched, and what
//! each answer of the store leads to.
use vstd::prelude::*;
use vstd::slice::slice_to_vec;
use vstd::string::*;
use vstd::utf8;

use crate::http;
use crate::http::{
    find_value, is_valid_value, plain, preflight, redirect, text_of_value, with_cors, Body,
    BodyView, Header, Method, Response, ResponseView,
};
use crate::number;
use crate::number::parse_text;
use crate::site;
use crate::site::{
    cache_control_for, decode_pathname, encode_object_key, file_name_of, normalize_bucket,
    normalize_endpoint, normalize_host,
};
use crate::text;
use crate::text::{has_char, has_prefix, same_text, to_chars};

verus! {

/// A request for a page.
pub struct Request {
    pub method: Method,
    /// The path as it was sent, percent-encoded.
    pub path: String,
    pub query: Option<String>,
    pub headers: Vec<Header>,
}

/// A request as a mathematical value.
pub struct RequestView {
    pub method: Method,
    pub path: Seq<char>,
    pub query: Option<Seq<char>>,
    pub headers: Seq<(Seq<char>, Seq<u8>)>,
}

impl View for Request {
    type V = RequestView;

    open spec fn view(&self) -> RequestView {
        RequestView {
            method: self.method,
            path: self.path@,
            query: match self.query {
                Some(s) => Some(s@),
                None => None,
            },
            headers: http::fields(self.headers@),
        }
    }
}

/// The head of an answer of the store.
pub struct Upstream {
    pub status: u16,
    pub headers: Vec<Header>,
}

/// The head of an answer of the store as a mathematical value.
pub struct UpstreamView {
    pub status: u16,
    pub headers: Seq<(Seq<char>, Seq<u8>)>,
}

impl View for Upstream {
    type V = UpstreamView;

    open spec fn view(&self) -> UpstreamView {
        UpstreamView { status: self.status, headers: http::fields(self.headers@) }
    }
}

/// What an object is fetched for.
#[derive(Clone, Copy, PartialEq, Eq, Structural, Debug)]
pub enum Stage {
    /// The object that the request names.
    Object,
    /// The index of the directory that the path may name.
    Directory,
    /// The object that the request names, once more.
    Again,
    /// The page that says that there is no such object.
    Missing,
}

/// A request that waits for an answer of the store.
pub struct Fetch {
    pub method: Method,
    pub host: String,
    /// The decoded path of the request.
    pub path: String,
    /// The path of the object that the request names.
    pub object: String,
    /// Where the request belongs if its path names a directory.
    pub location: String,
    pub stage: Stage,
}

/// A waiting request as a mathematical value.
pub struct FetchView {
    pub method: Method,
    pub host: Seq<char>,
    pub path: Seq<char>,
    pub object: Seq<char>,
    pub location: Seq<char>,
    pub stage: Stage,
}

impl View for Fetch {
    type V = FetchView;

    open spec fn view(&self) -> FetchView {
        FetchView {
            method: self.method,
            host: self.host@,
            path: self.path@,
            object: self.object@,
            location: self.location@,
            stage: self.stage,
        }
    }
}

impl FetchView {
    /// The path of the object that is fetched.
    pub open spec fn target(self) -> Seq<char> {
        match self.stage {
            Stage::Object => self.object,
            Stage::Directory => self.path + "/index.html"@,
            Stage::Again => self.object,
            Stage::Missing => "/404.html"@,
        }
    }

    /// The same request, waiting for something else.
    pub open spec fn at(self, stage: Stage) -> FetchView {
        FetchView { stage, ..self }
    }

    /// How many fetches may still come.
    pub open spec fn rank(self) -> nat {
        match self.stage {
            Stage::Object => 4,
            Stage::Directory => 3,
            Stage::Again => 2,
            Stage::Missing => 1,
        }
    }
}

/// What the gateway does next with a request.
pub enum Action {
    /// It answers.
    Reply(Response),
    /// It fetches an object and goes on with the answer of the store.
    Wait(Fetch),
    /// It answers from the notes in memory, for the decoded path.
    Notes(String),
}

/// What the gateway does next, as a mathematical value.
pub enum ActionView {
    Reply(ResponseView),
    Wait(FetchView),
    Notes(Seq<char>),
}

impl View for Action {
    type V = ActionView;

    open spec fn view(&self) -> ActionView {
        match self {
            Action::Reply(response) => ActionView::Reply(response@),
            Action::Wait(fetch) => ActionView::Wait(fetch@),
            Action::Notes(path) => ActionView::Notes(path@),
        }
    }
}

/// The value of the host header, where it is text.
pub open spec fn host_header(headers: Seq<(Seq<char>, Seq<u8>)>) -> Option<Seq<char>> {
    match http::first_value(headers, "host"@) {
        Some(value) => http::value_text(value),
        None => None,
    }
}

/// The host that a request is for.
pub open spec fn request_host(request: RequestView) -> Option<Seq<char>> {
    match host_header(request.headers) {
        Some(value) => site::normalized_host(value),
        None => None,
    }
}

/// The host whose notes are kept in memory.
pub const NOTES_HOST: &'static str = "zexi.me";

/// A path of the notes that are kept in memory.
pub open spec fn is_notes_path(path: Seq<char>) -> bool {
    ||| path == "/"@
    ||| path == "/index.html"@
    ||| path == "/llms.txt"@
    ||| path == "/feed/search.json"@
    ||| text::starts_with(path, "/feed/runtime/"@)
}

/// A path where notes were found once.
pub open spec fn is_retired_path(path: Seq<char>) -> bool {
    ||| path == "/llm"@
    ||| path == "/llm.md"@
    ||| path == "/index.md"@
    ||| path == "/rss.xml"@
    ||| path == "/articles.json"@
}

/// The path of the object that a path names: the index of a directory, or the
/// path itself.
pub open spec fn object_path(path: Seq<char>) -> Seq<char> {
    if path.len() > 0 && path.last() == '/' {
        path + "index.html"@
    } else {
        path
    }
}

/// Where a request belongs if its path names a directory: the path with a slash,
/// and the query.
pub open spec fn directory_location(path: Seq<char>, query: Option<Seq<char>>) -> Seq<char> {
    match query {
        Some(query) => path + "/"@ + "?"@ + query,
        None => path + "/"@,
    }
}

/// What the gateway does first with a request.
pub open spec fn begun(request: RequestView) -> ActionView {
    if request.method == Method::Options {
        ActionView::Reply(http::bare(204, BodyView::Empty).with_cors())
    } else if request.path == "/healthz"@ || request.path == "/readyz"@ {
        ActionView::Reply(http::plain_response(200, "ok"@))
    } else if request.method != Method::Get && request.method != Method::Head {
        ActionView::Reply(
            http::plain_response(405, "method not allowed"@).with("allow"@, "GET, HEAD"@),
        )
    } else {
        match (request_host(request), site::decoded_path(request.path)) {
            (Some(host), Some(path)) => if host == NOTES_HOST@ && is_retired_path(path) {
                ActionView::Reply(http::plain_response(410, "gone"@))
            } else if host == NOTES_HOST@ && is_notes_path(path) {
                ActionView::Notes(path)
            } else {
                ActionView::Wait(
                    FetchView {
                        method: request.method,
                        host,
                        path,
                        object: object_path(path),
                        location: directory_location(request.path, request.query),
                        stage: Stage::Object,
                    },
                )
            },
            _ => ActionView::Reply(http::plain_response(400, "bad request"@)),
        }
    }
}

/// A status that says that the store gave what was asked for.
pub open spec fn is_success(status: u16) -> bool {
    200 <= status < 300
}

/// A path that may name a directory: it has no slash at its end and its file no
/// extension.
pub open spec fn may_be_directory(path: Seq<char>) -> bool {
    !(path.len() > 0 && path.last() == '/') && !site::file_name(path).contains('.')
}

/// A response with a header field of the store's answer, where that has it.
pub open spec fn forwarded(
    response: ResponseView,
    headers: Seq<(Seq<char>, Seq<u8>)>,
    name: Seq<char>,
) -> ResponseView {
    match http::first_value(headers, name) {
        Some(value) => response.with_bytes(name, value),
        None => response,
    }
}

/// The cache policy that the store states, where it is text.
pub open spec fn upstream_policy(headers: Seq<(Seq<char>, Seq<u8>)>) -> Option<Seq<char>> {
    match http::first_value(headers, "cache-control"@) {
        Some(value) => http::value_text(value),
        None => None,
    }
}

/// An answer of the store handed on with a given status, for an object with a
/// given path.
pub open spec fn relayed(
    upstream: UpstreamView,
    method: Method,
    path: Seq<char>,
    status: u16,
) -> ResponseView {
    let h = upstream.headers;
    let empty = http::bare(
        status,
        if method == Method::Head || status == 304 {
            BodyView::Empty
        } else {
            BodyView::Upstream
        },
    );
    let a = forwarded(empty, h, "accept-ranges"@);
    let b = forwarded(a, h, "content-encoding"@);
    let c = forwarded(b, h, "content-length"@);
    let d = forwarded(c, h, "content-range"@);
    let e = forwarded(d, h, "content-type"@);
    let f = forwarded(e, h, "etag"@);
    let g = forwarded(f, h, "last-modified"@);
    let policy = site::cache_policy(path, upstream_policy(h));
    let cached = if http::valid_value(policy) {
        g.with("cache-control"@, policy)
    } else {
        g
    };
    cached.with("x-content-type-options"@, "nosniff"@).with_cors()
}

/// What an answer to the request for the object itself leads to.
pub open spec fn concluded(fetch: FetchView, upstream: UpstreamView) -> ActionView {
    if upstream.status == 404 {
        ActionView::Wait(fetch.at(Stage::Missing))
    } else if !is_success(upstream.status) && upstream.status != 304 {
        ActionView::Reply(http::plain_response(502, "storage unavailable"@))
    } else {
        ActionView::Reply(relayed(upstream, fetch.method, fetch.object, upstream.status))
    }
}

/// What an answer of the store leads to. There is no answer where the store could
/// not be reached.
pub open spec fn advanced(fetch: FetchView, outcome: Option<UpstreamView>) -> ActionView {
    match fetch.stage {
        Stage::Object => match outcome {
            None => ActionView::Reply(http::plain_response(502, "storage unavailable"@)),
            Some(upstream) => if upstream.status == 404 && may_be_directory(fetch.path) {
                ActionView::Wait(fetch.at(Stage::Directory))
            } else {
                concluded(fetch, upstream)
            },
        },
        Stage::Directory => if outcome is Some && is_success(outcome->0.status) {
            ActionView::Reply(http::redirect_response(fetch.location))
        } else {
            ActionView::Wait(fetch.at(Stage::Again))
        },
        Stage::Again => match outcome {
            None => ActionView::Reply(http::plain_response(502, "storage unavailable"@)),
            Some(upstream) => concluded(fetch, upstream),
        },
        Stage::Missing => if outcome is Some && is_success(outcome->0.status) {
            ActionView::Reply(relayed(outcome->0, fetch.method, "/404.html"@, 404))
        } else {
            ActionView::Reply(http::plain_response(404, "not found"@))
        },
    }
}

/// Whether a status says that the store gave what was asked for.
pub fn is_success_status(status: u16) -> (r: bool)
    ensures
        r == is_success(status),
{
    status >= 200 && status < 300
}

/// The host that a request is for.
pub fn host_of(request: &Request) -> (r: Option<String>)
    ensures
        match r {
            Some(host) => request_host(request@) == Some(host@),
            None => request_host(request@) is None,
        },
{
    let value = match find_value(&request.headers, "host") {
        Some(value) => value,
        None => return None,
    };
    match text_of_value(value.as_slice()) {
        Some(header) => normalize_host(Some(header.as_str())),
        None => None,
    }
}

fn is_served_from_memory(path: &str) -> (r: bool)
    ensures
        r == is_notes_path(path@),
{
    same_text(path, "/") || same_text(path, "/index.html") || same_text(path, "/llms.txt")
        || same_text(path, "/feed/search.json") || has_prefix(
        to_chars(path).as_slice(),
        to_chars("/feed/runtime/").as_slice(),
    )
}

fn is_retired(path: &str) -> (r: bool)
    ensures
        r == is_retired_path(path@),
{
    same_text(path, "/llm") || same_text(path, "/llm.md") || same_text(path, "/index.md")
        || same_text(path, "/rss.xml") || same_text(path, "/articles.json")
}

/// What the gateway does first with a request.
pub fn begin(request: &Request) -> (r: Action)
    ensures
        r@ == begun(request@),
{
    if request.method == Method::Options {
        return Action::Reply(preflight());
    }
    if same_text(request.path.as_str(), "/healthz") || same_text(request.path.as_str(), "/readyz") {
        return Action::Reply(plain(200, "ok"));
    }
    if request.method != Method::Get && request.method != Method::Head {
        let mut response = plain(405, "method not allowed");
        response.insert("allow", "GET, HEAD");
        return Action::Reply(response);
    }
    let host = match host_of(request) {
        Some(host) => host,
        None => return Action::Reply(plain(400, "bad request")),
    };
    let path = match decode_pathname(request.path.as_str()) {
        Some(path) => path,
        None => return Action::Reply(plain(400, "bad request")),
    };
    if same_text(host.as_str(), NOTES_HOST) {
        if is_retired(path.as_str()) {
            return Action::Reply(plain(410, "gone"));
        }
        if is_served_from_memory(path.as_str()) {
            return Action::Notes(path);
        }
    }
    let mut object = path.clone();
    if ends_with_slash(path.as_str()) {
        object.append("index.html");
    }
    let mut location = request.path.clone();
    location.append("/");
    if let Some(query) = &request.query {
        location.append("?");
        location.append(query.as_str());
    }
    Action::Wait(
        Fetch { method: request.method, host, path, object, location, stage: Stage::Object },
    )
}

/// Whether a path ends with a slash.
fn ends_with_slash(path: &str) -> (r: bool)
    ensures
        r == (path@.len() > 0 && path@.last() == '/'),
{
    let chars = to_chars(path);
    chars.len() > 0 && chars[chars.len() - 1] == '/'
}

/// Whether a path may name a directory.
fn could_be_directory(path: &str) -> (r: bool)
    ensures
        r == may_be_directory(path@),
{
    if ends_with_slash(path) {
        return false;
    }
    let chars = to_chars(path);
    let name = file_name_of(chars.as_slice());
    !has_char(name.as_slice(), '.')
}

/// Copies a header field of the store's answer, where that has it.
fn forward(response: &mut Response, headers: &Vec<Header>, name: &str)
    ensures
        final(response)@ == forwarded(old(response)@, http::fields(headers@), name@),
{
    if let Some(value) = find_value(headers, name) {
        response.insert_bytes(name, slice_to_vec(value.as_slice()));
    }
}

/// An answer of the store handed on with a given status, for an object with a
/// given path.
pub fn upstream_response(upstream: &Upstream, method: Method, pathname: &str, status: u16) -> (r:
    Response)
    ensures
        r@ == relayed(upstream@, method, pathname@, status),
{
    let body = if method == Method::Head || status == 304 {
        Body::Empty
    } else {
        Body::Upstream
    };
    let mut response = Response::new(status, body);
    forward(&mut response, &upstream.headers, "accept-ranges");
    forward(&mut response, &upstream.headers, "content-encoding");
    forward(&mut response, &upstream.headers, "content-length");
    forward(&mut response, &upstream.headers, "content-range");
    forward(&mut response, &upstream.headers, "content-type");
    forward(&mut response, &upstream.headers, "etag");
    forward(&mut response, &upstream.headers, "last-modified");
    let stated = match find_value(&upstream.headers, "cache-control") {
        Some(value) => text_of_value(value.as_slice()),
        None => None,
    };
    let policy = match &stated {
        Some(policy) => cache_control_for(pathname, Some(policy.as_str())),
        None => cache_control_for(pathname, None),
    };
    if is_valid_value(policy.as_str()) {
        response.insert("cache-control", policy.as_str());
    }
    response.insert("x-content-type-options", "nosniff");
    with_cors(response)
}

/// What an answer to the request for the object itself leads to.
fn conclude(fetch: Fetch, upstream: &Upstream) -> (r: Action)
    ensures
        r@ == concluded(fetch@, upstream@),
{
    let status = upstream.status;
    if status == 404 {
        Action::Wait(Fetch { stage: Stage::Missing, ..fetch })
    } else if !is_success_status(status) && status != 304 {
        Action::Reply(plain(502, "storage unavailable"))
    } else {
        Action::Reply(upstream_response(upstream, fetch.method, fetch.object.as_str(), status))
    }
}

/// What an answer of the store leads to.
pub fn advance(fetch: Fetch, outcome: Option<&Upstream>) -> (r: Action)
    ensures
        r@ == advanced(
            fetch@,
            match outcome {
                Some(upstream) => Some(upstream@),
                None => None,
            },
        ),
{
    match fetch.stage {
        Stage::Object => match outcome {
            None => Action::Reply(plain(502, "storage unavailable")),
            Some(upstream) => if upstream.status == 404 && could_be_directory(
                fetch.path.as_str(),
            ) {
                Action::Wait(Fetch { stage: Stage::Directory, ..fetch })
            } else {
                conclude(fetch, upstream)
            },
        },
        Stage::Directory => {
            if let Some(upstream) = outcome {
                if is_success_status(upstream.status) {
                    return Action::Reply(redirect(fetch.location.as_str()));
                }
            }
            Action::Wait(Fetch { stage: Stage::Again, ..fetch })
        },
        Stage::Again => match outcome {
            None => Action::Reply(plain(502, "storage unavailable")),
            Some(upstream) => conclude(fetch, upstream),
        },
        Stage::Missing => {
            if let Some(upstream) = outcome {
                if is_success_status(upstream.status) {
                    return Action::Reply(
                        upstream_response(upstream, fetch.method, "/404.html", 404),
                    );
                }
            }
            Action::Reply(plain(404, "not found"))
        },
    }
}

impl Fetch {
    /// The path of the object that is fetched.
    pub fn target(&self) -> (r: String)
        ensures
            r@ == self@.target(),
    {
        match self.stage {
            Stage::Object => self.object.clone(),
            Stage::Directory => {
                let mut path = self.path.clone();
                path.append("/index.html");
                path
            },
            Stage::Again => self.object.clone(),
            Stage::Missing => "/404.html".to_owned(),
        }
    }
}

/// Where the objects are kept.
pub struct Settings {
    pub endpoint: String,
    pub bucket: String,
}

/// The endpoint and the bucket that are set, or the message that refuses them.
pub open spec fn checked_settings(endpoint: Option<Seq<char>>, bucket: Option<Seq<char>>) -> Result<
    (Seq<char>, Seq<char>),
    Seq<char>,
> {
    let bucket = match bucket {
        Some(bucket) => bucket,
        None => "sites"@,
    };
    match site::normalized_endpoint(
        match endpoint {
            Some(endpoint) => endpoint,
            None => "http://minio.minio.svc.cluster.local:9000"@,
        },
    ) {
        Err(message) => Err(message),
        Ok(endpoint) => if site::valid_bucket(bucket) {
            Ok((endpoint, bucket))
        } else {
            Err("S3_BUCKET must be a valid S3 bucket name"@)
        },
    }
}

impl Settings {
    /// The endpoint and the bucket that are set. The endpoint is the one of the
    /// cluster and the bucket is `sites` unless set.
    pub fn from_values(endpoint: Option<&str>, bucket: Option<&str>) -> (r: Result<
        Settings,
        String,
    >)
        ensures
            ({
                let checked = checked_settings(
                    match endpoint {
                        Some(s) => Some(s@),
                        None => None,
                    },
                    match bucket {
                        Some(s) => Some(s@),
                        None => None,
                    },
                );
                match r {
                    Ok(settings) => checked == Ok::<(Seq<char>, Seq<char>), Seq<char>>(
                        (settings.endpoint@, settings.bucket@),
                    ),
                    Err(message) => checked == Err::<(Seq<char>, Seq<char>), Seq<char>>(
                        message@,
                    ),
                }
            }),
    {
        let endpoint = match endpoint {
            Some(value) => normalize_endpoint(value),
            None => normalize_endpoint("http://minio.minio.svc.cluster.local:9000"),
        };
        let endpoint = match endpoint {
            Ok(endpoint) => endpoint,
            Err(message) => return Err(message),
        };
        let bucket = match bucket {
            Some(value) => normalize_bucket(value),
            None => normalize_bucket("sites"),
        };
        match bucket {
            Ok(bucket) => Ok(Settings { endpoint, bucket }),
            Err(message) => Err(message),
        }
    }
}

/// The port that the gateway listens on: 8080 unless set.
pub fn listen_port(value: Option<&str>) -> (r: Option<u16>)
    ensures
        match value {
            None => r == Some(8080u16),
            Some(s) => match r {
                Some(port) => number::parsed_number(s@, 65535) == Some(port as nat),
                None => number::parsed_number(s@, 65535) is None,
            },
        },
{
    match value {
        None => Some(8080),
        Some(s) => match parse_text(s, 65535) {
            Some(n) => Some(n as u16),
            None => None,
        },
    }
}

/// A request to the store.
pub struct StorageRequest {
    /// Whether only the head of the object is wanted.
    pub head: bool,
    pub url: String,
    pub headers: Vec<Header>,
}

/// A header field of a request, where the request has it.
pub open spec fn picked(headers: Seq<(Seq<char>, Seq<u8>)>, name: Seq<char>) -> Seq<
    (Seq<char>, Seq<u8>),
> {
    match http::first_value(headers, name) {
        Some(value) => seq![(name, value)],
        None => Seq::empty(),
    }
}

/// The header fields of a request that the store is told: those that make it
/// conditional or ask for a part of the object.
pub open spec fn storage_headers(headers: Seq<(Seq<char>, Seq<u8>)>) -> Seq<
    (Seq<char>, Seq<u8>),
> {
    picked(headers, "if-match"@) + picked(headers, "if-modified-since"@) + picked(
        headers,
        "if-none-match"@,
    ) + picked(headers, "if-range"@) + picked(headers, "range"@)
}

/// Copies a header field of a request, where the request has it.
fn pick(out: &mut Vec<Header>, headers: &Vec<Header>, name: &str)
    ensures
        http::fields(final(out)@) == http::fields(old(out)@) + picked(
            http::fields(headers@),
            name@,
        ),
{
    let ghost before = http::fields(out@);
    if let Some(value) = find_value(headers, name) {
        out.push(Header { name: name.to_owned(), value: slice_to_vec(value.as_slice()) });
        assert(http::fields(out@) == before + seq![(name@, value@)]);
    } else {
        assert(before + Seq::<(Seq<char>, Seq<u8>)>::empty() == before);
    }
}

/// The request to the store for the object that a host keeps at a path.
pub fn fetch_object(
    settings: &Settings,
    method: Method,
    request_headers: &Vec<Header>,
    host: &str,
    pathname: &str,
) -> (r: StorageRequest)
    ensures
        r.head == (method == Method::Head),
        r.url@ == site::object_url(settings.endpoint@, settings.bucket@, host@, pathname@),
        http::fields(r.headers@) == storage_headers(http::fields(request_headers@)),
{
    let mut url = settings.endpoint.clone();
    url.append("/");
    url.append(settings.bucket.as_str());
    url.append("/");
    url.append(encode_object_key(host, pathname).as_str());
    let mut headers: Vec<Header> = Vec::new();
    pick(&mut headers, request_headers, "if-match");
    assert(http::fields(headers@) == picked(http::fields(request_headers@), "if-match"@));
    pick(&mut headers, request_headers, "if-modified-since");
    pick(&mut headers, request_headers, "if-none-match");
    pick(&mut headers, request_headers, "if-range");
    pick(&mut headers, request_headers, "range");
    StorageRequest { head: method == Method::Head, url, headers }
}

/// A store that does not change: what it answers for each path of a host.
pub open spec fn served(
    fetch: FetchView,
    storage: spec_fn(Seq<char>) -> Option<UpstreamView>,
) -> ResponseView
    decreases fetch.rank(),
{
    match advanced(fetch, storage(fetch.target())) {
        ActionView::Reply(response) => response,
        ActionView::Wait(next) => served(next, storage),
        ActionView::Notes(_) => http::plain_response(404, "not found"@),
    }
}

/// Every answer of the store brings a request closer to its own answer: at most
/// four objects are fetched.
pub proof fn law_requests_end(fetch: FetchView, outcome: Option<UpstreamView>)
    ensures
        match advanced(fetch, outcome) {
            ActionView::Wait(next) => next.rank() < fetch.rank() && next == fetch.at(next.stage),
            ActionView::Reply(_) => true,
            ActionView::Notes(_) => false,
        },
        fetch.rank() <= 4,
{
}

/// The object that a request names is handed on with the status of the store,
/// where the store has it or says that it has not changed.
pub proof fn law_objects_are_served(
    fetch: FetchView,
    storage: spec_fn(Seq<char>) -> Option<UpstreamView>,
)
    requires
        fetch.stage == Stage::Object,
        storage(fetch.object) is Some,
        is_success(storage(fetch.object)->0.status) || storage(fetch.object)->0.status == 304,
    ensures
        served(fetch, storage) == relayed(
            storage(fetch.object)->0,
            fetch.method,
            fetch.object,
            storage(fetch.object)->0.status,
        ),
{
}

/// A path without extension under which the store has no object, but a directory
/// with an index, leads to the path with a slash.
pub proof fn law_directories_are_redirected(
    fetch: FetchView,
    storage: spec_fn(Seq<char>) -> Option<UpstreamView>,
)
    requires
        fetch.stage == Stage::Object,
        may_be_directory(fetch.path),
        storage(fetch.object) is Some,
        storage(fetch.object)->0.status == 404,
        storage(fetch.path + "/index.html"@) is Some,
        is_success(storage(fetch.path + "/index.html"@)->0.status),
    ensures
        served(fetch, storage) == http::redirect_response(fetch.location),
{
    reveal_with_fuel(served, 2);
}

/// What the store does not have is answered with the status 404: with the site's
/// own page where it has one, and with a message otherwise. No other page stands
/// in for it.
pub proof fn law_missing_objects_are_not_found(
    fetch: FetchView,
    storage: spec_fn(Seq<char>) -> Option<UpstreamView>,
)
    requires
        fetch.stage == Stage::Object,
        storage(fetch.object) is Some,
        storage(fetch.object)->0.status == 404,
        !may_be_directory(fetch.path) || storage(fetch.path + "/index.html"@) is None
            || !is_success(storage(fetch.path + "/index.html"@)->0.status),
    ensures
        served(fetch, storage).status == 404,
        served(fetch, storage) == if storage("/404.html"@) is Some && is_success(
            storage("/404.html"@)->0.status,
        ) {
            relayed(storage("/404.html"@)->0, fetch.method, "/404.html"@, 404)
        } else {
            http::plain_response(404, "not found"@)
        },
{
    reveal_with_fuel(served, 4);
    lemma_relayed_status(storage("/404.html"@)->0, fetch.method, "/404.html"@, 404);
}

/// A store that cannot be reached, or that fails, makes a bad gateway.
pub proof fn law_storage_failures_are_bad_gateways(
    fetch: FetchView,
    storage: spec_fn(Seq<char>) -> Option<UpstreamView>,
)
    requires
        fetch.stage == Stage::Object,
        match storage(fetch.object) {
            None => true,
            Some(upstream) => upstream.status != 404 && upstream.status != 304 && !is_success(
                upstream.status,
            ),
        },
    ensures
        served(fetch, storage) == http::plain_response(502, "storage unavailable"@),
{
}

/// What is handed on has the status that it is given.
proof fn lemma_relayed_status(upstream: UpstreamView, method: Method, path: Seq<char>, status: u16)
    ensures
        relayed(upstream, method, path, status).status == status,
{
}

/// Every answer of the gateway may be read by any site.
pub proof fn law_every_reply_is_open(
    request: RequestView,
    fetch: FetchView,
    outcome: Option<UpstreamView>,
)
    ensures
        begun(request) is Reply ==> http::is_open(begun(request)->Reply_0),
        advanced(fetch, outcome) is Reply ==> http::is_open(advanced(fetch, outcome)->Reply_0),
{
    assert forall|response: ResponseView| http::is_open(#[trigger] response.with_cors()) by {
        http::lemma_cors_is_open(response);
    }
    let refused = http::plain_response(405, "method not allowed"@);
    reveal_strlit("allow");
    reveal_strlit("access-control-allow-origin");
    assert("allow"@.len() != "access-control-allow-origin"@.len());
    assert(http::is_open(refused));
    assert(http::is_open(refused.with("allow"@, "GET, HEAD"@)));
}

/// Only `GET` and `HEAD` are served: any other request that does not ask about
/// the gateway itself is refused.
pub proof fn law_only_get_and_head_are_served(request: RequestView)
    requires
        request.method == Method::Other,
        request.path != "/healthz"@,
        request.path != "/readyz"@,
    ensures
        begun(request) == ActionView::Reply(
            http::plain_response(405, "method not allowed"@).with("allow"@, "GET, HEAD"@),
        ),
{
}

/// The paths of notes and those where notes were found once are different.
pub proof fn law_notes_are_not_retired(path: Seq<char>)
    requires
        is_notes_path(path),
    ensures
        !is_retired_path(path),
{
    reveal_strlit("/");
    reveal_strlit("/index.html");
    reveal_strlit("/llms.txt");
    reveal_strlit("/feed/search.json");
    reveal_strlit("/feed/runtime/");
    reveal_strlit("/llm");
    reveal_strlit("/llm.md");
    reveal_strlit("/index.md");
    reveal_strlit("/rss.xml");
    reveal_strlit("/articles.json");
    assert("/index.html"@.len() == 11 && "/llms.txt"@.len() == 9 && "/feed/search.json"@.len()
        == 17 && "/"@.len() == 1 && "/feed/runtime/"@.len() == 14);
    assert("/llm"@.len() == 4 && "/llm.md"@.len() == 7 && "/index.md"@.len() == 9
        && "/rss.xml"@.len() == 8 && "/articles.json"@.len() == 14);
    assert("/llms.txt"@[1] == 'l' && "/index.md"@[1] == 'i');
    if text::starts_with(path, "/feed/runtime/"@) {
        assert(path.take(14)[1] == 'f');
        assert(path[1] == 'f');
        assert("/articles.json"@[1] == 'a');
    }
}

/// Notes are never fetched from the store, and where notes were found once there
/// is nothing any more.
pub proof fn law_notes_are_served_from_memory(request: RequestView)
    requires
        request_host(request) == Some(NOTES_HOST@),
        request.method == Method::Get || request.method == Method::Head,
        request.path != "/healthz"@,
        request.path != "/readyz"@,
        site::decoded_path(request.path) is Some,
    ensures
        is_notes_path(site::decoded_path(request.path)->0) ==> begun(request)
            == ActionView::Notes(site::decoded_path(request.path)->0),
        is_retired_path(site::decoded_path(request.path)->0) ==> begun(request)
            == ActionView::Reply(http::plain_response(410, "gone"@)),
        begun(request) is Wait ==> !is_notes_path(begun(request)->Wait_0.path),
{
    if is_notes_path(site::decoded_path(request.path)->0) {
        law_notes_are_not_retired(site::decoded_path(request.path)->0);
    }
}

/// A value made of printable ASCII characters can stand in a header field.
proof fn lemma_visible_is_valid(s: Seq<char>)
    requires
        forall|i: int| 0 <= i < s.len() ==> ' ' <= #[trigger] s[i] <= '~',
    ensures
        http::valid_value(s),
{
    assert(utf8::is_ascii_chars(s));
    utf8::is_ascii_chars_encode_utf8(s);
    assert forall|i: int| 0 <= i < utf8::encode_utf8(s).len() implies http::is_field_byte(
        #[trigger] utf8::encode_utf8(s)[i],
    ) by {
        assert(utf8::encode_utf8(s)[i] == s[i] as u8);
    }
}

/// What is handed on carries the cache policy of its object, where that can stand
/// in a header field.
proof fn lemma_relayed_policy(upstream: UpstreamView, method: Method, path: Seq<char>, status: u16)
    requires
        http::valid_value(site::cache_policy(path, upstream_policy(upstream.headers))),
    ensures
        relayed(upstream, method, path, status).headers.contains_key("cache-control"@),
        relayed(upstream, method, path, status).headers["cache-control"@] == utf8::encode_utf8(
            site::cache_policy(path, upstream_policy(upstream.headers)),
        ),
{
    reveal_strlit("cache-control");
    reveal_strlit("x-content-type-options");
    reveal_strlit("access-control-allow-origin");
    reveal_strlit("access-control-allow-methods");
    reveal_strlit("access-control-allow-headers");
    reveal_strlit("access-control-max-age");
    assert("cache-control"@.len() == 13 && "x-content-type-options"@.len() == 22
        && "access-control-allow-origin"@.len() == 27 && "access-control-allow-methods"@.len() == 28
        && "access-control-allow-headers"@.len() == 28 && "access-control-max-age"@.len() == 22);
}

/// Pages are always checked again, and built assets never are, whatever the store
/// says.
pub proof fn law_cache_policy_of_pages_and_assets(
    upstream: UpstreamView,
    method: Method,
    path: Seq<char>,
    status: u16,
)
    ensures
        text::ends_with(path, ".html"@) ==> relayed(
            upstream,
            method,
            path,
            status,
        ).headers["cache-control"@] == utf8::encode_utf8("no-cache"@),
        !text::ends_with(path, ".html"@) && site::hashed_name(site::file_name(path)) ==> relayed(
            upstream,
            method,
            path,
            status,
        ).headers["cache-control"@] == utf8::encode_utf8("public, max-age=31536000, immutable"@),
{
    reveal_strlit("no-cache");
    reveal_strlit("public, max-age=31536000, immutable");
    lemma_visible_is_valid("no-cache"@);
    lemma_visible_is_valid("public, max-age=31536000, immutable"@);
    if text::ends_with(path, ".html"@) || site::hashed_name(site::file_name(path)) {
        lemma_relayed_policy(upstream, method, path, status);
    }
}

/// A request for the head of an object gets no body of the store.
pub proof fn law_head_gets_no_upstream_body(fetch: FetchView, outcome: Option<UpstreamView>)
    requires
        fetch.method == Method::Head,
        advanced(fetch, outcome) is Reply,
    ensures
        !(advanced(fetch, outcome)->Reply_0.body is Upstream),
{
}

/// The header fields of the store's answer that are handed on.
pub open spec fn is_handed_on(name: Seq<char>) -> bool {
    ||| name == "accept-ranges"@
    ||| name == "content-encoding"@
    ||| name == "content-length"@
    ||| name == "content-range"@
    ||| name == "content-type"@
    ||| name == "etag"@
    ||| name == "last-modified"@
}

/// The names of the fields that are handed on, and of those that are set, are all
/// different.
proof fn lemma_handed_on_names()
    ensures
        "accept-ranges"@.len() == 13 && "accept-ranges"@[0] == 'a',
        "content-encoding"@.len() == 16,
        "content-length"@.len() == 14,
        "content-range"@.len() == 13 && "content-range"@[0] == 'c' && "content-range"@[1] == 'o',
        "content-type"@.len() == 12,
        "etag"@.len() == 4,
        "last-modified"@.len() == 13 && "last-modified"@[0] == 'l',
        "cache-control"@.len() == 13 && "cache-control"@[0] == 'c' && "cache-control"@[1] == 'a',
        "x-content-type-options"@.len() == 22,
        forall|name: Seq<char>| #[trigger] http::is_cors_name(name) ==> name.len() >= 22,
        !http::is_cors_name("x-content-type-options"@),
        !http::is_cors_name("cache-control"@),
{
    reveal_strlit("accept-ranges");
    reveal_strlit("content-encoding");
    reveal_strlit("content-length");
    reveal_strlit("content-range");
    reveal_strlit("content-type");
    reveal_strlit("etag");
    reveal_strlit("last-modified");
    reveal_strlit("cache-control");
    reveal_strlit("x-content-type-options");
    reveal_strlit("access-control-allow-origin");
    reveal_strlit("access-control-allow-methods");
    reveal_strlit("access-control-allow-headers");
    reveal_strlit("access-control-max-age");
    http::lemma_field_names();
}

/// A response after the store's fields have been handed on.
proof fn lemma_forwarded(
    response: ResponseView,
    headers: Seq<(Seq<char>, Seq<u8>)>,
    handed: Seq<char>,
    name: Seq<char>,
)
    ensures
        ({
            let next = forwarded(response, headers, handed);
            &&& name != handed ==> (next.headers.contains_key(name)
                == response.headers.contains_key(name)) && next.headers[name]
                == response.headers[name]
            &&& name == handed && !response.headers.contains_key(name) ==> match http::first_value(
                headers,
                name,
            ) {
                Some(value) => next.headers.contains_key(name) && next.headers[name] == value,
                None => !next.headers.contains_key(name),
            }
            &&& next.status == response.status
            &&& next.body == response.body
        }),
{
}

/// What the store says of an object is handed on: each of the fields that describe
/// the body, its parts and its version stands in the response with the first value
/// that the store gave it, and stands there only if the store gave one. Nothing else
/// stands there but the cache policy, the field that forbids guessing the type, and
/// those that open the response to all sites.
pub proof fn law_fields_of_the_store_are_handed_on(
    upstream: UpstreamView,
    method: Method,
    path: Seq<char>,
    status: u16,
    name: Seq<char>,
)
    ensures
        ({
            let response = relayed(upstream, method, path, status);
            &&& is_handed_on(name) ==> match http::first_value(upstream.headers, name) {
                Some(value) => response.headers.contains_key(name) && response.headers[name]
                    == value,
                None => !response.headers.contains_key(name),
            }
            &&& response.headers.contains_key(name) ==> is_handed_on(name) || name
                == "cache-control"@ || name == "x-content-type-options"@ || http::is_cors_name(name)
            &&& http::has_field(response, "x-content-type-options"@, "nosniff"@)
            &&& http::is_open(response)
        }),
{
    lemma_handed_on_names();
    let h = upstream.headers;
    let empty = http::bare(
        status,
        if method == Method::Head || status == 304 {
            BodyView::Empty
        } else {
            BodyView::Upstream
        },
    );
    let a = forwarded(empty, h, "accept-ranges"@);
    let b = forwarded(a, h, "content-encoding"@);
    let c = forwarded(b, h, "content-length"@);
    let d = forwarded(c, h, "content-range"@);
    let e = forwarded(d, h, "content-type"@);
    let f = forwarded(e, h, "etag"@);
    let g = forwarded(f, h, "last-modified"@);
    lemma_forwarded(empty, h, "accept-ranges"@, name);
    lemma_forwarded(a, h, "content-encoding"@, name);
    lemma_forwarded(b, h, "content-length"@, name);
    lemma_forwarded(c, h, "content-range"@, name);
    lemma_forwarded(d, h, "content-type"@, name);
    lemma_forwarded(e, h, "etag"@, name);
    lemma_forwarded(f, h, "last-modified"@, name);
    let policy = site::cache_policy(path, upstream_policy(h));
    let cached = if http::valid_value(policy) {
        g.with("cache-control"@, policy)
    } else {
        g
    };
    let safe = cached.with("x-content-type-options"@, "nosniff"@);
    http::law_opening_keeps_the_response(safe);
    let response = relayed(upstream, method, path, status);
    assert(response == safe.with_cors());
    assert(response.headers.contains_key("x-content-type-options"@));
    if !http::is_cors_name(name) {
        assert(response.headers.contains_key(name) <==> safe.headers.contains_key(name));
    }
}

/// An answer that is handed on has the status that it is given and the body of the
/// store, but for a request for its head, or where the object has not changed: then
/// it has none.
pub proof fn law_bodies_of_the_store_are_handed_on(
    upstream: UpstreamView,
    method: Method,
    path: Seq<char>,
    status: u16,
)
    ensures
        relayed(upstream, method, path, status).status == status,
        method == Method::Head || status == 304 ==> relayed(
            upstream,
            method,
            path,
            status,
        ).body is Empty,
        method != Method::Head && status != 304 ==> relayed(
            upstream,
            method,
            path,
            status,
        ).body is Upstream,
{
}

/// Whoever asks what is allowed is told that anything may be read, without a body; and
/// whoever asks whether the gateway is up is told that it is, with whatever other
/// method.
pub proof fn law_questions_about_the_gateway_are_answered(request: RequestView)
    ensures
        request.method == Method::Options ==> begun(request) is Reply && begun(
            request,
        )->Reply_0.status == 204 && begun(request)->Reply_0.body is Empty && http::is_open(
            begun(request)->Reply_0,
        ),
        request.method != Method::Options && (request.path == "/healthz"@ || request.path
            == "/readyz"@) ==> begun(request) is Reply && begun(request)->Reply_0.status == 200
            && begun(request)->Reply_0.body == BodyView::Text("ok"@ + "\n"@),
        request.method == Method::Other && request.path != "/healthz"@ && request.path
            != "/readyz"@ ==> begun(request) is Reply && begun(request)->Reply_0.status == 405
            && http::has_field(begun(request)->Reply_0, "allow"@, "GET, HEAD"@),
{
    http::lemma_cors_is_open(http::bare(204, BodyView::Empty));
}

/// A request whose host or path cannot be read is refused with the status 400, and any
/// other that the notes do not answer waits for the object that its path names: the
/// index of a directory, where the path ends with a slash, and otherwise the path
/// itself. If the path turns out to be a directory, the request belongs to the path
/// as it was sent, with a slash and with its query.
pub proof fn law_requests_wait_for_their_objects(request: RequestView)
    requires
        request.method == Method::Get || request.method == Method::Head,
        request.path != "/healthz"@,
        request.path != "/readyz"@,
    ensures
        request_host(request) is None || site::decoded_path(request.path) is None ==> begun(request)
            == ActionView::Reply(http::plain_response(400, "bad request"@)),
        request_host(request) is Some && site::decoded_path(request.path) is Some ==> {
            let host = request_host(request)->0;
            let path = site::decoded_path(request.path)->0;
            &&& begun(request) is Reply ==> host == "zexi.me"@ && begun(request)
                == ActionView::Reply(http::plain_response(410, "gone"@)) && (path == "/llm"@ || path
                == "/llm.md"@ || path == "/index.md"@ || path == "/rss.xml"@ || path
                == "/articles.json"@)
            &&& begun(request) is Notes ==> host == "zexi.me"@ && begun(request)->Notes_0 == path && (
            path == "/"@ || path == "/index.html"@ || path == "/llms.txt"@ || path
                == "/feed/search.json"@ || text::starts_with(path, "/feed/runtime/"@))
            &&& host != "zexi.me"@ ==> begun(request) is Wait
            &&& begun(request) is Wait ==> {
                let fetch = begun(request)->Wait_0;
                &&& fetch.method == request.method
                &&& fetch.host == host
                &&& fetch.path == path
                &&& fetch.stage == Stage::Object
                &&& text::ends_with(path, "/"@) ==> fetch.object == path + "index.html"@
                &&& !text::ends_with(path, "/"@) ==> fetch.object == path
                &&& request.query is None ==> fetch.location == request.path + "/"@
                &&& request.query is Some ==> fetch.location == request.path + "/"@ + "?"@
                    + request.query->0
            }
        },
{
    reveal_strlit("/");
    assert(NOTES_HOST@ == "zexi.me"@);
    if let Some(path) = site::decoded_path(request.path) {
        if path.len() > 0 {
            let tail = path.skip(path.len() - 1);
            assert(tail.len() == 1 && tail[0] == path.last());
            assert("/"@.len() == 1 && "/"@[0] == '/');
            if path.last() == '/' {
                assert(tail =~= "/"@);
            }
        }
    }
}

/// The host of a request is what its first host field names, where that is printable
/// text and a host name.
pub proof fn law_hosts_are_read_from_their_field(
    before: Seq<(Seq<char>, Seq<u8>)>,
    value: Seq<u8>,
    after: Seq<(Seq<char>, Seq<u8>)>,
    request: RequestView,
)
    requires
        forall|i: int| 0 <= i < before.len() ==> (#[trigger] before[i]).0 != "host"@,
        request.headers == before + seq![("host"@, value)] + after,
    ensures
        http::value_text(value) is None ==> request_host(request) is None,
        http::value_text(value) is Some ==> request_host(request) == site::normalized_host(
            http::value_text(value)->0,
        ),
{
    http::law_first_value_counts(before, "host"@, value, after);
}

/// The paths of the notes, and those where notes were found once.
pub proof fn law_paths_of_the_notes(rest: Seq<char>)
    ensures
        is_notes_path("/"@),
        is_notes_path("/index.html"@),
        is_notes_path("/llms.txt"@),
        is_notes_path("/feed/search.json"@),
        is_notes_path("/feed/runtime/"@ + rest),
        is_retired_path("/llm"@),
        is_retired_path("/llm.md"@),
        is_retired_path("/index.md"@),
        is_retired_path("/rss.xml"@),
        is_retired_path("/articles.json"@),
{
    let prefix = "/feed/runtime/"@;
    assert((prefix + rest).take(prefix.len() as int) =~= prefix);
}

/// What is fetched from the store at each stage: the object itself, the index of the
/// directory, the object once more, and the page for what is missing.
pub proof fn law_stages_fetch_their_objects(fetch: FetchView)
    ensures
        fetch.at(Stage::Object).target() == fetch.object,
        fetch.at(Stage::Directory).target() == fetch.path + "/index.html"@,
        fetch.at(Stage::Again).target() == fetch.object,
        fetch.at(Stage::Missing).target() == "/404.html"@,
{
}

/// The file of a path names no directory where it has an extension.
pub proof fn law_directories_have_no_extension(dir: Seq<char>, name: Seq<char>)
    requires
        !name.contains('/'),
    ensures
        may_be_directory(dir + seq!['/'] + name) <==> name.len() > 0 && !name.contains('.'),
{
    let path = dir + seq!['/'] + name;
    site::law_files_are_named_behind_the_last_slash(dir, name);
    if name.len() == 0 {
        assert(path.last() == '/');
    } else {
        assert(path.last() == name.last());
        assert(name.contains(name[name.len() - 1]));
    }
}

/// Once the index of a directory was not found, the answer to the second request for
/// the object decides: what is not there is missing, what the store has, or says has
/// not changed, is handed on for the object and the method of the request, and any
/// other answer, or none, is a bad gateway.
pub proof fn law_second_answers_decide(fetch: FetchView, outcome: Option<UpstreamView>)
    requires
        fetch.stage == Stage::Again || (fetch.stage == Stage::Object && !may_be_directory(
            fetch.path,
        )),
    ensures
        match outcome {
            None => advanced(fetch, outcome) == ActionView::Reply(
                http::plain_response(502, "storage unavailable"@),
            ),
            Some(upstream) => if upstream.status == 404 {
                advanced(fetch, outcome) == ActionView::Wait(fetch.at(Stage::Missing))
            } else if 200 <= upstream.status < 300 || upstream.status == 304 {
                advanced(fetch, outcome) == ActionView::Reply(
                    relayed(upstream, fetch.method, fetch.object, upstream.status),
                )
            } else {
                advanced(fetch, outcome) == ActionView::Reply(
                    http::plain_response(502, "storage unavailable"@),
                )
            },
        },
{
}

/// The header fields of a request that the store is told.
pub open spec fn is_told(name: Seq<char>) -> bool {
    ||| name == "if-match"@
    ||| name == "if-modified-since"@
    ||| name == "if-none-match"@
    ||| name == "if-range"@
    ||| name == "range"@
}

proof fn lemma_told_names()
    ensures
        "if-match"@.len() == 8 && "if-match"@[3] == 'm',
        "if-modified-since"@.len() == 17,
        "if-none-match"@.len() == 13,
        "if-range"@.len() == 8 && "if-range"@[3] == 'r',
        "range"@.len() == 5,
{
    reveal_strlit("if-match");
    reveal_strlit("if-modified-since");
    reveal_strlit("if-none-match");
    reveal_strlit("if-range");
    reveal_strlit("range");
}

/// The first value in a list that goes on.
proof fn lemma_first_of_two(
    a: Seq<(Seq<char>, Seq<u8>)>,
    b: Seq<(Seq<char>, Seq<u8>)>,
    name: Seq<char>,
)
    ensures
        http::first_value(a + b, name) == match http::first_value(a, name) {
            Some(value) => Some(value),
            None => http::first_value(b, name),
        },
    decreases a.len(),
{
    if a.len() == 0 {
        assert(a + b =~= b);
    } else {
        assert((a + b)[0] == a[0]);
        assert((a + b).drop_first() =~= a.drop_first() + b);
        lemma_first_of_two(a.drop_first(), b, name);
    }
}

/// What is picked of a request.
proof fn lemma_picked(
    headers: Seq<(Seq<char>, Seq<u8>)>,
    picked_name: Seq<char>,
    name: Seq<char>,
)
    ensures
        http::first_value(picked(headers, picked_name), name) == if name == picked_name {
            http::first_value(headers, name)
        } else {
            None
        },
{
    let one = picked(headers, picked_name);
    if one.len() > 0 {
        assert(one[0].0 == picked_name);
        assert(one.drop_first() =~= Seq::<(Seq<char>, Seq<u8>)>::empty());
        assert(http::first_value(one.drop_first(), name) is None);
    }
}

/// The store is told under which conditions an object is wanted, and which part of it:
/// each field that says so goes to the store with its first value, and no other field
/// of the request does.
pub proof fn law_conditions_are_passed_on(
    headers: Seq<(Seq<char>, Seq<u8>)>,
    name: Seq<char>,
)
    ensures
        is_told(name) ==> http::first_value(storage_headers(headers), name) == http::first_value(
            headers,
            name,
        ),
        !is_told(name) ==> http::first_value(storage_headers(headers), name) is None,
        storage_headers(headers).len() <= 5,
{
    lemma_told_names();
    let a = picked(headers, "if-match"@);
    let b = picked(headers, "if-modified-since"@);
    let c = picked(headers, "if-none-match"@);
    let d = picked(headers, "if-range"@);
    let e = picked(headers, "range"@);
    lemma_picked(headers, "if-match"@, name);
    lemma_picked(headers, "if-modified-since"@, name);
    lemma_picked(headers, "if-none-match"@, name);
    lemma_picked(headers, "if-range"@, name);
    lemma_picked(headers, "range"@, name);
    lemma_first_of_two(a, b, name);
    lemma_first_of_two(a + b, c, name);
    lemma_first_of_two(a + b + c, d, name);
    lemma_first_of_two(a + b + c + d, e, name);
}

/// What is set is taken, and what is not set has its default: the endpoint of the
/// cluster and the bucket `sites`. A bucket that is no bucket name is refused, once
/// the endpoint has been taken.
pub proof fn law_settings_have_defaults(endpoint: Option<Seq<char>>, bucket: Option<Seq<char>>)
    ensures
        ({
            let wanted = match endpoint {
                Some(s) => s,
                None => "http://minio.minio.svc.cluster.local:9000"@,
            };
            let name = match bucket {
                Some(s) => s,
                None => "sites"@,
            };
            match site::normalized_endpoint(wanted) {
                Err(message) => checked_settings(endpoint, bucket) == Err::<
                    (Seq<char>, Seq<char>),
                    Seq<char>,
                >(message),
                Ok(url) => if site::valid_bucket(name) {
                    checked_settings(endpoint, bucket) == Ok::<(Seq<char>, Seq<char>), Seq<char>>(
                        (url, name),
                    )
                } else {
                    checked_settings(endpoint, bucket) == Err::<
                        (Seq<char>, Seq<char>),
                        Seq<char>,
                    >("S3_BUCKET must be a valid S3 bucket name"@)
                },
            }
        }),
        site::valid_bucket("sites"@),
{
    reveal_strlit("sites");
    assert forall|i: int| 0 <= i < "sites"@.len() implies site::is_name_char(
        #[trigger] "sites"@[i],
    ) by {}
}

/// What each stage leads to: an object that is not there and may be a directory leads
/// to the index of that directory; an index that is there leads to the directory, and
/// any other answer back to the object; the page for what is missing is handed on
/// with the status 404 where the site has it, and a message stands for it otherwise.
pub proof fn law_stages_lead_on(fetch: FetchView, upstream: UpstreamView)
    ensures
        fetch.stage == Stage::Object && upstream.status == 404 && may_be_directory(fetch.path)
            ==> advanced(fetch, Some(upstream)) == ActionView::Wait(fetch.at(Stage::Directory)),
        fetch.stage == Stage::Directory && 200 <= upstream.status < 300 ==> advanced(
            fetch,
            Some(upstream),
        ) == ActionView::Reply(http::redirect_response(fetch.location)),
        fetch.stage == Stage::Directory && !(200 <= upstream.status < 300) ==> advanced(
            fetch,
            Some(upstream),
        ) == ActionView::Wait(fetch.at(Stage::Again)),
        fetch.stage == Stage::Directory ==> advanced(fetch, None) == ActionView::Wait(
            fetch.at(Stage::Again),
        ),
        fetch.stage == Stage::Missing && 200 <= upstream.status < 300 ==> advanced(
            fetch,
            Some(upstream),
        ) == ActionView::Reply(relayed(upstream, fetch.method, "/404.html"@, 404)),
        fetch.stage == Stage::Missing && !(200 <= upstream.status < 300) ==> advanced(
            fetch,
            Some(upstream),
        ) == ActionView::Reply(http::plain_response(404, "not found"@)),
        fetch.stage == Stage::Missing ==> advanced(fetch, None) == ActionView::Reply(
            http::plain_response(404, "not found"@),
        ),
        fetch.stage == Stage::Object ==> advanced(fetch, None) == ActionView::Reply(
            http::plain_response(502, "storage unavailable"@),
        ),
{
}

/// The cache policy of an object that is neither a page nor built is the one that the
/// store states first, where that is printable text, and an hour otherwise.
pub proof fn law_policies_of_the_store_are_kept(
    upstream: UpstreamView,
    method: Method,
    path: Seq<char>,
    status: u16,
)
    requires
        !text::ends_with(path, ".html"@),
        !text::starts_with(path, "/assets/"@),
        !text::starts_with(path, "/_astro/"@),
        !site::hashed_name(site::file_name(path)),
    ensures
        ({
            let response = relayed(upstream, method, path, status);
            let stated = http::first_value(upstream.headers, "cache-control"@);
            &&& stated is None || http::value_text(stated->0) is None ==> http::has_field(
                response,
                "cache-control"@,
                "public, max-age=3600"@,
            )
            &&& stated is Some && http::value_text(stated->0) is Some ==> http::has_field(
                response,
                "cache-control"@,
                http::value_text(stated->0)->0,
            )
        }),
{
    reveal_strlit("public, max-age=3600");
    lemma_visible_is_valid("public, max-age=3600"@);
    let stated = http::first_value(upstream.headers, "cache-control"@);
    if stated is Some && http::value_text(stated->0) is Some {
        let s = http::value_text(stated->0)->0;
        assert forall|i: int| 0 <= i < s.len() implies ' ' <= #[trigger] s[i] <= '~' || s[i]
            == '\t' by {
            let b = stated->0[i];
            assert(s[i] == b as char);
            assert(32 <= b < 127 || b == 9);
        }
        http::law_printable_text_stands_in_fields(s);
    }
    lemma_relayed_policy(upstream, method, path, status);
}

/// A request for the head of an object is answered like one for the object, but for
/// the body: it has the same status and the same header fields.
pub proof fn law_heads_are_answered_like_objects(
    upstream: UpstreamView,
    path: Seq<char>,
    status: u16,
)
    ensures
        relayed(upstream, Method::Head, path, status).status == relayed(
            upstream,
            Method::Get,
            path,
            status,
        ).status,
        relayed(upstream, Method::Head, path, status).headers == relayed(
            upstream,
            Method::Get,
            path,
            status,
        ).headers,
{
}

} // verus!
