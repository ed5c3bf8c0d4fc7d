use crate::auth::AccessToken;
use crate::error::SDKError;
use reqwest::Response as WireResponse;
use vstd::prelude::*;
use vstd::string::*;

verus! {

/// The API root that root-relative targets resolve against by default.
pub const DEFAULT_API_ROOT: &'static str = "https://api.box.com/2.0";

#[derive(PartialEq, Eq, Structural, Clone, Copy, Debug)]
pub enum HTTPMethod {
    GET,
    POST,
    PUT,
    OPTIONS,
    DELETE,
}

impl HTTPMethod {
    pub open spec fn spec_name(self) -> Seq<char> {
        match self {
            HTTPMethod::GET => "GET"@,
            HTTPMethod::POST => "POST"@,
            HTTPMethod::PUT => "PUT"@,
            HTTPMethod::OPTIONS => "OPTIONS"@,
            HTTPMethod::DELETE => "DELETE"@,
        }
    }

    /// The method's token on the wire.
    pub fn as_str(&self) -> (r: &'static str)
        ensures
            r@ == self.spec_name(),
    {
        match self {
            HTTPMethod::GET => "GET",
            HTTPMethod::POST => "POST",
            HTTPMethod::PUT => "PUT",
            HTTPMethod::OPTIONS => "OPTIONS",
            HTTPMethod::DELETE => "DELETE",
        }
    }
}

// ---------------------------------------------------------------------------
// Headers

/// A character's code with ASCII upper case folded to lower case.
pub open spec fn folded(c: char) -> u32 {
    if 65 <= c as u32 <= 90 {
        (c as u32 + 32) as u32
    } else {
        c as u32
    }
}

/// Header names compare without regard to ASCII case.
pub open spec fn same_name(a: Seq<char>, b: Seq<char>) -> bool {
    &&& a.len() == b.len()
    &&& forall|i: int| 0 <= i < a.len() ==> #[trigger] folded(a[i]) == folded(b[i])
}

pub type HeaderView = (Seq<char>, Seq<char>);

/// No two headers share a name.
pub open spec fn names_unique(hs: Seq<HeaderView>) -> bool {
    forall|i: int, j: int|
        0 <= i < hs.len() && 0 <= j < hs.len() && i != j ==> !same_name(
            #[trigger] hs[i].0,
            #[trigger] hs[j].0,
        )
}

pub open spec fn has_name(hs: Seq<HeaderView>, name: Seq<char>) -> bool {
    exists|j: int| 0 <= j < hs.len() && same_name(#[trigger] hs[j].0, name)
}

/// Setting a header: a header of the same name is replaced where it stands,
/// otherwise the header is appended.
pub open spec fn set_header(hs: Seq<HeaderView>, name: Seq<char>, value: Seq<char>) -> Seq<HeaderView> {
    if has_name(hs, name) {
        let j = choose|j: int| 0 <= j < hs.len() && same_name(#[trigger] hs[j].0, name);
        hs.update(j, (name, value))
    } else {
        hs.push((name, value))
    }
}

fn same_header_name(a: &str, b: &str) -> (r: bool)
    ensures
        r == same_name(a@, b@),
{
    let n = a.unicode_len();
    if n != b.unicode_len() {
        return false;
    }
    let mut i: usize = 0;
    while i < n
        invariant
            n == a@.len(),
            n == b@.len(),
            i <= n,
            forall|j: int| 0 <= j < i ==> #[trigger] folded(a@[j]) == folded(b@[j]),
        decreases n - i,
    {
        let ca = a.get_char(i) as u32;
        let cb = b.get_char(i) as u32;
        let fa: u32 = if 65 <= ca && ca <= 90 { ca + 32 } else { ca };
        let fb: u32 = if 65 <= cb && cb <= 90 { cb + 32 } else { cb };
        assert(folded(a@[i as int]) == fa && folded(b@[i as int]) == fb);
        if fa != fb {
            return false;
        }
        i += 1;
    }
    true
}


pub open spec fn headers_view(hs: Seq<(String, String)>) -> Seq<HeaderView> {
    hs.map_values(|h: (String, String)| (h.0@, h.1@))
}

// ---------------------------------------------------------------------------
// Bodies

/// One named part of a multipart body: text sent as it is, or the content of a
/// local file, read lazily in chunks when the request goes out.
pub enum Part {
    Text { name: String, value: String },
    Stream { name: String, path: String },
}

pub enum PartView {
    Text { name: Seq<char>, value: Seq<char> },
    Stream { name: Seq<char>, path: Seq<char> },
}

impl View for Part {
    type V = PartView;

    open spec fn view(&self) -> PartView {
        match self {
            Part::Text { name, value } => PartView::Text { name: name@, value: value@ },
            Part::Stream { name, path } => PartView::Stream { name: name@, path: path@ },
        }
    }
}

/// A multipart body: its parts in the order they were added.
pub struct MultipartBody {
    parts: Vec<Part>,
}

impl View for MultipartBody {
    type V = Seq<PartView>;

    closed spec fn view(&self) -> Seq<PartView> {
        self.parts@.map_values(|p: Part| p@)
    }
}

impl MultipartBody {
    pub fn new() -> (r: MultipartBody)
        ensures
            r@ == Seq::<PartView>::empty(),
    {
        let r = MultipartBody { parts: Vec::new() };
        assert(r@ =~= Seq::<PartView>::empty());
        r
    }

    pub fn with_text_part(self, name: &str, body: &str) -> (r: MultipartBody)
        ensures
            r@ == self@.push(PartView::Text { name: name@, value: body@ }),
    {
        let mut parts = self.parts;
        parts.push(Part::Text { name: name.to_owned(), value: body.to_owned() });
        let r = MultipartBody { parts };
        assert(r@ =~= self@.push(PartView::Text { name: name@, value: body@ }));
        r
    }

    /// Adds a part whose content is streamed from the file at `path`.
    pub fn with_stream_part(self, name: &str, path: &str) -> (r: MultipartBody)
        ensures
            r@ == self@.push(PartView::Stream { name: name@, path: path@ }),
    {
        let mut parts = self.parts;
        parts.push(Part::Stream { name: name.to_owned(), path: path.to_owned() });
        let r = MultipartBody { parts };
        assert(r@ =~= self@.push(PartView::Stream { name: name@, path: path@ }));
        r
    }

    /// The parts, in order, for the transport to put on the wire.
    pub fn into_parts(self) -> (r: Vec<Part>)
        ensures
            r@.map_values(|p: Part| p@) == self@,
    {
        self.parts
    }
}

/// What a request carries: nothing, JSON text, or a multipart body.
pub enum Body {
    Empty,
    JSON(String),
    Multipart(MultipartBody),
}

pub enum BodyView {
    Empty,
    JSON(Seq<char>),
    Multipart(Seq<PartView>),
}

impl View for Body {
    type V = BodyView;

    open spec fn view(&self) -> BodyView {
        match self {
            Body::Empty => BodyView::Empty,
            Body::JSON(s) => BodyView::JSON(s@),
            Body::Multipart(m) => BodyView::Multipart(m@),
        }
    }
}

// ---------------------------------------------------------------------------
// Requests

pub struct RequestView {
    pub method: HTTPMethod,
    pub url: Seq<char>,
    pub headers: Seq<HeaderView>,
    pub body: BodyView,
}

/// A request under construction: target, method, headers in insertion order
/// with at most one per name, and a body.
pub struct Request {
    method: HTTPMethod,
    url: String,
    headers: Vec<(String, String)>,
    body: Body,
}

impl View for Request {
    type V = RequestView;

    closed spec fn view(&self) -> RequestView {
        RequestView {
            method: self.method,
            url: self.url@,
            headers: headers_view(self.headers@),
            body: self.body@,
        }
    }
}

impl Request {
    /// No two headers share a name.
    pub open spec fn wf(&self) -> bool {
        names_unique(self@.headers)
    }

    fn new(method: HTTPMethod, url: String) -> (r: Request)
        ensures
            r.wf(),
            r@ == (RequestView { method, url: url@, headers: seq![], body: BodyView::Empty }),
    {
        let r = Request { method, url, headers: Vec::new(), body: Body::Empty };
        assert(r@.headers =~= seq![]);
        r
    }

    /// Sets the body. An empty body leaves the current one in place.
    pub fn with_body(self, body: Body) -> (r: Request)
        requires
            self.wf(),
        ensures
            r.wf(),
            r@ == (RequestView {
                body: match body {
                    Body::Empty => self@.body,
                    _ => body@,
                },
                ..self@
            }),
    {
        let Request { method, url, headers, body: current } = self;
        let body = match body {
            Body::Empty => current,
            other => other,
        };
        Request { method, url, headers, body }
    }

    /// Sets a header. A header of the same name, in any ASCII case, is
    /// replaced where it stands; otherwise the header is appended.
    pub fn with_header(self, key: &str, value: &str) -> (r: Request)
        requires
            self.wf(),
        ensures
            r.wf(),
            r@ == (RequestView { headers: set_header(self@.headers, key@, value@), ..self@ }),
    {
        let Request { method, url, mut headers, body } = self;
        let ghost hs = headers_view(headers@);
        let mut i: usize = 0;
        while i < headers.len()
            invariant
                hs == headers_view(headers@),
                hs == self@.headers,
                method == self.method,
                url == self.url,
                body == self.body,
                names_unique(hs),
                i <= headers@.len(),
                forall|j: int| 0 <= j < i ==> !same_name(#[trigger] hs[j].0, key@),
            decreases headers@.len() - i,
        {
            if same_header_name(headers[i].0.as_str(), key) {
                assert(hs[i as int].0 == headers@[i as int].0@);
                assert(same_name(hs[i as int].0, key@));
                assert(has_name(hs, key@));
                let ghost c = choose|j: int| 0 <= j < hs.len() && same_name(#[trigger] hs[j].0, key@);
                assert(c == i) by {
                    if c != i {
                        assert(!same_name(hs[c].0, hs[i as int].0));
                        assert(same_name(hs[c].0, hs[i as int].0));
                    }
                }
                headers.set(i, (key.to_owned(), value.to_owned()));
                let ghost nh = headers_view(headers@);
                assert(nh =~= hs.update(i as int, (key@, value@)));
                assert forall|a: int, b: int|
                    0 <= a < nh.len() && 0 <= b < nh.len() && a != b implies !same_name(
                        #[trigger] nh[a].0,
                        #[trigger] nh[b].0,
                    ) by {
                    if a == i {
                        assert(!same_name(hs[b].0, hs[i as int].0));
                    } else if b == i {
                        assert(!same_name(hs[a].0, hs[i as int].0));
                    }
                }
                assert(nh == set_header(hs, key@, value@));
                return Request { method, url, headers, body };
            }
            i += 1;
        }
        assert(!has_name(hs, key@));
        headers.push((key.to_owned(), value.to_owned()));
        assert(headers_view(headers@) =~= hs.push((key@, value@)));
        Request { method, url, headers, body }
    }

    pub fn method(&self) -> (r: HTTPMethod)
        ensures
            r == self@.method,
    {
        self.method
    }

    pub fn url(&self) -> (r: &str)
        ensures
            r@ == self@.url,
    {
        self.url.as_str()
    }

    pub fn headers(&self) -> (r: &Vec<(String, String)>)
        ensures
            headers_view(r@) == self@.headers,
    {
        &self.headers
    }

    pub fn body(&self) -> (r: &Body)
        ensures
            r@ == self@.body,
    {
        &self.body
    }

    /// Takes the request apart for sending: it cannot be sent twice.
    pub fn into_parts(self) -> (r: (HTTPMethod, String, Vec<(String, String)>, Body))
        ensures
            r.0 == self@.method,
            r.1@ == self@.url,
            headers_view(r.2@) == self@.headers,
            r.3@ == self@.body,
    {
        (self.method, self.url, self.headers, self.body)
    }
}

// ---------------------------------------------------------------------------
// Responses

#[verifier::external_type_specification]
#[verifier::external_body]
pub struct ExResponse(WireResponse);

/// A completed HTTP exchange, its status read once.
#[derive(Debug)]
pub struct Response {
    status: u16,
    inner: WireResponse,
}

impl Response {
    pub closed spec fn status_code(&self) -> u16 {
        self.status
    }

    /// A response with the status code read from `inner`.
    pub fn from_parts(status: u16, inner: WireResponse) -> (r: Response)
        ensures
            r.status_code() == status,
    {
        Response { status, inner }
    }

    pub fn status(&self) -> (r: u16)
        ensures
            r == self.status_code(),
    {
        self.status
    }

    /// A 2xx status.
    pub fn is_success(&self) -> (r: bool)
        ensures
            r == (200 <= self.status_code() < 300),
    {
        200 <= self.status && self.status < 300
    }

    /// The underlying response, for reading its headers.
    pub fn inner(&self) -> &WireResponse {
        &self.inner
    }

    /// The underlying response, for reading its body once.
    pub fn into_inner(self) -> WireResponse {
        self.inner
    }
}

// ---------------------------------------------------------------------------
// The transport

/// Whether a target is root-relative: a path with no scheme or host.
pub open spec fn is_root_relative(url: Seq<char>) -> bool {
    url.len() > 0 && url[0] == '/'
}

/// A root-relative target is appended to the API root; any other is kept.
pub open spec fn resolve_url(root: Seq<char>, url: Seq<char>) -> Seq<char> {
    if is_root_relative(url) {
        root + url
    } else {
        url
    }
}

pub open spec fn bearer(token: Seq<char>) -> Seq<char> {
    "Bearer "@ + token
}

/// A request with the credential attached.
pub open spec fn authorized(req: RequestView, token: Seq<char>) -> RequestView {
    RequestView { headers: set_header(req.headers, "Authorization"@, bearer(token)), ..req }
}

/// Whether the text parses as an absolute URL.
pub uninterp spec fn url_parses(s: Seq<char>) -> bool;

/// Whether the URL that the text parses to has a host.
pub uninterp spec fn url_has_host(s: Seq<char>) -> bool;

/// Relies on url's `Url::parse`, which accepts exactly the texts that are
/// absolute URLs and says why it refuses any other, and on `Url::has_host`.
#[verifier::external_body]
fn parse_url(s: &str) -> (r: Result<bool, url::ParseError>)
    ensures
        r is Ok <==> url_parses(s@),
        r is Ok ==> r->Ok_0 == url_has_host(s@),
{
    match url::Url::parse(s) {
        Ok(u) => Ok(u.has_host()),
        Err(e) => Err(e),
    }
}

/// Relies on url's `ParseError::EmptyHost`: the error for a URL with no host.
#[verifier::external_body]
fn empty_host() -> url::ParseError {
    url::ParseError::EmptyHost
}

/// A target that can be sent: an absolute URL with a host.
pub open spec fn target_ok(url: Seq<char>) -> bool {
    url_parses(url) && url_has_host(url)
}

/// A header value may hold any character but ASCII controls other than tab.
pub open spec fn value_char_ok(c: char) -> bool {
    c == '\t' || (c as u32 >= 32 && c as u32 != 127)
}

pub open spec fn header_value_valid(v: Seq<char>) -> bool {
    forall|i: int| 0 <= i < v.len() ==> #[trigger] value_char_ok(v[i])
}

/// A character allowed in a header name: a token character of HTTP.
pub open spec fn name_char_ok(c: char) -> bool {
    let n = c as u32;
    ||| 48 <= n <= 57
    ||| 65 <= n <= 90
    ||| 97 <= n <= 122
    ||| 33 <= n <= 39
    ||| n == 42 || n == 43 || n == 45 || n == 46
    ||| 94 <= n <= 96
    ||| n == 124 || n == 126
}

/// A header name is 1 to 65535 token characters.
pub open spec fn header_name_valid(s: Seq<char>) -> bool {
    &&& 1 <= s.len() <= 65535
    &&& forall|i: int| 0 <= i < s.len() ==> #[trigger] name_char_ok(s[i])
}

pub open spec fn headers_valid(hs: Seq<HeaderView>) -> bool {
    forall|i: int|
        0 <= i < hs.len() ==> header_name_valid(#[trigger] hs[i].0) && header_value_valid(hs[i].1)
}

/// Relies on http's `HeaderName::from_bytes`: it accepts exactly the names of
/// 1 to 65535 bytes that its table of token characters admits (the letters,
/// digits and ``!"#$%&'*+-.^_`|~``), and says why it refuses any other.
#[verifier::external_body]
fn check_header_name(s: &str) -> (r: Result<(), http::Error>)
    ensures
        r is Ok <==> header_name_valid(s@),
{
    match http::header::HeaderName::from_bytes(s.as_bytes()) {
        Ok(_) => Ok(()),
        Err(e) => Err(e.into()),
    }
}

/// Relies on http's `HeaderValue::from_str`: it refuses exactly the texts with
/// a byte below 32 other than tab, or the byte 127; UTF-8 encodes every other
/// character in bytes it accepts.
#[verifier::external_body]
fn check_header_value(s: &str) -> (r: Result<(), http::Error>)
    ensures
        r is Ok <==> header_value_valid(s@),
{
    match http::header::HeaderValue::from_str(s) {
        Ok(_) => Ok(()),
        Err(e) => Err(e.into()),
    }
}

/// The first header that cannot go on the wire, if any.
fn first_bad_header(headers: &Vec<(String, String)>) -> (r: Result<(), http::Error>)
    ensures
        r is Ok <==> headers_valid(headers_view(headers@)),
{
    let ghost hs = headers_view(headers@);
    let mut i: usize = 0;
    while i < headers.len()
        invariant
            hs == headers_view(headers@),
            i <= headers@.len(),
            forall|j: int|
                0 <= j < i ==> header_name_valid(#[trigger] hs[j].0) && header_value_valid(hs[j].1),
        decreases headers@.len() - i,
    {
        let (name, value) = (&headers[i].0, &headers[i].1);
        assert(hs[i as int].0 == name@ && hs[i as int].1 == value@);
        match check_header_name(name.as_str()) {
            Ok(()) => {},
            Err(e) => {
                assert(!header_name_valid(hs[i as int].0));
                return Err(e);
            },
        }
        match check_header_value(value.as_str()) {
            Ok(()) => {},
            Err(e) => {
                assert(!header_value_valid(hs[i as int].1));
                return Err(e);
            },
        }
        assert forall|j: int| 0 <= j < i + 1 implies header_name_valid(#[trigger] hs[j].0)
            && header_value_valid(hs[j].1) by {
            if j == i {
                assert(hs[j].0 == name@ && hs[j].1 == value@);
            }
        }
        i += 1;
    }
    assert(headers_valid(hs));
    Ok(())
}

/// Builds requests against an API root and judges the responses.
pub struct NetworkAgent {
    api_root: String,
}

impl NetworkAgent {
    pub closed spec fn root(&self) -> Seq<char> {
        self.api_root@
    }

    /// An agent whose root is `api_root`, or the default root without one.
    pub fn new(api_root: Option<String>) -> (r: NetworkAgent)
        ensures
            r.root() == match api_root {
                Some(s) => s@,
                None => DEFAULT_API_ROOT@,
            },
    {
        match api_root {
            Some(root) => NetworkAgent { api_root: root },
            None => NetworkAgent { api_root: DEFAULT_API_ROOT.to_owned() },
        }
    }

    /// Starts a request to `url`, resolved against the API root when it is
    /// root-relative.
    pub fn start_request(&self, method: HTTPMethod, url: &str) -> (r: Request)
        ensures
            r.wf(),
            r@ == (RequestView {
                method,
                url: resolve_url(self.root(), url@),
                headers: seq![],
                body: BodyView::Empty,
            }),
    {
        let relative = url.unicode_len() > 0 && url.get_char(0) == '/';
        let target = if relative {
            self.api_root.clone().concat(url)
        } else {
            url.to_owned()
        };
        Request::new(method, target)
    }

    /// Attaches `Authorization: Bearer <token>` to a request.
    pub fn authorize(request: Request, token: &AccessToken) -> (r: Request)
        requires
            request.wf(),
        ensures
            r.wf(),
            r@ == authorized(request@, token@),
    {
        let value = "Bearer ".to_owned().concat(token.as_str());
        request.with_header("Authorization", value.as_str())
    }

    /// Makes a request ready to go out: attaches the credential, then checks
    /// the target, which must be an absolute URL with a host, and then each
    /// header in turn.
    pub fn prepare(&self, request: Request, token: &AccessToken) -> (r: Result<Request, SDKError>)
        requires
            request.wf(),
        ensures
            r is Ok <==> target_ok(request@.url) && headers_valid(
                authorized(request@, token@).headers,
            ),
            r is Ok ==> r->Ok_0.wf() && r->Ok_0@ == authorized(request@, token@),
            r is Err && !target_ok(request@.url) ==> r->Err_0 is InvalidURL,
            r is Err && target_ok(request@.url) ==> r->Err_0 is InvalidHeader,
    {
        let request = NetworkAgent::authorize(request, token);
        match parse_url(request.url()) {
            Ok(true) => {},
            Ok(false) => return Err(SDKError::InvalidURL(empty_host())),
            Err(e) => return Err(SDKError::InvalidURL(e)),
        }
        match first_bad_header(request.headers()) {
            Ok(()) => Ok(request),
            Err(e) => Err(SDKError::InvalidHeader(e)),
        }
    }

    /// Classifies a completed exchange: a 2xx response is handed back, any
    /// other becomes an API error that carries the response.
    pub fn classify(&self, response: Response) -> (r: Result<Response, SDKError>)
        ensures
            r is Ok <==> 200 <= response.status_code() < 300,
            r is Ok ==> r->Ok_0 == response,
            r is Err ==> match r->Err_0 {
                SDKError::APIError { response: kept } => kept == response,
                _ => false,
            },
    {
        if response.is_success() {
            Ok(response)
        } else {
            Err(SDKError::APIError { response })
        }
    }
}

/// Every authorized request carries exactly one `Authorization` header, in
/// any ASCII case, and its value is `Bearer ` followed by the token.
pub proof fn authorization_is_carried(request: Request, token: Seq<char>)
    requires
        request.wf(),
    ensures
        ({
            let req = request@;
            let hs = authorized(req, token).headers;
            &&& names_unique(hs)
            &&& exists|j: int|
                0 <= j < hs.len() && #[trigger] hs[j] == ("Authorization"@, bearer(token))
            &&& forall|j: int|
                0 <= j < hs.len() && same_name(#[trigger] hs[j].0, "Authorization"@) ==> hs[j].1
                    == bearer(token)
            &&& forall|j: int|
                0 <= j < req.headers.len() && !same_name(#[trigger] req.headers[j].0, "Authorization"@)
                    ==> hs[j] == req.headers[j]
            &&& authorized(req, token).method == req.method
            &&& authorized(req, token).url == req.url
            &&& authorized(req, token).body == req.body
        }),
{
    let req = request@;
    let hs = req.headers;
    let name = "Authorization"@;
    let out = set_header(hs, name, bearer(token));
    if has_name(hs, name) {
        let c = choose|j: int| 0 <= j < hs.len() && same_name(#[trigger] hs[j].0, name);
        assert(out[c] == (name, bearer(token)));
        assert forall|a: int, b: int|
            0 <= a < out.len() && 0 <= b < out.len() && a != b implies !same_name(
                #[trigger] out[a].0,
                #[trigger] out[b].0,
            ) by {
            if a == c {
                assert(!same_name(hs[b].0, hs[c].0));
            } else if b == c {
                assert(!same_name(hs[a].0, hs[c].0));
            }
        }
        assert forall|j: int|
            0 <= j < out.len() && same_name(#[trigger] out[j].0, name) implies out[j].1 == bearer(
                token,
            ) by {
            if j != c {
                assert(!same_name(hs[j].0, hs[c].0));
            }
        }
    } else {
        assert(out[hs.len() as int] == (name, bearer(token)));
        assert forall|j: int|
            0 <= j < out.len() && same_name(#[trigger] out[j].0, name) implies out[j].1 == bearer(
                token,
            ) by {
            if j < hs.len() {
                assert(same_name(hs[j].0, name));
            }
        }
    }
}

} // verus!
