//! The transport contract: request descriptors, the sender seam that each
//! backend adapter fills in, and the error normalizer shared by every
//! adapter.
//!
//! A backend supplies one *sender* per verb: a function from the assembled
//! [`HttpRequest`] to a raw [`SendOutcome`]. Everything on this side of the
//! sender — header assembly, payload selection, error normalization — is
//! verified; the sender itself performs the network round trip.

use crate::error::{ClientError, ClientResult, ErrorView};
use vstd::prelude::*;

verus! {

// A JSON request body is carried through to the sender untouched; the type
// is declared so that it can stand in fields and signatures.
#[verifier::external_type_specification]
#[verifier::external_body]
pub struct ExValue(serde_json::Value);

/// Relies on serde_json's derived `Clone` for `Value`: a deep copy, equal to
/// the original value.
pub assume_specification[ <serde_json::Value as Clone>::clone ](
    v: &serde_json::Value,
) -> (r: serde_json::Value)
    ensures
        r == *v,
;

/// Header names and values, kept in insertion order; as a mapping the list is
/// read key to value, last write wins where a key repeats.
pub type Headers = Vec<(String, String)>;

/// URL query parameters of a GET request.
pub type Query = Vec<(String, String)>;

/// Key/value pairs sent as a URL-encoded form body.
pub type Form = Vec<(String, String)>;

/// Abstract value of a key/value pair list: each string as its character
/// sequence.
pub open spec fn pairs_view(v: Seq<(String, String)>) -> Seq<(Seq<char>, Seq<char>)> {
    Seq::new(v.len(), |i: int| (v[i].0@, v[i].1@))
}

/// The HTTP verb of a request.
pub enum Method {
    Get,
    Post,
    Put,
    Delete,
}

/// The verb-specific payload of a request.
pub enum Payload {
    /// URL query parameters (GET).
    Query(Query),
    /// A JSON body (POST, PUT, DELETE).
    Json(serde_json::Value),
    /// A URL-encoded form body (POST).
    Form(Form),
}

/// Abstract value of a payload.
pub enum PayloadView {
    Query(Seq<(Seq<char>, Seq<char>)>),
    Json(serde_json::Value),
    Form(Seq<(Seq<char>, Seq<char>)>),
}

impl View for Payload {
    type V = PayloadView;

    open spec fn view(&self) -> PayloadView {
        match self {
            Payload::Query(q) => PayloadView::Query(pairs_view(q@)),
            Payload::Json(v) => PayloadView::Json(*v),
            Payload::Form(f) => PayloadView::Form(pairs_view(f@)),
        }
    }
}

/// One ready-to-send request: exactly the value a sender receives.
pub struct HttpRequest {
    pub method: Method,
    pub url: String,
    pub headers: Headers,
    pub payload: Payload,
}

/// Abstract value of a request.
pub struct RequestView {
    pub method: Method,
    pub url: Seq<char>,
    pub headers: Seq<(Seq<char>, Seq<char>)>,
    pub payload: PayloadView,
}

impl View for HttpRequest {
    type V = RequestView;

    open spec fn view(&self) -> RequestView {
        RequestView {
            method: self.method,
            url: self.url@,
            headers: pairs_view(self.headers@),
            payload: self.payload@,
        }
    }
}

/// The outcome of reading a response body as text.
pub enum BodyOutcome {
    /// The body decoded as text.
    Text(String),
    /// The body could not be read as text; the reader's message.
    Unreadable(String),
}

/// An HTTP response as a backend hands it back: the status code and the
/// outcome of reading the body.
pub struct RawResponse {
    pub status: u16,
    pub body: BodyOutcome,
}

/// The raw result of one send: a response (of whatever status), or a failure
/// before any status line was obtained (DNS, connect, timeout, TLS).
pub enum SendOutcome {
    Response(RawResponse),
    Failure(String),
}

/// Abstract value of a body outcome.
pub enum BodyView {
    Text(Seq<char>),
    Unreadable(Seq<char>),
}

impl View for BodyOutcome {
    type V = BodyView;

    open spec fn view(&self) -> BodyView {
        match self {
            BodyOutcome::Text(t) => BodyView::Text(t@),
            BodyOutcome::Unreadable(m) => BodyView::Unreadable(m@),
        }
    }
}

/// Abstract value of a response.
pub struct ResponseView {
    pub status: u16,
    pub body: BodyView,
}

impl View for RawResponse {
    type V = ResponseView;

    open spec fn view(&self) -> ResponseView {
        ResponseView { status: self.status, body: self.body@ }
    }
}

/// Abstract value of a send outcome.
pub enum OutcomeView {
    Response(ResponseView),
    Failure(Seq<char>),
}

impl View for SendOutcome {
    type V = OutcomeView;

    open spec fn view(&self) -> OutcomeView {
        match self {
            SendOutcome::Response(r) => OutcomeView::Response(r@),
            SendOutcome::Failure(m) => OutcomeView::Failure(m@),
        }
    }
}

/// The text a response carries: its body where readable, otherwise the
/// reader's message.
pub open spec fn response_text(b: BodyView) -> Seq<char> {
    match b {
        BodyView::Text(t) => t,
        BodyView::Unreadable(m) => m,
    }
}

/// Whether a status code reports success.
pub open spec fn is_success(status: u16) -> bool {
    200 <= status < 300
}

/// The error-normalization rule: what one raw send outcome surfaces as.
/// A failure before a response becomes a transport error; a non-2xx response
/// becomes a status error carrying its text; a 2xx response yields its body,
/// or a body error where the body could not be read.
pub open spec fn normalized(o: OutcomeView) -> Result<Seq<char>, ErrorView> {
    match o {
        OutcomeView::Failure(msg) => Err(ErrorView::Transport(msg)),
        OutcomeView::Response(r) => if is_success(r.status) {
            match r.body {
                BodyView::Text(b) => Ok(b),
                BodyView::Unreadable(m) => Err(ErrorView::Body(m)),
            }
        } else {
            Err(ErrorView::Status(r.status, response_text(r.body)))
        },
    }
}

/// Abstract value of a transport result: the body text, or the normalized
/// error.
pub open spec fn result_view(r: ClientResult<String>) -> Result<Seq<char>, ErrorView> {
    match r {
        Ok(s) => Ok(s@),
        Err(e) => Err(e@),
    }
}

impl ClientError {
    /// The error for a response whose status rejected the request: the status
    /// code together with the response's text.
    pub fn from_response(r: RawResponse) -> (e: ClientError)
        ensures
            e@ == ErrorView::Status(r.status, response_text(r.body@)),
    {
        match r.body {
            BodyOutcome::Text(t) => ClientError::StatusCode(r.status, t),
            BodyOutcome::Unreadable(m) => ClientError::StatusCode(r.status, m),
        }
    }
}

/// Maps one raw send outcome to the caller-facing result: the body text of a
/// successful response, and otherwise exactly one normalized error.
pub fn normalize(o: SendOutcome) -> (r: ClientResult<String>)
    ensures
        result_view(r) == normalized(o@),
{
    match o {
        SendOutcome::Failure(msg) => Err(ClientError::Request(msg)),
        SendOutcome::Response(resp) => {
            if 200 <= resp.status && resp.status < 300 {
                match resp.body {
                    BodyOutcome::Text(b) => Ok(b),
                    BodyOutcome::Unreadable(m) => Err(ClientError::Body(m)),
                }
            } else {
                Err(ClientError::from_response(resp))
            }
        },
    }
}

/// The request as it goes out of the shared routine: the caller's headers
/// appended after those already on the request, everything else unchanged.
pub open spec fn assembled(
    r: RequestView,
    h: Option<Seq<(Seq<char>, Seq<char>)>>,
) -> RequestView {
    RequestView {
        headers: r.headers + match h {
            Some(hs) => hs,
            None => Seq::empty(),
        },
        ..r
    }
}

/// Abstract value of an optional header set.
pub open spec fn headers_view(h: Option<&Headers>) -> Option<Seq<(Seq<char>, Seq<char>)>> {
    match h {
        Some(hs) => Some(pairs_view(hs@)),
        None => None,
    }
}

/// The request a verb operation hands to its sender: the given method, URL
/// and payload, and exactly the caller's headers, verbatim.
pub open spec fn outgoing(
    m: Method,
    url: Seq<char>,
    h: Option<Seq<(Seq<char>, Seq<char>)>>,
    p: PayloadView,
) -> RequestView {
    RequestView {
        method: m,
        url: url,
        headers: match h {
            Some(hs) => hs,
            None => Seq::empty(),
        },
        payload: p,
    }
}

/// Appends a copy of each pair of `src` onto `dst`, in order.
fn append_pairs(dst: &mut Vec<(String, String)>, src: &Vec<(String, String)>)
    ensures
        pairs_view(final(dst)@) == pairs_view(old(dst)@) + pairs_view(src@),
{
    let ghost base = pairs_view(dst@);
    let mut i: usize = 0;
    while i < src.len()
        invariant
            i <= src.len(),
            pairs_view(dst@) == base + pairs_view(src@).take(i as int),
        decreases src.len() - i,
    {
        let key = src[i].0.clone();
        let val = src[i].1.clone();
        let ghost gk = key@;
        let ghost gv = val@;
        let ghost prev = dst@;
        dst.push((key, val));
        proof {
            let a = pairs_view(dst@);
            let b = base + pairs_view(src@).take(i + 1 as int);
            assert(pairs_view(prev) == base + pairs_view(src@).take(i as int));
            assert(a.len() == b.len());
            assert forall|j: int| 0 <= j < a.len() implies a[j] == b[j] by {
                if j < prev.len() {
                    assert(pairs_view(prev)[j] == (prev[j].0@, prev[j].1@));
                } else {
                    assert(dst@[j].0@ == gk && dst@[j].1@ == gv);
                    assert(b[j] == pairs_view(src@)[i as int]);
                }
            }
            assert(a =~= b);
        }
        i += 1;
    }
    proof {
        assert(pairs_view(src@).take(src@.len() as int) =~= pairs_view(src@));
    }
}

/// Copies a key/value pair list into a request payload.
fn clone_pairs(v: &Vec<(String, String)>) -> (r: Vec<(String, String)>)
    ensures
        pairs_view(r@) == pairs_view(v@),
{
    let mut out: Vec<(String, String)> = Vec::new();
    append_pairs(&mut out, v);
    proof {
        assert(pairs_view(Seq::<(String, String)>::empty()) =~= Seq::<(Seq<char>, Seq<char>)>::empty());
        assert(Seq::<(Seq<char>, Seq<char>)>::empty() + pairs_view(v@) =~= pairs_view(v@));
    }
    out
}

/// The blocking backend adapter's verified core. It assembles the outgoing
/// request — caller headers first, then the verb-specific payload — hands it
/// to one sender, and normalizes whatever came back. A sender performs the
/// actual network round trip: the blocking ureq backend supplies one per
/// verb, and a test supplies a simulated one.
#[derive(Default, Debug, Clone)]
pub struct UreqClient {}

impl UreqClient {
    /// Shared request routine of all five verbs: sets the caller's headers on
    /// the request, dispatches it through the verb-specific sender, and
    /// collects the body-or-error.
    pub fn request<F: Fn(HttpRequest) -> SendOutcome>(
        &self,
        request: HttpRequest,
        headers: Option<&Headers>,
        send_request: F,
    ) -> (r: ClientResult<String>)
        requires
            forall|q: HttpRequest| #[trigger] call_requires(send_request, (q,)),
        ensures
            exists|q: HttpRequest, o: SendOutcome|
                {
                    &&& q@ == assembled(request@, headers_view(headers))
                    &&& #[trigger] call_ensures(send_request, (q,), o)
                    &&& result_view(r) == normalized(o@)
                },
    {
        let ghost orig = request@;
        let mut req = request;
        if let Some(hs) = headers {
            append_pairs(&mut req.headers, hs);
        } else {
            proof {
                assert(pairs_view(req.headers@) =~= pairs_view(req.headers@) + Seq::empty());
            }
        }
        let ghost q_sent = req;
        let out = send_request(req);
        let ghost o_got = out;
        let res = normalize(out);
        proof {
            assert(q_sent@ == assembled(orig, headers_view(headers)));
            assert({
                &&& q_sent@ == assembled(request@, headers_view(headers))
                &&& call_ensures(send_request, (q_sent,), o_got)
                &&& result_view(res) == normalized(o_got@)
            });
        }
        res
    }

    /// GET: the parameters ride as URL query parameters.
    pub fn get<F: Fn(HttpRequest) -> SendOutcome>(
        &self,
        url: &str,
        headers: Option<&Headers>,
        payload: &Query,
        send_request: F,
    ) -> (r: ClientResult<String>)
        requires
            forall|q: HttpRequest| #[trigger] call_requires(send_request, (q,)),
        ensures
            exists|q: HttpRequest, o: SendOutcome|
                {
                    &&& q@ == outgoing(
                        Method::Get,
                        url@,
                        headers_view(headers),
                        PayloadView::Query(pairs_view(payload@)),
                    )
                    &&& #[trigger] call_ensures(send_request, (q,), o)
                    &&& result_view(r) == normalized(o@)
                },
    {
        let request = HttpRequest {
            method: Method::Get,
            url: url.to_string(),
            headers: Vec::new(),
            payload: Payload::Query(clone_pairs(payload)),
        };
        let ghost reqv = request@;
        let r = self.request(request, headers, send_request);
        proof {
            lemma_fresh_assembled(reqv, headers_view(headers));
        }
        r
    }

    /// POST with a JSON body.
    pub fn post<F: Fn(HttpRequest) -> SendOutcome>(
        &self,
        url: &str,
        headers: Option<&Headers>,
        payload: &serde_json::Value,
        send_request: F,
    ) -> (r: ClientResult<String>)
        requires
            forall|q: HttpRequest| #[trigger] call_requires(send_request, (q,)),
        ensures
            exists|q: HttpRequest, o: SendOutcome|
                {
                    &&& q@ == outgoing(
                        Method::Post,
                        url@,
                        headers_view(headers),
                        PayloadView::Json(*payload),
                    )
                    &&& #[trigger] call_ensures(send_request, (q,), o)
                    &&& result_view(r) == normalized(o@)
                },
    {
        let request = HttpRequest {
            method: Method::Post,
            url: url.to_string(),
            headers: Vec::new(),
            payload: Payload::Json(payload.clone()),
        };
        let ghost reqv = request@;
        let r = self.request(request, headers, send_request);
        proof {
            lemma_fresh_assembled(reqv, headers_view(headers));
        }
        r
    }

    /// POST with a URL-encoded form body.
    pub fn post_form<F: Fn(HttpRequest) -> SendOutcome>(
        &self,
        url: &str,
        headers: Option<&Headers>,
        payload: &Form,
        send_request: F,
    ) -> (r: ClientResult<String>)
        requires
            forall|q: HttpRequest| #[trigger] call_requires(send_request, (q,)),
        ensures
            exists|q: HttpRequest, o: SendOutcome|
                {
                    &&& q@ == outgoing(
                        Method::Post,
                        url@,
                        headers_view(headers),
                        PayloadView::Form(pairs_view(payload@)),
                    )
                    &&& #[trigger] call_ensures(send_request, (q,), o)
                    &&& result_view(r) == normalized(o@)
                },
    {
        let request = HttpRequest {
            method: Method::Post,
            url: url.to_string(),
            headers: Vec::new(),
            payload: Payload::Form(clone_pairs(payload)),
        };
        let ghost reqv = request@;
        let r = self.request(request, headers, send_request);
        proof {
            lemma_fresh_assembled(reqv, headers_view(headers));
        }
        r
    }

    /// PUT with a JSON body.
    pub fn put<F: Fn(HttpRequest) -> SendOutcome>(
        &self,
        url: &str,
        headers: Option<&Headers>,
        payload: &serde_json::Value,
        send_request: F,
    ) -> (r: ClientResult<String>)
        requires
            forall|q: HttpRequest| #[trigger] call_requires(send_request, (q,)),
        ensures
            exists|q: HttpRequest, o: SendOutcome|
                {
                    &&& q@ == outgoing(
                        Method::Put,
                        url@,
                        headers_view(headers),
                        PayloadView::Json(*payload),
                    )
                    &&& #[trigger] call_ensures(send_request, (q,), o)
                    &&& result_view(r) == normalized(o@)
                },
    {
        let request = HttpRequest {
            method: Method::Put,
            url: url.to_string(),
            headers: Vec::new(),
            payload: Payload::Json(payload.clone()),
        };
        let ghost reqv = request@;
        let r = self.request(request, headers, send_request);
        proof {
            lemma_fresh_assembled(reqv, headers_view(headers));
        }
        r
    }

    /// DELETE with a JSON body.
    pub fn delete<F: Fn(HttpRequest) -> SendOutcome>(
        &self,
        url: &str,
        headers: Option<&Headers>,
        payload: &serde_json::Value,
        send_request: F,
    ) -> (r: ClientResult<String>)
        requires
            forall|q: HttpRequest| #[trigger] call_requires(send_request, (q,)),
        ensures
            exists|q: HttpRequest, o: SendOutcome|
                {
                    &&& q@ == outgoing(
                        Method::Delete,
                        url@,
                        headers_view(headers),
                        PayloadView::Json(*payload),
                    )
                    &&& #[trigger] call_ensures(send_request, (q,), o)
                    &&& result_view(r) == normalized(o@)
                },
    {
        let request = HttpRequest {
            method: Method::Delete,
            url: url.to_string(),
            headers: Vec::new(),
            payload: Payload::Json(payload.clone()),
        };
        let ghost reqv = request@;
        let r = self.request(request, headers, send_request);
        proof {
            lemma_fresh_assembled(reqv, headers_view(headers));
        }
        r
    }
}

/// On a request that starts with no headers of its own, assembly leaves
/// exactly the caller's headers.
proof fn lemma_fresh_assembled(r: RequestView, h: Option<Seq<(Seq<char>, Seq<char>)>>)
    requires
        r.headers == pairs_view(Seq::<(String, String)>::empty()),
    ensures
        assembled(r, h) == outgoing(r.method, r.url, h, r.payload),
{
    assert(pairs_view(Seq::<(String, String)>::empty()) =~= Seq::<(Seq<char>, Seq<char>)>::empty());
    assert(assembled(r, h).headers =~= outgoing(r.method, r.url, h, r.payload).headers);
}

} // verus!

