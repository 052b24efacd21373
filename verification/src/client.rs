//! The requests to the PkgRadar API, and what its answers mean.
//!
//! The library makes requests and judges answers as plain values; sending them is left to the
//! program around it.
use vstd::prelude::*;
use vstd::string::StringExecFns;

use crate::json::{field_index, json_views, Json, JsonRecord, JsonValue};
use crate::lists::texts;
use crate::text::{chars_of, is_space, string_of, text_before, trim, trim_end_char, trim_end_of, trim_text};

verus! {

/// The exit code of a run that ends with an error of usage or configuration.
pub const EXIT_CONFIG: i32 = 2;

/// The exit code of a run that ends with a failure of the network or of the API.
pub const EXIT_NETWORK: i32 = 3;

/// The address of the API.
pub const DEFAULT_BASE_URL: &'static str = "https://pkgradar.com";

/// The message about a token that is not there.
pub const TOKEN_MISSING: &'static str =
    "no API token. Set PKGRADAR_TOKEN or pass --token. Issue one at https://pkgradar.com/dashboard/keys.\n  On GitLab, an empty token here usually means the CI variable is \"Protected\" but this pipeline ran on a non-protected branch (e.g. a merge request) — un-protect the variable or protect the branch.";

/// The message about a token that no HTTP header can carry.
pub const TOKEN_MALFORMED: &'static str =
    "API token contains characters that aren't valid in an HTTP header (whitespace, control, or non-ASCII bytes). Re-copy the token from https://pkgradar.com/dashboard/keys — a stray newline or space from pasting into a CI secret is the usual cause.";

/// The message about a token that the server rejects.
pub const TOKEN_REJECTED: &'static str = "authentication failed (401): the server rejected this API token";

/// The server rejected the API token (HTTP 401). That is an error of the configuration and no
/// outage, so a run does not fail open on it: a build that passes with a wrong token is not
/// covered at all.
#[derive(Debug, Clone, Copy, PartialEq, Eq, Structural)]
pub struct AuthRejected;

impl AuthRejected {
    /// The message for the user.
    pub fn message(&self) -> (r: &'static str)
        ensures
            r@ == TOKEN_REJECTED@,
    {
        TOKEN_REJECTED
    }
}

/// A token that cannot be used.
#[derive(Debug, Clone, Copy, PartialEq, Eq, Structural)]
pub enum TokenError {
    /// There is no token, or nothing but white space.
    Missing,
    /// The token has characters that no HTTP header can carry.
    Malformed,
}

impl TokenError {
    /// The message for the user.
    pub fn message(self) -> (r: &'static str)
        ensures
            r@ == match self {
                TokenError::Missing => TOKEN_MISSING@,
                TokenError::Malformed => TOKEN_MALFORMED@,
            },
    {
        match self {
            TokenError::Missing => TOKEN_MISSING,
            TokenError::Malformed => TOKEN_MALFORMED,
        }
    }

    /// The exit code of a run that ends with the error.
    pub fn exit_code(self) -> (r: i32)
        ensures
            r == EXIT_CONFIG,
    {
        EXIT_CONFIG
    }
}

/// What the service says of a set of specs.
#[derive(Debug)]
pub struct GateResponse {
    pub allowed: bool,
    pub fail_on: String,
    pub blocked: Vec<BlockedItem>,
    pub reports: Vec<JsonValue>,
}

/// A spec that the service blocks.
#[derive(Debug, Clone)]
pub struct BlockedItem {
    pub target: String,
    pub risk: String,
    pub score: Option<u32>,
    pub summary: Option<String>,
}

/// A spec that the service blocks, as a mathematical value.
pub struct Blocked {
    pub target: Seq<char>,
    pub risk: Seq<char>,
    pub score: Option<u32>,
    pub summary: Option<Seq<char>>,
}

impl View for BlockedItem {
    type V = Blocked;

    open spec fn view(&self) -> Blocked {
        Blocked {
            target: self.target@,
            risk: self.risk@,
            score: self.score,
            summary: match self.summary {
                Some(s) => Some(s@),
                None => None,
            },
        }
    }
}

/// The items of a list.
pub open spec fn blocked_views(v: Seq<BlockedItem>) -> Seq<Blocked> {
    Seq::new(v.len(), |i: int| v[i]@)
}

/// What the service says, as a mathematical value.
pub struct Gate {
    pub allowed: bool,
    pub fail_on: Seq<char>,
    pub blocked: Seq<Blocked>,
    pub reports: Seq<Json>,
}

impl View for GateResponse {
    type V = Gate;

    open spec fn view(&self) -> Gate {
        Gate {
            allowed: self.allowed,
            fail_on: self.fail_on@,
            blocked: blocked_views(self.blocked@),
            reports: json_views(self.reports@),
        }
    }
}

/// What a scan says of a set of specs.
#[derive(Debug)]
pub struct ScanResponse {
    pub reports: Vec<JsonValue>,
}

// ---------------------------------------------------------------------------
// Requests
// ---------------------------------------------------------------------------

/// A request with a JSON body, to be sent by POST.
pub struct Request {
    pub url: String,
    pub authorization: String,
    pub timeout_ms: u64,
    pub body: JsonValue,
}

/// A character that a token may have: visible ASCII.
pub open spec fn visible(c: char) -> bool {
    '!' <= c && c <= '~'
}

/// A token that an HTTP header can carry.
pub open spec fn valid_token(token: Seq<char>) -> bool {
    &&& token.len() > 0
    &&& forall|i: int| 0 <= i < token.len() ==> visible(#[trigger] token[i])
}

/// A token that a header can carry has no white space around it, so that it is kept as it is.
pub proof fn law_valid_token_is_kept(token: Seq<char>)
    requires
        valid_token(token),
    ensures
        trim(token) == token,
{
    assert(!is_space(token[0]));
    assert(!is_space(token.last()));
}

/// The list of texts as a JSON value.
pub open spec fn text_list(list: Seq<Seq<char>>) -> Json {
    Json::List(Seq::new(list.len(), |i: int| Json::Text(list[i])))
}

/// The body of a request to the service. The severity for known vulnerabilities is there only where
/// it is set, so that a server that does not know it is not handed it.
pub open spec fn gate_body(
    ecosystem: Seq<char>,
    specs: Seq<Seq<char>>,
    fail_on: Seq<char>,
    fail_on_cve: Option<Seq<char>>,
) -> Json {
    match fail_on_cve {
        Some(severity) => Json::Record(
            seq![
                ("ecosystem"@, Json::Text(ecosystem)),
                ("fail_on"@, Json::Text(fail_on)),
                ("fail_on_cve"@, Json::Text(severity)),
                ("specs"@, text_list(specs)),
            ],
        ),
        None => Json::Record(
            seq![
                ("ecosystem"@, Json::Text(ecosystem)),
                ("fail_on"@, Json::Text(fail_on)),
                ("specs"@, text_list(specs)),
            ],
        ),
    }
}

/// The body of a request for a scan.
pub open spec fn scan_body(specs: Seq<Seq<char>>) -> Json {
    Json::Record(seq![("specs"@, text_list(specs))])
}

/// The body of a gate request tells the ecosystem, the level, and every spec in its order. It has
/// a severity for known vulnerabilities if and only if one is set.
pub proof fn law_gate_body_tells_what_is_asked(
    ecosystem: Seq<char>,
    specs: Seq<Seq<char>>,
    fail_on: Seq<char>,
    fail_on_cve: Option<Seq<char>>,
)
    ensures
        ({
            let body = gate_body(ecosystem, specs, fail_on, fail_on_cve);
            &&& body.field("ecosystem"@) == Some(Json::Text(ecosystem))
            &&& body.field("fail_on"@) == Some(Json::Text(fail_on))
            &&& body.field("specs"@) matches Some(Json::List(items)) && items.len() == specs.len() && forall|i: int|
                0 <= i < items.len() ==> #[trigger] items[i] == Json::Text(specs[i])
            &&& body.field("fail_on_cve"@) == match fail_on_cve {
                Some(severity) => Some(Json::Text(severity)),
                None => None,
            }
        }),
{
    reveal_strlit("ecosystem");
    reveal_strlit("fail_on");
    reveal_strlit("fail_on_cve");
    reveal_strlit("specs");
    assert("ecosystem"@.len() == 9 && "fail_on"@.len() == 7 && "fail_on_cve"@.len() == 11 && "specs"@.len() == 5);
    reveal_with_fuel(field_index, 5);
}

/// The body of a scan request tells every spec in its order, and nothing else.
pub proof fn law_scan_body_tells_what_is_asked(specs: Seq<Seq<char>>, key: Seq<char>)
    ensures
        scan_body(specs).field("specs"@) matches Some(Json::List(items)) && items.len() == specs.len() && forall|
            i: int,
        |
            0 <= i < items.len() ==> #[trigger] items[i] == Json::Text(specs[i]),
        key != "specs"@ ==> scan_body(specs).field(key) is None,
{
    reveal_with_fuel(field_index, 2);
}

/// A token can be used if and only if it is not empty and all of it is visible ASCII: white space,
/// a control character or a letter of another script anywhere in it spoils it.
pub proof fn law_token_is_visible_throughout(a: Seq<char>, c: char, b: Seq<char>)
    ensures
        !('!' <= c <= '~') ==> !valid_token(a + seq![c] + b),
        valid_token(a) && valid_token(b) ==> valid_token(a + b),
        '!' <= c <= '~' ==> valid_token(seq![c]),
        !valid_token(Seq::empty()),
{
    let s = a + seq![c] + b;
    assert(s[a.len() as int] == c);
    if valid_token(s) {
        assert(visible(s[a.len() as int]));
    }
    if valid_token(a) && valid_token(b) {
        assert forall|i: int| 0 <= i < (a + b).len() implies visible(#[trigger] (a + b)[i]) by {
            if i < a.len() {
                assert((a + b)[i] == a[i]);
            } else {
                assert((a + b)[i] == b[i - a.len()]);
            }
        }
    }
}

/// The keys of the bodies stand in this order.
proof fn lemma_body_keys()
    ensures
        text_before("ecosystem"@, "fail_on"@),
        text_before("ecosystem"@, "fail_on_cve"@),
        text_before("ecosystem"@, "specs"@),
        text_before("fail_on"@, "fail_on_cve"@),
        text_before("fail_on"@, "specs"@),
        text_before("fail_on_cve"@, "specs"@),
{
    reveal_strlit("ecosystem");
    reveal_strlit("fail_on");
    reveal_strlit("fail_on_cve");
    reveal_strlit("specs");
    reveal_with_fuel(text_before, 9);
}

/// A list of strings as a JSON value.
pub fn json_texts(list: &[String]) -> (r: JsonValue)
    ensures
        r@ == text_list(texts(list@)),
{
    let mut items: Vec<JsonValue> = Vec::new();
    let mut i: usize = 0;
    while i < list.len()
        invariant
            i <= list.len(),
            items@.len() == i,
            forall|k: int| 0 <= k < i ==> (#[trigger] items@[k])@ == Json::Text(texts(list@)[k]),
        decreases list.len() - i,
    {
        items.push(JsonValue::Text(list[i].clone()));
        i += 1;
    }
    assert(json_views(items@) =~= text_list(texts(list@))->List_0);
    JsonValue::list(items)
}

/// What is needed to talk to the API: its address, a token that a header can carry, and the
/// timeout of a request.
pub struct Client {
    base_url: String,
    token: String,
    timeout_ms: u64,
}

impl Client {
    /// The address, without a slash at its end.
    pub closed spec fn address(self) -> Seq<char> {
        self.base_url@
    }

    /// The token.
    pub closed spec fn bearer(self) -> Seq<char> {
        self.token@
    }

    /// The timeout of a request in milliseconds.
    pub closed spec fn timeout(self) -> u64 {
        self.timeout_ms
    }

    /// The token can be carried by a header.
    #[verifier::type_invariant]
    spec fn well_formed(self) -> bool {
        valid_token(self.token@)
    }

    /// Takes the token without the white space around it, which pasting often adds, and the
    /// address without slashes at its end. A token that is missing or that no header can carry is
    /// refused here, where no failing open can hide it.
    pub fn new(base_url: String, token: String, timeout_ms: u64) -> (r: Result<Client, TokenError>)
        ensures
            match r {
                Ok(client) => {
                    &&& valid_token(trim(token@))
                    &&& client.bearer() == trim(token@)
                    &&& client.address() == trim_end_char(base_url@, '/')
                    &&& client.timeout() == timeout_ms
                },
                Err(TokenError::Missing) => trim(token@).len() == 0,
                Err(TokenError::Malformed) => trim(token@).len() > 0 && !valid_token(trim(token@)),
            },
    {
        let chars: Vec<char> = chars_of(token.as_str());
        let bare: &[char] = trim_text(chars.as_slice());
        if bare.len() == 0 {
            return Err(TokenError::Missing);
        }
        let mut i: usize = 0;
        while i < bare.len()
            invariant
                i <= bare.len(),
                bare@ == trim(token@),
                bare@.len() > 0,
                forall|k: int| 0 <= k < i ==> visible(#[trigger] bare@[k]),
            decreases bare.len() - i,
        {
            if !('!' <= bare[i] && bare[i] <= '~') {
                assert(!visible(bare@[i as int]));
                return Err(TokenError::Malformed);
            }
            i += 1;
        }
        let address: Vec<char> = chars_of(base_url.as_str());
        Ok(
            Client {
                base_url: string_of(trim_end_of(address.as_slice(), '/')),
                token: string_of(bare),
                timeout_ms,
            },
        )
    }

    /// The token.
    pub fn token_for_test(&self) -> (r: &str)
        ensures
            r@ == self.bearer(),
            valid_token(r@),
    {
        proof {
            use_type_invariant(self);
        }
        self.token.as_str()
    }

    /// A request to `path`, with the token in its header.
    fn request(&self, path: &str, ecosystem: &str, body: JsonValue) -> (r: Request)
        ensures
            r.url@ == self.address() + path@ + ecosystem@,
            r.authorization@ == "Bearer "@ + self.bearer(),
            r.timeout_ms == self.timeout(),
            r.body == body,
    {
        let mut url: String = self.base_url.clone();
        url.append(path);
        url.append(ecosystem);
        let mut authorization: String = "Bearer ".to_owned();
        authorization.append(self.token.as_str());
        Request { url, authorization, timeout_ms: self.timeout_ms, body }
    }

    /// The request that asks the service about `specs`.
    pub fn gate(&self, ecosystem: &str, specs: &[String], fail_on: &str, fail_on_cve: Option<&str>) -> (r:
        Request)
        ensures
            r.url@ == self.address() + "/gate/"@ + ecosystem@,
            r.authorization@ == "Bearer "@ + self.bearer(),
            r.timeout_ms == self.timeout(),
            r.body@ == gate_body(
                ecosystem@,
                texts(specs@),
                fail_on@,
                match fail_on_cve {
                    Some(severity) => Some(severity@),
                    None => None,
                },
            ),
    {
        proof {
            lemma_body_keys();
        }
        let list: JsonValue = json_texts(specs);
        let record: JsonRecord = JsonRecord::new().followed_by(
            "ecosystem",
            JsonValue::Text(ecosystem.to_owned()),
        ).followed_by("fail_on", JsonValue::Text(fail_on.to_owned()));
        let full: JsonRecord = match fail_on_cve {
            Some(severity) => record.followed_by(
                "fail_on_cve",
                JsonValue::Text(severity.to_owned()),
            ).followed_by("specs", list),
            None => record.followed_by("specs", list),
        };
        let body: JsonValue = JsonValue::record(full);
        assert(body@->Record_0 =~= gate_body(
            ecosystem@,
            texts(specs@),
            fail_on@,
            match fail_on_cve {
                Some(severity) => Some(severity@),
                None => None,
            },
        )->Record_0);
        self.request("/gate/", ecosystem, body)
    }

    /// The request for a scan of `specs`.
    pub fn scan(&self, ecosystem: &str, specs: &[String]) -> (r: Request)
        ensures
            r.url@ == self.address() + "/scan/"@ + ecosystem@,
            r.authorization@ == "Bearer "@ + self.bearer(),
            r.timeout_ms == self.timeout(),
            r.body@ == scan_body(texts(specs@)),
    {
        let list: JsonValue = json_texts(specs);
        let body: JsonValue = JsonValue::record(JsonRecord::new().followed_by("specs", list));
        assert(body@->Record_0 =~= scan_body(texts(specs@))->Record_0);
        self.request("/scan/", ecosystem, body)
    }
}

// ---------------------------------------------------------------------------
// Answers
// ---------------------------------------------------------------------------

/// What the status of an answer calls for.
#[derive(Debug, Clone, Copy, PartialEq, Eq, Structural)]
pub enum Verdict {
    /// The body is to be read.
    Read,
    /// The token was rejected.
    Rejected,
    /// The answer is not one that was expected.
    Unexpected,
}

/// Whether a status tells success.
pub open spec fn is_success(status: u16) -> bool {
    200 <= status < 300
}

/// A status tells success if and only if it is in the two hundreds.
pub proof fn law_success_is_in_the_two_hundreds(status: u16)
    ensures
        is_success(status) <==> status / 100 == 2,
{
}

/// What the status of an answer of the service calls for. The service answers 422 with a body where it
/// blocks.
pub fn gate_verdict(status: u16) -> (r: Verdict)
    ensures
        r == if status == 401 {
            Verdict::Rejected
        } else if is_success(status) || status == 422 {
            Verdict::Read
        } else {
            Verdict::Unexpected
        },
{
    if status == 401 {
        Verdict::Rejected
    } else if (200 <= status && status < 300) || status == 422 {
        Verdict::Read
    } else {
        Verdict::Unexpected
    }
}

/// What the status of an answer to a scan calls for.
pub fn scan_verdict(status: u16) -> (r: Verdict)
    ensures
        r == if status == 401 {
            Verdict::Rejected
        } else if is_success(status) {
            Verdict::Read
        } else {
            Verdict::Unexpected
        },
{
    if status == 401 {
        Verdict::Rejected
    } else if 200 <= status && status < 300 {
        Verdict::Read
    } else {
        Verdict::Unexpected
    }
}

/// A call that brought no answer that can be used.
#[derive(Debug)]
pub enum CallError {
    /// The token was rejected.
    Auth(AuthRejected),
    /// The network or the transport failed: what failed, in words.
    Transport(String),
    /// The answer has a status that was not expected: its number, its name and the body.
    Status(u16, String, String),
    /// The body of the answer cannot be read: why, in words.
    Malformed(String),
}

impl CallError {
    /// The message for the user.
    pub open spec fn text(self) -> Seq<char> {
        match self {
            CallError::Auth(_) => TOKEN_REJECTED@,
            CallError::Transport(cause) => cause@,
            CallError::Status(_, name, body) => "unexpected response "@ + name@ + ": "@ + body@,
            CallError::Malformed(cause) => cause@,
        }
    }

    /// A run that fails open goes on after the error: every error but a rejected token, which is an
    /// error of the configuration.
    pub open spec fn is_skippable(self) -> bool {
        self !is Auth
    }

    /// The message for the user.
    pub fn message(&self) -> (r: String)
        ensures
            r@ == self.text(),
    {
        match self {
            CallError::Auth(rejected) => rejected.message().to_owned(),
            CallError::Transport(cause) => cause.clone(),
            CallError::Status(_, name, body) => {
                let mut r: String = "unexpected response ".to_owned();
                r.append(name.as_str());
                r.append(": ");
                r.append(body.as_str());
                r
            },
            CallError::Malformed(cause) => cause.clone(),
        }
    }

    /// Whether a run that fails open goes on after the error.
    pub fn skippable(&self) -> (r: bool)
        ensures
            r == self.is_skippable(),
    {
        match self {
            CallError::Auth(_) => false,
            _ => true,
        }
    }

    /// The exit code of a run that ends with the error: a rejected token is an error of the
    /// configuration, anything else a failure of the call.
    pub fn exit_code(&self) -> (r: i32)
        ensures
            r == if self is Auth {
                EXIT_CONFIG
            } else {
                EXIT_NETWORK
            },
    {
        match self {
            CallError::Auth(_) => EXIT_CONFIG,
            _ => EXIT_NETWORK,
        }
    }
}

} // verus!
