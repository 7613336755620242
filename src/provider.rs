//! An OpenAI-compatible chat-completions client: its settings, the retry
//! policy, and the checks on what the endpoint answers. Sending requests and
//! reading responses is the caller's part.
use vstd::prelude::*;
use vstd::utf8::encode_utf8;
use crate::json::{extend_object, into_object, object_entries, value_object};
use crate::text::push_str;
use crate::types::{FinishReason, LLMResponse, Message};

verus! {

/// What can go wrong when calling the model.
#[derive(Debug)]
pub enum Error {
    /// The endpoint answered with a status outside 200..=299.
    ApiError { status: u16, body: String },
    /// A header name or value that HTTP does not allow.
    InvalidHeader(String),
    /// Extra body fields that are not a JSON object.
    InvalidBody,
    /// The request could not be sent or the response not read.
    Http(String),
    /// The response is not the JSON that was expected.
    Json(String),
    /// The response holds no choice.
    NoChoices,
    /// The first choice is not an assistant turn; this is its role.
    UnexpectedMessage(String),
    Custom(String),
}

/// The normalized form of a header name, `None` when HTTP does not allow it.
pub uninterp spec fn header_name_of(s: Seq<char>) -> Option<Seq<char>>;

/// Whether a byte may stand in a header value: a tab, or a byte from 0x20
/// on other than 0x7f.
pub open spec fn header_byte_ok(b: u8) -> bool {
    b == 9 || (b >= 32 && b != 127)
}

/// Whether HTTP allows `s` as a header value: every byte of its UTF-8 form
/// may stand there.
pub open spec fn header_value_ok(s: Seq<char>) -> bool {
    forall|i: int| 0 <= i < encode_utf8(s).len() ==> header_byte_ok(#[trigger] encode_utf8(s)[i])
}

#[verifier::external_type_specification]
#[verifier::external_body]
#[verifier::reject_recursive_types(T)]
pub struct ExHeaderMap<T>(reqwest::header::HeaderMap<T>);

#[verifier::external_type_specification]
#[verifier::external_body]
pub struct ExHeaderValue(reqwest::header::HeaderValue);

/// For each header name of a map, the text of its value (every map here is
/// filled from text by `insert_header`).
pub uninterp spec fn header_entries(m: reqwest::header::HeaderMap) -> Map<Seq<char>, Seq<char>>;

/// The entries of an empty header map.
pub open spec fn no_headers() -> Map<Seq<char>, Seq<char>> {
    Map::empty()
}

/// Relies on `reqwest::header::HeaderMap::new`: an empty map.
pub assume_specification[ reqwest::header::HeaderMap::new ]() -> (r: reqwest::header::HeaderMap)
    ensures
        header_entries(r) == no_headers(),
;

/// How many headers a provider holds at most. `HeaderMap::insert` panics
/// once its table cannot grow; below this many names it always can.
pub const MAX_HEADERS: usize = 4096;

/// Relies on `reqwest::header::HeaderMap::keys_len`: the number of names.
#[verifier::external_body]
fn header_count(m: &reqwest::header::HeaderMap) -> (r: usize)
    ensures
        r == header_entries(*m).dom().len(),
{
    m.keys_len()
}

/// Relies on `HeaderName::try_from(String)` and `HeaderValue::try_from(String)`
/// (reqwest): a valid name is taken in its normalized, lower-case form, and a
/// value is accepted or not; and on `HeaderMap::insert`, which replaces the
/// value of a name that is already there.
#[verifier::external_body]
fn insert_header(m: &mut reqwest::header::HeaderMap, name: String, value: String) -> (r: bool)
    requires
        header_entries(*old(m)).dom().len() < MAX_HEADERS,
    ensures
        r == (header_name_of(name@) is Some && header_value_ok(value@)),
        r ==> header_entries(*final(m)) == header_entries(*old(m)).insert(header_name_of(name@)->Some_0, value@),
        !r ==> header_entries(*final(m)) == header_entries(*old(m)),
{
    match (reqwest::header::HeaderName::try_from(name), reqwest::header::HeaderValue::try_from(value)) {
        (Ok(n), Ok(v)) => {
            m.insert(n, v);
            true
        },
        _ => false,
    }
}

/// The settings of a provider, as text and numbers.
pub ghost struct ProviderView {
    pub base_url: Seq<char>,
    pub api_key: Seq<char>,
    pub model: Seq<char>,
    /// Extra headers, by normalized name.
    pub headers: Map<Seq<char>, Seq<char>>,
    pub max_retries: u32,
    pub retry_delay_ms: u64,
    /// The extra body fields, by key.
    pub body: Map<Seq<char>, serde_json::Value>,
}

/// The settings of a new provider.
pub open spec fn default_settings() -> ProviderView {
    ProviderView {
        base_url: "https://api.openai.com/v1"@,
        api_key: ""@,
        model: "gpt-4o"@,
        headers: no_headers(),
        max_retries: 3,
        retry_delay_ms: 1000,
        body: Map::empty(),
    }
}

/// What to do after attempt number `attempt` (counting from one) failed:
/// wait `retry_delay_ms` and try again, or give up once `max_retries`
/// retries have been made.
pub open spec fn retry_decision(max_retries: u32, retry_delay_ms: u64, attempt: nat) -> Option<u64> {
    if attempt > max_retries { None } else { Some(retry_delay_ms) }
}

/// Whether a failure is worth another attempt: a transport failure or an
/// error status may pass, a response of the wrong shape will not.
pub open spec fn is_retryable(e: Error) -> bool {
    e is ApiError || e is Http
}

/// Whether a failure is worth another attempt.
pub fn retryable(e: &Error) -> (r: bool)
    ensures
        r == is_retryable(*e),
{
    match e {
        Error::ApiError { .. } => true,
        Error::Http(_) => true,
        _ => false,
    }
}

/// The role a turn is sent with.
pub open spec fn role_of(m: Message) -> Seq<char> {
    match m {
        Message::System(_) => "system"@,
        Message::User(_) => "user"@,
        Message::Assistant(_) => "assistant"@,
        Message::Tool(_) => "tool"@,
        Message::Custom(c) => c.role@,
    }
}

/// The role a turn is sent with.
pub fn role(m: &Message) -> (r: String)
    ensures
        r@ == role_of(*m),
{
    match m {
        Message::System(_) => "system".to_owned(),
        Message::User(_) => "user".to_owned(),
        Message::Assistant(_) => "assistant".to_owned(),
        Message::Tool(_) => "tool".to_owned(),
        Message::Custom(c) => c.role.clone(),
    }
}

/// Reads a finish reason from its wire name: `stop`, `length`, `tool_calls`
/// and `content_filter` are the known ones, any other name is kept as it is.
pub fn parse_finish_reason(s: String) -> (r: FinishReason)
    ensures
        s@ == "stop"@ ==> r is Stop,
        s@ == "length"@ ==> r is Length,
        s@ == "tool_calls"@ ==> r is ToolCalls,
        s@ == "content_filter"@ ==> r is ContentFilter,
        s@ != "stop"@ && s@ != "length"@ && s@ != "tool_calls"@ && s@ != "content_filter"@
            ==> r == FinishReason::Custom(s),
{
    proof {
        reveal_strlit("stop");
        reveal_strlit("length");
        reveal_strlit("tool_calls");
        reveal_strlit("content_filter");
        assert("stop"@.len() != "length"@.len());
        assert("stop"@.len() != "tool_calls"@.len());
        assert("stop"@.len() != "content_filter"@.len());
        assert("length"@.len() != "tool_calls"@.len());
        assert("length"@.len() != "content_filter"@.len());
        assert("tool_calls"@.len() != "content_filter"@.len());
    }
    if s == "stop".to_owned() {
        FinishReason::Stop
    } else if s == "length".to_owned() {
        FinishReason::Length
    } else if s == "tool_calls".to_owned() {
        FinishReason::ToolCalls
    } else if s == "content_filter".to_owned() {
        FinishReason::ContentFilter
    } else {
        FinishReason::Custom(s)
    }
}

/// The wire name of a finish reason.
pub fn finish_reason_name(f: &FinishReason) -> (r: String)
    ensures
        f is Stop ==> r@ == "stop"@,
        f is Length ==> r@ == "length"@,
        f is ToolCalls ==> r@ == "tool_calls"@,
        f is ContentFilter ==> r@ == "content_filter"@,
        f is Custom ==> r@ == f->Custom_0@,
{
    match f {
        FinishReason::Stop => "stop".to_owned(),
        FinishReason::Length => "length".to_owned(),
        FinishReason::ToolCalls => "tool_calls".to_owned(),
        FinishReason::ContentFilter => "content_filter".to_owned(),
        FinishReason::Custom(s) => s.clone(),
    }
}

/// One choice of a non-streamed response.
#[derive(Debug)]
pub struct Choice {
    pub message: Message,
    pub finish_reason: FinishReason,
}

/// Whether a response status is a success: 200..=299.
pub fn status_ok(status: u16) -> (r: bool)
    ensures
        r <==> 200 <= status <= 299,
{
    200 <= status && status <= 299
}

/// Checks a response status: 200..=299 passes, any other status is an API
/// error carrying the status and the body.
pub fn check_status(status: u16, body: String) -> (r: Result<(), Error>)
    ensures
        r is Ok <==> 200 <= status <= 299,
        r is Err ==> r->Err_0 == (Error::ApiError { status, body }),
{
    if status_ok(status) {
        Ok(())
    } else {
        Err(Error::ApiError { status, body })
    }
}

/// The response that the first choice holds. No choice at all, or a first
/// choice that is not an assistant turn, is a protocol error.
pub fn select_response(choices: Vec<Choice>) -> (r: Result<LLMResponse, Error>)
    ensures
        choices@.len() == 0 ==> r == Err::<LLMResponse, Error>(Error::NoChoices),
        choices@.len() > 0 ==> match choices@[0].message {
            Message::Assistant(m) => r == Ok::<LLMResponse, Error>(
                LLMResponse { message: m, finish_reason: choices@[0].finish_reason },
            ),
            other => r is Err && r->Err_0 is UnexpectedMessage
                && r->Err_0->UnexpectedMessage_0@ == role_of(other),
        },
{
    let mut choices = choices;
    if choices.len() == 0 {
        return Err(Error::NoChoices);
    }
    let first = choices.swap_remove(0);
    let Choice { message, finish_reason } = first;
    match message {
        Message::Assistant(m) => Ok(LLMResponse { message: m, finish_reason }),
        other => Err(Error::UnexpectedMessage(role(&other))),
    }
}

/// Settings of an OpenAI-compatible endpoint.
pub struct OpenAIProvider {
    base_url: String,
    api_key: String,
    model: String,
    headers: reqwest::header::HeaderMap,
    max_retries: u32,
    retry_delay_ms: u64,
    custom_body: serde_json::Map<String, serde_json::Value>,
}

impl View for OpenAIProvider {
    type V = ProviderView;

    closed spec fn view(&self) -> ProviderView {
        ProviderView {
            base_url: self.base_url@,
            api_key: self.api_key@,
            model: self.model@,
            headers: header_entries(self.headers),
            max_retries: self.max_retries,
            retry_delay_ms: self.retry_delay_ms,
            body: object_entries(self.custom_body),
        }
    }
}

impl OpenAIProvider {
    /// The provider holds fewer than `MAX_HEADERS` headers.
    pub closed spec fn wf(&self) -> bool {
        header_entries(self.headers).dom().len() < MAX_HEADERS
    }

    /// A provider for `https://api.openai.com/v1` with model `gpt-4o`, no
    /// key, no extra headers or body fields, and three retries one second
    /// apart.
    pub fn new() -> (r: Self)
        ensures
            r.wf(),
            r@ == default_settings(),
    {
        let r = OpenAIProvider {
            base_url: "https://api.openai.com/v1".to_owned(),
            api_key: "".to_owned(),
            model: "gpt-4o".to_owned(),
            headers: reqwest::header::HeaderMap::new(),
            max_retries: 3,
            retry_delay_ms: 1000,
            custom_body: serde_json::Map::new(),
        };
        assert(r@ =~= default_settings());
        r
    }

    /// Sets the base URL of the endpoint.
    pub fn base_url(self, value: String) -> (r: Self)
        ensures
            r.wf() == self.wf(),
            r@ == (ProviderView { base_url: value@, ..self@ }),
    {
        let mut s = self;
        s.base_url = value;
        s
    }

    /// Sets the key sent as bearer token.
    pub fn api_key(self, value: String) -> (r: Self)
        ensures
            r.wf() == self.wf(),
            r@ == (ProviderView { api_key: value@, ..self@ }),
    {
        let mut s = self;
        s.api_key = value;
        s
    }

    /// Sets the model name.
    pub fn model(self, value: String) -> (r: Self)
        ensures
            r.wf() == self.wf(),
            r@ == (ProviderView { model: value@, ..self@ }),
    {
        let mut s = self;
        s.model = value;
        s
    }

    /// Adds a header to every request, replacing one of the same name. The
    /// name and the value must be ones that HTTP allows, and fewer than
    /// `MAX_HEADERS` headers must result.
    pub fn header(self, key: String, value: String) -> (r: Result<Self, Error>)
        requires
            self.wf(),
        ensures
            ({
                let name = header_name_of(key@);
                let fits = self@.headers.insert(name->Some_0, value@).dom().len() < MAX_HEADERS;
                &&& r is Ok <==> name is Some && header_value_ok(value@) && fits
                &&& r is Ok ==> r->Ok_0.wf() && r->Ok_0@ == (ProviderView {
                    headers: self@.headers.insert(name->Some_0, value@),
                    ..self@
                })
                &&& r is Err ==> r->Err_0 is InvalidHeader
            }),
    {
        let mut s = self;
        let error = Error::InvalidHeader(key.clone());
        if !insert_header(&mut s.headers, key, value) {
            return Err(error);
        }
        if header_count(&s.headers) >= MAX_HEADERS {
            return Err(error);
        }
        Ok(s)
    }

    /// Sets how many times a failed call is retried.
    pub fn max_retries(self, retries: u32) -> (r: Self)
        ensures
            r.wf() == self.wf(),
            r@ == (ProviderView { max_retries: retries, ..self@ }),
    {
        let mut s = self;
        s.max_retries = retries;
        s
    }

    /// Sets the wait between attempts, in milliseconds.
    pub fn retry_delay(self, delay_ms: u64) -> (r: Self)
        ensures
            r.wf() == self.wf(),
            r@ == (ProviderView { retry_delay_ms: delay_ms, ..self@ }),
    {
        let mut s = self;
        s.retry_delay_ms = delay_ms;
        s
    }

    /// Sets the fields merged into every request body; they must form a JSON
    /// object.
    pub fn body(self, body: serde_json::Value) -> (r: Result<Self, Error>)
        ensures
            r is Ok <==> value_object(body) is Some,
            r is Ok ==> r->Ok_0.wf() == self.wf() && r->Ok_0@ == (ProviderView {
                body: value_object(body)->Some_0,
                ..self@
            }),
            r is Err ==> r->Err_0 is InvalidBody,
    {
        match into_object(body) {
            Ok(obj) => {
                let mut s = self;
                s.custom_body = obj;
                Ok(s)
            },
            Err(_) => Err(Error::InvalidBody),
        }
    }

    /// The URL that completions are posted to: the base URL followed by
    /// `/chat/completions`.
    pub fn endpoint(&self) -> (r: String)
        ensures
            r@ == self@.base_url + "/chat/completions"@,
    {
        let mut r = self.base_url.clone();
        push_str(&mut r, "/chat/completions");
        r
    }

    /// The `Authorization` header value: `Bearer ` followed by the key.
    pub fn authorization(&self) -> (r: String)
        ensures
            r@ == "Bearer "@ + self@.api_key,
    {
        let mut r = "Bearer ".to_owned();
        push_str(&mut r, self.api_key.as_str());
        r
    }

    /// The model name.
    pub fn model_name(&self) -> (r: &String)
        ensures
            r@ == self@.model,
    {
        &self.model
    }

    /// The extra headers, by normalized name.
    pub fn headers(&self) -> (r: &reqwest::header::HeaderMap)
        ensures
            header_entries(*r) == self@.headers,
    {
        &self.headers
    }

    /// The extra body fields.
    pub fn custom_body(&self) -> (r: &serde_json::Map<String, serde_json::Value>)
        ensures
            object_entries(*r) == self@.body,
    {
        &self.custom_body
    }

    /// Merges the extra body fields into a request body; a field of the same
    /// name is replaced.
    pub fn merge_custom_body(&self, body: &mut serde_json::Map<String, serde_json::Value>)
        ensures
            object_entries(*final(body)) == object_entries(*old(body)).union_prefer_right(self@.body),
    {
        extend_object(body, &self.custom_body);
    }

    /// After attempt number `attempt` (counting from one) has failed with
    /// `error`: the milliseconds to wait before trying again, or `None` when
    /// the failure is to be surfaced, because the retries are used up or
    /// because the error is not one that another attempt can mend.
    pub fn retry_after(&self, attempt: u64, error: &Error) -> (r: Option<u64>)
        ensures
            is_retryable(*error) ==> r == retry_decision(self@.max_retries, self@.retry_delay_ms, attempt as nat),
            !is_retryable(*error) ==> r is None,
    {
        if !retryable(error) || attempt > self.max_retries as u64 {
            None
        } else {
            Some(self.retry_delay_ms)
        }
    }
}

/// A transport that always fails is tried exactly `max_retries + 1` times:
/// each of the first `max_retries` failures is followed by a wait of
/// `retry_delay_ms` and another attempt, and the failure of attempt
/// `max_retries + 1` is surfaced. (`retry_after` decides so for every
/// transport failure and error status.)
pub proof fn lemma_retry_bound(max_retries: u32, retry_delay_ms: u64)
    ensures
        forall|a: nat| 1 <= a <= max_retries ==> #[trigger] retry_decision(max_retries, retry_delay_ms, a)
            == Some(retry_delay_ms),
        retry_decision(max_retries, retry_delay_ms, max_retries as nat + 1) is None,
{
}

} // verus!
