//! The requests sent to the model service and the reading of its replies.
use vstd::prelude::*;
use vstd::utf8::encode_utf8;
use crate::provider::{Provider, ProviderType, Reasoning};
use crate::text::{chars_of, is_blank, join, lemma_join_holds_each, occurs_at, occurs_in, trim, trim_bounds, trim_str};
use crate::PROMPT;

verus! {

broadcast use vstd::string::group_string_axioms;

/// The share of the token budget, in percent, that a reasoning level may spend thinking.
pub open spec fn reasoning_percentage(reasoning: Reasoning) -> nat {
    match reasoning {
        Reasoning::Low => 15,
        Reasoning::Medium => 25,
        Reasoning::High => 50,
        Reasoning::Xhigh => 75,
    }
}

/// The thinking budget for `max_tokens` at the given reasoning level,
/// rounded down; it is less than `max_tokens` wherever that is not zero.
pub fn reasoning_to_think_budget(reasoning: &Reasoning, max_tokens: u32) -> (r: u32)
    requires
        max_tokens * reasoning_percentage(*reasoning) <= u32::MAX,
    ensures
        r == max_tokens * reasoning_percentage(*reasoning) / 100,
        r <= max_tokens,
        max_tokens > 0 ==> r < max_tokens,
{
    let percentage: u32 = match reasoning {
        Reasoning::Low => 15,
        Reasoning::Medium => 25,
        Reasoning::High => 50,
        Reasoning::Xhigh => 75,
    };
    assert(max_tokens * percentage / 100 <= max_tokens * 3 / 4) by (nonlinear_arith)
        requires
            percentage <= 75,
    ;
    (max_tokens * percentage) / 100
}

pub struct AnthropicMessage {
    pub role: String,
    pub content: String,
}

pub struct AnthropicRequest {
    pub model: String,
    pub system: String,
    pub max_tokens: u32,
    pub thinking: AnthropicThinking,
    pub messages: Vec<AnthropicMessage>,
}

pub struct AnthropicThinking {
    pub mode: String,
    pub think_budget: u32,
}

pub struct OpenAIReasonEffort {
    pub effort: Reasoning,
}

pub struct OpenAIMessage {
    pub role: String,
    pub content: String,
}

pub struct OpenAIRequest {
    pub model: String,
    pub reasoning: OpenAIReasonEffort,
    pub instructions: String,
    pub input: Vec<OpenAIMessage>,
}

#[derive(Debug)]
pub struct AnthropicResponse {
    pub id: String,
    pub response_type: String,
    pub role: String,
    pub content: Vec<AnthropicContent>,
    pub model: String,
    pub stop_reason: String,
    pub usage: AnthropicUsage,
}

#[derive(Debug)]
pub struct AnthropicContent {
    pub content_type: String,
    pub text: String,
}

#[derive(Debug)]
pub struct AnthropicUsage {
    pub input_tokens: u32,
    pub output_tokens: u32,
}

#[derive(Debug)]
pub struct OpenAIResponse {
    pub id: String,
    pub output: Vec<OpenAIOutput>,
}

#[derive(Debug)]
pub struct OpenAIOutput {
    pub content: Vec<OpenAIContent>,
}

#[derive(Debug)]
pub struct OpenAIContent {
    pub text: String,
    pub annotations: Vec<OpenAIAnnotation>,
}

#[derive(Debug)]
pub struct OpenAIAnnotation {}

/// Whether `reqwest::header::HeaderValue::from_str` accepts a value with these
/// bytes: every byte is a tab, or at least 32 and not 127.
pub open spec fn valid_header_value(bytes: Seq<u8>) -> bool {
    forall|i: int| 0 <= i < bytes.len() ==> (bytes[i] >= 32 && bytes[i] != 127) || bytes[i] == 9
}

/// `reqwest::header::HeaderValue::from_str`, reduced to its error: it refuses
/// a value that has a byte below 32 other than a tab, or the byte 127, and
/// its error shows as `failed to parse header value`.
#[verifier::external_body]
fn header_value_error(value: &str) -> (r: Option<String>)
    ensures
        r is None <==> valid_header_value(encode_utf8(value@)),
        r matches Some(m) ==> m@ == "failed to parse header value"@,
{
    reqwest::header::HeaderValue::from_str(value).err().map(|e| e.to_string())
}

/// Why a request could not be made, or was refused.
#[derive(Debug)]
pub enum ServiceError {
    /// A header value that HTTP does not allow.
    InvalidHeader { header: String, reason: String },
    /// The service answered with a status other than success.
    RequestFailed { api: String, status: String, body: String },
}

/// The text that `Display` shows for an error.
pub open spec fn service_error_message(e: ServiceError) -> Seq<char> {
    match e {
        ServiceError::InvalidHeader { header, reason } => "invalid "@ + header@ + " header: "@ + reason@,
        ServiceError::RequestFailed { api, status, body } => api@ + " request failed: status="@ + status@
            + ", body="@ + body@,
    }
}

impl ServiceError {
    /// What `Display` shows for the error.
    pub fn message(&self) -> (r: String)
        ensures
            r@ == service_error_message(*self),
    {
        match self {
            ServiceError::InvalidHeader { header, reason } => {
                let mut m = "invalid ".to_string();
                m.append(header.as_str());
                m.append(" header: ");
                m.append(reason.as_str());
                m
            },
            ServiceError::RequestFailed { api, status, body } => {
                let mut m = api.clone();
                m.append(" request failed: status=");
                m.append(status.as_str());
                m.append(", body=");
                m.append(body.as_str());
                m
            },
        }
    }
}

/// Whether an HTTP status code means success: from 200 to 299.
pub open spec fn is_success_status(code: u16) -> bool {
    200 <= code < 300
}

/// Whether the service's reply status `code` means success, as
/// `StatusCode::is_success` decides it; any other status is a failed request.
pub fn status_is_success(code: u16) -> (r: bool)
    ensures
        r == is_success_status(code),
{
    200 <= code && code < 300
}

/// The body of a request, by API family.
pub enum RequestBody {
    OpenAI(OpenAIRequest),
    Anthropic(AnthropicRequest),
}

/// Everything needed to send one request: where, with which headers, and what.
pub struct PreparedRequest {
    pub url: String,
    pub headers: Vec<(String, String)>,
    pub body: RequestBody,
}

/// A decoded reply, by API family.
pub enum ProviderReply {
    OpenAI(OpenAIResponse),
    Anthropic(AnthropicResponse),
}

/// The texts of a header list.
pub open spec fn headers_view(h: Seq<(String, String)>) -> Seq<(Seq<char>, Seq<char>)> {
    h.map_values(|p: (String, String)| (p.0@, p.1@))
}

/// The endpoint for the provider's API family.
pub open spec fn request_url_text(p: Provider) -> Seq<char> {
    match p.provider_type {
        ProviderType::OpenAI => p.base_url@ + "/v1/responses"@,
        ProviderType::Anthropic => p.base_url@ + "/v1/messages"@,
    }
}

/// The headers of a request, or the header whose value HTTP refuses.
pub open spec fn headers_for(p: Provider) -> Result<Seq<(Seq<char>, Seq<char>)>, (Seq<char>, Seq<char>)> {
    let content_type = ("content-type"@, "application/json"@);
    match p.provider_type {
        ProviderType::OpenAI => {
            let auth = "Bearer "@ + p.api_key@;
            if valid_header_value(encode_utf8(auth)) {
                Ok(seq![content_type, ("authorization"@, auth)])
            } else {
                Err(("authorization"@, "failed to parse header value"@))
            }
        },
        ProviderType::Anthropic => if valid_header_value(encode_utf8(p.api_key@)) {
            Ok(seq![content_type, ("x-api-key"@, p.api_key@), ("anthropic-version"@, "2023-06-01"@)])
        } else {
            Err(("x-api-key"@, "failed to parse header value"@))
        },
    }
}

/// The texts of the content of OpenAI outputs, in order.
pub open spec fn openai_texts(outputs: Seq<OpenAIOutput>) -> Seq<Seq<char>>
    decreases outputs.len(),
{
    if outputs.len() == 0 {
        seq![]
    } else {
        openai_texts(outputs.drop_last()) + outputs.last().content@.map_values(|c: OpenAIContent| c.text@)
    }
}

/// The texts of Anthropic content blocks, in order.
pub open spec fn anthropic_texts(content: Seq<AnthropicContent>) -> Seq<Seq<char>> {
    content.map_values(|c: AnthropicContent| c.text@)
}

/// The texts that are not blank, in order.
pub open spec fn non_blank(texts: Seq<Seq<char>>) -> Seq<Seq<char>>
    decreases texts.len(),
{
    if texts.len() == 0 {
        seq![]
    } else if is_blank(texts.last()) {
        non_blank(texts.drop_last())
    } else {
        non_blank(texts.drop_last()).push(texts.last())
    }
}

/// The text of a reply: its non-blank texts, one per line.
pub open spec fn reply_text_of(reply: ProviderReply) -> Seq<char> {
    match reply {
        ProviderReply::OpenAI(r) => join(non_blank(openai_texts(r.output@)), "\n"@),
        ProviderReply::Anthropic(r) => join(non_blank(anthropic_texts(r.content@)), "\n"@),
    }
}

/// The name of the API family in messages.
pub open spec fn api_name(t: ProviderType) -> Seq<char> {
    match t {
        ProviderType::OpenAI => "openai"@,
        ProviderType::Anthropic => "anthropic"@,
    }
}

/// Whether `b` is the OpenAI request for `input` under configuration `p`.
pub open spec fn is_openai_request(b: OpenAIRequest, p: Provider, input: Seq<char>) -> bool {
    &&& b.model@ == p.model@
    &&& b.reasoning.effort == p.reasoning
    &&& b.instructions@ == trim(PROMPT@)
    &&& b.input@.len() == 1
    &&& b.input@[0].role@ == "user"@
    &&& b.input@[0].content@ == input
}

/// Whether `b` is the Anthropic request for `input` under configuration `p`.
pub open spec fn is_anthropic_request(b: AnthropicRequest, p: Provider, input: Seq<char>) -> bool {
    &&& b.model@ == p.model@
    &&& b.system@ == trim(PROMPT@)
    &&& b.max_tokens == ANTHROPIC_MAX_TOKENS
    &&& b.thinking.mode@ == "enabled"@
    &&& b.thinking.think_budget == ANTHROPIC_MAX_TOKENS * reasoning_percentage(p.reasoning) / 100
    &&& b.messages@.len() == 1
    &&& b.messages@[0].role@ == "user"@
    &&& b.messages@[0].content@ == input
}

/// Both API families send the sentence the same way: one message, in the
/// user's role, holding exactly the sentence, under the same instructions;
/// with the same model configured, the same model is asked.
pub proof fn law_requests_carry_the_user_sentence(
    a: OpenAIRequest,
    b: AnthropicRequest,
    p: Provider,
    q: Provider,
    input: Seq<char>,
)
    requires
        is_openai_request(a, p, input),
        is_anthropic_request(b, q, input),
    ensures
        a.input@.len() == 1 && b.messages@.len() == 1,
        a.input@[0].role@ == "user"@ && b.messages@[0].role@ == "user"@,
        a.input@[0].content@ == input && b.messages@[0].content@ == input,
        a.instructions@ == b.system@,
        p.model@ == q.model@ ==> a.model@ == b.model@,
{
}

/// The client of the model service.
pub struct Service {
    provider: Provider,
}

/// The largest reply Anthropic may give, in tokens.
pub const ANTHROPIC_MAX_TOKENS: u32 = 65535;

impl Service {
    /// The configuration the service was made with.
    pub closed spec fn config(&self) -> Provider {
        self.provider
    }

    pub fn new(provider: Provider) -> (r: Self)
        ensures
            r.config() == provider,
    {
        Service { provider }
    }

    fn build_request_url(&self) -> (r: String)
        ensures
            r@ == request_url_text(self.config()),
    {
        let mut url = self.provider.base_url.clone();
        match self.provider.provider_type {
            ProviderType::OpenAI => url.append("/v1/responses"),
            ProviderType::Anthropic => url.append("/v1/messages"),
        }
        url
    }

    fn build_header(&self) -> (r: Result<Vec<(String, String)>, ServiceError>)
        ensures
            match (r, headers_for(self.config())) {
                (Ok(h), Ok(expected)) => headers_view(h@) == expected,
                (Err(ServiceError::InvalidHeader { header, reason }), Err((name, why))) => header@ == name
                    && reason@ == why,
                _ => false,
            },
    {
        let mut headers: Vec<(String, String)> = Vec::new();
        headers.push(("content-type".to_string(), "application/json".to_string()));
        match self.provider.provider_type {
            ProviderType::OpenAI => {
                let mut auth_value = "Bearer ".to_string();
                auth_value.append(self.provider.api_key.as_str());
                if let Some(reason) = header_value_error(auth_value.as_str()) {
                    return Err(ServiceError::InvalidHeader { header: "authorization".to_string(), reason });
                }
                headers.push(("authorization".to_string(), auth_value));
            },
            ProviderType::Anthropic => {
                if let Some(reason) = header_value_error(self.provider.api_key.as_str()) {
                    return Err(ServiceError::InvalidHeader { header: "x-api-key".to_string(), reason });
                }
                headers.push(("x-api-key".to_string(), self.provider.api_key.clone()));
                headers.push(("anthropic-version".to_string(), "2023-06-01".to_string()));
            },
        }
        assert(headers_view(headers@) =~= headers_for(self.config())->Ok_0);
        Ok(headers)
    }

    fn get_instructions(&self) -> (r: String)
        ensures
            r@ == trim(PROMPT@),
    {
        trim_str(PROMPT)
    }

    fn build_openai_request(&self, user_input: &str) -> (r: OpenAIRequest)
        ensures
            is_openai_request(r, self.config(), user_input@),
    {
        OpenAIRequest {
            model: self.provider.model.clone(),
            reasoning: OpenAIReasonEffort { effort: self.provider.reasoning },
            instructions: self.get_instructions(),
            input: vec![OpenAIMessage { role: "user".to_string(), content: user_input.to_string() }],
        }
    }

    fn build_anthropic_request(&self, user_input: &str) -> (r: AnthropicRequest)
        ensures
            is_anthropic_request(r, self.config(), user_input@),
    {
        let max_tokens = ANTHROPIC_MAX_TOKENS;
        AnthropicRequest {
            model: self.provider.model.clone(),
            system: self.get_instructions(),
            max_tokens,
            thinking: AnthropicThinking {
                mode: "enabled".to_string(),
                think_budget: reasoning_to_think_budget(&self.provider.reasoning, max_tokens),
            },
            messages: vec![AnthropicMessage { role: "user".to_string(), content: user_input.to_string() }],
        }
    }

    /// Appends the non-blank texts of `content` to `texts`.
    fn push_non_blank(texts: &mut Vec<String>, content: &Vec<String>)
        ensures
            final(texts)@.map_values(|t: String| t@) == old(texts)@.map_values(|t: String| t@)
                + non_blank(content@.map_values(|t: String| t@)),
    {
        let ghost start = texts@.map_values(|t: String| t@);
        let ghost cv = content@.map_values(|t: String| t@);
        let mut i: usize = 0;
        while i < content.len()
            invariant
                i <= content@.len(),
                cv == content@.map_values(|t: String| t@),
                texts@.map_values(|t: String| t@) == start + non_blank(cv.take(i as int)),
            decreases content@.len() - i,
        {
            assert(cv.take(i + 1).drop_last() =~= cv.take(i as int));
            let v = chars_of(content[i].as_str());
            let (a, b) = trim_bounds(&v, 0, v.len());
            assert(v@.subrange(0, v.len() as int) =~= v@);
            assert(cv.take(i + 1).last() == content@[i as int]@);
            if a < b {
                let ghost before = texts@;
                let t = content[i].clone();
                texts.push(t);
                assert(texts@.map_values(|t: String| t@) =~= before.map_values(|t: String| t@).push(t@));
                assert(texts@.map_values(|t: String| t@) =~= start + non_blank(cv.take(i + 1)));
            }
            i += 1;
        }
        assert(cv.take(content@.len() as int) =~= cv);
    }

    /// The texts of `texts`, one per line.
    fn join_lines(texts: &Vec<String>) -> (r: String)
        ensures
            r@ == join(texts@.map_values(|t: String| t@), "\n"@),
    {
        let ghost tv = texts@.map_values(|t: String| t@);
        if texts.len() == 0 {
            return String::new();
        }
        let mut out = texts[0].clone();
        let mut i: usize = 1;
        while i < texts.len()
            invariant
                1 <= i <= texts@.len(),
                tv == texts@.map_values(|t: String| t@),
                out@ == join(tv.take(i as int), "\n"@),
            decreases texts@.len() - i,
        {
            assert(tv.take(i + 1).drop_last() =~= tv.take(i as int));
            out.append("\n");
            out.append(texts[i].as_str());
            i += 1;
        }
        assert(tv.take(texts@.len() as int) =~= tv);
        out
    }

    fn extract_openai(&self, resp: OpenAIResponse) -> (r: String)
        ensures
            r@ == join(non_blank(openai_texts(resp.output@)), "\n"@),
    {
        let mut texts: Vec<String> = Vec::new();
        let mut i: usize = 0;
        while i < resp.output.len()
            invariant
                i <= resp.output@.len(),
                texts@.map_values(|t: String| t@) == non_blank(openai_texts(resp.output@.take(i as int))),
            decreases resp.output@.len() - i,
        {
            let item = &resp.output[i];
            let mut content: Vec<String> = Vec::new();
            let mut j: usize = 0;
            while j < item.content.len()
                invariant
                    j <= item.content@.len(),
                    content@.map_values(|t: String| t@) == item.content@.take(j as int).map_values(
                        |c: OpenAIContent| c.text@,
                    ),
                decreases item.content@.len() - j,
            {
                content.push(item.content[j].text.clone());
                assert(item.content@.take(j + 1).map_values(|c: OpenAIContent| c.text@) =~= item.content@.take(
                    j as int,
                ).map_values(|c: OpenAIContent| c.text@).push(item.content@[j as int].text@));
                assert(content@.map_values(|t: String| t@) =~= item.content@.take(j + 1).map_values(
                    |c: OpenAIContent| c.text@,
                ));
                j += 1;
            }
            assert(item.content@.take(item.content@.len() as int) =~= item.content@);
            let ghost before = openai_texts(resp.output@.take(i as int));
            let ghost cv = content@.map_values(|t: String| t@);
            assert(resp.output@.take(i + 1).drop_last() =~= resp.output@.take(i as int));
            assert(openai_texts(resp.output@.take(i + 1)) == before + cv);
            proof {
                lemma_non_blank_concat(before, cv);
            }
            Self::push_non_blank(&mut texts, &content);
            i += 1;
        }
        assert(resp.output@.take(resp.output@.len() as int) =~= resp.output@);
        Self::join_lines(&texts)
    }

    fn extract_anthropic(&self, resp: AnthropicResponse) -> (r: String)
        ensures
            r@ == join(non_blank(anthropic_texts(resp.content@)), "\n"@),
    {
        let mut content: Vec<String> = Vec::new();
        let mut j: usize = 0;
        while j < resp.content.len()
            invariant
                j <= resp.content@.len(),
                content@.map_values(|t: String| t@) == anthropic_texts(resp.content@.take(j as int)),
            decreases resp.content@.len() - j,
        {
            let ghost before = content@;
            content.push(resp.content[j].text.clone());
            assert(resp.content@.take(j + 1) =~= resp.content@.take(j as int).push(resp.content@[j as int]));
            assert(content@.map_values(|t: String| t@) =~= before.map_values(|t: String| t@).push(
                resp.content@[j as int].text@,
            ));
            assert(content@.map_values(|t: String| t@) =~= anthropic_texts(resp.content@.take(j + 1)));
            j += 1;
        }
        assert(resp.content@.take(resp.content@.len() as int) =~= resp.content@);
        let mut texts: Vec<String> = Vec::new();
        assert(texts@.map_values(|t: String| t@) + non_blank(anthropic_texts(resp.content@)) =~= non_blank(
            anthropic_texts(resp.content@),
        ));
        Self::push_non_blank(&mut texts, &content);
        Self::join_lines(&texts)
    }

    /// The request for `user_input`: its address, headers and body, or the
    /// header that HTTP refuses.
    pub fn prepare(&self, user_input: &str) -> (r: Result<PreparedRequest, ServiceError>)
        ensures
            match (r, headers_for(self.config())) {
                (Ok(req), Ok(expected)) => {
                    &&& req.url@ == request_url_text(self.config())
                    &&& headers_view(req.headers@) == expected
                    &&& match req.body {
                        RequestBody::OpenAI(b) => self.config().provider_type == ProviderType::OpenAI
                            && is_openai_request(b, self.config(), user_input@),
                        RequestBody::Anthropic(b) => self.config().provider_type
                            == ProviderType::Anthropic && is_anthropic_request(b, self.config(), user_input@),
                    }
                },
                (Err(ServiceError::InvalidHeader { header, reason }), Err((name, why))) => header@ == name
                    && reason@ == why,
                _ => false,
            },
    {
        let body = match self.provider.provider_type {
            ProviderType::OpenAI => RequestBody::OpenAI(self.build_openai_request(user_input)),
            ProviderType::Anthropic => RequestBody::Anthropic(self.build_anthropic_request(user_input)),
        };
        let headers = self.build_header()?;
        Ok(PreparedRequest { url: self.build_request_url(), headers, body })
    }

    /// The error for a reply whose status is not a success; `status` is the
    /// status as `Display` shows it.
    pub fn request_failure(&self, status: &str, body: &str) -> (r: ServiceError)
        ensures
            match r {
                ServiceError::RequestFailed { api, status: s, body: b } => api@ == api_name(
                    self.config().provider_type,
                ) && s@ == status@ && b@ == body@,
                _ => false,
            },
    {
        let api = match self.provider.provider_type {
            ProviderType::OpenAI => "openai",
            ProviderType::Anthropic => "anthropic",
        };
        ServiceError::RequestFailed { api: api.to_string(), status: status.to_string(), body: body.to_string() }
    }

    /// The text of a decoded reply.
    pub fn reply_text(&self, reply: ProviderReply) -> (r: String)
        ensures
            r@ == reply_text_of(reply),
    {
        match reply {
            ProviderReply::OpenAI(resp) => self.extract_openai(resp),
            ProviderReply::Anthropic(resp) => self.extract_anthropic(resp),
        }
    }
}

/// Keeping the non-blank texts of two lists one after the other is keeping
/// those of each.
pub proof fn lemma_non_blank_concat(a: Seq<Seq<char>>, b: Seq<Seq<char>>)
    ensures
        non_blank(a + b) == non_blank(a) + non_blank(b),
    decreases b.len(),
{
    if b.len() == 0 {
        assert(a + b =~= a);
        assert(non_blank(a) + non_blank(b) =~= non_blank(a));
    } else {
        lemma_non_blank_concat(a, b.drop_last());
        assert((a + b).drop_last() =~= a + b.drop_last());
        assert((a + b).last() == b.last());
        if is_blank(b.last()) {
        } else {
            assert(non_blank(a) + non_blank(b.drop_last()).push(b.last()) =~= (non_blank(a) + non_blank(
                b.drop_last(),
            )).push(b.last()));
        }
    }
}

/// More reasoning never means a smaller thinking budget: for the same token
/// budget, the levels from low to extra high give non-decreasing budgets.
pub proof fn law_budget_grows_with_reasoning(max_tokens: nat)
    ensures
        max_tokens * reasoning_percentage(Reasoning::Low) / 100 <= max_tokens * reasoning_percentage(
            Reasoning::Medium,
        ) / 100,
        max_tokens * reasoning_percentage(Reasoning::Medium) / 100 <= max_tokens * reasoning_percentage(
            Reasoning::High,
        ) / 100,
        max_tokens * reasoning_percentage(Reasoning::High) / 100 <= max_tokens * reasoning_percentage(
            Reasoning::Xhigh,
        ) / 100,
{
    assert(max_tokens * 15 / 100 <= max_tokens * 25 / 100) by (nonlinear_arith);
    assert(max_tokens * 25 / 100 <= max_tokens * 50 / 100) by (nonlinear_arith);
    assert(max_tokens * 50 / 100 <= max_tokens * 75 / 100) by (nonlinear_arith);
}

/// A reply holds no blank text: every text kept for it is non-blank, and a
/// reply whose texts are all blank reads as the empty text.
pub proof fn law_reply_drops_blank_texts(texts: Seq<Seq<char>>)
    ensures
        forall|i: int| 0 <= i < non_blank(texts).len() ==> !is_blank(#[trigger] non_blank(texts)[i]),
        (forall|i: int| 0 <= i < texts.len() ==> is_blank(#[trigger] texts[i])) ==> join(non_blank(texts), "\n"@)
            == Seq::<char>::empty(),
    decreases texts.len(),
{
    if texts.len() > 0 {
        law_reply_drops_blank_texts(texts.drop_last());
        let rest = non_blank(texts.drop_last());
        assert forall|i: int| 0 <= i < non_blank(texts).len() implies !is_blank(#[trigger] non_blank(texts)[i]) by {
            if i < rest.len() {
                assert(non_blank(texts)[i] == rest[i]);
            }
        }
        if forall|i: int| 0 <= i < texts.len() ==> is_blank(#[trigger] texts[i]) {
            assert forall|i: int| 0 <= i < texts.drop_last().len() implies is_blank(#[trigger] texts.drop_last()[i]) by {
                assert(texts.drop_last()[i] == texts[i]);
            }
            assert(is_blank(texts[texts.len() - 1]));
        }
    }
}

/// A text that is not blank is kept.
proof fn lemma_non_blank_keeps(texts: Seq<Seq<char>>, i: int) -> (j: int)
    requires
        0 <= i < texts.len(),
        !is_blank(texts[i]),
    ensures
        0 <= j < non_blank(texts).len(),
        non_blank(texts)[j] == texts[i],
    decreases texts.len(),
{
    let d = texts.drop_last();
    if i == texts.len() - 1 {
        non_blank(d).len() as int
    } else {
        assert(d[i] == texts[i]);
        lemma_non_blank_keeps(d, i)
    }
}

/// Each content text of each OpenAI output is among the texts of the outputs.
proof fn lemma_openai_texts_keep(outputs: Seq<OpenAIOutput>, i: int, j: int) -> (n: int)
    requires
        0 <= i < outputs.len(),
        0 <= j < outputs[i].content@.len(),
    ensures
        0 <= n < openai_texts(outputs).len(),
        openai_texts(outputs)[n] == outputs[i].content@[j].text@,
    decreases outputs.len(),
{
    let d = outputs.drop_last();
    if i == outputs.len() - 1 {
        openai_texts(d).len() + j
    } else {
        assert(d[i] == outputs[i]);
        lemma_openai_texts_keep(d, i, j)
    }
}

/// A text that is not blank occurs in the non-blank texts joined by line feeds.
proof fn lemma_kept_text_occurs(texts: Seq<Seq<char>>, i: int)
    requires
        0 <= i < texts.len(),
        !is_blank(texts[i]),
    ensures
        occurs_in(join(non_blank(texts), "\n"@), texts[i]),
{
    let j = lemma_non_blank_keeps(texts, i);
    let k = lemma_join_holds_each(non_blank(texts), "\n"@, j);
    assert(occurs_at(join(non_blank(texts), "\n"@), texts[i], k));
}

/// A single text that is not blank is the whole of the non-blank texts joined.
proof fn lemma_single_text(t: Seq<char>)
    requires
        !is_blank(t),
    ensures
        join(non_blank(seq![t]), "\n"@) == t,
{
    let one = seq![t];
    assert(one.drop_last() =~= Seq::<Seq<char>>::empty());
    assert(one.last() == t);
    assert(non_blank(Seq::<Seq<char>>::empty()) == Seq::<Seq<char>>::empty());
    assert(non_blank(one) == non_blank(one.drop_last()).push(t));
    assert(Seq::<Seq<char>>::empty().push(t) =~= one);
}

/// Every text of an Anthropic reply that is not blank occurs in its text;
/// a single such text is the whole text.
proof fn lemma_anthropic_reply_keeps(r: AnthropicResponse)
    ensures
        forall|i: int|
            0 <= i < r.content@.len() && !is_blank(#[trigger] r.content@[i].text@) ==> occurs_in(
                reply_text_of(ProviderReply::Anthropic(r)),
                r.content@[i].text@,
            ),
        r.content@.len() == 1 && !is_blank(r.content@[0].text@) ==> reply_text_of(ProviderReply::Anthropic(r))
            == r.content@[0].text@,
{
    let texts = anthropic_texts(r.content@);
    let whole = reply_text_of(ProviderReply::Anthropic(r));
    assert forall|i: int|
        0 <= i < r.content@.len() && !is_blank(#[trigger] r.content@[i].text@) implies occurs_in(
        whole,
        r.content@[i].text@,
    ) by {
        assert(texts[i] == r.content@[i].text@);
        lemma_kept_text_occurs(texts, i);
    }
    if r.content@.len() == 1 && !is_blank(r.content@[0].text@) {
        assert(texts =~= seq![r.content@[0].text@]);
        lemma_single_text(r.content@[0].text@);
    }
}

/// Every content text of an OpenAI reply that is not blank occurs in its
/// text; a single such text is the whole text.
proof fn lemma_openai_reply_keeps(r: OpenAIResponse)
    ensures
        forall|i: int, j: int|
            0 <= i < r.output@.len() && 0 <= j < r.output@[i].content@.len() && !is_blank(
                #[trigger] r.output@[i].content@[j].text@,
            ) ==> occurs_in(reply_text_of(ProviderReply::OpenAI(r)), r.output@[i].content@[j].text@),
        r.output@.len() == 1 && r.output@[0].content@.len() == 1 && !is_blank(r.output@[0].content@[0].text@)
            ==> reply_text_of(ProviderReply::OpenAI(r)) == r.output@[0].content@[0].text@,
{
    let texts = openai_texts(r.output@);
    let whole = reply_text_of(ProviderReply::OpenAI(r));
    assert forall|i: int, j: int|
        0 <= i < r.output@.len() && 0 <= j < r.output@[i].content@.len() && !is_blank(
            #[trigger] r.output@[i].content@[j].text@,
        ) implies occurs_in(whole, r.output@[i].content@[j].text@) by {
        let n = lemma_openai_texts_keep(r.output@, i, j);
        lemma_kept_text_occurs(texts, n);
    }
    if r.output@.len() == 1 && r.output@[0].content@.len() == 1 && !is_blank(r.output@[0].content@[0].text@) {
        let t = r.output@[0].content@[0].text@;
        assert(r.output@.drop_last() =~= Seq::<OpenAIOutput>::empty());
        assert(openai_texts(Seq::<OpenAIOutput>::empty()) =~= Seq::<Seq<char>>::empty());
        assert(r.output@[0].content@.map_values(|c: OpenAIContent| c.text@) =~= seq![t]);
        assert(texts =~= seq![t]);
        lemma_single_text(t);
    }
}

/// Nothing the model wrote is lost: every text of a reply that is not blank
/// occurs in the reply's text, and a reply with a single text that is not
/// blank reads as exactly that text.
pub proof fn law_reply_keeps_every_text(reply: ProviderReply)
    ensures
        reply matches ProviderReply::Anthropic(r) ==> forall|i: int|
            0 <= i < r.content@.len() && !is_blank(#[trigger] r.content@[i].text@) ==> occurs_in(
                reply_text_of(reply),
                r.content@[i].text@,
            ),
        reply matches ProviderReply::Anthropic(r) ==> (r.content@.len() == 1 && !is_blank(r.content@[0].text@)
            ==> reply_text_of(reply) == r.content@[0].text@),
        reply matches ProviderReply::OpenAI(r) ==> forall|i: int, j: int|
            0 <= i < r.output@.len() && 0 <= j < r.output@[i].content@.len() && !is_blank(
                #[trigger] r.output@[i].content@[j].text@,
            ) ==> occurs_in(reply_text_of(reply), r.output@[i].content@[j].text@),
        reply matches ProviderReply::OpenAI(r) ==> (r.output@.len() == 1 && r.output@[0].content@.len() == 1
            && !is_blank(r.output@[0].content@[0].text@) ==> reply_text_of(reply) == r.output@[0].content@[0].text@),
{
    match reply {
        ProviderReply::Anthropic(r) => lemma_anthropic_reply_keeps(r),
        ProviderReply::OpenAI(r) => lemma_openai_reply_keeps(r),
    }
}

} // verus!
