//! Building the chat-completion request: the two-message exchange, the fixed
//! model parameters, the JSON body, and the HTTP header values.

use vstd::prelude::*;

verus! {

use vstd::string::StringExecFns;
use vstd::string::StrSliceExecFns;
use vstd::utf8::encode_utf8;
use crate::errors::GenerateError;
use crate::errors::spec_decimal_digits;
use crate::errors::decimal_digits;
use crate::escape::spec_escape_bytes;
use crate::escape::escape_json_bytes;

/// Who speaks a chat message.
#[derive(Debug, Clone, Copy, PartialEq, Eq, Structural)]
pub enum Role {
    System,
    User,
    Assistant,
}

/// One message of the chat exchange.
#[derive(Debug)]
pub struct ChatMessage {
    pub role: Role,
    pub content: String,
}

/// The mathematical shape of a chat message: a role and the content text.
pub struct MessageModel {
    pub role: Role,
    pub content: Seq<char>,
}

impl View for ChatMessage {
    type V = MessageModel;

    open spec fn view(&self) -> MessageModel {
        MessageModel { role: self.role, content: self.content@ }
    }
}

/// The completion request sent to the provider. The temperature is held in
/// tenths, so that the fixed value 0.7 needs no floating point.
pub struct CompletionRequest {
    pub messages: Vec<ChatMessage>,
    pub model: String,
    pub temperature_tenths: u8,
    pub max_tokens: u32,
}

/// The mathematical shape of a completion request.
pub struct RequestModel {
    pub messages: Seq<MessageModel>,
    pub model: Seq<char>,
    pub temperature_tenths: u8,
    pub max_tokens: u32,
}

impl View for CompletionRequest {
    type V = RequestModel;

    open spec fn view(&self) -> RequestModel {
        RequestModel {
            messages: Seq::new(self.messages@.len(), |i: int| self.messages@[i]@),
            model: self.model@,
            temperature_tenths: self.temperature_tenths,
            max_tokens: self.max_tokens,
        }
    }
}

/// The fixed system persona: a professional wedding-emcee scriptwriter.
pub fn persona_text() -> (r: &'static str)
    ensures
        r@ == spec_persona_text(),
{
    "你是一位专业的婚礼司仪文案撰写专家，擅长写出优美、感人且适合中国传统婚礼的台词。"
}

/// The fixed system persona, as text.
pub open spec fn spec_persona_text() -> Seq<char> {
    "你是一位专业的婚礼司仪文案撰写专家，擅长写出优美、感人且适合中国传统婚礼的台词。"@
}

/// The fixed model identifier.
pub fn model_identifier() -> (r: &'static str)
    ensures
        r@ == spec_model_identifier(),
{
    "deepseek-chat"
}

/// The fixed model identifier, as text.
pub open spec fn spec_model_identifier() -> Seq<char> {
    "deepseek-chat"@
}

/// The chat-completions endpoint.
pub fn endpoint_url() -> (r: &'static str)
    ensures
        r@ == spec_endpoint_url(),
{
    "https://api.deepseek.com/v1/chat/completions"
}

/// The chat-completions endpoint, as text.
pub open spec fn spec_endpoint_url() -> Seq<char> {
    "https://api.deepseek.com/v1/chat/completions"@
}

/// The request body's media type.
pub fn content_type() -> (r: &'static str)
    ensures
        r@ == "application/json"@,
{
    "application/json"
}

/// The fixed sampling temperature, in tenths: 7 stands for 0.7.
pub const TEMPERATURE_TENTHS: u8 = 7;

/// The fixed cap on generated tokens.
pub const MAX_TOKENS: u32 = 1000;

/// The request that `build_request` assembles for a prompt: the fixed system
/// persona first, the caller's prompt verbatim second, and the fixed model
/// parameters.
pub open spec fn spec_built_request(prompt: Seq<char>) -> RequestModel {
    RequestModel {
        messages: seq![
            MessageModel { role: Role::System, content: spec_persona_text() },
            MessageModel { role: Role::User, content: prompt },
        ],
        model: spec_model_identifier(),
        temperature_tenths: TEMPERATURE_TENTHS,
        max_tokens: MAX_TOKENS,
    }
}

/// Assembles the two-message completion request for `prompt`. The request
/// always holds exactly two messages: the system persona, then the prompt,
/// unmodified, whatever it contains.
pub fn build_request(prompt: &str) -> (req: CompletionRequest)
    ensures
        req@ == spec_built_request(prompt@),
{
    let mut messages: Vec<ChatMessage> = Vec::new();
    messages.push(ChatMessage { role: Role::System, content: persona_text().to_owned() });
    messages.push(ChatMessage { role: Role::User, content: prompt.to_owned() });
    let req = CompletionRequest {
        messages,
        model: model_identifier().to_owned(),
        temperature_tenths: TEMPERATURE_TENTHS,
        max_tokens: MAX_TOKENS,
    };
    proof {
        assert(req@.messages =~= spec_built_request(prompt@).messages);
        assert(req@ == spec_built_request(prompt@));
    }
    req
}

/// For every prompt — empty, control characters, multi-byte text — the
/// assembled request holds exactly two messages: the fixed system persona
/// first, then the prompt verbatim as the user message.
pub proof fn lemma_built_request_messages(prompt: Seq<char>)
    ensures
        spec_built_request(prompt).messages.len() == 2,
        spec_built_request(prompt).messages[0].role == Role::System,
        spec_built_request(prompt).messages[0].content == spec_persona_text(),
        spec_built_request(prompt).messages[1].role == Role::User,
        spec_built_request(prompt).messages[1].content == prompt,
{
}

/// The JSON field name of a role.
pub open spec fn spec_role_name(role: Role) -> Seq<char> {
    match role {
        Role::System => "system"@,
        Role::User => "user"@,
        Role::Assistant => "assistant"@,
    }
}

/// The JSON name of a role.
pub fn role_name(role: Role) -> (r: &'static str)
    ensures
        r@ == spec_role_name(role),
{
    match role {
        Role::System => "system",
        Role::User => "user",
        Role::Assistant => "assistant",
    }
}

/// One message as a JSON object, role first, content escaped.
pub open spec fn spec_render_message(m: MessageModel) -> Seq<u8> {
    encode_utf8("{\"role\":\""@) + encode_utf8(spec_role_name(m.role)) + encode_utf8(
        "\",\"content\":\""@,
    ) + spec_escape_bytes(encode_utf8(m.content)) + encode_utf8("\"}"@)
}

/// The messages as a JSON array body: the objects joined by commas.
pub open spec fn spec_render_messages(ms: Seq<MessageModel>) -> Seq<u8>
    decreases ms.len(),
{
    if ms.len() == 0 {
        Seq::empty()
    } else if ms.len() == 1 {
        spec_render_message(ms[0])
    } else {
        spec_render_message(ms[0]) + seq![44u8] + spec_render_messages(ms.drop_first())
    }
}

/// The temperature in tenths as a JSON number with one fractional digit:
/// 7 is rendered as `0.7`, 10 as `1.0`.
pub open spec fn spec_render_temperature(tenths: u8) -> Seq<u8> {
    spec_decimal_digits((tenths / 10) as nat) + seq![46u8] + seq![(48 + tenths % 10) as u8]
}

/// The whole completion request as a JSON object, in the fixed field order
/// messages, model, temperature, max_tokens.
pub open spec fn spec_render_request(r: RequestModel) -> Seq<u8> {
    encode_utf8("{\"messages\":["@) + spec_render_messages(r.messages) + encode_utf8(
        "],\"model\":\""@,
    ) + spec_escape_bytes(encode_utf8(r.model)) + encode_utf8("\",\"temperature\":"@)
        + spec_render_temperature(r.temperature_tenths) + encode_utf8(",\"max_tokens\":"@)
        + spec_decimal_digits(r.max_tokens as nat) + encode_utf8("}"@)
}

/// Appends the UTF-8 bytes of `s` to `out`.
fn push_str_bytes(out: &mut Vec<u8>, s: &str)
    ensures
        final(out)@ == old(out)@ + encode_utf8(s@),
{
    out.extend_from_slice(s.as_bytes());
}

/// Renders one message as JSON object bytes.
fn render_message(m: &ChatMessage, out: &mut Vec<u8>)
    ensures
        final(out)@ == old(out)@ + spec_render_message(m@),
{
    push_str_bytes(out, "{\"role\":\"");
    push_str_bytes(out, role_name(m.role));
    push_str_bytes(out, "\",\"content\":\"");
    let escaped = escape_json_bytes(m.content.as_str().as_bytes());
    out.extend_from_slice(escaped.as_slice());
    push_str_bytes(out, "\"}");
    proof {
        assert(out@ =~= old(out)@ + spec_render_message(m@));
    }
}

/// Appending one more message object extends the joined rendering.
proof fn lemma_render_messages_snoc(ms: Seq<MessageModel>, i: int)
    requires
        0 < i < ms.len(),
    ensures
        spec_render_messages(ms.take(i + 1)) == spec_render_messages(ms.take(i)) + seq![44u8]
            + spec_render_message(ms[i]),
    decreases i,
{
    let a = ms.take(i + 1);
    let b = ms.take(i);
    if i == 1 {
        assert(a.len() == 2);
        assert(a.drop_first() =~= seq![ms[1]]);
        assert(spec_render_messages(seq![ms[1]]) == spec_render_message(ms[1]));
        assert(b =~= seq![ms[0]]);
        assert(spec_render_messages(a) =~= spec_render_messages(b) + seq![44u8]
            + spec_render_message(ms[i]));
    } else {
        lemma_render_messages_snoc(ms.drop_first(), i - 1);
        assert(a.drop_first() =~= ms.drop_first().take(i));
        assert(b.drop_first() =~= ms.drop_first().take(i - 1));
        assert(ms.drop_first()[i - 1] == ms[i]);
        assert(a[0] == ms[0] && b[0] == ms[0]);
        assert(spec_render_messages(a) =~= spec_render_messages(b) + seq![44u8]
            + spec_render_message(ms[i]));
    }
}

/// Renders the completion request as its JSON body bytes.
pub fn render_request(req: &CompletionRequest) -> (r: Vec<u8>)
    ensures
        r@ == spec_render_request(req@),
{
    let mut out: Vec<u8> = Vec::new();
    push_str_bytes(&mut out, "{\"messages\":[");
    let ghost msgs = req@.messages;
    let mut i: usize = 0;
    while i < req.messages.len()
        invariant
            i <= msgs.len(),
            msgs.len() == req.messages@.len(),
            msgs == Seq::new(req.messages@.len(), |k: int| req.messages@[k]@),
            out@ == encode_utf8("{\"messages\":["@) + spec_render_messages(msgs.take(i as int)),
        decreases msgs.len() - i,
    {
        if i > 0 {
            out.push(44);
        }
        render_message(&req.messages[i], &mut out);
        proof {
            if i == 0 {
                assert(msgs.take(1) =~= seq![msgs[0]]);
                assert(spec_render_messages(seq![msgs[0]]) == spec_render_message(msgs[0]));
            } else {
                lemma_render_messages_snoc(msgs, i as int);
            }
            assert(out@ =~= encode_utf8("{\"messages\":["@) + spec_render_messages(
                msgs.take(i as int + 1),
            ));
        }
        i += 1;
    }
    proof {
        assert(msgs.take(msgs.len() as int) =~= msgs);
    }
    push_str_bytes(&mut out, "],\"model\":\"");
    let escaped_model = escape_json_bytes(req.model.as_str().as_bytes());
    out.extend_from_slice(escaped_model.as_slice());
    push_str_bytes(&mut out, "\",\"temperature\":");
    let whole = decimal_digits((req.temperature_tenths / 10) as u32);
    out.extend_from_slice(whole.as_slice());
    out.push(46);
    out.push(48 + req.temperature_tenths % 10);
    push_str_bytes(&mut out, ",\"max_tokens\":");
    let tokens = decimal_digits(req.max_tokens);
    out.extend_from_slice(tokens.as_slice());
    push_str_bytes(&mut out, "}");
    proof {
        assert(out@ =~= spec_render_request(req@));
    }
    out
}

/// Whether a character may stand in an HTTP header value: horizontal tab, or
/// anything that is neither an other control character nor delete. This is
/// the rule that `http::HeaderValue::from_str` applies byte for byte; over
/// UTF-8 text the byte rule and this character rule agree, since every byte
/// of a multi-byte character is at least 0x80.
pub open spec fn is_header_value_char(c: char) -> bool {
    c == '\t' || (c as u32 >= 32 && c as u32 != 127)
}

/// Whether a whole text is acceptable as an HTTP header value.
pub open spec fn is_valid_header_value(s: Seq<char>) -> bool {
    forall|i: int| 0 <= i < s.len() ==> is_header_value_char(#[trigger] s[i])
}

/// Checks every character of `s` against the header-value rule.
pub fn check_header_value(s: &str) -> (r: bool)
    ensures
        r == is_valid_header_value(s@),
{
    let len = s.unicode_len();
    let mut i: usize = 0;
    while i < len
        invariant
            i <= len,
            len == s@.len(),
            forall|k: int| 0 <= k < i ==> is_header_value_char(#[trigger] s@[k]),
        decreases len - i,
    {
        let c = s.get_char(i);
        if !(c == '\t' || (c as u32 >= 32 && c as u32 != 127)) {
            return false;
        }
        i += 1;
    }
    true
}

/// The authorization header value for a credential: the bearer scheme in
/// front of the key, exactly as configured. Fails with
/// `CredentialFormatInvalid` if and only if the key holds a character that
/// cannot stand in a header value.
pub fn authorization_header_value(key: &str) -> (r: Result<String, GenerateError>)
    ensures
        is_valid_header_value(key@) ==> (r matches Ok(v) && v@ == "Bearer "@ + key@),
        !is_valid_header_value(key@) ==> r == Err::<String, GenerateError>(
            GenerateError::CredentialFormatInvalid,
        ),
{
    if check_header_value(key) {
        Ok("Bearer ".to_owned().concat(key))
    } else {
        Err(GenerateError::CredentialFormatInvalid)
    }
}

/// Everything the host needs to issue the call: the endpoint, the two
/// header values, and the JSON body bytes.
#[derive(Debug)]
pub struct PreparedRequest {
    pub url: String,
    pub content_type: String,
    pub authorization: String,
    pub body: Vec<u8>,
}

/// Builds the whole outbound request for a prompt. With no credential the
/// result is `ConfigurationMissing`; with a credential that cannot stand in
/// a header value it is `CredentialFormatInvalid`; otherwise the prepared
/// request carries the fixed endpoint, the JSON content type, the bearer
/// authorization, and the rendered two-message body.
pub fn prepare_request(credential: Option<&str>, prompt: &str) -> (r: Result<
    PreparedRequest,
    GenerateError,
>)
    ensures
        credential is None ==> r == Err::<PreparedRequest, GenerateError>(
            GenerateError::ConfigurationMissing,
        ),
        credential matches Some(key) ==> if is_valid_header_value(key@) {
            &&& r is Ok
            &&& r->Ok_0.url@ == spec_endpoint_url()
            &&& r->Ok_0.content_type@ == "application/json"@
            &&& r->Ok_0.authorization@ == "Bearer "@ + key@
            &&& r->Ok_0.body@ == spec_render_request(spec_built_request(prompt@))
        } else {
            r == Err::<PreparedRequest, GenerateError>(GenerateError::CredentialFormatInvalid)
        },
{
    match credential {
        None => Err(GenerateError::ConfigurationMissing),
        Some(key) => match authorization_header_value(key) {
            Err(e) => Err(e),
            Ok(authorization) => {
                let req = build_request(prompt);
                let body = render_request(&req);
                Ok(
                    PreparedRequest {
                        url: endpoint_url().to_owned(),
                        content_type: content_type().to_owned(),
                        authorization,
                        body,
                    },
                )
            },
        },
    }
}

} // verus!
