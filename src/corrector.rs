//! The request that asks a remote completion service to correct a page's
//! text, and the checks around it: the credential, and the response status.
use vstd::prelude::*;

verus! {

/// The completion endpoint.
pub const ENDPOINT: &'static str = "https://api.groq.com/openai/v1/chat/completions";

/// The environment variable that holds the bearer credential.
pub const CREDENTIAL_VAR: &'static str = "GROQ_API_KEY";

/// The model that corrects the text.
pub const MODEL: &'static str = "llama3-70b-8192";

/// The most tokens that a correction may hold.
pub const MAX_TOKENS: u32 = 8192;

/// The instructions that go with every page.
pub const EDITOR_INSTRUCTIONS: &'static str = "You are an expert editor. The user will give you one or more scanned pages to correct. Correct any errors you find, but at a minimum you must:\n1. Fix spelling mistakes\n2. Remove page headers, footers, and footnotes\n3. Remove in-text footnote references, which may appear as random, out-of-place characters\n4. Combine sentences separated by newlines into one line. Combine sentences in the same paragraph into one line\n5. Separate into paragraphs\nEcho the text exactly as is except for corrections. Don't print anything except the corrected text.";

/// One role-tagged message of a chat request.
pub struct ChatMessage {
    pub role: String,
    pub content: String,
}

/// The body of a chat-completion request.
pub struct ChatRequest {
    pub messages: Vec<ChatMessage>,
    pub model: String,
    pub temperature: u32,
    pub max_tokens: u32,
    pub top_p: u32,
    pub stream: bool,
    pub stop: Option<String>,
}

/// A request that is ready to send: its authorization header and its body.
pub struct PreparedRequest {
    pub authorization: String,
    pub body: ChatRequest,
}

/// Why a correction failed.
pub enum CorrectionError {
    /// The credential variable is not set; nothing was sent.
    MissingCredential,
    /// The service answered with a status other than 200 OK.
    Status { code: u16, body: String },
    /// The request could not be sent or its answer not read.
    Transport,
    /// The answer's body is not a completion.
    Malformed,
}

/// The body that asks for the correction of `text`: the editor's
/// instructions as the system message, then `text` verbatim as the user
/// message, one non-streaming completion.
pub open spec fn is_correction_request(r: ChatRequest, text: Seq<char>) -> bool {
    &&& r.messages@.len() == 2
    &&& r.messages@[0].role@ == "system"@
    &&& r.messages@[0].content@ == EDITOR_INSTRUCTIONS@
    &&& r.messages@[1].role@ == "user"@
    &&& r.messages@[1].content@ == text
    &&& r.model@ == MODEL@
    &&& r.temperature == 1
    &&& r.max_tokens == MAX_TOKENS
    &&& r.top_p == 1
    &&& !r.stream
    &&& r.stop is None
}

/// Builds the body that asks for the correction of `text`.
pub fn correction_request(text: &str) -> (r: ChatRequest)
    ensures
        is_correction_request(r, text@),
{
    let system = ChatMessage { role: "system".to_owned(), content: EDITOR_INSTRUCTIONS.to_owned() };
    let user = ChatMessage { role: "user".to_owned(), content: text.to_owned() };
    let mut messages: Vec<ChatMessage> = Vec::new();
    messages.push(system);
    messages.push(user);
    ChatRequest {
        messages,
        model: MODEL.to_owned(),
        temperature: 1,
        max_tokens: MAX_TOKENS,
        top_p: 1,
        stream: false,
        stop: None,
    }
}

/// The value of the authorization header for `key`.
pub fn bearer(key: &str) -> (r: String)
    ensures
        r@ == "Bearer "@ + key@,
{
    let mut r = "Bearer ".to_owned();
    r.append(key);
    r
}

/// The credential, when the variable is set; otherwise the correction stage
/// stops before anything is sent.
pub fn require_credential(value: Option<String>) -> (r: Result<String, CorrectionError>)
    ensures
        value is None <==> r matches Err(CorrectionError::MissingCredential),
        value is Some <==> r is Ok,
        r matches Ok(k) ==> value == Some(k),
{
    match value {
        Some(k) => Ok(k),
        None => Err(CorrectionError::MissingCredential),
    }
}

/// Prepares the one request that corrects `text`, with the credential read
/// from the environment. Without a credential it fails with
/// `MissingCredential`, and there is no request to send.
pub fn prepare_correction(text: &str, credential: Option<String>) -> (r: Result<
    PreparedRequest,
    CorrectionError,
>)
    ensures
        credential is None <==> r matches Err(CorrectionError::MissingCredential),
        credential is Some <==> r is Ok,
        r matches Ok(p) ==> {
            &&& p.authorization@ == "Bearer "@ + credential->0@
            &&& is_correction_request(p.body, text@)
        },
{
    let key = require_credential(credential)?;
    let authorization = bearer(key.as_str());
    Ok(PreparedRequest { authorization, body: correction_request(text) })
}

/// Accepts an answer's body when its status is 200 OK; any other status is
/// an error that carries the status and the body.
pub fn check_status(status: u16, body: String) -> (r: Result<String, CorrectionError>)
    ensures
        status == 200 ==> r == Ok::<String, CorrectionError>(body),
        status != 200 ==> (r matches Err(CorrectionError::Status { code, body: b }) && code
            == status && b == body),
{
    if status == 200 {
        Ok(body)
    } else {
        Err(CorrectionError::Status { code: status, body })
    }
}

} // verus!
