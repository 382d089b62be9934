//! OpenAI wire shapes for `/v1/chat/completions` and `/v1/completions`,
//! and the rules that fill them from a generation stream.
use vstd::prelude::*;

use crate::error::Error;
use crate::text::{push_str, string_from_chars};

verus! {

/// Default `max_tokens` of a request that sets none.
pub fn default_max_tokens() -> (n: usize)
    ensures
        n == 512,
{
    512
}

/// `stop` may be a single string or an array of strings.
#[derive(Debug, Clone)]
pub enum StopField {
    One(String),
    Many(Vec<String>),
}

impl StopField {
    pub fn into_vec(self) -> (v: Vec<String>)
        ensures
            match self {
                StopField::One(s) => v@ == seq![s],
                StopField::Many(m) => v@ == m@,
            },
    {
        match self {
            StopField::One(s) => {
                let mut v: Vec<String> = Vec::new();
                v.push(s);
                v
            },
            StopField::Many(v) => v,
        }
    }
}

/// Concatenation of a list of strings.
pub open spec fn joined(v: Seq<String>) -> Seq<char>
    decreases v.len(),
{
    if v.len() == 0 {
        Seq::empty()
    } else {
        joined(v.drop_last()) + v.last()@
    }
}

/// `prompt` may be a string or an array (arrays are joined with no separator).
#[derive(Debug, Clone)]
pub enum PromptField {
    One(String),
    Many(Vec<String>),
}

impl PromptField {
    pub fn into_string(self) -> (s: String)
        ensures
            match self {
                PromptField::One(t) => s@ == t@,
                PromptField::Many(v) => s@ == joined(v@),
            },
    {
        match self {
            PromptField::One(s) => s,
            PromptField::Many(v) => {
                let mut out: Vec<char> = Vec::new();
                let mut i: usize = 0;
                while i < v.len()
                    invariant
                        i <= v@.len(),
                        out@ == joined(v@.take(i as int)),
                    decreases v@.len() - i,
                {
                    push_str(&mut out, v[i].as_str());
                    assert(v@.take(i + 1).drop_last() =~= v@.take(i as int));
                    i = i + 1;
                }
                assert(v@.take(v@.len() as int) =~= v@);
                string_from_chars(out.as_slice())
            },
        }
    }
}

/// One chat turn, matching the OpenAI request shape.
#[derive(Debug, Clone)]
pub struct ChatMessage {
    pub role: String,
    pub content: String,
}

/// One streamed chunk of generated output.
#[derive(Debug, Clone)]
pub struct StreamEvent {
    /// New text since the previous event (may be empty on the final event).
    pub delta: String,
    /// Set on the final event: "stop", "length", or "error".
    pub finish_reason: Option<String>,
    pub prompt_tokens: usize,
    pub completion_tokens: usize,
}

#[derive(Debug, Clone, Copy, PartialEq, Eq, Structural)]
pub struct Usage {
    pub prompt_tokens: usize,
    pub completion_tokens: usize,
    pub total_tokens: usize,
}

#[derive(Debug, Clone)]
pub struct ChatCompletionResponse {
    pub id: String,
    pub object: &'static str,
    pub created: i64,
    pub model: String,
    pub choices: Vec<ChatChoice>,
    pub usage: Usage,
}

#[derive(Debug, Clone)]
pub struct ChatChoice {
    pub index: usize,
    pub message: ChatMessage,
    pub finish_reason: String,
}

#[derive(Debug, Clone)]
pub struct ChatChunk {
    pub id: String,
    pub object: &'static str,
    pub created: i64,
    pub model: String,
    pub choices: Vec<ChatChunkChoice>,
}

#[derive(Debug, Clone)]
pub struct ChatChunkChoice {
    pub index: usize,
    pub delta: ChatDelta,
    pub finish_reason: Option<String>,
}

#[derive(Debug, Clone)]
pub struct ChatDelta {
    pub role: Option<String>,
    pub content: Option<String>,
}

#[derive(Debug, Clone)]
pub struct CompletionResponse {
    pub id: String,
    pub object: &'static str,
    pub created: i64,
    pub model: String,
    pub choices: Vec<CompletionChoice>,
    pub usage: Usage,
}

#[derive(Debug, Clone)]
pub struct CompletionChoice {
    pub index: usize,
    pub text: String,
    pub finish_reason: String,
}

#[derive(Debug, Clone)]
pub struct CompletionChunk {
    pub id: String,
    pub object: &'static str,
    pub created: i64,
    pub model: String,
    pub choices: Vec<CompletionChunkChoice>,
}

#[derive(Debug, Clone)]
pub struct CompletionChunkChoice {
    pub index: usize,
    pub text: String,
    pub finish_reason: Option<String>,
}

#[derive(Debug, Clone)]
pub struct ModelList {
    pub object: &'static str,
    pub data: Vec<ModelEntry>,
}

#[derive(Debug, Clone)]
pub struct ModelEntry {
    pub id: String,
    pub object: &'static str,
    pub created: i64,
    pub owned_by: &'static str,
}

/// OpenAI-shaped error body.
#[derive(Debug, Clone)]
pub struct ErrorResponse {
    pub error: ErrorBody,
}

#[derive(Debug, Clone)]
pub struct ErrorBody {
    pub message: String,
    pub kind: &'static str,
}

/// HTTP status an error is answered with: 400 for bad requests and
/// configuration, 404 for missing things, 503 for unavailable
/// dependencies, 500 otherwise.
pub open spec fn spec_error_status(e: Error) -> u16 {
    match e {
        Error::InvalidArgument(_) | Error::Config(_) => 400,
        Error::NotFound(_) => 404,
        Error::Unavailable(_) => 503,
        Error::Internal(_) => 500,
    }
}

/// OpenAI error type of an error: client mistakes are
/// `invalid_request_error`, everything else `server_error`.
pub open spec fn spec_error_kind(e: Error) -> Seq<char> {
    match e {
        Error::InvalidArgument(_) | Error::Config(_) | Error::NotFound(_) => "invalid_request_error"@,
        _ => "server_error"@,
    }
}

/// The HTTP status and OpenAI-shaped body an error is answered with.
pub fn error_reply(e: &Error) -> (r: (u16, ErrorResponse))
    ensures
        r.0 == spec_error_status(*e),
        r.1.error.kind@ == spec_error_kind(*e),
        r.1.error.message@ == e.message_text(),
{
    let (status, kind): (u16, &'static str) = match e {
        Error::InvalidArgument(_) | Error::Config(_) => (400, "invalid_request_error"),
        Error::NotFound(_) => (404, "invalid_request_error"),
        Error::Unavailable(_) => (503, "server_error"),
        Error::Internal(_) => (500, "server_error"),
    };
    (status, ErrorResponse { error: ErrorBody { message: e.message().clone(), kind } })
}

/// What a buffered (non-streaming) response collected from the stream.
#[derive(Debug, Clone)]
pub struct Collected {
    pub text: String,
    pub finish: String,
    pub prompt_tokens: usize,
    pub completion_tokens: usize,
}

/// Abstract state of a [`StreamCollector`].
pub struct CollectorModel {
    pub text: Seq<char>,
    pub finish: Seq<char>,
    pub prompt_tokens: usize,
    pub completion_tokens: usize,
    pub done: bool,
}

/// Folding one more event in: its text is appended and its counts
/// replace the previous ones; a finish reason ends the stream.
pub open spec fn absorb_model(c: CollectorModel, ev: StreamEvent) -> CollectorModel {
    CollectorModel {
        text: c.text + ev.delta@,
        finish: match ev.finish_reason {
            Some(f) => f@,
            None => c.finish,
        },
        prompt_tokens: ev.prompt_tokens,
        completion_tokens: ev.completion_tokens,
        done: ev.finish_reason is Some,
    }
}

/// Drains a generation stream for a buffered response.
pub struct StreamCollector {
    text: Vec<char>,
    finish: String,
    prompt_tokens: usize,
    completion_tokens: usize,
    done: bool,
}

impl View for StreamCollector {
    type V = CollectorModel;

    closed spec fn view(&self) -> CollectorModel {
        CollectorModel {
            text: self.text@,
            finish: self.finish@,
            prompt_tokens: self.prompt_tokens,
            completion_tokens: self.completion_tokens,
            done: self.done,
        }
    }
}

impl StreamCollector {
    /// A collector that has seen nothing; the finish reason defaults to "stop".
    pub fn new() -> (c: Self)
        ensures
            c@.text == Seq::<char>::empty(),
            c@.finish == "stop"@,
            c@.prompt_tokens == 0,
            c@.completion_tokens == 0,
            !c@.done,
    {
        StreamCollector {
            text: Vec::new(),
            finish: String::from_str("stop"),
            prompt_tokens: 0,
            completion_tokens: 0,
            done: false,
        }
    }

    /// Fold one event in; returns whether the stream has finished.
    pub fn absorb(&mut self, ev: StreamEvent) -> (done: bool)
        ensures
            final(self)@ == absorb_model(old(self)@, ev),
            done == final(self)@.done,
    {
        crate::text::push_str(&mut self.text, ev.delta.as_str());
        self.prompt_tokens = ev.prompt_tokens;
        self.completion_tokens = ev.completion_tokens;
        match ev.finish_reason {
            Some(f) => {
                self.finish = f;
                self.done = true;
            },
            None => {
                self.done = false;
            },
        }
        self.done
    }

    /// The collected response, or `None` when the stream finished with
    /// "error".
    pub fn result(self) -> (r: Option<Collected>)
        ensures
            match r {
                Some(c) => {
                    &&& self@.finish != "error"@
                    &&& c.text@ == self@.text
                    &&& c.finish@ == self@.finish
                    &&& c.prompt_tokens == self@.prompt_tokens
                    &&& c.completion_tokens == self@.completion_tokens
                },
                None => self@.finish == "error"@,
            },
    {
        let f = crate::text::chars_of(self.finish.as_str());
        let e = crate::text::chars_of("error");
        let mut same = f.len() == e.len();
        if same {
            let mut i: usize = 0;
            while i < f.len()
                invariant
                    f@.len() == e@.len(),
                    i <= f@.len(),
                    same == forall|k: int| 0 <= k < i ==> f@[k] == e@[k],
                decreases f@.len() - i,
            {
                if f[i] != e[i] {
                    same = false;
                }
                i = i + 1;
            }
            if same {
                assert(f@ =~= e@);
            }
        }
        if same {
            return None;
        }
        Some(
            Collected {
                text: string_from_chars(self.text.as_slice()),
                finish: self.finish,
                prompt_tokens: self.prompt_tokens,
                completion_tokens: self.completion_tokens,
            },
        )
    }
}

/// Usage block of a finished request; the total must fit a `usize`.
pub fn usage(prompt_tokens: usize, completion_tokens: usize) -> (u: Usage)
    requires
        prompt_tokens + completion_tokens <= usize::MAX,
    ensures
        u.prompt_tokens == prompt_tokens,
        u.completion_tokens == completion_tokens,
        u.total_tokens == prompt_tokens + completion_tokens,
{
    Usage { prompt_tokens, completion_tokens, total_tokens: prompt_tokens + completion_tokens }
}

/// The buffered chat response for a collected stream.
pub fn chat_completion_response(id: String, model: String, created: i64, c: Collected) -> (r:
    ChatCompletionResponse)
    requires
        c.prompt_tokens + c.completion_tokens <= usize::MAX,
    ensures
        r.id == id,
        r.model == model,
        r.object@ == "chat.completion"@,
        r.created == created,
        r.choices@.len() == 1,
        r.choices@[0].index == 0,
        r.choices@[0].message.role@ == "assistant"@,
        r.choices@[0].message.content == c.text,
        r.choices@[0].finish_reason == c.finish,
        r.usage == usage_of(c.prompt_tokens, c.completion_tokens),
{
    let u = usage(c.prompt_tokens, c.completion_tokens);
    let mut choices: Vec<ChatChoice> = Vec::new();
    choices.push(
        ChatChoice {
            index: 0,
            message: ChatMessage { role: String::from_str("assistant"), content: c.text },
            finish_reason: c.finish,
        },
    );
    ChatCompletionResponse { id, object: "chat.completion", created, model, choices, usage: u }
}

/// The usage block for the given counts.
pub open spec fn usage_of(prompt_tokens: usize, completion_tokens: usize) -> Usage {
    Usage {
        prompt_tokens,
        completion_tokens,
        total_tokens: (prompt_tokens + completion_tokens) as usize,
    }
}

/// The buffered legacy-completion response for a collected stream.
pub fn completion_response(id: String, model: String, created: i64, c: Collected) -> (r:
    CompletionResponse)
    requires
        c.prompt_tokens + c.completion_tokens <= usize::MAX,
    ensures
        r.id == id,
        r.model == model,
        r.object@ == "text_completion"@,
        r.created == created,
        r.choices@.len() == 1,
        r.choices@[0].index == 0,
        r.choices@[0].text == c.text,
        r.choices@[0].finish_reason == c.finish,
        r.usage == usage_of(c.prompt_tokens, c.completion_tokens),
{
    let u = usage(c.prompt_tokens, c.completion_tokens);
    let mut choices: Vec<CompletionChoice> = Vec::new();
    choices.push(CompletionChoice { index: 0, text: c.text, finish_reason: c.finish });
    CompletionResponse { id, object: "text_completion", created, model, choices, usage: u }
}

/// The role-only chunk that opens an OpenAI chat stream.
pub fn first_chat_chunk(id: String, model: String, created: i64) -> (c: ChatChunk)
    ensures
        c.id == id,
        c.model == model,
        c.created == created,
        c.object@ == "chat.completion.chunk"@,
        c.choices@.len() == 1,
        c.choices@[0].index == 0,
        c.choices@[0].delta.role matches Some(r) && r@ == "assistant"@,
        c.choices@[0].delta.content is None,
        c.choices@[0].finish_reason is None,
{
    let mut choices: Vec<ChatChunkChoice> = Vec::new();
    choices.push(
        ChatChunkChoice {
            index: 0,
            delta: ChatDelta { role: Some(String::from_str("assistant")), content: None },
            finish_reason: None,
        },
    );
    ChatChunk { id, object: "chat.completion.chunk", created, model, choices }
}

/// The chat chunk for one event (empty text is sent as no content),
/// and whether the `[DONE]` terminator follows it.
pub fn chat_chunk_for(id: String, model: String, created: i64, ev: StreamEvent) -> (r: (ChatChunk, bool))
    ensures
        r.0.id == id,
        r.0.model == model,
        r.0.created == created,
        r.0.object@ == "chat.completion.chunk"@,
        r.0.choices@.len() == 1,
        r.0.choices@[0].index == 0,
        r.0.choices@[0].delta.role is None,
        if ev.delta@.len() == 0 {
            r.0.choices@[0].delta.content is None
        } else {
            r.0.choices@[0].delta.content == Some(ev.delta)
        },
        r.0.choices@[0].finish_reason == ev.finish_reason,
        r.1 == ev.finish_reason is Some,
{
    let done = ev.finish_reason.is_some();
    let content = if ev.delta.as_str().is_empty() {
        None
    } else {
        Some(ev.delta)
    };
    let mut choices: Vec<ChatChunkChoice> = Vec::new();
    choices.push(
        ChatChunkChoice {
            index: 0,
            delta: ChatDelta { role: None, content },
            finish_reason: ev.finish_reason,
        },
    );
    (ChatChunk { id, object: "chat.completion.chunk", created, model, choices }, done)
}

/// The legacy-completion chunk for one event, and whether the `[DONE]`
/// terminator follows it.
pub fn completion_chunk_for(id: String, model: String, created: i64, ev: StreamEvent) -> (r: (
    CompletionChunk,
    bool,
))
    ensures
        r.0.id == id,
        r.0.model == model,
        r.0.created == created,
        r.0.object@ == "text_completion"@,
        r.0.choices@.len() == 1,
        r.0.choices@[0].index == 0,
        r.0.choices@[0].text == ev.delta,
        r.0.choices@[0].finish_reason == ev.finish_reason,
        r.1 == ev.finish_reason is Some,
{
    let done = ev.finish_reason.is_some();
    let mut choices: Vec<CompletionChunkChoice> = Vec::new();
    choices.push(CompletionChunkChoice { index: 0, text: ev.delta, finish_reason: ev.finish_reason });
    (CompletionChunk { id, object: "text_completion", created, model, choices }, done)
}

/// The `/v1/models` listing: the one served model.
pub fn model_list(model_id: String, created: i64) -> (l: ModelList)
    ensures
        l.object@ == "list"@,
        l.data@.len() == 1,
        l.data@[0].id == model_id,
        l.data@[0].object@ == "model"@,
        l.data@[0].created == created,
        l.data@[0].owned_by@ == "cognitora"@,
{
    let mut data: Vec<ModelEntry> = Vec::new();
    data.push(ModelEntry { id: model_id, object: "model", created, owned_by: "cognitora" });
    ModelList { object: "list", data }
}

/// A chat completion needs at least one message.
pub fn check_chat_messages(n: usize) -> (r: Result<(), Error>)
    ensures
        r is Ok <==> n > 0,
        r matches Err(e) ==> e matches Error::InvalidArgument(m) && m@ == "messages must not be empty"@,
{
    if n == 0 {
        return Err(Error::InvalidArgument(String::from_str("messages must not be empty")));
    }
    Ok(())
}

/// Response id: `chatcmpl-<hex>` for chat completions, `cmpl-<hex>`
/// for legacy completions, `<hex>` being a fresh unique id.
pub fn completion_id(chat: bool, unique_hex: &str) -> (id: String)
    ensures
        id@ == (if chat { "chatcmpl-"@ } else { "cmpl-"@ }) + unique_hex@,
{
    let mut v: Vec<char> = Vec::new();
    push_str(&mut v, if chat { "chatcmpl-" } else { "cmpl-" });
    push_str(&mut v, unique_hex);
    string_from_chars(v.as_slice())
}

} // verus!
