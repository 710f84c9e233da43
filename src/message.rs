//! The values that callers hand to the backend and receive from it.
use vstd::prelude::*;
use vstd::string::StringExecFns;

verus! {

/// Who wrote a message of a conversation.
#[derive(Clone, Copy, Debug, PartialEq, Eq, Structural)]
pub enum Role {
    System,
    User,
    Assistant,
}

/// One message of a conversation.
#[derive(Clone, Debug)]
pub struct Message {
    pub role: Role,
    pub content: String,
}

/// A chat request: the conversation so far and the channel that its answer
/// is streamed to.
#[derive(Clone, Debug)]
pub struct ChatBody {
    pub messages: Vec<Message>,
    pub channel_id: String,
}

/// Engine options of a model load. Every option is optional; absent means
/// the engine's default. The two real-valued options are held as the decimal
/// text that the guest receives.
#[derive(Clone, Debug)]
pub struct Options {
    pub ctx_size: Option<u64>,
    pub n_predict: Option<u64>,
    pub n_gpu_layers: Option<u64>,
    pub batch_size: Option<u64>,
    pub temp: Option<String>,
    pub repeat_penalty: Option<String>,
    pub reverse_prompt: Option<String>,
}

impl Options {
    /// Options with every field absent.
    pub fn none() -> (r: Options)
        ensures
            r.ctx_size is None,
            r.n_predict is None,
            r.n_gpu_layers is None,
            r.batch_size is None,
            r.temp is None,
            r.repeat_penalty is None,
            r.reverse_prompt is None,
    {
        Options {
            ctx_size: None,
            n_predict: None,
            n_gpu_layers: None,
            batch_size: None,
            temp: None,
            repeat_penalty: None,
            reverse_prompt: None,
        }
    }
}

/// Parameters of a model load: the model's name, an optional prompt template
/// and the engine options.
#[derive(Clone, Debug)]
pub struct LoadModel {
    pub model: String,
    pub prompt_template: Option<String>,
    pub options: Options,
}

/// Why a chat stream ended. `EndOfSequence` is the normal end.
#[derive(Clone, Copy, Debug, PartialEq, Eq, Structural)]
pub enum TokenError {
    BackendNotRun,
    EndOfSequence,
    ContextFull,
    PromptTooLong,
    TooLarge,
    InvalidEncoding,
    Other,
}

/// A piece of generated text.
#[derive(Clone, Debug, PartialEq, Eq)]
pub struct Token {
    pub content: String,
}

/// Identifies the reply channel of one request. Whoever runs the backend
/// keeps the channels and gives each request a distinct identifier.
pub type ReplyId = u64;

/// A request to the backend, with the identifier of its reply channel.
#[derive(Debug)]
pub enum Request {
    ListModel(ReplyId),
    LoadModel(LoadModel, ReplyId),
    Chat(ChatBody, ReplyId),
}

/// The name of the event stream that a chat's answer goes out on.
pub fn output_event(channel_id: &str) -> (r: String)
    ensures
        r@ == "output/"@ + channel_id@,
{
    let mut s = String::from_str("output/");
    s.append(channel_id);
    s
}

/// The error kind that the guest reports by a numeric code.
pub open spec fn token_error_spec(code: i32) -> TokenError {
    if code == 1 {
        TokenError::EndOfSequence
    } else if code == 2 {
        TokenError::ContextFull
    } else if code == 3 {
        TokenError::PromptTooLong
    } else if code == 4 {
        TokenError::TooLarge
    } else if code == 5 {
        TokenError::InvalidEncoding
    } else {
        TokenError::Other
    }
}

/// Maps a guest error code to its kind: 1 to 5 name the five guest-side
/// kinds, anything else is `Other`.
pub fn token_error_of_code(code: i32) -> (r: TokenError)
    ensures
        r == token_error_spec(code),
{
    match code {
        1 => TokenError::EndOfSequence,
        2 => TokenError::ContextFull,
        3 => TokenError::PromptTooLong,
        4 => TokenError::TooLarge,
        5 => TokenError::InvalidEncoding,
        _ => TokenError::Other,
    }
}

} // verus!
