//! The wire form of a chat request: the JSON object that the guest reads
//! through the transfer buffer.
use vstd::prelude::*;
use vstd::slice::slice_to_vec;
use vstd::string::StringExecFns;
use vstd::utf8::encode_utf8;
use crate::args::texts;
use crate::message::{ChatBody, Message, Role};

verus! {

/// What serde_json renders for a text: the quoted and escaped JSON string,
/// or `None` where it reports an error.
pub uninterp spec fn json_string_of(s: Seq<char>) -> Option<Seq<char>>;

/// Relies on serde_json::to_string applied to a `str`: its `Ok` value is
/// the JSON string literal for the text and depends on the text alone.
#[verifier::external_body]
fn json_string(s: &str) -> (r: Option<String>)
    ensures
        r matches Some(t) ==> json_string_of(s@) == Some(t@),
        r is None ==> json_string_of(s@) is None,
{
    serde_json::to_string(s).ok()
}

/// The name under which a role travels.
pub open spec fn role_name(r: Role) -> Seq<char> {
    match r {
        Role::System => "system"@,
        Role::User => "user"@,
        Role::Assistant => "assistant"@,
    }
}

/// The name under which a role travels.
pub fn role_str(r: Role) -> (s: &'static str)
    ensures
        s@ == role_name(r),
{
    match r {
        Role::System => "system",
        Role::User => "user",
        Role::Assistant => "assistant",
    }
}

/// One message as a JSON object, `{"role":...,"content":...}`, its content
/// given as a JSON string.
pub open spec fn message_object(role: Role, content: Seq<char>) -> Seq<char> {
    "{\"role\":\""@ + role_name(role) + "\",\"content\":"@ + content + "}"@
}

/// The messages as JSON objects separated by commas; the content of the
/// message at position `i` is the JSON string `cs[i]`.
pub open spec fn join_messages(ms: Seq<Message>, cs: Seq<Seq<char>>) -> Seq<char>
    decreases ms.len(),
{
    if ms.len() == 0 {
        Seq::empty()
    } else if ms.len() == 1 {
        message_object(ms[0].role, cs[0])
    } else {
        join_messages(ms.drop_last(), cs) + ","@ + message_object(ms.last().role, cs[ms.len() - 1])
    }
}

/// A chat request as a JSON object, `{"messages":[...],"channel_id":...}`,
/// from the JSON strings of its texts.
pub open spec fn chat_frame(ms: Seq<Message>, cs: Seq<Seq<char>>, channel: Seq<char>) -> Seq<char> {
    "{\"messages\":["@ + join_messages(ms, cs) + "],\"channel_id\":"@ + channel + "}"@
}

/// The JSON strings of the messages' contents, if each can be rendered.
pub open spec fn escape_contents(ms: Seq<Message>) -> Option<Seq<Seq<char>>>
    decreases ms.len(),
{
    if ms.len() == 0 {
        Some(Seq::empty())
    } else {
        match (escape_contents(ms.drop_last()), json_string_of(ms.last().content@)) {
            (Some(cs), Some(c)) => Some(cs.push(c)),
            _ => None,
        }
    }
}

/// A chat request as a JSON object.
pub open spec fn chat_json(b: ChatBody) -> Option<Seq<char>> {
    match (escape_contents(b.messages@), json_string_of(b.channel_id@)) {
        (Some(cs), Some(ch)) => Some(chat_frame(b.messages@, cs, ch)),
        _ => None,
    }
}

/// The bytes of a chat request as the guest reads them: the UTF-8 encoding
/// of its JSON object.
pub open spec fn chat_payload(b: ChatBody) -> Option<Seq<u8>> {
    match chat_json(b) {
        Some(j) => Some(encode_utf8(j)),
        None => None,
    }
}

/// Frames a chat request from the JSON strings of its texts: `contents[i]`
/// for the content of message `i`, `channel` for its channel.
pub fn frame_chat(messages: &Vec<Message>, contents: &Vec<String>, channel: &str) -> (r: Vec<u8>)
    requires
        contents@.len() == messages@.len(),
    ensures
        r@ == encode_utf8(chat_frame(messages@, texts(contents@), channel@)),
{
    let ghost cs = texts(contents@);
    let mut text = String::from_str("{\"messages\":[");
    let ghost head: Seq<char> = text@;
    let mut i: usize = 0;
    while i < messages.len()
        invariant
            i <= messages@.len() == contents@.len() == cs.len(),
            cs == texts(contents@),
            text@ == head + join_messages(messages@.subrange(0, i as int), cs),
        decreases messages@.len() - i,
    {
        let ghost next = messages@.subrange(0, i + 1);
        assert(next.drop_last() =~= messages@.subrange(0, i as int));
        assert(next.last() == messages@[i as int]);
        assert(cs[i as int] == contents@[i as int]@);
        if i > 0 {
            text.append(",");
        }
        text.append("{\"role\":\"");
        text.append(role_str(messages[i].role));
        text.append("\",\"content\":");
        text.append(contents[i].as_str());
        text.append("}");
        assert(text@ =~= head + join_messages(next, cs));
        i = i + 1;
    }
    assert(messages@.subrange(0, i as int) =~= messages@);
    text.append("],\"channel_id\":");
    text.append(channel);
    text.append("}");
    assert(text@ =~= chat_frame(messages@, cs, channel@));
    slice_to_vec(text.as_str().as_bytes())
}

/// Serializes a chat request into the bytes that the guest reads. `None`
/// exactly where one of its texts cannot be rendered as a JSON string.
pub fn serialize_chat(b: &ChatBody) -> (r: Option<Vec<u8>>)
    ensures
        r matches Some(v) ==> chat_payload(*b) == Some(v@),
        r is None ==> chat_payload(*b) is None,
{
    let mut contents: Vec<String> = Vec::new();
    let mut i: usize = 0;
    while i < b.messages.len()
        invariant
            i <= b.messages@.len(),
            escape_contents(b.messages@.subrange(0, i as int)) == Some(texts(contents@)),
            contents@.len() == i,
        decreases b.messages@.len() - i,
    {
        let ghost next = b.messages@.subrange(0, i + 1);
        assert(next.drop_last() =~= b.messages@.subrange(0, i as int));
        assert(next.last() == b.messages@[i as int]);
        match json_string(b.messages[i].content.as_str()) {
            Some(c) => {
                let ghost before = contents@;
                contents.push(c);
                assert(texts(contents@) =~= texts(before).push(c@));
            },
            None => {
                proof {
                    lemma_escape_none(b.messages@, i + 1);
                }
                return None;
            },
        }
        i = i + 1;
    }
    assert(b.messages@.subrange(0, i as int) =~= b.messages@);
    match json_string(b.channel_id.as_str()) {
        Some(ch) => Some(frame_chat(&b.messages, &contents, ch.as_str())),
        None => None,
    }
}

/// Once a prefix of the messages cannot be rendered, neither can the whole.
proof fn lemma_escape_none(ms: Seq<Message>, n: int)
    requires
        0 < n <= ms.len(),
        escape_contents(ms.subrange(0, n)) is None,
    ensures
        escape_contents(ms) is None,
    decreases ms.len() - n,
{
    if n == ms.len() {
        assert(ms.subrange(0, n) =~= ms);
    } else {
        let next = ms.subrange(0, n + 1);
        assert(next.drop_last() =~= ms.subrange(0, n));
        lemma_escape_none(ms, n + 1);
    }
}

} // verus!
