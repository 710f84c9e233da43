use chat_backend::args::{create_wasi_args, decimal_string};
use chat_backend::json::{role_str, serialize_chat};
use chat_backend::message::{
    token_error_of_code, ChatBody, LoadModel, Message, Options, Role, TokenError,
};
use chat_backend::transfer::TransferBuffer;

fn msg(role: Role, content: &str) -> Message {
    Message { role, content: content.to_string() }
}

fn body(messages: Vec<Message>, channel: &str) -> ChatBody {
    ChatBody { messages, channel_id: channel.to_string() }
}

#[test]
fn error_codes_map_to_kinds() {
    assert_eq!(token_error_of_code(1), TokenError::EndOfSequence);
    assert_eq!(token_error_of_code(2), TokenError::ContextFull);
    assert_eq!(token_error_of_code(3), TokenError::PromptTooLong);
    assert_eq!(token_error_of_code(4), TokenError::TooLarge);
    assert_eq!(token_error_of_code(5), TokenError::InvalidEncoding);
    assert_eq!(token_error_of_code(0), TokenError::Other);
    assert_eq!(token_error_of_code(6), TokenError::Other);
    assert_eq!(token_error_of_code(-1), TokenError::Other);
}

#[test]
fn role_names() {
    assert_eq!(role_str(Role::System), "system");
    assert_eq!(role_str(Role::User), "user");
    assert_eq!(role_str(Role::Assistant), "assistant");
}

#[test]
fn chat_serializes_as_json_object() {
    let b = body(vec![msg(Role::User, "hi")], "c1");
    let bytes = serialize_chat(&b).unwrap();
    assert_eq!(
        String::from_utf8(bytes).unwrap(),
        r#"{"messages":[{"role":"user","content":"hi"}],"channel_id":"c1"}"#
    );
}

#[test]
fn chat_serialization_escapes_texts() {
    let b = body(
        vec![msg(Role::System, "say \"x\"\n"), msg(Role::Assistant, "ok\\")],
        "a\"b",
    );
    let bytes = serialize_chat(&b).unwrap();
    assert_eq!(
        String::from_utf8(bytes).unwrap(),
        r#"{"messages":[{"role":"system","content":"say \"x\"\n"},{"role":"assistant","content":"ok\\"}],"channel_id":"a\"b"}"#
    );
}

#[test]
fn chat_without_messages() {
    let b = body(vec![], "");
    let bytes = serialize_chat(&b).unwrap();
    assert_eq!(String::from_utf8(bytes).unwrap(), r#"{"messages":[],"channel_id":""}"#);
}

#[test]
fn chat_serialization_keeps_non_ascii() {
    let b = body(vec![msg(Role::User, "héllo ✓")], "z");
    let bytes = serialize_chat(&b).unwrap();
    assert_eq!(
        String::from_utf8(bytes).unwrap(),
        "{\"messages\":[{\"role\":\"user\",\"content\":\"héllo ✓\"}],\"channel_id\":\"z\"}"
    );
}

#[test]
fn chunked_reads_reassemble_payload() {
    let payload: Vec<u8> = (0u8..23).collect();
    for size in [1usize, 2, 5, 22, 23, 24, 100] {
        let mut b = TransferBuffer::new();
        b.load(payload.clone());
        let mut got: Vec<u8> = Vec::new();
        let mut pulls = 0;
        loop {
            let chunk = b.read(size);
            pulls += 1;
            assert!(chunk.len() <= size);
            if chunk.is_empty() {
                break;
            }
            got.extend_from_slice(&chunk);
            assert!(pulls <= payload.len() + 1);
        }
        assert_eq!(got, payload);
        assert!(b.is_empty());
    }
}

#[test]
fn mixed_chunk_sizes_reassemble_payload() {
    let payload: Vec<u8> = b"{\"messages\":[],\"channel_id\":\"q\"}".to_vec();
    let mut b = TransferBuffer::new();
    b.load(payload.clone());
    let mut got = Vec::new();
    for size in [3usize, 1, 7, 50] {
        got.extend_from_slice(&b.read(size));
    }
    assert_eq!(got, payload);
    assert!(!b.is_empty());
    assert_eq!(b.read(4), Vec::<u8>::new());
    assert!(b.is_empty());
}

#[test]
fn zero_sized_read_keeps_pending_bytes() {
    let mut b = TransferBuffer::new();
    b.load(vec![1, 2, 3]);
    assert_eq!(b.read(0), Vec::<u8>::new());
    assert!(!b.is_empty());
    assert_eq!(b.read(10), vec![1, 2, 3]);
}

#[test]
fn empty_buffer_reads_nothing() {
    let mut b = TransferBuffer::new();
    assert!(b.is_empty());
    assert_eq!(b.read(8), Vec::<u8>::new());
    assert!(b.is_empty());
}

#[test]
fn decimal_texts() {
    assert_eq!(decimal_string(0), "0");
    assert_eq!(decimal_string(7), "7");
    assert_eq!(decimal_string(10), "10");
    assert_eq!(decimal_string(4096), "4096");
    assert_eq!(decimal_string(u64::MAX), "18446744073709551615");
}

#[test]
fn args_without_options() {
    let m = LoadModel { model: "llama".to_string(), prompt_template: None, options: Options::none() };
    assert_eq!(create_wasi_args(&m), vec!["chat_ui.wasm", "-a", "llama"]);
}

#[test]
fn args_with_every_option() {
    let m = LoadModel {
        model: "mistral".to_string(),
        prompt_template: Some("chatml".to_string()),
        options: Options {
            ctx_size: Some(4096),
            n_predict: Some(128),
            n_gpu_layers: Some(0),
            batch_size: Some(512),
            temp: Some("0.8".to_string()),
            repeat_penalty: Some("1.1".to_string()),
            reverse_prompt: Some("User:".to_string()),
        },
    };
    assert_eq!(
        create_wasi_args(&m),
        vec![
            "chat_ui.wasm", "-a", "mistral", "-c", "4096", "-n", "128", "-g", "0", "-b", "512",
            "--temp", "0.8", "--repeat-penalty", "1.1", "-r", "User:", "-p", "chatml"
        ]
    );
}

#[test]
fn args_with_some_options() {
    let mut o = Options::none();
    o.n_predict = Some(64);
    o.reverse_prompt = Some("Q:".to_string());
    let m = LoadModel { model: "m".to_string(), prompt_template: None, options: o };
    assert_eq!(create_wasi_args(&m), vec!["chat_ui.wasm", "-a", "m", "-n", "64", "-r", "Q:"]);
}

#[test]
fn chat_output_event_name() {
    assert_eq!(chat_backend::message::output_event("abc"), "output/abc");
    assert_eq!(chat_backend::message::output_event(""), "output/");
}

#[test]
fn framing_places_rendered_texts() {
    let messages = vec![msg(Role::System, "ignored"), msg(Role::User, "ignored too")];
    let contents = vec!["\"A\"".to_string(), "[1]".to_string()];
    let bytes = chat_backend::json::frame_chat(&messages, &contents, "\"ch\"");
    assert_eq!(
        String::from_utf8(bytes).unwrap(),
        r#"{"messages":[{"role":"system","content":"A"},{"role":"user","content":[1]}],"channel_id":"ch"}"#
    );
}

#[test]
fn framing_without_messages() {
    let bytes = chat_backend::json::frame_chat(&vec![], &vec![], "x");
    assert_eq!(String::from_utf8(bytes).unwrap(), r#"{"messages":[],"channel_id":x}"#);
}
