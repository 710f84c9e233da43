use chat_backend::json::serialize_chat;
use chat_backend::manager::{backend_impl, WasmBackendManagerTask};
use chat_backend::message::{ChatBody, LoadModel, Message, Options, Request, Role, Token, TokenError};
use chat_backend::session::{is_end_marker, token_status, ChatBotUi, Effect, PullOutcome};

fn load(model: &str) -> LoadModel {
    LoadModel { model: model.to_string(), prompt_template: None, options: Options::none() }
}

fn chat(text: &str) -> ChatBody {
    ChatBody {
        messages: vec![Message { role: Role::User, content: text.to_string() }],
        channel_id: "ch".to_string(),
    }
}

fn tok(s: &str) -> Effect {
    Effect::Token(7, Token { content: s.to_string() })
}

/// A session that has acknowledged its load and taken chat 7.
fn session_with_chat(text: &str, out: &mut Vec<Effect>) -> (ChatBotUi, Vec<u8>) {
    let mut ui = ChatBotUi::new((load("m"), 1));
    assert_eq!(ui.pull_input(16, out), PullOutcome::Wait);
    let mut got = match ui.accept_request(Request::Chat(chat(text), 7), 4, out) {
        PullOutcome::Copy(b) => b,
        other => panic!("unexpected {:?}", other),
    };
    loop {
        match ui.pull_input(4, out) {
            PullOutcome::Copy(b) if b.is_empty() => break,
            PullOutcome::Copy(b) => got.extend_from_slice(&b),
            other => panic!("unexpected {:?}", other),
        }
    }
    (ui, got)
}

#[test]
fn chat_before_any_load_is_refused() {
    let task = backend_impl();
    let mut out = Vec::new();
    let start = task.dispatch(Request::Chat(chat("hello"), 3), &mut out);
    assert!(start.is_none());
    assert_eq!(out, vec![Effect::End(3, TokenError::BackendNotRun)]);
}

#[test]
fn idle_task_answers_list_and_starts_load() {
    let task = WasmBackendManagerTask { models_dir: "/tmp/models".to_string() };
    let mut out = Vec::new();
    assert!(task.dispatch(Request::ListModel(4), &mut out).is_none());
    assert_eq!(out, vec![Effect::ListModels(4)]);
    let start = task.dispatch(Request::LoadModel(load("m"), 5), &mut out);
    assert_eq!(start.map(|(m, a)| (m.model, a)), Some(("m".to_string(), 5)));
    assert_eq!(out.len(), 1);
}

#[test]
fn backend_reads_models_from_its_directory() {
    assert_eq!(backend_impl().models_dir, "/home/csh/ai");
}

#[test]
fn first_pull_acknowledges_load_once() {
    let mut ui = ChatBotUi::new((load("m"), 1));
    let mut out = Vec::new();
    assert_eq!(ui.pull_input(8, &mut out), PullOutcome::Wait);
    assert_eq!(out, vec![Effect::AckLoad(1)]);
    assert_eq!(ui.pull_input(8, &mut out), PullOutcome::Wait);
    assert_eq!(out, vec![Effect::AckLoad(1)]);
}

#[test]
fn guest_reads_the_serialized_chat() {
    let mut out = Vec::new();
    let (_ui, got) = session_with_chat("hello", &mut out);
    assert_eq!(got, serialize_chat(&chat("hello")).unwrap());
    assert_eq!(out, vec![Effect::AckLoad(1)]);
}

#[test]
fn tokens_reach_the_sink_in_order_then_one_end() {
    let mut out = Vec::new();
    let (mut ui, _) = session_with_chat("hi", &mut out);
    out.clear();
    assert!(ui.push_token(Some("Hel".to_string()), &mut out));
    assert!(ui.push_token(Some("lo".to_string()), &mut out));
    assert!(ui.push_token(Some("!".to_string()), &mut out));
    assert!(ui.push_token(None, &mut out));
    assert_eq!(
        out,
        vec![tok("Hel"), tok("lo"), tok("!"), Effect::End(7, TokenError::EndOfSequence)]
    );
    assert!(!ui.push_token(Some("late".to_string()), &mut out));
    assert!(!ui.push_token(None, &mut out));
    ui.return_token_error(2, &mut out);
    assert_eq!(out.len(), 4);
}

#[test]
fn empty_completion_ends_once() {
    let mut out = Vec::new();
    let (mut ui, _) = session_with_chat("hi", &mut out);
    out.clear();
    assert!(ui.push_token(None, &mut out));
    assert_eq!(out, vec![Effect::End(7, TokenError::EndOfSequence)]);
    assert!(!ui.push_token(None, &mut out));
    assert_eq!(out.len(), 1);
}

#[test]
fn guest_error_ends_the_chat() {
    let mut out = Vec::new();
    let (mut ui, _) = session_with_chat("hi", &mut out);
    out.clear();
    assert!(ui.push_token(Some("a".to_string()), &mut out));
    ui.return_token_error(3, &mut out);
    assert_eq!(out, vec![tok("a"), Effect::End(7, TokenError::PromptTooLong)]);
    assert!(!ui.push_token(Some("b".to_string()), &mut out));
    assert_eq!(out.len(), 2);
}

#[test]
fn unknown_error_code_is_other() {
    let mut out = Vec::new();
    let (mut ui, _) = session_with_chat("hi", &mut out);
    out.clear();
    ui.return_token_error(42, &mut out);
    assert_eq!(out, vec![Effect::End(7, TokenError::Other)]);
}

#[test]
fn push_without_chat_fails() {
    let mut ui = ChatBotUi::new((load("m"), 1));
    let mut out = Vec::new();
    assert!(!ui.push_token(Some("x".to_string()), &mut out));
    assert!(!ui.push_token(None, &mut out));
    ui.return_token_error(1, &mut out);
    assert!(out.is_empty());
}

#[test]
fn load_during_chat_interrupts_and_disconnects() {
    let mut out = Vec::new();
    let (mut ui, _) = session_with_chat("hi", &mut out);
    assert!(ui.push_token(Some("par".to_string()), &mut out));
    out.clear();
    assert_eq!(ui.pull_input(8, &mut out), PullOutcome::Wait);
    let r = ui.accept_request(Request::LoadModel(load("other"), 9), 8, &mut out);
    assert_eq!(r, PullOutcome::Interrupt);
    assert!(out.is_empty());
    let next = ui.finish(&mut out);
    assert_eq!(out, vec![Effect::Disconnect(7)]);
    let (m, a) = next.unwrap();
    assert_eq!((m.model.as_str(), a), ("other", 9));
    let mut ui2 = ChatBotUi::new((m, a));
    out.clear();
    assert_eq!(ui2.pull_input(8, &mut out), PullOutcome::Wait);
    assert_eq!(out, vec![Effect::AckLoad(9)]);
}

#[test]
fn back_to_back_loads_resolve_both_acks() {
    let mut out = Vec::new();
    let mut ui = ChatBotUi::new((load("first"), 1));
    assert_eq!(ui.pull_input(8, &mut out), PullOutcome::Wait);
    let r = ui.accept_request(Request::LoadModel(load("second"), 2), 8, &mut out);
    assert_eq!(r, PullOutcome::Interrupt);
    let next = ui.finish(&mut out).unwrap();
    assert_eq!(next.0.model, "second");
    let mut ui2 = ChatBotUi::new(next);
    assert_eq!(ui2.pull_input(8, &mut out), PullOutcome::Wait);
    assert_eq!(out, vec![Effect::AckLoad(1), Effect::AckLoad(2)]);
}

#[test]
fn session_that_never_pulls_fails_its_load() {
    let ui = ChatBotUi::new((load("m"), 6));
    let mut out = Vec::new();
    assert!(ui.finish(&mut out).is_none());
    assert_eq!(out, vec![Effect::FailLoad(6)]);
}

#[test]
fn normal_end_of_run_stops_the_session() {
    let mut out = Vec::new();
    let (mut ui, _) = session_with_chat("hi", &mut out);
    assert!(ui.push_token(None, &mut out));
    out.clear();
    assert!(ui.finish(&mut out).is_none());
    assert!(out.is_empty());
}

#[test]
fn list_request_during_session_is_answered() {
    let mut ui = ChatBotUi::new((load("m"), 1));
    let mut out = Vec::new();
    assert_eq!(ui.pull_input(8, &mut out), PullOutcome::Wait);
    assert_eq!(ui.accept_request(Request::ListModel(5), 8, &mut out), PullOutcome::Wait);
    assert_eq!(out, vec![Effect::AckLoad(1), Effect::ListModels(5)]);
}

#[test]
fn new_chat_replaces_an_open_one() {
    let mut out = Vec::new();
    let (mut ui, _) = session_with_chat("hi", &mut out);
    out.clear();
    assert_eq!(ui.pull_input(8, &mut out), PullOutcome::Wait);
    match ui.accept_request(Request::Chat(chat("again"), 8), 8, &mut out) {
        PullOutcome::Copy(b) => assert_eq!(b.len(), 8),
        other => panic!("unexpected {:?}", other),
    }
    assert_eq!(out, vec![Effect::Disconnect(7)]);
    assert!(ui.push_token(Some("x".to_string()), &mut out));
    assert_eq!(out[1], Effect::Token(8, Token { content: "x".to_string() }));
}

#[test]
fn status_codes_of_token_pushes() {
    assert_eq!(token_status(true), 0);
    assert_eq!(token_status(false), -1);
}

#[test]
fn end_marker_is_null_or_empty() {
    assert!(is_end_marker(0, 5));
    assert!(is_end_marker(1024, 0));
    assert!(is_end_marker(0, 0));
    assert!(!is_end_marker(1024, 5));
}
