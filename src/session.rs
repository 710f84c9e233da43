//! One run of the guest: the state that its host functions share, and the
//! decisions that they take. Whoever runs the guest performs the effects
//! that these functions hand back (acknowledgments, tokens, stream ends) on
//! the reply channels, and blocks for the next request where told to.
use vstd::prelude::*;
use crate::json::{chat_payload, serialize_chat};
use crate::message::{
    token_error_of_code, token_error_spec, LoadModel, ReplyId, Request, Token, TokenError,
};
use crate::transfer::{concat_chunks, empty_buffer, read_spec, BufferView, TransferBuffer};

verus! {

/// Whether the load that a session runs for is still owed its
/// acknowledgment (`Init`), or is the next one to start (`Reload`).
#[derive(Clone, Copy, Debug, PartialEq, Eq, Structural)]
pub enum LoadModelState {
    Init,
    Reload,
}

/// What the runner of the guest must do on the reply channels.
#[derive(Debug, PartialEq, Eq)]
pub enum Effect {
    /// Acknowledge the load request: its session is ready.
    AckLoad(ReplyId),
    /// Resolve the load request as failed: drop its reply channel.
    FailLoad(ReplyId),
    /// Answer the model-list request from a scan of the model directory.
    ListModels(ReplyId),
    /// Hand a token to the chat's sink.
    Token(ReplyId, Token),
    /// Send the chat's terminal event and close its sink.
    End(ReplyId, TokenError),
    /// Close the chat's sink without a terminal event.
    Disconnect(ReplyId),
}

/// What a pull of input tells the guest.
#[derive(Debug, PartialEq, Eq)]
pub enum PullOutcome {
    /// Nothing to read: block for the next request, then hand it to
    /// `accept_request`.
    Wait,
    /// Copy these bytes to the guest and return their count.
    Copy(Vec<u8>),
    /// Abort the guest run: a new model is to be loaded.
    Interrupt,
}

/// Mathematical value of a pull outcome.
pub enum PullView {
    Wait,
    Copy(Seq<u8>),
    Interrupt,
}

impl View for PullOutcome {
    type V = PullView;

    open spec fn view(&self) -> PullView {
        match self {
            PullOutcome::Wait => PullView::Wait,
            PullOutcome::Copy(v) => PullView::Copy(v@),
            PullOutcome::Interrupt => PullView::Interrupt,
        }
    }
}

/// Mathematical value of a session: the transfer buffer, the sink of the
/// open chat, and the load request that is owed an answer.
pub struct SessionView {
    pub buffer: BufferView,
    pub sink: Option<ReplyId>,
    pub load: Option<(LoadModelState, LoadModel, ReplyId)>,
}

/// State shared by the guest's host functions during one run.
pub struct ChatBotUi {
    current_req: TransferBuffer,
    token_tx: Option<ReplyId>,
    load_model_state: Option<(LoadModelState, LoadModel, ReplyId)>,
}

impl View for ChatBotUi {
    type V = SessionView;

    closed spec fn view(&self) -> SessionView {
        SessionView {
            buffer: self.current_req@,
            sink: self.token_tx,
            load: self.load_model_state,
        }
    }
}

/// A fresh session for a load request.
pub open spec fn new_session(m: LoadModel, ack: ReplyId) -> SessionView {
    SessionView { buffer: empty_buffer(), sink: None, load: Some((LoadModelState::Init, m, ack)) }
}

/// The guest is ready for input: a load still owed its acknowledgment gets
/// it now, once.
pub open spec fn ready_next(load: Option<(LoadModelState, LoadModel, ReplyId)>) -> (
    Option<(LoadModelState, LoadModel, ReplyId)>,
    Seq<Effect>,
) {
    match load {
        Some((LoadModelState::Init, _, a)) => (None, seq![Effect::AckLoad(a)]),
        _ => (load, Seq::empty()),
    }
}

/// A pull of at most `len` bytes. With no pending request, it acknowledges
/// the load and tells the guest to wait; otherwise it reads.
pub open spec fn pull_next(s: SessionView, len: nat) -> (SessionView, Seq<Effect>, PullView) {
    if s.buffer.data.len() == 0 {
        let (l, e) = ready_next(s.load);
        (SessionView { load: l, ..s }, e, PullView::Wait)
    } else {
        let (b, c) = read_spec(s.buffer, len);
        (SessionView { buffer: b, ..s }, Seq::empty(), PullView::Copy(c))
    }
}

/// A request taken while the guest waits for input, `len` being the size of
/// the guest's pull.
pub open spec fn accept_next(s: SessionView, req: Request, len: nat) -> (SessionView, Seq<Effect>, PullView) {
    let (l0, e0) = ready_next(s.load);
    match req {
        Request::ListModel(id) => (
            SessionView { load: l0, ..s },
            e0.push(Effect::ListModels(id)),
            PullView::Wait,
        ),
        Request::LoadModel(m, a) => {
            let e1 = match l0 {
                Some((_, _, a0)) => seq![Effect::FailLoad(a0)],
                None => Seq::empty(),
            };
            (
                SessionView { load: Some((LoadModelState::Reload, m, a)), ..s },
                e0 + e1,
                PullView::Interrupt,
            )
        },
        Request::Chat(body, id) => {
            let e1 = match s.sink {
                Some(k) => seq![Effect::Disconnect(k)],
                None => Seq::empty(),
            };
            match chat_payload(body) {
                Some(p) => {
                    let (b, c) = read_spec(BufferView { data: p, pos: 0 }, len);
                    (SessionView { buffer: b, sink: Some(id), load: l0 }, e0 + e1, PullView::Copy(c))
                },
                None => (
                    SessionView { sink: None, load: l0, ..s },
                    (e0 + e1).push(Effect::End(id, TokenError::InvalidEncoding)),
                    PullView::Wait,
                ),
            }
        },
    }
}

/// A token pushed by the guest (`None`: the end-of-stream marker). It goes
/// to the open chat's sink; the marker ends that chat. The flag tells
/// whether there was a sink to hand it to.
pub open spec fn push_token_next(s: SessionView, tok: Option<String>) -> (SessionView, Seq<Effect>, bool) {
    match s.sink {
        None => (s, Seq::empty(), false),
        Some(k) => match tok {
            Some(t) => (s, seq![Effect::Token(k, Token { content: t })], true),
            None => (
                SessionView { sink: None, ..s },
                seq![Effect::End(k, TokenError::EndOfSequence)],
                true,
            ),
        },
    }
}

/// An error code pushed by the guest: it ends the open chat with its kind.
pub open spec fn push_error_next(s: SessionView, code: i32) -> (SessionView, Seq<Effect>) {
    match s.sink {
        None => (s, Seq::empty()),
        Some(k) => (SessionView { sink: None, ..s }, seq![Effect::End(k, token_error_spec(code))]),
    }
}

/// The end of a guest run: an open chat is disconnected, a load still owed
/// its acknowledgment fails, and a requested reload is handed back.
pub open spec fn finish_next(s: SessionView) -> (Seq<Effect>, Option<(LoadModel, ReplyId)>) {
    let e1 = match s.sink {
        Some(k) => seq![Effect::Disconnect(k)],
        None => Seq::empty(),
    };
    match s.load {
        Some((LoadModelState::Init, _, a)) => (e1.push(Effect::FailLoad(a)), None),
        Some((LoadModelState::Reload, m, a)) => (e1, Some((m, a))),
        None => (e1, None),
    }
}

impl ChatBotUi {
    /// The transfer buffer is well formed.
    pub closed spec fn wf(&self) -> bool {
        self.current_req.wf()
    }

    /// A session for a load request, owing it its acknowledgment.
    pub fn new(load_module_req: (LoadModel, ReplyId)) -> (r: ChatBotUi)
        ensures
            r.wf(),
            r@ == new_session(load_module_req.0, load_module_req.1),
    {
        ChatBotUi {
            current_req: TransferBuffer::new(),
            token_tx: None,
            load_model_state: Some((LoadModelState::Init, load_module_req.0, load_module_req.1)),
        }
    }

    fn ready(&mut self, out: &mut Vec<Effect>)
        requires
            old(self).wf(),
        ensures
            final(self).wf(),
            final(self)@ == (SessionView { load: ready_next(old(self)@.load).0, ..old(self)@ }),
            final(out)@ == old(out)@ + ready_next(old(self)@.load).1,
    {
        let init = match &self.load_model_state {
            Some((LoadModelState::Init, _, _)) => true,
            _ => false,
        };
        if init {
            match self.load_model_state.take() {
                Some((_, _, a)) => {
                    out.push(Effect::AckLoad(a));
                },
                None => {},
            }
        }
        assert(final(out)@ =~= old(out)@ + ready_next(old(self)@.load).1);
    }

    /// The guest asks for at most `len` bytes of input.
    pub fn pull_input(&mut self, len: usize, out: &mut Vec<Effect>) -> (r: PullOutcome)
        requires
            old(self).wf(),
        ensures
            final(self).wf(),
            ({
                let (s, e, o) = pull_next(old(self)@, len as nat);
                final(self)@ == s && final(out)@ == old(out)@ + e && r@ == o
            }),
    {
        if self.current_req.is_empty() {
            self.ready(out);
            PullOutcome::Wait
        } else {
            let bytes = self.current_req.read(len);
            assert(final(out)@ =~= old(out)@ + Seq::<Effect>::empty());
            PullOutcome::Copy(bytes)
        }
    }

    /// Takes the request that the guest waited for; `len` is the size of the
    /// guest's pull. A model list is answered at once; a load interrupts the
    /// guest run for a reload; a chat is serialized into the transfer buffer,
    /// its sink becomes the open one, and its first bytes are read.
    pub fn accept_request(&mut self, req: Request, len: usize, out: &mut Vec<Effect>) -> (r: PullOutcome)
        requires
            old(self).wf(),
        ensures
            final(self).wf(),
            ({
                let (s, e, o) = accept_next(old(self)@, req, len as nat);
                final(self)@ == s && final(out)@ == old(out)@ + e && r@ == o
            }),
    {
        self.ready(out);
        match req {
            Request::ListModel(id) => {
                out.push(Effect::ListModels(id));
                PullOutcome::Wait
            },
            Request::LoadModel(m, a) => {
                match self.load_model_state.take() {
                    Some((_, _, a0)) => {
                        out.push(Effect::FailLoad(a0));
                    },
                    None => {},
                }
                self.load_model_state = Some((LoadModelState::Reload, m, a));
                assert(final(out)@ =~= old(out)@ + accept_next(old(self)@, req, len as nat).1);
                PullOutcome::Interrupt
            },
            Request::Chat(body, id) => {
                match self.token_tx.take() {
                    Some(k) => {
                        out.push(Effect::Disconnect(k));
                    },
                    None => {},
                }
                match serialize_chat(&body) {
                    Some(bytes) => {
                        self.current_req.load(bytes);
                        self.token_tx = Some(id);
                        let chunk = self.current_req.read(len);
                        assert(final(out)@ =~= old(out)@ + accept_next(old(self)@, req, len as nat).1);
                        PullOutcome::Copy(chunk)
                    },
                    None => {
                        out.push(Effect::End(id, TokenError::InvalidEncoding));
                        assert(final(out)@ =~= old(out)@ + accept_next(old(self)@, req, len as nat).1);
                        PullOutcome::Wait
                    },
                }
            },
        }
    }

    /// The guest pushes a token, or the end-of-stream marker (`None`).
    /// Returns whether there was an open chat to hand it to.
    pub fn push_token(&mut self, token: Option<String>, out: &mut Vec<Effect>) -> (r: bool)
        requires
            old(self).wf(),
        ensures
            final(self).wf(),
            ({
                let (s, e, b) = push_token_next(old(self)@, token);
                final(self)@ == s && final(out)@ == old(out)@ + e && r == b
            }),
    {
        match self.token_tx {
            None => {
                assert(final(out)@ =~= old(out)@ + Seq::<Effect>::empty());
                false
            },
            Some(k) => {
                match token {
                    Some(t) => {
                        out.push(Effect::Token(k, Token { content: t }));
                    },
                    None => {
                        out.push(Effect::End(k, TokenError::EndOfSequence));
                        self.token_tx = None;
                    },
                }
                assert(final(out)@ =~= old(out)@ + push_token_next(old(self)@, token).1);
                true
            },
        }
    }

    /// The guest reports an error by its code: the open chat ends with it.
    pub fn return_token_error(&mut self, code: i32, out: &mut Vec<Effect>)
        requires
            old(self).wf(),
        ensures
            final(self).wf(),
            ({
                let (s, e) = push_error_next(old(self)@, code);
                final(self)@ == s && final(out)@ == old(out)@ + e
            }),
    {
        let kind = token_error_of_code(code);
        match self.token_tx.take() {
            Some(k) => {
                out.push(Effect::End(k, kind));
                assert(final(out)@ =~= old(out)@ + seq![Effect::End(k, kind)]);
            },
            None => {
                assert(final(out)@ =~= old(out)@ + Seq::<Effect>::empty());
            },
        }
    }

    /// Ends the session after its guest run returned, or when the run
    /// could not be started. Returns the load to start next, if the run was
    /// interrupted for one.
    pub fn finish(self, out: &mut Vec<Effect>) -> (r: Option<(LoadModel, ReplyId)>)
        ensures
            ({
                let (e, next) = finish_next(self@);
                final(out)@ == old(out)@ + e && r == next
            }),
    {
        match self.token_tx {
            Some(k) => {
                out.push(Effect::Disconnect(k));
            },
            None => {},
        }
        let r = match self.load_model_state {
            Some((LoadModelState::Init, _, a)) => {
                out.push(Effect::FailLoad(a));
                None
            },
            Some((LoadModelState::Reload, m, a)) => Some((m, a)),
            None => None,
        };
        assert(final(out)@ =~= old(out)@ + finish_next(self@).0);
        r
    }
}

/// The session after successive pulls of the given sizes.
pub open spec fn pull_all(s: SessionView, sizes: Seq<nat>) -> SessionView
    decreases sizes.len(),
{
    if sizes.len() == 0 {
        s
    } else {
        pull_all(pull_next(s, sizes[0]).0, sizes.drop_first())
    }
}

/// The session after the guest pushed the given tokens, and what they caused.
pub open spec fn push_tokens(s: SessionView, toks: Seq<String>) -> (SessionView, Seq<Effect>)
    decreases toks.len(),
{
    if toks.len() == 0 {
        (s, Seq::empty())
    } else {
        let (s1, e1, _) = push_token_next(s, Some(toks[0]));
        let (s2, e2) = push_tokens(s1, toks.drop_first());
        (s2, e1 + e2)
    }
}

/// The guest ends a stream: with the end-of-stream marker (`None`) or with
/// an error code.
pub open spec fn end_stream(s: SessionView, end: Option<i32>) -> (SessionView, Seq<Effect>) {
    match end {
        None => {
            let (s1, e1, _) = push_token_next(s, None);
            (s1, e1)
        },
        Some(code) => push_error_next(s, code),
    }
}

/// The terminal event of a stream ended that way.
pub open spec fn end_kind(end: Option<i32>) -> TokenError {
    match end {
        None => TokenError::EndOfSequence,
        Some(code) => token_error_spec(code),
    }
}

/// The tokens as they reach the sink.
pub open spec fn token_effects(k: ReplyId, toks: Seq<String>) -> Seq<Effect> {
    toks.map_values(|t: String| Effect::Token(k, Token { content: t }))
}

proof fn lemma_pulls_keep_sink(s: SessionView, sizes: Seq<nat>)
    ensures
        pull_all(s, sizes).sink == s.sink,
    decreases sizes.len(),
{
    if sizes.len() > 0 {
        lemma_pulls_keep_sink(pull_next(s, sizes[0]).0, sizes.drop_first());
    }
}

proof fn lemma_tokens_in_order(s: SessionView, k: ReplyId, toks: Seq<String>)
    requires
        s.sink == Some(k),
    ensures
        push_tokens(s, toks).0.sink == Some(k),
        push_tokens(s, toks).1 == token_effects(k, toks),
    decreases toks.len(),
{
    if toks.len() > 0 {
        let rest = toks.drop_first();
        lemma_tokens_in_order(s, k, rest);
        assert(token_effects(k, toks) =~= seq![Effect::Token(k, Token { content: toks[0] })] + token_effects(k, rest));
    } else {
        assert(token_effects(k, toks) =~= Seq::<Effect>::empty());
    }
}

/// A chat taken during a session opens its sink, which the guest's further
/// pulls leave open; every token that the guest then pushes reaches that
/// sink, in the order pushed; the end of the stream (marker or error code)
/// gives exactly one terminal event after the last token and closes the
/// sink, so that nothing more reaches it.
pub proof fn lemma_chat_stream(
    s: SessionView,
    body: crate::message::ChatBody,
    id: ReplyId,
    len: nat,
    sizes: Seq<nat>,
    toks: Seq<String>,
    end: Option<i32>,
    later: Option<String>,
    code: i32,
)
    requires
        chat_payload(body) is Some,
    ensures
        ({
            let s1 = accept_next(s, Request::Chat(body, id), len).0;
            let s2 = pull_all(s1, sizes);
            let (s3, e3) = push_tokens(s2, toks);
            let (s4, e4) = end_stream(s3, end);
            &&& s1.sink == Some(id)
            &&& s2.sink == Some(id)
            &&& e3 == token_effects(id, toks)
            &&& e4 == seq![Effect::End(id, end_kind(end))]
            &&& s4.sink is None
            &&& push_token_next(s4, later).1.len() == 0
            &&& push_error_next(s4, code).1.len() == 0
        }),
{
    let s1 = accept_next(s, Request::Chat(body, id), len).0;
    lemma_pulls_keep_sink(s1, sizes);
    lemma_tokens_in_order(pull_all(s1, sizes), id, toks);
}

/// A load taken while a chat is open interrupts the guest run without an
/// event for that chat; ending the interrupted run disconnects the chat's
/// sink and hands back the new load, whose session acknowledges it at its
/// first pull.
pub proof fn lemma_load_interrupts_chat(s: SessionView, k: ReplyId, m: LoadModel, a: ReplyId, len: nat)
    requires
        s.sink == Some(k),
    ensures
        ({
            let (s1, e1, o1) = accept_next(s, Request::LoadModel(m, a), len);
            &&& o1 == PullView::Interrupt
            &&& forall|i: int| 0 <= i < e1.len() ==> (#[trigger] e1[i] is AckLoad || e1[i] is FailLoad)
            &&& finish_next(s1) == (seq![Effect::Disconnect(k)], Some((m, a)))
            &&& pull_next(new_session(m, a), len).1 == seq![Effect::AckLoad(a)]
        }),
{
    let (s1, e1, o1) = accept_next(s, Request::LoadModel(m, a), len);
    assert(finish_next(s1).0 =~= seq![Effect::Disconnect(k)]);
}

/// Two loads in a row: the first session acknowledges its load at its first
/// pull (or fails it, if it ends before), the second load interrupts it and
/// is handed back with nothing left owed, and the second session
/// acknowledges its own load. Neither acknowledgment is left pending.
pub proof fn lemma_back_to_back_loads(m1: LoadModel, a1: ReplyId, m2: LoadModel, a2: ReplyId, len: nat)
    ensures
        ({
            let s0 = new_session(m1, a1);
            let (s1, e1, o1) = pull_next(s0, len);
            let (s2, e2, o2) = accept_next(s1, Request::LoadModel(m2, a2), len);
            let (e3, next) = finish_next(s2);
            &&& finish_next(s0) == (seq![Effect::FailLoad(a1)], None::<(LoadModel, ReplyId)>)
            &&& e1 == seq![Effect::AckLoad(a1)] && o1 == PullView::Wait
            &&& e2.len() == 0 && o2 == PullView::Interrupt
            &&& e3.len() == 0 && next == Some((m2, a2))
            &&& pull_next(new_session(m2, a2), len).1 == seq![Effect::AckLoad(a2)]
        }),
{
    let s0 = new_session(m1, a1);
    assert(finish_next(s0).0 =~= seq![Effect::FailLoad(a1)]);
    let (s1, e1, o1) = pull_next(s0, len);
    let (s2, e2, o2) = accept_next(s1, Request::LoadModel(m2, a2), len);
    assert(e2 =~= Seq::<Effect>::empty());
}

/// What successive pulls of the given sizes hand the guest, up to and
/// including the first that finds no bytes left.
pub open spec fn pull_round(s: SessionView, sizes: Seq<nat>) -> Seq<Seq<u8>>
    decreases sizes.len(),
{
    if sizes.len() == 0 {
        Seq::empty()
    } else {
        let (s1, _, o) = pull_next(s, sizes[0]);
        match o {
            PullView::Copy(c) => if c.len() == 0 {
                seq![c]
            } else {
                seq![c] + pull_round(s1, sizes.drop_first())
            },
            _ => Seq::empty(),
        }
    }
}

proof fn lemma_pull_round(s: SessionView, sizes: Seq<nat>)
    requires
        s.buffer.data.len() > 0,
        s.buffer.pos <= s.buffer.data.len(),
        sizes.len() > s.buffer.data.len() - s.buffer.pos,
        forall|i: int| 0 <= i < sizes.len() ==> sizes[i] > 0,
    ensures
        ({
            let r = pull_round(s, sizes);
            &&& r.len() >= 1
            &&& r.last().len() == 0
            &&& concat_chunks(r.drop_last()) == s.buffer.data.subrange(s.buffer.pos as int, s.buffer.data.len() as int)
        }),
    decreases sizes.len(),
{
    let r = pull_round(s, sizes);
    let (s1, _, o) = pull_next(s, sizes[0]);
    let b = s.buffer;
    if b.data.len() - b.pos == 0 {
        assert(r =~= seq![Seq::<u8>::empty()]);
        assert(r.drop_last() =~= Seq::<Seq<u8>>::empty());
        assert(b.data.subrange(b.pos as int, b.data.len() as int) =~= Seq::<u8>::empty());
    } else {
        let c = read_spec(b, sizes[0]).1;
        let rest = sizes.drop_first();
        assert forall|i: int| 0 <= i < rest.len() implies rest[i] > 0 by {
            assert(rest[i] == sizes[i + 1]);
        }
        lemma_pull_round(s1, rest);
        let r1 = pull_round(s1, rest);
        assert(r == seq![c] + r1);
        assert(r.drop_last() =~= seq![c] + r1.drop_last());
        assert((seq![c] + r1.drop_last()).drop_first() =~= r1.drop_last());
        assert(c + s1.buffer.data.subrange(s1.buffer.pos as int, s1.buffer.data.len() as int)
            =~= b.data.subrange(b.pos as int, b.data.len() as int));
    }
}

/// A chat taken at a pull is read back by that pull and the guest's next
/// ones, whatever their positive sizes: the bytes handed over make up
/// exactly the serialized request, and the pull that ends the round hands
/// over nothing.
pub proof fn lemma_chat_read_back(
    s: SessionView,
    body: crate::message::ChatBody,
    id: ReplyId,
    len: nat,
    sizes: Seq<nat>,
)
    requires
        chat_payload(body) is Some,
        len > 0,
        sizes.len() > chat_payload(body)->0.len(),
        forall|i: int| 0 <= i < sizes.len() ==> sizes[i] > 0,
    ensures
        ({
            let p = chat_payload(body)->0;
            let (s1, _, o) = accept_next(s, Request::Chat(body, id), len);
            &&& o is Copy
            &&& (o->Copy_0.len() == 0 ==> p.len() == 0)
            &&& (o->Copy_0.len() > 0 ==> {
                let r = pull_round(s1, sizes);
                &&& r.len() >= 1
                &&& r.last().len() == 0
                &&& o->Copy_0 + concat_chunks(r.drop_last()) == p
            })
        }),
{
    let p = chat_payload(body)->0;
    let (s1, _, o) = accept_next(s, Request::Chat(body, id), len);
    let c0 = o->Copy_0;
    if c0.len() > 0 {
        lemma_pull_round(s1, sizes);
        assert(c0 + p.subrange(s1.buffer.pos as int, p.len() as int) =~= p);
    }
}

/// Whether a token push carries the end-of-stream marker: a null pointer
/// or an empty token.
pub fn is_end_marker(ptr: i32, len: i32) -> (r: bool)
    ensures
        r == (ptr == 0 || len == 0),
{
    ptr == 0 || len == 0
}

/// The status that a token push returns to the guest: 0 where the token
/// reached a listening sink, -1 otherwise, so that the guest may stop
/// generating for a caller that is gone.
pub fn token_status(delivered: bool) -> (r: i32)
    ensures
        r == (if delivered { 0i32 } else { -1i32 }),
{
    if delivered { 0 } else { -1 }
}

} // verus!
