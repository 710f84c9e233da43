//! The task that owns the guest: what it does with a request while no
//! guest session runs.
use vstd::prelude::*;
use vstd::string::StringExecFns;
use crate::message::{LoadModel, ReplyId, Request, TokenError};
use crate::session::Effect;

verus! {

/// The task that serves requests on the guest's behalf, with the directory
/// that holds the model files.
pub struct WasmBackendManagerTask {
    pub models_dir: String,
}

/// A request taken while no session runs: a model list is answered, a chat
/// fails at once with `BackendNotRun`, and a load starts a session.
pub open spec fn dispatch_next(req: Request) -> (Seq<Effect>, Option<(LoadModel, ReplyId)>) {
    match req {
        Request::ListModel(id) => (seq![Effect::ListModels(id)], None),
        Request::LoadModel(m, a) => (Seq::empty(), Some((m, a))),
        Request::Chat(_, id) => (seq![Effect::End(id, TokenError::BackendNotRun)], None),
    }
}

impl WasmBackendManagerTask {
    /// Handles a request that arrives while no session runs. Returns the
    /// load to start a session for, if the request is one.
    pub fn dispatch(&self, req: Request, out: &mut Vec<Effect>) -> (r: Option<(LoadModel, ReplyId)>)
        ensures
            ({
                let (e, start) = dispatch_next(req);
                final(out)@ == old(out)@ + e && r == start
            }),
    {
        match req {
            Request::ListModel(id) => {
                out.push(Effect::ListModels(id));
                assert(final(out)@ =~= old(out)@ + dispatch_next(req).0);
                None
            },
            Request::LoadModel(m, a) => {
                assert(final(out)@ =~= old(out)@ + dispatch_next(req).0);
                Some((m, a))
            },
            Request::Chat(_, id) => {
                out.push(Effect::End(id, TokenError::BackendNotRun));
                assert(final(out)@ =~= old(out)@ + dispatch_next(req).0);
                None
            },
        }
    }
}

/// The backend's task as the application configures it, reading models from
/// its fixed directory.
pub fn backend_impl() -> (r: WasmBackendManagerTask)
    ensures
        r.models_dir@ == "/home/csh/ai"@,
{
    WasmBackendManagerTask { models_dir: String::from_str("/home/csh/ai") }
}

} // verus!
