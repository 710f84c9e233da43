//! Host side of a sandboxed language-model guest: the request types, the
//! transfer buffer that carries a serialized chat to the guest, the guest's
//! startup arguments, the model directory scan, and the session state machine
//! that the guest drives through its host functions.
pub mod message;
pub mod transfer;
pub mod json;
pub mod args;
pub mod models;
pub mod session;
pub mod manager;
