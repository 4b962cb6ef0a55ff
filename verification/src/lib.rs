//! Local control-plane core for a desktop AI-chat companion: a verified
//! conversation/message/settings store, a newline-delimited JSON protocol
//! codec, and the dispatcher that maps decoded requests to store operations.

pub mod codec;
pub mod dispatch;
pub mod ext;
pub mod json;
pub mod laws;
pub mod shortcuts;
pub mod store;
pub mod text;
