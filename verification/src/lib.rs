//! Verified core of the SingerOS service: name and path checks, the chunked
//! recording protocol, karaoke recording bookkeeping and the browser console
//! state machines.

pub mod text;
pub mod names;
pub mod ids;
pub mod clock;
pub mod sessions;
pub mod order;
pub mod recordings;
pub mod client_log;
pub mod karaoke;
pub mod console;
pub mod upload;
pub mod panel;
pub mod protocol;
pub mod routes;
