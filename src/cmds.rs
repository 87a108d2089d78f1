//! Groups of host operations, each registered by its `init`.

pub mod errors;
pub mod inspect;
pub mod os;
pub mod skynet;
pub mod tls;
