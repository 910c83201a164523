//! Message-bus build/run orchestration: a topic broker, a correlation-id
//! allocator, and the client-side build manager, together with the
//! bookkeeping of render passes and rotating GPU buffers.

pub mod uid;
pub mod broker;
pub mod hub;
pub mod textbuffer;
pub mod buildmanager;
pub mod metal;
pub mod pass;
