//! Task orchestration core: an ordered work queue of tasks, a status
//! lifecycle, a drain-and-execute pass driven by an external reasoning
//! capability, and a bounded short-term/long-term memory journal.
//!
//! The library holds the verified state and decision logic; transport
//! (the backing store connection, the capability endpoint, the schedulers)
//! lives outside and hands plain values in and out.

pub mod codec;
pub mod core_loop;
pub mod llm_client;
pub mod subconscious;
pub mod task;
pub mod task_manager;
