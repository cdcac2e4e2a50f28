//! A discrete-event simulation kernel for concurrent hardware-description
//! processes that share one variable store under the two-phase
//! (blocking / non-blocking) update discipline.
//!
//! A design is a list of [`procedure::Procedure`]s. The [`engine::Engine`]
//! owns them together with the value store, the time scheduler
//! ([`timeheap::TimeHeap`]), the wait table ([`waiting::WaitTable`]) and the
//! two queues, and drives the master loop: the active queue is worked off,
//! then the deferred writes are promoted, and only when nothing is left of the
//! instant does the clock move to the earliest scheduled time.
//!
//! What the engine does is stated over a mathematical state machine
//! ([`model::EngineView`]). That the machine keeps its invariant is proved in
//! [`consistency`]; what holds of every step, of every procedure's cursor and
//! of whole runs is proved in [`laws`], [`cursor`] and [`runs`].
//!
//! The library does no input or output. [`text`], [`show`] and [`vcd`] make
//! the text that a caller may print or write to a file.

pub mod procedure;
pub mod cursor;
pub mod text;
pub mod timeheap;
pub mod waiting;
pub mod waking;
pub mod diagnostic;
pub mod model;
pub mod consistency;
pub mod laws;
pub mod runs;
pub mod engine;
pub mod show;
pub mod vcd;
pub mod test_procs;
