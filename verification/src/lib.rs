//! An in-process runtime for a reactive application core.
//!
//! The core is a container for the state of an application's business
//! logic. Synchronous entry points, the controllers, and continuations of
//! background work change the state; after each outermost invocation the
//! core hands the host a view that is derived from the state, and the
//! changes of a ledger of binary resources.
//!
//! The parts, leaf first:
//!
//! * [`signals`]: tells the host that work is waiting.
//! * [`schedule`]: the queue of deferred continuations.
//! * [`resources`]: the reference-counted ledger of binary resources.
//! * [`states`]: the registry of states, with the mutation span and the
//!   record of what was written.
//! * [`async_task`]: the background jobs, kind by kind.
//! * [`services`]: the registry of long-lived collaborators.
//! * [`views`]: the projector from states to the view.
//! * [`client`]: one instance of all of the above.
//! * [`controllers`]: the invoker that runs a controller and commits.
//!
//! Every part is a plain value that is changed through `&mut`: one client is
//! used by one thread at a time, and a host that shares it puts it behind a
//! lock. The effect of each operation is stated over the mathematical
//! content of the part, its view, and the laws that relate the operations
//! are proved next to them.
pub mod async_task;
pub mod client;
pub mod controllers;
pub mod resources;
pub mod schedule;
pub mod services;
pub mod signals;
pub mod states;
pub mod views;
