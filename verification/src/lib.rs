use vstd::prelude::*;

pub mod basis;
pub mod bignat;
pub mod chsh;
pub mod command;
pub mod error;
pub mod event;
pub mod event_loop;
pub mod graph;
pub mod handlers;
pub mod heap;
pub mod measurement;
pub mod measuring;
pub mod node;
pub mod pair;
pub mod postprocess;
pub mod qubit;
pub mod qubit_ref;
pub mod registry;
pub mod scheduling;
pub mod settings;
pub mod state;
pub mod sifting;
pub mod text;

verus! {
} // verus!
