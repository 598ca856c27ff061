//! The core of a small source-level debugger, verified function by
//! function: memory patching for breakpoints, the controller of a
//! traced child with its resume protocol, a frame-pointer stack walk,
//! and the session that turns commands into requests.
//!
//! Beside it stand a few small verified pieces of their own: a linked
//! list, one guess of hangman, the ordering of results that come in out
//! of order, and the bookkeeping of a load balancer.

pub mod word;
pub mod tracee;
pub mod ptrace;
pub mod simulated;
pub mod inferior;
pub mod symbols;
pub mod unwinder;
pub mod text;
pub mod debugger_command;
pub mod debugger;
pub mod linked_list;
pub mod hangman;
pub mod parallel_map;
pub mod balancer;
