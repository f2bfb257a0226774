//! Core of a cooperative/preemptive multitasking kernel for a single-core
//! microcontroller: process control blocks, a FIFO ready queue, a sleep
//! queue, the scheduling decisions behind voluntary yield, sleep and the
//! periodic timer tick, and the synthesis of initial register frames.
//!
//! The hardware edge (the register save/restore routines, the timer and its
//! interrupt) lives outside this crate; the kernel here is the state machine
//! that decides which process runs next and in what state every process is
//! left.

pub mod frame;
pub mod kernel;
pub mod laws;
pub mod layout;
pub mod process;
pub mod scheduler;
pub mod sleep;
