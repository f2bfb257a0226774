//! The saved-frame layout shared by every way a process can be suspended.
//!
//! A suspended process is nothing but a fixed-format block of sixteen words
//! on its own stack. Low to high memory the block holds the callee-saved
//! register block (saved and restored explicitly by software) and then the
//! exception frame (the part hardware pushes and pops on interrupt entry and
//! exit): `r0` through `r3`, `r12`, the link register, the return address and
//! the status word. Because a voluntary switch, an interrupt-driven switch
//! and initial construction all leave this same shape behind, one restore
//! routine can resume a process no matter how it was suspended.

use vstd::prelude::*;

verus! {

/// Words in the exception frame: `r0`-`r3`, `r12`, `lr`, `pc`, `xpsr`.
pub const EXCEPTION_FRAME_WORDS: usize = 8;

/// Words in the callee-saved block: `r8`-`r11` then `r4`-`r7`.
pub const CALLEE_SAVED_WORDS: usize = 8;

/// Total words of a saved frame.
pub const FRAME_WORDS: usize = 16;

/// Total bytes of a saved frame.
pub const FRAME_BYTES: usize = 64;

/// Status word of a freshly constructed frame: thumb state, no exception.
pub const INITIAL_XPSR: u32 = 0x0100_0000;

/// The sixteen words of a synthesized first-run frame, low to high memory:
/// a zeroed callee-saved block, then an exception frame that hands `arg` to
/// the entry code in `r0` and resumes at `entry`. When this frame is
/// restored, the process appears to be returning from an interrupt straight
/// into `entry(arg)`.
pub open spec fn initial_frame(entry: u32, arg: u32) -> Seq<u32> {
    seq![
        0u32, 0u32, 0u32, 0u32,  // r8-r11
        0u32, 0u32, 0u32, 0u32,  // r4-r7
        arg,  // r0: the entry argument
        0u32, 0u32, 0u32, 0u32,  // r1-r3, r12
        0u32,  // lr: a new process never returns
        entry,  // pc: resume point
        INITIAL_XPSR,  // xpsr
    ]
}

/// Where a synthesized frame sits: at the very top of the new stack, so the
/// saved stack pointer is the stack end minus one frame.
pub open spec fn initial_sp(stack_base: int, stack_size: int) -> int {
    stack_base + stack_size - FRAME_BYTES
}

/// Builds the words of a first-run frame for a process entering at `entry`
/// with argument `arg`. The caller places them, in order, at the new
/// process's saved stack pointer.
pub fn build_initial_frame(entry: u32, arg: u32) -> (f: Vec<u32>)
    ensures
        f@ == initial_frame(entry, arg),
        f@.len() == FRAME_WORDS,
{
    let mut f: Vec<u32> = Vec::new();
    let mut i: usize = 0;
    while i < CALLEE_SAVED_WORDS
        invariant
            i <= CALLEE_SAVED_WORDS,
            f@ =~= Seq::new(i as nat, |k: int| 0u32),
        decreases CALLEE_SAVED_WORDS - i,
    {
        f.push(0u32);
        i = i + 1;
    }
    f.push(arg);
    f.push(0u32);
    f.push(0u32);
    f.push(0u32);
    f.push(0u32);
    f.push(0u32);
    f.push(entry);
    f.push(INITIAL_XPSR);
    proof {
        assert(f@ =~= initial_frame(entry, arg));
    }
    f
}

} // verus!
