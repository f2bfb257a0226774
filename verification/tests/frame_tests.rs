use rp2040_scheduler::frame::{
    build_initial_frame, CALLEE_SAVED_WORDS, EXCEPTION_FRAME_WORDS, FRAME_BYTES, FRAME_WORDS,
    INITIAL_XPSR,
};

#[test]
fn frame_dimensions() {
    assert_eq!(CALLEE_SAVED_WORDS + EXCEPTION_FRAME_WORDS, FRAME_WORDS);
    assert_eq!(FRAME_WORDS * 4, FRAME_BYTES);
}

#[test]
fn initial_frame_words() {
    let entry: u32 = 0x1000_0201;
    let arg: u32 = 0xdead_beef;
    let f = build_initial_frame(entry, arg);
    assert_eq!(f.len(), FRAME_WORDS);
    // callee-saved block: r8-r11 then r4-r7, all zero
    for i in 0..8 {
        assert_eq!(f[i], 0);
    }
    // exception frame: r0 = arg, r1-r3 and r12 zero, lr zero, pc = entry,
    // xpsr = thumb state
    assert_eq!(f[8], arg);
    for i in 9..13 {
        assert_eq!(f[i], 0);
    }
    assert_eq!(f[13], 0);
    assert_eq!(f[14], entry);
    assert_eq!(f[15], INITIAL_XPSR);
    assert_eq!(f[15], 0x0100_0000);
}
