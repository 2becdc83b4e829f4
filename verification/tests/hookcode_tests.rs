use pyusp::hookcode::{
    abs_jmp, alloc_hint, arg_load, begin, boundary_cap, capture_body, end, hook_patch, load_arg,
    lookup_count_ok, lookup_wanted, near_module, push_snapshot, rel_jmp, ret_addr_load,
    selfhook_stub, snapshot_glyphs, trampoline_abs, trampoline_rel, ArgLoc, CaptureCtx, GlyphRec,
    SnapEvt,
};

#[test]
fn absolute_jump_bytes() {
    assert_eq!(
        abs_jmp(0x1122_3344_5566_7788),
        vec![0x48, 0xB8, 0x88, 0x77, 0x66, 0x55, 0x44, 0x33, 0x22, 0x11, 0xFF, 0xE0]
    );
}

#[test]
fn absolute_jump_carries_its_target() {
    let dst = 0x7FF8_1234_5678_9ABC_u64;
    let j = abs_jmp(dst);
    assert_eq!(j.len(), 12);
    assert_eq!(u64::from_le_bytes(j[2..10].try_into().unwrap()), dst);
}

#[test]
fn relative_jump_bytes() {
    // forward: 0x1000 -> 0x2000: disp = 0x2000 - 0x1005 = 0xFFB
    assert_eq!(rel_jmp(0x1000, 0x2000), vec![0xE9, 0xFB, 0x0F, 0x00, 0x00]);
    // backward: 0x2000 -> 0x1000: disp = -0x1005
    assert_eq!(rel_jmp(0x2000, 0x1000), vec![0xE9, 0xFB, 0xEF, 0xFF, 0xFF]);
    // to the next instruction: disp 0
    assert_eq!(rel_jmp(0x1000, 0x1005), vec![0xE9, 0, 0, 0, 0]);
}

#[test]
fn relative_jump_lands_on_its_target() {
    for (from, to) in [
        (0x7FF0_0000_1000u64, 0x7FF0_7000_0000u64),
        (0x7FF0_7000_0000, 0x7FF0_0000_1000),
        (0x10_0000, 0x10_0010),
    ] {
        let j = rel_jmp(from, to);
        let d = i32::from_le_bytes(j[1..5].try_into().unwrap()) as i64;
        assert_eq!((from as i64) + 5 + d, to as i64);
    }
}

#[test]
fn argument_loads() {
    assert_eq!(load_arg(ArgLoc { reg: 0, stack_arg: 0 }), vec![0x49, 0x89, 0xCA]);
    assert_eq!(load_arg(ArgLoc { reg: 1, stack_arg: 0 }), vec![0x49, 0x89, 0xD2]);
    assert_eq!(load_arg(ArgLoc { reg: 2, stack_arg: 0 }), vec![0x4D, 0x89, 0xC2]);
    assert_eq!(load_arg(ArgLoc { reg: 3, stack_arg: 0 }), vec![0x4D, 0x89, 0xCA]);
    // arg 5 at [rsp+0x28], arg 7 at [rsp+0x38]
    assert_eq!(load_arg(ArgLoc { reg: -1, stack_arg: 5 }), vec![0x4C, 0x8B, 0x54, 0x24, 0x28]);
    assert_eq!(load_arg(ArgLoc { reg: -1, stack_arg: 7 }), vec![0x4C, 0x8B, 0x54, 0x24, 0x38]);
    // arg 17: 0x28 + 12*8 = 0x88 > 0x7F: disp32 form
    assert_eq!(
        load_arg(ArgLoc { reg: -1, stack_arg: 17 }),
        vec![0x4C, 0x8B, 0x94, 0x24, 0x88, 0x00, 0x00, 0x00]
    );
}

#[test]
fn selfhook_stub_layout() {
    let s = selfhook_stub(ArgLoc { reg: 1, stack_arg: 0 }, 0xAABB_CCDD_EEFF_0011, 0x1234);
    assert_eq!(&s[0..3], &[0x49, 0x89, 0xD2]);
    assert_eq!(&s[3..7], &[0x48, 0x83, 0xEC, 0x48]);
    assert_eq!(&s[7..12], &[0x48, 0x89, 0x4C, 0x24, 0x20]);
    assert_eq!(&s[27..32], &[0x4C, 0x89, 0xD1, 0x48, 0xB8]);
    assert_eq!(u64::from_le_bytes(s[32..40].try_into().unwrap()), 0xAABB_CCDD_EEFF_0011);
    assert_eq!(&s[40..42], &[0xFF, 0xD0]);
    assert_eq!(&s[62..66], &[0x48, 0x83, 0xC4, 0x48]);
    assert_eq!(&s[66..], abs_jmp(0x1234).as_slice());
    assert_eq!(s.len(), 78);
}

#[test]
fn saved_argument_loads() {
    assert_eq!(arg_load(0), vec![0x48, 0x8B, 0x54, 0x24, 0x20]);
    assert_eq!(arg_load(1), vec![0x48, 0x8B, 0x54, 0x24, 0x28]);
    assert_eq!(arg_load(2), vec![0x48, 0x8B, 0x54, 0x24, 0x30]);
    assert_eq!(arg_load(3), vec![0x48, 0x8B, 0x54, 0x24, 0x38]);
    assert_eq!(arg_load(-1), vec![0x48, 0x8B, 0x54, 0x24, 0x38]);
    assert_eq!(ret_addr_load(), vec![0x48, 0x8B, 0x54, 0x24, 0x50]);
}

#[test]
fn capture_body_layout() {
    let b = capture_body(7, &ret_addr_load(), 0x1122_3344_5566_7788);
    assert_eq!(b.len(), 75);
    assert_eq!(&b[0..4], &[0x48, 0x83, 0xEC, 0x50]);
    assert_eq!(&b[24..26], &[0x48, 0xB9]);
    assert_eq!(u64::from_le_bytes(b[26..34].try_into().unwrap()), 7);
    assert_eq!(&b[34..39], &[0x48, 0x8B, 0x54, 0x24, 0x50]);
    assert_eq!(&b[39..41], &[0x48, 0xB8]);
    assert_eq!(u64::from_le_bytes(b[41..49].try_into().unwrap()), 0x1122_3344_5566_7788);
    assert_eq!(&b[49..51], &[0xFF, 0xD0]);
    assert_eq!(&b[71..75], &[0x48, 0x83, 0xC4, 0x50]);
}

#[test]
fn trampolines_replay_then_jump_back() {
    let orig = [0x40, 0x53, 0x48, 0x83, 0xEC, 0x20, 0x90, 0x90];
    let t = trampoline_abs(&orig, 6, 0x1000);
    assert_eq!(&t[..6], &orig[..6]);
    assert_eq!(&t[6..], abs_jmp(0x1006).as_slice());
    let r = trampoline_rel(&orig, 5, 0x5000, 0x1000);
    assert_eq!(&r[..5], &orig[..5]);
    assert_eq!(&r[5..], rel_jmp(0x5005, 0x1005).as_slice());
}

#[test]
fn boundary_prologue_is_clamped() {
    assert_eq!(boundary_cap(0), 5);
    assert_eq!(boundary_cap(4), 5);
    assert_eq!(boundary_cap(5), 5);
    assert_eq!(boundary_cap(17), 17);
    assert_eq!(boundary_cap(64), 64);
    assert_eq!(boundary_cap(65), 64);
}

#[test]
fn restoring_a_patch_gives_back_the_entry_bytes() {
    let mut mem: Vec<u8> = (0u8..32).collect();
    let before = mem.clone();
    let at = 8;
    let h = hook_patch(0x1000 + at as u64, &mem[at..], rel_jmp(0x1008, 0x4000));
    assert_eq!(h.target, 0x1008);
    assert_eq!(h.restore, before[at..at + 5].to_vec());
    mem[at..at + h.patch.len()].copy_from_slice(&h.patch);
    assert_ne!(mem, before);
    assert_eq!(&mem[..at], &before[..at]);
    assert_eq!(&mem[at + 5..], &before[at + 5..]);
    mem[at..at + h.restore.len()].copy_from_slice(&h.restore);
    assert_eq!(mem, before);
}

#[test]
fn allocation_hints_and_reach() {
    assert_eq!(alloc_hint(0x7FF8_0000_0000, 0), 0x7FF8_0000_1000);
    assert_eq!(alloc_hint(0x7FF8_0000_0800, 0), 0x7FF8_0000_2000);
    assert_eq!(alloc_hint(0x7FF8_0000_0000, 3), 0x7FF8_0003_1000);
    assert!(near_module(0x7FF8_7FFF_FFFF, 0x7FF8_0000_0000));
    assert!(!near_module(0x7FF8_8000_0000, 0x7FF8_0000_0000));
    assert!(near_module(0x7FF7_8000_0001, 0x7FF8_0000_0000));
    assert!(!near_module(0x7FF7_8000_0000, 0x7FF8_0000_0000));
}

#[test]
fn capture_window() {
    let mut ctx = CaptureCtx::new();
    assert!(!ctx.active);
    assert_eq!(ctx.table, "GSUB");
    assert!(!lookup_wanted(&ctx, 0x1000));
    begin(&mut ctx, 0x10, 0x18, 8, 0);
    assert!(ctx.active);
    assert!(lookup_wanted(&ctx, 0x1000));
    assert!(!lookup_wanted(&ctx, 0));
    assert!(lookup_count_ok(0x2000, 1));
    assert!(lookup_count_ok(0x2000, 8192));
    assert!(!lookup_count_ok(0x2000, 8193));
    assert!(!lookup_count_ok(0x2000, 0));
    assert!(!lookup_count_ok(0, 3));
    push_snapshot(
        &mut ctx,
        vec![GlyphRec { gid: 5, extra: 0, idx: 0 }, GlyphRec { gid: 9, extra: 1, idx: 1 }],
    );
    push_snapshot(&mut ctx, vec![GlyphRec { gid: 12, extra: 0, idx: 0 }]);
    let snaps: Vec<SnapEvt> = end(&mut ctx);
    assert!(!ctx.active);
    assert!(ctx.snaps.is_empty());
    assert_eq!(snaps.len(), 2);
    assert_eq!(snaps[0].table, "GSUB");
    assert_eq!(snaps[0].n, 2);
    assert_eq!(snapshot_glyphs(&snaps[0]), vec![5, 9]);
    assert_eq!(snapshot_glyphs(&snaps[1]), vec![12]);
    assert_eq!(ctx.rec_ptr_off, 0x10);
    assert_eq!(ctx.count_off, 0x18);
}
