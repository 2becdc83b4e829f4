//! x86-64 machine code for the inline hooks: jumps, the argument loader,
//! trampolines and stubs, the bytes patched over a hooked entry and the
//! bytes that undo it. Writing them into memory is the caller's part.

use vstd::prelude::*;

verus! {

/// `v` as `n` little-endian bytes (`v` taken modulo 256^n).
pub open spec fn le_bytes(v: int, n: nat) -> Seq<u8>
    decreases n,
{
    if n == 0 {
        seq![]
    } else {
        seq![(v % 256) as u8] + le_bytes(v / 256, (n - 1) as nat)
    }
}

/// The number whose little-endian bytes are `b`.
pub open spec fn le_value(b: Seq<u8>) -> int
    decreases b.len(),
{
    if b.len() == 0 {
        0
    } else {
        b[0] + 256 * le_value(b.drop_first())
    }
}

pub open spec fn pow256(n: nat) -> int
    decreases n,
{
    if n == 0 {
        1
    } else {
        256 * pow256((n - 1) as nat)
    }
}

/// Little-endian bytes read back give the value modulo 256^n.
pub proof fn law_le_roundtrip(v: int, n: nat)
    requires
        v >= 0,
    ensures
        le_bytes(v, n).len() == n,
        le_value(le_bytes(v, n)) == v % pow256(n),
    decreases n,
{
    if n > 0 {
        law_le_roundtrip(v / 256, (n - 1) as nat);
        let b = le_bytes(v, n);
        assert(b.drop_first() =~= le_bytes(v / 256, (n - 1) as nat));
        let p = pow256((n - 1) as nat);
        assert(p > 0) by {
            lemma_pow256_pos((n - 1) as nat);
        }
        vstd::arithmetic::div_mod::lemma_breakdown(v, 256, p);
        assert(pow256(n) == 256 * p);
    }
}

proof fn lemma_pow256_pos(n: nat)
    ensures
        pow256(n) > 0,
    decreases n,
{
    if n > 0 {
        lemma_pow256_pos((n - 1) as nat);
    }
}

fn push_le(out: &mut Vec<u8>, v: u64, n: usize)
    requires
        n <= 8,
    ensures
        final(out)@ == old(out)@ + le_bytes(v as int, n as nat),
{
    let ghost start = out@;
    let mut cur = v;
    let mut i: usize = 0;
    while i < n
        invariant
            i <= n,
            out@ + le_bytes(cur as int, (n - i) as nat) == start + le_bytes(v as int, n as nat),
        decreases n - i,
    {
        let ghost before = out@;
        assert(le_bytes(cur as int, (n - i) as nat) =~= seq![(cur % 256) as u8] + le_bytes(
            (cur / 256) as int,
            (n - i - 1) as nat,
        ));
        out.push((cur % 256) as u8);
        assert(out@ + le_bytes((cur / 256) as int, (n - i - 1) as nat) =~= before + le_bytes(
            cur as int,
            (n - i) as nat,
        ));
        cur = cur / 256;
        i += 1;
    }
    assert(le_bytes(cur as int, 0) =~= Seq::<u8>::empty());
    assert(out@ =~= start + le_bytes(v as int, n as nat));
}

fn push_all(out: &mut Vec<u8>, b: &[u8])
    ensures
        final(out)@ == old(out)@ + b@,
{
    let ghost start = out@;
    let mut i: usize = 0;
    while i < b.len()
        invariant
            i <= b@.len(),
            out@ == start + b@.take(i as int),
        decreases b.len() - i,
    {
        out.push(b[i]);
        i += 1;
        assert(out@ =~= start + b@.take(i as int));
    }
    assert(b@.take(b@.len() as int) =~= b@);
}

/// `mov rax, imm64 dst; jmp rax`.
pub open spec fn spec_abs_jmp(dst: u64) -> Seq<u8> {
    seq![0x48u8, 0xB8u8] + le_bytes(dst as int, 8) + seq![0xFFu8, 0xE0u8]
}

/// 12-byte absolute jump: `mov rax, dst; jmp rax`.
pub fn abs_jmp(dst: u64) -> (v: Vec<u8>)
    ensures
        v@ == spec_abs_jmp(dst),
{
    let mut v: Vec<u8> = Vec::new();
    v.push(0x48);
    v.push(0xB8);
    push_le(&mut v, dst, 8);
    v.push(0xFF);
    v.push(0xE0);
    assert(v@ =~= spec_abs_jmp(dst));
    v
}

/// The displacement of a rel32 jump at `from` to `to`: `to - (from + 5)`, wrapped to 32 bits.
pub open spec fn rel32(from: u64, to: u64) -> int {
    (to - (from + 5)) % 0x1_0000_0000
}

/// `jmp rel32`.
pub open spec fn spec_rel_jmp(from: u64, to: u64) -> Seq<u8> {
    seq![0xE9u8] + le_bytes(rel32(from, to), 4)
}

/// 5-byte E9 rel32 jump from `from` to `to` (both must be within ±2GB).
pub fn rel_jmp(from: u64, to: u64) -> (v: Vec<u8>)
    ensures
        v@ == spec_rel_jmp(from, to),
{
    let w = from.wrapping_add(5);
    let d = to.wrapping_sub(w);
    let d32 = (d % 0x1_0000_0000) as u32;
    proof {
        let x: int = to as int - (from as int + 5);
        let big: int = 0x1_0000_0000_0000_0000;
        let j: int = if from as int + 5 > u64::MAX as int {
            if (to as int) - (w as int) < 0 {
                2
            } else {
                1
            }
        } else {
            if (to as int) - (w as int) < 0 {
                1
            } else {
                0
            }
        };
        assert(d as int == x + big * j);
        assert(big * j == 0x1_0000_0000 * (0x1_0000_0000 * j));
        vstd::arithmetic::div_mod::lemma_mod_multiples_vanish(0x1_0000_0000 * j, x, 0x1_0000_0000);
        assert(d32 == rel32(from, to));
    }
    let mut v: Vec<u8> = Vec::new();
    v.push(0xE9);
    push_le(&mut v, d32 as u64, 4);
    v
}


/// A 32-bit displacement read as signed.
pub open spec fn signed32(u: int) -> int {
    if u >= 0x8000_0000 {
        u - 0x1_0000_0000
    } else {
        u
    }
}

/// A rel32 jump written at `from` lands at `to` when the distance fits in ±2GB.
pub proof fn law_rel_jmp_lands(from: u64, to: u64)
    requires
        -0x8000_0000 <= to - (from + 5) < 0x8000_0000,
    ensures
        spec_rel_jmp(from, to).len() == 5,
        from + 5 + signed32(le_value(spec_rel_jmp(from, to).subrange(1, 5))) == to,
{
    let r = rel32(from, to);
    let x = to - (from + 5);
    law_le_roundtrip(r, 4);
    reveal_with_fuel(pow256, 5);
    assert(pow256(4) == 0x1_0000_0000);
    assert(spec_rel_jmp(from, to).subrange(1, 5) =~= le_bytes(r, 4));
    if x >= 0 {
        assert(r == x);
    } else {
        assert(r == x + 0x1_0000_0000);
    }
    assert(r % 0x1_0000_0000 == r);
}

/// The absolute jump carries its destination in bytes 2..10.
pub proof fn law_abs_jmp_target(dst: u64)
    ensures
        spec_abs_jmp(dst).len() == 12,
        le_value(spec_abs_jmp(dst).subrange(2, 10)) == dst,
{
    law_le_roundtrip(dst as int, 8);
    reveal_with_fuel(pow256, 9);
    assert(pow256(8) == 0x1_0000_0000_0000_0000);
    assert((dst as int) % 0x1_0000_0000_0000_0000 == dst);
    assert(spec_abs_jmp(dst).subrange(2, 10) =~= le_bytes(dst as int, 8));
}

/// Where the hooked function's glyph-buffer object is on entry.
#[derive(Clone, Copy, Debug, PartialEq, Eq)]
pub struct ArgLoc {
    /// register (0=rcx,1=rdx,2=r8,3=r9) or -1 for a stack slot
    pub reg: i8,
    /// stack slot index (1-based arg number) when reg<0 → [rsp+0x28+(n-5)*8]
    pub stack_arg: i8,
}

/// The stack displacement of argument `n` (5 and up) on entry: `0x28 + (n - 5) * 8`.
pub open spec fn stack_arg_disp(n: i8) -> int {
    0x28 + (n - 5) * 8
}

/// Load r10 with the selected argument.
pub open spec fn spec_load_arg(arg: ArgLoc) -> Seq<u8> {
    if arg.reg >= 0 {
        if arg.reg == 0 {
            seq![0x49u8, 0x89u8, 0xCAu8]
        } else if arg.reg == 1 {
            seq![0x49u8, 0x89u8, 0xD2u8]
        } else if arg.reg == 2 {
            seq![0x4Du8, 0x89u8, 0xC2u8]
        } else {
            seq![0x4Du8, 0x89u8, 0xCAu8]
        }
    } else {
        let off = stack_arg_disp(arg.stack_arg);
        if off <= 0x7F {
            seq![0x4Cu8, 0x8Bu8, 0x54u8, 0x24u8, off as u8]
        } else {
            seq![0x4Cu8, 0x8Bu8, 0x94u8, 0x24u8, (off % 256) as u8, ((off / 256) % 256) as u8, 0u8, 0u8]
        }
    }
}

/// `mov r10, <argument>`: `rcx`/`rdx`/`r8`/`r9` for `reg` 0..=3 (3 and above:
/// `r9`), else the stack slot `[rsp + 0x28 + (stack_arg - 5) * 8]`.
pub fn load_arg(arg: ArgLoc) -> (v: Vec<u8>)
    requires
        arg.reg >= 0 || arg.stack_arg >= 5,
    ensures
        v@ == spec_load_arg(arg),
{
    if arg.reg >= 0 {
        let m = if arg.reg == 0 {
            vec![0x49, 0x89, 0xCA]
        } else if arg.reg == 1 {
            vec![0x49, 0x89, 0xD2]
        } else if arg.reg == 2 {
            vec![0x4D, 0x89, 0xC2]
        } else {
            vec![0x4D, 0x89, 0xCA]
        };
        m
    } else {
        let n = arg.stack_arg;
        let off: u32 = 0x28u32 + ((n as i32) - 5) as u32 * 8;
        assert(off == stack_arg_disp(n));
        if off <= 0x7F {
            vec![0x4C, 0x8B, 0x54, 0x24, off as u8]
        } else {
            let lo = (off % 256) as u8;
            let hi = (off / 256) as u8;
            vec![0x4C, 0x8B, 0x94, 0x24, lo, hi, 0, 0]
        }
    }
}


/// `[rsp+0x20..0x40] = rcx, rdx, r8, r9`.
pub open spec fn spec_save_args() -> Seq<u8> {
    seq![
        0x48u8, 0x89u8, 0x4Cu8, 0x24u8, 0x20u8,
        0x48u8, 0x89u8, 0x54u8, 0x24u8, 0x28u8,
        0x4Cu8, 0x89u8, 0x44u8, 0x24u8, 0x30u8,
        0x4Cu8, 0x89u8, 0x4Cu8, 0x24u8, 0x38u8,
    ]
}

/// `rcx, rdx, r8, r9 = [rsp+0x20..0x40]`.
pub open spec fn spec_restore_args() -> Seq<u8> {
    seq![
        0x48u8, 0x8Bu8, 0x4Cu8, 0x24u8, 0x20u8,
        0x48u8, 0x8Bu8, 0x54u8, 0x24u8, 0x28u8,
        0x4Cu8, 0x8Bu8, 0x44u8, 0x24u8, 0x30u8,
        0x4Cu8, 0x8Bu8, 0x4Cu8, 0x24u8, 0x38u8,
    ]
}

fn push_save_args(v: &mut Vec<u8>)
    ensures
        final(v)@ == old(v)@ + spec_save_args(),
{
    let a: [u8; 20] = [
        0x48, 0x89, 0x4C, 0x24, 0x20,
        0x48, 0x89, 0x54, 0x24, 0x28,
        0x4C, 0x89, 0x44, 0x24, 0x30,
        0x4C, 0x89, 0x4C, 0x24, 0x38,
    ];
    push_all(v, &a);
    assert(a@ =~= spec_save_args());
}

fn push_restore_args(v: &mut Vec<u8>)
    ensures
        final(v)@ == old(v)@ + spec_restore_args(),
{
    let a: [u8; 20] = [
        0x48, 0x8B, 0x4C, 0x24, 0x20,
        0x48, 0x8B, 0x54, 0x24, 0x28,
        0x4C, 0x8B, 0x44, 0x24, 0x30,
        0x4C, 0x8B, 0x4C, 0x24, 0x38,
    ];
    push_all(v, &a);
    assert(a@ =~= spec_restore_args());
}

/// The self-hook stub: load the argument into r10, save the argument
/// registers, call `callback(r10)`, restore them, jump to the trampoline.
pub open spec fn spec_selfhook_stub(arg: ArgLoc, callback: u64, tramp: u64) -> Seq<u8> {
    spec_load_arg(arg) + seq![0x48u8, 0x83u8, 0xECu8, 0x48u8] + spec_save_args() + seq![
        0x4Cu8,
        0x89u8,
        0xD1u8,
        0x48u8,
        0xB8u8,
    ] + le_bytes(callback as int, 8) + seq![0xFFu8, 0xD0u8] + spec_restore_args() + seq![
        0x48u8,
        0x83u8,
        0xC4u8,
        0x48u8,
    ] + spec_abs_jmp(tramp)
}

pub fn selfhook_stub(arg: ArgLoc, callback: u64, tramp: u64) -> (v: Vec<u8>)
    requires
        arg.reg >= 0 || arg.stack_arg >= 5,
    ensures
        v@ == spec_selfhook_stub(arg, callback, tramp),
{
    let mut s = load_arg(arg);
    push_all(&mut s, &[0x48, 0x83, 0xEC, 0x48]);
    push_save_args(&mut s);
    push_all(&mut s, &[0x4C, 0x89, 0xD1, 0x48, 0xB8]);
    push_le(&mut s, callback, 8);
    push_all(&mut s, &[0xFF, 0xD0]);
    push_restore_args(&mut s);
    push_all(&mut s, &[0x48, 0x83, 0xC4, 0x48]);
    let j = abs_jmp(tramp);
    push_all(&mut s, j.as_slice());
    assert(s@ =~= spec_selfhook_stub(arg, callback, tramp));
    s
}

/// `mov rdx, [rsp+0x20 + 8*arg]` for the saved argument register `arg`
/// (0 = rcx, 1 = rdx, 2 = r8, others r9).
pub open spec fn spec_arg_load(arg: i8) -> Seq<u8> {
    if arg == 0 {
        seq![0x48u8, 0x8Bu8, 0x54u8, 0x24u8, 0x20u8]
    } else if arg == 1 {
        seq![0x48u8, 0x8Bu8, 0x54u8, 0x24u8, 0x28u8]
    } else if arg == 2 {
        seq![0x48u8, 0x8Bu8, 0x54u8, 0x24u8, 0x30u8]
    } else {
        seq![0x48u8, 0x8Bu8, 0x54u8, 0x24u8, 0x38u8]
    }
}

pub fn arg_load(arg: i8) -> (v: Vec<u8>)
    ensures
        v@ == spec_arg_load(arg),
{
    if arg == 0 {
        vec![0x48, 0x8B, 0x54, 0x24, 0x20]
    } else if arg == 1 {
        vec![0x48, 0x8B, 0x54, 0x24, 0x28]
    } else if arg == 2 {
        vec![0x48, 0x8B, 0x54, 0x24, 0x30]
    } else {
        vec![0x48, 0x8B, 0x54, 0x24, 0x38]
    }
}

/// `mov rdx, [rsp+0x50]`: the caller's return address after `sub rsp,0x50`.
pub fn ret_addr_load() -> (v: Vec<u8>)
    ensures
        v@ == seq![0x48u8, 0x8Bu8, 0x54u8, 0x24u8, 0x50u8],
{
    vec![0x48, 0x8B, 0x54, 0x24, 0x50]
}

/// The capture stub up to its final jump: save the argument registers, call
/// `callback(tag, rdx)` with `rdx` loaded by `rdx_load`, restore them.
pub open spec fn spec_capture_body(tag: u32, rdx_load: Seq<u8>, callback: u64) -> Seq<u8> {
    seq![0x48u8, 0x83u8, 0xECu8, 0x50u8] + spec_save_args() + seq![0x48u8, 0xB9u8] + le_bytes(
        tag as int,
        8,
    ) + rdx_load + seq![0x48u8, 0xB8u8] + le_bytes(callback as int, 8) + seq![0xFFu8, 0xD0u8]
        + spec_restore_args() + seq![0x48u8, 0x83u8, 0xC4u8, 0x50u8]
}

pub fn capture_body(tag: u32, rdx_load: &Vec<u8>, callback: u64) -> (v: Vec<u8>)
    ensures
        v@ == spec_capture_body(tag, rdx_load@, callback),
        rdx_load@.len() == 5 ==> v@.len() == 75,
{
    let mut s: Vec<u8> = Vec::new();
    push_all(&mut s, &[0x48, 0x83, 0xEC, 0x50]);
    push_save_args(&mut s);
    push_all(&mut s, &[0x48, 0xB9]);
    push_le(&mut s, tag as u64, 8);
    push_all(&mut s, rdx_load.as_slice());
    push_all(&mut s, &[0x48, 0xB8]);
    push_le(&mut s, callback, 8);
    push_all(&mut s, &[0xFF, 0xD0]);
    push_restore_args(&mut s);
    push_all(&mut s, &[0x48, 0x83, 0xC4, 0x50]);
    proof {
        reveal_with_fuel(le_bytes, 9);
    }
    assert(s@ =~= spec_capture_body(tag, rdx_load@, callback));
    s
}

/// The four-instruction block of `s` at `rs` reloads, slot for slot, what
/// the block at `sv` saved: the save block stores rcx, rdx, r8, r9 (`mov
/// [rsp+d], reg`, opcode 0x89) at `d` = 0x20, 0x28, 0x30, 0x38, and each
/// instruction of the reload block is the save instruction with the move's
/// direction flipped (opcode 0x8B), the same register and the same slot.
pub open spec fn reloads_saved_args(s: Seq<u8>, sv: int, rs: int) -> bool {
    &&& 0 <= sv && sv + 20 <= s.len()
    &&& 0 <= rs && rs + 20 <= s.len()
    &&& forall|k: int|
        0 <= k < 4 ==> {
            &&& #[trigger] s[sv + 5 * k + 1] == 0x89u8
            &&& s[sv + 5 * k + 4] == 0x20 + 8 * k
            &&& s.subrange(rs + 5 * k, rs + 5 * k + 5) == s.subrange(sv + 5 * k, sv + 5 * k + 5).update(
                1,
                0x8Bu8,
            )
        }
}

proof fn lemma_reloads_saved_args(s: Seq<u8>, sv: int, rs: int)
    requires
        0 <= sv && sv + 20 <= s.len(),
        0 <= rs && rs + 20 <= s.len(),
        s.subrange(sv, sv + 20) == spec_save_args(),
        s.subrange(rs, rs + 20) == spec_restore_args(),
    ensures
        reloads_saved_args(s, sv, rs),
{
    let a = spec_save_args();
    let b = spec_restore_args();
    assert forall|k: int| 0 <= k < 4 implies {
        &&& #[trigger] s[sv + 5 * k + 1] == 0x89u8
        &&& s[sv + 5 * k + 4] == 0x20 + 8 * k
        &&& s.subrange(rs + 5 * k, rs + 5 * k + 5) == s.subrange(sv + 5 * k, sv + 5 * k + 5).update(
            1,
            0x8Bu8,
        )
    } by {
        assert(s[sv + 5 * k + 1] == a[5 * k + 1]);
        assert(s[sv + 5 * k + 4] == a[5 * k + 4]);
        assert forall|j: int| 0 <= j < 5 implies #[trigger] s[rs + 5 * k + j] == b[5 * k + j]
            && s[sv + 5 * k + j] == a[5 * k + j] by {
            assert(s.subrange(rs, rs + 20)[5 * k + j] == s[rs + 5 * k + j]);
            assert(s.subrange(sv, sv + 20)[5 * k + j] == s[sv + 5 * k + j]);
        }
        if k == 0 {
        } else if k == 1 {
        } else if k == 2 {
        } else {
        }
        assert(s.subrange(rs + 5 * k, rs + 5 * k + 5) =~= s.subrange(sv + 5 * k, sv + 5 * k + 5).update(
            1,
            0x8Bu8,
        ));
    }
}

/// The self-hook stub keeps the hooked function's arguments: after its
/// call it reloads rcx, rdx, r8 and r9 each from the stack slot it saved
/// that register to (the save block follows the argument load and the
/// `sub rsp`; the reload block follows the call).
pub proof fn law_selfhook_stub_keeps_arguments(arg: ArgLoc, callback: u64, tramp: u64)
    ensures
        reloads_saved_args(
            spec_selfhook_stub(arg, callback, tramp),
            spec_load_arg(arg).len() + 4int,
            spec_load_arg(arg).len() + 39int,
        ),
{
    let s = spec_selfhook_stub(arg, callback, tramp);
    let l = spec_load_arg(arg).len() as int;
    law_le_roundtrip(callback as int, 8);
    let a = spec_load_arg(arg) + seq![0x48u8, 0x83u8, 0xECu8, 0x48u8];
    let b = seq![0x4Cu8, 0x89u8, 0xD1u8, 0x48u8, 0xB8u8] + le_bytes(callback as int, 8) + seq![
        0xFFu8,
        0xD0u8,
    ];
    let c = seq![0x48u8, 0x83u8, 0xC4u8, 0x48u8] + spec_abs_jmp(tramp);
    assert(s =~= a + spec_save_args() + b + spec_restore_args() + c);
    assert(s.subrange(l + 4, l + 24) =~= spec_save_args());
    assert(s.subrange(l + 39, l + 59) =~= spec_restore_args());
    lemma_reloads_saved_args(s, l + 4, l + 39);
}

/// The capture stub keeps the hooked function's arguments: after calling
/// the callback it reloads rcx, rdx, r8 and r9 each from the stack slot it
/// saved that register to.
pub proof fn law_capture_body_keeps_arguments(tag: u32, rdx_load: Seq<u8>, callback: u64)
    ensures
        reloads_saved_args(spec_capture_body(tag, rdx_load, callback), 4, 46int + rdx_load.len()),
{
    let s = spec_capture_body(tag, rdx_load, callback);
    let r = rdx_load.len() as int;
    law_le_roundtrip(callback as int, 8);
    law_le_roundtrip(tag as int, 8);
    let b = seq![0x48u8, 0xB9u8] + le_bytes(tag as int, 8) + rdx_load + seq![0x48u8, 0xB8u8]
        + le_bytes(callback as int, 8) + seq![0xFFu8, 0xD0u8];
    assert(s =~= seq![0x48u8, 0x83u8, 0xECu8, 0x50u8] + spec_save_args() + b + spec_restore_args()
        + seq![0x48u8, 0x83u8, 0xC4u8, 0x50u8]);
    assert(s.subrange(4, 24) =~= spec_save_args());
    assert(s.subrange(46 + r, 66 + r) =~= spec_restore_args());
    lemma_reloads_saved_args(s, 4, 46 + r);
}

/// The first `n` entry bytes followed by an absolute jump back to `target + n`.
pub fn trampoline_abs(orig: &[u8], n: usize, target: u64) -> (v: Vec<u8>)
    requires
        n <= orig@.len(),
        target + n <= u64::MAX,
    ensures
        v@ == orig@.take(n as int) + spec_abs_jmp((target + n) as u64),
{
    let mut t: Vec<u8> = Vec::new();
    let mut i: usize = 0;
    while i < n
        invariant
            i <= n <= orig@.len(),
            t@ == orig@.take(i as int),
        decreases n - i,
    {
        t.push(orig[i]);
        i += 1;
        assert(t@ =~= orig@.take(i as int));
    }
    let j = abs_jmp(target + n as u64);
    push_all(&mut t, j.as_slice());
    t
}

/// The first `cap` entry bytes followed by a rel32 jump back to
/// `target + cap`, the trampoline living at `tramp`.
pub fn trampoline_rel(orig: &[u8], cap: usize, tramp: u64, target: u64) -> (v: Vec<u8>)
    requires
        cap <= orig@.len(),
        tramp + cap <= u64::MAX,
        target + cap <= u64::MAX,
    ensures
        v@ == orig@.take(cap as int) + spec_rel_jmp((tramp + cap) as u64, (target + cap) as u64),
{
    let mut t: Vec<u8> = Vec::new();
    let mut i: usize = 0;
    while i < cap
        invariant
            i <= cap <= orig@.len(),
            t@ == orig@.take(i as int),
        decreases cap - i,
    {
        t.push(orig[i]);
        i += 1;
        assert(t@ =~= orig@.take(i as int));
    }
    let j = rel_jmp(tramp + cap as u64, target + cap as u64);
    push_all(&mut t, j.as_slice());
    t
}

/// A boundary hook replays `prologue` bytes, kept within 5..=64.
pub fn boundary_cap(prologue: usize) -> (c: usize)
    ensures
        c == (if prologue < 5 {
            5
        } else if prologue > 64 {
            64
        } else {
            prologue
        }),
{
    if prologue < 5 {
        5
    } else if prologue > 64 {
        64
    } else {
        prologue
    }
}

/// `d[at..]` overwritten by `b`.
pub open spec fn splice(m: Seq<u8>, at: int, b: Seq<u8>) -> Seq<u8> {
    m.take(at) + b + m.skip(at + b.len())
}

/// Writing back the bytes a patch covered restores the memory it was written into.
pub proof fn law_restore_undoes_patch(m: Seq<u8>, at: int, patch: Seq<u8>)
    requires
        0 <= at,
        at + patch.len() <= m.len(),
    ensures
        splice(splice(m, at, patch), at, m.subrange(at, at + patch.len())) == m,
{
    let p1 = splice(m, at, patch);
    let r = m.subrange(at, at + patch.len());
    assert(splice(p1, at, r) =~= m);
}

/// Installing a hook and dropping it, over memory `m` whose bytes at `at`
/// are the entry `orig` that [`hook_patch`] was given: the install writes the
/// patch over the entry and changes no other byte; writing back the restore
/// bytes that [`hook_patch`] keeps (`orig`'s first `patch.len()` bytes) gives
/// `m` back. The self-hook's patch is [`spec_abs_jmp`] to its stub (12 bytes),
/// a boundary hook's is [`spec_rel_jmp`] to its stub (5 bytes).
pub proof fn law_hook_install_and_drop(m: Seq<u8>, at: int, orig: Seq<u8>, patch: Seq<u8>)
    requires
        0 <= at,
        at + orig.len() <= m.len(),
        m.subrange(at, at + orig.len()) == orig,
        patch.len() <= orig.len(),
    ensures
        splice(m, at, patch).len() == m.len(),
        splice(m, at, patch).subrange(at, at + patch.len()) == patch,
        forall|i: int|
            0 <= i < m.len() && !(at <= i < at + patch.len()) ==> #[trigger] splice(m, at, patch)[i]
                == m[i],
        splice(splice(m, at, patch), at, orig.take(patch.len() as int)) == m,
{
    let p1 = splice(m, at, patch);
    assert(p1.subrange(at, at + patch.len()) =~= patch);
    assert forall|i: int| 0 <= i < m.len() && !(at <= i < at + patch.len()) implies #[trigger] p1[i]
        == m[i] by {
        if i < at {
            assert(p1[i] == m.take(at)[i]);
        } else {
            assert(p1[i] == m.skip(at + patch.len())[i - at - patch.len()]);
        }
    }
    assert(orig.take(patch.len() as int) =~= m.subrange(at, at + patch.len()));
    law_restore_undoes_patch(m, at, patch);
}

/// An installed hook: where it was written, the bytes written, and the
/// entry bytes that undo it.
pub struct HookPatch {
    pub target: u64,
    pub patch: Vec<u8>,
    pub restore: Vec<u8>,
}

/// The patch over a hooked entry and the entry bytes that undo it: the
/// restore bytes are the first `patch.len()` bytes of the entry.
pub fn hook_patch(target: u64, orig: &[u8], patch: Vec<u8>) -> (h: HookPatch)
    requires
        patch@.len() <= orig@.len(),
    ensures
        h.target == target,
        h.patch@ == patch@,
        h.restore@ == orig@.take(patch@.len() as int),
        h.restore@.len() == h.patch@.len(),
{
    let mut r: Vec<u8> = Vec::new();
    let n = patch.len();
    let mut i: usize = 0;
    while i < n
        invariant
            n == patch@.len(),
            i <= n <= orig@.len(),
            r@ == orig@.take(i as int),
        decreases n - i,
    {
        r.push(orig[i]);
        i += 1;
        assert(r@ =~= orig@.take(i as int));
    }
    HookPatch { target, patch, restore: r }
}

/// The first address the near-module allocator tries: the page after
/// `module + 0x1000`, then 64 KiB steps (wrapping).
pub fn alloc_hint(module: u64, i: u64) -> (h: u64)
    requires
        module + 0x1FFF <= u64::MAX,
        i < 4096,
    ensures
        h == ((((module + 0x1FFF) / 4096) * 4096) + i * 0x10000) % 0x1_0000_0000_0000_0000,
{
    let a = module + 0x1FFF;
    let start = a & !0xFFFu64;
    assert(a & !0xFFFu64 == (a / 4096) * 4096) by (bit_vector);
    let step = i * 0x10000;
    let h = start.wrapping_add(step);
    h
}

/// A scratch block is close enough when `|p - module| <= i32::MAX`, so rel32 jumps reach it.
pub fn near_module(p: u64, module: u64) -> (b: bool)
    ensures
        b == (-0x7fff_ffff <= p - module <= 0x7fff_ffff),
{
    if p >= module {
        p - module <= 0x7fff_ffff
    } else {
        module - p <= 0x7fff_ffff
    }
}

// ---------------------------------------------------------------------------
// self-hook capture window
// ---------------------------------------------------------------------------

/// A hook target: its verified offset, prologue, where the glyph-buffer
/// object is, and the glyph-buffer layout.
pub struct HookSpec {
    pub expected_rva: u64,
    pub prologue: Vec<u8>,
    pub arg: ArgLoc,
    /// [obj + off] -> pointer to glyph records
    pub rec_ptr_off: u64,
    /// [obj + off] -> glyph count
    pub count_off: u64,
    /// bytes per glyph record
    pub rec_stride: u64,
    /// u16 glyph id offset within a record
    pub gid_off: u64,
}

#[derive(Clone, Copy, Debug, PartialEq, Eq)]
pub struct GlyphRec {
    pub gid: u16,
    pub extra: u16,
    pub idx: u16,
}

/// One captured state of the glyph buffer.
pub struct SnapEvt {
    pub table: String,
    pub n: u32,
    pub recs: Vec<GlyphRec>,
}

/// The capture window of the self-hook (one per thread).
pub struct CaptureCtx {
    pub active: bool,
    pub table: String,
    pub snaps: Vec<SnapEvt>,
    pub rec_ptr_off: u64,
    pub count_off: u64,
    pub rec_stride: u64,
    pub gid_off: u64,
}

impl CaptureCtx {
    pub fn new() -> (c: CaptureCtx)
        ensures
            !c.active,
            c.table@ == seq!['G', 'S', 'U', 'B'],
            c.snaps@.len() == 0,
            c.rec_ptr_off == 0,
            c.count_off == 0,
            c.rec_stride == 8,
            c.gid_off == 0,
    {
        let t = "GSUB";
        proof {
            reveal_strlit("GSUB");
        }
        CaptureCtx {
            active: false,
            table: t.to_owned(),
            snaps: Vec::new(),
            rec_ptr_off: 0,
            count_off: 0,
            rec_stride: 8,
            gid_off: 0,
        }
    }
}

/// Begin a capture window (called on our own thread before shaping).
pub fn begin(ctx: &mut CaptureCtx, rec_ptr_off: u64, count_off: u64, rec_stride: u64, gid_off: u64)
    ensures
        final(ctx).active,
        final(ctx).snaps@.len() == 0,
        final(ctx).table@ == old(ctx).table@,
        final(ctx).rec_ptr_off == rec_ptr_off,
        final(ctx).count_off == count_off,
        final(ctx).rec_stride == rec_stride,
        final(ctx).gid_off == gid_off,
{
    ctx.active = true;
    ctx.snaps = Vec::new();
    ctx.rec_ptr_off = rec_ptr_off;
    ctx.count_off = count_off;
    ctx.rec_stride = rec_stride;
    ctx.gid_off = gid_off;
}

/// End the capture window: hand back its snapshots, oldest first.
pub fn end(ctx: &mut CaptureCtx) -> (r: Vec<SnapEvt>)
    ensures
        !final(ctx).active,
        r@ == old(ctx).snaps@,
        final(ctx).snaps@.len() == 0,
        final(ctx).table@ == old(ctx).table@,
        final(ctx).rec_ptr_off == old(ctx).rec_ptr_off,
        final(ctx).count_off == old(ctx).count_off,
        final(ctx).rec_stride == old(ctx).rec_stride,
        final(ctx).gid_off == old(ctx).gid_off,
{
    ctx.active = false;
    let mut out: Vec<SnapEvt> = Vec::new();
    std::mem::swap(&mut out, &mut ctx.snaps);
    out
}

/// The glyph ids of a snapshot, in record order.
pub fn snapshot_glyphs(s: &SnapEvt) -> (r: Vec<u16>)
    ensures
        r@.len() == s.recs@.len(),
        forall|i: int| 0 <= i < r@.len() ==> r@[i] == (#[trigger] s.recs@[i]).gid,
{
    let mut r: Vec<u16> = Vec::new();
    let mut i: usize = 0;
    while i < s.recs.len()
        invariant
            i <= s.recs@.len(),
            r@.len() == i,
            forall|j: int| 0 <= j < i ==> r@[j] == (#[trigger] s.recs@[j]).gid,
        decreases s.recs.len() - i,
    {
        r.push(s.recs[i].gid);
        i += 1;
    }
    r
}

/// Whether a hook fire with glyph-buffer object `buf` is read: the window is
/// open and the object pointer is not null.
pub fn lookup_wanted(ctx: &CaptureCtx, buf: u64) -> (b: bool)
    ensures
        b == (ctx.active && buf != 0),
{
    ctx.active && buf != 0
}

/// Whether the records behind the object are read: a non-null record
/// pointer and a count in 1..=8192.
pub fn lookup_count_ok(recptr: u64, count: u64) -> (b: bool)
    ensures
        b == (recptr != 0 && 0 < count <= 8192),
{
    !(recptr == 0 || count == 0 || count > 8192)
}

/// Record a snapshot of `recs` (the `count` records read) in the open window.
pub fn push_snapshot(ctx: &mut CaptureCtx, recs: Vec<GlyphRec>)
    requires
        recs@.len() <= 8192,
    ensures
        final(ctx).snaps@.len() == old(ctx).snaps@.len() + 1,
        forall|i: int| 0 <= i < old(ctx).snaps@.len() ==> final(ctx).snaps@[i] == old(ctx).snaps@[i],
        final(ctx).snaps@.last().table@ == old(ctx).table@,
        final(ctx).snaps@.last().n == recs@.len(),
        final(ctx).snaps@.last().recs@ == recs@,
        final(ctx).active == old(ctx).active,
        final(ctx).table@ == old(ctx).table@,
        final(ctx).rec_ptr_off == old(ctx).rec_ptr_off,
        final(ctx).count_off == old(ctx).count_off,
        final(ctx).rec_stride == old(ctx).rec_stride,
        final(ctx).gid_off == old(ctx).gid_off,
{
    let table = ctx.table.clone();
    let n = recs.len() as u32;
    ctx.snaps.push(SnapEvt { table, n, recs });
}

} // verus!
