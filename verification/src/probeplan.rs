//! The reverse-engineering probes around a shape: which hooks a set of probe
//! switches arms, and the reports made from what they recorded.

use vstd::prelude::*;
use crate::sigscan::{hex_digit, hex_digit_of};
use crate::text::str_chars;

verus! {

/// Event tag of a threadpool post (`TpSimpleTryPost`, `TpPostWork`).
pub const TAG_POST: u32 = 1;
/// Event tag of a work allocation (`TpAllocWork`, `CreateThreadpoolWork`, ...).
pub const TAG_ALLOC: u32 = 2;
/// Event tag of `CreateThread`.
pub const TAG_THREAD: u32 = 3;

/// The thread and threadpool entry points hooked by the worker probe:
/// (module, export, argument holding the callback, event tag).
pub fn worker_hook_targets() -> (v: Vec<(&'static str, &'static str, i8, u32)>)
    ensures
        v@.len() == 6,
        v@[0] == ("ntdll.dll", "TpSimpleTryPost", 0i8, TAG_POST),
        v@[1] == ("ntdll.dll", "TpPostWork", 0i8, TAG_POST),
        v@[2] == ("ntdll.dll", "TpAllocWork", 0i8, TAG_ALLOC),
        v@[3] == ("kernel32.dll", "CreateThreadpoolWork", 0i8, TAG_ALLOC),
        v@[4] == ("kernel32.dll", "TrySubmitThreadpoolCallback", 0i8, TAG_ALLOC),
        v@[5] == ("kernel32.dll", "CreateThread", 2i8, TAG_THREAD),
{
    let mut v: Vec<(&'static str, &'static str, i8, u32)> = Vec::new();
    v.push(("ntdll.dll", "TpSimpleTryPost", 0, TAG_POST));
    v.push(("ntdll.dll", "TpPostWork", 0, TAG_POST));
    v.push(("ntdll.dll", "TpAllocWork", 0, TAG_ALLOC));
    v.push(("kernel32.dll", "CreateThreadpoolWork", 0, TAG_ALLOC));
    v.push(("kernel32.dll", "TrySubmitThreadpoolCallback", 0, TAG_ALLOC));
    v.push(("kernel32.dll", "CreateThread", 2, TAG_THREAD));
    v
}

/// TextShaping entries whose fires are counted: (rva, replayable prologue).
pub open spec fn ts_candidates() -> Seq<(u64, usize)> {
    seq![
        (0xad60u64, 5usize),
        (0xc1c0u64, 5usize),
        (0xcc10u64, 5usize),
        (0xcf18u64, 5usize),
        (0x1500u64, 6usize),
        (0x25350u64, 5usize),
        (0x25c40u64, 5usize),
    ]
}

/// gdi32full dispatch-table members whose fires are counted.
pub open spec fn gdi_callees() -> Seq<(u64, usize)> {
    seq![
        (0x4eb50u64, 8usize),
        (0x53b90u64, 7usize),
        (0x4b430u64, 8usize),
        (0x7b950u64, 8usize),
        (0x7a10u64, 5usize),
        (0x29ab0u64, 8usize),
        (0x4b720u64, 5usize),
        (0x4e180u64, 11usize),
        (0x4bb50u64, 8usize),
        (0x57910u64, 5usize),
        (0x4cfb0u64, 8usize),
    ]
}

/// The gdi32full per-glyph tag getters.
pub open spec fn gdi_glyph_getters() -> Seq<(u64, usize)> {
    seq![(0x4b720u64, 5usize), (0x4e180u64, 11usize), (0x4cfb0u64, 8usize)]
}

/// The entries of `s` at `rva`, in order.
pub open spec fn keep_rva(s: Seq<(u64, usize)>, rva: u64) -> Seq<(u64, usize)>
    decreases s.len(),
{
    if s.len() == 0 {
        seq![]
    } else {
        keep_rva(s.drop_last(), rva) + if s.last().0 == rva {
            seq![s.last()]
        } else {
            seq![]
        }
    }
}

/// `s`, or only its entries at `one` when a single RVA is asked for.
pub open spec fn only_rva(s: Seq<(u64, usize)>, one: Option<u64>) -> Seq<(u64, usize)> {
    match one {
        None => s,
        Some(r) => keep_rva(s, r),
    }
}

fn ts_candidate_list() -> (v: Vec<(u64, usize)>)
    ensures
        v@ == ts_candidates(),
{
    let v: Vec<(u64, usize)> = vec![
        (0xad60, 5),
        (0xc1c0, 5),
        (0xcc10, 5),
        (0xcf18, 5),
        (0x1500, 6),
        (0x25350, 5),
        (0x25c40, 5),
    ];
    assert(v@ =~= ts_candidates());
    v
}

fn gdi_callee_list() -> (v: Vec<(u64, usize)>)
    ensures
        v@ == gdi_callees(),
{
    let v: Vec<(u64, usize)> = vec![
        (0x4eb50, 8),
        (0x53b90, 7),
        (0x4b430, 8),
        (0x7b950, 8),
        (0x7a10, 5),
        (0x29ab0, 8),
        (0x4b720, 5),
        (0x4e180, 11),
        (0x4bb50, 8),
        (0x57910, 5),
        (0x4cfb0, 8),
    ];
    assert(v@ =~= gdi_callees());
    v
}

fn gdi_getter_list() -> (v: Vec<(u64, usize)>)
    ensures
        v@ == gdi_glyph_getters(),
{
    let v: Vec<(u64, usize)> = vec![(0x4b720, 5), (0x4e180, 11), (0x4cfb0, 8)];
    assert(v@ =~= gdi_glyph_getters());
    v
}

fn select_rva(s: Vec<(u64, usize)>, one: Option<u64>) -> (v: Vec<(u64, usize)>)
    ensures
        v@ == only_rva(s@, one),
{
    match one {
        None => s,
        Some(r) => {
            let mut v: Vec<(u64, usize)> = Vec::new();
            let mut i: usize = 0;
            while i < s.len()
                invariant
                    i <= s@.len(),
                    v@ == keep_rva(s@.take(i as int), r),
                decreases s.len() - i,
            {
                assert(s@.take(i + 1).drop_last() =~= s@.take(i as int));
                if s[i].0 == r {
                    v.push(s[i]);
                }
                i += 1;
            }
            assert(s@.take(s@.len() as int) =~= s@);
            v
        },
    }
}

/// The probe switches of one shape (set from the environment by the caller).
pub struct ProbeFlags {
    /// Thread and threadpool entry hooks.
    pub worker: bool,
    /// gdi32full callee fire counts.
    pub callee: bool,
    /// gdi32full per-glyph getters, with snapshots of the caller's glyph buffer.
    pub glyph: bool,
    /// Return addresses of the gdi32full per-glyph getters.
    pub ret: bool,
    /// TextShaping candidate fire counts.
    pub ts: bool,
    /// With `ts`: return addresses instead of fire counts.
    pub ts_ret: bool,
    /// The TextShaping apply-driver run capture.
    pub native_run: bool,
    /// With `ts`: only this RVA.
    pub ts_one: Option<u64>,
    /// With `callee`: only this RVA.
    pub callee_one: Option<u64>,
}

/// Which hooks to arm before a shape.
pub enum ProbePlan {
    /// Hook these TextShaping entries: fire counts, or return addresses when `ret`.
    TextShaping { rvas: Vec<(u64, usize)>, ret: bool },
    /// Hook these gdi32full entries for their return addresses.
    GdiReturns { rvas: Vec<(u64, usize)> },
    /// Hook these gdi32full entries for fire counts.
    GdiCallees { rvas: Vec<(u64, usize)> },
    /// Hook the thread and threadpool entry points (once per thread).
    Worker,
    /// Locate and hook the TextShaping apply driver.
    NativeRun,
    /// No probe.
    Nothing,
}

/// The one probe a shape arms: the first switch set among TextShaping,
/// return address, callee or glyph, worker, native run.
pub fn probe_plan(f: &ProbeFlags) -> (p: ProbePlan)
    ensures
        f.ts ==> (p matches ProbePlan::TextShaping { rvas, ret } && rvas@ == only_rva(
            ts_candidates(),
            f.ts_one,
        ) && ret == f.ts_ret),
        !f.ts && f.ret ==> (p matches ProbePlan::GdiReturns { rvas } && rvas@
            == gdi_glyph_getters()),
        !f.ts && !f.ret && (f.callee || f.glyph) ==> (p matches ProbePlan::GdiCallees { rvas }
            && rvas@ == if f.glyph {
            gdi_glyph_getters()
        } else {
            only_rva(gdi_callees(), f.callee_one)
        }),
        !f.ts && !f.ret && !f.callee && !f.glyph && f.worker ==> p is Worker,
        !f.ts && !f.ret && !f.callee && !f.glyph && !f.worker && f.native_run ==> p is NativeRun,
        !f.ts && !f.ret && !f.callee && !f.glyph && !f.worker && !f.native_run ==> p is Nothing,
{
    if f.ts {
        ProbePlan::TextShaping { rvas: select_rva(ts_candidate_list(), f.ts_one), ret: f.ts_ret }
    } else if f.ret {
        ProbePlan::GdiReturns { rvas: gdi_getter_list() }
    } else if f.callee || f.glyph {
        let rvas = if f.glyph {
            gdi_getter_list()
        } else {
            select_rva(gdi_callee_list(), f.callee_one)
        };
        ProbePlan::GdiCallees { rvas }
    } else if f.worker {
        ProbePlan::Worker
    } else if f.native_run {
        ProbePlan::NativeRun
    } else {
        ProbePlan::Nothing
    }
}

/// The hooks that can be placed: a replayable prologue of at least 5 bytes.
pub open spec fn hookable_rvas(s: Seq<(u64, usize)>) -> Seq<(u64, usize)>
    decreases s.len(),
{
    if s.len() == 0 {
        seq![]
    } else {
        hookable_rvas(s.drop_last()) + if s.last().1 >= 5 {
            seq![s.last()]
        } else {
            seq![]
        }
    }
}

/// The entries of `rvas` whose prologue (at least 5 bytes) leaves room for the jump.
pub fn hookable(rvas: &Vec<(u64, usize)>) -> (v: Vec<(u64, usize)>)
    ensures
        v@ == hookable_rvas(rvas@),
{
    let mut v: Vec<(u64, usize)> = Vec::new();
    let mut i: usize = 0;
    while i < rvas.len()
        invariant
            i <= rvas@.len(),
            v@ == hookable_rvas(rvas@.take(i as int)),
        decreases rvas.len() - i,
    {
        assert(rvas@.take(i + 1).drop_last() =~= rvas@.take(i as int));
        if rvas[i].1 >= 5 {
            v.push(rvas[i]);
        }
        i += 1;
    }
    assert(rvas@.take(rvas@.len() as int) =~= rvas@);
    v
}

// ---------------------------------------------------------------------------
// a single RVA from the environment
// ---------------------------------------------------------------------------

/// `str::trim_start_matches("0x")`: every leading `0x` removed.
pub open spec fn strip_0x(s: Seq<char>) -> Seq<char>
    decreases s.len(),
{
    if s.len() >= 2 && s[0] == '0' && s[1] == 'x' {
        strip_0x(s.skip(2))
    } else {
        s
    }
}

pub open spec fn all_hex(d: Seq<char>) -> bool {
    forall|i: int| 0 <= i < d.len() ==> (#[trigger] hex_digit(d[i])) is Some
}

/// The number the hex digits `d` denote.
pub open spec fn hex_value(d: Seq<char>) -> int
    decreases d.len(),
{
    if d.len() == 0 {
        0
    } else {
        16 * hex_value(d.drop_last()) + (hex_digit(d.last())->0 as int)
    }
}

/// `u64::from_str_radix(s.trim_start_matches("0x"), 16)`: an optional `+`,
/// then one or more hex digits denoting at most `u64::MAX`.
pub open spec fn spec_parse_hex_rva(s: Seq<char>) -> Option<u64> {
    let t = strip_0x(s);
    let d = if t.len() > 0 && t[0] == '+' {
        t.drop_first()
    } else {
        t
    };
    if d.len() > 0 && all_hex(d) && hex_value(d) <= u64::MAX {
        Some(hex_value(d) as u64)
    } else {
        None
    }
}

proof fn lemma_hex_value_nonneg(d: Seq<char>)
    requires
        all_hex(d),
    ensures
        hex_value(d) >= 0,
    decreases d.len(),
{
    if d.len() > 0 {
        let t = d.drop_last();
        assert(all_hex(t)) by {
            assert forall|i: int| 0 <= i < t.len() implies (#[trigger] hex_digit(t[i])) is Some by {
                assert(t[i] == d[i]);
            }
        }
        lemma_hex_value_nonneg(t);
    }
}

/// An RVA given as hex text (`1a2b`, `0x1a2b`, `+1A2B`), as the single-RVA
/// probe switches take it.
pub fn parse_hex_rva(s: &str) -> (r: Option<u64>)
    ensures
        r == spec_parse_hex_rva(s@),
{
    let c = str_chars(s);
    let n = c.len();
    let mut i: usize = 0;
    assert(c@.skip(0) =~= c@);
    while i < n && n - i >= 2 && c[i] == '0' && c[i + 1] == 'x'
        invariant
            i <= n,
            n == c@.len(),
            c@ == s@,
            strip_0x(c@) == strip_0x(c@.skip(i as int)),
        decreases n - i,
    {
        assert(c@.skip(i as int).skip(2) =~= c@.skip(i + 2));
        i += 2;
    }
    let ghost t = c@.skip(i as int);
    assert(strip_0x(t) == t);
    if i < n && c[i] == '+' {
        assert(t.drop_first() =~= c@.skip(i + 1));
        i += 1;
    }
    let ghost d = c@.skip(i as int);
    assert(spec_parse_hex_rva(s@) == if d.len() > 0 && all_hex(d) && hex_value(d) <= u64::MAX {
        Some(hex_value(d) as u64)
    } else {
        None::<u64>
    });
    if i == n {
        return None;
    }
    let mut acc: u64 = 0;
    let mut big = false;
    let mut k = i;
    while k < n
        invariant
            i <= k <= n,
            n == c@.len(),
            d == c@.skip(i as int),
            spec_parse_hex_rva(s@) == if d.len() > 0 && all_hex(d) && hex_value(d) <= u64::MAX {
                Some(hex_value(d) as u64)
            } else {
                None::<u64>
            },
            all_hex(c@.subrange(i as int, k as int)),
            !big ==> acc == hex_value(c@.subrange(i as int, k as int)),
            big ==> hex_value(c@.subrange(i as int, k as int)) > u64::MAX,
        decreases n - k,
    {
        let ghost pre = c@.subrange(i as int, k as int);
        let ghost nxt = c@.subrange(i as int, k + 1);
        assert(nxt.drop_last() =~= pre);
        match hex_digit_of(c[k]) {
            None => {
                assert(d[k - i] == c@[k as int]);
                assert(hex_digit(d[k - i]) is None);
                return None;
            },
            Some(x) => {
                proof {
                    lemma_hex_value_nonneg(pre);
                }
                assert(all_hex(nxt)) by {
                    assert forall|j: int| 0 <= j < nxt.len() implies (#[trigger] hex_digit(nxt[j])) is Some by {
                        if j < pre.len() {
                            assert(nxt[j] == pre[j]);
                        }
                    }
                }
                if !big {
                    if acc > 0x0FFF_FFFF_FFFF_FFFF {
                        big = true;
                    } else {
                        acc = acc * 16 + x as u64;
                    }
                }
            },
        }
        k += 1;
    }
    assert(c@.subrange(i as int, n as int) =~= d);
    if big {
        None
    } else {
        Some(acc)
    }
}

// ---------------------------------------------------------------------------
// reports
// ---------------------------------------------------------------------------

/// `addr` relative to the module at `base`, when there is one and `addr` is not below it.
pub fn rva_of(addr: u64, base: u64) -> (r: u64)
    ensures
        r == if base != 0 && addr >= base {
            (addr - base) as u64
        } else {
            addr
        },
{
    if base != 0 && addr >= base {
        addr - base
    } else {
        addr
    }
}

/// A worker-probe callback address inside the 2 MiB window of the module at
/// `base`: its RVA.
pub fn worker_event_rva(addr: u64, base: u64) -> (r: Option<u64>)
    requires
        base != 0 && addr >= base ==> base + 0x200000 <= u64::MAX,
    ensures
        r == if base != 0 && addr >= base && addr < base + 0x200000 {
            Some((addr - base) as u64)
        } else {
            None::<u64>
        },
{
    if base != 0 && addr >= base && addr < base + 0x200000 {
        Some(addr - base)
    } else {
        None
    }
}

pub open spec fn spec_event_name(tag: u32) -> Seq<char> {
    if tag == TAG_POST {
        "post"@
    } else if tag == TAG_ALLOC {
        "alloc"@
    } else if tag == TAG_THREAD {
        "thread"@
    } else {
        "?"@
    }
}

/// What a worker-probe event tag stands for.
pub fn event_name(tag: u32) -> (r: &'static str)
    ensures
        r@ == spec_event_name(tag),
{
    if tag == TAG_POST {
        "post"
    } else if tag == TAG_ALLOC {
        "alloc"
    } else if tag == TAG_THREAD {
        "thread"
    } else {
        "?"
    }
}

/// Length of the NUL-terminated name in `buf` (all of it when there is no NUL).
pub fn c_str_len(buf: &[u8]) -> (n: usize)
    ensures
        n <= buf@.len(),
        forall|j: int| 0 <= j < n ==> buf@[j] != 0,
        n < buf@.len() ==> buf@[n as int] == 0,
{
    let mut n: usize = 0;
    while n < buf.len() && buf[n] != 0
        invariant
            n <= buf@.len(),
            forall|j: int| 0 <= j < n ==> buf@[j] != 0,
        decreases buf.len() - n,
    {
        n += 1;
    }
    n
}

/// Length of `s` without its trailing zeros.
pub open spec fn nonzero_prefix(s: Seq<u16>) -> int
    decreases s.len(),
{
    if s.len() == 0 {
        0
    } else if s.last() != 0 {
        s.len() as int
    } else {
        nonzero_prefix(s.drop_last())
    }
}

/// How much of a zero-padded glyph snapshot is shown: up to its last non-zero unit.
pub fn nonzero_len(snap: &Vec<u16>) -> (n: usize)
    ensures
        n == nonzero_prefix(snap@),
{
    let mut n = snap.len();
    assert(snap@.take(n as int) =~= snap@);
    while n > 0 && snap[n - 1] == 0
        invariant
            n <= snap@.len(),
            nonzero_prefix(snap@) == nonzero_prefix(snap@.take(n as int)),
        decreases n,
    {
        assert(snap@.take(n as int).drop_last() =~= snap@.take(n - 1));
        n -= 1;
    }
    proof {
        if n > 0 {
            assert(snap@.take(n as int).last() == snap@[n - 1]);
        }
    }
    n
}

fn same_u16s(a: &Vec<u16>, b: &Vec<u16>) -> (r: bool)
    ensures
        r == (a@ == b@),
{
    if a.len() != b.len() {
        return false;
    }
    let mut i: usize = 0;
    while i < a.len()
        invariant
            a@.len() == b@.len(),
            i <= a@.len(),
            forall|j: int| 0 <= j < i ==> a@[j] == b@[j],
        decreases a.len() - i,
    {
        if a[i] != b[i] {
            return false;
        }
        i += 1;
    }
    assert(a@ =~= b@);
    true
}

/// State `i` of a sequence of snapshots differs from the one before it (the
/// first always does).
pub open spec fn changed_at(states: Seq<Vec<u16>>, i: int) -> bool {
    i == 0 || states[i]@ != states[i - 1]@
}

/// The positions at which the state changes, ascending.
pub open spec fn spec_changes(states: Seq<Vec<u16>>) -> Seq<usize>
    decreases states.len(),
{
    if states.len() == 0 {
        seq![]
    } else {
        spec_changes(states.drop_last()) + if changed_at(states, states.len() - 1) {
            seq![(states.len() - 1) as usize]
        } else {
            seq![]
        }
    }
}

/// The snapshots that differ from the one before them (the distinct
/// consecutive states), by position.
pub fn state_changes(states: &Vec<Vec<u16>>) -> (r: Vec<usize>)
    ensures
        r@ == spec_changes(states@),
{
    let mut r: Vec<usize> = Vec::new();
    let mut i: usize = 0;
    while i < states.len()
        invariant
            i <= states@.len(),
            r@ == spec_changes(states@.take(i as int)),
        decreases states.len() - i,
    {
        let ghost pre = states@.take(i as int);
        let ghost nxt = states@.take(i + 1);
        assert(nxt.drop_last() =~= pre);
        let changed = if i == 0 {
            true
        } else {
            !same_u16s(&states[i - 1], &states[i])
        };
        assert(changed == changed_at(nxt, i as int));
        if changed {
            r.push(i);
        }
        i += 1;
    }
    assert(states@.take(states@.len() as int) =~= states@);
    r
}

// ---------------------------------------------------------------------------
// tallies, in key order
// ---------------------------------------------------------------------------

/// How often `k` occurs in `s`.
pub open spec fn count_of(s: Seq<(u64, u64)>, k: (u64, u64)) -> nat
    decreases s.len(),
{
    if s.len() == 0 {
        0
    } else {
        count_of(s.drop_last(), k) + if s.last() == k {
            1nat
        } else {
            0nat
        }
    }
}

/// Lexicographic order on pairs.
pub open spec fn key_lt(a: (u64, u64), b: (u64, u64)) -> bool {
    a.0 < b.0 || (a.0 == b.0 && a.1 < b.1)
}

/// `rows` counts the keys of `keys`: every key once, ascending, with its count.
pub open spec fn tally_of(rows: Seq<((u64, u64), u32)>, keys: Seq<(u64, u64)>) -> bool {
    &&& forall|i: int, j: int| 0 <= i < j < rows.len() ==> key_lt(#[trigger] rows[i].0, #[trigger] rows[j].0)
    &&& forall|i: int| 0 <= i < rows.len() ==> (#[trigger] rows[i]).1 == count_of(keys, rows[i].0)
        && rows[i].1 > 0
    &&& forall|k: (u64, u64)| count_of(keys, k) > 0 ==> exists|i: int| 0 <= i < rows.len() && (
    #[trigger] rows[i]).0 == k
}

proof fn lemma_count_le(s: Seq<(u64, u64)>, k: (u64, u64))
    ensures
        count_of(s, k) <= s.len(),
    decreases s.len(),
{
    if s.len() > 0 {
        lemma_count_le(s.drop_last(), k);
    }
}

/// Count the keys: one row per key, in ascending key order.
pub fn tally_keys(keys: &Vec<(u64, u64)>) -> (rows: Vec<((u64, u64), u32)>)
    requires
        keys@.len() <= u32::MAX,
    ensures
        tally_of(rows@, keys@),
{
    let mut rows: Vec<((u64, u64), u32)> = Vec::new();
    let mut i: usize = 0;
    while i < keys.len()
        invariant
            i <= keys@.len(),
            keys@.len() <= u32::MAX,
            tally_of(rows@, keys@.take(i as int)),
        decreases keys.len() - i,
    {
        let x = keys[i];
        let ghost pre = keys@.take(i as int);
        let ghost nxt = keys@.take(i + 1);
        assert(nxt.drop_last() =~= pre);
        assert(nxt.last() == x);
        let mut k: usize = 0;
        while k < rows.len() && (rows[k].0.0 < x.0 || (rows[k].0.0 == x.0 && rows[k].0.1 < x.1))
            invariant
                k <= rows@.len(),
                forall|j: int| 0 <= j < k ==> key_lt(#[trigger] rows@[j].0, x),
            decreases rows.len() - k,
        {
            k += 1;
        }
        let ghost old_rows = rows@;
        if k < rows.len() && rows[k].0.0 == x.0 && rows[k].0.1 == x.1 {
            let c = rows[k].1;
            proof {
                lemma_count_le(pre, x);
            }
            rows.set(k, (x, c + 1));
            assert forall|y: (u64, u64)| count_of(nxt, y) > 0 implies exists|j: int|
                0 <= j < rows@.len() && (#[trigger] rows@[j]).0 == y by {
                if y == x {
                    assert(rows@[k as int].0 == y);
                } else {
                    assert(count_of(pre, y) > 0);
                    let j = choose|j: int| 0 <= j < old_rows.len() && (#[trigger] old_rows[j]).0 == y;
                    assert(rows@[j].0 == y);
                }
            }
        } else {
            proof {
                assert forall|j: int| k <= j < old_rows.len() implies (#[trigger] old_rows[j]).0 != x by {
                    if j > k {
                        assert(key_lt(old_rows[k as int].0, old_rows[j].0));
                    }
                }
                assert(count_of(pre, x) == 0) by {
                    if count_of(pre, x) > 0 {
                        let j = choose|j: int| 0 <= j < old_rows.len() && (#[trigger] old_rows[j]).0 == x;
                        if j < k {
                            assert(key_lt(old_rows[j].0, x));
                        }
                    }
                }
            }
            rows.insert(k, (x, 1));
            assert forall|a: int, b: int| 0 <= a < b < rows@.len() implies key_lt(
                #[trigger] rows@[a].0,
                #[trigger] rows@[b].0,
            ) by {
                if a < k && b == k {
                } else if a < k && b > k {
                    assert(rows@[b] == old_rows[b - 1]);
                    assert(key_lt(x, old_rows[k as int].0) || b - 1 == k);
                    if b - 1 > k {
                        assert(key_lt(old_rows[k as int].0, old_rows[b - 1].0));
                    }
                } else if a == k && b > k {
                    assert(rows@[b] == old_rows[b - 1]);
                    if b - 1 > k {
                        assert(key_lt(old_rows[k as int].0, old_rows[b - 1].0));
                    }
                } else if a > k {
                    assert(rows@[a] == old_rows[a - 1]);
                    assert(rows@[b] == old_rows[b - 1]);
                } else {
                    assert(rows@[a] == old_rows[a]);
                    assert(rows@[b] == old_rows[b]);
                }
            }
            assert forall|j: int| 0 <= j < rows@.len() implies (#[trigger] rows@[j]).1 == count_of(
                nxt,
                rows@[j].0,
            ) && rows@[j].1 > 0 by {
                if j < k {
                    assert(rows@[j] == old_rows[j]);
                } else if j > k {
                    assert(rows@[j] == old_rows[j - 1]);
                }
            }
            assert forall|y: (u64, u64)| count_of(nxt, y) > 0 implies exists|j: int|
                0 <= j < rows@.len() && (#[trigger] rows@[j]).0 == y by {
                if y == x {
                    assert(rows@[k as int].0 == y);
                } else {
                    assert(count_of(pre, y) > 0);
                    let j = choose|j: int| 0 <= j < old_rows.len() && (#[trigger] old_rows[j]).0 == y;
                    if j < k {
                        assert(rows@[j] == old_rows[j]);
                    } else {
                        assert(rows@[j + 1] == old_rows[j]);
                    }
                }
            }
        }
        i += 1;
    }
    assert(keys@.take(keys@.len() as int) =~= keys@);
    rows
}

/// The return-probe keys: (hooked rva, caller relative to `gbase`).
pub open spec fn caller_keys(rets: Seq<(u64, u64)>, gbase: u64) -> Seq<(u64, u64)> {
    Seq::new(
        rets.len(),
        |i: int|
            (
                rets[i].0,
                if gbase != 0 && rets[i].1 >= gbase {
                    (rets[i].1 - gbase) as u64
                } else {
                    rets[i].1
                },
            ),
    )
}

/// Return-probe report: how often each hooked RVA returned to each caller
/// (relative to the module at `gbase`), by (rva, caller).
pub fn tally_rets(rets: &Vec<(u64, u64)>, gbase: u64) -> (rows: Vec<((u64, u64), u32)>)
    requires
        rets@.len() <= u32::MAX,
    ensures
        tally_of(rows@, caller_keys(rets@, gbase)),
{
    let mut keys: Vec<(u64, u64)> = Vec::new();
    let mut i: usize = 0;
    while i < rets.len()
        invariant
            i <= rets@.len(),
            keys@ == caller_keys(rets@, gbase).take(i as int),
        decreases rets.len() - i,
    {
        let (rva, ret) = rets[i];
        keys.push((rva, rva_of(ret, gbase)));
        i += 1;
        assert(keys@ =~= caller_keys(rets@, gbase).take(i as int));
    }
    assert(caller_keys(rets@, gbase).take(rets@.len() as int) =~= caller_keys(rets@, gbase));
    tally_keys(&keys)
}

/// The callee-probe keys: (event tag, 0).
pub open spec fn tag_keys(evs: Seq<(u32, u64)>) -> Seq<(u64, u64)> {
    Seq::new(evs.len(), |i: int| (evs[i].0 as u64, 0u64))
}

/// Callee-probe report: how often each hooked RVA (the event tag) fired, by
/// RVA; a row `((rva, 0), count)`.
pub fn tally_tags(evs: &Vec<(u32, u64)>) -> (rows: Vec<((u64, u64), u32)>)
    requires
        evs@.len() <= u32::MAX,
    ensures
        tally_of(rows@, tag_keys(evs@)),
{
    let mut keys: Vec<(u64, u64)> = Vec::new();
    let mut i: usize = 0;
    while i < evs.len()
        invariant
            i <= evs@.len(),
            keys@ == tag_keys(evs@).take(i as int),
        decreases evs.len() - i,
    {
        keys.push((evs[i].0 as u64, 0));
        i += 1;
        assert(keys@ =~= tag_keys(evs@).take(i as int));
    }
    assert(tag_keys(evs@).take(evs@.len() as int) =~= tag_keys(evs@));
    tally_keys(&keys)
}

} // verus!
