//! The in-process probe logs: what each hook fire records, what a drain
//! hands back, and the reports made from them. The process-wide instance of
//! [`ProbeLog`] and the hooks that feed it live with the caller.

use vstd::prelude::*;

verus! {

/// Everything the probes have recorded since they were last cleared.
pub struct ProbeLog {
    /// (tag, value) per thread/threadpool or callee hook fire.
    pub events: Vec<(u32, u64)>,
    /// The caller's glyph-out buffer (address, capacity) stashed for snapshots.
    pub glyph_buf: Option<(u64, usize)>,
    /// Per-fire snapshots of the stashed buffer: (hooked rva, glyph ids).
    pub glyph_steps: Vec<(u64, Vec<u16>)>,
    /// (hooked rva, caller return address) per fire.
    pub rets: Vec<(u64, u64)>,
    /// (hooked rva, glyph run) per native apply-driver fire.
    pub run_steps: Vec<(u32, Vec<u16>)>,
    /// Sampled instruction pointers, as `rva >> 4` buckets.
    pub rip_hist: Vec<u32>,
}

impl ProbeLog {
    pub fn new() -> (r: ProbeLog)
        ensures
            r.events@.len() == 0,
            r.glyph_buf is None,
            r.glyph_steps@.len() == 0,
            r.rets@.len() == 0,
            r.run_steps@.len() == 0,
            r.rip_hist@.len() == 0,
    {
        ProbeLog {
            events: Vec::new(),
            glyph_buf: None,
            glyph_steps: Vec::new(),
            rets: Vec::new(),
            run_steps: Vec::new(),
            rip_hist: Vec::new(),
        }
    }
}

/// Stash the caller glyph-out buffer for the next shape, and clear prior
/// step snapshots. `cap` is the buffer length (full zero-padded window).
pub fn set_glyph_buf(log: &mut ProbeLog, ptr: u64, cap: usize)
    ensures
        final(log).glyph_buf == Some((ptr, cap)),
        final(log).glyph_steps@.len() == 0,
        final(log).events@ == old(log).events@,
        final(log).rets@ == old(log).rets@,
        final(log).run_steps@ == old(log).run_steps@,
        final(log).rip_hist@ == old(log).rip_hist@,
{
    log.glyph_buf = Some((ptr, cap));
    log.glyph_steps = Vec::new();
}

/// Hand back every glyph snapshot, oldest first, and forget them.
pub fn drain_glyph_steps(log: &mut ProbeLog) -> (r: Vec<(u64, Vec<u16>)>)
    ensures
        r@ == old(log).glyph_steps@,
        final(log).glyph_steps@.len() == 0,
        final(log).glyph_buf == old(log).glyph_buf,
        final(log).events@ == old(log).events@,
        final(log).rets@ == old(log).rets@,
        final(log).run_steps@ == old(log).run_steps@,
        final(log).rip_hist@ == old(log).rip_hist@,
{
    let mut out: Vec<(u64, Vec<u16>)> = Vec::new();
    std::mem::swap(&mut out, &mut log.glyph_steps);
    out
}

/// Hand back every (rva, return address) pair, oldest first, and forget them.
pub fn drain_rets(log: &mut ProbeLog) -> (r: Vec<(u64, u64)>)
    ensures
        r@ == old(log).rets@,
        final(log).rets@.len() == 0,
        final(log).glyph_buf == old(log).glyph_buf,
        final(log).events@ == old(log).events@,
        final(log).glyph_steps@ == old(log).glyph_steps@,
        final(log).run_steps@ == old(log).run_steps@,
        final(log).rip_hist@ == old(log).rip_hist@,
{
    let mut out: Vec<(u64, u64)> = Vec::new();
    std::mem::swap(&mut out, &mut log.rets);
    out
}

/// Hand back every (tag, value) event, oldest first, and forget them.
pub fn drain(log: &mut ProbeLog) -> (r: Vec<(u32, u64)>)
    ensures
        r@ == old(log).events@,
        final(log).events@.len() == 0,
        final(log).glyph_buf == old(log).glyph_buf,
        final(log).rets@ == old(log).rets@,
        final(log).glyph_steps@ == old(log).glyph_steps@,
        final(log).run_steps@ == old(log).run_steps@,
        final(log).rip_hist@ == old(log).rip_hist@,
{
    let mut out: Vec<(u32, u64)> = Vec::new();
    out.append(&mut log.events);
    out
}

/// Forget the recorded native glyph runs.
pub fn run_clear(log: &mut ProbeLog)
    ensures
        final(log).run_steps@.len() == 0,
        final(log).glyph_buf == old(log).glyph_buf,
        final(log).events@ == old(log).events@,
        final(log).rets@ == old(log).rets@,
        final(log).glyph_steps@ == old(log).glyph_steps@,
        final(log).rip_hist@ == old(log).rip_hist@,
{
    log.run_steps = Vec::new();
}

/// Hand back every native glyph run, oldest first, and forget them.
pub fn drain_run_steps(log: &mut ProbeLog) -> (r: Vec<(u32, Vec<u16>)>)
    ensures
        r@ == old(log).run_steps@,
        final(log).run_steps@.len() == 0,
        final(log).glyph_buf == old(log).glyph_buf,
        final(log).events@ == old(log).events@,
        final(log).rets@ == old(log).rets@,
        final(log).glyph_steps@ == old(log).glyph_steps@,
        final(log).rip_hist@ == old(log).rip_hist@,
{
    let mut out: Vec<(u32, Vec<u16>)> = Vec::new();
    out.append(&mut log.run_steps);
    out
}

/// Forget the recorded events (arming a new set of event hooks).
pub fn clear_events(log: &mut ProbeLog)
    ensures
        final(log).events@.len() == 0,
        final(log).glyph_buf == old(log).glyph_buf,
        final(log).rets@ == old(log).rets@,
        final(log).glyph_steps@ == old(log).glyph_steps@,
        final(log).run_steps@ == old(log).run_steps@,
        final(log).rip_hist@ == old(log).rip_hist@,
{
    log.events = Vec::new();
}

/// Forget the recorded return addresses (arming a new set of return hooks).
pub fn clear_rets(log: &mut ProbeLog)
    ensures
        final(log).rets@.len() == 0,
        final(log).glyph_buf == old(log).glyph_buf,
        final(log).events@ == old(log).events@,
        final(log).glyph_steps@ == old(log).glyph_steps@,
        final(log).run_steps@ == old(log).run_steps@,
        final(log).rip_hist@ == old(log).rip_hist@,
{
    log.rets = Vec::new();
}

/// A capture hook fired with `(tag, value)`: record it, and say how much of
/// the stashed glyph buffer to snapshot (`(address, units)`, at most 256
/// units), if one is stashed with a non-null address and a non-zero capacity.
pub fn record_capture(log: &mut ProbeLog, tag: u32, v: u64) -> (snap: Option<(u64, usize)>)
    ensures
        final(log).events@ == old(log).events@.push((tag, v)),
        final(log).glyph_buf == old(log).glyph_buf,
        final(log).rets@ == old(log).rets@,
        final(log).glyph_steps@ == old(log).glyph_steps@,
        final(log).run_steps@ == old(log).run_steps@,
        final(log).rip_hist@ == old(log).rip_hist@,
        snap == (match old(log).glyph_buf {
            Some((p, c)) => if p != 0 && c != 0 {
                Some((p, if c < 256 {
                    c
                } else {
                    256
                }))
            } else {
                None
            },
            None => None,
        }),
{
    log.events.push((tag, v));
    match log.glyph_buf {
        Some((p, c)) => if p != 0 && c != 0 {
            Some((p, if c < 256 {
                c
            } else {
                256
            }))
        } else {
            None
        },
        None => None,
    }
}

/// Record a snapshot of the stashed buffer taken at a fire of `tag`.
pub fn record_glyph_step(log: &mut ProbeLog, tag: u32, snap: Vec<u16>)
    ensures
        final(log).glyph_steps@ == old(log).glyph_steps@.push((tag as u64, snap)),
        final(log).glyph_buf == old(log).glyph_buf,
        final(log).events@ == old(log).events@,
        final(log).rets@ == old(log).rets@,
        final(log).run_steps@ == old(log).run_steps@,
        final(log).rip_hist@ == old(log).rip_hist@,
{
    log.glyph_steps.push((tag as u64, snap));
}

/// Record the return address `ret` seen at a fire of the hook tagged `tag`.
pub fn record_ret(log: &mut ProbeLog, tag: u32, ret: u64)
    ensures
        final(log).rets@ == old(log).rets@.push((tag as u64, ret)),
        final(log).glyph_buf == old(log).glyph_buf,
        final(log).events@ == old(log).events@,
        final(log).glyph_steps@ == old(log).glyph_steps@,
        final(log).run_steps@ == old(log).run_steps@,
        final(log).rip_hist@ == old(log).rip_hist@,
{
    log.rets.push((tag as u64, ret));
}

/// Record a native glyph run captured at a fire of `tag`.
pub fn record_run(log: &mut ProbeLog, tag: u32, gids: Vec<u16>)
    ensures
        final(log).run_steps@ == old(log).run_steps@.push((tag, gids)),
        final(log).glyph_buf == old(log).glyph_buf,
        final(log).events@ == old(log).events@,
        final(log).rets@ == old(log).rets@,
        final(log).glyph_steps@ == old(log).glyph_steps@,
        final(log).rip_hist@ == old(log).rip_hist@,
{
    log.run_steps.push((tag, gids));
}

/// Arm once per thread: `true` (arm now) the first time, `false` after.
pub fn arm_once(armed: &mut bool) -> (arm_now: bool)
    ensures
        arm_now == !*old(armed),
        *final(armed),
{
    if *armed {
        false
    } else {
        *armed = true;
        true
    }
}

/// A pointer value the run capture trusts: user-mode canonical and above the null page.
pub open spec fn user_canonical(v: u64) -> bool {
    0x10000 <= v <= 0x0000_7fff_ffff_ffff
}

pub fn is_user_canonical(v: u64) -> (b: bool)
    ensures
        b == user_canonical(v),
{
    !(v < 0x10000 || v > 0x0000_7fff_ffff_ffff)
}

/// The native run capture in progress: glyph ids taken so far and the
/// logical index of the last record taken.
pub struct RunCapture {
    pub gids: Vec<u16>,
    pub prev: i32,
}

/// Records `(gid, logIdx)` are taken from the first on while the glyph id is
/// non-zero and each index follows the previous one, at most 24 of them.
pub open spec fn run_prefix_len(recs: Seq<(u16, u16)>) -> nat
    decreases recs.len(),
{
    if recs.len() == 0 {
        0
    } else {
        let k = run_prefix_len(recs.drop_last());
        let i = recs.len() - 1;
        if k == i && i < 24 && recs[i].0 != 0 && (i == 0 || recs[i].1 as int == recs[i
            - 1].1 as int + 1) {
            k + 1
        } else {
            k
        }
    }
}

impl RunCapture {
    pub fn new() -> (r: RunCapture)
        ensures
            r.gids@.len() == 0,
            r.prev == -1,
    {
        RunCapture { gids: Vec::new(), prev: -1 }
    }

    /// Offer record `(g, idx)` (the next one, in order): `true` when it was
    /// taken and the next record may be read, `false` when the run ends here.
    pub fn offer(&mut self, g: u16, idx: u16) -> (more: bool)
        requires
            old(self).gids@.len() < 24,
            old(self).gids@.len() == 0 ==> old(self).prev == -1,
        ensures
            more == (g != 0 && (old(self).gids@.len() == 0 || idx as int == old(self).prev
                + 1)),
            more ==> final(self).gids@ == old(self).gids@.push(g) && final(self).prev == idx,
            !more ==> final(self).gids@ == old(self).gids@ && final(self).prev == old(
                self,
            ).prev,
    {
        if g == 0 {
            return false;
        }
        let i = self.gids.len();
        if i > 0 && (idx as i64) != (self.prev as i64) + 1 {
            return false;
        }
        self.prev = idx as i32;
        self.gids.push(g);
        true
    }
}

/// The glyph ids of a native run read from its records.
pub fn collect_run_gids(recs: &Vec<(u16, u16)>) -> (r: Vec<u16>)
    ensures
        r@.len() == run_prefix_len(recs@),
        forall|i: int| 0 <= i < r@.len() ==> r@[i] == #[trigger] recs@[i].0,
{
    let mut cap = RunCapture::new();
    let mut i: usize = 0;
    let mut open = true;
    while i < recs.len()
        invariant
            i <= recs.len(),
            cap.gids@.len() <= i,
            cap.gids@.len() <= 24,
            open ==> cap.gids@.len() == i && run_prefix_len(recs@.take(i as int)) == i,
            !open ==> run_prefix_len(recs@.take(i as int)) == cap.gids@.len() && cap.gids@.len()
                < i,
            cap.gids@.len() == 0 ==> cap.prev == -1,
            cap.gids@.len() > 0 ==> cap.prev == recs@[cap.gids@.len() - 1].1,
            forall|j: int| 0 <= j < cap.gids@.len() ==> cap.gids@[j] == #[trigger] recs@[j].0,
        decreases recs.len() - i,
    {
        let ghost pre = recs@.take(i as int);
        assert(recs@.take(i + 1).drop_last() =~= pre);
        if open {
            if i < 24 {
                let (g, idx) = recs[i];
                open = cap.offer(g, idx);
            } else {
                open = false;
            }
        }
        i += 1;
    }
    assert(recs@.take(recs.len() as int) =~= recs@);
    cap.gids
}

/// Which 16-byte bucket of the sampled module a sampled instruction pointer
/// falls in (`(rip - lo) >> 4`), when it lies in `[lo, lo + 0x200000)`.
pub fn rip_bucket(rip: u64, lo: u64) -> (r: Option<u32>)
    ensures
        r == (if lo <= rip && rip < lo + 0x200000 {
            Some(((rip - lo) / 16) as u32)
        } else {
            None
        }),
{
    if rip >= lo && rip - lo < 0x200000 {
        let d = rip - lo;
        assert(d >> 4u64 == d / 16) by (bit_vector);
        Some((d >> 4) as u32)
    } else {
        None
    }
}


/// How often `b` occurs in `s`.
pub open spec fn occ(s: Seq<u32>, b: u32) -> nat
    decreases s.len(),
{
    if s.len() == 0 {
        0
    } else {
        occ(s.drop_last(), b) + if s.last() == b {
            1nat
        } else {
            0nat
        }
    }
}

/// Report order: more samples first, then the lower bucket.
pub open spec fn row_before(a: (u32, u64), b: (u32, u64)) -> bool {
    a.1 > b.1 || (a.1 == b.1 && a.0 < b.0)
}

/// The sampling histogram: every bucket that was hit, once, with its count.
pub struct RipReport {
    pub samples: usize,
    pub rows: Vec<(u32, u64)>,
}

pub open spec fn counted(rows: Seq<(u32, u64)>, s: Seq<u32>) -> bool {
    &&& forall|i: int| 0 <= i < rows.len() ==> (#[trigger] rows[i]).1 == occ(s, rows[i].0)
        && rows[i].1 > 0
    &&& forall|b: u32| occ(s, b) > 0 ==> exists|i: int| 0 <= i < rows.len() && (#[trigger] rows[i]).0 == b
    &&& forall|i: int, j: int| 0 <= i < j < rows.len() ==> (#[trigger] rows[i]).0 != (#[trigger] rows[j]).0
}

pub open spec fn sorted_rows(rows: Seq<(u32, u64)>) -> bool {
    forall|i: int, j: int| 0 <= i < j < rows.len() ==> row_before(#[trigger] rows[i], #[trigger] rows[j])
}

fn count_buckets(hist: &Vec<u32>) -> (rows: Vec<(u32, u64)>)
    ensures
        counted(rows@, hist@),
{
    let mut rows: Vec<(u32, u64)> = Vec::new();
    let mut i: usize = 0;
    while i < hist.len()
        invariant
            i <= hist.len(),
            counted(rows@, hist@.take(i as int)),
            forall|k: int| 0 <= k < rows@.len() ==> (#[trigger] rows@[k]).1 <= i,
        decreases hist.len() - i,
    {
        let h = hist[i];
        let ghost pre = hist@.take(i as int);
        let ghost nxt = hist@.take(i + 1);
        assert(nxt.drop_last() =~= pre);
        assert(nxt.last() == h);
        assert(forall|b: u32| b != h ==> occ(nxt, b) == occ(pre, b));
        assert(occ(nxt, h) == occ(pre, h) + 1);
        let mut k: usize = 0;
        while k < rows.len() && rows[k].0 != h
            invariant
                k <= rows@.len(),
                forall|j: int| 0 <= j < k ==> (#[trigger] rows@[j]).0 != h,
            decreases rows.len() - k,
        {
            k += 1;
        }
        let ghost old_rows = rows@;
        if k < rows.len() {
            let (b, c) = rows[k];
            rows.set(k, (b, c + 1));
            assert forall|b2: u32| occ(nxt, b2) > 0 implies exists|j: int|
                0 <= j < rows@.len() && (#[trigger] rows@[j]).0 == b2 by {
                if b2 != h {
                    let j = choose|j: int| 0 <= j < old_rows.len() && (#[trigger] old_rows[j]).0 == b2;
                    assert(rows@[j].0 == b2);
                } else {
                    assert(rows@[k as int].0 == b2);
                }
            }
        } else {
            assert(occ(pre, h) == 0) by {
                if occ(pre, h) > 0 {
                    let j = choose|j: int| 0 <= j < old_rows.len() && (#[trigger] old_rows[j]).0 == h;
                }
            }
            rows.push((h, 1));
            assert forall|b2: u32| occ(nxt, b2) > 0 implies exists|j: int|
                0 <= j < rows@.len() && (#[trigger] rows@[j]).0 == b2 by {
                if b2 != h {
                    let j = choose|j: int| 0 <= j < old_rows.len() && (#[trigger] old_rows[j]).0 == b2;
                    assert(rows@[j].0 == b2);
                } else {
                    assert(rows@[rows@.len() - 1].0 == b2);
                }
            }
        }
        i += 1;
    }
    assert(hist@.take(hist.len() as int) =~= hist@);
    rows
}

/// Insert `x` at its place in report order.
fn insert_sorted(out: &mut Vec<(u32, u64)>, x: (u32, u64)) -> (k: usize)
    requires
        sorted_rows(old(out)@),
        forall|j: int| 0 <= j < old(out)@.len() ==> (#[trigger] old(out)@[j]).0 != x.0,
    ensures
        k <= old(out)@.len(),
        final(out)@ == old(out)@.insert(k as int, x),
        sorted_rows(final(out)@),
{
    let mut k: usize = 0;
    while k < out.len() && (out[k].1 > x.1 || (out[k].1 == x.1 && out[k].0 < x.0))
        invariant
            k <= out@.len(),
            forall|j: int| 0 <= j < k ==> row_before(#[trigger] out@[j], x),
        decreases out.len() - k,
    {
        k += 1;
    }
    let ghost before = out@;
    proof {
        if k < before.len() {
            assert(!row_before(before[k as int], x));
            assert(before[k as int].0 != x.0);
            assert(row_before(x, before[k as int]));
        }
    }
    out.insert(k, x);
    assert forall|a: int, b: int| 0 <= a < b < out@.len() implies row_before(
        #[trigger] out@[a],
        #[trigger] out@[b],
    ) by {
        if a < k && b == k {
        } else if a < k && b > k {
            assert(out@[b] == before[b - 1]);
            assert(out@[a] == before[a]);
        } else if a == k && b > k {
            assert(out@[b] == before[b - 1]);
            if b - 1 > k {
                assert(row_before(before[k as int], before[b - 1]));
            }
        } else if a > k {
            assert(out@[a] == before[a - 1]);
            assert(out@[b] == before[b - 1]);
        } else {
            assert(out@[a] == before[a]);
            assert(out@[b] == before[b]);
        }
    }
    k
}

/// The sampling histogram: bucket (`rva >> 4`) and hit count for every
/// bucket that was hit, most-hit first (ties: lower bucket first), and the
/// number of samples.
#[verifier::rlimit(40)]
pub fn rip_report(hist: &Vec<u32>) -> (r: RipReport)
    ensures
        r.samples == hist@.len(),
        counted(r.rows@, hist@),
        sorted_rows(r.rows@),
{
    let rows = count_buckets(hist);
    let mut out: Vec<(u32, u64)> = Vec::new();
    let mut i: usize = 0;
    while i < rows.len()
        invariant
            i <= rows@.len(),
            forall|a: int, b: int|
                0 <= a < b < rows@.len() ==> (#[trigger] rows@[a]).0 != (#[trigger] rows@[b]).0,
            sorted_rows(out@),
            out@.len() == i,
            forall|j: int|
                0 <= j < out@.len() ==> exists|k: int| 0 <= k < i && #[trigger] out@[j] == rows@[k],
            forall|k: int|
                #![trigger rows@[k]]
                0 <= k < i ==> exists|j: int| 0 <= j < out@.len() && #[trigger] out@[j] == rows@[k],
        decreases rows.len() - i,
    {
        let x = rows[i];
        let ghost before = out@;
        assert forall|j: int| 0 <= j < before.len() implies (#[trigger] before[j]).0 != x.0 by {
            let kk = choose|kk: int| 0 <= kk < i && before[j] == rows@[kk];
            assert(rows@[kk].0 != rows@[i as int].0);
        }
        assert(i < rows@.len());
        let k = insert_sorted(&mut out, x);
        assert forall|j: int| 0 <= j < out@.len() implies exists|kk: int|
            0 <= kk < i + 1 && #[trigger] out@[j] == rows@[kk] by {
            if j == k {
                assert(out@[j] == rows@[i as int]);
            } else if j < k {
                assert(out@[j] == before[j]);
            } else {
                assert(out@[j] == before[j - 1]);
            }
        }
        assert forall|kk: int|
            #![trigger rows@[kk]]
            0 <= kk < i + 1 implies exists|j: int| 0 <= j < out@.len() && #[trigger] out@[j]
                == rows@[kk] by {
            if kk == i {
                assert(out@[k as int] == rows@[kk]);
            } else {
                let j = choose|j: int| 0 <= j < before.len() && #[trigger] before[j] == rows@[kk];
                if j < k {
                    assert(out@[j] == rows@[kk]);
                } else {
                    assert(out@[j + 1] == rows@[kk]);
                }
            }
        }
        i += 1;
    }
    assert forall|j: int| 0 <= j < out@.len() implies (#[trigger] out@[j]).1 == occ(
        hist@,
        out@[j].0,
    ) && out@[j].1 > 0 by {
        let kk = choose|kk: int| 0 <= kk < rows@.len() && out@[j] == rows@[kk];
        assert(rows@[kk].1 == occ(hist@, rows@[kk].0));
    }
    assert forall|b: u32| occ(hist@, b) > 0 implies exists|j: int|
        0 <= j < out@.len() && (#[trigger] out@[j]).0 == b by {
        let kk = choose|kk: int| 0 <= kk < rows@.len() && (#[trigger] rows@[kk]).0 == b;
        let j = choose|j: int| 0 <= j < out@.len() && #[trigger] out@[j] == rows@[kk];
        assert(out@[j].0 == b);
    }
    assert forall|a: int, b: int| 0 <= a < b < out@.len() implies (#[trigger] out@[a]).0 != (
    #[trigger] out@[b]).0 by {
        assert(row_before(out@[a], out@[b]));
    }
    RipReport { samples: hist.len(), rows: out }
}

} // verus!
