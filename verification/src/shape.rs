//! The decisions of a shaping call: paragraph direction, buffer sizes and
//! their growth, item spans, script tags, glyph clusters, and the final and
//! per-stage glyph runs of each item. The engine calls themselves are made by
//! the caller, which hands the results to these functions.

use vstd::prelude::*;

use crate::features::TAG_DFLT;
use crate::text::str_chars;
use crate::uniscribe::{GOFFSET, E_OUTOFMEMORY};

verus! {

/// What to shape, with what, and how.
pub struct ShapeOpts {
    pub font: String,
    pub text: String,
    pub script: String,
    pub language: String,
    pub direction: String,
    pub show_all: bool,
    pub usp10_path: Option<String>,
    pub features_arg: String,
    /// Enable the wineusp per-lookup trace (no-op when the loaded module has
    /// no `usp_trace_*` exports, e.g. system usp10.dll).
    pub trace: bool,
    /// Shape via the wineusp raw font-bytes provider (NULL hdc, no GDI font).
    pub wine_bytes: bool,
    /// Shape via the system TextShaping engine and capture its native
    /// per-application trace (Windows x64 only).
    pub textshaping: bool,
}

/// A UTF-16 unit in the Hebrew/Arabic/Syriac/Thaana/NKo/... blocks
/// (U+0590..=U+08FF) or the Hebrew and Arabic presentation forms.
pub open spec fn rtl_unit(c: u16) -> bool {
    (0x0590 <= c <= 0x08FF) || (0xFB1D <= c <= 0xFDFF) || (0xFE70 <= c <= 0xFEFC)
}

pub fn has_rtl(text: &[u16]) -> (b: bool)
    ensures
        b == exists|i: int| 0 <= i < text@.len() && rtl_unit(#[trigger] text@[i]),
{
    let mut i: usize = 0;
    while i < text.len()
        invariant
            i <= text@.len(),
            forall|j: int| 0 <= j < i ==> !rtl_unit(#[trigger] text@[j]),
        decreases text.len() - i,
    {
        let c = text[i];
        if (0x0590 <= c && c <= 0x08FF) || (0xFB1D <= c && c <= 0xFDFF) || (0xFE70 <= c && c
            <= 0xFEFC) {
            assert(rtl_unit(text@[i as int]));
            return true;
        }
        i += 1;
    }
    false
}

fn chars_are(v: &Vec<char>, w: &[char]) -> (b: bool)
    ensures
        b == (v@ == w@),
{
    if v.len() != w.len() {
        return false;
    }
    let mut i: usize = 0;
    while i < v.len()
        invariant
            v@.len() == w@.len(),
            i <= v@.len(),
            forall|j: int| 0 <= j < i ==> v@[j] == w@[j],
        decreases v.len() - i,
    {
        if v[i] != w[i] {
            return false;
        }
        i += 1;
    }
    assert(v@ =~= w@);
    true
}

/// Paragraph level: 1 for `"rtl"`, 0 for `"ltr"`, otherwise 1 exactly when
/// the text holds a right-to-left unit.
pub open spec fn spec_base_level(direction: Seq<char>, text: Seq<u16>) -> u16 {
    if direction == seq!['r', 't', 'l'] {
        1
    } else if direction == seq!['l', 't', 'r'] {
        0
    } else if exists|i: int| 0 <= i < text.len() && rtl_unit(#[trigger] text[i]) {
        1
    } else {
        0
    }
}

pub fn base_level(direction: &str, text: &[u16]) -> (l: u16)
    ensures
        l == spec_base_level(direction@, text@),
{
    let d = str_chars(direction);
    if chars_are(&d, &['r', 't', 'l']) {
        assert(d@ == seq!['r', 't', 'l']);
        1
    } else if chars_are(&d, &['l', 't', 'r']) {
        assert(d@ == seq!['l', 't', 'r']);
        0
    } else {
        assert(d@ != seq!['r', 't', 'l']) by {
            if d@ == seq!['r', 't', 'l'] {
                assert(d@ =~= ['r', 't', 'l']@);
            }
        }
        assert(d@ != seq!['l', 't', 'r']) by {
            if d@ == seq!['l', 't', 'r'] {
                assert(d@ =~= ['l', 't', 'r']@);
            }
        }
        if has_rtl(text) {
            1
        } else {
            0
        }
    }
}

/// Item buffer size for `n` UTF-16 units: `max(2n + 8, 16)` (one more slot
/// is allocated for the terminating item).
pub fn itemize_capacity(n: usize) -> (c: usize)
    requires
        n <= 0x3FFF_FFFB,
    ensures
        c == (if 2 * n + 8 > 16 {
            2 * n + 8
        } else {
            16
        }),
{
    let c = n * 2 + 8;
    if c > 16 {
        c
    } else {
        16
    }
}

/// Initial glyph buffer size for `n` units: `max(3n + 8, 16)`.
pub fn glyph_capacity(n: usize) -> (c: i32)
    requires
        n <= 0x2AAA_AAA5,
    ensures
        c == (if 3 * n + 8 > 16 {
            3 * n + 8
        } else {
            16
        }),
{
    let c = (n * 3 + 8) as i32;
    if c > 16 {
        c
    } else {
        16
    }
}

/// What to do after a `ScriptShapeOpenType` call that returned `hr` with a
/// glyph buffer of `maxg`.
#[derive(Debug, PartialEq, Eq)]
pub enum ShapeStep {
    /// Shaped.
    Done,
    /// The buffer was too small: shape again from scratch with this size.
    Grow(i32),
    /// The buffer would grow past 2^17 glyphs: give up.
    Overflow,
    /// Any other failure.
    Failed(i32),
}

/// The step after a `ScriptShapeOpenType` answer `hr` with a buffer of `maxg` glyphs.
pub open spec fn spec_next_shape_step(hr: i32, maxg: i32) -> ShapeStep {
    if hr == 0 {
        ShapeStep::Done
    } else if hr == E_OUTOFMEMORY {
        if maxg > 65536 {
            ShapeStep::Overflow
        } else {
            ShapeStep::Grow((2 * maxg) as i32)
        }
    } else {
        ShapeStep::Failed(hr)
    }
}

pub fn next_shape_step(hr: i32, maxg: i32) -> (s: ShapeStep)
    requires
        maxg >= 1,
    ensures
        s == spec_next_shape_step(hr, maxg),
{
    if hr == 0 {
        ShapeStep::Done
    } else if hr == E_OUTOFMEMORY {
        if maxg > 65536 {
            ShapeStep::Overflow
        } else {
            ShapeStep::Grow(maxg * 2)
        }
    } else {
        ShapeStep::Failed(hr)
    }
}

/// Every growth doubles the buffer and stays within 2^17 glyphs, so a run
/// of out-of-memory answers ends in `Overflow` after finitely many growths.
pub proof fn law_growth_is_bounded(hr: i32, maxg: i32)
    requires
        maxg >= 1,
    ensures
        spec_next_shape_step(hr, maxg) matches ShapeStep::Grow(m) ==> m == 2 * maxg && maxg < m
            <= 131072,
        spec_next_shape_step(hr, maxg) is Overflow ==> maxg > 65536,
{
}

/// The characters `[start, end)` of item `it`, from the item start
/// positions `pos` (negative ones read as 0), clipped to the text, or
/// `None` when that span is empty.
pub open spec fn spec_item_span(pos: Seq<i32>, it: int, text_len: int) -> Option<(int, int)> {
    let start = if pos[it] < 0 {
        0
    } else {
        pos[it] as int
    };
    let end0 = if it + 1 < pos.len() {
        if pos[it + 1] < 0 {
            0
        } else {
            pos[it + 1] as int
        }
    } else {
        text_len
    };
    let end1 = if end0 < text_len {
        end0
    } else {
        text_len
    };
    let end = if end1 < start {
        start
    } else {
        end1
    };
    if end <= start {
        None
    } else {
        Some((start, end))
    }
}

pub fn item_span(pos: &Vec<i32>, it: usize, text_len: usize) -> (r: Option<(usize, usize)>)
    requires
        it < pos@.len(),
    ensures
        match spec_item_span(pos@, it as int, text_len as int) {
            None => r is None,
            Some((s, e)) => r == Some((s as usize, e as usize)),
        },
        r matches Some((s, e)) ==> s < e <= text_len,
{
    let p = pos[it];
    let start: usize = if p < 0 {
        0
    } else {
        p as usize
    };
    let end0: usize = if it < pos.len() - 1 {
        let q = pos[it + 1];
        if q < 0 {
            0
        } else {
            q as usize
        }
    } else {
        text_len
    };
    let end1 = if end0 < text_len {
        end0
    } else {
        text_len
    };
    let end = if end1 < start {
        start
    } else {
        end1
    };
    if end <= start {
        None
    } else {
        Some((start, end))
    }
}

/// The OpenType script tag of an item: the font's first script tag when
/// `ScriptGetFontScriptTags` succeeded with one, else the itemizer's tag,
/// else `'dflt'`.
pub fn pick_script_tag(hr: i32, n: i32, first_tag: u32, item_tag: u32) -> (t: u32)
    ensures
        t == (if hr == 0 && n > 0 && first_tag != 0 {
            first_tag
        } else if item_tag != 0 {
            item_tag
        } else {
            TAG_DFLT
        }),
        t != 0,
{
    if hr == 0 && n > 0 && first_tag != 0 {
        return first_tag;
    }
    if item_tag != 0 {
        return item_tag;
    }
    TAG_DFLT
}


/// Index of the first character whose cluster entry is glyph `g`, if any.
pub open spec fn is_first_char_of(lc: Seq<u16>, g: int, c: int) -> bool {
    &&& 0 <= c < lc.len()
    &&& lc[c] == g
    &&& forall|j: int| 0 <= j < c ==> lc[j] != g
}

/// The cluster (a character index) of glyph `g`: the first character that
/// maps to it, or the last character when none does.
pub open spec fn cluster_of(lc: Seq<u16>, g: int, c: int) -> bool {
    if exists|j: int| 0 <= j < lc.len() && lc[j] == g {
        is_first_char_of(lc, g, c)
    } else {
        c == (if lc.len() > 0 {
            lc.len() - 1
        } else {
            0
        })
    }
}

/// Glyph → first character, from the character → glyph map `logclust`.
pub fn glyph_clusters(logclust: &Vec<u16>, n: usize) -> (cl: Vec<usize>)
    ensures
        cl@.len() == n,
        forall|g: int| 0 <= g < n ==> cluster_of(logclust@, g, #[trigger] cl@[g] as int),
{
    let mut g2c: Vec<usize> = vec![usize::MAX; n];
    let mut ci: usize = 0;
    while ci < logclust.len()
        invariant
            ci <= logclust@.len(),
            g2c@.len() == n,
            forall|g: int|
                0 <= g < n ==> (#[trigger] g2c@[g] == usize::MAX ==> forall|j: int|
                    0 <= j < ci ==> logclust@[j] != g),
            forall|g: int|
                0 <= g < n ==> (#[trigger] g2c@[g] != usize::MAX ==> g2c@[g] < ci
                    && is_first_char_of(logclust@, g, g2c@[g] as int)),
        decreases logclust.len() - ci,
    {
        let gi = logclust[ci] as usize;
        if gi < n && g2c[gi] == usize::MAX {
            g2c.set(gi, ci);
        }
        ci += 1;
    }
    let last: usize = if logclust.len() > 0 {
        logclust.len() - 1
    } else {
        0
    };
    let mut out: Vec<usize> = Vec::new();
    let mut g: usize = 0;
    while g < n
        invariant
            g <= n,
            g2c@.len() == n,
            out@.len() == g,
            last == (if logclust@.len() > 0 {
                logclust@.len() - 1
            } else {
                0
            }),
            forall|h: int|
                0 <= h < n ==> (#[trigger] g2c@[h] == usize::MAX ==> forall|j: int|
                    0 <= j < logclust@.len() ==> logclust@[j] != h),
            forall|h: int|
                0 <= h < n ==> (#[trigger] g2c@[h] != usize::MAX ==> is_first_char_of(
                    logclust@,
                    h,
                    g2c@[h] as int,
                )),
            forall|h: int| 0 <= h < g ==> cluster_of(logclust@, h, #[trigger] out@[h] as int),
        decreases n - g,
    {
        let c = if g2c[g] != usize::MAX {
            g2c[g]
        } else {
            last
        };
        proof {
            if g2c@[g as int] != usize::MAX {
                assert(is_first_char_of(logclust@, g as int, c as int));
            }
        }
        out.push(c);
        g += 1;
    }
    out
}

/// One shaped glyph: id, cluster, offset and advance in font units.
#[derive(Clone, Copy, Debug, PartialEq, Eq)]
pub struct GlyphOut {
    pub g: u16,
    pub cl: i64,
    pub dx: i32,
    pub dy: i32,
    pub ax: i32,
    pub ay: i32,
    pub flags: u32,
}

/// The logical-order glyph run of one item from the engine's arrays:
/// glyph ids, placement offsets, advances, and clusters from `logclust`
/// (relative to the item).
pub fn place_glyphs(
    glyphs: &Vec<u16>,
    advances: &Vec<i32>,
    goff: &Vec<GOFFSET>,
    logclust: &Vec<u16>,
    n: usize,
) -> (out: Vec<GlyphOut>)
    requires
        n <= glyphs@.len(),
        n <= advances@.len(),
        n <= goff@.len(),
        logclust@.len() <= i64::MAX,
    ensures
        out@.len() == n,
        forall|i: int|
            0 <= i < n ==> {
                &&& (#[trigger] out@[i]).g == glyphs@[i]
                &&& cluster_of(logclust@, i, out@[i].cl as int)
                &&& out@[i].dx == goff@[i].du
                &&& out@[i].dy == goff@[i].dv
                &&& out@[i].ax == advances@[i]
                &&& out@[i].ay == 0
                &&& out@[i].flags == 0
            },
        forall|i: int| 0 <= i < n ==> 0 <= (#[trigger] out@[i]).cl < if logclust@.len() > 0 {
            logclust@.len() as int
        } else {
            1
        },
{
    let cls = glyph_clusters(logclust, n);
    let mut out: Vec<GlyphOut> = Vec::new();
    let mut i: usize = 0;
    while i < n
        invariant
            i <= n,
            n <= glyphs@.len(),
            n <= advances@.len(),
            n <= goff@.len(),
            logclust@.len() <= i64::MAX,
            cls@.len() == n,
            forall|g: int| 0 <= g < n ==> cluster_of(logclust@, g, #[trigger] cls@[g] as int),
            out@.len() == i,
            forall|j: int|
                0 <= j < i ==> {
                    &&& (#[trigger] out@[j]).g == glyphs@[j]
                    &&& out@[j].cl == cls@[j]
                    &&& out@[j].dx == goff@[j].du
                    &&& out@[j].dy == goff@[j].dv
                    &&& out@[j].ax == advances@[j]
                    &&& out@[j].ay == 0
                    &&& out@[j].flags == 0
                },
        decreases n - i,
    {
        let c = cls[i];
        assert(cluster_of(logclust@, i as int, cls@[i as int] as int));
        assert(c < if logclust@.len() > 0 {
            logclust@.len() as int
        } else {
            1
        });
        out.push(
            GlyphOut {
                g: glyphs[i],
                cl: c as i64,
                dx: goff[i].du,
                dy: goff[i].dv,
                ax: advances[i],
                ay: 0,
                flags: 0,
            },
        );
        i += 1;
    }
    proof {
        assert forall|j: int| 0 <= j < n implies 0 <= (#[trigger] out@[j]).cl < if logclust@.len()
            > 0 {
            logclust@.len() as int
        } else {
            1
        } by {
            assert(cluster_of(logclust@, j, cls@[j] as int));
        }
    }
    out
}

/// `o` with its cluster moved by `start`.
pub open spec fn shifted(o: GlyphOut, start: int) -> GlyphOut {
    GlyphOut { g: o.g, cl: (o.cl + start) as i64, dx: o.dx, dy: o.dy, ax: o.ax, ay: o.ay, flags: o.flags }
}

/// The output order of an item: right-to-left runs are reversed into visual
/// order (left to right), and clusters become text positions (`+ start`).
pub open spec fn spec_finish(l: Seq<GlyphOut>, rtl: bool, start: int) -> Seq<GlyphOut> {
    Seq::new(
        l.len(),
        |i: int|
            shifted(
                if rtl {
                    l[l.len() - 1 - i]
                } else {
                    l[i]
                },
                start,
            ),
    )
}

pub open spec fn clusters_fit(l: Seq<GlyphOut>, start: int) -> bool {
    forall|i: int| 0 <= i < l.len() ==> 0 <= (#[trigger] l[i]).cl && l[i].cl + start <= i64::MAX
}

pub fn finish_item(logical: &Vec<GlyphOut>, rtl: bool, start: usize) -> (out: Vec<GlyphOut>)
    requires
        start <= i64::MAX,
        clusters_fit(logical@, start as int),
    ensures
        out@ == spec_finish(logical@, rtl, start as int),
{
    let n = logical.len();
    let mut out: Vec<GlyphOut> = Vec::new();
    let mut i: usize = 0;
    while i < n
        invariant
            n == logical@.len(),
            i <= n,
            start <= i64::MAX,
            clusters_fit(logical@, start as int),
            out@ == spec_finish(logical@, rtl, start as int).take(i as int),
        decreases n - i,
    {
        let src = if rtl {
            logical[n - 1 - i]
        } else {
            logical[i]
        };
        let o = GlyphOut {
            g: src.g,
            cl: src.cl + start as i64,
            dx: src.dx,
            dy: src.dy,
            ax: src.ax,
            ay: src.ay,
            flags: src.flags,
        };
        out.push(o);
        i += 1;
        assert(out@ =~= spec_finish(logical@, rtl, start as int).take(i as int));
    }
    assert(spec_finish(logical@, rtl, start as int).take(n as int) =~= spec_finish(
        logical@,
        rtl,
        start as int,
    ));
    out
}

/// An RTL item comes out in visual order: the reverse of the logical run,
/// each glyph keeping its (logical) cluster; an LTR item keeps its order.
pub proof fn law_rtl_final_is_reversed(l: Seq<GlyphOut>, start: int)
    ensures
        spec_finish(l, true, start) == spec_finish(l, false, start).reverse(),
        forall|i: int|
            0 <= i < l.len() ==> (#[trigger] spec_finish(l, true, start)[i]).g == l[l.len() - 1
                - i].g && spec_finish(l, true, start)[i].cl == (l[l.len() - 1 - i].cl + start) as i64,
{
    assert(spec_finish(l, true, start) =~= spec_finish(l, false, start).reverse());
}

/// A finished run is the logical run glyph for glyph (in mirrored order for
/// RTL): each glyph keeps its id, offsets, advances and flags unchanged, and
/// only its cluster moves, by the item's start.
pub proof fn law_finish_keeps_glyphs(l: Seq<GlyphOut>, rtl: bool, start: int)
    ensures
        spec_finish(l, rtl, start).len() == l.len(),
        forall|i: int|
            0 <= i < l.len() ==> {
                let src = if rtl {
                    l[l.len() - 1 - i]
                } else {
                    l[i]
                };
                let o = #[trigger] spec_finish(l, rtl, start)[i];
                &&& o.g == src.g
                &&& o.dx == src.dx
                &&& o.dy == src.dy
                &&& o.ax == src.ax
                &&& o.ay == src.ay
                &&& o.flags == src.flags
                &&& (clusters_fit(l, start) && start >= 0 ==> o.cl == src.cl + start)
            },
{
    assert forall|i: int| 0 <= i < l.len() && clusters_fit(l, start) && start >= 0 implies (
    #[trigger] spec_finish(l, rtl, start)[i]).cl == (if rtl {
        l[l.len() - 1 - i]
    } else {
        l[i]
    }).cl + start by {
        let j = if rtl {
            l.len() - 1 - i
        } else {
            i
        };
        assert(0 <= l[j].cl && l[j].cl + start <= i64::MAX);
    }
}

/// The cluster of glyph `i` of an `m`-glyph stage over `seg` characters
/// whose glyph count differs from the final run: spread evenly in logical
/// order, `min(i * seg / m, seg - 1)` with `seg` at least 1.
pub open spec fn approx_cluster(i: int, m: int, seg_len: int) -> int {
    let seg = if seg_len > 1 {
        seg_len
    } else {
        1
    };
    let c = (i * seg) / m;
    if c < seg - 1 {
        c
    } else {
        seg - 1
    }
}

/// The glyphs of one trace stage, in logical order, before the item's
/// output transform: when the stage has as many glyphs as the final run each
/// takes the final run's cluster, else the even spread.
pub open spec fn spec_stage_logical(gids: Seq<u16>, fin: Seq<GlyphOut>, seg_len: int) -> Seq<GlyphOut> {
    Seq::new(
        gids.len(),
        |i: int|
            GlyphOut {
                g: gids[i],
                cl: if gids.len() == fin.len() {
                    fin[i].cl
                } else {
                    approx_cluster(i, gids.len() as int, seg_len) as i64
                },
                dx: 0,
                dy: 0,
                ax: 0,
                ay: 0,
                flags: 0,
            },
    )
}

/// The spread clusters never go backwards and stay inside the item.
pub proof fn law_approx_clusters_monotone(i: int, j: int, m: int, seg_len: int)
    requires
        0 <= i <= j < m,
    ensures
        approx_cluster(i, m, seg_len) <= approx_cluster(j, m, seg_len),
        0 <= approx_cluster(i, m, seg_len) < if seg_len > 1 {
            seg_len
        } else {
            1
        },
{
    let seg = if seg_len > 1 {
        seg_len
    } else {
        1
    };
    assert(i * seg <= j * seg) by (nonlinear_arith)
        requires
            i <= j,
            seg >= 1,
    ;
    assert(0 <= i * seg) by (nonlinear_arith)
        requires
            0 <= i,
            seg >= 1,
    ;
    vstd::arithmetic::div_mod::lemma_div_is_ordered(i * seg, j * seg, m);
    vstd::arithmetic::div_mod::lemma_div_pos_is_pos(i * seg, m);
}

fn stage_logical(gids: &Vec<u16>, fin: &Vec<GlyphOut>, seg_len: usize) -> (out: Vec<GlyphOut>)
    requires
        seg_len <= i64::MAX,
        forall|i: int| 0 <= i < fin@.len() ==> 0 <= (#[trigger] fin@[i]).cl,
    ensures
        out@ == spec_stage_logical(gids@, fin@, seg_len as int),
        forall|i: int| 0 <= i < out@.len() ==> 0 <= (#[trigger] out@[i]).cl,
        gids@.len() != fin@.len() ==> forall|i: int|
            0 <= i < out@.len() ==> (#[trigger] out@[i]).cl < (if seg_len > 1 {
                seg_len as int
            } else {
                1
            }),
{
    let m = gids.len();
    let same = m == fin.len();
    let seg: usize = if seg_len > 1 {
        seg_len
    } else {
        1
    };
    let mut out: Vec<GlyphOut> = Vec::new();
    let mut i: usize = 0;
    while i < m
        invariant
            m == gids@.len(),
            same == (m == fin@.len()),
            seg == (if seg_len > 1 {
                seg_len
            } else {
                1
            }),
            i <= m,
            seg_len <= i64::MAX,
            forall|k: int| 0 <= k < fin@.len() ==> 0 <= (#[trigger] fin@[k]).cl,
            out@ == spec_stage_logical(gids@, fin@, seg_len as int).take(i as int),
            forall|k: int| 0 <= k < out@.len() ==> 0 <= (#[trigger] out@[k]).cl,
            !same ==> forall|k: int| 0 <= k < out@.len() ==> (#[trigger] out@[k]).cl < seg,
        decreases m - i,
    {
        let cl: i64 = if same {
            fin[i].cl
        } else {
            assert((i as int) * (seg as int) < 0x1_0000_0000_0000_0000_0000_0000_0000_0000)
                by (nonlinear_arith)
                requires
                    0 <= i < 0x1_0000_0000_0000_0000,
                    0 <= seg < 0x1_0000_0000_0000_0000,
            ;
            let q = ((i as u128) * (seg as u128)) / (m as u128);
            proof {
                law_approx_clusters_monotone(i as int, i as int, m as int, seg_len as int);
            }
            let c = if q < (seg - 1) as u128 {
                q as usize
            } else {
                seg - 1
            };
            assert(c == approx_cluster(i as int, m as int, seg_len as int));
            c as i64
        };
        out.push(GlyphOut { g: gids[i], cl, dx: 0, dy: 0, ax: 0, ay: 0, flags: 0 });
        i += 1;
        assert(out@ =~= spec_stage_logical(gids@, fin@, seg_len as int).take(i as int));
    }
    assert(spec_stage_logical(gids@, fin@, seg_len as int).take(m as int) =~= spec_stage_logical(
        gids@,
        fin@,
        seg_len as int,
    ));
    out
}

/// The glyphs of one trace stage, transformed like the item's final run.
pub fn trace_stage_glyphs(
    gids: &Vec<u16>,
    fin: &Vec<GlyphOut>,
    seg_len: usize,
    rtl: bool,
    start: usize,
) -> (out: Vec<GlyphOut>)
    requires
        start <= i64::MAX,
        clusters_fit(fin@, start as int),
        seg_len + start <= i64::MAX,
    ensures
        out@ == spec_finish(spec_stage_logical(gids@, fin@, seg_len as int), rtl, start as int),
{
    let l = stage_logical(gids, fin, seg_len);
    assert(clusters_fit(l@, start as int)) by {
        assert forall|i: int| 0 <= i < l@.len() implies 0 <= (#[trigger] l@[i]).cl && l@[i].cl
            + start <= i64::MAX by {
            if gids@.len() == fin@.len() {
                assert(l@[i].cl == fin@[i].cl);
            }
        }
    }
    finish_item(&l, rtl, start)
}


// ---------------------------------------------------------------------------
// stages, messages, the document
// ---------------------------------------------------------------------------

/// The name of one captured trace stage: a wineusp lookup name, or the
/// number of a TextShaping OT application (from 1).
#[derive(Debug, PartialEq, Eq)]
pub enum TraceName {
    Lookup(String),
    Apply(usize),
}

pub open spec fn same_trace_name(a: TraceName, b: TraceName) -> bool {
    match (a, b) {
        (TraceName::Lookup(x), TraceName::Lookup(y)) => x@ == y@,
        (TraceName::Apply(i), TraceName::Apply(j)) => i == j,
        _ => false,
    }
}

fn copy_trace_name(n: &TraceName) -> (r: TraceName)
    ensures
        same_trace_name(r, *n),
{
    match n {
        TraceName::Lookup(s) => TraceName::Lookup(s.clone()),
        TraceName::Apply(k) => TraceName::Apply(*k),
    }
}

/// What a stage shows.
#[derive(Debug, PartialEq, Eq)]
pub enum StageLabel {
    /// The whole item in one stage (no per-lookup trace).
    Whole { script: u16, tag: u32 },
    /// One captured stage: wineusp lookup (`native == false`) or TextShaping application.
    Trace { native: bool, name: TraceName },
}

/// One stage of the shaping timeline.
pub struct Stage {
    pub item: usize,
    pub label: StageLabel,
    pub glyphs: Vec<GlyphOut>,
}

#[derive(Clone, Copy, Debug, PartialEq, Eq)]
pub enum ShapeMessage {
    /// Item `item` (script code, OT tag, characters `start..end`) gave `glyphs` glyphs.
    ItemShaped { item: usize, script: u16, tag: u32, start: usize, end: usize, glyphs: usize, rtl: bool },
    /// The item's timeline is a captured trace of `count` stages.
    TraceStages { native: bool, count: usize },
}

/// The stages, final glyphs and messages of one item.
pub struct ItemOut {
    pub stages: Vec<Stage>,
    pub final_glyphs: Vec<GlyphOut>,
    pub messages: Vec<ShapeMessage>,
}

/// The engine's view of one shaped item.
pub struct ItemShape {
    pub item: usize,
    pub script: u16,
    pub tag: u32,
    pub start: usize,
    pub end: usize,
    pub rtl: bool,
}

pub open spec fn item_fits(info: ItemShape, logical: Seq<GlyphOut>) -> bool {
    &&& info.start <= info.end
    &&& info.end <= i64::MAX
    &&& clusters_fit(logical, info.start as int)
}

/// The outputs of one item: its final run (visual order, text clusters);
/// one whole-item stage when there is no trace (trace off or nothing
/// captured), else one stage per captured trace stage; the item message,
/// and the trace message when there is a trace.
pub fn assemble_item(
    info: &ItemShape,
    logical: &Vec<GlyphOut>,
    trace_on: bool,
    native: bool,
    raw: &Vec<(TraceName, Vec<u16>)>,
) -> (out: ItemOut)
    requires
        item_fits(*info, logical@),
    ensures
        out.final_glyphs@ == spec_finish(logical@, info.rtl, info.start as int),
        out.messages@ == if trace_on && raw@.len() > 0 {
            seq![
                ShapeMessage::ItemShaped {
                    item: info.item,
                    script: info.script,
                    tag: info.tag,
                    start: info.start,
                    end: info.end,
                    glyphs: logical@.len() as usize,
                    rtl: info.rtl,
                },
                ShapeMessage::TraceStages { native, count: raw@.len() as usize },
            ]
        } else {
            seq![
                ShapeMessage::ItemShaped {
                    item: info.item,
                    script: info.script,
                    tag: info.tag,
                    start: info.start,
                    end: info.end,
                    glyphs: logical@.len() as usize,
                    rtl: info.rtl,
                },
            ]
        },
        !(trace_on && raw@.len() > 0) ==> {
            &&& out.stages@.len() == 1
            &&& out.stages@[0].item == info.item
            &&& out.stages@[0].label == StageLabel::Whole { script: info.script, tag: info.tag }
            &&& out.stages@[0].glyphs@ == out.final_glyphs@
        },
        trace_on && raw@.len() > 0 ==> {
            &&& out.stages@.len() == raw@.len()
            &&& forall|k: int|
                0 <= k < raw@.len() ==> {
                    &&& (#[trigger] out.stages@[k]).item == info.item
                    &&& out.stages@[k].label matches StageLabel::Trace { native: nt, name } && nt
                        == native && same_trace_name(name, raw@[k].0)
                    &&& out.stages@[k].glyphs@ == spec_finish(
                        spec_stage_logical(
                            raw@[k].1@,
                            logical@,
                            (info.end - info.start) as int,
                        ),
                        info.rtl,
                        info.start as int,
                    )
                }
        },
{
    let fin = finish_item(logical, info.rtl, info.start);
    let mut messages: Vec<ShapeMessage> = Vec::new();
    messages.push(
        ShapeMessage::ItemShaped {
            item: info.item,
            script: info.script,
            tag: info.tag,
            start: info.start,
            end: info.end,
            glyphs: logical.len(),
            rtl: info.rtl,
        },
    );
    let mut stages: Vec<Stage> = Vec::new();
    if !trace_on || raw.len() == 0 {
        let mut whole: Vec<GlyphOut> = Vec::new();
        let mut i: usize = 0;
        while i < fin.len()
            invariant
                i <= fin@.len(),
                whole@ == fin@.take(i as int),
            decreases fin.len() - i,
        {
            whole.push(fin[i]);
            i += 1;
            assert(whole@ =~= fin@.take(i as int));
        }
        assert(fin@.take(fin@.len() as int) =~= fin@);
        stages.push(
            Stage {
                item: info.item,
                label: StageLabel::Whole { script: info.script, tag: info.tag },
                glyphs: whole,
            },
        );
    } else {
        messages.push(ShapeMessage::TraceStages { native, count: raw.len() });
        let seg_len = info.end - info.start;
        let mut k: usize = 0;
        while k < raw.len()
            invariant
                k <= raw@.len(),
                item_fits(*info, logical@),
                seg_len == info.end - info.start,
                stages@.len() == k,
                forall|j: int|
                    0 <= j < k ==> {
                        &&& (#[trigger] stages@[j]).item == info.item
                        &&& stages@[j].label matches StageLabel::Trace { native: nt, name } && nt
                            == native && same_trace_name(name, raw@[j].0)
                        &&& stages@[j].glyphs@ == spec_finish(
                            spec_stage_logical(raw@[j].1@, logical@, seg_len as int),
                            info.rtl,
                            info.start as int,
                        )
                    },
            decreases raw.len() - k,
        {
            let g = trace_stage_glyphs(&raw[k].1, logical, seg_len, info.rtl, info.start);
            let name = copy_trace_name(&raw[k].0);
            stages.push(Stage { item: info.item, label: StageLabel::Trace { native, name }, glyphs: g });
            k += 1;
        }
    }
    ItemOut { stages, final_glyphs: fin, messages }
}

/// Why a shaping call was refused or failed, where the library decides it.
#[derive(Debug, PartialEq, Eq)]
pub enum ShapeError {
    /// The TextShaping backend was asked for off Windows.
    TextShapingNotHere,
    /// Features were asked of the wineusp build, which drops feature records.
    FeaturesNotApplicable,
    /// The loaded wineusp build has no raw font-bytes provider (required off Windows).
    NoFontBytesProvider,
    /// The text has no UTF-16 units.
    EmptyText,
    /// `ScriptItemizeOpenType` failed with this HRESULT.
    Itemize(i32),
    /// `ScriptShapeOpenType` failed for the script tag with this HRESULT.
    Shape { tag: u32, hr: i32 },
    /// The glyph buffer would have to grow past its limit.
    GlyphBufferOverflow,
    /// `ScriptPlaceOpenType` failed with this HRESULT.
    Place(i32),
    /// The TextShaping driver was not armed on this build.
    NativeUnsupported,
    /// The last captured TextShaping run is not the shaped output.
    NativeCrossCheck,
    /// No item produced a glyph.
    NoGlyphs,
}

/// The TextShaping backend exists on Windows only.
pub fn check_backend(textshaping: bool, windows: bool) -> (r: Result<(), ShapeError>)
    ensures
        r == (if textshaping && !windows {
            Err(ShapeError::TextShapingNotHere)
        } else {
            Ok(())
        }),
{
    if textshaping && !windows {
        Err(ShapeError::TextShapingNotHere)
    } else {
        Ok(())
    }
}

/// The wineusp build (the module with a font-bytes provider) drops feature
/// records, so a non-empty feature request is refused there rather than
/// silently ignored.
pub fn check_features_applicable(n_features: usize, wine_port: bool) -> (r: Result<(), ShapeError>)
    ensures
        r == (if n_features > 0 && wine_port {
            Err(ShapeError::FeaturesNotApplicable)
        } else {
            Ok(())
        }),
{
    if n_features > 0 && wine_port {
        Err(ShapeError::FeaturesNotApplicable)
    } else {
        Ok(())
    }
}

pub fn check_text(units: usize) -> (r: Result<(), ShapeError>)
    ensures
        r == (if units == 0 {
            Err(ShapeError::EmptyText)
        } else {
            Ok(())
        }),
{
    if units == 0 {
        Err(ShapeError::EmptyText)
    } else {
        Ok(())
    }
}

/// Whether to shape from raw font bytes with a NULL DC. On Windows: when
/// asked and the module offers the provider, never for TextShaping. Off
/// Windows it is the only path, so the provider is required.
pub fn choose_wine_bytes(windows: bool, textshaping: bool, wine_bytes: bool, has_provider: bool) -> (r:
    Result<bool, ShapeError>)
    ensures
        r == (if windows {
            Ok(!textshaping && wine_bytes && has_provider)
        } else if has_provider {
            Ok(true)
        } else {
            Err(ShapeError::NoFontBytesProvider)
        }),
{
    if windows {
        if textshaping {
            Ok(false)
        } else {
            Ok(wine_bytes && has_provider)
        }
    } else if has_provider {
        Ok(true)
    } else {
        Err(ShapeError::NoFontBytesProvider)
    }
}

/// The TextShaping timeline of one item, checked against the shaped run:
/// refused when the driver was not armed or when the last captured run is
/// not the final glyph run; otherwise one stage per captured application,
/// numbered from 1. Without the TextShaping backend there is none.
pub fn native_trace(native: bool, armed: bool, steps: &Vec<(u32, Vec<u16>)>, fin: &Vec<u16>) -> (r:
    Result<Vec<(TraceName, Vec<u16>)>, ShapeError>)
    ensures
        !native ==> (r matches Ok(v) && v@.len() == 0),
        native && !armed ==> r == Err::<Vec<(TraceName, Vec<u16>)>, ShapeError>(
            ShapeError::NativeUnsupported,
        ),
        native && armed && !(steps@.len() > 0 && steps@.last().1@ == fin@) ==> r == Err::<
            Vec<(TraceName, Vec<u16>)>,
            ShapeError,
        >(ShapeError::NativeCrossCheck),
        native && armed && steps@.len() > 0 && steps@.last().1@ == fin@ ==> (r matches Ok(v)
            && v@.len() == steps@.len() && forall|k: int|
            0 <= k < steps@.len() ==> (#[trigger] v@[k]).0 == TraceName::Apply((k + 1) as usize)
                && v@[k].1@ == steps@[k].1@),
{
    if !native {
        return Ok(Vec::new());
    }
    if !armed {
        return Err(ShapeError::NativeUnsupported);
    }
    let n = steps.len();
    if n == 0 {
        return Err(ShapeError::NativeCrossCheck);
    }
    let last = &steps[n - 1].1;
    let mut same = last.len() == fin.len();
    if same {
        let mut i: usize = 0;
        while i < fin.len()
            invariant
                last@.len() == fin@.len(),
                i <= fin@.len(),
                same == forall|j: int| 0 <= j < i ==> last@[j] == fin@[j],
            decreases fin.len() - i,
        {
            if last[i] != fin[i] {
                same = false;
            }
            i += 1;
        }
        if same {
            assert(last@ =~= fin@);
        }
    }
    if !same {
        return Err(ShapeError::NativeCrossCheck);
    }
    let mut out: Vec<(TraceName, Vec<u16>)> = Vec::new();
    let mut k: usize = 0;
    while k < n
        invariant
            n == steps@.len(),
            k <= n,
            out@.len() == k,
            forall|j: int|
                0 <= j < k ==> (#[trigger] out@[j]).0 == TraceName::Apply((j + 1) as usize)
                    && out@[j].1@ == steps@[j].1@,
        decreases n - k,
    {
        let g = steps[k].1.clone();
        assert(g@ =~= steps@[k as int].1@);
        out.push((TraceName::Apply(k + 1), g));
        k += 1;
    }
    Ok(out)
}

/// Everything shaped so far.
pub struct ShapeDoc {
    pub stages: Vec<Stage>,
    pub final_glyphs: Vec<GlyphOut>,
    pub messages: Vec<ShapeMessage>,
}

impl ShapeDoc {
    pub fn new() -> (d: ShapeDoc)
        ensures
            d.stages@.len() == 0,
            d.final_glyphs@.len() == 0,
            d.messages@.len() == 0,
    {
        ShapeDoc { stages: Vec::new(), final_glyphs: Vec::new(), messages: Vec::new() }
    }

    /// Add an item's outputs after those of the items before it.
    pub fn append_item(&mut self, item: ItemOut)
        ensures
            final(self).stages@ == old(self).stages@ + item.stages@,
            final(self).final_glyphs@ == old(self).final_glyphs@ + item.final_glyphs@,
            final(self).messages@ == old(self).messages@ + item.messages@,
    {
        let mut item = item;
        self.stages.append(&mut item.stages);
        self.final_glyphs.append(&mut item.final_glyphs);
        self.messages.append(&mut item.messages);
    }

    /// The finished document, refused when no item produced a glyph.
    pub fn close(self) -> (r: Result<ShapeDoc, ShapeError>)
        ensures
            self.final_glyphs@.len() == 0 ==> r == Err::<ShapeDoc, ShapeError>(ShapeError::NoGlyphs),
            self.final_glyphs@.len() > 0 ==> (r matches Ok(d) && d.stages@ == self.stages@
                && d.final_glyphs@ == self.final_glyphs@ && d.messages@ == self.messages@),
    {
        if self.final_glyphs.len() == 0 {
            Err(ShapeError::NoGlyphs)
        } else {
            Ok(self)
        }
    }
}


// ---------------------------------------------------------------------------
// the GDI font
// ---------------------------------------------------------------------------

/// The UTF-16 code units of `c` (a surrogate pair above U+FFFF).
pub open spec fn utf16_of(c: char) -> Seq<u16> {
    let u = c as u32;
    if u < 0x10000 {
        seq![u as u16]
    } else {
        seq![(0xD800 + (u - 0x10000) / 1024) as u16, (0xDC00 + (u - 0x10000) % 1024) as u16]
    }
}

/// `str::encode_utf16`.
pub open spec fn utf16_encode(s: Seq<char>) -> Seq<u16>
    decreases s.len(),
{
    if s.len() == 0 {
        seq![]
    } else {
        utf16_encode(s.drop_last()) + utf16_of(s.last())
    }
}

/// `LOGFONTW.lfFaceName`: the first 31 UTF-16 units of the family name,
/// zero-filled to 32.
pub open spec fn spec_face_name(family: Seq<char>) -> Seq<u16> {
    let e = utf16_encode(family);
    Seq::new(32, |k: int| if k < 31 && k < e.len() {
        e[k]
    } else {
        0u16
    })
}

proof fn lemma_utf16_len(s: Seq<char>)
    ensures
        utf16_encode(s).len() <= 2 * s.len(),
    decreases s.len(),
{
    if s.len() > 0 {
        lemma_utf16_len(s.drop_last());
    }
}

pub fn face_name_utf16(family: &str) -> (r: Vec<u16>)
    ensures
        r@ == spec_face_name(family@),
{
    let cs = str_chars(family);
    let mut e: Vec<u16> = Vec::new();
    let mut i: usize = 0;
    while i < cs.len() && e.len() < 31
        invariant
            i <= cs@.len(),
            e@ == utf16_encode(cs@.take(i as int)),
        decreases cs.len() - i,
    {
        let ghost pre = cs@.take(i as int);
        assert(cs@.take(i + 1).drop_last() =~= pre);
        let u = cs[i] as u32;
        if u < 0x10000 {
            e.push(u as u16);
        } else {
            let v = u - 0x10000;
            proof {
                vstd::utf8::char_is_scalar(cs@[i as int]);
            }
            assert(v < 0x100000);
            e.push((0xD800 + v / 1024) as u16);
            e.push((0xDC00 + v % 1024) as u16);
        }
        i += 1;
        assert(e@ =~= utf16_encode(cs@.take(i as int)));
    }
    proof {
        lemma_utf16_prefix(cs@, i as int);
        if i == cs@.len() {
            assert(cs@.take(i as int) =~= cs@);
        }
        if e@.len() >= 31 {
            let full = utf16_encode(cs@);
            assert(full.take(e@.len() as int) == e@);
            assert(e@.take(31) =~= full.take(31));
        }
    }
    let mut r: Vec<u16> = Vec::new();
    let mut k: usize = 0;
    while k < 32
        invariant
            k <= 32,
            e@.len() >= 31 || e@ == utf16_encode(cs@),
            e@.len() >= 31 ==> e@.take(31) == utf16_encode(cs@).take(31),
            utf16_encode(cs@).len() >= e@.len(),
            r@ == spec_face_name(cs@).take(k as int),
        decreases 32 - k,
    {
        let v = if k < 31 && k < e.len() {
            e[k]
        } else {
            0u16
        };
        proof {
            let full = utf16_encode(cs@);
            if k < 31 && e@.len() >= 31 {
                assert(e@.take(31)[k as int] == e@[k as int]);
                assert(full.take(31)[k as int] == full[k as int]);
                assert(full.len() >= 31);
            }
        }
        r.push(v);
        k += 1;
        assert(r@ =~= spec_face_name(cs@).take(k as int));
    }
    assert(spec_face_name(cs@).take(32) =~= spec_face_name(cs@));
    r
}

/// The encoding of a longer string extends the encoding of its prefix.
proof fn lemma_utf16_prefix(s: Seq<char>, i: int)
    requires
        0 <= i <= s.len(),
    ensures
        utf16_encode(s).len() >= utf16_encode(s.take(i)).len(),
        utf16_encode(s).take(utf16_encode(s.take(i)).len() as int) == utf16_encode(s.take(i)),
    decreases s.len() - i,
{
    if i < s.len() {
        lemma_utf16_prefix(s, i + 1);
        assert(s.take(i + 1).drop_last() =~= s.take(i));
        let a = utf16_encode(s.take(i));
        let b = utf16_encode(s.take(i + 1));
        assert(b == a + utf16_of(s[i]));
        assert(utf16_encode(s).take(a.len() as int) =~= b.take(a.len() as int));
        assert(b.take(a.len() as int) =~= a);
    } else {
        assert(s.take(i) =~= s);
        assert(utf16_encode(s).take(utf16_encode(s).len() as int) =~= utf16_encode(s));
    }
}

/// A `u32` reinterpreted as `i32` (`as i32`).
pub open spec fn wrap_i32(m: u32) -> int {
    if m <= 0x7FFF_FFFF {
        m as int
    } else {
        m - 0x1_0000_0000
    }
}

/// `LOGFONTW.lfHeight`: minus the em size in pixels, which is the units per
/// em (at least 1, taken as `i32`) unless an override is given.
pub fn em_height(upem: u32, override_px: Option<i32>) -> (h: i32)
    requires
        upem != 0x8000_0000,
        override_px != Some(i32::MIN),
    ensures
        h == -(match override_px {
            Some(p) => p as int,
            None => wrap_i32(if upem > 1 {
                upem
            } else {
                1
            }),
        }),
{
    let px: i32 = match override_px {
        Some(p) => p,
        None => {
            let m = if upem > 1 {
                upem
            } else {
                1
            };
            if m <= 0x7FFF_FFFF {
                m as i32
            } else {
                (m as i64 - 0x1_0000_0000) as i32
            }
        },
    };
    -px
}

} // verus!
