//! Uniscribe (usp10.h) records as plain values, their bit fields, and the
//! HRESULT texts. The C-layout copies that cross into the engine live with
//! the caller; these are the values the shaping logic reads and writes.

#![allow(non_snake_case)]
#![allow(non_camel_case_types)]

use vstd::prelude::*;

use crate::text::{str_chars, string_from_chars};

verus! {

#[derive(Clone, Copy, Debug, Default, PartialEq, Eq)]
pub struct GOFFSET {
    pub du: i32,
    pub dv: i32,
}

#[derive(Clone, Copy, Debug, Default, PartialEq, Eq)]
pub struct OPENTYPE_FEATURE_RECORD {
    pub tagFeature: u32,
    pub lParameter: i32,
}

#[derive(Clone, Copy, Debug, Default, PartialEq, Eq)]
pub struct SCRIPT_CONTROL {
    pub _bitfield: u32,
}

#[derive(Clone, Copy, Debug, Default, PartialEq, Eq)]
pub struct SCRIPT_STATE {
    pub _bitfield: u16,
}

#[derive(Clone, Copy, Debug, Default, PartialEq, Eq)]
pub struct SCRIPT_ANALYSIS {
    pub _bitfield: u16,
    pub s: SCRIPT_STATE,
}

#[derive(Clone, Copy, Debug, Default, PartialEq, Eq)]
pub struct SCRIPT_VISATTR {
    pub _bitfield: u16,
}

#[derive(Clone, Copy, Debug, Default, PartialEq, Eq)]
pub struct SCRIPT_CHARPROP {
    pub _bitfield: u16,
}

#[derive(Clone, Copy, Debug, Default, PartialEq, Eq)]
pub struct SCRIPT_GLYPHPROP {
    pub sva: SCRIPT_VISATTR,
    pub reserved: u16,
}

#[derive(Clone, Copy, Debug, Default, PartialEq, Eq)]
pub struct SCRIPT_ITEM {
    pub iCharPos: i32,
    pub a: SCRIPT_ANALYSIS,
}

/// One range's feature records; `cotfRecords` is their count.
#[derive(Debug, Default, PartialEq, Eq)]
pub struct TEXTRANGE_PROPERTIES {
    pub potfRecords: Vec<OPENTYPE_FEATURE_RECORD>,
    pub cotfRecords: i32,
}

#[derive(Clone, Copy, Debug, Default, PartialEq, Eq)]
pub struct ABC {
    pub abcA: i32,
    pub abcB: u32,
    pub abcC: i32,
}

// SCRIPT_ANALYSIS : u16 { eScript:10 fRTL:1 fLayoutRTL:1 fLinkBefore:1
//                         fLinkAfter:1 fLogicalOrder:1 fNoGlyphIndex:1 }
// SCRIPT_STATE    : u16 { uBidiLevel:5 ... fArabicNumContext:1 (bit 11) ... }
pub const A_ESCRIPT_MASK: u16 = 0x03FF;

pub const A_FRTL: u16 = 0x0400;

pub const A_FLOGICAL_ORDER: u16 = 0x4000;

pub const S_FARABICNUMCTX: u16 = 0x0800;

pub const S_UBIDILEVEL_MASK: u16 = 0x001F;

pub const E_OUTOFMEMORY: i32 = -2147024882;

pub const E_INVALIDARG: i32 = -2147024809;

/// `eScript`: the low ten bits.
pub fn ana_script(a: &SCRIPT_ANALYSIS) -> (r: u16)
    ensures
        r == a._bitfield % 1024,
{
    let x = a._bitfield;
    let r = x & A_ESCRIPT_MASK;
    assert(x & 0x03FF == x % 1024) by (bit_vector);
    r
}

/// `fRTL`: bit 10.
pub fn ana_rtl(a: &SCRIPT_ANALYSIS) -> (r: bool)
    ensures
        r == ((a._bitfield / 1024) % 2 == 1),
{
    let x = a._bitfield;
    let r = x & A_FRTL != 0;
    assert((x & 0x0400 != 0) == ((x / 1024) % 2 == 1)) by (bit_vector);
    r
}

/// The analysis with `fLogicalOrder` (bit 14) set and every other bit kept.
pub fn with_logical_order(a: SCRIPT_ANALYSIS) -> (r: SCRIPT_ANALYSIS)
    ensures
        r.s == a.s,
        (r._bitfield / 16384) % 2 == 1,
        r._bitfield % 16384 == a._bitfield % 16384,
        r._bitfield / 32768 == a._bitfield / 32768,
{
    let b = a._bitfield | A_FLOGICAL_ORDER;
    let x = a._bitfield;
    assert((b / 16384) % 2 == 1 && b % 16384 == x % 16384 && b / 32768 == x / 32768) by (bit_vector)
        requires
            b == x | 0x4000u16,
    ;
    SCRIPT_ANALYSIS { _bitfield: b, s: a.s }
}

/// The itemizer state for paragraph level `base_level` (0 = LTR, 1 = RTL):
/// `uBidiLevel` = the level, and `fArabicNumContext` set for RTL.
pub fn itemize_state(base_level: u16) -> (r: SCRIPT_STATE)
    requires
        base_level <= 1,
    ensures
        r._bitfield == if base_level == 1 {
            0x0801u16
        } else {
            0u16
        },
{
    let mut state = SCRIPT_STATE { _bitfield: 0 };
    state._bitfield = (state._bitfield & !S_UBIDILEVEL_MASK) | (base_level & S_UBIDILEVEL_MASK);
    if base_level == 1 {
        state._bitfield = state._bitfield | S_FARABICNUMCTX;
    }
    assert((0u16 & !0x001Fu16) | (1u16 & 0x001Fu16) == 1u16) by (bit_vector);
    assert((0u16 & !0x001Fu16) | (0u16 & 0x001Fu16) == 0u16) by (bit_vector);
    assert(1u16 | 0x0800u16 == 0x0801u16) by (bit_vector);
    state
}

/// The one range of feature records over a whole run, in request order.
pub fn range_properties(features: &Vec<(u32, i32)>) -> (r: TEXTRANGE_PROPERTIES)
    requires
        features.len() <= i32::MAX,
    ensures
        r.cotfRecords == features.len(),
        r.potfRecords.len() == features.len(),
        forall|i: int|
            0 <= i < features.len() ==> (#[trigger] r.potfRecords@[i]).tagFeature == features@[i].0
                && r.potfRecords@[i].lParameter == features@[i].1,
{
    let mut recs: Vec<OPENTYPE_FEATURE_RECORD> = Vec::new();
    let mut i: usize = 0;
    while i < features.len()
        invariant
            i <= features.len(),
            recs.len() == i,
            forall|j: int|
                0 <= j < i ==> (#[trigger] recs@[j]).tagFeature == features@[j].0
                    && recs@[j].lParameter == features@[j].1,
        decreases features.len() - i,
    {
        let (tag, param) = features[i];
        recs.push(OPENTYPE_FEATURE_RECORD { tagFeature: tag, lParameter: param });
        i += 1;
    }
    let n = recs.len() as i32;
    TEXTRANGE_PROPERTIES { potfRecords: recs, cotfRecords: n }
}

/// The name of an HRESULT.
pub open spec fn spec_hres_msg(hr: i32) -> Seq<char> {
    if hr == 0 {
        seq!['S', '_', 'O', 'K']
    } else if hr == E_OUTOFMEMORY {
        seq!['E', '_', 'O', 'U', 'T', 'O', 'F', 'M', 'E', 'M', 'O', 'R', 'Y']
    } else if hr == E_INVALIDARG {
        seq!['E', '_', 'I', 'N', 'V', 'A', 'L', 'I', 'D', 'A', 'R', 'G']
    } else {
        seq!['H', 'R', 'E', 'S', 'U', 'L', 'T', ' ', 'e', 'r', 'r', 'o', 'r']
    }
}

pub fn hres_msg(hr: i32) -> (r: &'static str)
    ensures
        r@ == spec_hres_msg(hr),
{
    if hr == 0 {
        let s = "S_OK";
        proof {
            reveal_strlit("S_OK");
        }
        s
    } else if hr == E_OUTOFMEMORY {
        let s = "E_OUTOFMEMORY";
        proof {
            reveal_strlit("E_OUTOFMEMORY");
        }
        s
    } else if hr == E_INVALIDARG {
        let s = "E_INVALIDARG";
        proof {
            reveal_strlit("E_INVALIDARG");
        }
        s
    } else {
        let s = "HRESULT error";
        proof {
            reveal_strlit("HRESULT error");
        }
        s
    }
}

/// Upper-case hexadecimal digit of `d` (0..16).
pub open spec fn hex_digit_upper(d: int) -> char {
    if d < 10 {
        ((48 + d) as u32) as char
    } else {
        ((55 + d) as u32) as char
    }
}

/// The eight upper-case hex digits of `u` (`{:08X}`).
pub open spec fn hex8(u: u32) -> Seq<char> {
    Seq::new(8, |i: int| hex_digit_upper(((u as int) / pow16(7 - i)) % 16))
}

pub open spec fn pow16(e: int) -> int
    decreases e,
{
    if e <= 0 {
        1
    } else {
        16 * pow16(e - 1)
    }
}

/// `"{name} (0x{:08X})"` of an HRESULT, the code taken as `u32`.
pub open spec fn spec_hr_fmt(hr: i32) -> Seq<char> {
    spec_hres_msg(hr) + seq![' ', '(', '0', 'x'] + hex8(hr as u32) + seq![')']
}

fn hex_char(d: u32) -> (c: char)
    requires
        d < 16,
    ensures
        c == hex_digit_upper(d as int),
{
    if d < 10 {
        let cs = ['0', '1', '2', '3', '4', '5', '6', '7', '8', '9'];
        cs[d as usize]
    } else {
        let cs = ['A', 'B', 'C', 'D', 'E', 'F'];
        cs[(d - 10) as usize]
    }
}

/// `"{name} (0x{:08X})"`.
pub fn hr_fmt(hr: i32) -> (s: String)
    ensures
        s@ == spec_hr_fmt(hr),
{
    let mut v = str_chars(hres_msg(hr));
    v.push(' ');
    v.push('(');
    v.push('0');
    v.push('x');
    let ghost head = v@;
    let u = hr as u32;
    let divs: [u32; 8] = [0x1000_0000, 0x100_0000, 0x10_0000, 0x1_0000, 0x1000, 0x100, 0x10, 0x1];
    let mut i: usize = 0;
    proof {
        reveal_with_fuel(pow16, 8);
    }
    while i < 8
        invariant
            i <= 8,
            v@ == head + hex8(u).take(i as int),
            divs@ == seq![
                0x1000_0000u32,
                0x100_0000u32,
                0x10_0000u32,
                0x1_0000u32,
                0x1000u32,
                0x100u32,
                0x10u32,
                0x1u32,
            ],
            forall|k: int| 0 <= k < 8 ==> divs@[k] == pow16(7 - k),
        decreases 8 - i,
    {
        let d = (u / divs[i]) % 16;
        let c = hex_char(d);
        v.push(c);
        i += 1;
        assert(v@ =~= head + hex8(u).take(i as int));
    }
    v.push(')');
    assert(hex8(u).take(8) =~= hex8(u));
    assert(v@ =~= spec_hr_fmt(hr));
    string_from_chars(&v)
}

} // verus!
