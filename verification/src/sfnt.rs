//! sfnt (TrueType / OpenType / TTC) header reading: units-per-em and glyph
//! count (`head`, `maxp`) and the Windows family name (`name`).

use vstd::prelude::*;

use crate::text::string_from_chars;

verus! {

/// Big-endian 16-bit value at `d[o..o+2]`.
pub open spec fn be16_at(d: Seq<u8>, o: int) -> int {
    d[o] * 256 + d[o + 1]
}

/// Big-endian 32-bit value at `d[o..o+4]`.
pub open spec fn be32_at(d: Seq<u8>, o: int) -> int {
    d[o] * 16777216 + d[o + 1] * 65536 + d[o + 2] * 256 + d[o + 3]
}

/// `d[o..o+4]` spells the four bytes `t`.
pub open spec fn tag_is(d: Seq<u8>, o: int, t: (u8, u8, u8, u8)) -> bool {
    d[o] == t.0 && d[o + 1] == t.1 && d[o + 2] == t.2 && d[o + 3] == t.3
}

pub open spec fn ttcf() -> (u8, u8, u8, u8) {
    (0x74, 0x74, 0x63, 0x66)
}

pub open spec fn otto() -> (u8, u8, u8, u8) {
    (0x4F, 0x54, 0x54, 0x4F)
}

pub open spec fn truetype_1() -> (u8, u8, u8, u8) {
    (0x00, 0x01, 0x00, 0x00)
}

pub open spec fn truetype_true() -> (u8, u8, u8, u8) {
    (0x74, 0x72, 0x75, 0x65)
}

pub open spec fn typ1() -> (u8, u8, u8, u8) {
    (0x74, 0x79, 0x70, 0x31)
}

pub open spec fn head_tag() -> (u8, u8, u8, u8) {
    (0x68, 0x65, 0x61, 0x64)
}

pub open spec fn maxp_tag() -> (u8, u8, u8, u8) {
    (0x6D, 0x61, 0x78, 0x70)
}

pub open spec fn name_tag() -> (u8, u8, u8, u8) {
    (0x6E, 0x61, 0x6D, 0x65)
}

/// Where the table directory starts (`num`), or `None` when the blob is not
/// recognised. For a collection (`ttcf`) it is the first entry of the
/// `tableDirectoryOffsets` array (offset 12): the first font's directory,
/// which must leave room for its 12-byte header.
pub open spec fn sfnt_dir(d: Seq<u8>, allow_typ1: bool) -> Option<int> {
    if d.len() < 12 {
        None
    } else if tag_is(d, 0, ttcf()) {
        if d.len() < 16 {
            None
        } else if be32_at(d, 12) + 12 > d.len() {
            None
        } else {
            Some(be32_at(d, 12))
        }
    } else if tag_is(d, 0, otto()) || tag_is(d, 0, truetype_1()) || tag_is(d, 0, truetype_true())
        || (allow_typ1 && tag_is(d, 0, typ1())) {
        Some(0)
    } else {
        None
    }
}


/// Offset of table record `i` of the directory at `num`.
pub open spec fn table_rec(num: int, i: int) -> int {
    num + 12 + 16 * i
}

/// How many table records are read: `ntables`, cut at the first record
/// that does not fit in the blob.
pub open spec fn table_count(d: Seq<u8>, num: int, ntables: int) -> int {
    let fit = if d.len() >= num + 12 {
        (d.len() - num - 12) / 16
    } else {
        0
    };
    if ntables < fit {
        ntables
    } else {
        fit
    }
}

/// The offset given by the last record tagged `t` among the first `k`.
pub open spec fn last_table(d: Seq<u8>, num: int, k: nat, t: (u8, u8, u8, u8)) -> Option<int>
    decreases k,
{
    if k == 0 {
        None
    } else if tag_is(d, table_rec(num, k - 1), t) {
        Some(be32_at(d, table_rec(num, k - 1) + 8))
    } else {
        last_table(d, num, (k - 1) as nat, t)
    }
}

/// (offset, length) given by the first record tagged `t` among the first `k`.
pub open spec fn first_table(d: Seq<u8>, num: int, k: nat, t: (u8, u8, u8, u8)) -> Option<
    (int, int),
>
    decreases k,
{
    if k == 0 {
        None
    } else {
        match first_table(d, num, (k - 1) as nat, t) {
            Some(x) => Some(x),
            None => if tag_is(d, table_rec(num, k - 1), t) {
                Some(
                    (
                        be32_at(d, table_rec(num, k - 1) + 8),
                        be32_at(d, table_rec(num, k - 1) + 12),
                    ),
                )
            } else {
                None
            },
        }
    }
}

/// `(upem, glyph_count)`: `head.unitsPerEm` (default 2048) and
/// `maxp.numGlyphs` (default 0), each from the last directory record of that
/// table; (2048, 0) for a blob that is not an sfnt.
pub open spec fn spec_sfnt_meta(d: Seq<u8>) -> (u32, u32) {
    match sfnt_dir(d, true) {
        None => (2048, 0),
        Some(num) => {
            let k = table_count(d, num, be16_at(d, num + 4));
            let upem = match last_table(d, num, k as nat, head_tag()) {
                Some(o) => if o + 20 <= d.len() {
                    be16_at(d, o + 18)
                } else {
                    2048
                },
                None => 2048,
            };
            let glyphs = match last_table(d, num, k as nat, maxp_tag()) {
                Some(o) => if o + 6 <= d.len() {
                    be16_at(d, o + 4)
                } else {
                    0
                },
                None => 0,
            };
            (upem as u32, glyphs as u32)
        },
    }
}

/// Big-endian `u16` at `d[o..o+2]`.
pub fn be16(d: &[u8], o: usize) -> (r: u16)
    requires
        o + 1 < d@.len(),
    ensures
        r == be16_at(d@, o as int),
{
    (d[o] as u16) * 256 + d[o + 1] as u16
}

/// Big-endian `u32` at `d[o..o+4]`.
pub fn be32(d: &[u8], o: usize) -> (r: u32)
    requires
        o + 3 < d@.len(),
    ensures
        r == be32_at(d@, o as int),
{
    (d[o] as u32) * 16777216 + (d[o + 1] as u32) * 65536 + (d[o + 2] as u32) * 256 + d[o
        + 3] as u32
}

fn tag_matches(d: &[u8], o: usize, t: (u8, u8, u8, u8)) -> (b: bool)
    requires
        o + 3 < d@.len(),
    ensures
        b == tag_is(d@, o as int, t),
{
    d[o] == t.0 && d[o + 1] == t.1 && d[o + 2] == t.2 && d[o + 3] == t.3
}

/// The directory position `num` (see [`sfnt_dir`]).
fn find_dir(data: &[u8], allow_typ1: bool) -> (r: Option<usize>)
    ensures
        match sfnt_dir(data@, allow_typ1) {
            None => r is None,
            Some(num) => r == Some(num as usize) && num + 12 <= data@.len(),
        },
{
    let len = data.len();
    if len < 12 {
        return None;
    }
    if tag_matches(data, 0, (0x74, 0x74, 0x63, 0x66)) {
        if len < 16 {
            return None;
        }
        let of = be32(data, 12) as u64;
        if of + 12 > len as u64 {
            return None;
        }
        return Some(of as usize);
    }
    if tag_matches(data, 0, (0x4F, 0x54, 0x54, 0x4F)) || tag_matches(data, 0, (0x00, 0x01, 0x00, 0x00))
        || tag_matches(data, 0, (0x74, 0x72, 0x75, 0x65)) || (allow_typ1 && tag_matches(
        data,
        0,
        (0x74, 0x79, 0x70, 0x31),
    )) {
        Some(0)
    } else {
        None
    }
}

/// (upem, glyph_count) from a (possibly TTC) sfnt blob; for a collection,
/// those of its first font.
pub fn sfnt_meta(data: &[u8]) -> (r: (u32, u32))
    ensures
        r == spec_sfnt_meta(data@),
{
    let len = data.len();
    let num = match find_dir(data, true) {
        None => return (2048, 0),
        Some(num) => num,
    };
    let ntables = be16(data, num + 4) as usize;
    let ghost k = table_count(data@, num as int, ntables as int);
    let mut head_off: Option<u64> = None;
    let mut maxp_off: Option<u64> = None;
    let mut i: usize = 0;
    while i < ntables
        invariant
            len == data@.len(),
            num + 12 <= len,
            ntables <= 0xFFFF,
            k == table_count(data@, num as int, ntables as int),
            i <= k,
            head_off == (match last_table(data@, num as int, i as nat, head_tag()) {
                Some(o) => Some(o as u64),
                None => None::<u64>,
            }),
            maxp_off == (match last_table(data@, num as int, i as nat, maxp_tag()) {
                Some(o) => Some(o as u64),
                None => None::<u64>,
            }),
            forall|o: int|
                last_table(data@, num as int, i as nat, head_tag()) == Some(o) ==> 0 <= o
                    <= 0xFFFF_FFFF,
            forall|o: int|
                last_table(data@, num as int, i as nat, maxp_tag()) == Some(o) ==> 0 <= o
                    <= 0xFFFF_FFFF,
        ensures
            i == k,
            head_off == (match last_table(data@, num as int, k as nat, head_tag()) {
                Some(o) => Some(o as u64),
                None => None::<u64>,
            }),
            maxp_off == (match last_table(data@, num as int, k as nat, maxp_tag()) {
                Some(o) => Some(o as u64),
                None => None::<u64>,
            }),
        decreases ntables - i,
    {
        if len - (num + 12) < i * 16 + 16 {
            assert(i == k);
            break;
        }
        let rec = num + 12 + i * 16;
        if tag_matches(data, rec, (0x68, 0x65, 0x61, 0x64)) {
            head_off = Some(be32(data, rec + 8) as u64);
        }
        if tag_matches(data, rec, (0x6D, 0x61, 0x78, 0x70)) {
            maxp_off = Some(be32(data, rec + 8) as u64);
        }
        i += 1;
    }
    let upem: u32 = match head_off {
        Some(o) => if o + 20 <= len as u64 {
            be16(data, (o + 18) as usize) as u32
        } else {
            2048
        },
        None => 2048,
    };
    let nglyphs: u32 = match maxp_off {
        Some(o) => if o + 6 <= len as u64 {
            be16(data, (o + 4) as usize) as u32
        } else {
            0
        },
        None => 0,
    };
    (upem, nglyphs)
}


// ---------------------------------------------------------------------------
// family name
// ---------------------------------------------------------------------------

/// Offset of name record `i` of the `name` table at `noff`.
pub open spec fn name_rec(noff: int, i: int) -> int {
    noff + 6 + 12 * i
}

/// How many name records are read: `count`, cut at the first record that
/// leaves the blob or the `name` table (`nlen` bytes).
pub open spec fn name_count(d: Seq<u8>, noff: int, nlen: int, count: int) -> int {
    let c1 = if d.len() >= noff + 6 {
        (d.len() - noff - 6) / 12
    } else {
        0
    };
    let c2 = if nlen >= 6 {
        (nlen - 6) / 12
    } else {
        0
    };
    let c = if c1 < c2 {
        c1
    } else {
        c2
    };
    if count < c {
        count
    } else {
        c
    }
}

pub open spec fn rec_name_id(d: Seq<u8>, r: int) -> int {
    be16_at(d, r + 6)
}

pub open spec fn rec_len(d: Seq<u8>, r: int) -> int {
    be16_at(d, r + 8)
}

/// Where the string of record `r` starts, `strings` being the string storage.
pub open spec fn rec_str(d: Seq<u8>, strings: int, r: int) -> int {
    strings + be16_at(d, r + 10)
}

/// A record that may name the family: Windows platform (3), Unicode BMP (1)
/// or full (10) encoding, nameID 1 or 16, a string inside the blob that
/// decodes to at least one character.
pub open spec fn eligible(d: Seq<u8>, strings: int, r: int) -> bool {
    &&& be16_at(d, r) == 3
    &&& (be16_at(d, r + 2) == 1 || be16_at(d, r + 2) == 10)
    &&& (rec_name_id(d, r) == 1 || rec_name_id(d, r) == 16)
    &&& rec_str(d, strings, r) + rec_len(d, r) <= d.len()
    &&& rec_len(d, r) >= 2
}

/// The record kept after the first `k`: the first eligible one, replaced
/// once by a later nameID 1 record while the kept one has nameID 16.
pub open spec fn pick(d: Seq<u8>, noff: int, strings: int, k: nat) -> Option<int>
    decreases k,
{
    if k == 0 {
        None
    } else {
        let b = pick(d, noff, strings, (k - 1) as nat);
        let r = name_rec(noff, k - 1);
        if eligible(d, strings, r) && (b is None || (rec_name_id(d, r) == 1 && rec_name_id(
            d,
            name_rec(noff, b->0),
        ) != 1)) {
            Some(k - 1)
        } else {
            b
        }
    }
}

/// A UTF-16 code unit as a `char`; a lone surrogate becomes U+FFFD.
pub open spec fn unit_char(u: int) -> char {
    if 0xD800 <= u <= 0xDFFF {
        '\u{FFFD}'
    } else {
        u as char
    }
}

/// The UTF-16BE string of `len` bytes at `so`, unit by unit (an odd last byte is ignored).
pub open spec fn decode_utf16be(d: Seq<u8>, so: int, len: int) -> Seq<char> {
    Seq::new((len / 2) as nat, |j: int| unit_char(be16_at(d, so + 2 * j)))
}

/// The Windows family name: nameID 1 (the GDI family), else nameID 16.
pub open spec fn spec_sfnt_family(d: Seq<u8>) -> Option<Seq<char>> {
    match sfnt_dir(d, false) {
        None => None,
        Some(num) => {
            let k = table_count(d, num, be16_at(d, num + 4));
            match first_table(d, num, k as nat, name_tag()) {
                None => None,
                Some((noff, nlen)) => if noff + 6 > d.len() {
                    None
                } else {
                    let strings = noff + be16_at(d, noff + 4);
                    let n = name_count(d, noff, nlen, be16_at(d, noff + 2));
                    match pick(d, noff, strings, n as nat) {
                        None => None,
                        Some(i) => {
                            let r = name_rec(noff, i);
                            Some(decode_utf16be(d, rec_str(d, strings, r), rec_len(d, r)))
                        },
                    }
                },
            }
        },
    }
}

/// Trusted: `char::from_u32` (std), claimed as documented: `None` for a
/// surrogate code point or one above U+10FFFF, else the `char` with that code.
#[verifier::external_body]
fn char_from_u32(u: u32) -> (r: Option<char>)
    ensures
        r == (if (0xD800 <= u <= 0xDFFF) || u > 0x10FFFF {
            None
        } else {
            Some(u as char)
        }),
{
    char::from_u32(u)
}

fn decode_name(data: &[u8], so: usize, len: usize) -> (v: Vec<char>)
    requires
        so + len <= data@.len(),
        so + len <= usize::MAX,
    ensures
        v@ == decode_utf16be(data@, so as int, len as int),
{
    let mut v: Vec<char> = Vec::new();
    let units = len / 2;
    let mut j: usize = 0;
    while j < units
        invariant
            so + len <= data@.len(),
            so + len <= usize::MAX,
            units == len / 2,
            j <= units,
            v@ == decode_utf16be(data@, so as int, len as int).take(j as int),
        decreases units - j,
    {
        assert(j + j + 2 <= len);
        let u = be16(data, so + j + j);
        let c = match char_from_u32(u as u32) {
            Some(c) => c,
            None => '\u{FFFD}',
        };
        v.push(c);
        j += 1;
        assert(v@ =~= decode_utf16be(data@, so as int, len as int).take(j as int));
    }
    assert(decode_utf16be(data@, so as int, len as int).take(units as int) =~= decode_utf16be(
        data@,
        so as int,
        len as int,
    ));
    v
}

/// Extract the Windows family name (nameID 1, preferred; 16 fallback) from an
/// sfnt blob: the face name to select via `CreateFontIndirectW`.
pub fn sfnt_family(data: &[u8]) -> (r: Option<String>)
    ensures
        match spec_sfnt_family(data@) {
            None => r is None,
            Some(s) => r matches Some(x) && x@ == s,
        },
{
    let len = data.len();
    let num = match find_dir(data, false) {
        None => return None,
        Some(num) => num,
    };
    let ntables = be16(data, num + 4) as usize;
    let ghost k = table_count(data@, num as int, ntables as int);
    let mut name_off: Option<(u32, u32)> = None;
    let mut i: usize = 0;
    while i < ntables
        invariant_except_break
            name_off is None,
            first_table(data@, num as int, i as nat, name_tag()) is None,
        invariant
            len == data@.len(),
            num + 12 <= len,
            ntables <= 0xFFFF,
            k == table_count(data@, num as int, ntables as int),
            i <= k,
        ensures
            i <= k,
            match name_off {
                None => i == k && first_table(data@, num as int, k as nat, name_tag()) is None,
                Some((o, l)) => first_table(data@, num as int, k as nat, name_tag()) == Some(
                    (o as int, l as int),
                ),
            },
        decreases ntables - i,
    {
        if len - (num + 12) < i * 16 + 16 {
            assert(i == k);
            break;
        }
        let rec = num + 12 + i * 16;
        if tag_matches(data, rec, (0x6E, 0x61, 0x6D, 0x65)) {
            name_off = Some((be32(data, rec + 8), be32(data, rec + 12)));
            proof {
                lemma_first_table_stays(data@, num as int, (i + 1) as nat, k as nat, name_tag());
            }
            break;
        }
        i += 1;
    }
    let (noff, nlen) = match name_off {
        None => return None,
        Some((o, l)) => (o as u64, l as u64),
    };
    if noff + 6 > len as u64 {
        return None;
    }
    let noffu = noff as usize;
    let count = be16(data, noffu + 2) as u64;
    let str_off = be16(data, noffu + 4) as u64;
    let strings = noff + str_off;
    let ghost n = name_count(data@, noff as int, nlen as int, count as int);
    let mut best: Option<(u16, Vec<char>)> = None;
    let ghost mut best_idx: int = 0;
    let mut q: u64 = 0;
    while q < count
        invariant
            len == data@.len(),
            noff + 6 <= len,
            noff <= 0xFFFF_FFFF,
            nlen <= 0xFFFF_FFFF,
            count <= 0xFFFF,
            strings == noff + str_off,
            str_off <= 0xFFFF,
            n == name_count(data@, noff as int, nlen as int, count as int),
            q <= n,
            match pick(data@, noff as int, strings as int, q as nat) {
                None => best is None,
                Some(bi) => best matches Some((id, s)) && 0 <= bi < q && id == rec_name_id(
                    data@,
                    name_rec(noff as int, bi),
                ) && s@ == decode_utf16be(
                    data@,
                    rec_str(data@, strings as int, name_rec(noff as int, bi)),
                    rec_len(data@, name_rec(noff as int, bi)),
                ),
            },
        ensures
            match pick(data@, noff as int, strings as int, n as nat) {
                None => best is None,
                Some(bi) => best matches Some((id, s)) && s@ == decode_utf16be(
                    data@,
                    rec_str(data@, strings as int, name_rec(noff as int, bi)),
                    rec_len(data@, name_rec(noff as int, bi)),
                ),
            },
        decreases count - q,
    {
        let rec = noff + 6 + q * 12;
        if rec + 12 > len as u64 || rec + 12 > noff + nlen {
            assert(q == n);
            break;
        }
        let r = rec as usize;
        let platform = be16(data, r);
        let encoding = be16(data, r + 2);
        let name_id = be16(data, r + 6);
        let slen = be16(data, r + 8) as u64;
        let off = be16(data, r + 10) as u64;
        let ghost prev = pick(data@, noff as int, strings as int, q as nat);
        if platform == 3 && (encoding == 1 || encoding == 10) && (name_id == 1 || name_id == 16) {
            let so = strings + off;
            if so + slen <= len as u64 && slen >= 2 {
                let take = match &best {
                    None => true,
                    Some((cur_id, _)) => name_id == 1 && *cur_id != 1,
                };
                if take {
                    let s = decode_name(data, so as usize, slen as usize);
                    best = Some((name_id, s));
                }
            }
        }
        q += 1;
    }
    match best {
        None => None,
        Some((_, s)) => Some(string_from_chars(&s)),
    }
}

proof fn lemma_first_table_stays(d: Seq<u8>, num: int, i: nat, k: nat, t: (u8, u8, u8, u8))
    requires
        i <= k,
        first_table(d, num, i, t) is Some,
    ensures
        first_table(d, num, k, t) == first_table(d, num, i, t),
    decreases k - i,
{
    if i < k {
        lemma_first_table_stays(d, num, i, (k - 1) as nat, t);
    }
}


/// The first eligible record with nameID `id` among the first `k`.
pub open spec fn first_with(d: Seq<u8>, noff: int, strings: int, k: nat, id: int) -> Option<int>
    decreases k,
{
    if k == 0 {
        None
    } else {
        match first_with(d, noff, strings, (k - 1) as nat, id) {
            Some(i) => Some(i),
            None => if eligible(d, strings, name_rec(noff, k - 1)) && rec_name_id(
                d,
                name_rec(noff, k - 1),
            ) == id {
                Some(k - 1)
            } else {
                None
            },
        }
    }
}

proof fn lemma_first_with(d: Seq<u8>, noff: int, strings: int, k: nat, id: int)
    ensures
        first_with(d, noff, strings, k, id) matches Some(i) ==> 0 <= i < k && rec_name_id(
            d,
            name_rec(noff, i),
        ) == id,
    decreases k,
{
    if k > 0 {
        lemma_first_with(d, noff, strings, (k - 1) as nat, id);
    }
}

/// The family name comes from the first usable nameID 1 record; only when
/// there is none, from the first usable nameID 16 record.
pub proof fn law_family_prefers_name_id_1(d: Seq<u8>, noff: int, strings: int, k: nat)
    ensures
        pick(d, noff, strings, k) == (if first_with(d, noff, strings, k, 1) is Some {
            first_with(d, noff, strings, k, 1)
        } else {
            first_with(d, noff, strings, k, 16)
        }),
    decreases k,
{
    if k > 0 {
        law_family_prefers_name_id_1(d, noff, strings, (k - 1) as nat);
        lemma_first_with(d, noff, strings, (k - 1) as nat, 1);
        lemma_first_with(d, noff, strings, (k - 1) as nat, 16);
    }
}

/// The face to ask for: the font's own family name, else the font file's
/// stem, else `fallback`.
pub fn face_family(family: Option<String>, stem: Option<String>, fallback: &str) -> (r: String)
    ensures
        r@ == match (family, stem) {
            (Some(f), _) => f@,
            (None, Some(t)) => t@,
            (None, None) => fallback@,
        },
{
    match family {
        Some(f) => f,
        None => match stem {
            Some(t) => t,
            None => fallback.to_owned(),
        },
    }
}

} // verus!
