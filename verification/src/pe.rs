//! Signature search over a loaded PE image: the image is given as its bytes
//! from the module base (offset = RVA). Bytes outside that slice are never
//! read; a header or section record that would lie outside it ends the search.

use vstd::prelude::*;

verus! {

/// Little-endian 16-bit value at `d[o..o+2]`.
pub open spec fn le16_at(d: Seq<u8>, o: int) -> int {
    d[o] + 256 * d[o + 1]
}

/// Little-endian 32-bit value at `d[o..o+4]`.
pub open spec fn le32_at(d: Seq<u8>, o: int) -> int {
    d[o] + 256 * d[o + 1] + 65536 * d[o + 2] + 16777216 * d[o + 3]
}

/// `sig` occurs in `img` at `p`.
pub open spec fn sig_at(img: Seq<u8>, p: int, sig: Seq<u8>) -> bool {
    0 <= p && p + sig.len() <= img.len() && img.subrange(p, p + sig.len()) == sig
}

/// Little-endian `u16` at `d[o..o+2]`.
pub fn rd_u16(d: &[u8], o: usize) -> (r: u16)
    requires
        o + 1 < d@.len(),
    ensures
        r == le16_at(d@, o as int),
{
    d[o] as u16 + (d[o + 1] as u16) * 256
}

/// Little-endian `u32` at `d[o..o+4]`.
pub fn rd_u32(d: &[u8], o: usize) -> (r: u32)
    requires
        o + 3 < d@.len(),
    ensures
        r == le32_at(d@, o as int),
{
    d[o] as u32 + (d[o + 1] as u32) * 256 + (d[o + 2] as u32) * 65536 + (d[o + 3] as u32)
        * 16777216
}

/// Whether `sig` occurs in `img` at `p`.
pub fn bytes_match(img: &[u8], p: u64, sig: &[u8]) -> (b: bool)
    ensures
        b == sig_at(img@, p as int, sig@),
{
    if p > img.len() as u64 || sig.len() as u64 > img.len() as u64 - p {
        return false;
    }
    let at = p as usize;
    let mut i: usize = 0;
    while i < sig.len()
        invariant
            at == p,
            at + sig@.len() <= img@.len(),
            img@.len() == img.len(),
            i <= sig@.len(),
            forall|j: int| 0 <= j < i ==> img@[at + j] == sig@[j],
        decreases sig.len() - i,
    {
        if img[at + i] != sig[i] {
            assert(img@.subrange(at as int, at + sig@.len())[i as int] != sig@[i as int]);
            return false;
        }
        i += 1;
    }
    assert(img@.subrange(at as int, at + sig@.len()) =~= sig@);
    true
}

/// The positions `p` in `[lo, q)` where `sig` occurs, ascending.
pub open spec fn matches_below(img: Seq<u8>, sig: Seq<u8>, lo: int, q: int) -> Seq<u64>
    decreases q - lo,
{
    if q <= lo {
        seq![]
    } else {
        matches_below(img, sig, lo, q - 1) + if sig_at(img, q - 1, sig) {
            seq![(q - 1) as u64]
        } else {
            seq![]
        }
    }
}

/// Where the section table is: `(number of sections, offset of the first
/// header)`, or `None` when the image has no `MZ` / `P` signature where
/// expected or its headers lie outside the slice.
pub open spec fn pe_layout(img: Seq<u8>) -> Option<(int, int)> {
    if img.len() < 0x40 || img[0] != 0x4D || img[1] != 0x5A {
        None
    } else {
        let pe = le32_at(img, 0x3C);
        if pe + 24 > img.len() || img[pe] != 0x50 {
            None
        } else {
            Some((le16_at(img, pe + 6), pe + 24 + le16_at(img, pe + 20)))
        }
    }
}

/// Offset of section header `i`.
pub open spec fn section_hdr(sections: int, i: int) -> int {
    sections + 40 * i
}

/// How many section headers are read: `nsec`, cut at the first one that
/// does not fit in the slice.
pub open spec fn section_count(img: Seq<u8>, nsec: int, sections: int) -> int {
    let fit = if img.len() >= sections {
        (img.len() - sections) / 40
    } else {
        0
    };
    if nsec < fit {
        nsec
    } else {
        fit
    }
}

/// The signature positions inside section header `s`'s first MiB, when the
/// section is executable (`IMAGE_SCN_MEM_EXECUTE`).
pub open spec fn section_rvas(img: Seq<u8>, sig: Seq<u8>, s: int) -> Seq<u64> {
    let va = le32_at(img, s + 12);
    let vsize = le32_at(img, s + 8);
    let chars = le32_at(img, s + 36);
    if (chars / 0x2000_0000) % 2 == 0 {
        seq![]
    } else {
        let size = if vsize < 0x100000 {
            vsize
        } else {
            0x100000
        };
        matches_below(img, sig, va, va + size + 1 - sig.len())
    }
}

pub open spec fn all_rvas(img: Seq<u8>, sig: Seq<u8>, sections: int, k: nat) -> Seq<u64>
    decreases k,
{
    if k == 0 {
        seq![]
    } else {
        all_rvas(img, sig, sections, (k - 1) as nat) + section_rvas(
            img,
            sig,
            section_hdr(sections, k - 1),
        )
    }
}

/// Every executable-section position of `sig` (1..=64 bytes), section by
/// section, ascending within a section.
pub open spec fn spec_find_all(img: Seq<u8>, sig: Seq<u8>) -> Seq<u64> {
    if sig.len() == 0 || sig.len() > 0x40 {
        seq![]
    } else {
        match pe_layout(img) {
            None => seq![],
            Some((nsec, sections)) => all_rvas(
                img,
                sig,
                sections,
                section_count(img, nsec, sections) as nat,
            ),
        }
    }
}

/// `p` lies in the scanned window of the section whose header is at `h`:
/// the section is executable (bit 0x2000_0000 of its characteristics) and
/// `sig` at `p` fits in its first `min(VirtualSize, 1 MiB)` bytes from its
/// `VirtualAddress`.
pub open spec fn in_exec_window(img: Seq<u8>, sig: Seq<u8>, h: int, p: int) -> bool {
    let va = le32_at(img, h + 12);
    let vsize = le32_at(img, h + 8);
    &&& (le32_at(img, h + 36) / 0x2000_0000) % 2 == 1
    &&& va <= p
    &&& p + sig.len() <= va + (if vsize < 0x100000 { vsize } else { 0x100000 })
}

proof fn lemma_contains_concat(a: Seq<u64>, b: Seq<u64>, x: u64)
    ensures
        (a + b).contains(x) <==> a.contains(x) || b.contains(x),
{
    if (a + b).contains(x) {
        let i = choose|i: int| 0 <= i < (a + b).len() && (a + b)[i] == x;
        if i < a.len() {
            assert(a[i] == x);
        } else {
            assert(b[i - a.len()] == x);
        }
    }
    if a.contains(x) {
        let i = choose|i: int| 0 <= i < a.len() && a[i] == x;
        assert((a + b)[i] == x);
    }
    if b.contains(x) {
        let i = choose|i: int| 0 <= i < b.len() && b[i] == x;
        assert((a + b)[a.len() + i] == x);
    }
}

proof fn lemma_matches_below_iff(img: Seq<u8>, sig: Seq<u8>, lo: int, q: int, x: u64)
    requires
        0 <= lo,
        q <= 0x1_0000_0000_0000_0000,
    ensures
        matches_below(img, sig, lo, q).contains(x) <==> (lo <= x < q && sig_at(img, x as int, sig)),
    decreases q - lo,
{
    if q > lo {
        lemma_matches_below_iff(img, sig, lo, q - 1, x);
        let tail = if sig_at(img, q - 1, sig) {
            seq![(q - 1) as u64]
        } else {
            seq![]
        };
        lemma_contains_concat(matches_below(img, sig, lo, q - 1), tail, x);
        if tail.contains(x) {
            let i = choose|i: int| 0 <= i < tail.len() && tail[i] == x;
            assert(x == q - 1);
        }
        if x == q - 1 && sig_at(img, x as int, sig) {
            assert(tail[0] == x);
        }
    }
}

proof fn lemma_all_rvas_iff(img: Seq<u8>, sig: Seq<u8>, sections: int, n: nat, x: u64)
    ensures
        all_rvas(img, sig, sections, n).contains(x) <==> exists|k: int|
            0 <= k < n && (#[trigger] section_rvas(img, sig, section_hdr(sections, k))).contains(x),
    decreases n,
{
    if n > 0 {
        let m = (n - 1) as nat;
        lemma_all_rvas_iff(img, sig, sections, m, x);
        lemma_contains_concat(
            all_rvas(img, sig, sections, m),
            section_rvas(img, sig, section_hdr(sections, m as int)),
            x,
        );
        if exists|k: int|
            0 <= k < n && (#[trigger] section_rvas(img, sig, section_hdr(sections, k))).contains(x) {
            let k = choose|k: int|
                0 <= k < n && (#[trigger] section_rvas(img, sig, section_hdr(sections, k))).contains(
                    x,
                );
            if k < m {
                assert(exists|k: int|
                    0 <= k < m && (#[trigger] section_rvas(img, sig, section_hdr(sections, k))).contains(
                        x,
                    ));
            }
        }
    }
}

proof fn lemma_section_rvas_iff(img: Seq<u8>, sig: Seq<u8>, h: int, x: u64)
    requires
        1 <= sig.len(),
    ensures
        section_rvas(img, sig, h).contains(x) <==> (in_exec_window(img, sig, h, x as int) && sig_at(
            img,
            x as int,
            sig,
        )),
{
    let va = le32_at(img, h + 12);
    let vsize = le32_at(img, h + 8);
    let size = if vsize < 0x100000 { vsize } else { 0x100000 };
    if (le32_at(img, h + 36) / 0x2000_0000) % 2 == 1 {
        assert(0 <= img[h + 12] && 0 <= img[h + 13] && 0 <= img[h + 14] && 0 <= img[h + 15]);
        assert(img[h + 12] <= 255 && img[h + 13] <= 255 && img[h + 14] <= 255 && img[h + 15] <= 255);
        assert(0 <= va <= 0xFFFF_FFFF);
        assert(0 <= size <= 0x100000);
        lemma_matches_below_iff(img, sig, va, va + size + 1 - sig.len(), x);
    }
}

/// The scan finds every match in its windows: wherever `sig` (1..=64 bytes)
/// occurs in the image at `p` inside the scanned window of one of the
/// section headers that are read, `p` is in the result.
pub proof fn law_scan_finds_every_match(img: Seq<u8>, sig: Seq<u8>, k: int, p: int)
    requires
        1 <= sig.len() <= 0x40,
        pe_layout(img) matches Some((nsec, sections)) && 0 <= k < section_count(img, nsec, sections)
            && in_exec_window(img, sig, sections + 40 * k, p),
        sig_at(img, p, sig),
    ensures
        spec_find_all(img, sig).contains(p as u64),
{
    let (nsec, sections) = pe_layout(img)->0;
    let n = section_count(img, nsec, sections);
    let h = sections + 40 * k;
    assert(0 <= img[h + 12] && img[h + 12] <= 255);
    assert(p <= 0xFFFF_FFFF + 0x100000);
    lemma_section_rvas_iff(img, sig, h, p as u64);
    assert(section_rvas(img, sig, section_hdr(sections, k)).contains(p as u64));
    lemma_all_rvas_iff(img, sig, sections, n as nat, p as u64);
}

/// The scan reports nothing else: every position in the result is a match
/// of `sig` inside the scanned window of one of the section headers read.
pub proof fn law_scan_reports_only_matches(img: Seq<u8>, sig: Seq<u8>, x: u64)
    requires
        spec_find_all(img, sig).contains(x),
    ensures
        sig_at(img, x as int, sig),
        1 <= sig.len() <= 0x40,
        pe_layout(img) matches Some((nsec, sections)) && exists|k: int|
            0 <= k < section_count(img, nsec, sections) && #[trigger] in_exec_window(
                img,
                sig,
                sections + 40 * k,
                x as int,
            ),
{
    let (nsec, sections) = pe_layout(img)->0;
    let n = section_count(img, nsec, sections);
    lemma_all_rvas_iff(img, sig, sections, n as nat, x);
    let k = choose|k: int|
        0 <= k < n && (#[trigger] section_rvas(img, sig, section_hdr(sections, k))).contains(x);
    lemma_section_rvas_iff(img, sig, section_hdr(sections, k), x);
}

fn scan_window(img: &[u8], sig: &[u8], start: u64, end: u64, out: &mut Vec<u64>)
    requires
        1 <= sig@.len() <= 0x40,
        start <= end,
        end <= 0x1_0000_0000 + 0x100000,
    ensures
        final(out)@ == old(out)@ + matches_below(img@, sig@, start as int, end + 1 - sig@.len()),
{
    let ghost base = out@;
    let n = sig.len() as u64;
    let mut p = start;
    while p + n <= end
        invariant
            n == sig@.len(),
            1 <= n <= 0x40,
            start <= end,
            end <= 0x1_0000_0000 + 0x100000,
            start <= p <= end,
            p == start || p <= end + 1 - n,
            out@ == base + matches_below(img@, sig@, start as int, p as int),
        decreases end + 1 - p,
    {
        if bytes_match(img, p, sig) {
            out.push(p);
        }
        p += 1;
        assert(out@ =~= base + matches_below(img@, sig@, start as int, p as int));
    }
    proof {
        if (start as int) >= end + 1 - n {
            assert(matches_below(img@, sig@, start as int, end + 1 - n) =~= Seq::<u64>::empty());
            assert(matches_below(img@, sig@, start as int, start as int) =~= Seq::<u64>::empty());
        }
    }
}

/// Every executable-section match for `sig` (RE/triage helper).
pub fn find_all_sig_rvas(img: &[u8], sig: &[u8]) -> (out: Vec<u64>)
    ensures
        out@ == spec_find_all(img@, sig@),
{
    let mut out: Vec<u64> = Vec::new();
    if sig.len() == 0 || sig.len() > 0x40 {
        return out;
    }
    let len = img.len();
    if len < 0x40 || img[0] != 0x4D || img[1] != 0x5A {
        return out;
    }
    let pe = rd_u32(img, 0x3C) as u64;
    if pe + 24 > len as u64 || img[pe as usize] != 0x50 {
        return out;
    }
    let pe = pe as usize;
    let nsec = rd_u16(img, pe + 6) as u64;
    let opt_size = rd_u16(img, pe + 20) as u64;
    let sections = pe as u64 + 24 + opt_size;
    let ghost count = section_count(img@, nsec as int, sections as int);
    let mut i: u64 = 0;
    while i < nsec
        invariant
            len == img@.len(),
            1 <= sig@.len() <= 0x40,
            nsec <= 0xFFFF,
            sections <= 0xFFFF_FFFF + 24 + 0xFFFF,
            count == section_count(img@, nsec as int, sections as int),
            i <= count,
            out@ == all_rvas(img@, sig@, sections as int, i as nat),
        ensures
            out@ == all_rvas(img@, sig@, sections as int, count as nat),
        decreases nsec - i,
    {
        let s = sections + i * 40;
        if s + 40 > len as u64 {
            assert(i == count);
            break;
        }
        let su = s as usize;
        let va = rd_u32(img, su + 12) as u64;
        let vsize = rd_u32(img, su + 8) as u64;
        let chars = rd_u32(img, su + 36);
        assert((chars & 0x2000_0000 == 0) == ((chars / 0x2000_0000) % 2 == 0)) by (bit_vector);
        if chars & 0x2000_0000 != 0 {
            let size = if vsize < 0x100000 {
                vsize
            } else {
                0x100000
            };
            scan_window(img, sig, va, va + size, &mut out);
        }
        i += 1;
    }
    out
}

/// Scan the executable sections of the image for `sig`: the first match.
pub fn pe_lookup_rva_for_sig(img: &[u8], sig: &[u8]) -> (r: Option<u64>)
    ensures
        r == (if spec_find_all(img@, sig@).len() > 0 {
            Some(spec_find_all(img@, sig@)[0])
        } else {
            None::<u64>
        }),
{
    let all = find_all_sig_rvas(img, sig);
    if all.len() > 0 {
        Some(all[0])
    } else {
        None
    }
}

/// The signature was found neither at the expected offset nor by scanning;
/// `sig` is the signature that was looked for.
#[derive(Debug, PartialEq, Eq)]
pub enum RelocError {
    NotFound { sig: Vec<u8> },
}

fn copy_bytes(b: &[u8]) -> (v: Vec<u8>)
    ensures
        v@ == b@,
{
    let mut v: Vec<u8> = Vec::new();
    let mut i: usize = 0;
    while i < b.len()
        invariant
            i <= b@.len(),
            v@ == b@.take(i as int),
        decreases b.len() - i,
    {
        v.push(b[i]);
        i += 1;
        assert(v@ =~= b@.take(i as int));
    }
    assert(b@.take(b@.len() as int) =~= b@);
    v
}

/// Verify `sig` at `expected`; if it matches return it, else scan the
/// executable sections and return the first match. `expected` 0 forces a scan.
pub fn verify_or_relocate(img: &[u8], expected: u64, sig: &[u8]) -> (r: Result<u64, RelocError>)
    ensures
        expected != 0 && sig_at(img@, expected as int, sig@) ==> r == Ok::<u64, RelocError>(
            expected,
        ),
        !(expected != 0 && sig_at(img@, expected as int, sig@)) && spec_find_all(img@, sig@).len()
            > 0 ==> r == Ok::<u64, RelocError>(spec_find_all(img@, sig@)[0]),
        !(expected != 0 && sig_at(img@, expected as int, sig@)) && spec_find_all(img@, sig@).len()
            == 0 ==> (r matches Err(RelocError::NotFound { sig: s }) && s@ == sig@),
{
    if expected != 0 && bytes_match(img, expected, sig) {
        return Ok(expected);
    }
    match pe_lookup_rva_for_sig(img, sig) {
        Some(r) => Ok(r),
        None => Err(RelocError::NotFound { sig: copy_bytes(sig) }),
    }
}

/// `SizeOfImage` of a PE32+ image from its headers (`[e_lfanew + 80]`), when
/// those bytes lie in `hdr`.
pub fn size_of_image(hdr: &[u8]) -> (r: Option<u32>)
    ensures
        r == (if hdr@.len() >= 0x40 && le32_at(hdr@, 0x3C) + 84 <= hdr@.len() {
            Some(le32_at(hdr@, le32_at(hdr@, 0x3C) + 80) as u32)
        } else {
            None::<u32>
        }),
{
    if hdr.len() < 0x40 {
        return None;
    }
    let pe = rd_u32(hdr, 0x3C) as u64;
    if pe + 84 > hdr.len() as u64 {
        return None;
    }
    Some(rd_u32(hdr, (pe + 80) as usize))
}

/// The first position `p >= from` where `sig` occurs, if any.
pub open spec fn is_first_sig(blob: Seq<u8>, from: int, sig: Seq<u8>, p: int) -> bool {
    &&& from <= p
    &&& sig_at(blob, p, sig)
    &&& forall|q: int| from <= q < p ==> !sig_at(blob, q, sig)
}

/// The unique signature position from `from` on: the first match, when no
/// further match starts at or after its end; `None` when there is no match
/// or the signature is ambiguous.
pub open spec fn spec_unique_sig(blob: Seq<u8>, from: int, sig: Seq<u8>) -> Option<int> {
    if exists|p: int| is_first_sig(blob, from, sig, p) {
        let p = choose|p: int| is_first_sig(blob, from, sig, p);
        if exists|q: int| q >= p + sig.len() && sig_at(blob, q, sig) {
            None
        } else {
            Some(p)
        }
    } else {
        None
    }
}

proof fn lemma_first_sig_unique(blob: Seq<u8>, from: int, sig: Seq<u8>, p: int)
    requires
        is_first_sig(blob, from, sig, p),
    ensures
        (choose|c: int| is_first_sig(blob, from, sig, c)) == p,
{
    let c = choose|c: int| is_first_sig(blob, from, sig, c);
    if c < p {
        assert(!sig_at(blob, c, sig));
    }
    if c > p {
        assert(!sig_at(blob, p, sig));
    }
}

/// Locate a driver entry by its prologue signature: the only match from
/// `from` on (a second match after the first makes it ambiguous: `None`).
pub fn find_unique_sig(blob: &[u8], from: usize, sig: &[u8]) -> (r: Option<usize>)
    requires
        sig@.len() >= 1,
    ensures
        match spec_unique_sig(blob@, from as int, sig@) {
            None => r is None,
            Some(p) => r == Some(p as usize),
        },
{
    let n = sig.len();
    let len = blob.len();
    let mut drv: Option<usize> = None;
    let mut i: usize = from;
    while i <= len && n <= len - i
        invariant
            n == sig@.len(),
            n >= 1,
            len == blob@.len(),
            from <= i,
            drv is None ==> forall|q: int| from <= q < i ==> !sig_at(blob@, q, sig@),
            drv matches Some(p) ==> is_first_sig(blob@, from as int, sig@, p as int) && p + n <= i
                && forall|q: int| p + n <= q < i ==> !sig_at(blob@, q, sig@),
        decreases len + 1 - i,
    {
        if bytes_match(blob, i as u64, sig) {
            match drv {
                None => {
                    drv = Some(i);
                    i += n;
                    continue;
                },
                Some(p) => {
                    proof {
                        lemma_first_sig_unique(blob@, from as int, sig@, p as int);
                    }
                    assert(sig_at(blob@, i as int, sig@));
                    return None;
                },
            }
        }
        i += 1;
    }
    proof {
        match drv {
            None => {
                assert forall|c: int| !is_first_sig(blob@, from as int, sig@, c) by {
                    if c >= i {
                        assert(!sig_at(blob@, c, sig@));
                    }
                }
            },
            Some(p) => {
                lemma_first_sig_unique(blob@, from as int, sig@, p as int);
                assert forall|q: int| q >= p + n implies !sig_at(blob@, q, sig@) by {
                    if q >= i {
                        assert(!sig_at(blob@, q, sig@));
                    }
                }
            },
        }
    }
    drv
}

/// The full prologue of the TextShaping apply driver: `push rbp; push rsi;
/// push r12..r15; lea rbp,[rsp-0x218]; sub rsp,0x318`.
pub open spec fn driver_sig() -> Seq<u8> {
    seq![
        0x40u8, 0x55u8, 0x56u8, 0x41u8, 0x54u8, 0x41u8, 0x55u8, 0x41u8, 0x56u8, 0x41u8,
        0x57u8, 0x48u8, 0x8Du8, 0xACu8, 0x24u8, 0xE8u8, 0xFDu8, 0xFFu8, 0xFFu8, 0x48u8,
        0x81u8, 0xECu8, 0x18u8, 0x03u8,
    ]
}

/// Bytes of the driver prologue that a hook replays: the first three pushes,
/// the largest instruction boundary that leaves room for a 5-byte jump.
pub const DRIVER_REPLAY: usize = 5;

/// The RVA of the TextShaping apply driver in the module image `img`: the
/// only occurrence of its full prologue from 0x1000 on (none, or two or more,
/// give `None`).
pub fn native_driver_rva(img: &[u8]) -> (r: Option<u64>)
    ensures
        match spec_unique_sig(img@, 0x1000, driver_sig()) {
            None => r is None,
            Some(p) => r == Some(p as u64),
        },
{
    let sig: [u8; 24] = [
        0x40, 0x55, 0x56, 0x41, 0x54, 0x41, 0x55, 0x41, 0x56, 0x41,
        0x57, 0x48, 0x8D, 0xAC, 0x24, 0xE8, 0xFD, 0xFF, 0xFF, 0x48,
        0x81, 0xEC, 0x18, 0x03,
    ];
    let sl: &[u8] = sig.as_slice();
    assert(sl@ =~= driver_sig());
    let found = find_unique_sig(img, 0x1000, sl);
    let len = img.len();
    proof {
        if let Some(q) = spec_unique_sig(img@, 0x1000, driver_sig()) {
            assert(is_first_sig(img@, 0x1000, driver_sig(), q));
            assert(q + 24 <= len);
        }
    }
    match found {
        Some(p) => Some(p as u64),
        None => None,
    }
}

} // verus!
