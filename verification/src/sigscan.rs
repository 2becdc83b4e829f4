//! Hex signatures: `"48 8B, 05"` to bytes, and the search for such a
//! signature in the executable sections of a module image.

use vstd::prelude::*;
use crate::text::{is_whitespace, spec_is_whitespace, str_chars};
use crate::pe::{find_all_sig_rvas, spec_find_all};

verus! {

/// Why a hex signature was refused.
#[derive(Debug, Clone, Copy, PartialEq, Eq)]
pub enum HexError {
    /// The cleaned text has an odd number of bytes.
    OddLength,
    /// Byte `at` (counting from 0) is not a two-digit hex number.
    BadDigit { at: usize },
}

/// Separators dropped before decoding: any whitespace, and `,`.
pub open spec fn keeps_hex_char(c: char) -> bool {
    !spec_is_whitespace(c) && c != ','
}

/// The characters of `s` without separators, in order.
pub open spec fn hex_clean(s: Seq<char>) -> Seq<char>
    decreases s.len(),
{
    if s.len() == 0 {
        seq![]
    } else {
        hex_clean(s.drop_last()) + if keeps_hex_char(s.last()) {
            seq![s.last()]
        } else {
            seq![]
        }
    }
}

/// Bytes of `c` in UTF-8.
pub open spec fn utf8_len(c: char) -> nat {
    if (c as u32) < 0x80 {
        1
    } else if (c as u32) < 0x800 {
        2
    } else if (c as u32) < 0x10000 {
        3
    } else {
        4
    }
}

/// Bytes of `s` in UTF-8.
pub open spec fn utf8_total(s: Seq<char>) -> nat
    decreases s.len(),
{
    if s.len() == 0 {
        0
    } else {
        utf8_total(s.drop_last()) + utf8_len(s.last())
    }
}

/// Value of a hex digit.
pub open spec fn hex_digit(c: char) -> Option<u8> {
    let u = c as u32;
    if 0x30 <= u <= 0x39 {
        Some((u - 0x30) as u8)
    } else if 0x41 <= u <= 0x46 {
        Some((u - 0x41 + 10) as u8)
    } else if 0x61 <= u <= 0x66 {
        Some((u - 0x61 + 10) as u8)
    } else {
        None
    }
}

/// The byte that the two characters `a b` spell: both must be hex digits.
pub open spec fn pair_value(a: char, b: char) -> Option<u8> {
    match (hex_digit(a), hex_digit(b)) {
        (Some(x), Some(y)) => Some((16 * x + y) as u8),
        _ => None,
    }
}

/// Byte piece `j` of the cleaned characters `c` (bytes `2j..2j+2`, all
/// earlier pieces being two ASCII characters): `Some(Some(v))` a byte,
/// `Some(None)` not a hex number, `None` when byte `2j + 2` falls inside a
/// character, so that the piece cannot be sliced out.
pub open spec fn piece(c: Seq<char>, j: int) -> Option<Option<u8>> {
    if 2 * j + 1 < c.len() && (c[2 * j] as u32) < 0x80 && (c[2 * j + 1] as u32) < 0x80 {
        Some(pair_value(c[2 * j], c[2 * j + 1]))
    } else if 2 * j < c.len() && utf8_len(c[2 * j]) == 2 {
        Some(None)
    } else {
        None
    }
}

pub open spec fn piece_is_byte(c: Seq<char>, j: int) -> bool {
    piece(c, j) matches Some(Some(_))
}

/// The first piece in `i..n` that is not a byte (`n` when there is none).
pub open spec fn first_stop(c: Seq<char>, i: int, n: int) -> int
    decreases n - i,
{
    if i >= n {
        n
    } else if !piece_is_byte(c, i) {
        i
    } else {
        first_stop(c, i + 1, n)
    }
}

/// Number of byte pieces of the cleaned text.
pub open spec fn piece_count(s: Seq<char>) -> int {
    (utf8_total(hex_clean(s)) / 2) as int
}

/// Decoding slices a piece through a character (the decoder panics there).
pub open spec fn hex_splits_char(s: Seq<char>) -> bool {
    let c = hex_clean(s);
    let n = piece_count(s);
    &&& utf8_total(c) % 2 == 0
    &&& first_stop(c, 0, n) < n
    &&& piece(c, first_stop(c, 0, n)) is None
}

/// The decoded signature, or why it is refused.
pub open spec fn spec_hex_to_bytes(s: Seq<char>) -> Result<Seq<u8>, HexError> {
    let c = hex_clean(s);
    let n = piece_count(s);
    if utf8_total(c) % 2 == 1 {
        Err(HexError::OddLength)
    } else if first_stop(c, 0, n) < n {
        Err(HexError::BadDigit { at: first_stop(c, 0, n) as usize })
    } else {
        Ok(Seq::new(n as nat, |j: int| piece(c, j)->0->0))
    }
}

fn char_utf8_len(c: char) -> (n: u128)
    ensures
        n == utf8_len(c),
{
    let u = c as u32;
    if u < 0x80 {
        1
    } else if u < 0x800 {
        2
    } else if u < 0x10000 {
        3
    } else {
        4
    }
}

pub(crate) fn hex_digit_of(c: char) -> (r: Option<u8>)
    ensures
        r == hex_digit(c),
{
    let u = c as u32;
    if 0x30 <= u && u <= 0x39 {
        Some((u - 0x30) as u8)
    } else if 0x41 <= u && u <= 0x46 {
        Some((u - 0x41 + 10) as u8)
    } else if 0x61 <= u && u <= 0x66 {
        Some((u - 0x61 + 10) as u8)
    } else {
        None
    }
}

fn pair_value_of(a: char, b: char) -> (r: Option<u8>)
    ensures
        r == pair_value(a, b),
{
    match (hex_digit_of(a), hex_digit_of(b)) {
        (Some(x), Some(y)) => Some(16 * x + y),
        _ => None,
    }
}

/// Decode a hex signature, or `None` when a two-byte piece would be cut out
/// of the middle of a character.
pub fn hex_decode(s: &str) -> (r: Option<Result<Vec<u8>, HexError>>)
    ensures
        r is None <==> hex_splits_char(s@),
        r matches Some(Ok(v)) ==> spec_hex_to_bytes(s@) == Ok::<Seq<u8>, HexError>(v@),
        r matches Some(Err(e)) ==> spec_hex_to_bytes(s@) == Err::<Seq<u8>, HexError>(e),
{
    let v = str_chars(s);
    let mut c: Vec<char> = Vec::new();
    let mut total: u128 = 0;
    let mut i: usize = 0;
    while i < v.len()
        invariant
            i <= v.len(),
            v@ == s@,
            c@ == hex_clean(v@.take(i as int)),
            total == utf8_total(c@),
            total <= 4 * c@.len(),
            c@.len() <= i,
        decreases v.len() - i,
    {
        let ch = v[i];
        assert(v@.take(i + 1).drop_last() =~= v@.take(i as int));
        if !is_whitespace(ch) && ch != ',' {
            c.push(ch);
            total = total + char_utf8_len(ch);
            assert(c@.drop_last() =~= hex_clean(v@.take(i as int)));
        }
        i += 1;
    }
    assert(v@.take(i as int) =~= s@);
    if total % 2 == 1 {
        return Some(Err(HexError::OddLength));
    }
    let n = total / 2;
    let ghost cs = c@;
    let mut out: Vec<u8> = Vec::new();
    let mut j: usize = 0;
    while (j as u128) < n
        invariant
            cs == c@,
            cs == hex_clean(s@),
            n == piece_count(s@),
            utf8_total(cs) % 2 == 0,
            2 * j <= c.len(),
            j <= n,
            forall|k: int| 0 <= k < j ==> piece_is_byte(cs, k),
            first_stop(cs, 0, n as int) == first_stop(cs, j as int, n as int),
            out@ =~= Seq::new(j as nat, |k: int| piece(cs, k)->0->0),
        decreases n - j,
    {
        let len = c.len();
        if len - 2 * j >= 2 && (c[2 * j] as u32) < 0x80 && (c[2 * j + 1] as u32) < 0x80 {
            match pair_value_of(c[2 * j], c[2 * j + 1]) {
                Some(b) => {
                    out.push(b);
                },
                None => {
                    return Some(Err(HexError::BadDigit { at: j }));
                },
            }
        } else if len - 2 * j >= 1 && char_utf8_len(c[2 * j]) == 2 {
            return Some(Err(HexError::BadDigit { at: j }));
        } else {
            return None;
        }
        assert(piece_is_byte(cs, j as int));
        j += 1;
    }
    proof {
        assert(first_stop(cs, j as int, n as int) == n);
    }
    Some(Ok(out))
}

/// `"48 8B,05"` to `[0x48, 0x8B, 0x05]`: whitespace and commas are dropped,
/// then each pair of characters is one byte.
pub fn hex_to_bytes(s: &str) -> (r: Result<Vec<u8>, HexError>)
    requires
        !hex_splits_char(s@),
    ensures
        r matches Ok(v) ==> spec_hex_to_bytes(s@) == Ok::<Seq<u8>, HexError>(v@),
        r matches Err(e) ==> spec_hex_to_bytes(s@) == Err::<Seq<u8>, HexError>(e),
{
    match hex_decode(s) {
        Some(r) => r,
        None => Err(HexError::OddLength),
    }
}

/// Every executable-section RVA of the hex signature `hexsig` in the module
/// image `img` (its bytes from the module base).
pub fn scan_image_for_sig(img: &[u8], hexsig: &str) -> (r: Result<Vec<u64>, HexError>)
    requires
        !hex_splits_char(hexsig@),
    ensures
        match spec_hex_to_bytes(hexsig@) {
            Ok(sig) => r matches Ok(v) && v@ == spec_find_all(img@, sig),
            Err(e) => r == Err::<Vec<u64>, HexError>(e),
        },
{
    let sig = hex_to_bytes(hexsig)?;
    Ok(find_all_sig_rvas(img, sig.as_slice()))
}

} // verus!
