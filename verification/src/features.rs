//! OpenType feature requests: tags and the HarfBuzz-style feature list
//! (`[+|-] tag [=] value`, comma separated) turned into Uniscribe
//! `OPENTYPE_FEATURE_RECORD` pairs `(tag, lParameter)`.

use vstd::prelude::*;
use vstd::utf8::encode_utf8;

use crate::text::{
    first_match, lemma_first_match, lemma_first_match_bound, not_whitespace, spec_is_ascii_whitespace,
    str_chars, string_from_chars, sub_chars, trim, trim_chars, trim_start, trim_start_chars,
    is_ascii_whitespace, spec_is_whitespace,
};

verus! {

/// `MS_MAKE_TAG('d','f','l','t')`: the default LangSys tag, fourcc stored LSB-first.
pub const TAG_DFLT: u32 = 0x746C_6664;

/// Why a single feature item (or its tag or value) was refused.
#[derive(Debug, PartialEq, Eq)]
pub enum FeatureError {
    /// The tag is not 1..=4 bytes long; `len` is its length in bytes.
    TagLength { tag: String, len: usize },
    /// The tag holds a byte outside printable ASCII (0x20..=0x7e); `byte` is the first one.
    TagNotPrintable { tag: String, byte: u8 },
    /// A quoted tag has no closing quote; `rest` is the text from the opening quote on.
    UnterminatedQuote { rest: String },
    /// Nothing is left for the tag after the sign.
    MissingTag,
    /// `tag[start:end]` was given: ranges are not supported.
    RangeSyntax,
    /// `=` is followed by nothing.
    EqualsWithoutValue,
    /// The value is neither `on`/`off` nor a non-empty run of ASCII digits.
    ValueNotInteger { value: String },
    /// The value is a run of digits larger than `i32::MAX`.
    ValueOutOfRange { value: String },
}

/// A refused item of a feature list: the trimmed item and why it was refused.
#[derive(Debug, PartialEq, Eq)]
pub struct FeatureListError {
    pub part: String,
    pub cause: FeatureError,
}

/// What a [`FeatureError`] says, over character sequences.
pub enum FeatureFault {
    TagLength { tag: Seq<char>, len: nat },
    TagNotPrintable { tag: Seq<char>, byte: u8 },
    UnterminatedQuote { rest: Seq<char> },
    MissingTag,
    RangeSyntax,
    EqualsWithoutValue,
    ValueNotInteger { value: Seq<char> },
    ValueOutOfRange { value: Seq<char> },
}

/// What a [`FeatureListError`] says.
pub struct ListFault {
    pub part: Seq<char>,
    pub cause: FeatureFault,
}

impl View for FeatureError {
    type V = FeatureFault;

    open spec fn view(&self) -> FeatureFault {
        match self {
            FeatureError::TagLength { tag, len } => FeatureFault::TagLength {
                tag: tag@,
                len: *len as nat,
            },
            FeatureError::TagNotPrintable { tag, byte } => FeatureFault::TagNotPrintable {
                tag: tag@,
                byte: *byte,
            },
            FeatureError::UnterminatedQuote { rest } => FeatureFault::UnterminatedQuote {
                rest: rest@,
            },
            FeatureError::MissingTag => FeatureFault::MissingTag,
            FeatureError::RangeSyntax => FeatureFault::RangeSyntax,
            FeatureError::EqualsWithoutValue => FeatureFault::EqualsWithoutValue,
            FeatureError::ValueNotInteger { value } => FeatureFault::ValueNotInteger {
                value: value@,
            },
            FeatureError::ValueOutOfRange { value } => FeatureFault::ValueOutOfRange {
                value: value@,
            },
        }
    }
}

impl View for FeatureListError {
    type V = ListFault;

    open spec fn view(&self) -> ListFault {
        ListFault { part: self.part@, cause: self.cause@ }
    }
}

/// A result with its error taken by its view.
pub open spec fn fault_view<T>(r: Result<T, FeatureError>) -> Result<T, FeatureFault> {
    match r {
        Ok(v) => Ok(v),
        Err(e) => Err(e@),
    }
}

// ---------------------------------------------------------------------------
// tags
// ---------------------------------------------------------------------------

pub open spec fn printable_byte(b: u8) -> bool {
    0x20 <= b <= 0x7e
}

/// Byte `i` of the tag right-padded with spaces to four bytes.
pub open spec fn padded_byte(b: Seq<u8>, i: int) -> u8 {
    if 0 <= i < b.len() {
        b[i]
    } else {
        0x20u8
    }
}

/// The `u32` whose little-endian memory bytes are `b0 b1 b2 b3` (`u32::from_le_bytes`).
pub open spec fn le_word(b0: u8, b1: u8, b2: u8, b3: u8) -> u32 {
    (b0 + 256 * b1 + 65536 * b2 + 16777216 * b3) as u32
}

/// The Uniscribe `OPENTYPE_TAG` of the (at most four) tag bytes `b`.
pub open spec fn tag_word(b: Seq<u8>) -> u32 {
    le_word(padded_byte(b, 0), padded_byte(b, 1), padded_byte(b, 2), padded_byte(b, 3))
}

pub open spec fn is_first_nonprintable(b: Seq<u8>, k: int) -> bool {
    &&& 0 <= k < b.len()
    &&& !printable_byte(b[k])
    &&& forall|j: int| 0 <= j < k ==> printable_byte(#[trigger] b[j])
}

/// The tag check on the tag `t` whose bytes are `b`.
pub open spec fn tag_check(t: Seq<char>, b: Seq<u8>) -> Result<u32, FeatureFault> {
    if b.len() == 0 || b.len() > 4 {
        Err(FeatureFault::TagLength { tag: t, len: b.len() })
    } else if exists|k: int| 0 <= k < b.len() && !printable_byte(#[trigger] b[k]) {
        let k = choose|k: int| is_first_nonprintable(b, k);
        Err(FeatureFault::TagNotPrintable { tag: t, byte: b[k] })
    } else {
        Ok(tag_word(b))
    }
}

/// The tag of the feature-tag string `t` (bytes: its UTF-8 encoding).
pub open spec fn spec_feature_tag(t: Seq<char>) -> Result<u32, FeatureFault> {
    tag_check(t, encode_utf8(t))
}

/// OpenType 4CC from a feature-tag string, in the Uniscribe `OPENTYPE_TAG`
/// byte order: the DWORD's memory bytes (little-endian) spell the tag, a
/// shorter tag is right-padded with spaces (0x20), every byte must be
/// printable ASCII, and a tag longer than four bytes is refused rather than
/// truncated.
pub fn feature_tag(tag: &str) -> (r: Result<u32, FeatureError>)
    ensures
        fault_view(r) == spec_feature_tag(tag@),
{
    let b = tag.as_bytes();
    let n = b.len();
    if n == 0 || n > 4 {
        return Err(FeatureError::TagLength { tag: tag.to_owned(), len: n });
    }
    let mut i: usize = 0;
    while i < n
        invariant
            n == b@.len(),
            b@ == encode_utf8(tag@),
            1 <= n <= 4,
            i <= n,
            forall|j: int| 0 <= j < i ==> printable_byte(#[trigger] b@[j]),
        decreases n - i,
    {
        let c = b[i];
        if !(0x20 <= c && c <= 0x7e) {
            proof {
                assert(is_first_nonprintable(b@, i as int));
                assert(!printable_byte(b@[i as int]));
                let k = choose|k: int| is_first_nonprintable(b@, k);
                assert(is_first_nonprintable(b@, k));
                if k < i {
                    assert(printable_byte(b@[k]));
                }
                if k > i {
                    assert(printable_byte(b@[i as int]));
                }
                assert(k == i);
            }
            return Err(FeatureError::TagNotPrintable { tag: tag.to_owned(), byte: c });
        }
        i += 1;
    }
    let b0 = b[0];
    let b1 = if n > 1 {
        b[1]
    } else {
        0x20u8
    };
    let b2 = if n > 2 {
        b[2]
    } else {
        0x20u8
    };
    let b3 = if n > 3 {
        b[3]
    } else {
        0x20u8
    };
    Ok(b0 as u32 + (b1 as u32) * 256 + (b2 as u32) * 65536 + (b3 as u32) * 16777216)
}

/// The memory bytes of a tag word spell the space-padded tag, least
/// significant byte first (`u32::to_le_bytes`).
pub proof fn law_tag_word_bytes(b: Seq<u8>)
    ensures
        tag_word(b) % 256 == padded_byte(b, 0),
        (tag_word(b) / 256) % 256 == padded_byte(b, 1),
        (tag_word(b) / 65536) % 256 == padded_byte(b, 2),
        tag_word(b) / 16777216 == padded_byte(b, 3),
{
    let b0 = padded_byte(b, 0) as int;
    let b1 = padded_byte(b, 1) as int;
    let b2 = padded_byte(b, 2) as int;
    let b3 = padded_byte(b, 3) as int;
    let w = b0 + 256 * b1 + 65536 * b2 + 16777216 * b3;
    assert(0 <= w < 0x1_0000_0000);
    assert(tag_word(b) == w);
    assert(w % 256 == b0) by (nonlinear_arith)
        requires
            w == b0 + 256 * b1 + 65536 * b2 + 16777216 * b3,
            0 <= b0 < 256,
            0 <= b1 < 256,
            0 <= b2 < 256,
            0 <= b3 < 256,
    ;
    assert((w / 256) % 256 == b1) by (nonlinear_arith)
        requires
            w == b0 + 256 * b1 + 65536 * b2 + 16777216 * b3,
            0 <= b0 < 256,
            0 <= b1 < 256,
            0 <= b2 < 256,
            0 <= b3 < 256,
    ;
    assert((w / 65536) % 256 == b2) by (nonlinear_arith)
        requires
            w == b0 + 256 * b1 + 65536 * b2 + 16777216 * b3,
            0 <= b0 < 256,
            0 <= b1 < 256,
            0 <= b2 < 256,
            0 <= b3 < 256,
    ;
    assert(w / 16777216 == b3) by (nonlinear_arith)
        requires
            w == b0 + 256 * b1 + 65536 * b2 + 16777216 * b3,
            0 <= b0 < 256,
            0 <= b1 < 256,
            0 <= b2 < 256,
            0 <= b3 < 256,
    ;
}


// ---------------------------------------------------------------------------
// values
// ---------------------------------------------------------------------------

/// The code of `c` with ASCII upper case folded to lower case.
pub open spec fn ascii_lower(c: char) -> u32 {
    let u = c as u32;
    if 0x41 <= u <= 0x5A {
        (u + 32) as u32
    } else {
        u
    }
}

/// `str::eq_ignore_ascii_case`.
pub open spec fn eq_ignore_ascii_case(v: Seq<char>, w: Seq<char>) -> bool {
    &&& v.len() == w.len()
    &&& forall|i: int| 0 <= i < v.len() ==> ascii_lower(#[trigger] v[i]) == ascii_lower(w[i])
}

pub open spec fn is_digit(c: char) -> bool {
    '0' <= c <= '9'
}

pub open spec fn all_digits(v: Seq<char>) -> bool {
    forall|i: int| 0 <= i < v.len() ==> is_digit(#[trigger] v[i])
}

/// The number that the decimal digits `v` denote.
pub open spec fn decimal_value(v: Seq<char>) -> int
    decreases v.len(),
{
    if v.len() == 0 {
        0
    } else {
        10 * decimal_value(v.drop_last()) + (v.last() as int - '0' as int)
    }
}

/// Uniscribe `lParameter` from a value string: `off` is 0, `on` is 1 (ASCII
/// case ignored), otherwise a non-empty run of ASCII digits up to `i32::MAX`.
pub open spec fn spec_parse_feature_value(v: Seq<char>) -> Result<i32, FeatureFault> {
    if eq_ignore_ascii_case(v, seq!['o', 'f', 'f']) {
        Ok(0)
    } else if eq_ignore_ascii_case(v, seq!['o', 'n']) {
        Ok(1)
    } else if v.len() == 0 || !all_digits(v) {
        Err(FeatureFault::ValueNotInteger { value: v })
    } else if decimal_value(v) > 0x7fff_ffff {
        Err(FeatureFault::ValueOutOfRange { value: v })
    } else {
        Ok(decimal_value(v) as i32)
    }
}

proof fn lemma_decimal_nonneg(v: Seq<char>)
    requires
        all_digits(v),
    ensures
        decimal_value(v) >= 0,
    decreases v.len(),
{
    if v.len() > 0 {
        assert(is_digit(v[v.len() - 1]));
        let t = v.drop_last();
        assert(all_digits(t)) by {
            assert forall|i: int| 0 <= i < t.len() implies is_digit(#[trigger] t[i]) by {
                assert(t[i] == v[i]);
            }
        }
        lemma_decimal_nonneg(t);
    }
}

fn ascii_lower_code(c: char) -> (u: u32)
    ensures
        u == ascii_lower(c),
{
    let u = c as u32;
    if 0x41 <= u && u <= 0x5A {
        u + 32
    } else {
        u
    }
}

/// Uniscribe `lParameter`: `0` (disabled) / `1` (active, first alternative) /
/// `N` (alternative index), plus the CSS aliases `off` / `on`.
pub fn parse_feature_value(v: &str) -> (r: Result<i32, FeatureError>)
    ensures
        fault_view(r) == spec_parse_feature_value(v@),
{
    let cs = str_chars(v);
    let n = cs.len();
    if n == 3 && ascii_lower_code(cs[0]) == 0x6F && ascii_lower_code(cs[1]) == 0x66
        && ascii_lower_code(cs[2]) == 0x66 {
        assert(eq_ignore_ascii_case(cs@, seq!['o', 'f', 'f']));
        return Ok(0);
    }
    assert(!eq_ignore_ascii_case(cs@, seq!['o', 'f', 'f'])) by {
        if eq_ignore_ascii_case(cs@, seq!['o', 'f', 'f']) {
            assert(ascii_lower(cs@[0]) == ascii_lower('o'));
            assert(ascii_lower(cs@[1]) == ascii_lower('f'));
            assert(ascii_lower(cs@[2]) == ascii_lower('f'));
        }
    }
    if n == 2 && ascii_lower_code(cs[0]) == 0x6F && ascii_lower_code(cs[1]) == 0x6E {
        assert(eq_ignore_ascii_case(cs@, seq!['o', 'n']));
        return Ok(1);
    }
    assert(!eq_ignore_ascii_case(cs@, seq!['o', 'n'])) by {
        if eq_ignore_ascii_case(cs@, seq!['o', 'n']) {
            assert(ascii_lower(cs@[0]) == ascii_lower('o'));
            assert(ascii_lower(cs@[1]) == ascii_lower('n'));
        }
    }
    if n == 0 {
        return Err(FeatureError::ValueNotInteger { value: v.to_owned() });
    }
    let mut i: usize = 0;
    while i < n
        invariant
            n == cs@.len(),
            cs@ == v@,
            n > 0,
            !eq_ignore_ascii_case(cs@, seq!['o', 'f', 'f']),
            !eq_ignore_ascii_case(cs@, seq!['o', 'n']),
            i <= n,
            forall|j: int| 0 <= j < i ==> is_digit(#[trigger] cs@[j]),
        decreases n - i,
    {
        if !('0' <= cs[i] && cs[i] <= '9') {
            assert(!is_digit(cs@[i as int]));
            return Err(FeatureError::ValueNotInteger { value: v.to_owned() });
        }
        i += 1;
    }
    assert(all_digits(cs@));
    let mut acc: u64 = 0;
    let mut big = false;
    let mut k: usize = 0;
    while k < n
        invariant
            n == cs@.len(),
            cs@ == v@,
            n > 0,
            !eq_ignore_ascii_case(cs@, seq!['o', 'f', 'f']),
            !eq_ignore_ascii_case(cs@, seq!['o', 'n']),
            k <= n,
            all_digits(cs@),
            !big ==> acc == decimal_value(cs@.take(k as int)) && acc <= 0x7fff_ffff,
            big ==> decimal_value(cs@.take(k as int)) > 0x7fff_ffff,
        decreases n - k,
    {
        let ghost pre = cs@.take(k as int);
        let ghost nxt = cs@.take(k + 1);
        assert(nxt.drop_last() =~= pre);
        assert(nxt.last() == cs@[k as int]);
        assert(all_digits(pre)) by {
            assert forall|j: int| 0 <= j < pre.len() implies is_digit(#[trigger] pre[j]) by {
                assert(pre[j] == cs@[j]);
            }
        }
        proof {
            lemma_decimal_nonneg(pre);
        }
        assert(is_digit(cs@[k as int]));
        if !big {
            let d = (cs[k] as u32 - '0' as u32) as u64;
            let na = acc * 10 + d;
            if na > 0x7fff_ffff {
                big = true;
            } else {
                acc = na;
            }
        }
        k += 1;
    }
    assert(cs@.take(n as int) =~= cs@);
    if big {
        Err(FeatureError::ValueOutOfRange { value: v.to_owned() })
    } else {
        Ok(acc as i32)
    }
}


// ---------------------------------------------------------------------------
// one item
// ---------------------------------------------------------------------------

pub open spec fn is_char(q: char) -> spec_fn(char) -> bool {
    |c: char| c == q
}

/// Where an unquoted tag ends: ASCII whitespace, `=` or `[`.
pub open spec fn tag_end() -> spec_fn(char) -> bool {
    |c: char| spec_is_ascii_whitespace(c) || c == '=' || c == '['
}

/// The `+`/`-` prefix: the value it stands for (default 1) and the rest.
pub open spec fn sign_split(p: Seq<char>) -> (i32, Seq<char>) {
    if p.len() > 0 && p[0] == '+' {
        (1, p.drop_first())
    } else if p.len() > 0 && p[0] == '-' {
        (0, p.drop_first())
    } else {
        (1, p)
    }
}

/// What follows the tag: optional `=`, optional value; `value0` is the
/// value the prefix stands for, which an explicit value overrides.
pub open spec fn spec_after_tag(value0: i32, tag: Seq<char>, tail0: Seq<char>) -> Result<
    (u32, i32),
    FeatureFault,
> {
    let tail1 = trim_start(tail0);
    let eq = tail1.len() > 0 && tail1[0] == '=';
    if tail1.len() > 0 && tail1[0] == '[' {
        Err(FeatureFault::RangeSyntax)
    } else if eq && trim_start(tail1.drop_first()).len() == 0 {
        Err(FeatureFault::EqualsWithoutValue)
    } else {
        let tail2 = if eq {
            trim_start(tail1.drop_first())
        } else {
            tail1
        };
        let value = if tail2.len() > 0 {
            spec_parse_feature_value(trim(tail2))
        } else {
            Ok(value0)
        };
        match value {
            Err(e) => Err(e),
            Ok(v) => match spec_feature_tag(tag) {
                Err(e) => Err(e),
                Ok(t) => Ok((t, v)),
            },
        }
    }
}

/// One feature item `[+|-] tag [=] value`, the tag either quoted (`'` or `"`)
/// or running up to ASCII whitespace, `=` or `[`.
pub open spec fn spec_parse_one(p: Seq<char>) -> Result<(u32, i32), FeatureFault> {
    let value0 = sign_split(p).0;
    let rest = trim_start(sign_split(p).1);
    if rest.len() > 0 && (rest[0] == '\'' || rest[0] == '"') {
        let inner = rest.drop_first();
        let e = first_match(inner, is_char(rest[0]));
        if e == inner.len() {
            Err(FeatureFault::UnterminatedQuote { rest })
        } else {
            spec_after_tag(value0, inner.take(e as int), inner.skip(e as int + 1))
        }
    } else if rest.len() == 0 {
        Err(FeatureFault::MissingTag)
    } else {
        let e = first_match(rest, tag_end());
        spec_after_tag(value0, rest.take(e as int), rest.skip(e as int))
    }
}

fn find_char(v: &Vec<char>, q: char) -> (i: usize)
    ensures
        i == first_match(v@, is_char(q)),
        i <= v.len(),
{
    let mut i: usize = 0;
    while i < v.len() && v[i] != q
        invariant
            i <= v.len(),
            forall|j: int| 0 <= j < i ==> #[trigger] v@[j] != q,
        decreases v.len() - i,
    {
        i += 1;
    }
    proof {
        let f = is_char(q);
        assert forall|j: int| 0 <= j < i implies !f(#[trigger] v@[j]) by {}
        lemma_first_match(v@, f, i as int);
    }
    i
}

fn find_tag_end(v: &Vec<char>) -> (i: usize)
    ensures
        i == first_match(v@, tag_end()),
        i <= v.len(),
{
    let mut i: usize = 0;
    while i < v.len() && !(is_ascii_whitespace(v[i]) || v[i] == '=' || v[i] == '[')
        invariant
            i <= v.len(),
            forall|j: int|
                0 <= j < i ==> !(spec_is_ascii_whitespace(#[trigger] v@[j]) || v@[j] == '='
                    || v@[j] == '['),
        decreases v.len() - i,
    {
        i += 1;
    }
    proof {
        let f = tag_end();
        assert forall|j: int| 0 <= j < i implies !f(#[trigger] v@[j]) by {}
        lemma_first_match(v@, f, i as int);
    }
    i
}

fn after_tag(value0: i32, tag: &Vec<char>, tail0: &Vec<char>) -> (r: Result<(u32, i32), FeatureError>)
    ensures
        fault_view(r) == spec_after_tag(value0, tag@, tail0@),
{
    let tail1 = trim_start_chars(tail0);
    if tail1.len() > 0 && tail1[0] == '[' {
        return Err(FeatureError::RangeSyntax);
    }
    let mut value = value0;
    let eq = tail1.len() > 0 && tail1[0] == '=';
    let tail2 = if eq {
        let after = sub_chars(&tail1, 1, tail1.len());
        assert(after@ =~= tail1@.drop_first());
        let t = trim_start_chars(&after);
        if t.len() == 0 {
            return Err(FeatureError::EqualsWithoutValue);
        }
        t
    } else {
        tail1
    };
    if tail2.len() > 0 {
        let tv = trim_chars(&tail2);
        let s = string_from_chars(&tv);
        match parse_feature_value(s.as_str()) {
            Ok(v) => {
                value = v;
            },
            Err(e) => {
                return Err(e);
            },
        }
    }
    let ts = string_from_chars(tag);
    match feature_tag(ts.as_str()) {
        Ok(t) => Ok((t, value)),
        Err(e) => Err(e),
    }
}

/// Parse one feature item: `[+|-] tag [=] value` (a HarfBuzz
/// `hb_feature_from_string` subset, with the same precedence: the sign only
/// supplies the default value, an explicit value overrides it).
pub fn parse_one_feature(part: &str) -> (r: Result<(u32, i32), FeatureError>)
    ensures
        fault_view(r) == spec_parse_one(part@),
{
    let p = str_chars(part);
    let n = p.len();
    let mut value: i32 = 1;
    let r1 = if n > 0 && p[0] == '+' {
        sub_chars(&p, 1, n)
    } else if n > 0 && p[0] == '-' {
        value = 0;
        sub_chars(&p, 1, n)
    } else {
        sub_chars(&p, 0, n)
    };
    assert(value == sign_split(p@).0);
    assert(r1@ =~= sign_split(p@).1);
    let rest = trim_start_chars(&r1);
    let m = rest.len();
    if m > 0 && (rest[0] == '\'' || rest[0] == '"') {
        let q = rest[0];
        let inner = sub_chars(&rest, 1, m);
        assert(inner@ =~= rest@.drop_first());
        let e = find_char(&inner, q);
        if e == inner.len() {
            return Err(FeatureError::UnterminatedQuote { rest: string_from_chars(&rest) });
        }
        let tag = sub_chars(&inner, 0, e);
        let tail = sub_chars(&inner, e + 1, inner.len());
        assert(tag@ =~= inner@.take(e as int));
        assert(tail@ =~= inner@.skip(e + 1));
        after_tag(value, &tag, &tail)
    } else if m == 0 {
        Err(FeatureError::MissingTag)
    } else {
        let e = find_tag_end(&rest);
        let tag = sub_chars(&rest, 0, e);
        let tail = sub_chars(&rest, e, m);
        assert(tag@ =~= rest@.take(e as int));
        assert(tail@ =~= rest@.skip(e as int));
        after_tag(value, &tag, &tail)
    }
}


// ---------------------------------------------------------------------------
// the list
// ---------------------------------------------------------------------------

/// `str::split(',')`, left to right: the finished pieces and the piece being read.
pub open spec fn split_state(s: Seq<char>) -> (Seq<Seq<char>>, Seq<char>)
    decreases s.len(),
{
    if s.len() == 0 {
        (seq![], seq![])
    } else {
        let (d, c) = split_state(s.drop_last());
        if s.last() == ',' {
            (d.push(c), seq![])
        } else {
            (d, c.push(s.last()))
        }
    }
}

/// The pieces of `str::split(',')`.
pub open spec fn split_commas(s: Seq<char>) -> Seq<Seq<char>> {
    split_state(s).0.push(split_state(s).1)
}

/// Index of the first record with tag `t`, or `acc.len()`.
pub open spec fn first_tag(acc: Seq<(u32, i32)>, t: u32) -> nat
    decreases acc.len(),
{
    if acc.len() == 0 {
        0
    } else if acc[0].0 == t {
        0
    } else {
        1 + first_tag(acc.drop_first(), t)
    }
}

/// Record `(t, v)`: a tag already present keeps its position and takes the
/// new value; a new tag goes last.
pub open spec fn upsert(acc: Seq<(u32, i32)>, t: u32, v: i32) -> Seq<(u32, i32)> {
    let k = first_tag(acc, t);
    if k < acc.len() {
        acc.update(k as int, (t, v))
    } else {
        acc.push((t, v))
    }
}

/// One piece of the list: blank pieces are skipped, the others parsed.
pub open spec fn list_step(acc: Seq<(u32, i32)>, piece: Seq<char>) -> Result<
    Seq<(u32, i32)>,
    ListFault,
> {
    let p = trim(piece);
    if p.len() == 0 {
        Ok(acc)
    } else {
        match spec_parse_one(p) {
            Err(e) => Err(ListFault { part: p, cause: e }),
            Ok((t, v)) => Ok(upsert(acc, t, v)),
        }
    }
}

/// The pieces, in order; the first refused piece ends the list.
pub open spec fn fold_pieces(pieces: Seq<Seq<char>>) -> Result<Seq<(u32, i32)>, ListFault>
    decreases pieces.len(),
{
    if pieces.len() == 0 {
        Ok(seq![])
    } else {
        match fold_pieces(pieces.drop_last()) {
            Err(e) => Err(e),
            Ok(acc) => list_step(acc, pieces.last()),
        }
    }
}

pub open spec fn spec_parse_features(s: Seq<char>) -> Result<Seq<(u32, i32)>, ListFault> {
    fold_pieces(split_commas(s))
}

pub open spec fn list_view(r: Result<Vec<(u32, i32)>, FeatureListError>) -> Result<
    Seq<(u32, i32)>,
    ListFault,
> {
    match r {
        Ok(v) => Ok(v@),
        Err(e) => Err(e@),
    }
}

proof fn lemma_first_tag(acc: Seq<(u32, i32)>, t: u32, i: int)
    requires
        0 <= i <= acc.len(),
        forall|j: int| 0 <= j < i ==> (#[trigger] acc[j]).0 != t,
        i == acc.len() || acc[i].0 == t,
    ensures
        first_tag(acc, t) == i,
    decreases i,
{
    if i > 0 {
        let s = acc.drop_first();
        assert forall|j: int| 0 <= j < i - 1 implies (#[trigger] s[j]).0 != t by {
            assert(s[j] == acc[j + 1]);
        }
        if i - 1 < s.len() {
            assert(s[i - 1] == acc[i]);
        }
        lemma_first_tag(s, t, i - 1);
    }
}

fn upsert_record(out: &mut Vec<(u32, i32)>, t: u32, v: i32)
    ensures
        final(out)@ == upsert(old(out)@, t, v),
{
    let mut k: usize = 0;
    while k < out.len() && out[k].0 != t
        invariant
            k <= out.len(),
            forall|j: int| 0 <= j < k ==> (#[trigger] out@[j]).0 != t,
        decreases out.len() - k,
    {
        k += 1;
    }
    proof {
        lemma_first_tag(out@, t, k as int);
    }
    if k < out.len() {
        out.set(k, (t, v));
    } else {
        out.push((t, v));
    }
}

fn add_piece(out: &mut Vec<(u32, i32)>, piece: &Vec<char>) -> (r: Result<(), FeatureListError>)
    ensures
        match list_step(old(out)@, piece@) {
            Ok(acc) => r is Ok && final(out)@ == acc,
            Err(e) => r matches Err(x) && x@ == e,
        },
{
    let p = trim_chars(piece);
    if p.len() == 0 {
        return Ok(());
    }
    let ps = string_from_chars(&p);
    match parse_one_feature(ps.as_str()) {
        Ok((t, v)) => {
            upsert_record(out, t, v);
            Ok(())
        },
        Err(e) => Err(FeatureListError { part: ps, cause: e }),
    }
}

/// Parse a HarfBuzz-style feature list into `OPENTYPE_FEATURE_RECORD` pairs.
///
/// ```text
///   feature := [ '+' | '-' ] tag [ '=' ] value
///   tag     := 1..=4 printable-ASCII chars, optionally quoted ('kern' "kern")
///   value   := non-negative integer | 'on' | 'off'
/// ```
///
/// Items are separated by commas and trimmed; blank items are skipped. Every
/// malformed item is an error. Duplicate tags keep the first position but the
/// last value, because Uniscribe takes one record per feature.
pub fn parse_features(s: &str) -> (r: Result<Vec<(u32, i32)>, FeatureListError>)
    ensures
        list_view(r) == spec_parse_features(s@),
{
    let cs = str_chars(s);
    let n = cs.len();
    let mut out: Vec<(u32, i32)> = Vec::new();
    let mut cur: Vec<char> = Vec::new();
    let mut i: usize = 0;
    assert(cs@.take(0) =~= Seq::<char>::empty());
    while i < n
        invariant
            n == cs@.len(),
            cs@ == s@,
            i <= n,
            cur@ == split_state(cs@.take(i as int)).1,
            fold_pieces(split_state(cs@.take(i as int)).0) == Ok::<Seq<(u32, i32)>, ListFault>(
                out@,
            ),
        decreases n - i,
    {
        let ghost pre = cs@.take(i as int);
        let ghost nxt = cs@.take(i + 1);
        assert(nxt.drop_last() =~= pre);
        assert(nxt.last() == cs@[i as int]);
        let c = cs[i];
        if c == ',' {
            let ghost d = split_state(pre).0;
            assert(d.push(cur@).drop_last() =~= d);
            match add_piece(&mut out, &cur) {
                Ok(()) => {},
                Err(e) => {
                    assert(split_state(nxt).0 == d.push(cur@));
                    assert(fold_pieces(split_state(nxt).0) == fold_pieces(d.push(cur@)));
                    proof {
                        lemma_fold_err_sticks(cs@, i as int + 1);
                    }
                    return Err(e);
                },
            }
            cur = Vec::new();
        } else {
            cur.push(c);
        }
        i += 1;
    }
    assert(cs@.take(n as int) =~= cs@);
    let ghost d = split_state(cs@).0;
    assert(d.push(cur@).drop_last() =~= d);
    match add_piece(&mut out, &cur) {
        Ok(()) => Ok(out),
        Err(e) => Err(e),
    }
}

/// Once a piece is refused, the whole list is refused with that piece.
proof fn lemma_fold_err_sticks(s: Seq<char>, i: int)
    requires
        0 <= i <= s.len(),
        fold_pieces(split_state(s.take(i)).0) is Err,
    ensures
        spec_parse_features(s) == fold_pieces(split_state(s.take(i)).0),
    decreases s.len() - i,
{
    if i < s.len() {
        let pre = s.take(i);
        let nxt = s.take(i + 1);
        assert(nxt.drop_last() =~= pre);
        let d = split_state(pre).0;
        if s[i] == ',' {
            assert(split_state(pre).0.push(split_state(pre).1).drop_last() =~= d);
        }
        lemma_fold_err_sticks(s, i + 1);
    } else {
        assert(s.take(i) =~= s);
        let d = split_state(s).0;
        assert(d.push(split_state(s).1).drop_last() =~= d);
    }
}

} // verus!

verus! {

// ---------------------------------------------------------------------------
// laws of the list
// ---------------------------------------------------------------------------

/// The records of the non-blank pieces, in order, as each one parses
/// (pieces that are refused contribute nothing).
pub open spec fn piece_records(pieces: Seq<Seq<char>>) -> Seq<(u32, i32)>
    decreases pieces.len(),
{
    if pieces.len() == 0 {
        seq![]
    } else {
        let p = trim(pieces.last());
        piece_records(pieces.drop_last()) + if p.len() == 0 {
            seq![]
        } else {
            match spec_parse_one(p) {
                Ok(r) => seq![r],
                Err(_) => seq![],
            }
        }
    }
}

/// Every tag occurs once in `l`.
#[verifier::opaque]
pub open spec fn tags_distinct(l: Seq<(u32, i32)>) -> bool {
    forall|a: int, b: int| 0 <= a < b < l.len() ==> (#[trigger] l[a]).0 != (#[trigger] l[b]).0
}

/// Every tag of `raw` has a record in `l`.
#[verifier::opaque]
pub open spec fn tags_covered(l: Seq<(u32, i32)>, raw: Seq<(u32, i32)>) -> bool {
    forall|i: int|
        0 <= i < raw.len() ==> exists|k: int| 0 <= k < l.len() && (#[trigger] l[k]).0 == (
        #[trigger] raw[i]).0
}

/// Index of the last record of `raw` with tag `t` (-1 when there is none).
pub open spec fn last_index(raw: Seq<(u32, i32)>, t: u32) -> int
    decreases raw.len(),
{
    if raw.len() == 0 {
        -1
    } else if raw.last().0 == t {
        raw.len() - 1
    } else {
        last_index(raw.drop_last(), t)
    }
}

/// Index of the first record of `raw` with tag `t` (`raw.len()` when there is none).
pub open spec fn first_index(raw: Seq<(u32, i32)>, t: u32) -> int
    decreases raw.len(),
{
    if raw.len() == 0 {
        0
    } else if first_index(raw.drop_last(), t) < raw.len() - 1 {
        first_index(raw.drop_last(), t)
    } else if raw.last().0 == t {
        raw.len() - 1
    } else {
        raw.len() as int
    }
}

/// Every record of `l` is the last record of its tag in `raw`.
#[verifier::opaque]
pub open spec fn last_values(l: Seq<(u32, i32)>, raw: Seq<(u32, i32)>) -> bool {
    forall|k: int|
        0 <= k < l.len() ==> 0 <= last_index(raw, (#[trigger] l[k]).0) && raw[last_index(
            raw,
            l[k].0,
        )] == l[k]
}

/// The records of `l` come in the order in which their tags first appear in `raw`.
#[verifier::opaque]
pub open spec fn first_order(l: Seq<(u32, i32)>, raw: Seq<(u32, i32)>) -> bool {
    forall|a: int, b: int|
        0 <= a < b < l.len() ==> first_index(raw, (#[trigger] l[a]).0) < first_index(
            raw,
            (#[trigger] l[b]).0,
        )
}

/// `l` is `raw` with duplicate tags merged: every tag once, each tag of
/// `raw` present, each record carrying the last value its tag has in `raw`,
/// and the records in the order in which their tags first appear in `raw`.
pub open spec fn merges_duplicates(l: Seq<(u32, i32)>, raw: Seq<(u32, i32)>) -> bool {
    &&& tags_distinct(l)
    &&& tags_covered(l, raw)
    &&& last_values(l, raw)
    &&& first_order(l, raw)
}

proof fn lemma_first_tag_found(acc: Seq<(u32, i32)>, t: u32)
    ensures
        first_tag(acc, t) <= acc.len(),
        first_tag(acc, t) < acc.len() ==> acc[first_tag(acc, t) as int].0 == t,
        first_tag(acc, t) == acc.len() ==> forall|j: int| 0 <= j < acc.len() ==> (#[trigger] acc[j]).0 != t,
    decreases acc.len(),
{
    if acc.len() > 0 && acc[0].0 != t {
        let s = acc.drop_first();
        lemma_first_tag_found(s, t);
        assert forall|j: int| 0 <= j < acc.len() && first_tag(acc, t) == acc.len() implies (#[trigger] acc[j]).0 != t by {
            if j > 0 {
                assert(acc[j] == s[j - 1]);
            }
        }
        if first_tag(acc, t) < acc.len() {
            assert(acc[first_tag(acc, t) as int] == s[first_tag(s, t) as int]);
        }
    }
}

/// A tag already present: its record takes the new value in place.
proof fn lemma_update_merges(acc: Seq<(u32, i32)>, raw: Seq<(u32, i32)>, k: int, t: u32, v: i32)
    requires
        merges_duplicates(acc, raw),
        0 <= k < acc.len(),
        acc[k].0 == t,
    ensures
        merges_duplicates(acc.update(k, (t, v)), raw.push((t, v))),
{
    let l = acc.update(k, (t, v));
    let raw2 = raw.push((t, v));
    let n = raw.len() as int;
    assert(raw2[n] == (t, v));
    assert forall|i: int| 0 <= i < n implies #[trigger] raw2[i] == raw[i] by {}
    assert forall|a: int| 0 <= a < l.len() implies (#[trigger] l[a]).0 == acc[a].0 by {}
    assert(tags_distinct(l)) by {
        reveal(tags_distinct);
        assert forall|a: int, b: int| 0 <= a < b < l.len() implies (#[trigger] l[a]).0 != (
        #[trigger] l[b]).0 by {
            assert(acc[a].0 != acc[b].0);
        }
    }
    assert(tags_covered(l, raw2)) by {
        reveal(tags_covered);
        assert forall|i: int| 0 <= i < raw2.len() implies exists|q: int|
            0 <= q < l.len() && (#[trigger] l[q]).0 == (#[trigger] raw2[i]).0 by {
            if i < n {
                let q = choose|q: int| 0 <= q < acc.len() && (#[trigger] acc[q]).0 == (
                #[trigger] raw[i]).0;
                assert(l[q].0 == raw2[i].0);
            } else {
                assert(l[k].0 == raw2[i].0);
            }
        }
    }
    lemma_update_last_values(acc, raw, k, t, v);
    lemma_update_first_order(acc, raw, k, t, v);
}

proof fn lemma_index_push(raw: Seq<(u32, i32)>, x: (u32, i32), t: u32)
    ensures
        last_index(raw.push(x), t) == if x.0 == t {
            raw.len() as int
        } else {
            last_index(raw, t)
        },
        first_index(raw.push(x), t) == if first_index(raw, t) < raw.len() {
            first_index(raw, t)
        } else if x.0 == t {
            raw.len() as int
        } else {
            raw.len() + 1int
        },
{
    assert(raw.push(x).drop_last() =~= raw);
    lemma_index_bounds(raw, t);
}

proof fn lemma_index_bounds(raw: Seq<(u32, i32)>, t: u32)
    ensures
        -1 <= last_index(raw, t) < raw.len(),
        0 <= last_index(raw, t) ==> raw[last_index(raw, t)].0 == t,
        0 <= first_index(raw, t) <= raw.len(),
        first_index(raw, t) < raw.len() ==> raw[first_index(raw, t)].0 == t,
        first_index(raw, t) == raw.len() ==> forall|i: int| 0 <= i < raw.len() ==> (#[trigger] raw[i]).0 != t,
    decreases raw.len(),
{
    if raw.len() > 0 {
        let p = raw.drop_last();
        lemma_index_bounds(p, t);
        assert forall|i: int| 0 <= i < p.len() implies #[trigger] raw[i] == p[i] by {}
    }
}

proof fn lemma_update_last_values(acc: Seq<(u32, i32)>, raw: Seq<(u32, i32)>, k: int, t: u32, v: i32)
    requires
        tags_distinct(acc),
        last_values(acc, raw),
        0 <= k < acc.len(),
        acc[k].0 == t,
    ensures
        last_values(acc.update(k, (t, v)), raw.push((t, v))),
{
    reveal(tags_distinct);
    reveal(last_values);
    let l = acc.update(k, (t, v));
    let raw2 = raw.push((t, v));
    let n = raw.len() as int;
    assert(raw2[n] == (t, v));
    assert forall|q: int| 0 <= q < l.len() implies 0 <= last_index(raw2, (#[trigger] l[q]).0)
        && raw2[last_index(raw2, l[q].0)] == l[q] by {
        lemma_index_push(raw, (t, v), l[q].0);
        lemma_index_bounds(raw, l[q].0);
        if q != k {
            assert(acc[q] == l[q]);
            assert(acc[q].0 != acc[k].0) by {
                if q < k {
                    assert(acc[q].0 != acc[k].0);
                } else {
                    assert(acc[k].0 != acc[q].0);
                }
            }
            assert(raw2[last_index(raw, acc[q].0)] == raw[last_index(raw, acc[q].0)]);
        }
    }
}

proof fn lemma_update_first_order(acc: Seq<(u32, i32)>, raw: Seq<(u32, i32)>, k: int, t: u32, v: i32)
    requires
        last_values(acc, raw),
        first_order(acc, raw),
        0 <= k < acc.len(),
        acc[k].0 == t,
    ensures
        first_order(acc.update(k, (t, v)), raw.push((t, v))),
{
    reveal(first_order);
    reveal(last_values);
    let l = acc.update(k, (t, v));
    let raw2 = raw.push((t, v));
    assert forall|a: int, b: int| 0 <= a < b < l.len() implies first_index(raw2, (#[trigger] l[a]).0)
        < first_index(raw2, (#[trigger] l[b]).0) by {
        assert(l[a].0 == acc[a].0);
        assert(l[b].0 == acc[b].0);
        assert(first_index(raw, acc[a].0) < first_index(raw, acc[b].0));
        lemma_index_push(raw, (t, v), acc[a].0);
        lemma_index_push(raw, (t, v), acc[b].0);
        lemma_index_bounds(raw, acc[a].0);
        lemma_index_bounds(raw, acc[b].0);
        assert(0 <= last_index(raw, acc[a].0));
        assert(0 <= last_index(raw, acc[b].0));
        lemma_first_le_last(raw, acc[a].0);
        lemma_first_le_last(raw, acc[b].0);
    }
}

/// A tag that occurs has its first occurrence at or before its last.
proof fn lemma_first_le_last(raw: Seq<(u32, i32)>, t: u32)
    ensures
        0 <= last_index(raw, t) ==> first_index(raw, t) <= last_index(raw, t),
    decreases raw.len(),
{
    if raw.len() > 0 {
        let p = raw.drop_last();
        lemma_first_le_last(p, t);
        lemma_index_bounds(p, t);
    }
}

/// A new tag: its record goes last.
proof fn lemma_push_merges(acc: Seq<(u32, i32)>, raw: Seq<(u32, i32)>, t: u32, v: i32)
    requires
        merges_duplicates(acc, raw),
        forall|j: int| 0 <= j < acc.len() ==> (#[trigger] acc[j]).0 != t,
    ensures
        merges_duplicates(acc.push((t, v)), raw.push((t, v))),
{
    let l = acc.push((t, v));
    let raw2 = raw.push((t, v));
    let n = raw.len() as int;
    let m = acc.len() as int;
    assert(raw2[n] == (t, v));
    assert(l[m] == (t, v));
    assert forall|i: int| 0 <= i < n implies #[trigger] raw2[i] == raw[i] by {}
    assert forall|a: int| 0 <= a < m implies (#[trigger] l[a]) == acc[a] by {}
    assert(tags_distinct(l)) by {
        reveal(tags_distinct);
        assert forall|a: int, b: int| 0 <= a < b < l.len() implies (#[trigger] l[a]).0 != (
        #[trigger] l[b]).0 by {
            if b < m {
                assert(acc[a].0 != acc[b].0);
            } else {
                assert(acc[a].0 != t);
            }
        }
    }
    assert(tags_covered(l, raw2)) by {
        reveal(tags_covered);
        assert forall|i: int| 0 <= i < raw2.len() implies exists|q: int|
            0 <= q < l.len() && (#[trigger] l[q]).0 == (#[trigger] raw2[i]).0 by {
            if i < n {
                let q = choose|q: int| 0 <= q < acc.len() && (#[trigger] acc[q]).0 == (
                #[trigger] raw[i]).0;
                assert(l[q].0 == raw2[i].0);
            } else {
                assert(l[m].0 == raw2[i].0);
            }
        }
    }
    lemma_push_last_values(acc, raw, t, v);
    lemma_push_first_order(acc, raw, t, v);
}

proof fn lemma_push_last_values(acc: Seq<(u32, i32)>, raw: Seq<(u32, i32)>, t: u32, v: i32)
    requires
        last_values(acc, raw),
        forall|j: int| 0 <= j < acc.len() ==> (#[trigger] acc[j]).0 != t,
    ensures
        last_values(acc.push((t, v)), raw.push((t, v))),
{
    reveal(last_values);
    let l = acc.push((t, v));
    let raw2 = raw.push((t, v));
    let n = raw.len() as int;
    let m = acc.len() as int;
    assert(raw2[n] == (t, v));
    assert(l[m] == (t, v));
    assert forall|q: int| 0 <= q < l.len() implies 0 <= last_index(raw2, (#[trigger] l[q]).0)
        && raw2[last_index(raw2, l[q].0)] == l[q] by {
        lemma_index_push(raw, (t, v), l[q].0);
        lemma_index_bounds(raw, l[q].0);
        if q < m {
            assert(acc[q] == l[q]);
            assert(acc[q].0 != t);
            assert(raw2[last_index(raw, acc[q].0)] == raw[last_index(raw, acc[q].0)]);
        }
    }
}

proof fn lemma_push_first_order(acc: Seq<(u32, i32)>, raw: Seq<(u32, i32)>, t: u32, v: i32)
    requires
        tags_covered(acc, raw),
        last_values(acc, raw),
        first_order(acc, raw),
        forall|j: int| 0 <= j < acc.len() ==> (#[trigger] acc[j]).0 != t,
    ensures
        first_order(acc.push((t, v)), raw.push((t, v))),
{
    reveal(first_order);
    reveal(last_values);
    let l = acc.push((t, v));
    let raw2 = raw.push((t, v));
    let n = raw.len() as int;
    let m = acc.len() as int;
    assert(l[m] == (t, v));
    lemma_index_push(raw, (t, v), t);
    lemma_index_bounds(raw, t);
    if first_index(raw, t) < n {
        reveal(tags_covered);
        let j = first_index(raw, t);
        assert(raw[j].0 == t);
        let q = choose|q: int| 0 <= q < acc.len() && (#[trigger] acc[q]).0 == (#[trigger] raw[j]).0;
        assert(acc[q].0 != t);
    }
    assert(first_index(raw2, t) == n);
    assert forall|a: int, b: int| 0 <= a < b < l.len() implies first_index(raw2, (#[trigger] l[a]).0)
        < first_index(raw2, (#[trigger] l[b]).0) by {
        assert(l[a] == acc[a]);
        lemma_index_push(raw, (t, v), acc[a].0);
        lemma_index_bounds(raw, acc[a].0);
        assert(0 <= last_index(raw, acc[a].0));
        lemma_first_le_last(raw, acc[a].0);
        if b < m {
            assert(l[b] == acc[b]);
            lemma_index_push(raw, (t, v), acc[b].0);
            lemma_index_bounds(raw, acc[b].0);
            assert(0 <= last_index(raw, acc[b].0));
            lemma_first_le_last(raw, acc[b].0);
        }
    }
}

proof fn lemma_upsert_merges(acc: Seq<(u32, i32)>, raw: Seq<(u32, i32)>, t: u32, v: i32)
    requires
        merges_duplicates(acc, raw),
    ensures
        merges_duplicates(upsert(acc, t, v), raw.push((t, v))),
{
    lemma_first_tag_found(acc, t);
    let k = first_tag(acc, t) as int;
    if k < acc.len() {
        lemma_update_merges(acc, raw, k, t, v);
    } else {
        lemma_push_merges(acc, raw, t, v);
    }
}

proof fn lemma_fold_merges(pieces: Seq<Seq<char>>)
    ensures
        fold_pieces(pieces) matches Ok(l) ==> merges_duplicates(l, piece_records(pieces)),
    decreases pieces.len(),
{
    if pieces.len() == 0 {
        reveal(tags_distinct);
        reveal(tags_covered);
        reveal(last_values);
        reveal(first_order);
    } else {
        let prev = pieces.drop_last();
        lemma_fold_merges(prev);
        if let Ok(acc) = fold_pieces(prev) {
            let p = trim(pieces.last());
            if p.len() == 0 {
                assert(piece_records(pieces) =~= piece_records(prev));
            } else if let Ok((t, v)) = spec_parse_one(p) {
                assert(piece_records(pieces) =~= piece_records(prev).push((t, v)));
                lemma_upsert_merges(acc, piece_records(prev), t, v);
            }
        }
    }
}

/// Duplicate tags keep the first position but the last value: a list that
/// parses is the records of its items with duplicates merged (one record
/// per tag, in order of first appearance, with the tag's last value).
pub proof fn law_duplicates_keep_first_position_last_value(s: Seq<char>)
    ensures
        spec_parse_features(s) matches Ok(l) ==> merges_duplicates(
            l,
            piece_records(split_commas(s)),
        ),
{
    lemma_fold_merges(split_commas(s));
}

/// An explicit value overrides the `+`/`-` prefix: with a value after the
/// tag, `+item` and `-item` parse alike, and a prefix `+` changes nothing.
pub proof fn law_explicit_value_overrides_prefix(r: Seq<char>)
    ensures
        r.len() == 0 || (r[0] != '+' && r[0] != '-') ==> spec_parse_one(seq!['+'] + r)
            == spec_parse_one(r),
        ({
            let rest = trim_start(r);
            let tail = if rest.len() > 0 && (rest[0] == '\'' || rest[0] == '"') {
                rest.drop_first().skip(first_match(rest.drop_first(), is_char(rest[0])) as int + 1)
            } else {
                rest.skip(first_match(rest, tag_end()) as int)
            };
            trim_start(tail).len() > 0
        }) ==> spec_parse_one(seq!['+'] + r) == spec_parse_one(seq!['-'] + r),
{
    assert((seq!['+'] + r).drop_first() =~= r);
    assert((seq!['-'] + r).drop_first() =~= r);
    assert((seq!['+'] + r)[0] == '+');
    assert((seq!['-'] + r)[0] == '-');
}

} // verus!

verus! {

pub open spec fn all_whitespace(p: Seq<char>) -> bool {
    forall|j: int| 0 <= j < p.len() ==> spec_is_whitespace(#[trigger] p[j])
}

proof fn lemma_split_blank(s: Seq<char>)
    requires
        forall|i: int| 0 <= i < s.len() ==> spec_is_whitespace(#[trigger] s[i]) || s[i] == ',',
    ensures
        forall|k: int| 0 <= k < split_state(s).0.len() ==> all_whitespace(#[trigger] split_state(s).0[k]),
        all_whitespace(split_state(s).1),
    decreases s.len(),
{
    if s.len() > 0 {
        let p = s.drop_last();
        assert forall|i: int| 0 <= i < p.len() implies spec_is_whitespace(#[trigger] p[i]) || p[i] == ',' by {
            assert(p[i] == s[i]);
        }
        lemma_split_blank(p);
        let (d, c) = split_state(p);
        if s.last() == ',' {
            assert forall|k: int| 0 <= k < d.push(c).len() implies all_whitespace(#[trigger] d.push(c)[k]) by {
                if k < d.len() {
                    assert(d.push(c)[k] == d[k]);
                }
            }
        } else {
            assert(spec_is_whitespace(s[s.len() - 1]));
            assert forall|j: int| 0 <= j < c.push(s.last()).len() implies spec_is_whitespace(#[trigger] c.push(s.last())[j]) by {
                if j < c.len() {
                    assert(c.push(s.last())[j] == c[j]);
                }
            }
        }
    }
}

proof fn lemma_trim_blank(p: Seq<char>)
    requires
        all_whitespace(p),
    ensures
        trim(p).len() == 0,
{
    let f = not_whitespace();
    assert forall|j: int| 0 <= j < p.len() implies !f(#[trigger] p[j]) by {}
    lemma_first_match(p, f, p.len() as int);
    assert(trim_start(p).len() == 0);
}

proof fn lemma_fold_blank(pieces: Seq<Seq<char>>)
    requires
        forall|k: int| 0 <= k < pieces.len() ==> all_whitespace(#[trigger] pieces[k]),
    ensures
        fold_pieces(pieces) == Ok::<Seq<(u32, i32)>, ListFault>(seq![]),
    decreases pieces.len(),
{
    if pieces.len() > 0 {
        let p = pieces.drop_last();
        assert forall|k: int| 0 <= k < p.len() implies all_whitespace(#[trigger] p[k]) by {
            assert(p[k] == pieces[k]);
        }
        lemma_fold_blank(p);
        assert(all_whitespace(pieces[pieces.len() - 1]));
        lemma_trim_blank(pieces.last());
    }
}

/// Blank items are skipped: a list made only of whitespace and commas
/// (the empty string among them) gives no features, and no error.
pub proof fn law_blank_list_is_empty(s: Seq<char>)
    requires
        forall|i: int| 0 <= i < s.len() ==> spec_is_whitespace(#[trigger] s[i]) || s[i] == ',',
    ensures
        spec_parse_features(s) == Ok::<Seq<(u32, i32)>, ListFault>(seq![]),
{
    lemma_split_blank(s);
    let (d, c) = split_state(s);
    assert forall|k: int| 0 <= k < d.push(c).len() implies all_whitespace(#[trigger] d.push(c)[k]) by {
        if k < d.len() {
            assert(d.push(c)[k] == d[k]);
        }
    }
    lemma_fold_blank(split_commas(s));
}

} // verus!

verus! {

/// An item of the list is accepted: blank, or an item that parses.
pub open spec fn item_accepted(piece: Seq<char>) -> bool {
    trim(piece).len() == 0 || spec_parse_one(trim(piece)) is Ok
}

/// The first refused item among the first `k` pieces, if any.
pub open spec fn first_refused(pieces: Seq<Seq<char>>, k: nat) -> Option<nat>
    decreases k,
{
    if k == 0 {
        None
    } else {
        match first_refused(pieces, (k - 1) as nat) {
            Some(i) => Some(i),
            None => if item_accepted(pieces[k - 1]) {
                None
            } else {
                Some((k - 1) as nat)
            },
        }
    }
}

proof fn lemma_fold_refuses(pieces: Seq<Seq<char>>)
    ensures
        match first_refused(pieces, pieces.len()) {
            None => fold_pieces(pieces) is Ok,
            Some(i) => i < pieces.len() && fold_pieces(pieces) == Err::<Seq<(u32, i32)>, ListFault>(
                ListFault {
                    part: trim(pieces[i as int]),
                    cause: spec_parse_one(trim(pieces[i as int]))->Err_0,
                },
            ),
        },
    decreases pieces.len(),
{
    if pieces.len() > 0 {
        let prev = pieces.drop_last();
        lemma_fold_refuses(prev);
        assert forall|k: nat| k <= prev.len() implies first_refused(prev, k) == first_refused(
            pieces,
            k,
        ) by {
            lemma_first_refused_prefix(prev, pieces, k);
        }
        assert(pieces[pieces.len() - 1] == pieces.last());
    }
}

proof fn lemma_first_refused_prefix(a: Seq<Seq<char>>, b: Seq<Seq<char>>, k: nat)
    requires
        k <= a.len(),
        k <= b.len(),
        forall|i: int| 0 <= i < k ==> a[i] == b[i],
    ensures
        first_refused(a, k) == first_refused(b, k),
    decreases k,
{
    if k > 0 {
        lemma_first_refused_prefix(a, b, (k - 1) as nat);
    }
}

/// Every malformed item is an error: a list parses exactly when each of its
/// comma-separated items is blank or parses, and a refused list names its
/// first malformed item (trimmed) and why that item was refused.
pub proof fn law_every_malformed_item_is_refused(s: Seq<char>)
    ensures
        spec_parse_features(s) is Ok <==> forall|k: int|
            0 <= k < split_commas(s).len() ==> item_accepted(#[trigger] split_commas(s)[k]),
        match first_refused(split_commas(s), split_commas(s).len()) {
            None => spec_parse_features(s) is Ok,
            Some(i) => spec_parse_features(s) == Err::<Seq<(u32, i32)>, ListFault>(
                ListFault {
                    part: trim(split_commas(s)[i as int]),
                    cause: spec_parse_one(trim(split_commas(s)[i as int]))->Err_0,
                },
            ),
        },
{
    let p = split_commas(s);
    lemma_fold_refuses(p);
    lemma_first_refused_none(p, p.len());
}

proof fn lemma_first_refused_none(pieces: Seq<Seq<char>>, k: nat)
    requires
        k <= pieces.len(),
    ensures
        first_refused(pieces, k) is None <==> forall|i: int| 0 <= i < k ==> item_accepted(
            #[trigger] pieces[i],
        ),
        first_refused(pieces, k) matches Some(i) ==> i < k && !item_accepted(pieces[i as int]),
    decreases k,
{
    if k > 0 {
        lemma_first_refused_none(pieces, (k - 1) as nat);
    }
}

} // verus!

verus! {

/// `t` can stand as a bare tag: no quote `q`, no ASCII whitespace, `=` or
/// `[` in it, and not starting with whitespace or a quote.
pub open spec fn bare_tag_chars(t: Seq<char>, q: char) -> bool {
    &&& t.len() >= 1
    &&& !spec_is_whitespace(t[0])
    &&& t[0] != '\'' && t[0] != '"'
    &&& forall|i: int|
        0 <= i < t.len() ==> #[trigger] t[i] != q && !spec_is_ascii_whitespace(t[i]) && t[i] != '='
            && t[i] != '['
}

proof fn lemma_trim_start_keeps(s: Seq<char>)
    requires
        s.len() == 0 || !spec_is_whitespace(s[0]),
    ensures
        trim_start(s) == s,
{
    lemma_first_match(s, not_whitespace(), 0);
    assert(s.skip(0) =~= s);
}

proof fn lemma_parse_quoted(p: Seq<char>, v0: i32, q: char, t: Seq<char>, v: Seq<char>)
    requires
        q == '\'' || q == '"',
        bare_tag_chars(t, q),
        sign_split(p) == (v0, seq![q] + t + seq![q] + v),
    ensures
        spec_parse_one(p) == spec_after_tag(v0, t, v),
{
    let rq = seq![q] + t + seq![q] + v;
    assert(rq[0] == q);
    lemma_trim_start_keeps(rq);
    let inner = rq.drop_first();
    assert(inner =~= t + seq![q] + v);
    assert forall|j: int| 0 <= j < t.len() implies !is_char(q)(#[trigger] inner[j]) by {
        assert(inner[j] == t[j]);
    }
    assert(inner[t.len() as int] == q);
    lemma_first_match(inner, is_char(q), t.len() as int);
    assert(inner.take(t.len() as int) =~= t);
    assert(inner.skip(t.len() as int + 1) =~= v);
}

proof fn lemma_parse_bare(p: Seq<char>, v0: i32, q: char, t: Seq<char>, v: Seq<char>)
    requires
        bare_tag_chars(t, q),
        v.len() == 0 || spec_is_ascii_whitespace(v[0]) || v[0] == '=' || v[0] == '[',
        sign_split(p) == (v0, t + v),
    ensures
        spec_parse_one(p) == spec_after_tag(v0, t, v),
{
    let rb = t + v;
    assert(rb[0] == t[0]);
    lemma_trim_start_keeps(rb);
    assert forall|j: int| 0 <= j < t.len() implies !tag_end()(#[trigger] rb[j]) by {
        assert(rb[j] == t[j]);
    }
    if v.len() > 0 {
        assert(rb[t.len() as int] == v[0]);
    }
    lemma_first_match(rb, tag_end(), t.len() as int);
    assert(rb.take(t.len() as int) =~= t);
    assert(rb.skip(t.len() as int) =~= v);
}

proof fn lemma_sign_split_of(sign: Seq<char>, r: Seq<char>)
    requires
        r.len() > 0,
        sign == seq!['+'] || sign == seq!['-'] || (sign.len() == 0 && r[0] != '+' && r[0] != '-'),
    ensures
        sign_split(sign + r) == (if sign == seq!['-'] { 0i32 } else { 1i32 }, r),
{
    if sign.len() == 1 {
        assert((sign + r).drop_first() =~= r);
        assert((sign + r)[0] == sign[0]);
    } else {
        assert(sign + r =~= r);
    }
}

/// Quoting a tag does not change what an item means: with a sign (`+`, `-`
/// or none) and the same text after the tag, `'tag'` and `"tag"` parse to
/// the same record, or the same error, as the bare `tag`. Without a value,
/// a quoted tag after `-` gives value 0 and otherwise 1.
pub proof fn law_quoted_tag_means_the_same(sign: Seq<char>, q: char, t: Seq<char>, v: Seq<char>)
    requires
        q == '\'' || q == '"',
        bare_tag_chars(t, q),
        v.len() == 0 || spec_is_ascii_whitespace(v[0]) || v[0] == '=' || v[0] == '[',
        sign == seq!['+'] || sign == seq!['-'] || (sign.len() == 0 && t[0] != '+' && t[0] != '-'),
    ensures
        spec_parse_one(sign + seq![q] + t + seq![q] + v) == spec_parse_one(sign + t + v),
        v.len() == 0 ==> spec_parse_one(sign + seq![q] + t + seq![q]) == match spec_feature_tag(t) {
            Ok(w) => Ok((w, if sign == seq!['-'] { 0i32 } else { 1i32 })),
            Err(e) => Err(e),
        },
{
    let v0: i32 = if sign == seq!['-'] { 0 } else { 1 };
    let rq = seq![q] + t + seq![q] + v;
    let rb = t + v;
    assert(sign + seq![q] + t + seq![q] + v =~= sign + rq);
    assert(sign + t + v =~= sign + rb);
    assert(rq[0] == q);
    assert(rb[0] == t[0]);
    lemma_sign_split_of(sign, rq);
    lemma_sign_split_of(sign, rb);
    lemma_parse_quoted(sign + rq, v0, q, t, v);
    lemma_parse_bare(sign + rb, v0, q, t, v);
    if v.len() == 0 {
        assert(sign + seq![q] + t + seq![q] + v =~= sign + seq![q] + t + seq![q]);
        lemma_trim_start_keeps(v);
    }
}

} // verus!
