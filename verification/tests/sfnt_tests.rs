use pyusp::sfnt::{be16, be32, face_family, sfnt_family, sfnt_meta};

fn put16(v: &mut Vec<u8>, x: u16) {
    v.extend_from_slice(&x.to_be_bytes());
}

fn put32(v: &mut Vec<u8>, x: u32) {
    v.extend_from_slice(&x.to_be_bytes());
}

/// An sfnt blob with the given tables, laid out after the directory.
fn font(sig: &[u8; 4], tables: &[(&[u8; 4], Vec<u8>)]) -> Vec<u8> {
    font_at(0, sig, tables)
}

/// The same, to be placed at file offset `base` (table offsets are absolute).
fn font_at(base: usize, sig: &[u8; 4], tables: &[(&[u8; 4], Vec<u8>)]) -> Vec<u8> {
    let mut d = Vec::new();
    d.extend_from_slice(sig);
    put16(&mut d, tables.len() as u16);
    put16(&mut d, 0);
    put16(&mut d, 0);
    put16(&mut d, 0);
    let mut off = base + 12 + 16 * tables.len();
    for (tag, body) in tables {
        d.extend_from_slice(*tag);
        put32(&mut d, 0);
        put32(&mut d, off as u32);
        put32(&mut d, body.len() as u32);
        off += body.len();
    }
    for (_, body) in tables {
        d.extend_from_slice(body);
    }
    d
}

fn head(upem: u16) -> Vec<u8> {
    let mut h = vec![0u8; 18];
    put16(&mut h, upem);
    h.extend_from_slice(&[0u8; 34]);
    h
}

fn maxp(n: u16) -> Vec<u8> {
    let mut m = vec![0, 0, 0x50, 0];
    put16(&mut m, n);
    m
}

/// A `name` table with (platform, encoding, nameID, text) records (UTF-16BE).
fn name(recs: &[(u16, u16, u16, &str)]) -> Vec<u8> {
    let mut strings = Vec::new();
    let mut t = Vec::new();
    put16(&mut t, 0);
    put16(&mut t, recs.len() as u16);
    put16(&mut t, (6 + 12 * recs.len()) as u16);
    for (p, e, id, s) in recs {
        let units: Vec<u16> = s.encode_utf16().collect();
        put16(&mut t, *p);
        put16(&mut t, *e);
        put16(&mut t, 0x409);
        put16(&mut t, *id);
        put16(&mut t, (units.len() * 2) as u16);
        put16(&mut t, strings.len() as u16);
        for u in units {
            put16(&mut strings, u);
        }
    }
    t.extend_from_slice(&strings);
    t
}

#[test]
fn big_endian_readers() {
    let d = [0x12, 0x34, 0x56, 0x78, 0x9A];
    assert_eq!(be16(&d, 0), 0x1234);
    assert_eq!(be16(&d, 3), 0x789A);
    assert_eq!(be32(&d, 0), 0x1234_5678);
    assert_eq!(be32(&d, 1), 0x3456_789A);
}

#[test]
fn meta_reads_head_and_maxp() {
    let d = font(b"\x00\x01\x00\x00", &[(b"head", head(1000)), (b"maxp", maxp(42))]);
    assert_eq!(sfnt_meta(&d), (1000, 42));
    let d = font(b"OTTO", &[(b"maxp", maxp(7)), (b"head", head(2048))]);
    assert_eq!(sfnt_meta(&d), (2048, 7));
}

#[test]
fn meta_defaults_when_not_an_sfnt() {
    assert_eq!(sfnt_meta(b"hello world!"), (2048, 0));
    assert_eq!(sfnt_meta(b"short"), (2048, 0));
    assert_eq!(sfnt_meta(b""), (2048, 0));
}

#[test]
fn meta_defaults_for_missing_tables() {
    let d = font(b"true", &[(b"cmap", vec![0; 8])]);
    assert_eq!(sfnt_meta(&d), (2048, 0));
}

#[test]
fn meta_takes_the_last_head_record() {
    let d = font(b"\x00\x01\x00\x00", &[(b"head", head(1000)), (b"head", head(512))]);
    assert_eq!(sfnt_meta(&d).0, 512);
}

#[test]
fn meta_accepts_typ1_but_family_does_not() {
    let d = font(b"typ1", &[(b"head", head(1000)), (b"name", name(&[(3, 1, 1, "Old")]))]);
    assert_eq!(sfnt_meta(&d).0, 1000);
    assert_eq!(sfnt_family(&d), None);
}

/// A collection header for `n` fonts whose directories start at `offsets`.
fn ttc_header(offsets: &[u32]) -> Vec<u8> {
    let mut d = Vec::new();
    d.extend_from_slice(b"ttcf");
    put32(&mut d, 0x0001_0000);
    put32(&mut d, offsets.len() as u32);
    for o in offsets {
        put32(&mut d, *o);
    }
    d
}

#[test]
fn meta_reads_a_collection() {
    // one font, its directory right after the 16-byte header
    let mut d = ttc_header(&[16]);
    d.extend_from_slice(&font_at(16, b"\x00\x01\x00\x00", &[(b"head", head(1000)), (b"maxp", maxp(9))]));
    assert_eq!(sfnt_meta(&d), (1000, 9));
    // two fonts: the first one counts
    let mut d = ttc_header(&[20, 0]);
    d.extend_from_slice(&font_at(20, b"\x00\x01\x00\x00", &[(b"head", head(1000)), (b"maxp", maxp(5))]));
    assert_eq!(sfnt_meta(&d), (1000, 5));
}

#[test]
fn family_reads_a_collection() {
    let mut d = ttc_header(&[16]);
    d.extend_from_slice(&font_at(16, b"OTTO", &[(b"name", name(&[(3, 1, 1, "Collected")]))]));
    assert_eq!(sfnt_family(&d), Some("Collected".to_string()));
    // without a name table there is no name
    let mut d = ttc_header(&[16]);
    d.extend_from_slice(&font_at(16, b"OTTO", &[(b"head", head(1000))]));
    assert_eq!(sfnt_family(&d), None);
}

#[test]
fn meta_refuses_a_truncated_collection() {
    // the first directory would start past the end
    let d = ttc_header(&[100]);
    assert_eq!(sfnt_meta(&d), (2048, 0));
    assert_eq!(sfnt_family(&d), None);
    // no room for the first offset
    assert_eq!(sfnt_meta(&d[..14]), (2048, 0));
    // a directory offset leaving less than its 12-byte header
    let mut d = ttc_header(&[20]);
    d.extend_from_slice(&[0u8; 10]);
    assert_eq!(sfnt_meta(&d), (2048, 0));
    assert_eq!(sfnt_family(&d), None);
}

#[test]
fn family_prefers_name_id_1() {
    let d = font(
        b"\x00\x01\x00\x00",
        &[(b"name", name(&[(3, 1, 16, "Typo Family"), (3, 1, 1, "GDI Family")]))],
    );
    assert_eq!(sfnt_family(&d), Some("GDI Family".to_string()));
}

#[test]
fn family_falls_back_to_name_id_16() {
    let d = font(b"OTTO", &[(b"name", name(&[(3, 1, 16, "Typo Family"), (1, 0, 1, "Mac")]))]);
    assert_eq!(sfnt_family(&d), Some("Typo Family".to_string()));
}

#[test]
fn family_keeps_the_first_name_id_1() {
    let d = font(
        b"\x00\x01\x00\x00",
        &[(b"name", name(&[(3, 1, 1, "First"), (3, 10, 1, "Second")]))],
    );
    assert_eq!(sfnt_family(&d), Some("First".to_string()));
}

#[test]
fn family_skips_other_platforms_and_ids() {
    let d = font(
        b"\x00\x01\x00\x00",
        &[(b"name", name(&[(1, 0, 1, "Mac"), (3, 1, 4, "Full Name"), (3, 3, 1, "Enc3")]))],
    );
    assert_eq!(sfnt_family(&d), None);
}

#[test]
fn family_replaces_lone_surrogates() {
    let mut t = Vec::new();
    put16(&mut t, 0);
    put16(&mut t, 1);
    put16(&mut t, 18);
    for x in [3u16, 1, 0x409, 1, 4, 0] {
        put16(&mut t, x);
    }
    put16(&mut t, 0x0041);
    put16(&mut t, 0xD800);
    let d = font(b"\x00\x01\x00\x00", &[(b"name", t)]);
    assert_eq!(sfnt_family(&d), Some("A\u{FFFD}".to_string()));
}

#[test]
fn family_none_without_name_table() {
    let d = font(b"\x00\x01\x00\x00", &[(b"head", head(1000))]);
    assert_eq!(sfnt_family(&d), None);
    assert_eq!(sfnt_family(b"not a font!!"), None);
}

#[test]
fn huge_directory_offsets_give_the_defaults() {
    let d = ttc_header(&[0xFFFF_FFF0, 0]);
    assert_eq!(sfnt_meta(&d), (2048, 0));
    assert_eq!(sfnt_family(&d), None);
    // a table count larger than the blob holds: the records that fit are read
    let mut d = font(b"OTTO", &[(b"head", head(777))]);
    d[4] = 0xFF;
    d[5] = 0xFF;
    assert_eq!(sfnt_meta(&d), (777, 0));
}

#[test]
fn face_family_fallbacks() {
    assert_eq!(face_family(Some("Fam".to_string()), Some("file".to_string()), "Arial"), "Fam");
    assert_eq!(face_family(None, Some("file".to_string()), "Arial"), "file");
    assert_eq!(face_family(None, None, "Arial"), "Arial");
}
