use pyusp::uniscribe::{
    ana_rtl, ana_script, hr_fmt, hres_msg, itemize_state, range_properties, with_logical_order,
    SCRIPT_ANALYSIS, SCRIPT_STATE, A_FLOGICAL_ORDER, E_INVALIDARG, E_OUTOFMEMORY,
};

#[test]
fn hresult_names() {
    assert_eq!(hres_msg(0), "S_OK");
    assert_eq!(hres_msg(E_OUTOFMEMORY), "E_OUTOFMEMORY");
    assert_eq!(hres_msg(E_INVALIDARG), "E_INVALIDARG");
    assert_eq!(hres_msg(-2147220992), "HRESULT error");
    assert_eq!(hres_msg(1), "HRESULT error");
}

#[test]
fn hresult_text_has_the_code_in_upper_hex() {
    assert_eq!(hr_fmt(0), "S_OK (0x00000000)");
    assert_eq!(hr_fmt(E_OUTOFMEMORY), "E_OUTOFMEMORY (0x8007000E)");
    assert_eq!(hr_fmt(E_INVALIDARG), "E_INVALIDARG (0x80070057)");
    assert_eq!(hr_fmt(-2147220992), "HRESULT error (0x80040200)");
    assert_eq!(hr_fmt(0x1234ABCD), "HRESULT error (0x1234ABCD)");
    assert_eq!(hr_fmt(-1), "HRESULT error (0xFFFFFFFF)");
}

#[test]
fn analysis_bit_fields() {
    let a = SCRIPT_ANALYSIS { _bitfield: 0x0400 | 0x0025, s: SCRIPT_STATE { _bitfield: 1 } };
    assert_eq!(ana_script(&a), 0x25);
    assert!(ana_rtl(&a));
    let b = SCRIPT_ANALYSIS { _bitfield: 0xFBFF, s: SCRIPT_STATE { _bitfield: 0 } };
    assert_eq!(ana_script(&b), 0x3FF);
    assert!(!ana_rtl(&b));
}

#[test]
fn logical_order_sets_only_its_bit() {
    let a = SCRIPT_ANALYSIS { _bitfield: 0x8425, s: SCRIPT_STATE { _bitfield: 7 } };
    let b = with_logical_order(a);
    assert_eq!(b._bitfield, 0x8425 | A_FLOGICAL_ORDER);
    assert_eq!(b.s, a.s);
    let c = with_logical_order(b);
    assert_eq!(c, b);
}

#[test]
fn itemizer_state_for_each_direction() {
    assert_eq!(itemize_state(0)._bitfield, 0);
    assert_eq!(itemize_state(1)._bitfield, 0x0801);
}

#[test]
fn one_range_of_records_in_request_order() {
    let f = vec![(0x6E72_656B, 1), (0x6167_696C, 0), (0x746C_6161, 2)];
    let r = range_properties(&f);
    assert_eq!(r.cotfRecords, 3);
    assert_eq!(r.potfRecords.len(), 3);
    for (i, (t, v)) in f.iter().enumerate() {
        assert_eq!(r.potfRecords[i].tagFeature, *t);
        assert_eq!(r.potfRecords[i].lParameter, *v);
    }
    let e = range_properties(&Vec::new());
    assert_eq!(e.cotfRecords, 0);
    assert!(e.potfRecords.is_empty());
}
