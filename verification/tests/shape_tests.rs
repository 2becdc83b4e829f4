use pyusp::features::TAG_DFLT;
use pyusp::shape::{
    assemble_item, base_level, check_backend, check_features_applicable, check_text,
    choose_wine_bytes, em_height, face_name_utf16, finish_item, glyph_capacity, glyph_clusters,
    has_rtl, item_span, itemize_capacity, native_trace, next_shape_step, pick_script_tag,
    place_glyphs, trace_stage_glyphs, GlyphOut, ItemShape, ShapeDoc, ShapeError, ShapeMessage,
    ShapeStep, StageLabel, TraceName,
};
use pyusp::uniscribe::{GOFFSET, E_OUTOFMEMORY};

fn u16s(s: &str) -> Vec<u16> {
    s.encode_utf16().collect()
}

fn g(gid: u16, cl: i64) -> GlyphOut {
    GlyphOut { g: gid, cl, dx: 0, dy: 0, ax: 0, ay: 0, flags: 0 }
}

#[test]
fn rtl_detection() {
    assert!(!has_rtl(&u16s("hello")));
    assert!(has_rtl(&u16s("abc \u{05D0}")));
    assert!(has_rtl(&u16s("\u{0627}\u{0644}")));
    assert!(has_rtl(&[0xFB1D]));
    assert!(has_rtl(&[0xFEFC]));
    assert!(!has_rtl(&[0xFEFD]));
    assert!(!has_rtl(&[]));
}

#[test]
fn paragraph_level_follows_direction_then_text() {
    assert_eq!(base_level("rtl", &u16s("abc")), 1);
    assert_eq!(base_level("ltr", &u16s("\u{05D0}")), 0);
    assert_eq!(base_level("auto", &u16s("\u{05D0}")), 1);
    assert_eq!(base_level("auto", &u16s("abc")), 0);
    assert_eq!(base_level("RTL", &u16s("abc")), 0);
}

#[test]
fn buffer_capacities() {
    assert_eq!(itemize_capacity(0), 16);
    assert_eq!(itemize_capacity(4), 16);
    assert_eq!(itemize_capacity(5), 18);
    assert_eq!(glyph_capacity(0), 16);
    assert_eq!(glyph_capacity(3), 17);
    assert_eq!(glyph_capacity(10), 38);
}

#[test]
fn shape_retry_steps() {
    assert_eq!(next_shape_step(0, 16), ShapeStep::Done);
    assert_eq!(next_shape_step(E_OUTOFMEMORY, 16), ShapeStep::Grow(32));
    assert_eq!(next_shape_step(E_OUTOFMEMORY, 65536), ShapeStep::Grow(131072));
    assert_eq!(next_shape_step(E_OUTOFMEMORY, 65537), ShapeStep::Overflow);
    assert_eq!(next_shape_step(-2147220992, 16), ShapeStep::Failed(-2147220992));
}

#[test]
fn growth_stays_bounded() {
    let mut m = 16;
    let mut steps = 0;
    loop {
        match next_shape_step(E_OUTOFMEMORY, m) {
            ShapeStep::Grow(n) => {
                assert_eq!(n, 2 * m);
                assert!(n <= 131072);
                m = n;
            }
            ShapeStep::Overflow => break,
            other => panic!("unexpected {other:?}"),
        }
        steps += 1;
    }
    assert_eq!(m, 131072);
    assert_eq!(steps, 13);
}

#[test]
fn item_spans() {
    let pos = vec![0, 3, 7, 7];
    assert_eq!(item_span(&pos, 0, 10), Some((0, 3)));
    assert_eq!(item_span(&pos, 1, 10), Some((3, 7)));
    assert_eq!(item_span(&pos, 2, 10), None);
    assert_eq!(item_span(&pos, 3, 10), Some((7, 10)));
    assert_eq!(item_span(&vec![-4, 20], 0, 10), Some((0, 10)));
    assert_eq!(item_span(&vec![12], 0, 10), None);
}

#[test]
fn script_tag_choice() {
    assert_eq!(pick_script_tag(0, 2, 0x6E72_7961, 0x6274_616C), 0x6E72_7961);
    assert_eq!(pick_script_tag(0, 0, 0x6E72_7961, 0x6274_616C), 0x6274_616C);
    assert_eq!(pick_script_tag(1, 2, 0x6E72_7961, 0x6274_616C), 0x6274_616C);
    assert_eq!(pick_script_tag(0, 2, 0, 0), TAG_DFLT);
    assert_ne!(pick_script_tag(-1, -1, 0, 0), 0);
}

#[test]
fn clusters_are_first_characters() {
    // "ffi" ligature: chars 0,1,2 -> glyph 0; char 3 -> glyph 1
    assert_eq!(glyph_clusters(&vec![0, 0, 0, 1], 2), vec![0, 3]);
    // decomposition: glyph 1 has no character: last character
    assert_eq!(glyph_clusters(&vec![0, 2], 3), vec![0, 1, 1]);
    assert_eq!(glyph_clusters(&vec![], 2), vec![0, 0]);
}

#[test]
fn placed_glyphs() {
    let out = place_glyphs(
        &vec![10, 11],
        &vec![500, 600],
        &vec![GOFFSET { du: 1, dv: -2 }, GOFFSET { du: 0, dv: 0 }],
        &vec![0, 0, 1],
        2,
    );
    assert_eq!(
        out,
        vec![
            GlyphOut { g: 10, cl: 0, dx: 1, dy: -2, ax: 500, ay: 0, flags: 0 },
            GlyphOut { g: 11, cl: 2, dx: 0, dy: 0, ax: 600, ay: 0, flags: 0 },
        ]
    );
}

#[test]
fn final_runs_shift_clusters_and_reverse_rtl() {
    let l = vec![g(1, 0), g(2, 1), g(3, 3)];
    assert_eq!(finish_item(&l, false, 10), vec![g(1, 10), g(2, 11), g(3, 13)]);
    assert_eq!(finish_item(&l, true, 10), vec![g(3, 13), g(2, 11), g(1, 10)]);
    let mut rev = finish_item(&l, false, 10);
    rev.reverse();
    assert_eq!(finish_item(&l, true, 10), rev);
}

#[test]
fn trace_stages_reuse_or_approximate_clusters() {
    let fin = vec![g(1, 0), g(2, 2)];
    // same count: the final clusters
    assert_eq!(trace_stage_glyphs(&vec![7, 8], &fin, 4, false, 5), vec![g(7, 5), g(8, 7)]);
    // other count: i * seg / m, capped at seg - 1
    assert_eq!(
        trace_stage_glyphs(&vec![7, 8, 9, 10], &fin, 4, false, 0),
        vec![g(7, 0), g(8, 1), g(9, 2), g(10, 3)]
    );
    assert_eq!(trace_stage_glyphs(&vec![7, 8, 9], &fin, 2, true, 0), vec![g(9, 1), g(8, 0), g(7, 0)]);
}

#[test]
fn whole_item_stage_without_trace() {
    let info = ItemShape { item: 0, script: 5, tag: 0x6E74_616C, start: 2, end: 5, rtl: false };
    let logical = vec![g(1, 0), g(2, 1), g(3, 2)];
    let out = assemble_item(&info, &logical, true, false, &vec![]);
    assert_eq!(out.final_glyphs, vec![g(1, 2), g(2, 3), g(3, 4)]);
    assert_eq!(out.stages.len(), 1);
    assert_eq!(out.stages[0].label, StageLabel::Whole { script: 5, tag: 0x6E74_616C });
    assert_eq!(out.stages[0].glyphs, out.final_glyphs);
    assert_eq!(
        out.messages,
        vec![ShapeMessage::ItemShaped {
            item: 0,
            script: 5,
            tag: 0x6E74_616C,
            start: 2,
            end: 5,
            glyphs: 3,
            rtl: false
        }]
    );
}

#[test]
fn traced_item_has_one_stage_per_capture() {
    let info = ItemShape { item: 1, script: 26, tag: 0x6261_7261, start: 0, end: 2, rtl: true };
    let logical = vec![g(40, 0), g(41, 1)];
    let raw = vec![
        (TraceName::Lookup("cmap".to_string()), vec![3, 4]),
        (TraceName::Lookup("lookup 2".to_string()), vec![40]),
    ];
    let out = assemble_item(&info, &logical, true, false, &raw);
    assert_eq!(out.final_glyphs, vec![g(41, 1), g(40, 0)]);
    assert_eq!(out.stages.len(), 2);
    assert_eq!(
        out.stages[0].label,
        StageLabel::Trace { native: false, name: TraceName::Lookup("cmap".to_string()) }
    );
    assert_eq!(out.stages[0].glyphs, vec![g(4, 1), g(3, 0)]);
    assert_eq!(out.stages[1].glyphs, vec![g(40, 0)]);
    assert_eq!(out.messages[1], ShapeMessage::TraceStages { native: false, count: 2 });
    // trace off: the captures are ignored
    let plain = assemble_item(&info, &logical, false, false, &raw);
    assert_eq!(plain.stages.len(), 1);
    assert_eq!(plain.messages.len(), 1);
}

#[test]
fn refusals() {
    assert_eq!(check_backend(true, false), Err(ShapeError::TextShapingNotHere));
    assert_eq!(check_backend(true, true), Ok(()));
    assert_eq!(check_backend(false, false), Ok(()));
    assert_eq!(check_features_applicable(1, true), Err(ShapeError::FeaturesNotApplicable));
    assert_eq!(check_features_applicable(0, true), Ok(()));
    assert_eq!(check_features_applicable(2, false), Ok(()));
    assert_eq!(check_text(0), Err(ShapeError::EmptyText));
    assert_eq!(check_text(1), Ok(()));
}

#[test]
fn font_bytes_path_choice() {
    assert_eq!(choose_wine_bytes(true, false, true, true), Ok(true));
    assert_eq!(choose_wine_bytes(true, true, true, true), Ok(false));
    assert_eq!(choose_wine_bytes(true, false, true, false), Ok(false));
    assert_eq!(choose_wine_bytes(true, false, false, true), Ok(false));
    assert_eq!(choose_wine_bytes(false, false, false, true), Ok(true));
    assert_eq!(choose_wine_bytes(false, true, true, false), Err(ShapeError::NoFontBytesProvider));
}

#[test]
fn native_timeline_is_cross_checked() {
    let steps = vec![(0x10, vec![1, 2]), (0x20, vec![3, 2])];
    assert_eq!(native_trace(false, false, &steps, &vec![9]).unwrap().len(), 0);
    assert_eq!(native_trace(true, false, &steps, &vec![3, 2]), Err(ShapeError::NativeUnsupported));
    assert_eq!(native_trace(true, true, &steps, &vec![1, 2]), Err(ShapeError::NativeCrossCheck));
    assert_eq!(native_trace(true, true, &vec![], &vec![1, 2]), Err(ShapeError::NativeCrossCheck));
    let ok = native_trace(true, true, &steps, &vec![3, 2]).unwrap();
    assert_eq!(ok, vec![(TraceName::Apply(1), vec![1, 2]), (TraceName::Apply(2), vec![3, 2])]);
}

#[test]
fn document_collects_items_and_refuses_no_glyphs() {
    let doc = ShapeDoc::new();
    assert_eq!(doc.close().err(), Some(ShapeError::NoGlyphs));
    let info = ItemShape { item: 0, script: 1, tag: 0x6E74_616C, start: 0, end: 1, rtl: false };
    let mut doc = ShapeDoc::new();
    doc.append_item(assemble_item(&info, &vec![g(5, 0)], false, false, &vec![]));
    let info2 = ItemShape { item: 1, script: 1, tag: 0x6E74_616C, start: 1, end: 2, rtl: false };
    doc.append_item(assemble_item(&info2, &vec![g(6, 0)], false, false, &vec![]));
    let d = doc.close().ok().unwrap();
    assert_eq!(d.final_glyphs, vec![g(5, 0), g(6, 1)]);
    assert_eq!(d.stages.len(), 2);
    assert_eq!(d.messages.len(), 2);
}

#[test]
fn face_names_are_31_units_zero_filled() {
    let f = face_name_utf16("Noto Sans");
    assert_eq!(f.len(), 32);
    assert_eq!(&f[..9], u16s("Noto Sans").as_slice());
    assert!(f[9..].iter().all(|&u| u == 0));
    let long = "A".repeat(40);
    let f = face_name_utf16(&long);
    assert_eq!(&f[..31], u16s(&long[..31]).as_slice());
    assert_eq!(f[31], 0);
    let astral = format!("{}\u{1F600}", "B".repeat(30));
    let f = face_name_utf16(&astral);
    assert_eq!(f[30], 0xD83D);
    assert_eq!(f[31], 0);
    assert_eq!(face_name_utf16(""), vec![0u16; 32]);
}

#[test]
fn em_heights() {
    assert_eq!(em_height(2048, None), -2048);
    assert_eq!(em_height(0, None), -1);
    assert_eq!(em_height(2048, Some(12)), -12);
    assert_eq!(em_height(0xFFFF_FFFF, None), 1);
}
