use pyusp::probeplan::{
    c_str_len, event_name, hookable, nonzero_len, parse_hex_rva, probe_plan, rva_of,
    state_changes, tally_keys, tally_rets, tally_tags, worker_event_rva, worker_hook_targets,
    ProbeFlags, ProbePlan, TAG_ALLOC, TAG_POST, TAG_THREAD,
};

fn flags() -> ProbeFlags {
    ProbeFlags {
        worker: false,
        callee: false,
        glyph: false,
        ret: false,
        ts: false,
        ts_ret: false,
        native_run: false,
        ts_one: None,
        callee_one: None,
    }
}

#[test]
fn no_switch_no_probe() {
    assert!(matches!(probe_plan(&flags()), ProbePlan::Nothing));
}

#[test]
fn textshaping_probe_comes_first() {
    let mut f = flags();
    f.ts = true;
    f.ret = true;
    f.worker = true;
    match probe_plan(&f) {
        ProbePlan::TextShaping { rvas, ret } => {
            assert_eq!(rvas.len(), 7);
            assert_eq!(rvas[0], (0xad60, 5));
            assert_eq!(rvas[4], (0x1500, 6));
            assert!(!ret);
        }
        _ => panic!("expected the TextShaping probe"),
    }
    f.ts_one = Some(0xcc10);
    f.ts_ret = true;
    match probe_plan(&f) {
        ProbePlan::TextShaping { rvas, ret } => {
            assert_eq!(rvas, vec![(0xcc10, 5)]);
            assert!(ret);
        }
        _ => panic!("expected the TextShaping probe"),
    }
    f.ts_one = Some(0x1234);
    match probe_plan(&f) {
        ProbePlan::TextShaping { rvas, .. } => assert!(rvas.is_empty()),
        _ => panic!("expected the TextShaping probe"),
    }
}

#[test]
fn gdi_probes() {
    let mut f = flags();
    f.ret = true;
    f.callee = true;
    match probe_plan(&f) {
        ProbePlan::GdiReturns { rvas } => {
            assert_eq!(rvas, vec![(0x4b720, 5), (0x4e180, 11), (0x4cfb0, 8)])
        }
        _ => panic!("expected the return probe"),
    }
    f.ret = false;
    match probe_plan(&f) {
        ProbePlan::GdiCallees { rvas } => {
            assert_eq!(rvas.len(), 11);
            assert_eq!(rvas[4], (0x7a10, 5));
        }
        _ => panic!("expected the callee probe"),
    }
    f.callee_one = Some(0x4e180);
    match probe_plan(&f) {
        ProbePlan::GdiCallees { rvas } => assert_eq!(rvas, vec![(0x4e180, 11)]),
        _ => panic!("expected the callee probe"),
    }
    f.glyph = true;
    match probe_plan(&f) {
        ProbePlan::GdiCallees { rvas } => {
            assert_eq!(rvas, vec![(0x4b720, 5), (0x4e180, 11), (0x4cfb0, 8)])
        }
        _ => panic!("expected the glyph probe"),
    }
}

#[test]
fn worker_then_native_run() {
    let mut f = flags();
    f.worker = true;
    f.native_run = true;
    assert!(matches!(probe_plan(&f), ProbePlan::Worker));
    f.worker = false;
    assert!(matches!(probe_plan(&f), ProbePlan::NativeRun));
}

#[test]
fn worker_targets() {
    let t = worker_hook_targets();
    assert_eq!(t.len(), 6);
    assert_eq!(t[0], ("ntdll.dll", "TpSimpleTryPost", 0, TAG_POST));
    assert_eq!(t[3], ("kernel32.dll", "CreateThreadpoolWork", 0, TAG_ALLOC));
    assert_eq!(t[5], ("kernel32.dll", "CreateThread", 2, TAG_THREAD));
}

#[test]
fn only_replayable_prologues_are_hooked() {
    assert_eq!(hookable(&vec![(1, 5), (2, 4), (3, 11), (4, 0)]), vec![(1, 5), (3, 11)]);
}

#[test]
fn hex_rvas() {
    assert_eq!(parse_hex_rva("4e180"), Some(0x4e180));
    assert_eq!(parse_hex_rva("0x4E180"), Some(0x4e180));
    assert_eq!(parse_hex_rva("0x0x10"), Some(0x10));
    assert_eq!(parse_hex_rva("+ff"), Some(0xff));
    assert_eq!(parse_hex_rva("0xffffffffffffffff"), Some(u64::MAX));
    assert_eq!(parse_hex_rva("0000000000000000000001"), Some(1));
    assert_eq!(parse_hex_rva("0x"), None);
    assert_eq!(parse_hex_rva(""), None);
    assert_eq!(parse_hex_rva("+"), None);
    assert_eq!(parse_hex_rva("-1"), None);
    assert_eq!(parse_hex_rva(" 10"), None);
    assert_eq!(parse_hex_rva("0X10"), None);
    assert_eq!(parse_hex_rva("1_0"), None);
    assert_eq!(parse_hex_rva("10000000000000000"), None);
}

#[test]
fn relative_addresses() {
    assert_eq!(rva_of(0x7FF8_0001_2345, 0x7FF8_0000_0000), 0x1_2345);
    assert_eq!(rva_of(0x1000, 0x2000), 0x1000);
    assert_eq!(rva_of(0x1000, 0), 0x1000);
    assert_eq!(worker_event_rva(0x7FF8_0001_0000, 0x7FF8_0000_0000), Some(0x1_0000));
    assert_eq!(worker_event_rva(0x7FF8_0020_0000, 0x7FF8_0000_0000), None);
    assert_eq!(worker_event_rva(0x10, 0), None);
    assert_eq!(worker_event_rva(0x10, 0x20), None);
}

#[test]
fn event_names() {
    assert_eq!(event_name(1), "post");
    assert_eq!(event_name(2), "alloc");
    assert_eq!(event_name(3), "thread");
    assert_eq!(event_name(4), "?");
}

#[test]
fn nul_terminated_names() {
    assert_eq!(c_str_len(b"GSUB lookup 3\0\0\0"), 13);
    assert_eq!(c_str_len(b"\0abc"), 0);
    assert_eq!(c_str_len(b"full"), 4);
}

#[test]
fn snapshots_without_their_padding() {
    assert_eq!(nonzero_len(&vec![5, 0, 7, 0, 0]), 3);
    assert_eq!(nonzero_len(&vec![0, 0]), 0);
    assert_eq!(nonzero_len(&vec![]), 0);
    assert_eq!(nonzero_len(&vec![1, 2]), 2);
}

#[test]
fn distinct_consecutive_states() {
    let s = vec![vec![1, 2], vec![1, 2], vec![3, 2], vec![1, 2], vec![1, 2]];
    assert_eq!(state_changes(&s), vec![0, 2, 3]);
    assert_eq!(state_changes(&vec![]), Vec::<usize>::new());
    assert_eq!(state_changes(&vec![vec![], vec![0]]), vec![0, 1]);
}

#[test]
fn tallies_in_key_order() {
    let rows = tally_keys(&vec![(2, 1), (1, 9), (2, 1), (1, 3), (2, 0)]);
    assert_eq!(rows, vec![((1, 3), 1), ((1, 9), 1), ((2, 0), 1), ((2, 1), 2)]);
    let base = 0x7FF8_0000_0000;
    let rets = vec![(0x4b720, base + 0x100), (0x4e180, base + 0x80), (0x4b720, base + 0x100), (0x4b720, 0x42)];
    assert_eq!(
        tally_rets(&rets, base),
        vec![((0x4b720, 0x42), 1), ((0x4b720, 0x100), 2), ((0x4e180, 0x80), 1)]
    );
    assert_eq!(
        tally_tags(&vec![(0x4e180, 0), (0x4b720, 7), (0x4e180, 1)]),
        vec![((0x4b720, 0), 1), ((0x4e180, 0), 2)]
    );
    assert!(tally_tags(&vec![]).is_empty());
}
