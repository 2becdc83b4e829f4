use pyusp::probe::{
    arm_once, clear_events, clear_rets, collect_run_gids, drain, drain_glyph_steps, drain_rets,
    drain_run_steps, is_user_canonical, record_capture, record_glyph_step, record_ret, record_run,
    rip_bucket, rip_report, run_clear, set_glyph_buf, ProbeLog, RunCapture,
};

#[test]
fn drain_hands_back_events_in_order_and_forgets_them() {
    let mut log = ProbeLog::new();
    assert_eq!(record_capture(&mut log, 1, 0x10), None);
    assert_eq!(record_capture(&mut log, 2, 0x20), None);
    assert_eq!(drain(&mut log), vec![(1, 0x10), (2, 0x20)]);
    assert!(drain(&mut log).is_empty());
}

#[test]
fn capture_snapshots_the_stashed_buffer() {
    let mut log = ProbeLog::new();
    set_glyph_buf(&mut log, 0x5000, 40);
    assert_eq!(record_capture(&mut log, 3, 7), Some((0x5000, 40)));
    set_glyph_buf(&mut log, 0x5000, 1000);
    assert_eq!(record_capture(&mut log, 3, 7), Some((0x5000, 256)));
    set_glyph_buf(&mut log, 0, 40);
    assert_eq!(record_capture(&mut log, 3, 7), None);
    set_glyph_buf(&mut log, 0x5000, 0);
    assert_eq!(record_capture(&mut log, 3, 7), None);
    assert_eq!(log.events.len(), 4);
}

#[test]
fn glyph_steps_are_cleared_by_a_new_buffer() {
    let mut log = ProbeLog::new();
    set_glyph_buf(&mut log, 0x5000, 4);
    record_glyph_step(&mut log, 9, vec![1, 2, 0, 0]);
    record_glyph_step(&mut log, 10, vec![1, 3, 0, 0]);
    assert_eq!(drain_glyph_steps(&mut log), vec![(9, vec![1, 2, 0, 0]), (10, vec![1, 3, 0, 0])]);
    assert!(drain_glyph_steps(&mut log).is_empty());
    record_glyph_step(&mut log, 11, vec![4]);
    set_glyph_buf(&mut log, 0x6000, 4);
    assert!(drain_glyph_steps(&mut log).is_empty());
    assert_eq!(log.glyph_buf, Some((0x6000, 4)));
}

#[test]
fn return_addresses_and_runs() {
    let mut log = ProbeLog::new();
    record_ret(&mut log, 0x1234, 0x7FF8_0000_1000);
    record_ret(&mut log, 0x1240, 0x7FF8_0000_2000);
    assert_eq!(drain_rets(&mut log), vec![(0x1234, 0x7FF8_0000_1000), (0x1240, 0x7FF8_0000_2000)]);
    assert!(drain_rets(&mut log).is_empty());
    record_ret(&mut log, 1, 2);
    clear_rets(&mut log);
    assert!(drain_rets(&mut log).is_empty());

    record_run(&mut log, 1, vec![5, 6]);
    record_run(&mut log, 2, vec![7]);
    assert_eq!(drain_run_steps(&mut log), vec![(1, vec![5, 6]), (2, vec![7])]);
    record_run(&mut log, 3, vec![8]);
    run_clear(&mut log);
    assert!(drain_run_steps(&mut log).is_empty());

    record_capture(&mut log, 1, 1);
    clear_events(&mut log);
    assert!(drain(&mut log).is_empty());
}

#[test]
fn draining_one_log_leaves_the_others() {
    let mut log = ProbeLog::new();
    record_capture(&mut log, 1, 1);
    record_ret(&mut log, 2, 2);
    record_run(&mut log, 3, vec![3]);
    assert_eq!(drain(&mut log).len(), 1);
    assert_eq!(log.rets.len(), 1);
    assert_eq!(log.run_steps.len(), 1);
}

#[test]
fn arms_once() {
    let mut armed = false;
    assert!(arm_once(&mut armed));
    assert!(!arm_once(&mut armed));
    assert!(!arm_once(&mut armed));
    assert!(armed);
}

#[test]
fn user_canonical_pointers() {
    assert!(!is_user_canonical(0));
    assert!(!is_user_canonical(0xFFFF));
    assert!(is_user_canonical(0x10000));
    assert!(is_user_canonical(0x0000_7FFF_FFFF_FFFF));
    assert!(!is_user_canonical(0x0000_8000_0000_0000));
    assert!(!is_user_canonical(0xFFFF_8000_0000_0000));
}

#[test]
fn run_capture_takes_consecutive_nonzero_records() {
    let mut c = RunCapture::new();
    assert!(c.offer(10, 4));
    assert!(c.offer(11, 5));
    assert!(!c.offer(12, 7));
    assert_eq!(c.gids, vec![10, 11]);
    assert_eq!(c.prev, 5);
    assert!(!c.offer(0, 6));

    assert_eq!(collect_run_gids(&vec![(10, 0), (11, 1), (12, 2)]), vec![10, 11, 12]);
    assert_eq!(collect_run_gids(&vec![(10, 0), (0, 1), (12, 2)]), vec![10]);
    assert_eq!(collect_run_gids(&vec![(10, 3), (11, 5)]), vec![10]);
    assert_eq!(collect_run_gids(&vec![(0, 0)]), Vec::<u16>::new());
    assert_eq!(collect_run_gids(&vec![]), Vec::<u16>::new());
    let long: Vec<(u16, u16)> = (0..30u16).map(|i| (i + 1, i)).collect();
    let got = collect_run_gids(&long);
    assert_eq!(got.len(), 24);
    assert_eq!(got, (1..=24u16).collect::<Vec<u16>>());
}

#[test]
fn rip_buckets_are_16_byte_rvas_in_the_window() {
    assert_eq!(rip_bucket(0x1000, 0x1000), Some(0));
    assert_eq!(rip_bucket(0x101F, 0x1000), Some(1));
    assert_eq!(rip_bucket(0x1000 + 0x1F_FFFF, 0x1000), Some(0x1_FFFF));
    assert_eq!(rip_bucket(0x1000 + 0x20_0000, 0x1000), None);
    assert_eq!(rip_bucket(0xFFF, 0x1000), None);
}

#[test]
fn rip_report_orders_by_count_then_bucket() {
    let r = rip_report(&vec![7, 3, 7, 5, 3, 7, 9]);
    assert_eq!(r.samples, 7);
    assert_eq!(r.rows, vec![(7, 3), (3, 2), (5, 1), (9, 1)]);
    let e = rip_report(&vec![]);
    assert_eq!(e.samples, 0);
    assert!(e.rows.is_empty());
}
