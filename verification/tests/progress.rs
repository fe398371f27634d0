use iphoto::base::progress::Progress;

#[test]
fn progress_counts_from_zero() {
    let mut p = Progress::new(3);
    assert_eq!(p.total, 3);
    assert_eq!(p.cur, 0);
    p.inc();
    p.inc();
    assert_eq!(p.cur, 2);
    assert_eq!(p.total, 3);
}
