use zxbasic::program::Program;

#[test]
fn upsert_orders_by_number() {
    let mut p = Program::new();
    p.upsert(20, "PRINT B".into());
    p.upsert(10, "PRINT A".into());
    p.upsert(30, "PRINT C".into());
    let collected: Vec<_> = p.iter();
    assert_eq!(
        collected,
        vec![(10, "PRINT A"), (20, "PRINT B"), (30, "PRINT C")]
    );
}

#[test]
fn empty_text_deletes() {
    let mut p = Program::new();
    p.upsert(10, "PRINT A".into());
    p.upsert(10, "".into());
    assert!(p.is_empty());
}

#[test]
fn next_at_or_after_skips_gaps() {
    let mut p = Program::new();
    p.upsert(10, "A".into());
    p.upsert(20, "B".into());
    p.upsert(40, "C".into());
    assert_eq!(p.next_at_or_after(0), Some(10));
    assert_eq!(p.next_at_or_after(15), Some(20));
    assert_eq!(p.next_at_or_after(25), Some(40));
    assert_eq!(p.next_at_or_after(50), None);
    assert_eq!(p.next_after(10), Some(20));
    assert_eq!(p.next_after(39), Some(40));
    assert_eq!(p.next_after(40), None);
}

#[test]
fn lines_are_replaced_and_deleted_alone() {
    let mut p = Program::default();
    p.upsert(10, "A".into());
    p.upsert(20, "B".into());
    p.upsert(10, "C".into());
    assert_eq!((p.get(10), p.get(20), p.get(30)), (Some("C"), Some("B"), None));
    p.upsert(20, " \t".into());
    assert_eq!(p.iter(), vec![(10, "C")]);
    p.delete(15);
    p.delete(10);
    assert!(p.is_empty());
    p.upsert(65535, "D".into());
    assert_eq!(p.next_at_or_after(65535), Some(65535));
    assert_eq!(p.next_after(65534), Some(65535));
    assert_eq!(p.next_after(65535), None);
    p.clear();
    assert!(p.is_empty());
}
