use forge_core::timer::split_due;

#[test]
fn due_jobs_are_split_off_in_order() {
    let jobs = vec![("a".to_string(), 5u64), ("b".to_string(), 20), ("c".to_string(), 10)];
    let (fired, waiting) = split_due(jobs, 10);
    assert_eq!(fired, vec!["a".to_string(), "c".to_string()]);
    assert_eq!(waiting, vec![("b".to_string(), 20)]);
}
