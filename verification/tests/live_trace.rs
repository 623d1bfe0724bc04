use pickles::live_trace::{
    checkpoint, install_hook, mark_phase, new_trace, take_phase_counts, take_recorded,
    RECORD_LIMIT,
};

#[test]
fn the_record_keeps_the_latest_checkpoints() {
    let mut trace = new_trace::<u8>();
    for i in 0..RECORD_LIMIT + 3 {
        assert!(checkpoint(&mut trace, &format!("step {i}")).is_none());
    }
    let recorded = take_recorded(&mut trace);
    assert_eq!(recorded.len(), RECORD_LIMIT);
    assert_eq!(recorded[0], "step 3");
    assert_eq!(recorded[RECORD_LIMIT - 1], format!("step {}", RECORD_LIMIT + 2));
    assert!(take_recorded(&mut trace).is_empty());
}

#[test]
fn a_hook_is_handed_back_at_each_checkpoint() {
    let mut trace = new_trace();
    install_hook(&mut trace, 7u8);
    assert_eq!(*checkpoint(&mut trace, "a"), Some(7));
    install_hook(&mut trace, 8u8);
    assert_eq!(take_recorded(&mut trace), vec!["a".to_string()]);
}

#[test]
fn intervals_count_under_the_mark_that_opened_them() {
    let mut trace = new_trace::<u8>();
    assert_eq!(mark_phase(&mut trace, "compile"), None);
    assert_eq!(mark_phase(&mut trace, "prove"), Some(0));
    assert_eq!(mark_phase(&mut trace, "compile"), Some(1));
    assert_eq!(mark_phase(&mut trace, "compile_done"), Some(0));
    // a closing mark opens no interval
    assert_eq!(mark_phase(&mut trace, "prove"), None);
    let counts: Vec<(String, u32)> =
        take_phase_counts(&mut trace).into_iter().map(|p| (p.name, p.count)).collect();
    assert_eq!(counts, vec![("compile".to_string(), 2), ("prove".to_string(), 1)]);
}
