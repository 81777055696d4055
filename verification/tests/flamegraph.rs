use mv_toolkit::flamegraph::{flamegraph_from_script, perf_script_is_foldable, FlamegraphError};

#[test]
fn flamegraph_of_a_perf_script() {
    let script = "ext 12688 [002] 6544038.708352: cpu-clock: \n\t    55d1c3a0b12a compute_vectors+0x1a (/usr/bin/ext)\n\t    55d1c3a0b2b1 main+0x21 (/usr/bin/ext)\n\n";
    let svg = match flamegraph_from_script(&script.as_bytes().to_vec(), "extractor2 Flamegraph (perf)") {
        Ok(svg) => String::from_utf8(svg).unwrap(),
        Err(_) => panic!("no flame graph"),
    };
    assert!(svg.contains("<svg"));
    assert!(svg.contains("compute_vectors"));
    assert!(svg.contains("extractor2 Flamegraph (perf)"));
}

#[test]
fn flamegraph_of_no_stacks_fails_to_draw() {
    assert!(matches!(flamegraph_from_script(&Vec::new(), "t"), Err(FlamegraphError::Draw(_))));
}

#[test]
fn scripts_whose_first_stack_names_no_event_are_refused() {
    // the folder would fail its check on these
    assert!(!perf_script_is_foldable(&b"\n".to_vec()));
    assert!(!perf_script_is_foldable(&b"x\n\n".to_vec()));
    assert!(!perf_script_is_foldable(&b"# header\next 12 [000]\n  f (m)\n\n".to_vec()));
    // an empty script, one without empty lines, or one whose first event line names its event
    assert!(perf_script_is_foldable(&Vec::new()));
    assert!(perf_script_is_foldable(&b"x\ny".to_vec()));
    assert!(perf_script_is_foldable(&b"# header\n\next 12 1.5: cycles:\n  f (m)\n\n".to_vec()) == false);
    assert!(perf_script_is_foldable(&b"# header\next 12 1.5: cycles:\n  f (m)\n\nnext 13 2.0: cycles:\n\n".to_vec()));
    assert!(perf_script_is_foldable(&b"weird line\next 12/13 [001] 1.5: cpu-clock:\n\n".to_vec()));
}
