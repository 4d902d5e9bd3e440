use greedy_evalcheck::transcript::ProverTranscript;

#[test]
fn writes_are_logged_little_endian() {
    let mut t = ProverTranscript::new(0);
    t.write_scalar(0x1234);
    assert_eq!(t.bytes, vec![0x34, 0x12]);
}

#[test]
fn sampling_writes_no_bytes() {
    let mut t = ProverTranscript::new(99);
    t.write_byte(1);
    let before = t.bytes.clone();
    let _c = t.sample();
    assert_eq!(t.bytes, before);
}

#[test]
fn equal_logs_give_equal_challenges() {
    let mut t1 = ProverTranscript::new(5);
    let mut t2 = ProverTranscript::new(5);
    t1.write_scalar(7);
    t2.write_scalar(7);
    assert_eq!(t1.sample(), t2.sample());
    assert_eq!(t1.state, t2.state);
}

#[test]
fn different_seeds_diverge() {
    let mut t1 = ProverTranscript::new(1);
    let mut t2 = ProverTranscript::new(2);
    t1.write_byte(0);
    t2.write_byte(0);
    assert_ne!(t1.sample(), t2.sample());
}
