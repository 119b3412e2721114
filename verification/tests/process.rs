use barzel::process::{MockProcessRunner, ProcessOutput, SubprocessRunner};

#[test]
fn mock_passing_is_available() {
    let mut mock = MockProcessRunner::passing("");
    assert!(mock.is_available("any", &vec![]));
}

#[test]
fn mock_unavailable_is_not_available() {
    let mut mock = MockProcessRunner::unavailable();
    assert!(!mock.is_available("any", &vec![]));
}

#[test]
fn process_output_combined_joins_stdout_and_stderr() {
    let out = ProcessOutput { success: true, stdout: "hello".into(), stderr: "world".into() };
    assert!(out.combined().contains("hello"));
    assert!(out.combined().contains("world"));
}

#[test]
fn mocks_answer_alike_every_time() {
    let mut mock = MockProcessRunner::failing("out");
    for _ in 0..2 {
        let out = mock.run("x", &vec![], ".").unwrap();
        assert!(!out.success);
        assert_eq!(out.stdout, "out");
        assert!(mock.run_timed("x", &vec![], ".", 5).is_ok());
    }
}
