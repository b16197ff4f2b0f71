use hat::command::{
    not_started, watch, ChildState, ChildStep, OutputBuffer, EXEC_TIMEOUT, MAX_EXEC_OUTPUT,
};

#[test]
fn output_is_kept() {
    let mut buffer = OutputBuffer::new();
    assert!(buffer.absorb(b"one"));
    assert!(buffer.absorb(b"two"));
    assert!(!buffer.absorb(b""));
    assert_eq!(buffer.finish(), (b"onetwo".to_vec(), false));
}

#[test]
fn output_up_to_the_limit_is_whole() {
    let mut buffer = OutputBuffer::new();
    buffer.absorb(&vec![7; MAX_EXEC_OUTPUT]);
    buffer.absorb(b"");
    let (bytes, truncated) = buffer.finish();
    assert_eq!(bytes.len(), 256 * 1024);
    assert!(!truncated);
}

#[test]
fn output_is_cut_at_the_limit() {
    let mut buffer = OutputBuffer::new();
    buffer.absorb(&vec![1; MAX_EXEC_OUTPUT - 1]);
    assert!(buffer.absorb(&[2, 3]));
    assert!(buffer.absorb(&[4]));
    let (bytes, truncated) = buffer.finish();
    assert_eq!(bytes.len(), MAX_EXEC_OUTPUT);
    assert_eq!(bytes.last(), Some(&2));
    assert!(truncated);
}

#[test]
fn command_is_waited_for() {
    assert_eq!(watch(ChildState::Running, 0), ChildStep::Wait);
    assert_eq!(watch(ChildState::Running, EXEC_TIMEOUT), ChildStep::Wait);
    assert_eq!(watch(ChildState::Running, EXEC_TIMEOUT + 1), ChildStep::Kill(124));
    assert_eq!(watch(ChildState::Ended(Some(3)), EXEC_TIMEOUT + 1), ChildStep::Finish(3));
    assert_eq!(watch(ChildState::Ended(None), 0), ChildStep::Finish(-1));
    assert_eq!(watch(ChildState::Lost, 0), ChildStep::Finish(-1));
    assert_eq!(EXEC_TIMEOUT, 10_000_000_000);
}

#[test]
fn command_that_does_not_start_is_reported() {
    assert_eq!(not_started("no such file"), (-1, b"no such file".to_vec(), false));
}
