use womir_analyze::host::{
    fault_message, list_message, resolve, DataInput, HostFault, HostOp,
};

#[test]
fn read_u32_returns_the_word_at_the_index() {
    let mut input = DataInput::new(vec![10, 20, 30]);
    assert_eq!(input.try_call("env", "read_u32", &[1]), Ok(vec![20]));
    assert_eq!(input.call("env", "read_u32", &[1]), vec![20]);
    assert_eq!(input.call("env", "read_u32", &[0]), vec![10]);
    assert_eq!(input.call("env", "read_u32", &[2]), vec![30]);
    assert_eq!(input.try_call("env", "read_u32", &[1]), Ok(vec![20]));
}

#[test]
fn read_u32_past_the_end_is_a_fault() {
    let input = DataInput::new(vec![10, 20, 30]);
    assert_eq!(
        input.try_call("env", "read_u32", &[5]),
        Err(HostFault::OutOfBounds { index: 5, len: 3 })
    );
    assert_eq!(
        input.try_call("env", "read_u32", &[3]),
        Err(HostFault::OutOfBounds { index: 3, len: 3 })
    );
}

#[test]
fn read_u32_without_an_index_is_a_fault() {
    let input = DataInput::new(vec![10, 20, 30]);
    assert_eq!(input.try_call("env", "read_u32", &[]), Err(HostFault::MissingArgument));
}

#[test]
fn unknown_function_is_a_fault() {
    let input = DataInput::new(vec![10, 20, 30]);
    assert_eq!(input.try_call("env", "bogus", &[]), Err(HostFault::Unsupported));
    assert_eq!(input.try_call("other", "read_u32", &[1]), Err(HostFault::Unsupported));
    assert_eq!(input.try_call("", "", &[1]), Err(HostFault::Unsupported));
}

#[test]
fn abort_never_gives_a_result() {
    let input = DataInput::new(vec![10, 20, 30]);
    assert_eq!(input.try_call("env", "abort", &[42]), Err(HostFault::Aborted));
    assert_eq!(input.try_call("env", "abort", &[]), Err(HostFault::Aborted));
}

#[test]
fn names_resolve_to_their_operation() {
    assert_eq!(resolve("env", "read_u32"), HostOp::ReadU32);
    assert_eq!(resolve("env", "abort"), HostOp::Abort);
    assert_eq!(resolve("env", "read_u3"), HostOp::Unsupported);
    assert_eq!(resolve("env", "read_u322"), HostOp::Unsupported);
    assert_eq!(resolve("Env", "abort"), HostOp::Unsupported);
}

#[test]
fn faults_are_reported_with_names_and_arguments() {
    assert_eq!(
        fault_message(HostFault::Aborted, "env", "abort", &[42]),
        "Abort called with args: [42]"
    );
    assert_eq!(
        fault_message(HostFault::Unsupported, "env", "bogus", &[]),
        "External function not implemented: env.bogus with args: []"
    );
    assert_eq!(
        fault_message(HostFault::Unsupported, "m", "f", &[1, 20, 300]),
        "External function not implemented: m.f with args: [1, 20, 300]"
    );
    assert_eq!(
        fault_message(HostFault::OutOfBounds { index: 5, len: 3 }, "env", "read_u32", &[5]),
        "index out of bounds: the len is 3 but the index is 5"
    );
    assert_eq!(
        fault_message(HostFault::MissingArgument, "env", "read_u32", &[]),
        "index out of bounds: the len is 0 but the index is 0"
    );
}

#[test]
fn word_lists_are_bracketed() {
    assert_eq!(list_message(&[]), "[]");
    assert_eq!(list_message(&[0]), "[0]");
    assert_eq!(list_message(&[7, 4294967295]), "[7, 4294967295]");
}
