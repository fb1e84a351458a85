use tmk_vmm::command::{
    continue_command, handle_command, read_str, Command, CommandError, CommandRead, CommandStep,
    StrDescriptor,
};

fn memory(s: StrDescriptor) -> Option<Vec<u8>> {
    let text: &[u8] = match s.gpa {
        1 => b"hello",
        2 => b"boot.rs",
        3 => b"\xff\xfe",
        _ => return None,
    };
    Some(text[..s.len as usize].to_vec())
}

fn handled(read: CommandRead) -> CommandStep {
    let mut step = handle_command(read);
    let mut reads = 0;
    while let CommandStep::Read(s, pending) = step {
        step = continue_command(pending, memory(s));
        reads += 1;
    }
    assert!(reads <= 2);
    step
}

fn at(gpa: u64, len: u64) -> StrDescriptor {
    StrDescriptor { gpa, len }
}

#[test]
fn a_message_is_logged() {
    let step = handled(CommandRead::Decoded(Command::Log(at(1, 5))));
    assert_eq!(step.completion(), None);
    assert!(matches!(step, CommandStep::Log(m) if m == "hello"));
}

#[test]
fn a_panic_fails_the_test() {
    let command = Command::Panic { message: at(1, 4), filename: at(2, 7), line: 107 };
    let step = handled(CommandRead::Decoded(command));
    assert_eq!(step.completion(), Some(false));
    let CommandStep::Panic { message, location } = step else {
        panic!("a panic");
    };
    assert_eq!(message, "hell");
    assert_eq!(location.as_deref(), Some("boot.rs:107"));
}

#[test]
fn a_panic_may_have_no_place() {
    let command = Command::Panic { message: at(1, 5), filename: at(9, 0), line: 1 };
    let step = handled(CommandRead::Decoded(command));
    assert!(matches!(step, CommandStep::Panic { location: None, .. }));
}

#[test]
fn the_message_of_a_panic_is_read_first() {
    let command = Command::Panic { message: at(3, 2), filename: at(9, 1), line: 1 };
    let step = handled(CommandRead::Decoded(command));
    assert!(matches!(step, CommandStep::Fail(CommandError::StringEncoding)));
    let command = Command::Panic { message: at(1, 2), filename: at(9, 1), line: 1 };
    let step = handled(CommandRead::Decoded(command));
    assert_eq!(step.completion(), None);
    assert!(matches!(step, CommandStep::Fail(CommandError::ReadString)));
}

#[test]
fn completion_is_passed_on() {
    for success in [true, false] {
        let step = handled(CommandRead::Decoded(Command::Complete { success }));
        assert_eq!(step.completion(), Some(success));
    }
}

#[test]
fn bad_commands_are_refused() {
    assert!(matches!(
        handled(CommandRead::Unreadable),
        CommandStep::Fail(CommandError::ReadCommand)
    ));
    assert!(matches!(handled(CommandRead::Bad), CommandStep::Fail(CommandError::BadCommand)));
}

#[test]
fn texts_are_utf8() {
    assert_eq!(read_str(Some("h\u{e9}\u{1f600}".into())).unwrap(), "h\u{e9}\u{1f600}");
    assert_eq!(read_str(Some(vec![])).unwrap(), "");
    assert_eq!(read_str(Some(vec![0xe9])), Err(CommandError::StringEncoding));
    assert_eq!(read_str(None), Err(CommandError::ReadString));
}

#[test]
fn command_errors_have_messages() {
    assert_eq!(CommandError::ReadCommand.message(), "failed to read command");
    assert_eq!(CommandError::BadCommand.message(), "bad command");
    assert_eq!(CommandError::ReadString.message(), "failed to read string");
    assert_eq!(CommandError::StringEncoding.message(), "string not utf-8");
}
