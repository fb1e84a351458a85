//! The commands of a test microkernel.
//!
//! A command is handled step by step, since it holds only where its texts are: the texts are read
//! from guest memory in between.

use crate::text::{
    decimal_digits, digits_value, lemma_decimal_reads_back, push_decimal, string_from_utf8,
    string_push,
};
use vstd::prelude::*;
use vstd::string::*;
use vstd::utf8::{
    decode_utf8, decode_utf8_encode_utf8, encode_utf8, encode_utf8_decode_utf8,
    encode_utf8_valid_utf8, valid_utf8,
};

verus! {

/// A text in guest memory.
#[derive(Clone, Copy, Debug, PartialEq, Eq, Structural)]
pub struct StrDescriptor {
    /// Its address.
    pub gpa: u64,
    /// Its length in bytes.
    pub len: u64,
}

/// A command.
#[derive(Clone, Copy, Debug, PartialEq, Eq, Structural)]
pub enum Command {
    /// Logs a message.
    Log(StrDescriptor),
    /// Ends the test, because the microkernel has panicked.
    Panic { message: StrDescriptor, filename: StrDescriptor, line: u64 },
    /// Ends the test.
    Complete { success: bool },
}

/// What was found at the address of a command.
#[derive(Clone, Copy, Debug, PartialEq, Eq, Structural)]
pub enum CommandRead {
    /// The address cannot be read.
    Unreadable,
    /// The bytes are not a command.
    Bad,
    /// A command.
    Decoded(Command),
}

/// Why a command is not handled.
#[derive(Clone, Copy, Debug, PartialEq, Eq, Structural)]
pub enum CommandError {
    /// The address of the command cannot be read.
    ReadCommand,
    /// The bytes are not a command.
    BadCommand,
    /// A text cannot be read.
    ReadString,
    /// A text is not UTF-8.
    StringEncoding,
}

impl CommandError {
    /// The error as a text.
    pub open spec fn text(self) -> Seq<char> {
        match self {
            CommandError::ReadCommand => "failed to read command"@,
            CommandError::BadCommand => "bad command"@,
            CommandError::ReadString => "failed to read string"@,
            CommandError::StringEncoding => "string not utf-8"@,
        }
    }

    /// Returns the error as a text.
    pub fn message(self) -> (s: &'static str)
        ensures
            s@ == self.text(),
    {
        match self {
            CommandError::ReadCommand => "failed to read command",
            CommandError::BadCommand => "bad command",
            CommandError::ReadString => "failed to read string",
            CommandError::StringEncoding => "string not utf-8",
        }
    }
}

/// What a text is read for.
#[derive(Debug)]
pub enum Pending {
    /// The message to log.
    LogMessage,
    /// The message of a panic, whose place is not known yet.
    PanicMessage { filename: StrDescriptor, line: u64 },
    /// The file of a panic.
    PanicFile { message: String, line: u64 },
}

/// What a text is read for.
pub ghost enum PendingView {
    LogMessage,
    PanicMessage { filename: StrDescriptor, line: u64 },
    PanicFile { message: Seq<char>, line: u64 },
}

impl View for Pending {
    type V = PendingView;

    open spec fn view(&self) -> PendingView {
        match self {
            Pending::LogMessage => PendingView::LogMessage,
            Pending::PanicMessage { filename, line } => PendingView::PanicMessage {
                filename: *filename,
                line: *line,
            },
            Pending::PanicFile { message, line } => PendingView::PanicFile {
                message: message@,
                line: *line,
            },
        }
    }
}

/// The next step of a command.
#[derive(Debug)]
pub enum CommandStep {
    /// A text is read.
    Read(StrDescriptor, Pending),
    /// A message is logged.
    Log(String),
    /// A panic is logged, and the test has failed.
    Panic { message: String, location: Option<String> },
    /// The test is complete.
    Complete { success: bool },
    /// The command is not handled.
    Fail(CommandError),
}

/// The next step of a command.
pub ghost enum CommandStepView {
    Read(StrDescriptor, PendingView),
    Log(Seq<char>),
    Panic { message: Seq<char>, location: Option<Seq<char>> },
    Complete { success: bool },
    Fail(CommandError),
}

impl View for CommandStep {
    type V = CommandStepView;

    open spec fn view(&self) -> CommandStepView {
        match self {
            CommandStep::Read(s, pending) => CommandStepView::Read(*s, pending@),
            CommandStep::Log(message) => CommandStepView::Log(message@),
            CommandStep::Panic { message, location } => CommandStepView::Panic {
                message: message@,
                location: match location {
                    Some(l) => Some(l@),
                    None => None,
                },
            },
            CommandStep::Complete { success } => CommandStepView::Complete { success: *success },
            CommandStep::Fail(e) => CommandStepView::Fail(*e),
        }
    }
}

/// The text that bytes of guest memory hold; there are no bytes where memory cannot be read.
pub open spec fn guest_text(bytes: Option<Seq<u8>>) -> Result<Seq<char>, CommandError> {
    match bytes {
        None => Err(CommandError::ReadString),
        Some(b) => if valid_utf8(b) {
            Ok(decode_utf8(b))
        } else {
            Err(CommandError::StringEncoding)
        },
    }
}

/// Bytes of guest memory as a value.
pub open spec fn bytes_view(bytes: Option<Vec<u8>>) -> Option<Seq<u8>> {
    match bytes {
        None => None,
        Some(b) => Some(b@),
    }
}

/// Turns bytes of guest memory into a text.
pub fn read_str(bytes: Option<Vec<u8>>) -> (r: Result<String, CommandError>)
    ensures
        match r {
            Ok(s) => guest_text(bytes_view(bytes)) == Ok::<Seq<char>, CommandError>(s@),
            Err(e) => guest_text(bytes_view(bytes)) == Err::<Seq<char>, CommandError>(e),
        },
{
    match bytes {
        None => Err(CommandError::ReadString),
        Some(b) => match string_from_utf8(b) {
            Some(s) => Ok(s),
            None => Err(CommandError::StringEncoding),
        },
    }
}

/// The first step of a command.
pub open spec fn first_step(read: CommandRead) -> CommandStepView {
    match read {
        CommandRead::Unreadable => CommandStepView::Fail(CommandError::ReadCommand),
        CommandRead::Bad => CommandStepView::Fail(CommandError::BadCommand),
        CommandRead::Decoded(Command::Log(s)) => CommandStepView::Read(s, PendingView::LogMessage),
        CommandRead::Decoded(
            Command::Panic { message, filename, line },
        ) => CommandStepView::Read(message, PendingView::PanicMessage { filename, line }),
        CommandRead::Decoded(Command::Complete { success }) => CommandStepView::Complete {
            success,
        },
    }
}

/// The place of a panic.
pub open spec fn location(file: Seq<char>, line: u64) -> Seq<char> {
    file.push(':') + decimal_digits(line as nat)
}

/// The step after a text has been read.
pub open spec fn next_step(pending: PendingView, bytes: Option<Seq<u8>>) -> CommandStepView {
    match guest_text(bytes) {
        Err(e) => CommandStepView::Fail(e),
        Ok(text) => match pending {
            PendingView::LogMessage => CommandStepView::Log(text),
            PendingView::PanicMessage { filename, line } => if filename.len > 0 {
                CommandStepView::Read(filename, PendingView::PanicFile { message: text, line })
            } else {
                CommandStepView::Panic { message: text, location: None }
            },
            PendingView::PanicFile { message, line } => CommandStepView::Panic {
                message,
                location: Some(location(text, line)),
            },
        },
    }
}

/// Starts to handle a command.
pub fn handle_command(read: CommandRead) -> (step: CommandStep)
    ensures
        step@ == first_step(read),
{
    match read {
        CommandRead::Unreadable => CommandStep::Fail(CommandError::ReadCommand),
        CommandRead::Bad => CommandStep::Fail(CommandError::BadCommand),
        CommandRead::Decoded(Command::Log(s)) => CommandStep::Read(s, Pending::LogMessage),
        CommandRead::Decoded(Command::Panic { message, filename, line }) => {
            CommandStep::Read(message, Pending::PanicMessage { filename, line })
        },
        CommandRead::Decoded(Command::Complete { success }) => CommandStep::Complete { success },
    }
}

/// Goes on with a command once a text has been read, or could not be read.
pub fn continue_command(pending: Pending, bytes: Option<Vec<u8>>) -> (step: CommandStep)
    ensures
        step@ == next_step(pending@, bytes_view(bytes)),
{
    let text = match read_str(bytes) {
        Ok(text) => text,
        Err(e) => {
            return CommandStep::Fail(e);
        },
    };
    match pending {
        Pending::LogMessage => CommandStep::Log(text),
        Pending::PanicMessage { filename, line } => {
            if filename.len > 0 {
                CommandStep::Read(filename, Pending::PanicFile { message: text, line })
            } else {
                CommandStep::Panic { message: text, location: None }
            }
        },
        Pending::PanicFile { message, line } => {
            let mut place = text;
            string_push(&mut place, ':');
            push_decimal(&mut place, line);
            CommandStep::Panic { message, location: Some(place) }
        },
    }
}

impl CommandStep {
    /// Returns whether the test is over with this step, and if so, how it went.
    pub fn completion(&self) -> (r: Option<bool>)
        ensures
            r == completed(self@),
    {
        match self {
            CommandStep::Panic { .. } => Some(false),
            CommandStep::Complete { success } => Some(*success),
            _ => None,
        }
    }
}

/// How the test went, if it is over with a step.
pub open spec fn completed(step: CommandStepView) -> Option<bool> {
    match step {
        CommandStepView::Panic { .. } => Some(false),
        CommandStepView::Complete { success } => Some(success),
        _ => None,
    }
}

/// What becomes of a command that is handled against some guest memory.
pub open spec fn outcome(
    read: CommandRead,
    memory: spec_fn(StrDescriptor) -> Option<Seq<u8>>,
) -> CommandStepView {
    match read {
        CommandRead::Unreadable => CommandStepView::Fail(CommandError::ReadCommand),
        CommandRead::Bad => CommandStepView::Fail(CommandError::BadCommand),
        CommandRead::Decoded(Command::Log(s)) => match guest_text(memory(s)) {
            Err(e) => CommandStepView::Fail(e),
            Ok(text) => CommandStepView::Log(text),
        },
        CommandRead::Decoded(Command::Panic { message, filename, line }) => match (
            guest_text(memory(message)),
            guest_text(memory(filename)),
        ) {
            (Err(e), _) => CommandStepView::Fail(e),
            (Ok(text), file) => if filename.len == 0 {
                CommandStepView::Panic { message: text, location: None }
            } else {
                match file {
                    Err(e) => CommandStepView::Fail(e),
                    Ok(name) => CommandStepView::Panic {
                        message: text,
                        location: Some(location(name, line)),
                    },
                }
            },
        },
        CommandRead::Decoded(Command::Complete { success }) => CommandStepView::Complete {
            success,
        },
    }
}

/// A step and those that follow it, at most `n`, with texts read from some guest memory.
pub open spec fn followed(
    step: CommandStepView,
    memory: spec_fn(StrDescriptor) -> Option<Seq<u8>>,
    n: nat,
) -> CommandStepView
    decreases n,
{
    match step {
        CommandStepView::Read(s, pending) => if n == 0 {
            step
        } else {
            followed(next_step(pending, memory(s)), memory, (n - 1) as nat)
        },
        _ => step,
    }
}

/// The steps of a command come to its outcome after at most two texts.
pub proof fn lemma_steps_reach_the_outcome(
    read: CommandRead,
    memory: spec_fn(StrDescriptor) -> Option<Seq<u8>>,
)
    ensures
        followed(first_step(read), memory, 2) == outcome(read, memory),
        !(outcome(read, memory) is Read),
{
    reveal_with_fuel(followed, 3);
}

/// A test is over exactly with a command that says so, or with a panic whose texts can be read; and
/// it is passed only by a command that says so.
pub proof fn lemma_only_commands_complete(
    read: CommandRead,
    memory: spec_fn(StrDescriptor) -> Option<Seq<u8>>,
)
    ensures
        completed(outcome(read, memory)) == Some(true) <==> read == CommandRead::Decoded(
            Command::Complete { success: true },
        ),
        completed(outcome(read, memory)) is Some ==> (read matches CommandRead::Decoded(c) && !(
        c is Log)),
        outcome(read, memory) is Fail ==> completed(outcome(read, memory)) is None,
{
}

/// Every text can be read from the bytes of its UTF-8, and bytes are read as a text exactly if they
/// are the UTF-8 of it; memory that cannot be read holds none.
pub proof fn lemma_text_is_read_as_it_was_written(text: Seq<char>, bytes: Seq<u8>)
    ensures
        guest_text(Some(encode_utf8(text))) == Ok::<Seq<char>, CommandError>(text),
        match guest_text(Some(bytes)) {
            Ok(t) => encode_utf8(t) == bytes,
            Err(e) => e == CommandError::StringEncoding && !valid_utf8(bytes),
        },
        guest_text(None) == Err::<Seq<char>, CommandError>(CommandError::ReadString),
{
    encode_utf8_valid_utf8(text);
    encode_utf8_decode_utf8(text);
    if valid_utf8(bytes) {
        decode_utf8_encode_utf8(bytes);
    }
}

/// A message that the guest has in its memory is logged as it is there.
pub proof fn lemma_message_is_logged(
    s: StrDescriptor,
    text: Seq<char>,
    memory: spec_fn(StrDescriptor) -> Option<Seq<u8>>,
)
    requires
        memory(s) == Some(encode_utf8(text)),
    ensures
        outcome(CommandRead::Decoded(Command::Log(s)), memory) == CommandStepView::Log(text),
{
    lemma_text_is_read_as_it_was_written(text, encode_utf8(text));
}

/// A panic that the guest has in its memory is reported with its message as it is there, and with
/// its place, where it names a file: the file as it is there, a colon, and the number of the line.
pub proof fn lemma_panic_is_reported(
    message: StrDescriptor,
    filename: StrDescriptor,
    line: u64,
    text: Seq<char>,
    file: Seq<char>,
    memory: spec_fn(StrDescriptor) -> Option<Seq<u8>>,
)
    requires
        memory(message) == Some(encode_utf8(text)),
        filename.len > 0 ==> memory(filename) == Some(encode_utf8(file)),
    ensures
        ({
            let step = outcome(
                CommandRead::Decoded(Command::Panic { message, filename, line }),
                memory,
            );
            &&& step matches CommandStepView::Panic { message: said, location: place }
            &&& said == text
            &&& filename.len == 0 ==> place is None
            &&& filename.len > 0 ==> {
                &&& place matches Some(at)
                &&& at.take(file.len() as int) == file
                &&& at.len() > file.len() + 1
                &&& at[file.len() as int] == ':'
                &&& digits_value(at.skip(file.len() as int + 1), 10) == line
            }
        }),
{
    lemma_text_is_read_as_it_was_written(text, encode_utf8(text));
    lemma_text_is_read_as_it_was_written(file, encode_utf8(file));
    lemma_decimal_reads_back(line as nat);
    let at = location(file, line);
    assert(at.take(file.len() as int) =~= file);
    assert(at.skip(file.len() as int + 1) =~= decimal_digits(line as nat));
}

/// A command whose text cannot be read, or that is none, is refused for that reason, and the first
/// text that cannot be read decides: the message of a panic before its file.
pub proof fn lemma_unreadable_commands_are_refused(
    s: StrDescriptor,
    filename: StrDescriptor,
    line: u64,
    memory: spec_fn(StrDescriptor) -> Option<Seq<u8>>,
)
    ensures
        outcome(CommandRead::Unreadable, memory) == CommandStepView::Fail(
            CommandError::ReadCommand,
        ),
        outcome(CommandRead::Bad, memory) == CommandStepView::Fail(CommandError::BadCommand),
        memory(s) is None ==> {
            &&& outcome(CommandRead::Decoded(Command::Log(s)), memory) == CommandStepView::Fail(
                CommandError::ReadString,
            )
            &&& outcome(
                CommandRead::Decoded(Command::Panic { message: s, filename, line }),
                memory,
            ) == CommandStepView::Fail(CommandError::ReadString)
        },
        (memory(s) matches Some(b) && !valid_utf8(b)) ==> {
            &&& outcome(CommandRead::Decoded(Command::Log(s)), memory) == CommandStepView::Fail(
                CommandError::StringEncoding,
            )
            &&& outcome(
                CommandRead::Decoded(Command::Panic { message: s, filename, line }),
                memory,
            ) == CommandStepView::Fail(CommandError::StringEncoding)
        },
        (memory(s) matches Some(b) && valid_utf8(b)) && filename.len > 0 && memory(filename) is None
            ==> outcome(
            CommandRead::Decoded(Command::Panic { message: s, filename, line }),
            memory,
        ) == CommandStepView::Fail(CommandError::ReadString),
{
}

/// A test is over with a panic, which fails it, and with its completion, which says how it went;
/// with nothing else.
pub proof fn lemma_step_ends_the_test(step: CommandStepView)
    ensures
        step is Panic ==> completed(step) == Some(false),
        step matches CommandStepView::Complete { success } ==> completed(step) == Some(success),
        completed(step) is Some ==> step is Panic || step is Complete,
{
}

/// The completion of a test is passed on as the guest says it, whatever is in its memory.
pub proof fn lemma_completion_is_passed_on(
    success: bool,
    memory: spec_fn(StrDescriptor) -> Option<Seq<u8>>,
)
    ensures
        outcome(CommandRead::Decoded(Command::Complete { success }), memory)
            == (CommandStepView::Complete { success }),
{
}

} // verus!
