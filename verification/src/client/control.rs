//! Commands to a controlled terminal session.

use crate::base64_codec;
use crate::client::protocol::{
    AttachScrollDirection, AttachScrollSource, ClientMessage, MessageView, ScrollSourceView,
};
use crate::text;
use crate::text::push_text;
use vstd::prelude::*;
use vstd::string::*;

verus! {

#[derive(Debug, Clone, Copy, PartialEq, Eq, Structural)]
pub enum TerminalControlScrollDirection {
    Up,
    Down,
}

#[derive(Debug, Clone, Copy, PartialEq, Eq, Structural)]
pub enum TerminalControlScrollSource {
    Wheel,
    PageKey,
}

/// A command to a terminal session.
#[derive(Debug)]
pub enum TerminalControlCommand {
    /// Bytes to type, given as text or in base64.
    Input { text: Option<String>, bytes: Option<String> },
    Resize { cols: u16, rows: u16, cell_width_px: u32, cell_height_px: u32 },
    Scroll {
        direction: TerminalControlScrollDirection,
        lines: u16,
        source: TerminalControlScrollSource,
        column: Option<u16>,
        row: Option<u16>,
        modifiers: u8,
    },
    Release,
}

pub open spec fn scroll_direction(direction: TerminalControlScrollDirection) ->
    AttachScrollDirection {
    match direction {
        TerminalControlScrollDirection::Up => AttachScrollDirection::Up,
        TerminalControlScrollDirection::Down => AttachScrollDirection::Down,
    }
}

/// The bytes that a page key types.
pub open spec fn page_key_bytes(direction: TerminalControlScrollDirection) -> Seq<u8> {
    match direction {
        TerminalControlScrollDirection::Up => text::utf8("\x1b[5~"),
        TerminalControlScrollDirection::Down => text::utf8("\x1b[6~"),
    }
}

/// What becomes of a command, `decode` being what base64 text stands for: the message it sends,
/// or the words in which it is refused.
pub open spec fn control_outcome(
    command: TerminalControlCommand,
    decode: spec_fn(Seq<char>) -> Result<Seq<u8>, Seq<char>>,
) -> Result<MessageView, Seq<char>> {
    match command {
        TerminalControlCommand::Input { text, bytes } => match (text, bytes) {
            (Some(_), Some(_)) => Err("terminal.input accepts text or bytes, not both"@),
            (Some(text), None) => Ok(
                MessageView::Input { data: vstd::utf8::encode_utf8(text@) },
            ),
            (None, Some(bytes)) => match decode(bytes@) {
                Ok(data) => Ok(MessageView::Input { data }),
                Err(error) => Err("invalid terminal.input bytes: "@ + error),
            },
            (None, None) => Ok(MessageView::Input { data: Seq::empty() }),
        },
        TerminalControlCommand::Resize { cols, rows, cell_width_px, cell_height_px } => if cols
            == 0 || rows == 0 {
            Err("terminal.resize cols and rows must be greater than 0"@)
        } else {
            Ok(MessageView::Resize { cols, rows, cell_width_px, cell_height_px })
        },
        TerminalControlCommand::Scroll { direction, lines, source, column, row, modifiers } => {
            if lines == 0 {
                Err("terminal.scroll lines must be greater than 0"@)
            } else {
                Ok(
                    MessageView::AttachScroll {
                        source: match source {
                            TerminalControlScrollSource::Wheel => ScrollSourceView::Wheel,
                            TerminalControlScrollSource::PageKey => ScrollSourceView::PageKey {
                                input: page_key_bytes(direction),
                            },
                        },
                        direction: scroll_direction(direction),
                        lines,
                        column,
                        row,
                        modifiers,
                    },
                )
            }
        },
        TerminalControlCommand::Release => Ok(MessageView::Detach),
    }
}

/// What base64 text stands for.
pub open spec fn base64_decoding() -> spec_fn(Seq<char>) -> Result<Seq<u8>, Seq<char>> {
    |t: Seq<char>| base64_codec::decoded(t)
}

/// The outcome of a message and of a refusal, by what they say.
pub open spec fn outcome_view(outcome: Result<ClientMessage, String>) -> Result<
    MessageView,
    Seq<char>,
> {
    match outcome {
        Ok(message) => Ok(message@),
        Err(error) => Err(error@),
    }
}

/// The message for bytes in base64, `decoded` being what they were decoded to.
pub fn input_from_decoded(decoded: Result<Vec<u8>, String>) -> (outcome: Result<
    ClientMessage,
    String,
>)
    ensures
        match decoded {
            Ok(data) => outcome_view(outcome) == Ok::<MessageView, Seq<char>>(
                MessageView::Input { data: data@ },
            ),
            Err(error) => outcome_view(outcome) == Err::<MessageView, Seq<char>>(
                "invalid terminal.input bytes: "@ + error@,
            ),
        },
{
    match decoded {
        Ok(data) => Ok(ClientMessage::Input { data }),
        Err(error) => {
            let mut message = "invalid terminal.input bytes: ".to_owned();
            message.append(error.as_str());
            Err(message)
        },
    }
}

/// The message that a command sends, or why it is refused.
pub fn terminal_control_message(command: TerminalControlCommand) -> (outcome: Result<
    ClientMessage,
    String,
>)
    ensures
        outcome_view(outcome) == control_outcome(command, base64_decoding()),
{
    match command {
        TerminalControlCommand::Input { text, bytes } => match (text, bytes) {
            (Some(_), Some(_)) => Err("terminal.input accepts text or bytes, not both".to_owned()),
            (Some(text), None) => {
                let mut data: Vec<u8> = Vec::new();
                push_text(&mut data, text.as_str());
                assert(data@ =~= vstd::utf8::encode_utf8(text@));
                Ok(ClientMessage::Input { data })
            },
            (None, Some(bytes)) => input_from_decoded(base64_codec::decode(bytes.as_str())),
            (None, None) => Ok(ClientMessage::Input { data: Vec::new() }),
        },
        TerminalControlCommand::Resize { cols, rows, cell_width_px, cell_height_px } => {
            if cols == 0 || rows == 0 {
                return Err("terminal.resize cols and rows must be greater than 0".to_owned());
            }
            Ok(ClientMessage::Resize { cols, rows, cell_width_px, cell_height_px })
        },
        TerminalControlCommand::Scroll { direction, lines, source, column, row, modifiers } => {
            if lines == 0 {
                return Err("terminal.scroll lines must be greater than 0".to_owned());
            }
            let source = match source {
                TerminalControlScrollSource::Wheel => AttachScrollSource::Wheel,
                TerminalControlScrollSource::PageKey => {
                    let mut input: Vec<u8> = Vec::new();
                    match direction {
                        TerminalControlScrollDirection::Up => push_text(&mut input, "\x1b[5~"),
                        TerminalControlScrollDirection::Down => push_text(&mut input, "\x1b[6~"),
                    }
                    assert(input@ =~= page_key_bytes(direction));
                    AttachScrollSource::PageKey { input }
                },
            };
            let direction = match direction {
                TerminalControlScrollDirection::Up => AttachScrollDirection::Up,
                TerminalControlScrollDirection::Down => AttachScrollDirection::Down,
            };
            Ok(ClientMessage::AttachScroll { source, direction, lines, column, row, modifiers })
        },
        TerminalControlCommand::Release => Ok(ClientMessage::Detach),
    }
}

/// What to do with a line of control input: skip a blank one, send a message and go on, send the
/// release and stop, or complain and go on.
#[derive(Debug)]
pub enum ControlStep {
    Send(ClientMessage),
    SendAndStop(ClientMessage),
    Complain(String),
}

/// Whether a line of control input says nothing.
pub fn control_line_is_blank(line: &str) -> (blank: bool)
    ensures
        blank == (text::trimmed(line@).len() == 0),
{
    let chars = text::chars_of(line);
    text::trim(chars.as_slice()).len() == 0
}

/// What follows from the outcome of a command.
pub fn control_step(outcome: Result<ClientMessage, String>) -> (step: ControlStep)
    ensures
        match outcome {
            Ok(message) => if message is Detach {
                step == ControlStep::SendAndStop(message)
            } else {
                step == ControlStep::Send(message)
            },
            Err(error) => step == ControlStep::Complain(error),
        },
{
    match outcome {
        Ok(ClientMessage::Detach) => ControlStep::SendAndStop(ClientMessage::Detach),
        Ok(message) => ControlStep::Send(message),
        Err(error) => ControlStep::Complain(error),
    }
}

/// The bytes of a frame as a session's output line carries them.
pub fn session_frame_payload(bytes: &[u8]) -> (payload: String)
    requires
        bytes@.len() <= usize::MAX / 8,
    ensures
        payload@ == base64_codec::encoded(bytes@),
        base64_codec::decoded(payload@) is Ok && base64_codec::decoded(payload@)->Ok_0 == bytes@,
{
    base64_codec::encode(bytes)
}

/// What a clipboard payload from the server holds; nothing where it is no base64.
pub fn decode_clipboard_payload(data: &str) -> (bytes: Option<Vec<u8>>)
    ensures
        match bytes {
            Some(bytes) => base64_codec::decoded(data@) is Ok && base64_codec::decoded(
                data@,
            )->Ok_0 == bytes@,
            None => base64_codec::decoded(data@) is Err,
        },
{
    match base64_codec::decode(data) {
        Ok(bytes) => Some(bytes),
        Err(_) => None,
    }
}

/// Bytes that a session puts out are typed again unchanged when they are sent back as input.
pub proof fn law_session_bytes_come_back(payload: String, bytes: Seq<u8>)
    requires
        base64_codec::decoded(payload@) is Ok,
        base64_codec::decoded(payload@)->Ok_0 == bytes,
    ensures
        control_outcome(
            TerminalControlCommand::Input { text: None, bytes: Some(payload) },
            base64_decoding(),
        ) == Ok::<MessageView, Seq<char>>(MessageView::Input { data: bytes }),
{
}

/// A scroll command scrolls the way that it says, by the lines and at the place that it says; asked
/// for with a page key, it types the key of that way. Without lines there is nothing to scroll.
pub proof fn law_scroll_commands_go_their_way(
    direction: TerminalControlScrollDirection,
    lines: u16,
    source: TerminalControlScrollSource,
    column: Option<u16>,
    row: Option<u16>,
    modifiers: u8,
    decode: spec_fn(Seq<char>) -> Result<Seq<u8>, Seq<char>>,
)
    ensures
        ({
            let outcome = control_outcome(
                TerminalControlCommand::Scroll { direction, lines, source, column, row, modifiers },
                decode,
            );
            &&& outcome is Err <==> lines == 0
            &&& lines > 0 ==> {
                let message = outcome->Ok_0;
                &&& message is AttachScroll
                &&& message->AttachScroll_direction is Up <==> direction is Up
                &&& message->AttachScroll_direction is Down <==> direction is Down
                &&& message->AttachScroll_lines == lines
                &&& message->AttachScroll_column == column
                &&& message->AttachScroll_row == row
                &&& message->AttachScroll_modifiers == modifiers
                &&& message->AttachScroll_source is Wheel <==> source is Wheel
                &&& source is PageKey && direction is Up ==> message->AttachScroll_source
                    == (ScrollSourceView::PageKey { input: seq![27u8, 91u8, 53u8, 126u8] })
                &&& source is PageKey && direction is Down ==> message->AttachScroll_source
                    == (ScrollSourceView::PageKey { input: seq![27u8, 91u8, 54u8, 126u8] })
            }
        }),
{
    reveal_strlit("\x1b[5~");
    reveal_strlit("\x1b[6~");
    vstd::utf8::is_ascii_chars_encode_utf8("\x1b[5~"@);
    vstd::utf8::is_ascii_chars_encode_utf8("\x1b[6~"@);
    assert(text::utf8("\x1b[5~") =~= seq![27u8, 91u8, 53u8, 126u8]);
    assert(text::utf8("\x1b[6~") =~= seq![27u8, 91u8, 54u8, 126u8]);
}

/// Input is typed as it is given, as text or as what its base64 stands for, but not both; a new
/// size is told as it is given, unless it has no cells; and a release detaches.
pub proof fn law_other_commands_do_as_they_say(
    text: Option<String>,
    bytes: Option<String>,
    cols: u16,
    rows: u16,
    cell_width_px: u32,
    cell_height_px: u32,
    decode: spec_fn(Seq<char>) -> Result<Seq<u8>, Seq<char>>,
)
    ensures
        ({
            let typed = control_outcome(TerminalControlCommand::Input { text, bytes }, decode);
            &&& typed is Err <==> bytes is Some && (text is Some || decode(bytes->0@) is Err)
            &&& typed is Ok ==> typed->Ok_0 is Input
            &&& typed is Ok && text is Some ==> typed->Ok_0->Input_data
                == vstd::utf8::encode_utf8(text->0@)
            &&& typed is Ok && bytes is Some ==> decode(bytes->0@) == Ok::<Seq<u8>, Seq<char>>(
                typed->Ok_0->Input_data,
            )
            &&& text is None && bytes is None ==> typed->Ok_0->Input_data.len() == 0
        }),
        ({
            let resized = control_outcome(
                TerminalControlCommand::Resize { cols, rows, cell_width_px, cell_height_px },
                decode,
            );
            &&& resized is Err <==> cols == 0 || rows == 0
            &&& resized is Ok ==> resized->Ok_0 is Resize && resized->Ok_0->Resize_cols == cols
                && resized->Ok_0->Resize_rows == rows && resized->Ok_0->Resize_cell_width_px
                == cell_width_px && resized->Ok_0->Resize_cell_height_px == cell_height_px
        }),
        control_outcome(TerminalControlCommand::Release, decode) is Ok,
        control_outcome(TerminalControlCommand::Release, decode)->Ok_0 is Detach,
{
}

} // verus!
