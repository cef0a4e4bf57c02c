//! The messages between client and server, as far as the client decides on them.

use crate::kitty_graphics::terminal::HostTerminalReport;
use vstd::prelude::*;

verus! {

/// How the server sends the screen.
#[derive(Debug, Clone, Copy, PartialEq, Eq, Structural)]
pub enum RenderEncoding {
    SemanticFrame,
    TerminalAnsi,
}

#[derive(Debug, Clone, Copy, PartialEq, Eq, Structural)]
pub enum AttachScrollDirection {
    Up,
    Down,
}

/// What asked for scrolling: the wheel, or a page key with the bytes that were typed.
#[derive(Debug, PartialEq, Eq)]
pub enum AttachScrollSource {
    Wheel,
    PageKey { input: Vec<u8> },
}

#[derive(Debug, Clone, Copy, PartialEq, Eq, Structural)]
pub enum ClientLaunchMode {
    App,
    TerminalAttach,
}

/// Whose key bindings are used.
#[derive(Debug, PartialEq, Eq)]
pub enum ClientKeybindings {
    Server,
    Local { keys_toml: String },
}

#[derive(Debug)]
pub enum ClientMessage {
    Hello {
        version: u32,
        cols: u16,
        rows: u16,
        cell_width_px: u32,
        cell_height_px: u32,
        requested_encoding: RenderEncoding,
        keybindings: ClientKeybindings,
        launch_mode: ClientLaunchMode,
        host_terminal: HostTerminalReport,
        wants_client_rasterized_cards: bool,
        wants_client_rasterized_signal_tray: bool,
        wants_client_rasterized_background_scene: bool,
    },
    Input { data: Vec<u8> },
    Resize { cols: u16, rows: u16, cell_width_px: u32, cell_height_px: u32 },
    AttachScroll {
        source: AttachScrollSource,
        direction: AttachScrollDirection,
        lines: u16,
        column: Option<u16>,
        row: Option<u16>,
        modifiers: u8,
    },
    ClipboardImage { extension: String, data: Vec<u8> },
    ClipboardText { request_id: u64, text: Option<String> },
    AttachTerminal { terminal_id: String, takeover: bool },
    ObserveTerminal { target: String },
    ControlTerminal { target: String, takeover: bool },
    Detach,
}

/// The bytes inside a scroll source.
pub ghost enum ScrollSourceView {
    Wheel,
    PageKey { input: Seq<u8> },
}

/// A message by what it says.
pub ghost enum MessageView {
    Hello {
        version: u32,
        cols: u16,
        rows: u16,
        cell_width_px: u32,
        cell_height_px: u32,
        requested_encoding: RenderEncoding,
        local_keys: Option<Seq<char>>,
        launch_mode: ClientLaunchMode,
        host_terminal: HostTerminalReport,
        wants_client_rasterized_cards: bool,
        wants_client_rasterized_signal_tray: bool,
        wants_client_rasterized_background_scene: bool,
    },
    Input { data: Seq<u8> },
    Resize { cols: u16, rows: u16, cell_width_px: u32, cell_height_px: u32 },
    AttachScroll {
        source: ScrollSourceView,
        direction: AttachScrollDirection,
        lines: u16,
        column: Option<u16>,
        row: Option<u16>,
        modifiers: u8,
    },
    ClipboardImage { extension: Seq<char>, data: Seq<u8> },
    ClipboardText { request_id: u64, text: Option<Seq<char>> },
    AttachTerminal { terminal_id: Seq<char>, takeover: bool },
    ObserveTerminal { target: Seq<char> },
    ControlTerminal { target: Seq<char>, takeover: bool },
    Detach,
}

/// The local key bindings, where they are used.
pub open spec fn local_keys(keybindings: ClientKeybindings) -> Option<Seq<char>> {
    match keybindings {
        ClientKeybindings::Server => None,
        ClientKeybindings::Local { keys_toml } => Some(keys_toml@),
    }
}

impl View for AttachScrollSource {
    type V = ScrollSourceView;

    open spec fn view(&self) -> ScrollSourceView {
        match self {
            AttachScrollSource::Wheel => ScrollSourceView::Wheel,
            AttachScrollSource::PageKey { input } => ScrollSourceView::PageKey { input: input@ },
        }
    }
}

impl View for ClientMessage {
    type V = MessageView;

    open spec fn view(&self) -> MessageView {
        match self {
            ClientMessage::Hello {
                version,
                cols,
                rows,
                cell_width_px,
                cell_height_px,
                requested_encoding,
                keybindings,
                launch_mode,
                host_terminal,
                wants_client_rasterized_cards,
                wants_client_rasterized_signal_tray,
                wants_client_rasterized_background_scene,
            } => MessageView::Hello {
                version: *version,
                cols: *cols,
                rows: *rows,
                cell_width_px: *cell_width_px,
                cell_height_px: *cell_height_px,
                requested_encoding: *requested_encoding,
                local_keys: local_keys(*keybindings),
                launch_mode: *launch_mode,
                host_terminal: *host_terminal,
                wants_client_rasterized_cards: *wants_client_rasterized_cards,
                wants_client_rasterized_signal_tray: *wants_client_rasterized_signal_tray,
                wants_client_rasterized_background_scene: *wants_client_rasterized_background_scene,
            },
            ClientMessage::Input { data } => MessageView::Input { data: data@ },
            ClientMessage::Resize { cols, rows, cell_width_px, cell_height_px } => {
                MessageView::Resize {
                    cols: *cols,
                    rows: *rows,
                    cell_width_px: *cell_width_px,
                    cell_height_px: *cell_height_px,
                }
            },
            ClientMessage::AttachScroll { source, direction, lines, column, row, modifiers } => {
                MessageView::AttachScroll {
                    source: source@,
                    direction: *direction,
                    lines: *lines,
                    column: *column,
                    row: *row,
                    modifiers: *modifiers,
                }
            },
            ClientMessage::ClipboardImage { extension, data } => MessageView::ClipboardImage {
                extension: extension@,
                data: data@,
            },
            ClientMessage::ClipboardText { request_id, text } => MessageView::ClipboardText {
                request_id: *request_id,
                text: crate::text::option_text(*text),
            },
            ClientMessage::AttachTerminal { terminal_id, takeover } => {
                MessageView::AttachTerminal { terminal_id: terminal_id@, takeover: *takeover }
            },
            ClientMessage::ObserveTerminal { target } => MessageView::ObserveTerminal {
                target: target@,
            },
            ClientMessage::ControlTerminal { target, takeover } => MessageView::ControlTerminal {
                target: target@,
                takeover: *takeover,
            },
            ClientMessage::Detach => MessageView::Detach,
        }
    }
}

/// A key as far as scrolling depends on it.
#[derive(Debug, Clone, Copy, PartialEq, Eq, Structural)]
pub enum KeyCode {
    PageUp,
    PageDown,
    Other,
}

#[derive(Debug, Clone, Copy, PartialEq, Eq, Structural)]
pub enum KeyEventKind {
    Press,
    Repeat,
    Release,
}

#[derive(Debug, Clone, Copy, PartialEq, Eq, Structural)]
pub enum MouseEventKind {
    ScrollUp,
    ScrollDown,
    Other,
}

#[allow(inconsistent_fields)]
/// One event of the terminal's input; modifiers are the bits of the keys held down.
#[derive(Debug, Clone, Copy, PartialEq, Eq, Structural)]
pub enum RawInputEvent {
    Key { code: KeyCode, modifiers: u8, kind: KeyEventKind },
    Mouse { kind: MouseEventKind, column: u16, row: u16, modifiers: u8 },
    HostCellSizeReport { width_px: u32, height_px: u32 },
    Other,
}

/// A message says what its fields hold: columns are columns and rows are rows, and bytes and texts
/// are the ones inside.
pub proof fn law_messages_say_what_they_hold(
    cols: u16,
    rows: u16,
    width: u32,
    height: u32,
    data: Vec<u8>,
    word: String,
    flag: bool,
    id: u64,
)
    ensures
        (ClientMessage::Resize { cols, rows, cell_width_px: width, cell_height_px: height })@ == (
        MessageView::Resize { cols, rows, cell_width_px: width, cell_height_px: height }),
        (ClientMessage::Input { data })@ == (MessageView::Input { data: data@ }),
        (ClientMessage::ClipboardImage { extension: word, data })@ == (
        MessageView::ClipboardImage { extension: word@, data: data@ }),
        (ClientMessage::ClipboardText { request_id: id, text: Some(word) })@ == (
        MessageView::ClipboardText { request_id: id, text: Some(word@) }),
        (ClientMessage::ClipboardText { request_id: id, text: None })@ == (
        MessageView::ClipboardText { request_id: id, text: None }),
        (ClientMessage::AttachTerminal { terminal_id: word, takeover: flag })@ == (
        MessageView::AttachTerminal { terminal_id: word@, takeover: flag }),
        (ClientMessage::ObserveTerminal { target: word })@ == (MessageView::ObserveTerminal {
            target: word@,
        }),
        (ClientMessage::ControlTerminal { target: word, takeover: flag })@ == (
        MessageView::ControlTerminal { target: word@, takeover: flag }),
        (ClientMessage::Detach)@ == MessageView::Detach,
        local_keys(ClientKeybindings::Server) is None,
        local_keys(ClientKeybindings::Local { keys_toml: word }) == Some(word@),
{
}

/// A scroll message says what it holds.
pub proof fn law_scroll_messages_say_what_they_hold(
    source: AttachScrollSource,
    direction: AttachScrollDirection,
    lines: u16,
    column: Option<u16>,
    row: Option<u16>,
    modifiers: u8,
    input: Vec<u8>,
)
    ensures
        (ClientMessage::AttachScroll { source, direction, lines, column, row, modifiers })@ == (
        MessageView::AttachScroll { source: source@, direction, lines, column, row, modifiers }),
        AttachScrollSource::Wheel@ == ScrollSourceView::Wheel,
        (AttachScrollSource::PageKey { input })@ == (ScrollSourceView::PageKey { input: input@ }),
{
}

/// A greeting says what it holds, each part under its own name.
pub proof fn law_greetings_say_what_they_hold(hello: ClientMessage)
    requires
        hello is Hello,
    ensures
        hello@ is Hello,
        hello@->Hello_version == hello->Hello_version,
        hello@->Hello_cols == hello->Hello_cols,
        hello@->Hello_rows == hello->Hello_rows,
        hello@->Hello_cell_width_px == hello->Hello_cell_width_px,
        hello@->Hello_cell_height_px == hello->Hello_cell_height_px,
        hello@->requested_encoding == hello->requested_encoding,
        hello@->launch_mode == hello->launch_mode,
        hello@->host_terminal == hello->host_terminal,
        hello@->wants_client_rasterized_cards == hello->wants_client_rasterized_cards,
        hello@->wants_client_rasterized_signal_tray == hello->wants_client_rasterized_signal_tray,
        hello@->wants_client_rasterized_background_scene
            == hello->wants_client_rasterized_background_scene,
        hello->keybindings matches ClientKeybindings::Local { keys_toml } ==> hello@->local_keys
            == Some(keys_toml@),
        hello->keybindings is Server ==> hello@->local_keys is None,
{
}

} // verus!
