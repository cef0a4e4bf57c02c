//! The running client: what it does about typed input, about a resize, and about each message of
//! the server. Reading, writing and drawing are left to the caller; everything here is decided
//! from what the caller has read.

use crate::client::attach;
use crate::client::attach::{
    attach_input_action, ActionView, AttachEscapeState, AttachInputAction, FilteredInput,
};
use crate::client::control::decode_clipboard_payload;
use crate::client::error::ClientError;
use crate::client::geometry;
use crate::client::geometry::{
    pack_cell_size, rasterisation_cell_size, reported_cell_size_from_events, Geometry,
};
use crate::client::graphics_stream;
use crate::client::graphics_stream::{
    contains_kitty_graphics_bytes, write_encoded_frame_with_graphics, ReceivedGraphics,
};
use crate::client::protocol::{
    ClientMessage, KeyEventKind, MessageView, RawInputEvent,
};
use crate::client::screen::{should_draw_host_cursor, HostCursorMode};
use crate::kitty_graphics::cell_size::HostCellSize;
use crate::text;
use crate::text::{chars_of, push_bytes, push_text, same_bytes, same_text, string_of};
use vstd::prelude::*;
use vstd::string::*;

verus! {

/// How the client is set up.
#[derive(Debug, Clone, Copy)]
pub struct ClientLoopConfig {
    pub sound_enabled: bool,
    pub mouse_scroll_lines: usize,
    pub redraw_on_focus_gained: bool,
    pub host_cursor: HostCursorMode,
    /// What suits the platform where the cursor's mode leaves it open.
    pub draw_cursor_by_default: bool,
    pub kitty_graphics_enabled: bool,
    pub mouse_capture_active: bool,
}

/// What the client knows between two events.
pub struct ClientState {
    /// Whether the mouse is captured.
    pub mouse_capture_active: bool,
    /// Whether the terminal reports all keys as sequences.
    pub keyboard_report_all_active: bool,
    /// The size that the server was told last.
    pub reported_size: (u16, u16),
    pub sound_enabled: bool,
    /// Whether graphics may be written to the terminal.
    pub kitty_graphics_enabled: bool,
    /// The escape key of a direct attach; missing in a full client.
    pub attach_escape: Option<AttachEscapeState>,
    /// Rows that one notch of the wheel scrolls in a direct attach.
    pub mouse_scroll_lines: usize,
    /// Whether the surface is redrawn when the window is focused.
    pub redraw_on_focus_gained: bool,
    /// Whether the next frame repaints every cell.
    pub repaint_pending: bool,
    /// Whether the cursor is drawn into the cells.
    pub draw_host_cursor: bool,
    /// The cell that scenes are drawn against.
    pub cell_size: HostCellSize,
    /// What was drawn of each surface and no frame has carried yet. A scene's graphics are
    /// changes against what the terminal was sent before, so none may be dropped.
    pub pending_card_graphics: Vec<u8>,
    pub pending_tray_graphics: Vec<u8>,
    pub pending_background_scene_graphics: Vec<u8>,
    /// The images that the terminal was sent.
    pub received: ReceivedGraphics,
}

/// The state by what it holds; the escape key by whether it is pending.
#[verifier::ext_equal]
pub ghost struct StateView {
    pub mouse_capture_active: bool,
    pub keyboard_report_all_active: bool,
    pub reported_size: (u16, u16),
    pub sound_enabled: bool,
    pub kitty_graphics_enabled: bool,
    pub attach: Option<bool>,
    pub mouse_scroll_lines: usize,
    pub redraw_on_focus_gained: bool,
    pub repaint_pending: bool,
    pub draw_host_cursor: bool,
    pub cell_size: HostCellSize,
    pub card: Seq<u8>,
    pub tray: Seq<u8>,
    pub background: Seq<u8>,
    pub received: Set<u32>,
}

impl View for ClientState {
    type V = StateView;

    open spec fn view(&self) -> StateView {
        StateView {
            mouse_capture_active: self.mouse_capture_active,
            keyboard_report_all_active: self.keyboard_report_all_active,
            reported_size: self.reported_size,
            sound_enabled: self.sound_enabled,
            kitty_graphics_enabled: self.kitty_graphics_enabled,
            attach: match self.attach_escape {
                Some(escape) => Some(escape.pending_prefix),
                None => None,
            },
            mouse_scroll_lines: self.mouse_scroll_lines,
            redraw_on_focus_gained: self.redraw_on_focus_gained,
            repaint_pending: self.repaint_pending,
            draw_host_cursor: self.draw_host_cursor,
            cell_size: self.cell_size,
            card: self.pending_card_graphics@,
            tray: self.pending_tray_graphics@,
            background: self.pending_background_scene_graphics@,
            received: self.received.ids@,
        }
    }
}

// ---------------------------------------------------------------------------
// Messages of the server
// ---------------------------------------------------------------------------

#[derive(Debug, Clone, Copy, PartialEq, Eq, Structural)]
pub enum NotifyKind {
    Sound,
    Toast,
    SystemToast,
}

#[derive(Debug, Clone, Copy, PartialEq, Eq, Structural)]
pub enum Sound {
    Done,
    Request,
}

/// A surface that the client draws from scenes.
#[derive(Debug, Clone, Copy, PartialEq, Eq, Structural)]
pub enum SceneSurface {
    Cards,
    SignalTray,
    Background,
}

/// A message of the server. The cells of a frame stay with the caller; `sync_end` is where the
/// synchronized part of a terminal frame ends.
#[derive(Debug)]
pub enum ServerMessage {
    Frame,
    Terminal { bytes: Vec<u8>, sync_end: Option<usize> },
    Graphics { bytes: Vec<u8> },
    Scene { surface: SceneSurface, bytes: Vec<u8> },
    ServerShutdown { reason: Option<String> },
    Notify { kind: NotifyKind, message: String, body: Option<String> },
    Clipboard { data: String },
    RequestClipboardText { request_id: u64 },
    WindowTitle { title: Option<String> },
    ReloadSoundConfig,
    MouseCapture { enabled: bool },
    KittyKeyboardReportAll { enabled: bool },
    PrefixInputSource { active: bool },
    Welcome,
}

impl ServerMessage {
    /// The end of the synchronized part lies in the frame.
    pub open spec fn wf(self) -> bool {
        match self {
            ServerMessage::Terminal { bytes, sync_end } => sync_end matches Some(at) ==> at
                <= bytes@.len(),
            _ => true,
        }
    }
}

/// What to do about a notification.
#[derive(Debug, PartialEq, Eq)]
pub enum NotifyAction {
    Play(Sound),
    ShowInTerminal { message: String, body: Option<String> },
    ShowOnDesktop { message: String, body: Option<String> },
    Nothing,
}

/// What a message asks for.
#[derive(Debug)]
pub enum ServerStep {
    /// Encode the frame that came, with the cursor drawn in and every cell repainted or not.
    EncodeFrame { draw_cursor: bool, repaint: bool },
    /// Write bytes to the terminal.
    Write(Vec<u8>),
    /// Draw a scene.
    Rasterise { surface: SceneSurface, bytes: Vec<u8> },
    /// Leave.
    Stop(ClientError),
    Notify(NotifyAction),
    /// Put bytes into the clipboard.
    WriteClipboard(Vec<u8>),
    /// Tell the server what the clipboard holds.
    AnswerClipboardText { request_id: u64 },
    ReloadConfig,
    SetMouseCapture(bool),
    SetReportAll(bool),
    SwitchInputSource { ascii: bool },
    Nothing,
}

/// The sound that a notification asks for.
pub open spec fn spec_sound(message: Seq<char>) -> Option<Sound> {
    if message == "agent done"@ {
        Some(Sound::Done)
    } else if message == "agent attention"@ {
        Some(Sound::Request)
    } else {
        None
    }
}

pub fn sound_from_notify_message(message: &str) -> (sound: Option<Sound>)
    ensures
        sound == spec_sound(message@),
{
    if same_text(message, "agent done") {
        Some(Sound::Done)
    } else if same_text(message, "agent attention") {
        Some(Sound::Request)
    } else {
        None
    }
}

/// A sound is played where sounds are on; anything else is shown as it came, wherever the server
/// said, whatever the local settings are.
pub open spec fn spec_notify(
    kind: NotifyKind,
    message: String,
    body: Option<String>,
    sound_enabled: bool,
) -> NotifyAction {
    match kind {
        NotifyKind::Sound => match spec_sound(message@) {
            Some(sound) => if sound_enabled {
                NotifyAction::Play(sound)
            } else {
                NotifyAction::Nothing
            },
            None => NotifyAction::Nothing,
        },
        NotifyKind::Toast => NotifyAction::ShowInTerminal { message, body },
        NotifyKind::SystemToast => NotifyAction::ShowOnDesktop { message, body },
    }
}

pub fn handle_notify(
    kind: NotifyKind,
    message: String,
    body: Option<String>,
    sound_enabled: bool,
) -> (action: NotifyAction)
    ensures
        action == spec_notify(kind, message, body, sound_enabled),
{
    match kind {
        NotifyKind::Sound => match sound_from_notify_message(message.as_str()) {
            Some(sound) => {
                if sound_enabled {
                    NotifyAction::Play(sound)
                } else {
                    NotifyAction::Nothing
                }
            },
            None => NotifyAction::Nothing,
        },
        NotifyKind::Toast => NotifyAction::ShowInTerminal { message, body },
        NotifyKind::SystemToast => NotifyAction::ShowOnDesktop { message, body },
    }
}

/// The characters that end a terminal's title sequence.
pub open spec fn ends_title(c: char) -> bool {
    c == '\u{1b}' || c == '\u{7}' || c == '\u{9c}'
}

/// A title without the characters that would end its sequence.
pub open spec fn safe_title(title: Seq<char>) -> Seq<char> {
    title.filter(|c: char| !ends_title(c))
}

/// The sequence that names the window.
pub open spec fn title_bytes(title: Option<Seq<char>>) -> Seq<u8> {
    text::utf8("\x1b]0;") + vstd::utf8::encode_utf8(
        safe_title(
            match title {
                Some(title) => title,
                None => "herdr"@,
            },
        ),
    ) + text::utf8("\x07")
}

/// No title can end its own sequence early.
pub proof fn law_title_stays_inside(title: Seq<char>)
    ensures
        forall|i: int| 0 <= i < safe_title(title).len() ==> !ends_title(#[trigger] safe_title(title)[i]),
    decreases title.len(),
{
    reveal(Seq::filter);
    if title.len() > 0 {
        law_title_stays_inside(title.drop_last());
    }
}

pub fn window_title_osc(title: Option<&str>) -> (bytes: Vec<u8>)
    ensures
        bytes@ == title_bytes(
            match title {
                Some(title) => Some(title@),
                None => None,
            },
        ),
{
    let title: &str = match title {
        Some(title) => title,
        None => "herdr",
    };
    let chars = chars_of(title);
    let mut safe: Vec<char> = Vec::new();
    let mut i: usize = 0;
    proof {
        reveal(Seq::filter);
    }
    assert(safe@ =~= safe_title(chars@.take(0)));
    while i < chars.len()
        invariant
            i <= chars@.len(),
            safe@ == safe_title(chars@.take(i as int)),
        decreases chars@.len() - i,
    {
        let c = chars[i];
        proof {
            reveal(Seq::filter);
            assert(chars@.take(i + 1).drop_last() =~= chars@.take(i as int));
            assert(chars@.take(i + 1).last() == c);
        }
        if c != '\u{1b}' && c != '\u{7}' && c != '\u{9c}' {
            safe.push(c);
        }
        i += 1;
    }
    assert(chars@.take(i as int) =~= title@);
    let safe = string_of(safe.as_slice());
    let mut bytes: Vec<u8> = Vec::new();
    push_text(&mut bytes, "\x1b]0;");
    push_text(&mut bytes, safe.as_str());
    push_text(&mut bytes, "\x07");
    assert(bytes@ =~= title_bytes(Some(title@)));
    bytes
}

// ---------------------------------------------------------------------------
// The state after a message, and what the message asks for
// ---------------------------------------------------------------------------

/// All graphics that wait for a frame, in the order in which they go into it.
pub open spec fn pending(state: StateView) -> Seq<u8> {
    state.card + state.tray + state.background
}

/// The images that are known once `bytes` were sent.
pub open spec fn recorded(received: Set<u32>, bytes: Seq<u8>) -> Set<u32> {
    received.union(graphics_stream::image_ids(bytes).to_set())
}

/// The images that are known once a terminal frame went out.
pub open spec fn received_after_terminal(state: StateView, bytes: Seq<u8>) -> Set<u32> {
    let own = if state.kitty_graphics_enabled && graphics_stream::holds_graphics(bytes) {
        recorded(state.received, bytes)
    } else {
        state.received
    };
    if pending(state).len() > 0 {
        recorded(own, pending(state))
    } else {
        own
    }
}

/// The state after a message of the server.
pub open spec fn state_after(state: StateView, message: ServerMessage) -> StateView {
    match message {
        ServerMessage::Terminal { bytes, sync_end } => StateView {
            card: Seq::empty(),
            tray: Seq::empty(),
            background: Seq::empty(),
            received: received_after_terminal(state, bytes@),
            ..state
        },
        ServerMessage::Graphics { bytes } => if state.kitty_graphics_enabled {
            StateView { received: recorded(state.received, bytes@), ..state }
        } else {
            state
        },
        ServerMessage::MouseCapture { enabled } => StateView {
            mouse_capture_active: enabled,
            ..state
        },
        ServerMessage::KittyKeyboardReportAll { enabled } => StateView {
            keyboard_report_all_active: enabled,
            ..state
        },
        _ => state,
    }
}

/// What a message asks for, in a given state.
pub open spec fn asks(state: StateView, message: ServerMessage, step: ServerStep) -> bool {
    match message {
        ServerMessage::Frame => step == (ServerStep::EncodeFrame {
            draw_cursor: state.draw_host_cursor,
            repaint: state.repaint_pending,
        }),
        ServerMessage::Terminal { bytes, sync_end } => step is Write && step->Write_0@
            == graphics_stream::spliced(
            bytes@,
            pending(state),
            graphics_stream::insertion_point(bytes@, sync_end),
        ),
        ServerMessage::Graphics { bytes } => step == (if state.kitty_graphics_enabled {
            ServerStep::Write(bytes)
        } else {
            ServerStep::Nothing
        }),
        ServerMessage::Scene { surface, bytes } => step == (if state.kitty_graphics_enabled {
            (ServerStep::Rasterise { surface, bytes })
        } else {
            ServerStep::Nothing
        }),
        ServerMessage::ServerShutdown { reason } => step == ServerStep::Stop(
            ClientError::ServerShutdown { reason },
        ),
        ServerMessage::Notify { kind, message, body } => step == ServerStep::Notify(
            spec_notify(kind, message, body, state.sound_enabled),
        ),
        ServerMessage::Clipboard { data } => match crate::base64_codec::decoded(data@) {
            Ok(bytes) => step is WriteClipboard && step->WriteClipboard_0@ == bytes,
            Err(_) => step is Nothing,
        },
        ServerMessage::RequestClipboardText { request_id } => step
            == (ServerStep::AnswerClipboardText { request_id }),
        ServerMessage::WindowTitle { title } => step is Write && step->Write_0@ == title_bytes(
            text::option_text(title),
        ),
        ServerMessage::ReloadSoundConfig => step is ReloadConfig,
        ServerMessage::MouseCapture { enabled } => step == (if enabled
            != state.mouse_capture_active {
            ServerStep::SetMouseCapture(enabled)
        } else {
            ServerStep::Nothing
        }),
        ServerMessage::KittyKeyboardReportAll { enabled } => step == (if enabled
            != state.keyboard_report_all_active {
            ServerStep::SetReportAll(enabled)
        } else {
            ServerStep::Nothing
        }),
        ServerMessage::PrefixInputSource { active } => step == (ServerStep::SwitchInputSource {
            ascii: active,
        }),
        ServerMessage::Welcome => step is Nothing,
    }
}

// ---------------------------------------------------------------------------
// Typed input
// ---------------------------------------------------------------------------

/// What typed input leads to.
#[derive(Debug)]
pub enum InputStep {
    Nothing,
    Send(ClientMessage),
    SendAndStop(ClientMessage),
    /// The bytes go to the server unless they stand for an image.
    Offer(Vec<u8>),
}

/// What typed input leads to, and the cell size that it reported.
#[derive(Debug)]
pub struct InputOutcome {
    pub step: InputStep,
    pub reported_cell_size: Option<u64>,
}

/// What input leads to, `events` being what the bytes spell.
pub open spec fn input_leads_to(
    state: StateView,
    input: FilteredInput,
    events: Seq<RawInputEvent>,
    outcome: InputOutcome,
) -> bool {
    match input {
        FilteredInput::Detach => outcome.step == InputStep::SendAndStop(ClientMessage::Detach)
            && outcome.reported_cell_size is None,
        FilteredInput::Bytes(bytes) => if state.attach is Some {
            &&& outcome.reported_cell_size is None
            &&& match attach::input_action(
                bytes@,
                events,
                state.reported_size.1,
                state.mouse_scroll_lines,
            ) {
                ActionView::Forward { data } => outcome.step is Offer && outcome.step->Offer_0@
                    == data,
                ActionView::Scroll { source, direction, lines, column, row, modifiers } => {
                    &&& outcome.step is Send
                    &&& outcome.step->Send_0@ == MessageView::AttachScroll {
                        source,
                        direction,
                        lines,
                        column,
                        row,
                        modifiers,
                    }
                },
                ActionView::Detach => outcome.step == InputStep::SendAndStop(
                    ClientMessage::Detach,
                ),
                ActionView::Nothing => outcome.step is Nothing,
            }
        } else {
            &&& outcome.step == InputStep::Offer(bytes)
            &&& outcome.reported_cell_size == match geometry::last_reported(events) {
                Some((width_px, height_px)) => Some(
                    (width_px * 0x1_0000_0000 + height_px) as u64,
                ),
                None => None,
            }
        },
    }
}

/// An event as far as it can be the key that pastes an image.
#[derive(Debug, Clone, Copy, PartialEq, Eq, Structural)]
pub enum PasteKeyEvent {
    Key { kind: KeyEventKind, matches_paste_key: bool },
    Other,
}

/// Whether typed bytes ask for the image in the clipboard: an empty paste does in a remote
/// client, and so does a single press of the configured key.
pub open spec fn spec_should_bridge(
    data: Seq<u8>,
    is_remote_client: bool,
    key_configured: bool,
    events: Seq<PasteKeyEvent>,
) -> bool {
    if data == text::utf8("\x1b[200~\x1b[201~") {
        is_remote_client
    } else {
        key_configured && events.len() == 1 && events[0] == (PasteKeyEvent::Key {
            kind: KeyEventKind::Press,
            matches_paste_key: true,
        })
    }
}

pub fn should_bridge_clipboard_image_paste(
    data: &[u8],
    is_remote_client: bool,
    key_configured: bool,
    events: &[PasteKeyEvent],
) -> (bridge: bool)
    ensures
        bridge == spec_should_bridge(data@, is_remote_client, key_configured, events@),
{
    let mut empty_paste: Vec<u8> = Vec::new();
    push_text(&mut empty_paste, "\x1b[200~\x1b[201~");
    assert(empty_paste@ =~= text::utf8("\x1b[200~\x1b[201~"));
    if same_bytes(data, empty_paste.as_slice()) {
        return is_remote_client;
    }
    key_configured && events.len() == 1 && events[0] == (PasteKeyEvent::Key {
        kind: KeyEventKind::Press,
        matches_paste_key: true,
    })
}

/// An image that is sent in place of typed bytes.
#[derive(Debug)]
pub struct ClipboardImage {
    pub bytes: Vec<u8>,
    pub extension: String,
}

/// The message for an image of the clipboard; none where it is larger than `max_payload`, and
/// then the typed bytes are dropped with it.
pub fn clipboard_image_message(image: ClipboardImage, max_payload: usize) -> (message: Option<
    ClientMessage,
>)
    ensures
        message == (if image.bytes@.len() > max_payload {
            None
        } else {
            Some(ClientMessage::ClipboardImage { extension: image.extension, data: image.bytes })
        }),
{
    if image.bytes.len() > max_payload {
        None
    } else {
        Some(ClientMessage::ClipboardImage { extension: image.extension, data: image.bytes })
    }
}

/// What was read of a dropped file.
#[derive(Debug)]
pub enum LimitedRead {
    Complete(Vec<u8>),
    Empty,
    Oversized,
}

/// The image in a dropped file; an empty or too large file is none.
pub fn dropped_image(read: LimitedRead, extension: &str) -> (image: Option<ClipboardImage>)
    ensures
        match read {
            LimitedRead::Complete(bytes) => image is Some && image->0.bytes == bytes
                && image->0.extension@ == extension@,
            _ => image is None,
        },
{
    match read {
        LimitedRead::Complete(bytes) => Some(
            ClipboardImage { bytes, extension: extension.to_owned() },
        ),
        _ => None,
    }
}

/// The message for typed bytes: the image of a file that was dropped, else the bytes.
pub fn input_message(data: Vec<u8>, dropped: Option<ClipboardImage>) -> (message: ClientMessage)
    ensures
        message == match dropped {
            Some(image) => ClientMessage::ClipboardImage {
                extension: image.extension,
                data: image.bytes,
            },
            None => ClientMessage::Input { data },
        },
{
    match dropped {
        Some(image) => ClientMessage::ClipboardImage {
            extension: image.extension,
            data: image.bytes,
        },
        None => ClientMessage::Input { data },
    }
}

// ---------------------------------------------------------------------------
// The state's transitions
// ---------------------------------------------------------------------------

/// The settings that are read again when the server asks for it.
#[derive(Debug, Clone, Copy)]
pub struct ReloadedConfig {
    pub sound_enabled: bool,
    pub redraw_on_focus_gained: bool,
    pub host_cursor: HostCursorMode,
    pub draw_cursor_by_default: bool,
}

/// Whether the cursor is drawn into the cells.
pub open spec fn draws_cursor(mode: HostCursorMode, by_default: bool) -> bool {
    match mode {
        HostCursorMode::Auto => by_default,
        HostCursorMode::Native => false,
        HostCursorMode::Drawn => true,
    }
}

/// The cell that scenes are drawn against, from the one that was reported.
pub open spec fn drawing_cell(width_px: u32, height_px: u32) -> HostCellSize {
    let reported = HostCellSize { width_px, height_px };
    if reported.known() {
        reported.believable()
    } else {
        reported
    }
}

/// What a resize asks for.
#[derive(Debug)]
pub struct ResizeStep {
    /// Ask the terminal for its cell size again.
    pub query_cell_size: bool,
    pub message: ClientMessage,
}

impl ClientState {
    /// The state of a client that has just shaken hands.
    pub fn new(config: ClientLoopConfig, direct_attach: bool, geometry: Geometry) -> (state: Self)
        ensures
            state@ == (StateView {
                mouse_capture_active: config.mouse_capture_active,
                keyboard_report_all_active: false,
                reported_size: (geometry.0, geometry.1),
                sound_enabled: config.sound_enabled,
                kitty_graphics_enabled: config.kitty_graphics_enabled,
                attach: if direct_attach {
                    Some(false)
                } else {
                    None
                },
                mouse_scroll_lines: config.mouse_scroll_lines,
                redraw_on_focus_gained: config.redraw_on_focus_gained,
                repaint_pending: false,
                draw_host_cursor: !direct_attach && draws_cursor(
                    config.host_cursor,
                    config.draw_cursor_by_default,
                ),
                cell_size: drawing_cell(geometry.2, geometry.3),
                card: Seq::empty(),
                tray: Seq::empty(),
                background: Seq::empty(),
                received: Set::empty(),
            }),
    {
        let draw_host_cursor = !direct_attach && should_draw_host_cursor(
            config.host_cursor,
            config.draw_cursor_by_default,
        );
        let state = ClientState {
            mouse_capture_active: config.mouse_capture_active,
            keyboard_report_all_active: false,
            reported_size: (geometry.0, geometry.1),
            sound_enabled: config.sound_enabled,
            kitty_graphics_enabled: config.kitty_graphics_enabled,
            attach_escape: if direct_attach {
                Some(AttachEscapeState::default())
            } else {
                None
            },
            mouse_scroll_lines: config.mouse_scroll_lines,
            redraw_on_focus_gained: config.redraw_on_focus_gained,
            repaint_pending: false,
            draw_host_cursor,
            cell_size: rasterisation_cell_size(geometry.2, geometry.3),
            pending_card_graphics: Vec::new(),
            pending_tray_graphics: Vec::new(),
            pending_background_scene_graphics: Vec::new(),
            received: ReceivedGraphics::new(),
        };
        assert(state@.received =~= Set::empty());
        state
    }

    /// Has the next frame repaint every cell.
    pub fn request_repaint(&mut self)
        ensures
            final(self)@ == (StateView { repaint_pending: true, ..old(self)@ }),
            final(self).received == old(self).received,
    {
        self.repaint_pending = true;
    }

    /// What typed bytes are once the escape key of a direct attach is dealt with. A full client
    /// takes them as they are.
    pub fn filter_typed(&mut self, data: Vec<u8>) -> (input: FilteredInput)
        ensures
            match old(self)@.attach {
                Some(escape_pending) => ({
                    let f = attach::filtered(escape_pending, data@);
                    &&& final(self)@ == (StateView { attach: Some(f.pending), ..old(self)@ })
                    &&& match input {
                        FilteredInput::Bytes(bytes) => !f.detach && bytes@ == f.out,
                        FilteredInput::Detach => f.detach,
                    }
                }),
                None => final(self)@ == old(self)@ && input == FilteredInput::Bytes(data),
            },
    {
        match self.attach_escape.take() {
            Some(mut escape) => {
                let input = escape.filter_input(data.as_slice());
                self.attach_escape = Some(escape);
                input
            },
            None => FilteredInput::Bytes(data),
        }
    }

    /// What input leads to. `events` are what the bytes spell; `redraw_required` says that one of
    /// them calls for a redraw, which only a full client heeds.
    pub fn on_input(
        &mut self,
        input: FilteredInput,
        events: &[RawInputEvent],
        redraw_required: bool,
    ) -> (outcome: InputOutcome)
        ensures
            input_leads_to(old(self)@, input, events@, outcome),
            final(self)@ == (StateView {
                repaint_pending: old(self)@.repaint_pending || (redraw_required && input is Bytes
                    && old(self)@.attach is None),
                ..old(self)@
            }),
    {
        match input {
            FilteredInput::Detach => InputOutcome {
                step: InputStep::SendAndStop(ClientMessage::Detach),
                reported_cell_size: None,
            },
            FilteredInput::Bytes(bytes) => {
                if self.attach_escape.is_some() {
                    let action = attach_input_action(
                        bytes,
                        events,
                        self.reported_size.1,
                        self.mouse_scroll_lines,
                    );
                    let step = match action {
                        AttachInputAction::Forward(data) => InputStep::Offer(data),
                        AttachInputAction::Scroll {
                            source,
                            direction,
                            lines,
                            column,
                            row,
                            modifiers,
                        } => InputStep::Send(
                            ClientMessage::AttachScroll {
                                source,
                                direction,
                                lines,
                                column,
                                row,
                                modifiers,
                            },
                        ),
                        AttachInputAction::Detach => InputStep::SendAndStop(ClientMessage::Detach),
                        AttachInputAction::Nothing => InputStep::Nothing,
                    };
                    return InputOutcome { step, reported_cell_size: None };
                }
                if redraw_required {
                    self.request_repaint();
                }
                let reported_cell_size = match reported_cell_size_from_events(events) {
                    Some((width_px, height_px)) => Some(pack_cell_size(width_px, height_px)),
                    None => None,
                };
                InputOutcome { step: InputStep::Offer(bytes), reported_cell_size }
            },
        }
    }

    /// Input that the platform hands over as events: they are sent on as they are, and a redraw is
    /// asked for where they call for one. A direct attach reads bytes and takes no notice of them.
    pub fn on_input_events(&mut self, redraw_required: bool) -> (forward: bool)
        ensures
            forward == (old(self)@.attach is None),
            final(self)@ == (StateView {
                repaint_pending: old(self)@.repaint_pending || (redraw_required
                    && old(self)@.attach is None),
                ..old(self)@
            }),
    {
        if self.attach_escape.is_some() {
            return false;
        }
        if redraw_required {
            self.request_repaint();
        }
        true
    }

    /// The terminal has a new size: what was drawn before is void, and the server is told. The
    /// cell may have changed with it, so a client with graphics asks for it again.
    pub fn on_resize(&mut self, geometry: Geometry) -> (step: ResizeStep)
        ensures
            final(self)@ == (StateView {
                reported_size: (geometry.0, geometry.1),
                cell_size: drawing_cell(geometry.2, geometry.3),
                repaint_pending: true,
                ..old(self)@
            }),
            step.query_cell_size == (old(self)@.attach is None && old(
                self,
            )@.kitty_graphics_enabled),
            step.message == (ClientMessage::Resize {
                cols: geometry.0,
                rows: geometry.1,
                cell_width_px: geometry.2,
                cell_height_px: geometry.3,
            }),
    {
        self.reported_size = (geometry.0, geometry.1);
        self.cell_size = rasterisation_cell_size(geometry.2, geometry.3);
        self.request_repaint();
        ResizeStep {
            query_cell_size: self.attach_escape.is_none() && self.kitty_graphics_enabled,
            message: ClientMessage::Resize {
                cols: geometry.0,
                rows: geometry.1,
                cell_width_px: geometry.2,
                cell_height_px: geometry.3,
            },
        }
    }

    fn record(&mut self, bytes: &[u8])
        ensures
            final(self)@ == (StateView {
                received: recorded(old(self)@.received, bytes@),
                ..old(self)@
            }),
    {
        self.received.record(bytes);
        assert(self@ =~= StateView {
            received: recorded(old(self)@.received, bytes@),
            ..old(self)@
        });
    }

    /// All graphics that wait for a frame; none wait after that.
    fn take_pending(&mut self) -> (graphics: Vec<u8>)
        ensures
            graphics@ == pending(old(self)@),
            final(self)@ == (StateView {
                card: Seq::empty(),
                tray: Seq::empty(),
                background: Seq::empty(),
                ..old(self)@
            }),
            final(self).received == old(self).received,
    {
        let mut graphics: Vec<u8> = Vec::new();
        push_bytes(&mut graphics, self.pending_card_graphics.as_slice());
        push_bytes(&mut graphics, self.pending_tray_graphics.as_slice());
        push_bytes(&mut graphics, self.pending_background_scene_graphics.as_slice());
        self.pending_card_graphics.clear();
        self.pending_tray_graphics.clear();
        self.pending_background_scene_graphics.clear();
        assert(graphics@ =~= pending(old(self)@));
        graphics
    }

    /// A message of the server: what it asks for, and what is known after it. A frame's own
    /// encoding and a scene's graphics come back through `on_frame_encoded` and
    /// `on_scene_rasterised`, reloaded settings through `on_reloaded`.
    pub fn on_server_message(&mut self, message: ServerMessage) -> (step: ServerStep)
        requires
            message.wf(),
        ensures
            final(self)@ == state_after(old(self)@, message),
            asks(old(self)@, message, step),
    {
        match message {
            ServerMessage::Frame => ServerStep::EncodeFrame {
                draw_cursor: self.draw_host_cursor,
                repaint: self.repaint_pending,
            },
            ServerMessage::Terminal { bytes, sync_end } => {
                if self.kitty_graphics_enabled && contains_kitty_graphics_bytes(bytes.as_slice()) {
                    self.record(bytes.as_slice());
                }
                let graphics = self.take_pending();
                if graphics.len() > 0 {
                    self.record(graphics.as_slice());
                }
                assert(self@ =~= state_after(old(self)@, message));
                ServerStep::Write(
                    write_encoded_frame_with_graphics(
                        bytes.as_slice(),
                        graphics.as_slice(),
                        sync_end,
                    ),
                )
            },
            ServerMessage::Graphics { bytes } => {
                if self.kitty_graphics_enabled {
                    self.record(bytes.as_slice());
                    ServerStep::Write(bytes)
                } else {
                    ServerStep::Nothing
                }
            },
            ServerMessage::Scene { surface, bytes } => {
                if self.kitty_graphics_enabled {
                    ServerStep::Rasterise { surface, bytes }
                } else {
                    ServerStep::Nothing
                }
            },
            ServerMessage::ServerShutdown { reason } => ServerStep::Stop(
                ClientError::ServerShutdown { reason },
            ),
            ServerMessage::Notify { kind, message, body } => ServerStep::Notify(
                handle_notify(kind, message, body, self.sound_enabled),
            ),
            ServerMessage::Clipboard { data } => match decode_clipboard_payload(data.as_str()) {
                Some(bytes) => ServerStep::WriteClipboard(bytes),
                None => ServerStep::Nothing,
            },
            ServerMessage::RequestClipboardText { request_id } => {
                ServerStep::AnswerClipboardText { request_id }
            },
            ServerMessage::WindowTitle { title } => match title {
                Some(title) => ServerStep::Write(window_title_osc(Some(title.as_str()))),
                None => ServerStep::Write(window_title_osc(None)),
            },
            ServerMessage::ReloadSoundConfig => ServerStep::ReloadConfig,
            ServerMessage::MouseCapture { enabled } => {
                if enabled != self.mouse_capture_active {
                    self.mouse_capture_active = enabled;
                    ServerStep::SetMouseCapture(enabled)
                } else {
                    ServerStep::Nothing
                }
            },
            ServerMessage::KittyKeyboardReportAll { enabled } => {
                if enabled != self.keyboard_report_all_active {
                    self.keyboard_report_all_active = enabled;
                    ServerStep::SetReportAll(enabled)
                } else {
                    ServerStep::Nothing
                }
            },
            ServerMessage::PrefixInputSource { active } => ServerStep::SwitchInputSource {
                ascii: active,
            },
            ServerMessage::Welcome => ServerStep::Nothing,
        }
    }

    /// A frame was encoded: the bytes to write, with the frame's own graphics where graphics are
    /// on. The frame carried whatever repaint was asked for.
    pub fn on_frame_encoded(
        &mut self,
        encoded: &[u8],
        graphics: &[u8],
        sync_end: Option<usize>,
    ) -> (bytes: Vec<u8>)
        requires
            sync_end matches Some(at) ==> at <= encoded@.len(),
        ensures
            ({
                let shown = old(self)@.kitty_graphics_enabled && graphics@.len() > 0;
                &&& bytes@ == graphics_stream::spliced(
                    encoded@,
                    if shown {
                        graphics@
                    } else {
                        Seq::empty()
                    },
                    graphics_stream::insertion_point(encoded@, sync_end),
                )
                &&& final(self)@ == (StateView {
                    repaint_pending: false,
                    received: if shown {
                        recorded(old(self)@.received, graphics@)
                    } else {
                        old(self)@.received
                    },
                    ..old(self)@
                })
            }),
    {
        self.repaint_pending = false;
        if self.kitty_graphics_enabled && graphics.len() > 0 {
            self.record(graphics);
            write_encoded_frame_with_graphics(encoded, graphics, sync_end)
        } else {
            let nothing: Vec<u8> = Vec::new();
            assert(nothing@ =~= Seq::<u8>::empty());
            write_encoded_frame_with_graphics(encoded, nothing.as_slice(), sync_end)
        }
    }

    /// A scene was drawn: its graphics wait for a frame, behind those that wait already.
    pub fn on_scene_rasterised(&mut self, surface: SceneSurface, graphics: &[u8])
        ensures
            final(self)@ == with_scene(old(self)@, surface, graphics@),
    {
        match surface {
            SceneSurface::Cards => push_bytes(&mut self.pending_card_graphics, graphics),
            SceneSurface::SignalTray => push_bytes(&mut self.pending_tray_graphics, graphics),
            SceneSurface::Background => push_bytes(
                &mut self.pending_background_scene_graphics,
                graphics,
            ),
        }
    }

    /// Settings were read again; where that failed nothing changes.
    pub fn on_reloaded(&mut self, loaded: Option<ReloadedConfig>)
        ensures
            final(self)@ == match loaded {
                Some(loaded) => StateView {
                    sound_enabled: loaded.sound_enabled,
                    redraw_on_focus_gained: loaded.redraw_on_focus_gained,
                    draw_host_cursor: draws_cursor(
                        loaded.host_cursor,
                        loaded.draw_cursor_by_default,
                    ),
                    ..old(self)@
                },
                None => old(self)@,
            },
    {
        if let Some(loaded) = loaded {
            self.sound_enabled = loaded.sound_enabled;
            self.redraw_on_focus_gained = loaded.redraw_on_focus_gained;
            self.draw_host_cursor = should_draw_host_cursor(
                loaded.host_cursor,
                loaded.draw_cursor_by_default,
            );
        }
    }
}

/// The state with more of a surface's graphics waiting.
pub open spec fn with_scene(state: StateView, surface: SceneSurface, graphics: Seq<u8>) -> StateView {
    match surface {
        SceneSurface::Cards => StateView { card: state.card + graphics, ..state },
        SceneSurface::SignalTray => StateView { tray: state.tray + graphics, ..state },
        SceneSurface::Background => StateView {
            background: state.background + graphics,
            ..state
        },
    }
}

/// The answer to a request for the clipboard's text; an empty clipboard is answered too.
pub fn clipboard_text_message(request_id: u64, text: Option<String>) -> (message: ClientMessage)
    ensures
        message == (ClientMessage::ClipboardText { request_id, text }),
{
    ClientMessage::ClipboardText { request_id, text }
}

/// The error of a client whose server closed the connection.
pub fn disconnected() -> (error: ClientError)
    ensures
        error is ConnectionLost,
        error->ConnectionLost_0@ == "server closed connection"@,
{
    ClientError::ConnectionLost("server closed connection".to_owned())
}

/// What a failed or successful read of a message means for the thread that reads.
#[derive(Debug)]
pub enum ReadStep {
    Deliver,
    Disconnect,
    Retry,
}

/// How reading a message came out.
#[derive(Debug, Clone, Copy, PartialEq, Eq, Structural)]
pub enum ReadOutcome {
    Message,
    EndOfStream,
    WouldBlock,
    Failed,
}

/// A message is delivered, a read that would block is tried again, and anything else ends the
/// connection.
pub fn reader_step(outcome: ReadOutcome) -> (step: ReadStep)
    ensures
        step == match outcome {
            ReadOutcome::Message => ReadStep::Deliver,
            ReadOutcome::WouldBlock => ReadStep::Retry,
            ReadOutcome::EndOfStream => ReadStep::Disconnect,
            ReadOutcome::Failed => ReadStep::Disconnect,
        },
{
    match outcome {
        ReadOutcome::Message => ReadStep::Deliver,
        ReadOutcome::WouldBlock => ReadStep::Retry,
        ReadOutcome::EndOfStream | ReadOutcome::Failed => ReadStep::Disconnect,
    }
}

// ---------------------------------------------------------------------------
// Laws
// ---------------------------------------------------------------------------

/// Something that happens to a session: a scene was drawn, or a message came.
pub ghost enum SessionEvent {
    Drawn { surface: SceneSurface, graphics: Seq<u8> },
    Came { message: ServerMessage },
}

/// The state after one event.
pub open spec fn after_event(state: StateView, event: SessionEvent) -> StateView {
    match event {
        SessionEvent::Drawn { surface, graphics } => with_scene(state, surface, graphics),
        SessionEvent::Came { message } => state_after(state, message),
    }
}

/// The state after all events.
pub open spec fn after_events(state: StateView, events: Seq<SessionEvent>) -> StateView
    decreases events.len(),
{
    if events.len() == 0 {
        state
    } else {
        after_event(after_events(state, events.drop_last()), events.last())
    }
}

/// The graphics of a surface that wait for a frame.
pub open spec fn waiting(state: StateView, surface: SceneSurface) -> Seq<u8> {
    match surface {
        SceneSurface::Cards => state.card,
        SceneSurface::SignalTray => state.tray,
        SceneSurface::Background => state.background,
    }
}

/// What frames have carried of a surface.
pub open spec fn carried(
    state: StateView,
    events: Seq<SessionEvent>,
    surface: SceneSurface,
) -> Seq<u8>
    decreases events.len(),
{
    if events.len() == 0 {
        Seq::empty()
    } else {
        let earlier = events.drop_last();
        carried(state, earlier, surface) + (match events.last() {
            SessionEvent::Came { message } if message is Terminal => waiting(
                after_events(state, earlier),
                surface,
            ),
            _ => Seq::empty(),
        })
    }
}

/// What was drawn of a surface.
pub open spec fn drawn(events: Seq<SessionEvent>, surface: SceneSurface) -> Seq<u8>
    decreases events.len(),
{
    if events.len() == 0 {
        Seq::empty()
    } else {
        drawn(events.drop_last(), surface) + (match events.last() {
            SessionEvent::Drawn { surface: s, graphics } if s == surface => graphics,
            _ => Seq::empty(),
        })
    }
}

/// Whatever happens, no graphics of a surface are lost, repeated or put in another order: what
/// frames have carried and what still waits is all that waited at first and was drawn since.
pub proof fn law_no_graphics_are_lost(
    state: StateView,
    events: Seq<SessionEvent>,
    surface: SceneSurface,
)
    ensures
        carried(state, events, surface) + waiting(after_events(state, events), surface)
            == waiting(state, surface) + drawn(events, surface),
    decreases events.len(),
{
    if events.len() == 0 {
        assert(carried(state, events, surface) + waiting(state, surface) =~= waiting(state, surface)
            + drawn(events, surface));
    } else {
        let earlier = events.drop_last();
        law_no_graphics_are_lost(state, earlier, surface);
        assert(carried(state, events, surface) + waiting(after_events(state, events), surface)
            =~= carried(state, earlier, surface) + waiting(after_events(state, earlier), surface)
            + (match events.last() {
            SessionEvent::Drawn { surface: s, graphics } if s == surface => graphics,
            _ => Seq::empty(),
        }));
        assert(waiting(state, surface) + drawn(events, surface) =~= waiting(state, surface)
            + drawn(earlier, surface) + (match events.last() {
            SessionEvent::Drawn { surface: s, graphics } if s == surface => graphics,
            _ => Seq::empty(),
        }));
    }
}

/// With graphics off, a client that has none waiting writes every terminal frame as it came,
/// writes and draws no graphics at all, and keeps it that way.
pub proof fn law_graphics_off(state: StateView, message: ServerMessage, step: ServerStep)
    requires
        !state.kitty_graphics_enabled,
        pending(state).len() == 0,
        message.wf(),
        asks(state, message, step),
    ensures
        message matches ServerMessage::Terminal { bytes, .. } ==> step->Write_0@ == bytes@,
        message is Graphics || message is Scene ==> step is Nothing,
        state_after(state, message).received == state.received,
        pending(state_after(state, message)).len() == 0,
        !state_after(state, message).kitty_graphics_enabled,
{
}

/// A mode that the server sets twice is set once.
pub proof fn law_repeated_modes_ask_nothing(state: StateView, enabled: bool, step: ServerStep)
    ensures
        asks(
            state_after(state, ServerMessage::MouseCapture { enabled }),
            ServerMessage::MouseCapture { enabled },
            step,
        ) ==> step is Nothing,
        asks(
            state_after(state, ServerMessage::KittyKeyboardReportAll { enabled }),
            ServerMessage::KittyKeyboardReportAll { enabled },
            step,
        ) ==> step is Nothing,
{
}

/// A message changes what it is about and nothing else: a frame takes the waiting graphics with it,
/// graphics that are written are remembered, the modes are what the server says, and no other
/// message changes anything.
pub proof fn law_messages_change_their_own(state: StateView, message: ServerMessage)
    ensures
        ({
            let after = state_after(state, message);
            match message {
                ServerMessage::Terminal { bytes, .. } => {
                    &&& after.card.len() == 0 && after.tray.len() == 0 && after.background.len()
                        == 0
                    &&& after == (StateView {
                        card: Seq::empty(),
                        tray: Seq::empty(),
                        background: Seq::empty(),
                        received: after.received,
                        ..state
                    })
                    &&& forall|id: u32| #[trigger]
                        after.received.contains(id) <==> state.received.contains(id) || (
                        state.kitty_graphics_enabled && graphics_stream::holds_graphics(bytes@)
                            && graphics_stream::image_ids(bytes@).contains(id)) || (
                        state.card + state.tray + state.background).len() > 0
                            && graphics_stream::image_ids(
                            state.card + state.tray + state.background,
                        ).contains(id)
                },
                ServerMessage::Graphics { bytes } => {
                    &&& after == (StateView { received: after.received, ..state })
                    &&& forall|id: u32| #[trigger]
                        after.received.contains(id) <==> state.received.contains(id) || (
                        state.kitty_graphics_enabled && graphics_stream::image_ids(
                            bytes@,
                        ).contains(id))
                },
                ServerMessage::MouseCapture { enabled } => {
                    &&& after.mouse_capture_active == enabled
                    &&& after == (StateView { mouse_capture_active: enabled, ..state })
                },
                ServerMessage::KittyKeyboardReportAll { enabled } => {
                    &&& after.keyboard_report_all_active == enabled
                    &&& after == (StateView { keyboard_report_all_active: enabled, ..state })
                },
                _ => after == state,
            }
        }),
{
    let after = state_after(state, message);
    match message {
        ServerMessage::Terminal { bytes, .. } => {
            lemma_in_set(graphics_stream::image_ids(bytes@));
            lemma_in_set(graphics_stream::image_ids(pending(state)));
        },
        ServerMessage::Graphics { bytes } => {
            lemma_in_set(graphics_stream::image_ids(bytes@));
        },
        _ => {},
    }
}

proof fn lemma_in_set(ids: Seq<u32>)
    ensures
        forall|id: u32| #[trigger] ids.to_set().contains(id) <==> ids.contains(id),
{
}

/// A terminal frame is written with all graphics that wait, those of the cards first, then those of
/// the tray, then the background, at the end of its synchronized part or behind it.
pub proof fn law_a_frame_takes_all_graphics_along(
    state: StateView,
    head: Seq<u8>,
    tail: Seq<u8>,
    message: ServerMessage,
    step: ServerStep,
)
    requires
        message is Terminal,
        message->Terminal_bytes@ == head + tail,
        message->sync_end == Some(head.len() as usize) || (message->sync_end is None && tail.len()
            == 0),
        head.len() <= usize::MAX,
        asks(state, message, step),
    ensures
        step is Write,
        ({
            let waits = state.card + state.tray + state.background;
            &&& waits.len() == 0 ==> step->Write_0@ == head + tail
            &&& waits.len() > 0 ==> step->Write_0@ == head + seq![27u8, 55u8] + state.card
                + state.tray + state.background + seq![27u8, 56u8] + tail
        }),
{
    let waits = state.card + state.tray + state.background;
    graphics_stream::law_graphics_go_in_at_one_place(head, tail, waits, message->sync_end);
    assert(head + seq![27u8, 55u8] + waits + seq![27u8, 56u8] + tail =~= head + seq![27u8, 55u8]
        + state.card + state.tray + state.background + seq![27u8, 56u8] + tail);
}

/// Each message asks for its own: a frame for drawing with the cursor and the repaint that are due,
/// a shutdown for leaving with its reason, the clipboard for what its text stands for, a mode for a
/// change where it is another, and so on.
pub proof fn law_messages_ask_for_their_own(
    state: StateView,
    message: ServerMessage,
    step: ServerStep,
)
    requires
        asks(state, message, step),
    ensures
        message is Frame ==> step is EncodeFrame && step->draw_cursor == state.draw_host_cursor
            && step->repaint == state.repaint_pending,
        message matches ServerMessage::Graphics { bytes } ==> if state.kitty_graphics_enabled {
            step is Write && step->Write_0@ == bytes@
        } else {
            step is Nothing
        },
        message matches ServerMessage::Scene { surface, bytes } ==> if state.kitty_graphics_enabled {
            step is Rasterise && step->surface == surface && step->Rasterise_bytes == bytes
        } else {
            step is Nothing
        },
        message matches ServerMessage::ServerShutdown { reason } ==> step is Stop
            && step->Stop_0 is ServerShutdown && step->Stop_0->reason == reason,
        message is Notify <==> step is Notify,
        message matches ServerMessage::RequestClipboardText { request_id } ==> step
            is AnswerClipboardText && step->request_id == request_id,
        message is ReloadSoundConfig ==> step is ReloadConfig,
        message matches ServerMessage::MouseCapture { enabled } ==> if enabled
            == state.mouse_capture_active {
            step is Nothing
        } else {
            step is SetMouseCapture && step->SetMouseCapture_0 == enabled
        },
        message matches ServerMessage::KittyKeyboardReportAll { enabled } ==> if enabled
            == state.keyboard_report_all_active {
            step is Nothing
        } else {
            step is SetReportAll && step->SetReportAll_0 == enabled
        },
        message matches ServerMessage::PrefixInputSource { active } ==> step is SwitchInputSource
            && step->ascii == active,
        message is Welcome ==> step is Nothing,
        step is Stop ==> message is ServerShutdown,
        step is WriteClipboard ==> message is Clipboard,
{
}

/// Notifications: a sound is played only where sounds are on and the words are known, and nothing of
/// it is shown; what is to be shown is shown where the server says, word for word, sounds or not.
pub proof fn law_notifications_go_where_they_belong(
    kind: NotifyKind,
    message: String,
    body: Option<String>,
    sound_enabled: bool,
)
    ensures
        ({
            let action = spec_notify(kind, message, body, sound_enabled);
            match kind {
                NotifyKind::Sound => {
                    &&& action is Play || action is Nothing
                    &&& action is Play ==> sound_enabled && (message@ == "agent done"@ || message@
                        == "agent attention"@)
                    &&& sound_enabled && message@ == "agent done"@ ==> action == NotifyAction::Play(
                        Sound::Done,
                    )
                    &&& sound_enabled && message@ == "agent attention"@ ==> action
                        == NotifyAction::Play(Sound::Request)
                },
                NotifyKind::Toast => action is ShowInTerminal && action->ShowInTerminal_message
                    == message && action->ShowInTerminal_body == body,
                NotifyKind::SystemToast => action is ShowOnDesktop && action->ShowOnDesktop_message
                    == message && action->ShowOnDesktop_body == body,
            }
        }),
{
    reveal_strlit("agent done");
    reveal_strlit("agent attention");
    assert("agent done"@.len() != "agent attention"@.len());
}

/// A title is written as it is, but for the three characters that would end it, each of which is
/// left out; the window of a client without a title is called by the program's name.
pub proof fn law_titles_are_written_as_they_are(a: Seq<char>, c: char, title: Seq<char>)
    ensures
        safe_title(a.push(c)) == (if c == '\u{1b}' || c == '\u{7}' || c == '\u{9c}' {
            safe_title(a)
        } else {
            safe_title(a).push(c)
        }),
        safe_title(Seq::empty()) == Seq::<char>::empty(),
        title_bytes(Some(title)) == seq![27u8, 93u8, 48u8, 59u8] + vstd::utf8::encode_utf8(
            safe_title(title),
        ) + seq![7u8],
        title_bytes(None) == title_bytes(Some("herdr"@)),
{
    reveal(Seq::filter);
    assert(a.push(c).drop_last() =~= a);
    reveal_strlit("\x1b]0;");
    reveal_strlit("\x07");
    vstd::utf8::is_ascii_chars_encode_utf8("\x1b]0;"@);
    vstd::utf8::is_ascii_chars_encode_utf8("\x07"@);
    assert(text::utf8("\x1b]0;") =~= seq![27u8, 93u8, 48u8, 59u8]);
    assert(text::utf8("\x07") =~= seq![7u8]);
}

/// An empty paste asks a remote client for the image in the clipboard, whatever the keys are; and
/// so does, where one is configured, a single press of the paste key. Nothing else does.
pub proof fn law_what_asks_for_the_image(
    data: Seq<u8>,
    is_remote_client: bool,
    key_configured: bool,
    events: Seq<PasteKeyEvent>,
)
    ensures
        ({
            let empty_paste = seq![27u8, 91, 50, 48, 48, 126, 27, 91, 50, 48, 49, 126];
            let bridges = spec_should_bridge(data, is_remote_client, key_configured, events);
            &&& data == empty_paste ==> bridges == is_remote_client
            &&& data != empty_paste ==> bridges == (key_configured && events.len() == 1
                && events[0] is Key && events[0]->kind is Press && events[0]->matches_paste_key)
        }),
{
    reveal_strlit("\x1b[200~\x1b[201~");
    vstd::utf8::is_ascii_chars_encode_utf8("\x1b[200~\x1b[201~"@);
    assert(text::utf8("\x1b[200~\x1b[201~") =~= seq![
        27u8,
        91,
        50,
        48,
        48,
        126,
        27,
        91,
        50,
        48,
        49,
        126,
    ]);
}

/// What is typed into a full client goes on as it is, and the cell size that the terminal reported
/// last, if any, comes along in one number.
pub proof fn law_a_full_client_sends_what_is_typed(
    state: StateView,
    bytes: Vec<u8>,
    events: Seq<RawInputEvent>,
    outcome: InputOutcome,
)
    requires
        state.attach is None,
        input_leads_to(state, FilteredInput::Bytes(bytes), events, outcome),
    ensures
        outcome.step is Offer,
        outcome.step->Offer_0@ == bytes@,
        outcome.reported_cell_size is Some <==> geometry::last_reported(events) is Some,
        geometry::last_reported(events) matches Some((width_px, height_px)) ==> {
            &&& outcome.reported_cell_size->0 / 0x1_0000_0000 == width_px
            &&& outcome.reported_cell_size->0 % 0x1_0000_0000 == height_px
        },
{
}

/// In a direct attach the wheel and the page keys send a request to scroll their way, and what
/// neither scrolls nor detaches goes on as it is typed. A request to detach is sent and ends the
/// client.
pub proof fn law_an_attached_client_scrolls(
    state: StateView,
    bytes: Vec<u8>,
    events: Seq<RawInputEvent>,
    outcome: InputOutcome,
)
    requires
        state.attach is Some,
        bytes@.len() > 0,
        input_leads_to(state, FilteredInput::Bytes(bytes), events, outcome),
    ensures
        outcome.reported_cell_size is None,
        events.len() == 1 && events[0] is Mouse && !(events[0]->Mouse_kind is Other) ==> {
            &&& outcome.step is Send
            &&& outcome.step->Send_0@ is AttachScroll
            &&& outcome.step->Send_0@->AttachScroll_direction is Up
                <==> events[0]->Mouse_kind is ScrollUp
            &&& outcome.step->Send_0@->AttachScroll_column == Some(events[0]->column)
            &&& outcome.step->Send_0@->AttachScroll_row == Some(events[0]->row)
        },
        events.len() != 1 ==> outcome.step is Offer && outcome.step->Offer_0@ == bytes@,
        forall|other: InputOutcome| #[trigger]
            input_leads_to(state, FilteredInput::Detach, events, other) ==> other.step
                == InputStep::SendAndStop(ClientMessage::Detach),
{
}

/// A scene's graphics wait behind those of the same surface, and the other surfaces keep theirs.
pub proof fn law_scenes_wait_in_line(state: StateView, surface: SceneSurface, graphics: Seq<u8>)
    ensures
        ({
            let after = with_scene(state, surface, graphics);
            &&& after.card == (if surface is Cards {
                state.card + graphics
            } else {
                state.card
            })
            &&& after.tray == (if surface is SignalTray {
                state.tray + graphics
            } else {
                state.tray
            })
            &&& after.background == (if surface is Background {
                state.background + graphics
            } else {
                state.background
            })
            &&& after == (StateView {
                card: after.card,
                tray: after.tray,
                background: after.background,
                ..state
            })
        }),
{
}

/// The cursor is drawn where the mode says so, left alone where it says so, and otherwise as suits
/// the platform. Scenes are drawn against the cell that was reported, if it can be one, and against
/// the assumed one if it cannot; where nothing was reported nothing is assumed.
pub proof fn law_cursor_and_cell(by_default: bool, width_px: u32, height_px: u32)
    ensures
        draws_cursor(HostCursorMode::Drawn, by_default),
        !draws_cursor(HostCursorMode::Native, by_default),
        draws_cursor(HostCursorMode::Auto, by_default) == by_default,
        ({
            let cell = drawing_cell(width_px, height_px);
            let reported = HostCellSize { width_px, height_px };
            &&& reported.plausible() ==> cell == reported
            &&& width_px == 0 || height_px == 0 ==> cell == reported
            &&& width_px > 0 && height_px > 0 && !reported.plausible() ==> cell == (HostCellSize {
                width_px: 8,
                height_px: 16,
            })
        }),
{
}

} // verus!
