//! What a client asks for and how it starts: the handshake and the settings that decide it.

use crate::client::error::ClientError;
use crate::client::geometry::Geometry;
use crate::client::protocol::{
    ClientKeybindings, ClientLaunchMode, ClientMessage, RenderEncoding,
};
use crate::kitty_graphics::terminal::HostTerminalReport;
use crate::text;
use crate::text::same_text;
use vstd::prelude::*;
use vstd::string::*;

verus! {

/// Seconds to wait for a local server's answer to Hello.
pub const LOCAL_HANDSHAKE_READ_TIMEOUT_SECS: u64 = 5;

/// Seconds to wait behind a connection that may still have to be made.
pub const REMOTE_HANDSHAKE_READ_TIMEOUT_SECS: u64 = 60;

/// The surfaces that the client draws itself, from scenes that the server sends.
#[derive(Debug, Clone, Copy, PartialEq, Eq, Structural)]
pub struct DelegatedScenes {
    pub cards: bool,
    pub signal_tray: bool,
    pub background_scene: bool,
}

impl DelegatedScenes {
    pub open spec fn any(self) -> bool {
        self.cards || self.signal_tray || self.background_scene
    }
}

/// Whether a surface is drawn by the client: as its setting says, else only on Windows in a
/// remote client.
pub open spec fn spec_wants_rasterized(
    setting: Option<&str>,
    windows: bool,
    remote_client: bool,
) -> bool {
    if setting is Some && (setting->0@ == "1"@ || setting->0@ == "true"@) {
        true
    } else if setting is Some && (setting->0@ == "0"@ || setting->0@ == "false"@) {
        false
    } else {
        windows && remote_client
    }
}

pub fn wants_client_rasterized(setting: Option<&str>, windows: bool, remote_client: bool) -> (wants:
    bool)
    ensures
        wants == spec_wants_rasterized(setting, windows, remote_client),
{
    if let Some(value) = setting {
        if same_text(value, "1") || same_text(value, "true") {
            return true;
        }
        if same_text(value, "0") || same_text(value, "false") {
            return false;
        }
    }
    windows && remote_client
}

/// The encoding that is asked for. A setting decides where there is one; else a client that
/// draws a surface itself needs the encoding that can carry its pixels.
pub open spec fn spec_requested_encoding(
    setting: Option<&str>,
    scenes: DelegatedScenes,
) -> RenderEncoding {
    match setting {
        Some(value) => if value@ == "terminal-ansi"@ || value@ == "terminal_ansi"@ || value@
            == "ansi"@ {
            RenderEncoding::TerminalAnsi
        } else {
            RenderEncoding::SemanticFrame
        },
        None => if scenes.any() {
            RenderEncoding::TerminalAnsi
        } else {
            RenderEncoding::SemanticFrame
        },
    }
}

pub fn requested_render_encoding(setting: Option<&str>, scenes: DelegatedScenes) -> (encoding:
    RenderEncoding)
    ensures
        encoding == spec_requested_encoding(setting, scenes),
{
    match setting {
        Some(value) => {
            if same_text(value, "terminal-ansi") || same_text(value, "terminal_ansi") || same_text(
                value,
                "ansi",
            ) {
                RenderEncoding::TerminalAnsi
            } else {
                RenderEncoding::SemanticFrame
            }
        },
        None => {
            if scenes.cards || scenes.signal_tray || scenes.background_scene {
                RenderEncoding::TerminalAnsi
            } else {
                RenderEncoding::SemanticFrame
            }
        },
    }
}

/// Whether the scenes that the client draws are lost in the encoding that was agreed on.
pub fn encoding_cannot_carry_delegated_scenes(
    encoding: RenderEncoding,
    scenes: DelegatedScenes,
) -> (lost: bool)
    ensures
        lost == (encoding == RenderEncoding::SemanticFrame && scenes.any()),
{
    encoding == RenderEncoding::SemanticFrame && (scenes.cards || scenes.signal_tray
        || scenes.background_scene)
}

/// Without a setting, the encoding that is asked for carries whatever the client draws itself.
pub proof fn law_default_encoding_carries_scenes(scenes: DelegatedScenes)
    ensures
        !(spec_requested_encoding(None, scenes) == RenderEncoding::SemanticFrame && scenes.any()),
{
}

/// How many seconds to wait for the answer to Hello.
pub fn handshake_read_timeout_secs(unix: bool, remote_client: bool) -> (seconds: u64)
    ensures
        seconds == (if unix && remote_client {
            60u64
        } else {
            5
        }),
{
    if unix && remote_client {
        REMOTE_HANDSHAKE_READ_TIMEOUT_SECS
    } else {
        LOCAL_HANDSHAKE_READ_TIMEOUT_SECS
    }
}

/// Whose key bindings are asked for: the local profile where the setting says so and there is
/// one, else the server's.
pub fn requested_keybindings(setting: Option<&str>, local_profile: Option<String>) -> (keybindings:
    ClientKeybindings)
    ensures
        keybindings == (if setting is Some && setting->0@ == "local"@ && local_profile is Some {
            (ClientKeybindings::Local { keys_toml: local_profile->0 })
        } else {
            ClientKeybindings::Server
        }),
{
    if let Some(value) = setting {
        if same_text(value, "local") {
            if let Some(keys_toml) = local_profile {
                return ClientKeybindings::Local { keys_toml };
            }
        }
    }
    ClientKeybindings::Server
}

/// The first message to the server.
pub fn hello(
    version: u32,
    geometry: Geometry,
    requested_encoding: RenderEncoding,
    keybindings: ClientKeybindings,
    direct_attach_requested: bool,
    host_terminal: HostTerminalReport,
    scenes: DelegatedScenes,
) -> (message: ClientMessage)
    ensures
        message == (ClientMessage::Hello {
            version,
            cols: geometry.0,
            rows: geometry.1,
            cell_width_px: geometry.2,
            cell_height_px: geometry.3,
            requested_encoding,
            keybindings,
            launch_mode: if direct_attach_requested {
                ClientLaunchMode::TerminalAttach
            } else {
                ClientLaunchMode::App
            },
            host_terminal,
            wants_client_rasterized_cards: scenes.cards,
            wants_client_rasterized_signal_tray: scenes.signal_tray,
            wants_client_rasterized_background_scene: scenes.background_scene,
        }),
{
    ClientMessage::Hello {
        version,
        cols: geometry.0,
        rows: geometry.1,
        cell_width_px: geometry.2,
        cell_height_px: geometry.3,
        requested_encoding,
        keybindings,
        launch_mode: if direct_attach_requested {
            ClientLaunchMode::TerminalAttach
        } else {
            ClientLaunchMode::App
        },
        host_terminal,
        wants_client_rasterized_cards: scenes.cards,
        wants_client_rasterized_signal_tray: scenes.signal_tray,
        wants_client_rasterized_background_scene: scenes.background_scene,
    }
}

/// The server's answer to Hello, as far as the handshake depends on it.
#[derive(Debug)]
pub enum HandshakeReply {
    Welcome { version: u32, encoding: RenderEncoding, error: Option<String> },
    Other,
}

/// What the answer to Hello means: the encoding that was agreed on, or why there is none.
pub fn handshake_outcome(reply: HandshakeReply) -> (outcome: Result<RenderEncoding, ClientError>)
    ensures
        match reply {
            HandshakeReply::Welcome { version, encoding, error } => match error {
                Some(error) => outcome == Err::<RenderEncoding, ClientError>(
                    ClientError::HandshakeRejected { version, error },
                ),
                None => outcome == Ok::<RenderEncoding, ClientError>(encoding),
            },
            HandshakeReply::Other => outcome is Err && outcome->Err_0 is Protocol
                && outcome->Err_0->Protocol_0@ == "expected Welcome message"@,
        },
{
    match reply {
        HandshakeReply::Welcome { version, encoding, error } => match error {
            Some(error) => Err(ClientError::HandshakeRejected { version, error }),
            None => Ok(encoding),
        },
        HandshakeReply::Other => Err(
            ClientError::Protocol("expected Welcome message".to_owned()),
        ),
    }
}

/// Why a terminal session cannot use the encoding that was agreed on.
pub fn session_encoding_error(encoding: RenderEncoding) -> (error: Option<String>)
    ensures
        match encoding {
            RenderEncoding::TerminalAnsi => error is None,
            RenderEncoding::SemanticFrame => error is Some && error->0@
                == "terminal session observe negotiated unsupported encoding SemanticFrame"@,
        },
{
    match encoding {
        RenderEncoding::TerminalAnsi => None,
        RenderEncoding::SemanticFrame => Some(
            "terminal session observe negotiated unsupported encoding SemanticFrame".to_owned(),
        ),
    }
}

/// Whether the client may write graphics: where they are configured, and it is no direct attach.
pub fn kitty_graphics_allowed(configured: bool, direct_attach_requested: bool) -> (allowed: bool)
    ensures
        allowed == (configured && !direct_attach_requested),
{
    configured && !direct_attach_requested
}

/// The font that cards are drawn with, where one is named.
pub fn card_font_override(configured: &str) -> (font: Option<String>)
    ensures
        match font {
            Some(font) => font@ == text::trimmed(configured@) && font@.len() > 0,
            None => text::trimmed(configured@).len() == 0,
        },
{
    let chars = text::chars_of(configured);
    let trimmed = text::trim(chars.as_slice());
    if trimmed.len() == 0 {
        None
    } else {
        Some(text::string_of(trimmed))
    }
}

/// The largest message that is accepted from the server.
pub fn max_message_size(
    kitty_graphics_enabled: bool,
    max_frame_size: usize,
    max_graphics_frame_size: usize,
) -> (size: usize)
    ensures
        size == (if kitty_graphics_enabled {
            max_graphics_frame_size
        } else {
            max_frame_size
        }),
{
    if kitty_graphics_enabled {
        max_graphics_frame_size
    } else {
        max_frame_size
    }
}

/// What the host terminal is asked when the client starts.
#[derive(Debug, Clone, Copy, PartialEq, Eq, Structural)]
pub enum HostQuery {
    Theme,
    CellSize,
    KittyGraphicsCapability,
    TerminalVersion,
}

/// Whether an answer to a question about the theme or the version can reach the server.
pub fn should_query_host_terminal(windows: bool) -> (asked: bool)
    ensures
        asked == !windows,
{
    !windows
}

/// The questions in their order. A direct attach asks none.
pub open spec fn spec_startup_queries(
    direct_attach: bool,
    kitty_graphics_enabled: bool,
    windows: bool,
) -> Seq<HostQuery> {
    let theme = if !windows {
        seq![HostQuery::Theme]
    } else {
        seq![]
    };
    let graphics = if kitty_graphics_enabled {
        seq![HostQuery::CellSize, HostQuery::KittyGraphicsCapability]
    } else {
        seq![]
    };
    let version = if kitty_graphics_enabled && !windows {
        seq![HostQuery::TerminalVersion]
    } else {
        seq![]
    };
    if direct_attach {
        seq![]
    } else {
        theme + graphics + version
    }
}

pub fn startup_queries(direct_attach: bool, kitty_graphics_enabled: bool, windows: bool) -> (queries:
    Vec<HostQuery>)
    ensures
        queries@ == spec_startup_queries(direct_attach, kitty_graphics_enabled, windows),
{
    let mut queries: Vec<HostQuery> = Vec::new();
    if !direct_attach {
        if should_query_host_terminal(windows) {
            queries.push(HostQuery::Theme);
        }
        if crate::client::geometry::host_cell_size_query_required(kitty_graphics_enabled) {
            queries.push(HostQuery::CellSize);
            queries.push(HostQuery::KittyGraphicsCapability);
            if should_query_host_terminal(windows) {
                queries.push(HostQuery::TerminalVersion);
            }
        }
    }
    assert(queries@ =~= spec_startup_queries(direct_attach, kitty_graphics_enabled, windows));
    queries
}

/// A surface is drawn by the client where its setting says yes, by the server where it says no; any
/// other setting is none, and then only a remote client on Windows draws.
pub proof fn law_settings_decide_who_draws(setting: Option<&str>, windows: bool, remote_client: bool)
    ensures
        ({
            let wants = spec_wants_rasterized(setting, windows, remote_client);
            let yes = setting is Some && (setting->0@ == seq!['1'] || setting->0@
                == seq!['t', 'r', 'u', 'e']);
            let no = setting is Some && (setting->0@ == seq!['0'] || setting->0@
                == seq!['f', 'a', 'l', 's', 'e']);
            &&& yes ==> wants
            &&& no ==> !wants
            &&& !yes && !no ==> wants == (windows && remote_client)
        }),
{
    reveal_strlit("1");
    reveal_strlit("0");
    reveal_strlit("true");
    reveal_strlit("false");
    assert("1"@ =~= seq!['1']);
    assert("0"@ =~= seq!['0']);
    assert("true"@ =~= seq!['t', 'r', 'u', 'e']);
    assert("false"@ =~= seq!['f', 'a', 'l', 's', 'e']);
    assert("0"@[0] != "1"@[0]);
}

/// A setting decides the encoding alone, and so do, without one, the surfaces that the client draws:
/// it takes just one of them.
pub proof fn law_settings_decide_the_encoding(
    setting: Option<&str>,
    scenes: DelegatedScenes,
    other: DelegatedScenes,
)
    ensures
        setting is Some ==> spec_requested_encoding(setting, scenes) == spec_requested_encoding(
            setting,
            other,
        ),
        setting is Some && (setting->0@ == "terminal-ansi"@ || setting->0@ == "terminal_ansi"@
            || setting->0@ == "ansi"@) <==> setting is Some && spec_requested_encoding(
            setting,
            scenes,
        ) is TerminalAnsi,
        spec_requested_encoding(None, scenes) is TerminalAnsi <==> scenes.cards
            || scenes.signal_tray || scenes.background_scene,
{
}

/// A direct attach asks the terminal nothing. Any other client asks for the theme and the version
/// where an answer can reach the server, and for the cell size and the graphics where it has
/// graphics, the version only with them; each once, the theme first and the version last.
pub proof fn law_what_is_asked_at_the_start(
    direct_attach: bool,
    kitty_graphics_enabled: bool,
    windows: bool,
)
    ensures
        ({
            let asked = spec_startup_queries(direct_attach, kitty_graphics_enabled, windows);
            &&& asked.no_duplicates()
            &&& asked.contains(HostQuery::Theme) <==> !direct_attach && !windows
            &&& asked.contains(HostQuery::CellSize) <==> !direct_attach && kitty_graphics_enabled
            &&& asked.contains(HostQuery::KittyGraphicsCapability) <==> !direct_attach
                && kitty_graphics_enabled
            &&& asked.contains(HostQuery::TerminalVersion) <==> !direct_attach
                && kitty_graphics_enabled && !windows
            &&& asked.contains(HostQuery::Theme) ==> asked[0] is Theme
            &&& asked.contains(HostQuery::TerminalVersion) ==> asked.last() is TerminalVersion
        }),
{
    let asked = spec_startup_queries(direct_attach, kitty_graphics_enabled, windows);
    if !direct_attach {
        if kitty_graphics_enabled && !windows {
            assert(asked =~= seq![
                HostQuery::Theme,
                HostQuery::CellSize,
                HostQuery::KittyGraphicsCapability,
                HostQuery::TerminalVersion,
            ]);
            assert(asked[0] is Theme && asked[1] is CellSize && asked[2] is KittyGraphicsCapability
                && asked[3] is TerminalVersion);
        } else if kitty_graphics_enabled {
            assert(asked =~= seq![HostQuery::CellSize, HostQuery::KittyGraphicsCapability]);
            assert(asked[0] is CellSize && asked[1] is KittyGraphicsCapability);
        } else if !windows {
            assert(asked =~= seq![HostQuery::Theme]);
            assert(asked[0] is Theme);
        } else {
            assert(asked.len() == 0);
        }
    }
}

} // verus!
