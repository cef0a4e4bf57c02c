//! What the host terminal is, and which pixel format suits it.

use crate::kitty_graphics::model::{KittyImageFormat, PaneGraphicsFormat};
use crate::text;
use crate::text::eq_ignore_ascii_case;
use vstd::prelude::*;

verus! {

/// The terminal emulators that are told apart. A terminal that cannot be named for certain is
/// `Other`.
#[derive(Debug, Clone, Copy, PartialEq, Eq, Structural)]
pub enum HostTerminalKind {
    Kitty,
    Rio,
    Other,
}

impl Default for HostTerminalKind {
    fn default() -> (kind: Self)
        ensures
            kind == HostTerminalKind::Other,
    {
        HostTerminalKind::Other
    }
}

/// What a client tells of the terminal it runs in.
#[derive(Debug)]
pub struct HostTerminalReport {
    pub term_program: Option<String>,
    pub term: Option<String>,
    pub kitty_window_id_set: bool,
    pub is_local: bool,
}

/// Which terminal an environment belongs to: Rio by the program's name, in any case, before
/// Kitty by its window id or by the terminal type.
pub open spec fn spec_terminal_kind(
    term_program: Option<&str>,
    term: Option<&str>,
    kitty_window_id_set: bool,
) -> HostTerminalKind {
    if term_program is Some && text::same_ignoring_ascii_case(term_program->0@, "rio"@) {
        HostTerminalKind::Rio
    } else if kitty_window_id_set || (term is Some && term->0@ == "xterm-kitty"@) {
        HostTerminalKind::Kitty
    } else {
        HostTerminalKind::Other
    }
}

pub fn host_terminal_kind_for_env(
    term_program: Option<&str>,
    term: Option<&str>,
    kitty_window_id_set: bool,
) -> (kind: HostTerminalKind)
    ensures
        kind == spec_terminal_kind(term_program, term, kitty_window_id_set),
{
    if let Some(name) = term_program {
        if eq_ignore_ascii_case(name, "rio") {
            return HostTerminalKind::Rio;
        }
    }
    if kitty_window_id_set {
        return HostTerminalKind::Kitty;
    }
    if let Some(name) = term {
        if text::same_text(name, "xterm-kitty") {
            return HostTerminalKind::Kitty;
        }
    }
    HostTerminalKind::Other
}

/// Whether this process shares a file system with the terminal: only where nothing says that a
/// remote shell lies between them.
pub fn host_graphics_locality_for_env(
    ssh_tty: bool,
    ssh_connection: bool,
    ssh_client: bool,
) -> (local: bool)
    ensures
        local == (!ssh_tty && !ssh_connection && !ssh_client),
{
    !(ssh_tty || ssh_connection || ssh_client)
}

/// What the environment of a client says of its terminal.
pub fn host_terminal_report(
    term_program: Option<String>,
    term: Option<String>,
    kitty_window_id_set: bool,
    ssh_tty: bool,
    ssh_connection: bool,
    ssh_client: bool,
) -> (report: HostTerminalReport)
    ensures
        report.term_program == term_program,
        report.term == term,
        report.kitty_window_id_set == kitty_window_id_set,
        report.is_local == (!ssh_tty && !ssh_connection && !ssh_client),
{
    HostTerminalReport {
        term_program,
        term,
        kitty_window_id_set,
        is_local: host_graphics_locality_for_env(ssh_tty, ssh_connection, ssh_client),
    }
}

/// The raw pixel format that a terminal is fast at: RGBA for Rio, which would expand anything
/// else pixel by pixel, RGB for Kitty, for which it is merely smaller.
pub open spec fn spec_local_pixel_format(kind: HostTerminalKind) -> Option<KittyImageFormat> {
    match kind {
        HostTerminalKind::Rio => Some(KittyImageFormat::Rgba),
        HostTerminalKind::Kitty => Some(KittyImageFormat::Rgb),
        HostTerminalKind::Other => None,
    }
}

pub fn preferred_local_pixel_format(kind: HostTerminalKind) -> (format: Option<KittyImageFormat>)
    ensures
        format == spec_local_pixel_format(kind),
{
    match kind {
        HostTerminalKind::Rio => Some(KittyImageFormat::Rgba),
        HostTerminalKind::Kitty => Some(KittyImageFormat::Rgb),
        HostTerminalKind::Other => None,
    }
}

/// The format that the sidebar's cards are drawn in: PNG unless images travel by local file to a
/// terminal with a fast raw format, and RGB only for an opaque card, since it has no alpha.
pub fn preferred_card_pixel_format_for(
    local_transport_enabled: bool,
    is_local: bool,
    kind: HostTerminalKind,
    is_opaque: bool,
) -> (format: PaneGraphicsFormat)
    ensures
        format == (if !local_transport_enabled || !is_local {
            PaneGraphicsFormat::Png
        } else if kind == HostTerminalKind::Rio {
            PaneGraphicsFormat::Rgba
        } else if kind == HostTerminalKind::Kitty && is_opaque {
            PaneGraphicsFormat::Rgb
        } else {
            PaneGraphicsFormat::Png
        }),
{
    if !local_transport_enabled || !is_local {
        return PaneGraphicsFormat::Png;
    }
    match preferred_local_pixel_format(kind) {
        Some(KittyImageFormat::Rgba) => PaneGraphicsFormat::Rgba,
        Some(KittyImageFormat::Rgb) => if is_opaque {
            PaneGraphicsFormat::Rgb
        } else {
            PaneGraphicsFormat::Png
        },
        Some(KittyImageFormat::Png) | None => PaneGraphicsFormat::Png,
    }
}

/// A terminal is Rio exactly where the program is called so, in whatever case, and Kitty where it is
/// not Rio and a window id or the terminal type says so.
pub proof fn law_terminals_are_known_by_their_names(
    term_program: Option<&str>,
    term: Option<&str>,
    kitty_window_id_set: bool,
)
    ensures
        ({
            let kind = spec_terminal_kind(term_program, term, kitty_window_id_set);
            let rio = term_program is Some && {
                let name = term_program->0@;
                &&& name.len() == 3
                &&& name[0] == 'r' || name[0] == 'R'
                &&& name[1] == 'i' || name[1] == 'I'
                &&& name[2] == 'o' || name[2] == 'O'
            };
            &&& kind is Rio <==> rio
            &&& kind is Kitty <==> !rio && (kitty_window_id_set || (term is Some && term->0@
                == "xterm-kitty"@))
            &&& spec_local_pixel_format(kind) is None <==> kind is Other
            &&& kind is Rio ==> spec_local_pixel_format(kind) == Some(KittyImageFormat::Rgba)
            &&& kind is Kitty ==> spec_local_pixel_format(kind) == Some(KittyImageFormat::Rgb)
        }),
{
    reveal_strlit("rio");
    reveal_strlit("xterm-kitty");
    if let Some(program) = term_program {
        let name = program@;
        if name.len() == 3 {
            assert(text::same_ignoring_ascii_case(name, "rio"@) <==> text::ascii_lower(name[0])
                == 'r' && text::ascii_lower(name[1]) == 'i' && text::ascii_lower(name[2]) == 'o')
                by {
                assert("rio"@[0] == 'r' && "rio"@[1] == 'i' && "rio"@[2] == 'o');
            }
        }
    }
}

} // verus!
