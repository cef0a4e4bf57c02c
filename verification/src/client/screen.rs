//! Setting the host terminal up for the client, and putting it back.

use crate::text;
use crate::text::{eq_ignore_ascii_case, push_text};
use vstd::prelude::*;

verus! {

/// Whether the cursor is drawn into the cells or left to the terminal.
#[derive(Debug, Clone, Copy, PartialEq, Eq, Structural)]
pub enum HostCursorMode {
    Auto,
    Native,
    Drawn,
}

/// Whether the client draws the cursor itself, `by_default` being what suits the platform.
pub fn should_draw_host_cursor(mode: HostCursorMode, by_default: bool) -> (draw: bool)
    ensures
        draw == match mode {
            HostCursorMode::Auto => by_default,
            HostCursorMode::Native => false,
            HostCursorMode::Drawn => true,
        },
{
    match mode {
        HostCursorMode::Auto => by_default,
        HostCursorMode::Native => false,
        HostCursorMode::Drawn => true,
    }
}

/// The bit of a console's input mode that has it send escape sequences.
pub const ENABLE_VIRTUAL_TERMINAL_INPUT: u32 = 0x0200;

/// A console's input mode with escape sequences on, all else being as it was.
pub fn windows_virtual_terminal_input_mode(mode: u32) -> (with_sequences: u32)
    ensures
        with_sequences == mode | 0x0200,
        with_sequences & 0x0200 != 0,
        with_sequences & !0x0200u32 == mode & !0x0200u32,
{
    assert((mode | 0x0200u32) & 0x0200u32 != 0 && (mode | 0x0200u32) & !0x0200u32 == mode
        & !0x0200u32) by (bit_vector);
    mode | ENABLE_VIRTUAL_TERMINAL_INPUT
}

/// How the console's input mode came out.
#[derive(Debug, Clone, Copy, PartialEq, Eq, Structural)]
pub struct WindowsVirtualTerminalInputSetup {
    pub active: bool,
    pub restore_mode: Option<u32>,
}

/// What to do about the console's input mode.
#[derive(Debug, Clone, Copy, PartialEq, Eq, Structural)]
pub enum WindowsInputStep {
    /// Nothing is left to do.
    Done(WindowsVirtualTerminalInputSetup),
    /// Set this mode, then read it back.
    Apply(u32),
    /// Put the old mode back and do without.
    PutBack(u32),
}

/// The first step, from the mode that was read; none could be read where there is no console.
pub fn windows_input_first_step(mode: Option<u32>) -> (step: WindowsInputStep)
    ensures
        match mode {
            None => step == WindowsInputStep::Done(
                WindowsVirtualTerminalInputSetup { active: false, restore_mode: None },
            ),
            Some(mode) => if mode | 0x0200 == mode {
                step == WindowsInputStep::Done(
                    WindowsVirtualTerminalInputSetup { active: true, restore_mode: None },
                )
            } else {
                step == WindowsInputStep::Apply(mode | 0x0200)
            },
        },
{
    match mode {
        None => WindowsInputStep::Done(
            WindowsVirtualTerminalInputSetup { active: false, restore_mode: None },
        ),
        Some(mode) => {
            let desired: u32 = windows_virtual_terminal_input_mode(mode);
            if desired == mode {
                WindowsInputStep::Done(
                    WindowsVirtualTerminalInputSetup { active: true, restore_mode: None },
                )
            } else {
                WindowsInputStep::Apply(desired)
            }
        },
    }
}

/// The step after a mode was set over `mode`: whether the call succeeded, and what was read back.
pub fn windows_input_second_step(mode: u32, set: bool, applied: Option<u32>) -> (step:
    WindowsInputStep)
    ensures
        step == (if !set {
            WindowsInputStep::Done(
                WindowsVirtualTerminalInputSetup { active: false, restore_mode: None },
            )
        } else if applied is Some && applied->0 & 0x0200 != 0 {
            WindowsInputStep::Done(
                WindowsVirtualTerminalInputSetup { active: true, restore_mode: Some(mode) },
            )
        } else {
            WindowsInputStep::PutBack(mode)
        }),
{
    if !set {
        return WindowsInputStep::Done(
            WindowsVirtualTerminalInputSetup { active: false, restore_mode: None },
        );
    }
    if let Some(applied) = applied {
        if applied & ENABLE_VIRTUAL_TERMINAL_INPUT != 0 {
            return WindowsInputStep::Done(
                WindowsVirtualTerminalInputSetup { active: true, restore_mode: Some(mode) },
            );
        }
    }
    WindowsInputStep::PutBack(mode)
}

/// Whether a Windows client reads escape sequences: unless another backend is named.
pub fn windows_vti_input_backend_enabled(setting: Option<&str>) -> (enabled: bool)
    ensures
        enabled == !(setting is Some && text::same_ignoring_ascii_case(
            setting->0@,
            "crossterm"@,
        )),
{
    match setting {
        Some(backend) => !eq_ignore_ascii_case(backend, "crossterm"),
        None => true,
    }
}

/// Whether a Windows client asks for whole key records: unless another probe is named.
pub fn windows_win32_input_mode_enabled(setting: Option<&str>) -> (enabled: bool)
    ensures
        enabled == (setting is None || text::same_ignoring_ascii_case(setting->0@, "win32"@)),
{
    match setting {
        Some(probe) => eq_ignore_ascii_case(probe, "win32"),
        None => true,
    }
}

/// What a Windows client is to do about its input.
#[derive(Debug, Clone, Copy, PartialEq, Eq, Structural)]
pub struct WindowsInput {
    pub vti: bool,
    pub win32_mode: bool,
}

/// One thing that is done to the host terminal.
#[derive(Debug, Clone, Copy, PartialEq, Eq, Structural)]
pub enum TerminalStep {
    EnterScreen,
    ClearMouseReporting,
    MouseCapture(bool),
    PasteAndFocusReports,
    ColorSchemeReports(bool),
    PushKeyboardFlags,
    /// Escape sequences as console input and, where that took and it is wanted, key records.
    WindowsInput { win32_mode: bool },
    ModifyOtherKeys,
    DisableLineWrap,
    DeleteGraphics,
    ResetModifyOtherKeys,
    PopKeyboardFlags,
    /// Line wrap on; focus reports, paste brackets and mouse capture off.
    LeaveReports,
    WindowsInputMode(u32),
    LeaveScreen,
    RestorePostlude { reset_host_color_scheme_reports: bool },
    Win32InputModeOff,
}

/// What has to be undone at the end.
#[derive(Debug, Clone, Copy, PartialEq, Eq, Structural)]
pub struct TerminalGuardFlags {
    pub reset_modify_other_keys: bool,
    pub reset_host_color_scheme_reports: bool,
}

/// Whether the terminal is to report changes of its colour scheme: only to a full client, and
/// only where the report can be read.
pub fn should_enable_host_color_scheme_reports(enable_client_protocols: bool, windows: bool) -> (enabled:
    bool)
    ensures
        enabled == (enable_client_protocols && !windows),
{
    enable_client_protocols && crate::client::startup::should_query_host_terminal(windows)
}

/// How the terminal is set up. A full client has its reports and keyboard flags switched on; a
/// direct attach forwards what is typed and only captures the mouse.
pub open spec fn spec_setup_steps(
    enable_client_protocols: bool,
    mouse_capture: bool,
    windows: Option<WindowsInput>,
    modify_other_keys: bool,
) -> Seq<TerminalStep> {
    let opening = seq![TerminalStep::EnterScreen, TerminalStep::ClearMouseReporting];
    let color_reports = if windows is None {
        seq![TerminalStep::ColorSchemeReports(enable_client_protocols)]
    } else {
        seq![]
    };
    let protocols = if enable_client_protocols {
        seq![TerminalStep::MouseCapture(mouse_capture), TerminalStep::PasteAndFocusReports]
            + color_reports + seq![TerminalStep::PushKeyboardFlags]
    } else {
        color_reports + seq![TerminalStep::MouseCapture(mouse_capture)]
    };
    let windows_input = if enable_client_protocols && windows is Some && windows->0.vti {
        seq![TerminalStep::WindowsInput { win32_mode: windows->0.win32_mode }]
    } else {
        seq![]
    };
    let other_keys = if enable_client_protocols && modify_other_keys {
        seq![TerminalStep::ModifyOtherKeys]
    } else {
        seq![]
    };
    opening + protocols + windows_input + other_keys + seq![TerminalStep::DisableLineWrap]
}

pub open spec fn spec_guard_flags(
    enable_client_protocols: bool,
    windows: Option<WindowsInput>,
    modify_other_keys: bool,
) -> TerminalGuardFlags {
    TerminalGuardFlags {
        reset_modify_other_keys: enable_client_protocols && modify_other_keys,
        reset_host_color_scheme_reports: enable_client_protocols && windows is None,
    }
}

/// The steps that set the terminal up, and what they leave to be undone. `windows` is missing
/// elsewhere; `modify_other_keys` says that the terminal has such a mode.
pub fn setup_steps(
    enable_client_protocols: bool,
    mouse_capture: bool,
    windows: Option<WindowsInput>,
    modify_other_keys: bool,
) -> (setup: (Vec<TerminalStep>, TerminalGuardFlags))
    ensures
        setup.0@ == spec_setup_steps(
            enable_client_protocols,
            mouse_capture,
            windows,
            modify_other_keys,
        ),
        setup.1 == spec_guard_flags(enable_client_protocols, windows, modify_other_keys),
{
    let mut steps: Vec<TerminalStep> = Vec::new();
    steps.push(TerminalStep::EnterScreen);
    steps.push(TerminalStep::ClearMouseReporting);
    let is_windows: bool = windows.is_some();
    let reports = should_enable_host_color_scheme_reports(enable_client_protocols, is_windows);
    if enable_client_protocols {
        steps.push(TerminalStep::MouseCapture(mouse_capture));
        steps.push(TerminalStep::PasteAndFocusReports);
        if reports {
            steps.push(TerminalStep::ColorSchemeReports(true));
        }
        steps.push(TerminalStep::PushKeyboardFlags);
        if let Some(input) = windows {
            if input.vti {
                steps.push(TerminalStep::WindowsInput { win32_mode: input.win32_mode });
            }
        }
        if modify_other_keys {
            steps.push(TerminalStep::ModifyOtherKeys);
        }
    } else {
        if crate::client::startup::should_query_host_terminal(is_windows) {
            steps.push(TerminalStep::ColorSchemeReports(false));
        }
        steps.push(TerminalStep::MouseCapture(mouse_capture));
    }
    steps.push(TerminalStep::DisableLineWrap);
    assert(steps@ =~= spec_setup_steps(
        enable_client_protocols,
        mouse_capture,
        windows,
        modify_other_keys,
    ));
    (
        steps,
        TerminalGuardFlags {
            reset_modify_other_keys: enable_client_protocols && modify_other_keys,
            reset_host_color_scheme_reports: reports,
        },
    )
}

/// How the terminal is put back.
pub open spec fn spec_restore_steps(
    flags: TerminalGuardFlags,
    windows: Option<WindowsInput>,
    restore_windows_input_mode: Option<u32>,
) -> Seq<TerminalStep> {
    let other_keys = if flags.reset_modify_other_keys {
        seq![TerminalStep::ResetModifyOtherKeys]
    } else {
        seq![]
    };
    let console = match restore_windows_input_mode {
        Some(mode) => seq![TerminalStep::WindowsInputMode(mode)],
        None => seq![],
    };
    let key_records = if windows is Some && windows->0.vti && windows->0.win32_mode {
        seq![TerminalStep::Win32InputModeOff]
    } else {
        seq![]
    };
    seq![TerminalStep::DeleteGraphics] + other_keys + seq![
        TerminalStep::PopKeyboardFlags,
        TerminalStep::LeaveReports,
        TerminalStep::ClearMouseReporting,
    ] + console + seq![
        TerminalStep::LeaveScreen,
        TerminalStep::RestorePostlude {
            reset_host_color_scheme_reports: flags.reset_host_color_scheme_reports,
        },
    ] + key_records
}

pub fn restore_steps(
    flags: TerminalGuardFlags,
    windows: Option<WindowsInput>,
    restore_windows_input_mode: Option<u32>,
) -> (steps: Vec<TerminalStep>)
    ensures
        steps@ == spec_restore_steps(flags, windows, restore_windows_input_mode),
{
    let mut steps: Vec<TerminalStep> = Vec::new();
    steps.push(TerminalStep::DeleteGraphics);
    if flags.reset_modify_other_keys {
        steps.push(TerminalStep::ResetModifyOtherKeys);
    }
    steps.push(TerminalStep::PopKeyboardFlags);
    steps.push(TerminalStep::LeaveReports);
    steps.push(TerminalStep::ClearMouseReporting);
    if let Some(mode) = restore_windows_input_mode {
        steps.push(TerminalStep::WindowsInputMode(mode));
    }
    steps.push(TerminalStep::LeaveScreen);
    steps.push(
        TerminalStep::RestorePostlude {
            reset_host_color_scheme_reports: flags.reset_host_color_scheme_reports,
        },
    );
    if let Some(input) = windows {
        if input.vti && input.win32_mode {
            steps.push(TerminalStep::Win32InputModeOff);
        }
    }
    assert(steps@ =~= spec_restore_steps(flags, windows, restore_windows_input_mode));
    steps
}

/// Whatever mode the setup switches on, putting the terminal back switches off: the reports of
/// the colour scheme, the modified keys, the mouse and the keyboard flags.
pub proof fn law_restore_undoes_setup(
    enable_client_protocols: bool,
    mouse_capture: bool,
    windows: Option<WindowsInput>,
    modify_other_keys: bool,
    restore_windows_input_mode: Option<u32>,
)
    ensures
        ({
            let setup = spec_setup_steps(
                enable_client_protocols,
                mouse_capture,
                windows,
                modify_other_keys,
            );
            let restore = spec_restore_steps(
                spec_guard_flags(enable_client_protocols, windows, modify_other_keys),
                windows,
                restore_windows_input_mode,
            );
            &&& setup.contains(TerminalStep::ColorSchemeReports(true)) <==> restore.contains(
                TerminalStep::RestorePostlude { reset_host_color_scheme_reports: true },
            )
            &&& setup.contains(TerminalStep::ModifyOtherKeys) <==> restore.contains(
                TerminalStep::ResetModifyOtherKeys,
            )
            &&& restore.contains(TerminalStep::LeaveReports)
            &&& restore.contains(TerminalStep::PopKeyboardFlags)
            &&& restore.contains(TerminalStep::LeaveScreen)
        }),
{
    let setup = spec_setup_steps(
        enable_client_protocols,
        mouse_capture,
        windows,
        modify_other_keys,
    );
    let flags = spec_guard_flags(enable_client_protocols, windows, modify_other_keys);
    let restore = spec_restore_steps(flags, windows, restore_windows_input_mode);
    if enable_client_protocols && windows is None {
        assert(setup[4] == TerminalStep::ColorSchemeReports(true));
    }
    if flags.reset_modify_other_keys {
        assert(setup[setup.len() - 2] == TerminalStep::ModifyOtherKeys);
        assert(restore[1] == TerminalStep::ResetModifyOtherKeys);
    }
    let pop: int = if flags.reset_modify_other_keys {
        2
    } else {
        1
    };
    let console: int = if restore_windows_input_mode is Some {
        1
    } else {
        0
    };
    assert(restore[pop] == TerminalStep::PopKeyboardFlags);
    assert(restore[pop + 1] == TerminalStep::LeaveReports);
    assert(restore[pop + console + 3] == TerminalStep::LeaveScreen);
    assert(restore[pop + console + 4] == TerminalStep::RestorePostlude {
        reset_host_color_scheme_reports: flags.reset_host_color_scheme_reports,
    });
}

/// The sequence that switches reports of the colour scheme on or off, `on` and `off` being the
/// terminal's own.
pub fn write_host_color_scheme_report_mode(enabled: bool, on: &str, off: &str) -> (bytes: Vec<u8>)
    ensures
        bytes@ == (if enabled {
            text::utf8(on)
        } else {
            text::utf8(off)
        }),
{
    let mut bytes: Vec<u8> = Vec::new();
    if enabled {
        push_text(&mut bytes, on);
        assert(bytes@ =~= text::utf8(on));
    } else {
        push_text(&mut bytes, off);
        assert(bytes@ =~= text::utf8(off));
    }
    bytes
}

/// The last bytes to the terminal: reports off where they were on, a visible cursor, and the
/// cursor's default shape. `reports_off` is the sequence that ends the reports.
pub fn write_terminal_restore_postlude(
    reset_host_color_scheme_reports: bool,
    reports_off: &str,
) -> (bytes: Vec<u8>)
    ensures
        bytes@ == (if reset_host_color_scheme_reports {
            text::utf8(reports_off)
        } else {
            seq![]
        }) + text::utf8("\x1b[?25h\x1b[0 q"),
{
    let mut bytes: Vec<u8> = Vec::new();
    if reset_host_color_scheme_reports {
        push_text(&mut bytes, reports_off);
    }
    push_text(&mut bytes, "\x1b[?25h\x1b[0 q");
    assert(bytes@ =~= (if reset_host_color_scheme_reports {
        text::utf8(reports_off)
    } else {
        seq![]
    }) + text::utf8("\x1b[?25h\x1b[0 q"));
    bytes
}

/// The sequence that takes modified keys back to their defaults.
pub const RESET_MODIFY_OTHER_KEYS: &'static str = "\x1b[>4;0m";

/// The sequences that switch whole key records on and off.
pub const WIN32_INPUT_MODE_ON: &'static str = "\x1b[?9001h";

pub const WIN32_INPUT_MODE_OFF: &'static str = "\x1b[?9001l";

/// The terminal is entered first and loses its line wrap last. In between the mouse is captured or
/// not as asked; a full client gets its reports and keyboard flags, a direct attach none of them,
/// and the reports of the colour scheme are told on or off wherever they can be read.
pub proof fn law_setup_does_what_is_asked(
    enable_client_protocols: bool,
    mouse_capture: bool,
    windows: Option<WindowsInput>,
    modify_other_keys: bool,
)
    ensures
        ({
            let setup = spec_setup_steps(
                enable_client_protocols,
                mouse_capture,
                windows,
                modify_other_keys,
            );
            &&& setup[0] is EnterScreen
            &&& setup.last() is DisableLineWrap
            &&& setup.contains(TerminalStep::MouseCapture(mouse_capture))
            &&& !setup.contains(TerminalStep::MouseCapture(!mouse_capture))
            &&& setup.contains(TerminalStep::PasteAndFocusReports) <==> enable_client_protocols
            &&& setup.contains(TerminalStep::PushKeyboardFlags) <==> enable_client_protocols
            &&& setup.contains(TerminalStep::ColorSchemeReports(true)) <==> enable_client_protocols
                && windows is None
            &&& setup.contains(TerminalStep::ColorSchemeReports(false))
                <==> !enable_client_protocols && windows is None
            &&& setup.contains(TerminalStep::ModifyOtherKeys) <==> enable_client_protocols
                && modify_other_keys
            &&& forall|win32_mode: bool| #[trigger]
                setup.contains(TerminalStep::WindowsInput { win32_mode })
                    <==> enable_client_protocols && windows is Some && windows->0.vti
                    && windows->0.win32_mode == win32_mode
        }),
{
    let setup = spec_setup_steps(
        enable_client_protocols,
        mouse_capture,
        windows,
        modify_other_keys,
    );
    let n: int = if windows is None {
        1
    } else {
        0
    };
    if enable_client_protocols {
        assert(setup[2] == TerminalStep::MouseCapture(mouse_capture));
        assert(setup[3] is PasteAndFocusReports);
        assert(n == 1 ==> setup[4] == TerminalStep::ColorSchemeReports(true));
        assert(setup[4 + n] is PushKeyboardFlags);
        if windows is Some && windows->0.vti {
            assert(setup[5 + n] == TerminalStep::WindowsInput {
                win32_mode: windows->0.win32_mode,
            });
        }
        if modify_other_keys {
            assert(setup[setup.len() - 2] is ModifyOtherKeys);
        }
    } else {
        assert(n == 1 ==> setup[2] == TerminalStep::ColorSchemeReports(false));
        assert(setup[2 + n] == TerminalStep::MouseCapture(mouse_capture));
    }
}

/// The terminal's graphics are deleted before anything else is put back, the screen is left when
/// its keyboard and its reports are, and only then comes what closes the session. The console gets
/// the mode back that it had, and whole key records end where they were asked for.
pub proof fn law_restore_comes_in_order(
    flags: TerminalGuardFlags,
    windows: Option<WindowsInput>,
    restore_windows_input_mode: Option<u32>,
)
    ensures
        ({
            let restore = spec_restore_steps(flags, windows, restore_windows_input_mode);
            let left = restore.index_of(TerminalStep::LeaveScreen);
            &&& restore[0] is DeleteGraphics
            &&& restore.contains(TerminalStep::LeaveScreen)
            &&& restore.take(left).contains(TerminalStep::PopKeyboardFlags)
            &&& restore.take(left).contains(TerminalStep::LeaveReports)
            &&& restore.take(left).contains(TerminalStep::ClearMouseReporting)
            &&& restore.take(left).contains(TerminalStep::ResetModifyOtherKeys)
                <==> flags.reset_modify_other_keys
            &&& forall|mode: u32| #[trigger]
                restore.take(left).contains(TerminalStep::WindowsInputMode(mode))
                    <==> restore_windows_input_mode == Some(mode)
            &&& restore[left + 1] == (TerminalStep::RestorePostlude {
                reset_host_color_scheme_reports: flags.reset_host_color_scheme_reports,
            })
            &&& restore.last() is Win32InputModeOff <==> windows is Some && windows->0.vti
                && windows->0.win32_mode
        }),
{
    let restore = spec_restore_steps(flags, windows, restore_windows_input_mode);
    let pop: int = if flags.reset_modify_other_keys {
        2
    } else {
        1
    };
    let console: int = if restore_windows_input_mode is Some {
        1
    } else {
        0
    };
    let left = pop + console + 3;
    assert(restore[left] is LeaveScreen);
    assert(restore[pop] is PopKeyboardFlags);
    assert(restore[pop + 1] is LeaveReports);
    assert(restore[pop + 2] is ClearMouseReporting);
    assert(pop == 2 ==> restore[1] is ResetModifyOtherKeys);
    assert(console == 1 ==> restore[pop + 3] == TerminalStep::WindowsInputMode(
        restore_windows_input_mode->0,
    ));
    assert(restore[left + 1] is RestorePostlude);
    let at = restore.index_of(TerminalStep::LeaveScreen);
    assert(restore.contains(TerminalStep::LeaveScreen));
    assert(at == left);
    let head = restore.take(left);
    assert(head[pop] is PopKeyboardFlags);
    assert(head[pop + 1] is LeaveReports);
    assert(head[pop + 2] is ClearMouseReporting);
    assert(pop == 2 ==> head[1] is ResetModifyOtherKeys);
    assert(console == 1 ==> head[pop + 3] == TerminalStep::WindowsInputMode(
        restore_windows_input_mode->0,
    ));
}

} // verus!
