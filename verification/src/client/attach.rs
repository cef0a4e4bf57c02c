//! Typing into a terminal that the client is attached to directly.
//!
//! Everything typed goes to the terminal, except for the escape key: after it, `q` detaches, the
//! key itself is sent once, and any other byte is sent behind it. The wheel and the plain page
//! keys scroll the view instead.

use crate::client::protocol::{
    AttachScrollDirection, AttachScrollSource, KeyCode, KeyEventKind, MouseEventKind,
    RawInputEvent, ScrollSourceView,
};
use vstd::prelude::*;

verus! {

/// Ctrl+B.
pub const PREFIX: u8 = 0x02;

/// The letter that detaches.
pub const DETACH_KEY: u8 = 113;

/// Whether the escape key was the last byte typed.
#[derive(Debug, Clone, Copy, PartialEq, Eq, Structural)]
pub struct AttachEscapeState {
    pub pending_prefix: bool,
}

impl Default for AttachEscapeState {
    fn default() -> (state: Self)
        ensures
            !state.pending_prefix,
    {
        AttachEscapeState { pending_prefix: false }
    }
}

/// What is left of typed bytes once the escape key is dealt with.
#[derive(Debug, PartialEq, Eq)]
pub enum FilteredInput {
    Bytes(Vec<u8>),
    Detach,
}

#[derive(Debug, PartialEq, Eq)]
pub enum AttachInputAction {
    Forward(Vec<u8>),
    Scroll {
        source: AttachScrollSource,
        direction: AttachScrollDirection,
        lines: u16,
        column: Option<u16>,
        row: Option<u16>,
        modifiers: u8,
    },
    Detach,
    Nothing,
}

/// An action by what it does.
pub ghost enum ActionView {
    Forward { data: Seq<u8> },
    Scroll {
        source: ScrollSourceView,
        direction: AttachScrollDirection,
        lines: u16,
        column: Option<u16>,
        row: Option<u16>,
        modifiers: u8,
    },
    Detach,
    Nothing,
}

impl View for AttachInputAction {
    type V = ActionView;

    open spec fn view(&self) -> ActionView {
        match self {
            AttachInputAction::Forward(data) => ActionView::Forward { data: data@ },
            AttachInputAction::Scroll { source, direction, lines, column, row, modifiers } => {
                ActionView::Scroll {
                    source: source@,
                    direction: *direction,
                    lines: *lines,
                    column: *column,
                    row: *row,
                    modifiers: *modifiers,
                }
            },
            AttachInputAction::Detach => ActionView::Detach,
            AttachInputAction::Nothing => ActionView::Nothing,
        }
    }
}

/// A moment of reading typed bytes: whether the escape key is pending, what goes on to the
/// terminal, and whether detaching was asked for.
pub ghost struct Filter {
    pub pending: bool,
    pub out: Seq<u8>,
    pub detach: bool,
}

/// One more byte. After a request to detach nothing more is read.
pub open spec fn filter_byte(f: Filter, byte: u8) -> Filter {
    if f.detach {
        f
    } else if f.pending {
        if byte == DETACH_KEY {
            Filter { pending: false, out: f.out, detach: true }
        } else if byte == PREFIX {
            Filter { pending: false, out: f.out.push(PREFIX), detach: false }
        } else {
            Filter { pending: false, out: f.out.push(PREFIX).push(byte), detach: false }
        }
    } else if byte == PREFIX {
        Filter { pending: true, out: f.out, detach: false }
    } else {
        Filter { pending: false, out: f.out.push(byte), detach: false }
    }
}

/// All of `data`, byte by byte.
pub open spec fn filter_bytes(f: Filter, data: Seq<u8>) -> Filter
    decreases data.len(),
{
    if data.len() == 0 {
        f
    } else {
        filter_byte(filter_bytes(f, data.drop_last()), data.last())
    }
}

/// What becomes of `data` typed when the escape key is pending or not.
pub open spec fn filtered(pending: bool, data: Seq<u8>) -> Filter {
    filter_bytes(Filter { pending, out: Seq::empty(), detach: false }, data)
}

impl AttachEscapeState {
    /// Deals with the escape key in what was typed.
    pub fn filter_input(&mut self, data: &[u8]) -> (input: FilteredInput)
        ensures
            ({
                let f = filtered(old(self).pending_prefix, data@);
                &&& final(self).pending_prefix == f.pending
                &&& match input {
                    FilteredInput::Bytes(bytes) => !f.detach && bytes@ == f.out,
                    FilteredInput::Detach => f.detach,
                }
            }),
    {
        let ghost start = Filter {
            pending: self.pending_prefix,
            out: Seq::empty(),
            detach: false,
        };
        let mut output: Vec<u8> = Vec::new();
        let mut i: usize = 0;
        assert(data@.take(0) =~= Seq::empty());
        while i < data.len()
            invariant
                i <= data@.len(),
                filter_bytes(start, data@.take(i as int)) == (Filter {
                    pending: self.pending_prefix,
                    out: output@,
                    detach: false,
                }),
                start == (Filter {
                    pending: old(self).pending_prefix,
                    out: Seq::empty(),
                    detach: false,
                }),
            decreases data@.len() - i,
        {
            let byte: u8 = data[i];
            proof {
                assert(data@.take(i + 1).drop_last() =~= data@.take(i as int));
                assert(data@.take(i + 1).last() == byte);
            }
            if self.pending_prefix {
                self.pending_prefix = false;
                if byte == DETACH_KEY {
                    proof {
                        lemma_filter_concat(start, data@.take(i + 1), data@.skip(i + 1));
                        assert(data@.take(i + 1) + data@.skip(i + 1) =~= data@);
                        lemma_detached_stays(
                            filter_bytes(start, data@.take(i + 1)),
                            data@.skip(i + 1),
                        );
                    }
                    return FilteredInput::Detach;
                }
                if byte == PREFIX {
                    output.push(PREFIX);
                } else {
                    output.push(PREFIX);
                    output.push(byte);
                }
            } else if byte == PREFIX {
                self.pending_prefix = true;
            } else {
                output.push(byte);
            }
            i += 1;
        }
        assert(data@.take(i as int) =~= data@);
        FilteredInput::Bytes(output)
    }
}

proof fn lemma_filter_concat(f: Filter, a: Seq<u8>, b: Seq<u8>)
    ensures
        filter_bytes(f, a + b) == filter_bytes(filter_bytes(f, a), b),
    decreases b.len(),
{
    if b.len() == 0 {
        assert(a + b =~= a);
    } else {
        lemma_filter_concat(f, a, b.drop_last());
        assert((a + b).drop_last() =~= a + b.drop_last());
        assert((a + b).last() == b.last());
    }
}

proof fn lemma_detached_stays(f: Filter, data: Seq<u8>)
    requires
        f.detach,
    ensures
        filter_bytes(f, data) == f,
    decreases data.len(),
{
    if data.len() > 0 {
        lemma_detached_stays(f, data.drop_last());
    }
}

proof fn lemma_filter_out_prefix(f: Filter, data: Seq<u8>)
    ensures
        ({
            let bare = filter_bytes(
                Filter { pending: f.pending, out: Seq::empty(), detach: f.detach },
                data,
            );
            let full = filter_bytes(f, data);
            &&& full.pending == bare.pending
            &&& full.detach == bare.detach
            &&& full.out == f.out + bare.out
        }),
    decreases data.len(),
{
    let bare = filter_bytes(
        Filter { pending: f.pending, out: Seq::empty(), detach: f.detach },
        data,
    );
    if data.len() > 0 {
        lemma_filter_out_prefix(f, data.drop_last());
    }
    assert(filter_bytes(f, data).out =~= f.out + bare.out);
}

/// It does not matter how what is typed is cut into pieces: the bytes that go on, the request to
/// detach and the pending key are the same as if everything had come at once.
pub proof fn law_pieces_make_no_difference(pending: bool, a: Seq<u8>, b: Seq<u8>)
    ensures
        ({
            let first = filtered(pending, a);
            let both = filtered(pending, a + b);
            if first.detach {
                both == first
            } else {
                let second = filtered(first.pending, b);
                both.pending == second.pending && both.detach == second.detach && both.out
                    == first.out + second.out
            }
        }),
{
    let start = Filter { pending, out: Seq::empty(), detach: false };
    lemma_filter_concat(start, a, b);
    let first = filtered(pending, a);
    if first.detach {
        lemma_detached_stays(first, b);
    } else {
        lemma_filter_out_prefix(first, b);
    }
}

/// What is typed without the escape key goes on as it is, and nothing detaches.
pub proof fn law_ordinary_bytes_pass(data: Seq<u8>)
    requires
        forall|i: int| 0 <= i < data.len() ==> data[i] != PREFIX,
    ensures
        filtered(false, data) == (Filter { pending: false, out: data, detach: false }),
    decreases data.len(),
{
    let start = Filter { pending: false, out: Seq::<u8>::empty(), detach: false };
    if data.len() == 0 {
        assert(data =~= Seq::empty());
    } else {
        law_ordinary_bytes_pass(data.drop_last());
        assert(data.drop_last().push(data.last()) =~= data);
        assert(data.last() == data[data.len() - 1]);
    }
}

/// The escape key waits for the byte behind it: typed twice it is sent once, before `q` it
/// detaches, before anything else both are sent.
pub proof fn law_escape_key(byte: u8)
    ensures
        filtered(false, seq![PREFIX]) == (Filter {
            pending: true,
            out: Seq::empty(),
            detach: false,
        }),
        filtered(true, seq![byte]) == (if byte == DETACH_KEY {
            Filter { pending: false, out: Seq::empty(), detach: true }
        } else if byte == PREFIX {
            Filter { pending: false, out: seq![PREFIX], detach: false }
        } else {
            Filter { pending: false, out: seq![PREFIX, byte], detach: false }
        }),
{
    let start = Filter { pending: false, out: Seq::<u8>::empty(), detach: false };
    assert(seq![PREFIX].drop_last() =~= Seq::<u8>::empty());
    assert(filter_bytes(start, seq![PREFIX].drop_last()) == start);
    let waiting = Filter { pending: true, out: Seq::<u8>::empty(), detach: false };
    assert(seq![byte].drop_last() =~= Seq::<u8>::empty());
    assert(filter_bytes(waiting, seq![byte].drop_last()) == waiting);
    assert(seq![byte].last() == byte);
    let after = filtered(true, seq![byte]);
    if byte != DETACH_KEY && byte != PREFIX {
        assert(after.out =~= seq![PREFIX, byte]);
    } else if byte == PREFIX {
        assert(after.out =~= seq![PREFIX]);
    }
}

/// The lines that a wheel notch scrolls: as configured, but at least one, and as many as fit.
pub open spec fn wheel_lines(mouse_scroll_lines: usize) -> u16 {
    if mouse_scroll_lines < 1 {
        1
    } else if mouse_scroll_lines > u16::MAX {
        u16::MAX
    } else {
        mouse_scroll_lines as u16
    }
}

/// The lines that a page key scrolls: one less than the view has, but at least one.
pub open spec fn page_lines(viewport_rows: u16) -> u16 {
    if viewport_rows <= 2 {
        1
    } else {
        (viewport_rows - 1) as u16
    }
}

/// What typed bytes do beyond being sent on, by the events they spell. Only a single event does
/// anything: the wheel and a page key pressed without modifiers scroll; other mouse events and
/// the release of such a page key are swallowed.
pub open spec fn scroll_action(
    data: Seq<u8>,
    events: Seq<RawInputEvent>,
    viewport_rows: u16,
    mouse_scroll_lines: usize,
) -> Option<ActionView> {
    if events.len() != 1 {
        None
    } else {
        match events[0] {
            RawInputEvent::Mouse { kind, column, row, modifiers } => match kind {
                MouseEventKind::Other => Some(ActionView::Nothing),
                _ => Some(
                    ActionView::Scroll {
                        source: ScrollSourceView::Wheel,
                        direction: if kind == MouseEventKind::ScrollUp {
                            AttachScrollDirection::Up
                        } else {
                            AttachScrollDirection::Down
                        },
                        lines: wheel_lines(mouse_scroll_lines),
                        column: Some(column),
                        row: Some(row),
                        modifiers,
                    },
                ),
            },
            RawInputEvent::Key { code, modifiers, kind } => if modifiers != 0 || code
                == KeyCode::Other {
                None
            } else if kind == KeyEventKind::Release {
                Some(ActionView::Nothing)
            } else {
                Some(
                    ActionView::Scroll {
                        source: ScrollSourceView::PageKey { input: data },
                        direction: if code == KeyCode::PageUp {
                            AttachScrollDirection::Up
                        } else {
                            AttachScrollDirection::Down
                        },
                        lines: page_lines(viewport_rows),
                        column: None,
                        row: None,
                        modifiers: 0,
                    },
                )
            },
            _ => None,
        }
    }
}

/// What becomes of typed bytes: nothing of no bytes, scrolling where they spell it, and sending
/// them on otherwise.
pub open spec fn input_action(
    data: Seq<u8>,
    events: Seq<RawInputEvent>,
    viewport_rows: u16,
    mouse_scroll_lines: usize,
) -> ActionView {
    if data.len() == 0 {
        ActionView::Nothing
    } else {
        match scroll_action(data, events, viewport_rows, mouse_scroll_lines) {
            Some(action) => action,
            None => ActionView::Forward { data },
        }
    }
}

fn lines_of_wheel(mouse_scroll_lines: usize) -> (lines: u16)
    ensures
        lines == wheel_lines(mouse_scroll_lines),
{
    if mouse_scroll_lines < 1 {
        1
    } else if mouse_scroll_lines > u16::MAX as usize {
        u16::MAX
    } else {
        mouse_scroll_lines as u16
    }
}

fn lines_of_page(viewport_rows: u16) -> (lines: u16)
    ensures
        lines == page_lines(viewport_rows),
{
    let lines: u16 = viewport_rows.saturating_sub(1);
    if lines >= 1 {
        lines
    } else {
        1
    }
}

/// What typed bytes do beyond being sent on, by the `events` that they spell.
pub fn attach_scroll_action(
    data: &[u8],
    events: &[RawInputEvent],
    viewport_rows: u16,
    mouse_scroll_lines: usize,
) -> (action: Option<AttachInputAction>)
    ensures
        match action {
            Some(action) => scroll_action(data@, events@, viewport_rows, mouse_scroll_lines)
                == Some(action@),
            None => scroll_action(data@, events@, viewport_rows, mouse_scroll_lines) is None,
        },
{
    if events.len() != 1 {
        return None;
    }
    match events[0] {
        RawInputEvent::Mouse { kind, column, row, modifiers } => {
            let direction = match kind {
                MouseEventKind::ScrollUp => AttachScrollDirection::Up,
                MouseEventKind::ScrollDown => AttachScrollDirection::Down,
                MouseEventKind::Other => {
                    return Some(AttachInputAction::Nothing);
                },
            };
            Some(
                AttachInputAction::Scroll {
                    source: AttachScrollSource::Wheel,
                    direction,
                    lines: lines_of_wheel(mouse_scroll_lines),
                    column: Some(column),
                    row: Some(row),
                    modifiers,
                },
            )
        },
        RawInputEvent::Key { code, modifiers, kind } => {
            if modifiers != 0 {
                return None;
            }
            let direction = match code {
                KeyCode::PageUp => AttachScrollDirection::Up,
                KeyCode::PageDown => AttachScrollDirection::Down,
                KeyCode::Other => {
                    return None;
                },
            };
            if kind == KeyEventKind::Release {
                return Some(AttachInputAction::Nothing);
            }
            let mut input: Vec<u8> = Vec::new();
            crate::text::push_bytes(&mut input, data);
            assert(input@ =~= data@);
            Some(
                AttachInputAction::Scroll {
                    source: AttachScrollSource::PageKey { input },
                    direction,
                    lines: lines_of_page(viewport_rows),
                    column: None,
                    row: None,
                    modifiers: 0,
                },
            )
        },
        _ => None,
    }
}

/// What becomes of the bytes that the escape key left, `events` being what they spell.
pub fn attach_input_action(
    output: Vec<u8>,
    events: &[RawInputEvent],
    viewport_rows: u16,
    mouse_scroll_lines: usize,
) -> (action: AttachInputAction)
    ensures
        action@ == input_action(output@, events@, viewport_rows, mouse_scroll_lines),
        action matches AttachInputAction::Scroll { source, direction, .. } ==> match events@[0] {
            RawInputEvent::Mouse { kind, .. } => source is Wheel && (direction is Up
                <==> kind is ScrollUp) && (direction is Down <==> kind is ScrollDown),
            RawInputEvent::Key { code, .. } => source is PageKey && (direction is Up
                <==> code is PageUp) && (direction is Down <==> code is PageDown),
            _ => false,
        },
{
    if output.len() == 0 {
        return AttachInputAction::Nothing;
    }
    match attach_scroll_action(output.as_slice(), events, viewport_rows, mouse_scroll_lines) {
        Some(action) => action,
        None => AttachInputAction::Forward(output),
    }
}

/// Scrolling always moves by at least one line.
pub proof fn law_scrolling_moves(viewport_rows: u16, mouse_scroll_lines: usize)
    ensures
        wheel_lines(mouse_scroll_lines) >= 1,
        page_lines(viewport_rows) >= 1,
        viewport_rows > 1 ==> page_lines(viewport_rows) < viewport_rows,
{
}

/// The view scrolls the way that the wheel turns, where the pointer is, by the lines that are
/// configured.
pub proof fn law_the_wheel_scrolls_its_way(
    data: Seq<u8>,
    kind: MouseEventKind,
    column: u16,
    row: u16,
    modifiers: u8,
    viewport_rows: u16,
    mouse_scroll_lines: usize,
)
    requires
        data.len() > 0,
    ensures
        ({
            let events = seq![RawInputEvent::Mouse { kind, column, row, modifiers }];
            let action = input_action(data, events, viewport_rows, mouse_scroll_lines);
            match kind {
                MouseEventKind::Other => action is Nothing,
                _ => {
                    &&& action is Scroll
                    &&& action->source is Wheel
                    &&& action->direction is Up <==> kind is ScrollUp
                    &&& action->direction is Down <==> kind is ScrollDown
                    &&& 1 <= mouse_scroll_lines <= u16::MAX ==> action->lines == mouse_scroll_lines
                    &&& mouse_scroll_lines == 0 ==> action->lines == 1
                    &&& mouse_scroll_lines > u16::MAX ==> action->lines == u16::MAX
                    &&& action->column == Some(column)
                    &&& action->row == Some(row)
                    &&& action->modifiers == modifiers
                },
            }
        }),
{
}

/// A page key that is pressed or held without modifiers scrolls its way by a page less a line, and
/// what was typed goes along. Its release is swallowed, and with a modifier it is typed like
/// anything else.
pub proof fn law_page_keys_scroll_their_way(
    data: Seq<u8>,
    code: KeyCode,
    modifiers: u8,
    kind: KeyEventKind,
    viewport_rows: u16,
    mouse_scroll_lines: usize,
)
    requires
        data.len() > 0,
    ensures
        ({
            let events = seq![RawInputEvent::Key { code, modifiers, kind }];
            let action = input_action(data, events, viewport_rows, mouse_scroll_lines);
            if modifiers != 0 || code is Other {
                action is Forward && action->data == data
            } else if kind is Release {
                action is Nothing
            } else {
                &&& action is Scroll
                &&& action->source == ScrollSourceView::PageKey { input: data }
                &&& action->direction is Up <==> code is PageUp
                &&& action->direction is Down <==> code is PageDown
                &&& viewport_rows > 1 ==> action->lines == viewport_rows - 1
                &&& viewport_rows <= 1 ==> action->lines == 1
                &&& action->column is None
                &&& action->row is None
                &&& action->modifiers == 0
            }
        }),
{
}

/// Whatever spells several events, or none, or one that neither comes from the mouse nor from a
/// key, goes on to the terminal as it was typed. Nothing typed does nothing, and no typed bytes
/// detach by what they spell.
pub proof fn law_other_input_goes_on(
    data: Seq<u8>,
    events: Seq<RawInputEvent>,
    viewport_rows: u16,
    mouse_scroll_lines: usize,
)
    ensures
        ({
            let action = input_action(data, events, viewport_rows, mouse_scroll_lines);
            &&& data.len() == 0 ==> action is Nothing
            &&& data.len() > 0 && (events.len() != 1 || !(events[0] is Mouse || events[0] is Key))
                ==> action is Forward && action->data == data
            &&& action is Forward ==> action->data == data && data.len() > 0
            &&& action is Scroll || (action is Nothing && data.len() > 0) ==> events.len() == 1
            &&& !(action is Detach)
        }),
{
}

} // verus!
