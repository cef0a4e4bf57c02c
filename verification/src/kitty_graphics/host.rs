//! The terminal's side: what it holds and shows once it has obeyed the commands of a pass.

use crate::kitty_graphics::clip;
use crate::kitty_graphics::encode::GraphicsCommand;
use crate::kitty_graphics::identity;
use crate::kitty_graphics::model::{
    ClippedPlacement, HostPlacement, HostSourceKey, ImageSignature, PlacementSignature,
};
use crate::kitty_graphics::update;
use crate::kitty_graphics::update::GraphicsState;
use crate::table;
use vstd::prelude::*;

verus! {

/// What a terminal holds: images by their ids, and what it shows of them, by the ids of image and
/// placement.
#[verifier::ext_equal]
pub ghost struct Host {
    pub images: Map<u32, ImageSignature>,
    pub shown: Map<(u32, u32), (ClippedPlacement, i32)>,
}

impl Host {
    /// The terminal without what it shows of an image.
    pub open spec fn without(self, id: u32) -> Map<(u32, u32), (ClippedPlacement, i32)> {
        self.shown.remove_keys(Set::new(|k: (u32, u32)| k.0 == id))
    }

    /// What is shown under a key.
    pub open spec fn shows(self, k: (u32, u32)) -> Option<(ClippedPlacement, i32)> {
        if self.shown.contains_key(k) {
            Some(self.shown[k])
        } else {
            None
        }
    }
}

/// What a command does to a terminal. A deleted image and one that is sent anew are no longer shown;
/// an image that is not there cannot be shown; and an animation changes no image.
pub open spec fn obey(
    host: Host,
    command: GraphicsCommand,
    placements: Seq<HostPlacement>,
) -> Host {
    match command {
        GraphicsCommand::DeleteImage { host_id } => Host {
            images: host.images.remove(host_id),
            shown: host.without(host_id),
        },
        GraphicsCommand::Upload { placement, format_code, host_id } => Host {
            images: host.images.insert(
                host_id,
                identity::signature_of(placements[placement as int].placement, format_code),
            ),
            shown: host.without(host_id),
        },
        GraphicsCommand::Display { clipped, host_id, host_placement_id, z } => if host.images.contains_key(
            host_id,
        ) {
            Host { shown: host.shown.insert((host_id, host_placement_id), (clipped, z)), ..host }
        } else {
            host
        },
        GraphicsCommand::Animate { .. } => host,
        GraphicsCommand::DeletePlacement { host_id, host_placement_id } => Host {
            shown: host.shown.remove((host_id, host_placement_id)),
            ..host
        },
    }
}

/// The terminal after all commands, one after the other.
pub open spec fn obey_all(
    host: Host,
    commands: Seq<GraphicsCommand>,
    placements: Seq<HostPlacement>,
) -> Host
    decreases commands.len(),
{
    if commands.len() == 0 {
        host
    } else {
        obey(obey_all(host, commands.drop_last(), placements), commands.last(), placements)
    }
}

/// What a look says of the screen.
pub open spec fn seen(look: PlacementSignature) -> (ClippedPlacement, i32) {
    (
        ClippedPlacement {
            x: look.x,
            y: look.y,
            cols: look.cols,
            rows: look.rows,
            source_x: look.source_x,
            source_y: look.source_y,
            source_width: look.source_width,
            source_height: look.source_height,
            x_offset: look.x_offset,
            y_offset: look.y_offset,
        },
        look.z,
    )
}

/// What the table says is shown under a key.
pub open spec fn noted(
    placements: Seq<((u32, u32), PlacementSignature)>,
    k: (u32, u32),
) -> Option<(ClippedPlacement, i32)> {
    match table::lookup(placements, k) {
        Some(look) => Some(seen(look)),
        None => None,
    }
}

/// The terminal holds the images that the tables say, and shows them as the tables say, and nothing
/// else.
pub open spec fn agrees(host: Host, s: GraphicsState) -> bool {
    &&& host.images == s.images
    &&& forall|k: (u32, u32)| #[trigger] host.shows(k) == noted(s.placements, k)
}

/// Where the terminal holds another image under the id of a visible placement when its turn comes,
/// the placement brings its own.
pub open spec fn brings_what_it_replaces(
    s: GraphicsState,
    placements: Seq<HostPlacement>,
    view_changed: bool,
) -> bool {
    forall|i: int|
        0 <= i < placements.len() && clip::visible(#[trigger] placements[i]) ==> {
            let then = update::place_all(
                update::prune(s, placements),
                placements,
                i as nat,
                view_changed,
            );
            let held = update::held(then.images, update::image_id_of(placements[i]));
            held is None || held == Some(update::content_of(placements[i]))
                || placements[i].placement.data@.len() > 0
        }
}

/// A terminal that was like the tables, and has obeyed the commands, is like the tables still.
spec fn follows(host: Host, s: GraphicsState, placements: Seq<HostPlacement>) -> bool {
    agrees(obey_all(host, s.commands, placements), s)
}

proof fn lemma_obey_push(
    host: Host,
    commands: Seq<GraphicsCommand>,
    command: GraphicsCommand,
    placements: Seq<HostPlacement>,
)
    ensures
        obey_all(host, commands.push(command), placements) == obey(
            obey_all(host, commands, placements),
            command,
            placements,
        ),
{
    assert(commands.push(command).drop_last() =~= commands);
}

/// What is left of the tables, and of the screen, without an image.
proof fn lemma_without(host: Host, s: GraphicsState, id: u32)
    requires
        s.wf(),
        forall|k: (u32, u32)| #[trigger] host.shows(k) == noted(s.placements, k),
    ensures
        forall|k: (u32, u32)|
            #[trigger] (Host { shown: host.without(id), ..host }).shows(k) == noted(
                update::forget_placements(s, id).placements,
                k,
            ),
{
    update::lemma_forget_placements(s, id);
    let after = Host { shown: host.without(id), ..host };
    let t = update::forget_placements(s, id);
    assert forall|k: (u32, u32)| #[trigger] after.shows(k) == noted(t.placements, k) by {
        let _ = host.shows(k);
        if k.0 == id {
            assert(!table::has_key(t.placements, k));
        } else {
            assert(table::lookup(t.placements, k) == table::lookup(s.placements, k));
        }
    }
}

proof fn lemma_drop_image_follows(
    host: Host,
    s: GraphicsState,
    placements: Seq<HostPlacement>,
    id: u32,
)
    requires
        s.wf(),
        follows(host, s, placements),
    ensures
        follows(host, update::drop_image(s, id), placements),
{
    let before = obey_all(host, s.commands, placements);
    lemma_obey_push(host, s.commands, GraphicsCommand::DeleteImage { host_id: id }, placements);
    lemma_without(before, s, id);
    let after = obey(before, GraphicsCommand::DeleteImage { host_id: id }, placements);
    let t = update::drop_image(s, id);
    assert(t.placements == update::forget_placements(s, id).placements);
    assert forall|k: (u32, u32)| #[trigger] after.shows(k) == noted(t.placements, k) by {
        let _ = (Host { shown: before.without(id), ..before }).shows(k);
    }
}

proof fn lemma_prune_follows(host: Host, s: GraphicsState, placements: Seq<HostPlacement>)
    requires
        s.wf(),
        follows(host, s, placements),
    ensures
        follows(host, update::prune(s, placements), placements),
        update::prune(s, placements).wf(),
{
    let kept = update::current_sources(placements);
    let lost = update::images_of_lost_layers(s.sources, kept);
    let filtered = GraphicsState { sources: s.sources.filter(update::from_sources(kept)), ..s };
    update::lemma_filter_sources(s, kept);
    assert(follows(host, filtered, placements));
    lemma_drop_unreferenced_follows(host, filtered, placements, lost, lost.len());
}

proof fn lemma_drop_unreferenced_follows(
    host: Host,
    s: GraphicsState,
    placements: Seq<HostPlacement>,
    ids: Seq<u32>,
    count: nat,
)
    requires
        s.wf(),
        follows(host, s, placements),
    ensures
        follows(host, update::drop_unreferenced(s, ids, count), placements),
        update::drop_unreferenced(s, ids, count).wf(),
    decreases count,
{
    if count > 0 {
        let n = (count - 1) as nat;
        lemma_drop_unreferenced_follows(host, s, placements, ids, n);
        let before = update::drop_unreferenced(s, ids, n);
        if !table::has_value(before.sources, ids[count - 1]) {
            lemma_drop_image_follows(host, before, placements, ids[count - 1]);
            update::lemma_drop_image(before, ids[count - 1]);
        }
    }
}

proof fn lemma_retarget_follows(
    host: Host,
    s: GraphicsState,
    placements: Seq<HostPlacement>,
    source: HostSourceKey,
    id: u32,
)
    requires
        s.wf(),
        s.images.contains_key(id),
        follows(host, s, placements),
    ensures
        follows(host, update::retarget(s, source, id), placements),
{
    let moved = GraphicsState { sources: table::put(s.sources, source, id), ..s };
    update::lemma_moved_wf(s, source, id);
    assert(follows(host, moved, placements));
    if let Some(previous) = table::lookup(s.sources, source) {
        lemma_drop_image_follows(host, moved, placements, previous);
    }
}

proof fn lemma_show_follows(
    host: Host,
    s: GraphicsState,
    placements: Seq<HostPlacement>,
    p: HostPlacement,
    view_changed: bool,
)
    requires
        s.wf(),
        s.images.contains_key(update::image_id_of(p)),
        follows(host, s, placements),
    ensures
        follows(host, update::show(s, p, view_changed), placements),
{
    let before = obey_all(host, s.commands, placements);
    let command = GraphicsCommand::Display {
        clipped: clip::clipped(p),
        host_id: update::image_id_of(p),
        host_placement_id: update::placement_id_of(p),
        z: p.placement.z,
    };
    lemma_obey_push(host, s.commands, command, placements);
    table::lemma_put(s.placements, update::key_of(p), update::look_of(p));
    let t = update::show(s, p, view_changed);
    if t != s {
        let after = obey(before, command, placements);
        assert forall|k: (u32, u32)| #[trigger] after.shows(k) == noted(t.placements, k) by {
            let _ = before.shows(k);
            if k != update::key_of(p) {
                assert(table::lookup(t.placements, k) == table::lookup(s.placements, k));
            } else {
                assert(table::lookup(t.placements, k) == Some(update::look_of(p)));
            }
        }
    }
}

/// Sending an image that is not there, or no longer.
proof fn lemma_upload_follows(
    host: Host,
    s: GraphicsState,
    placements: Seq<HostPlacement>,
    i: int,
)
    requires
        0 <= i < placements.len() <= usize::MAX,
        s.wf(),
        ({
            let now = obey_all(host, s.commands, placements);
            let id = update::image_id_of(placements[i]);
            &&& now.images == s.images.remove(id)
            &&& forall|k: (u32, u32)| #[trigger] now.shows(k) == noted(s.placements, k)
            &&& forall|k: (u32, u32)| k.0 == id ==> !#[trigger] table::has_key(s.placements, k)
        }),
    ensures
        follows(host, update::upload(s, placements[i], i), placements),
{
    let p = placements[i];
    let id = update::image_id_of(p);
    let before = obey_all(host, s.commands, placements);
    let t = update::upload(s, p, i);
    let command = t.commands.last();
    lemma_obey_push(host, s.commands, command, placements);
    let after = obey(before, command, placements);
    assert(after.images =~= t.images);
    assert forall|k: (u32, u32)| #[trigger] after.shows(k) == noted(t.placements, k) by {
        let _ = before.shows(k);
        if k.0 == id {
            assert(!table::has_key(s.placements, k));
        }
    }
}

proof fn lemma_place_follows(
    host: Host,
    s: GraphicsState,
    placements: Seq<HostPlacement>,
    i: int,
    view_changed: bool,
)
    requires
        0 <= i < placements.len() <= usize::MAX,
        s.wf(),
        follows(host, s, placements),
        clip::visible(placements[i]) ==> {
            let held = update::held(s.images, update::image_id_of(placements[i]));
            held is None || held == Some(update::content_of(placements[i]))
                || placements[i].placement.data@.len() > 0
        },
    ensures
        follows(host, update::place(s, placements[i], i, view_changed), placements),
{
    let p = placements[i];
    if clip::visible(p) {
        let id = update::image_id_of(p);
        let wanted = GraphicsState { current: s.current.insert(update::key_of(p)), ..s };
        assert(wanted.wf());
        assert(follows(host, wanted, placements));
        let known = update::held(s.images, id);
        if known == Some(update::content_of(p)) {
            lemma_retarget_follows(host, wanted, placements, p.source_key, id);
            update::lemma_retarget(wanted, p.source_key, id);
            lemma_show_follows(
                host,
                update::retarget(wanted, p.source_key, id),
                placements,
                p,
                view_changed,
            );
        } else {
            let told = GraphicsState {
                commands: wanted.commands.push(GraphicsCommand::DeleteImage { host_id: id }),
                ..wanted
            };
            assert(told.wf());
            update::lemma_forget_placements(told, id);
            let clear = if known is Some {
                update::forget_placements(told, id)
            } else {
                wanted
            };
            let before = obey_all(host, wanted.commands, placements);
            lemma_obey_push(
                host,
                wanted.commands,
                GraphicsCommand::DeleteImage { host_id: id },
                placements,
            );
            let now = obey_all(host, clear.commands, placements);
            assert(now.images =~= clear.images.remove(id));
            if known is Some {
                lemma_without(before, told, id);
                assert forall|k: (u32, u32)| #[trigger] now.shows(k) == noted(
                    clear.placements,
                    k,
                ) by {
                    let _ = (Host { shown: before.without(id), ..before }).shows(k);
                }
            }
            assert forall|k: (u32, u32)| k.0 == id implies !#[trigger] table::has_key(
                clear.placements,
                k,
            ) by {
                if known is None && table::has_key(clear.placements, k) {
                    assert(s.images.contains_key(k.0));
                }
            }
            if p.placement.data@.len() > 0 {
                lemma_upload_follows(host, clear, placements, i);
                let sent = update::upload(clear, p, i);
                update::lemma_upload(clear, p, i);
                lemma_retarget_follows(host, sent, placements, p.source_key, id);
                update::lemma_retarget(sent, p.source_key, id);
                let moved = update::retarget(sent, p.source_key, id);
                lemma_show_follows(host, moved, placements, p, view_changed);
                let shown = update::show(moved, p, view_changed);
                let done = update::animate(shown, p, i);
                if p.animation is Some {
                    lemma_obey_push(host, shown.commands, done.commands.last(), placements);
                }
                assert(follows(host, done, placements));
            } else {
                assert(known is None);
                assert(follows(host, clear, placements));
            }
        }
    }
}

proof fn lemma_place_all_follows(
    host: Host,
    s: GraphicsState,
    placements: Seq<HostPlacement>,
    count: nat,
    view_changed: bool,
)
    requires
        count <= placements.len() <= usize::MAX,
        s.wf(),
        follows(host, s, placements),
        forall|i: int|
            0 <= i < placements.len() && clip::visible(#[trigger] placements[i]) ==> {
                let then = update::place_all(s, placements, i as nat, view_changed);
                let held = update::held(then.images, update::image_id_of(placements[i]));
                held is None || held == Some(update::content_of(placements[i]))
                    || placements[i].placement.data@.len() > 0
            },
    ensures
        follows(host, update::place_all(s, placements, count, view_changed), placements),
        update::place_all(s, placements, count, view_changed).wf(),
    decreases count,
{
    if count > 0 {
        let n = count - 1;
        lemma_place_all_follows(host, s, placements, n as nat, view_changed);
        let before = update::place_all(s, placements, n as nat, view_changed);
        assert(clip::visible(placements[n]) || !clip::visible(placements[n]));
        lemma_place_follows(host, before, placements, n, view_changed);
        update::lemma_place_wf(before, placements[n], n, view_changed);
    }
}

/// What is taken back is what nobody wants.
proof fn lemma_taken_back(
    host: Host,
    table: Seq<((u32, u32), PlacementSignature)>,
    current: Set<(u32, u32)>,
    placements: Seq<HostPlacement>,
)
    ensures
        ({
            let after = obey_all(host, update::stale_commands(table, current), placements);
            &&& after.images == host.images
            &&& forall|k: (u32, u32)|
                #[trigger] after.shows(k) == if table::has_key(table, k) && !current.contains(k) {
                    None
                } else {
                    host.shows(k)
                }
        }),
    decreases table.len(),
{
    let commands = update::stale_commands(table, current);
    let after = obey_all(host, commands, placements);
    if table.len() > 0 {
        let short = table.drop_last();
        let key = table.last().0;
        lemma_taken_back(host, short, current, placements);
        let earlier = update::stale_commands(short, current);
        let before = obey_all(host, earlier, placements);
        if !current.contains(key) {
            lemma_obey_push(host, earlier, commands.last(), placements);
        }
        assert forall|k: (u32, u32)| #[trigger] after.shows(k) == if table::has_key(table, k)
            && !current.contains(k) {
            None
        } else {
            host.shows(k)
        } by {
            let _ = before.shows(k);
            assert(table::has_key(table, k) <==> table::has_key(short, k) || k == key) by {
                if table::has_key(table, k) {
                    let i = choose|i: int| 0 <= i < table.len() && #[trigger] table[i].0 == k;
                    if i < short.len() {
                        assert(short[i].0 == k);
                    }
                }
                if table::has_key(short, k) {
                    let i = choose|i: int| 0 <= i < short.len() && #[trigger] short[i].0 == k;
                    assert(table[i].0 == k);
                }
                assert(table[table.len() - 1].0 == key);
            }
        }
    }
}

proof fn lemma_obey_concat(
    host: Host,
    a: Seq<GraphicsCommand>,
    b: Seq<GraphicsCommand>,
    placements: Seq<HostPlacement>,
)
    ensures
        obey_all(host, a + b, placements) == obey_all(
            obey_all(host, a, placements),
            b,
            placements,
        ),
    decreases b.len(),
{
    if b.len() == 0 {
        assert(a + b =~= a);
    } else {
        lemma_obey_concat(host, a, b.drop_last(), placements);
        assert((a + b).drop_last() =~= a + b.drop_last());
        assert((a + b).last() == b.last());
    }
}

/// The terminal ends up as the tables say. Whatever was on the screen before, if it was what the
/// tables said, a terminal that obeys the commands of a pass holds just the images and shows just
/// the placements, each in its place and with its part of the image, that the tables name after it:
/// whatever is shown was sent, whatever changed was replaced, and whatever went away was taken back.
pub proof fn law_the_terminal_ends_up_as_the_tables_say(
    host: Host,
    s: GraphicsState,
    placements: Seq<HostPlacement>,
    view_changed: bool,
)
    requires
        s.wf(),
        s.commands.len() == 0,
        agrees(host, s),
        placements.len() <= usize::MAX,
        brings_what_it_replaces(s, placements, view_changed),
    ensures
        ({
            let after = update::spec_update(s, placements, view_changed);
            agrees(obey_all(host, after.commands, placements), after)
        }),
{
    assert(follows(host, s, placements));
    lemma_prune_follows(host, s, placements);
    let pruned = update::prune(s, placements);
    lemma_place_all_follows(host, pruned, placements, placements.len(), view_changed);
    let placed = update::place_all(pruned, placements, placements.len(), view_changed);
    let after = update::sweep(placed);
    let stale = update::stale_commands(placed.placements, placed.current);
    lemma_obey_concat(host, placed.commands, stale, placements);
    let then = obey_all(host, placed.commands, placements);
    lemma_taken_back(then, placed.placements, placed.current, placements);
    table::lemma_filter_keys(placed.placements, update::among(placed.current));
    let end = obey_all(host, after.commands, placements);
    assert forall|k: (u32, u32)| #[trigger] end.shows(k) == noted(after.placements, k) by {
        let _ = then.shows(k);
        assert(table::has_key(after.placements, k) <==> table::has_key(placed.placements, k)
            && placed.current.contains(k));
        if table::has_key(after.placements, k) {
            assert(table::lookup(after.placements, k) == table::lookup(placed.placements, k));
        }
    }
}

} // verus!
