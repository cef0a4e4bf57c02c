//! What a pass does for one placement: what is sent, in which order, and what goes.

use crate::kitty_graphics::clip;
use crate::kitty_graphics::encode::GraphicsCommand;
use crate::kitty_graphics::model::{HostPlacement, HostSourceKey};
use crate::kitty_graphics::update;
use crate::kitty_graphics::update::GraphicsState;
use crate::table;
use vstd::prelude::*;

verus! {

/// Whether a state says all that another one said, and more behind it.
pub open spec fn goes_on(before: GraphicsState, after: GraphicsState) -> bool {
    &&& before.commands.len() <= after.commands.len()
    &&& forall|n: int|
        0 <= n < before.commands.len() ==> #[trigger] after.commands[n] == before.commands[n]
}

/// Command number `n` is new.
pub open spec fn is_new(before: GraphicsState, after: GraphicsState, n: int) -> bool {
    before.commands.len() <= n < after.commands.len()
}

/// The command that shows a placement.
pub open spec fn shows(command: GraphicsCommand, p: HostPlacement) -> bool {
    command == (GraphicsCommand::Display {
        clipped: clip::clipped(p),
        host_id: update::image_id_of(p),
        host_placement_id: update::placement_id_of(p),
        z: p.placement.z,
    })
}

/// What a source turns to another image for: at most the deletion of the image that it had.
proof fn lemma_retarget_says(s: GraphicsState, source: HostSourceKey, id: u32)
    requires
        s.wf(),
    ensures
        ({
            let t = update::retarget(s, source, id);
            &&& goes_on(s, t)
            &&& forall|n: int|
                is_new(s, t, n) ==> (#[trigger] t.commands[n] matches GraphicsCommand::DeleteImage {
                    host_id,
                } && host_id != id && table::lookup(s.sources, source) == Some(host_id))
            &&& forall|k: (u32, u32)|
                k.0 == id ==> #[trigger] table::lookup(t.placements, k) == table::lookup(
                    s.placements,
                    k,
                )
        }),
{
    let moved = GraphicsState { sources: table::put(s.sources, source, id), ..s };
    if let Some(previous) = table::lookup(s.sources, source) {
        if previous != id {
            table::lemma_filter_keys(s.placements, update::on_other_images(previous));
            let t = update::drop_image(moved, previous);
            assert(t.placements == s.placements.filter(update::on_other_images(previous)));
            assert forall|k: (u32, u32)| k.0 == id implies #[trigger] table::lookup(
                t.placements,
                k,
            ) == table::lookup(s.placements, k) by {
                if table::has_key(s.placements, k) {
                    assert(table::has_key(t.placements, k));
                }
            }
        }
    }
}

/// A placement that cannot be seen is passed over. One whose image the terminal holds is shown
/// without sending the image again: always after a change of view, and otherwise only where the
/// terminal does not show it just so already.
pub proof fn law_a_known_image_is_not_sent_again(
    s: GraphicsState,
    p: HostPlacement,
    i: int,
    view_changed: bool,
    n: int,
)
    requires
        s.wf(),
        !clip::visible(p) || update::held(s.images, update::image_id_of(p)) == Some(
            update::content_of(p),
        ),
    ensures
        ({
            let t = update::place(s, p, i, view_changed);
            let stands = table::lookup(s.placements, update::key_of(p)) == Some(update::look_of(p));
            &&& goes_on(s, t)
            &&& !clip::visible(p) ==> t == s
            &&& clip::visible(p) && (view_changed || !stands) ==> is_new(
                s,
                t,
                t.commands.len() - 1,
            ) && shows(t.commands.last(), p)
            &&& is_new(s, t, n) ==> t.commands[n] is Display || t.commands[n] is DeleteImage
            &&& is_new(s, t, n) && !view_changed && stands ==> t.commands[n] is DeleteImage
        }),
{
    if clip::visible(p) {
        let wanted = GraphicsState { current: s.current.insert(update::key_of(p)), ..s };
        lemma_retarget_says(wanted, p.source_key, update::image_id_of(p));
        let moved = update::retarget(wanted, p.source_key, update::image_id_of(p));
        assert(table::lookup(moved.placements, update::key_of(p)) == table::lookup(
            s.placements,
            update::key_of(p),
        ));
        let t = update::place(s, p, i, view_changed);
        if is_new(s, t, n) && n < moved.commands.len() {
            assert(moved.commands[n] is DeleteImage);
        }
        assert forall|m: int| 0 <= m < s.commands.len() implies #[trigger] t.commands[m]
            == s.commands[m] by {
            assert(moved.commands[m] == wanted.commands[m]);
        }
    }
}

/// An image that the terminal does not hold is sent before it is shown, and its animation, where it
/// has one, is sent last; another image under the same id is deleted first. Without data nothing is
/// sent or shown.
pub proof fn law_a_new_image_is_sent_before_it_is_shown(
    s: GraphicsState,
    p: HostPlacement,
    i: int,
    view_changed: bool,
)
    requires
        s.wf(),
        0 <= i <= usize::MAX,
        clip::visible(p),
        update::held(s.images, update::image_id_of(p)) != Some(update::content_of(p)),
    ensures
        ({
            let t = update::place(s, p, i, view_changed);
            let first = s.commands.len() as int;
            let replaces = update::held(s.images, update::image_id_of(p)) is Some;
            let sent = if replaces {
                first + 1
            } else {
                first
            };
            &&& goes_on(s, t)
            &&& replaces ==> is_new(s, t, first) && t.commands[first] == (
            GraphicsCommand::DeleteImage { host_id: update::image_id_of(p) })
            &&& p.placement.data@.len() == 0 ==> t.commands.len() == sent
            &&& p.placement.data@.len() > 0 ==> {
                &&& sent < t.commands.len()
                &&& t.commands[sent] matches GraphicsCommand::Upload { placement, host_id, .. }
                    && placement == i && host_id == update::image_id_of(p)
                &&& p.animation is Some ==> {
                    &&& t.commands.len() >= sent + 3
                    &&& t.commands.last() matches GraphicsCommand::Animate {
                        placement,
                        host_id,
                        ..
                    } && placement == i && host_id == update::image_id_of(p)
                    &&& shows(t.commands[t.commands.len() - 2], p)
                }
                &&& p.animation is None ==> t.commands.len() >= sent + 2 && shows(
                    t.commands.last(),
                    p,
                )
            }
        }),
{
    let id = update::image_id_of(p);
    let known = update::held(s.images, id);
    let wanted = GraphicsState { current: s.current.insert(update::key_of(p)), ..s };
    let cleared = GraphicsState {
        commands: wanted.commands.push(GraphicsCommand::DeleteImage { host_id: id }),
        ..wanted
    };
    let clear = if known is Some {
        update::forget_placements(cleared, id)
    } else {
        wanted
    };
    update::lemma_forget_placements(cleared, id);
    assert(clear.wf());
    if p.placement.data@.len() > 0 {
        let sent = update::upload(clear, p, i);
        update::lemma_upload(clear, p, i);
        lemma_retarget_says(sent, p.source_key, id);
        let moved = update::retarget(sent, p.source_key, id);
        assert(!table::has_key(clear.placements, update::key_of(p))) by {
            if known is None && table::has_key(s.placements, update::key_of(p)) {
                assert(s.images.contains_key(update::key_of(p).0));
            }
        }
        assert(table::lookup(moved.placements, update::key_of(p)) == table::lookup(
            sent.placements,
            update::key_of(p),
        ));
        let t = update::place(s, p, i, view_changed);
        assert(moved.commands[sent.commands.len() - 1] == sent.commands[sent.commands.len() - 1]);
        assert(t.commands[sent.commands.len() - 1] == moved.commands[sent.commands.len() - 1]);
        assert forall|m: int| 0 <= m < clear.commands.len() implies #[trigger] t.commands[m]
            == clear.commands[m] by {
            assert(moved.commands[m] == sent.commands[m]);
        }
    }
}

/// A source has the image of its placement from then on. The image that it had before is deleted
/// where no other source has it, and stays where one has.
pub proof fn law_a_source_lets_go_of_its_image(
    s: GraphicsState,
    source: HostSourceKey,
    id: u32,
    other: HostSourceKey,
    previous: u32,
)
    requires
        s.wf(),
        s.images.contains_key(id),
        table::lookup(s.sources, source) == Some(previous),
        previous != id,
    ensures
        ({
            let t = update::retarget(s, source, id);
            &&& table::lookup(t.sources, source) == Some(id)
            &&& other != source ==> table::lookup(t.sources, other) == table::lookup(
                s.sources,
                other,
            )
            &&& update::held(t.images, id) == update::held(s.images, id)
            &&& (forall|k: HostSourceKey| #[trigger]
                table::lookup(s.sources, k) == Some(previous) ==> k == source) ==> {
                &&& !t.images.contains_key(previous)
                &&& t.commands == s.commands.push(
                    GraphicsCommand::DeleteImage { host_id: previous },
                )
            }
            &&& other != source && table::lookup(s.sources, other) == Some(previous) ==> {
                &&& update::held(t.images, previous) == update::held(s.images, previous)
                &&& t.commands == s.commands
            }
        }),
{
    table::lemma_put(s.sources, source, id);
    let moved = GraphicsState { sources: table::put(s.sources, source, id), ..s };
    if table::has_value(moved.sources, previous) {
        let n = choose|n: int|
            0 <= n < moved.sources.len() && #[trigger] moved.sources[n].1 == previous;
        let k = moved.sources[n].0;
        table::lemma_position(moved.sources, n);
        assert(k != source);
        assert(table::lookup(s.sources, k) == Some(previous));
    }
    if other != source && table::lookup(s.sources, other) == Some(previous) {
        assert(table::lookup(moved.sources, other) == Some(previous));
        assert(table::has_key(moved.sources, other));
        table::lemma_found(moved.sources, other);
        assert(moved.sources[table::position(moved.sources, other)].1 == previous);
        assert(table::has_value(moved.sources, previous));
    }
}

proof fn lemma_kept(s: GraphicsState, ids: Seq<u32>, count: nat, id: u32)
    requires
        table::has_value(s.sources, id),
    ensures
        update::held(update::drop_unreferenced(s, ids, count).images, id) == update::held(
            s.images,
            id,
        ),
        update::drop_unreferenced(s, ids, count).sources == s.sources,
    decreases count,
{
    if count > 0 {
        lemma_kept(s, ids, (count - 1) as nat, id);
    }
}

/// An image that a source still has is not taken back when other sources go away, and a source that
/// is still there keeps its image.
pub proof fn law_what_is_still_there_keeps_its_image(
    s: GraphicsState,
    placements: Seq<HostPlacement>,
    source: HostSourceKey,
    id: u32,
)
    requires
        s.wf(),
        table::lookup(s.sources, source) == Some(id),
        update::is_current_source(placements, source),
    ensures
        table::lookup(update::prune(s, placements).sources, source) == Some(id),
        update::held(update::prune(s, placements).images, id) == update::held(s.images, id),
{
    let kept = update::current_sources(placements);
    let lost = update::images_of_lost_layers(s.sources, kept);
    let filtered = GraphicsState { sources: s.sources.filter(update::from_sources(kept)), ..s };
    table::lemma_filter_keys(s.sources, update::from_sources(kept));
    assert(kept.contains(source));
    assert(table::has_key(filtered.sources, source));
    assert(table::lookup(filtered.sources, source) == Some(id));
    table::lemma_found(filtered.sources, source);
    assert(filtered.sources[table::position(filtered.sources, source)].1 == id);
    assert(table::has_value(filtered.sources, id));
    lemma_kept(filtered, lost, lost.len(), id);
}

/// A source that went away is forgotten.
pub proof fn law_what_went_away_is_forgotten(
    s: GraphicsState,
    placements: Seq<HostPlacement>,
    source: HostSourceKey,
)
    requires
        s.wf(),
        !update::is_current_source(placements, source),
    ensures
        table::lookup(update::prune(s, placements).sources, source) is None,
{
    let kept = update::current_sources(placements);
    let lost = update::images_of_lost_layers(s.sources, kept);
    let filtered = GraphicsState { sources: s.sources.filter(update::from_sources(kept)), ..s };
    table::lemma_filter_keys(s.sources, update::from_sources(kept));
    assert(!kept.contains(source));
    lemma_sources_are(filtered, lost, lost.len());
}

proof fn lemma_sources_are(s: GraphicsState, ids: Seq<u32>, count: nat)
    ensures
        update::drop_unreferenced(s, ids, count).sources == s.sources,
    decreases count,
{
    if count > 0 {
        lemma_sources_are(s, ids, (count - 1) as nat);
    }
}

} // verus!
