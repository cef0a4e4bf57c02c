//! What holds of whole passes over the screen.

use crate::kitty_graphics::clip;
use crate::kitty_graphics::encode::GraphicsCommand;
use crate::kitty_graphics::model::{HostPlacement, HostSourceKey};
use crate::kitty_graphics::update;
use crate::kitty_graphics::update::GraphicsState;
use crate::table;
use vstd::prelude::*;

verus! {

/// The terminal holds and shows the visible placements just as they should be, and nothing
/// else: every image, source and placement stands in its table, every placement of the table is
/// wanted, and every source is still there. A placement can only be passed over where its image is
/// neither held nor at hand.
pub open spec fn settled(s: GraphicsState, placements: Seq<HostPlacement>) -> bool {
    &&& s.wf()
    &&& forall|i: int|
        0 <= i < placements.len() && clip::visible(#[trigger] placements[i]) ==> stands(
            s,
            placements[i],
        ) || passed_over(s, placements[i])
    &&& all_wanted(s, placements)
    &&& forall|k: HostSourceKey| #[trigger]
        table::has_key(s.sources, k) ==> update::is_current_source(placements, k)
}

/// The image, the source and the look of a placement are those the tables say.
pub open spec fn stands(s: GraphicsState, p: HostPlacement) -> bool {
    &&& update::held(s.images, update::image_id_of(p)) == Some(update::content_of(p))
    &&& table::lookup(s.sources, p.source_key) == Some(update::image_id_of(p))
    &&& table::lookup(s.placements, update::key_of(p)) == Some(update::look_of(p))
}

/// The terminal does not hold the image of a placement, and the placement does not bring it.
pub open spec fn passed_over(s: GraphicsState, p: HostPlacement) -> bool {
    update::held(s.images, update::image_id_of(p)) is None && p.placement.data@.len() == 0
}

/// One of the first `count` placements is visible under the key `k`.
pub open spec fn is_wanted(placements: Seq<HostPlacement>, count: nat, k: (u32, u32)) -> bool {
    exists|i: int|
        0 <= i < count && clip::visible(#[trigger] placements[i]) && update::key_of(placements[i])
            == k
}

/// Every placement of the table belongs to an image that the terminal holds.
pub open spec fn all_have_images(s: GraphicsState) -> bool {
    forall|k: (u32, u32)| #[trigger]
        table::has_key(s.placements, k) ==> s.images.contains_key(k.0)
}

/// Every placement of the table is one of the visible placements.
pub open spec fn all_wanted(s: GraphicsState, placements: Seq<HostPlacement>) -> bool {
    forall|k: (u32, u32)| #[trigger]
        table::has_key(s.placements, k) ==> is_wanted(placements, placements.len(), k)
}

/// No two visible placements compete for a key, those of one source have one image, and two that
/// share an image id share the content too. One image may be placed many times.
pub open spec fn independent(placements: Seq<HostPlacement>) -> bool {
    forall|i: int, j: int|
        0 <= i < placements.len() && 0 <= j < placements.len() && i != j && clip::visible(
            #[trigger] placements[i],
        ) && clip::visible(#[trigger] placements[j]) ==> {
            &&& update::key_of(placements[i]) != update::key_of(placements[j])
            &&& placements[i].source_key == placements[j].source_key ==> update::image_id_of(
                placements[i],
            ) == update::image_id_of(placements[j])
            &&& update::image_id_of(placements[i]) == update::image_id_of(placements[j])
                ==> update::content_of(placements[i]) == update::content_of(placements[j])
        }
}

/// No image that the terminal holds has the id of a visible placement but another content.
pub open spec fn collision_free(s: GraphicsState, placements: Seq<HostPlacement>) -> bool {
    forall|i: int|
        0 <= i < placements.len() && clip::visible(#[trigger] placements[i]) ==> (update::held(
            s.images,
            update::image_id_of(placements[i]),
        ) is None || update::held(s.images, update::image_id_of(placements[i])) == Some(
            update::content_of(placements[i]),
        ))
}

/// The terminal holds the image of a placement.
pub open spec fn holds_image(s: GraphicsState, p: HostPlacement) -> bool {
    update::held(s.images, update::image_id_of(p)) == Some(update::content_of(p))
}

/// Placement number `i` gets its image in a pass: it brings the data, or the terminal holds the
/// image when its turn comes.
pub open spec fn taken(
    s: GraphicsState,
    placements: Seq<HostPlacement>,
    i: int,
    view_changed: bool,
) -> bool {
    ||| placements[i].placement.data@.len() > 0
    ||| holds_image(
        update::place_all(update::prune(s, placements), placements, i as nat, view_changed),
        placements[i],
    )
}

/// No visible placement comes too early in a pass: before another one that brings the image which
/// it lacks.
pub open spec fn in_order(
    s: GraphicsState,
    placements: Seq<HostPlacement>,
    view_changed: bool,
) -> bool {
    forall|i: int|
        0 <= i < placements.len() && clip::visible(#[trigger] placements[i]) ==> taken(
            s,
            placements,
            i,
            view_changed,
        ) || !holds_image(update::spec_update(s, placements, view_changed), placements[i])
}

/// A source that stays with the image `id`: it has it, it is still there, and no visible placement
/// gives it another.
pub open spec fn stays_with(
    s: GraphicsState,
    placements: Seq<HostPlacement>,
    k: HostSourceKey,
    id: u32,
) -> bool {
    &&& table::lookup(s.sources, k) == Some(id)
    &&& update::is_current_source(placements, k)
    &&& forall|i: int|
        0 <= i < placements.len() && clip::visible(#[trigger] placements[i])
            && placements[i].source_key == k ==> update::image_id_of(placements[i]) == id
}

/// No visible placement brings the image `id`.
pub open spec fn nobody_brings(placements: Seq<HostPlacement>, id: u32) -> bool {
    forall|i: int|
        0 <= i < placements.len() && clip::visible(#[trigger] placements[i])
            && update::image_id_of(placements[i]) == id ==> placements[i].placement.data@.len() == 0
}

/// Every visible placement brings its image data, or the terminal holds the image for a source that
/// stays with it, or nobody brings the data.
pub open spec fn provided(s: GraphicsState, placements: Seq<HostPlacement>) -> bool {
    forall|i: int|
        0 <= i < placements.len() && clip::visible(#[trigger] placements[i]) ==> {
            ||| placements[i].placement.data@.len() > 0
            ||| holds_image(s, placements[i]) && exists|k: HostSourceKey| #[trigger]
                stays_with(s, placements, k, update::image_id_of(placements[i]))
            ||| nobody_brings(placements, update::image_id_of(placements[i]))
        }
}

proof fn lemma_filter_all<A>(s: Seq<A>, keep: spec_fn(A) -> bool)
    requires
        forall|i: int| 0 <= i < s.len() ==> keep(#[trigger] s[i]),
    ensures
        s.filter(keep) == s,
    decreases s.len(),
{
    reveal(Seq::filter);
    if s.len() > 0 {
        assert forall|i: int| 0 <= i < s.drop_last().len() implies keep(
            #[trigger] s.drop_last()[i],
        ) by {
            assert(s.drop_last()[i] == s[i]);
        }
        lemma_filter_all(s.drop_last(), keep);
        assert(s.drop_last().push(s.last()) =~= s);
    }
}

proof fn lemma_no_lost_layers(sources: Seq<(HostSourceKey, u32)>, kept: Set<HostSourceKey>)
    requires
        forall|i: int| 0 <= i < sources.len() ==> kept.contains(#[trigger] sources[i].0),
    ensures
        update::images_of_lost_layers(sources, kept).len() == 0,
    decreases sources.len(),
{
    if sources.len() > 0 {
        assert forall|i: int| 0 <= i < sources.drop_last().len() implies kept.contains(
            #[trigger] sources.drop_last()[i].0,
        ) by {
            assert(sources.drop_last()[i] == sources[i]);
        }
        lemma_no_lost_layers(sources.drop_last(), kept);
        assert(kept.contains(sources[sources.len() - 1].0));
    }
}

proof fn lemma_no_stale(
    placements: Seq<((u32, u32), crate::kitty_graphics::model::PlacementSignature)>,
    current: Set<(u32, u32)>,
)
    requires
        forall|i: int| 0 <= i < placements.len() ==> current.contains(#[trigger] placements[i].0),
    ensures
        update::stale_commands(placements, current).len() == 0,
    decreases placements.len(),
{
    if placements.len() > 0 {
        assert forall|i: int| 0 <= i < placements.drop_last().len() implies current.contains(
            #[trigger] placements.drop_last()[i].0,
        ) by {
            assert(placements.drop_last()[i] == placements[i]);
        }
        lemma_no_stale(placements.drop_last(), current);
        assert(current.contains(placements[placements.len() - 1].0));
    }
}

/// Storing under a key the value that it has changes nothing.
proof fn lemma_put_same<K, V>(s: Seq<(K, V)>, k: K, v: V)
    requires
        table::lookup(s, k) == Some(v),
    ensures
        table::put(s, k, v) == s,
{
    table::lemma_found(s, k);
    assert(table::put(s, k, v) =~= s);
}

/// A settled screen has nothing to prune.
proof fn lemma_prune_settled(s: GraphicsState, placements: Seq<HostPlacement>)
    requires
        settled(s, placements),
    ensures
        update::prune(s, placements) == s,
{
    let kept = update::current_sources(placements);
    assert forall|i: int| 0 <= i < s.sources.len() implies kept.contains(
        #[trigger] s.sources[i].0,
    ) by {
        assert(table::has_key(s.sources, s.sources[i].0));
    }
    assert forall|i: int| 0 <= i < s.sources.len() implies update::from_sources(kept)(
        #[trigger] s.sources[i],
    ) by {}
    lemma_filter_all(s.sources, update::from_sources(kept));
    lemma_no_lost_layers(s.sources, kept);
    assert(update::prune(s, placements) =~= s);
}

/// The commands that show the first `count` placements, as far as they are visible and their
/// images are there.
pub open spec fn displays(
    s: GraphicsState,
    placements: Seq<HostPlacement>,
    count: nat,
) -> Seq<GraphicsCommand>
    decreases count,
{
    if count == 0 {
        Seq::empty()
    } else {
        let before = displays(s, placements, (count - 1) as nat);
        let p = placements[count - 1];
        if clip::visible(p) && !passed_over(s, p) {
            before.push(
                GraphicsCommand::Display {
                    clipped: clip::clipped(p),
                    host_id: update::image_id_of(p),
                    host_placement_id: update::placement_id_of(p),
                    z: p.placement.z,
                },
            )
        } else {
            before
        }
    }
}

/// The keys of the visible ones among the first `count` placements.
spec fn wanted_keys(placements: Seq<HostPlacement>, count: nat) -> Set<(u32, u32)> {
    Set::new(|k: (u32, u32)| is_wanted(placements, count, k))
}

proof fn lemma_place_settled(
    s: GraphicsState,
    placements: Seq<HostPlacement>,
    count: nat,
    view_changed: bool,
)
    requires
        settled(s, placements),
        s.commands.len() == 0,
        s.current =~= Set::empty(),
        count <= placements.len(),
    ensures
        update::place_all(s, placements, count, view_changed) == (GraphicsState {
            commands: if view_changed {
                displays(s, placements, count)
            } else {
                Seq::empty()
            },
            current: wanted_keys(placements, count),
            ..s
        }),
    decreases count,
{
    let after = update::place_all(s, placements, count, view_changed);
    if count == 0 {
        assert(wanted_keys(placements, count) =~= s.current);
        assert(s.commands =~= Seq::empty());
        assert(after =~= (GraphicsState {
            commands: if view_changed {
                displays(s, placements, count)
            } else {
                Seq::empty()
            },
            current: wanted_keys(placements, count),
            ..s
        }));
    } else {
        let n = (count - 1) as nat;
        lemma_place_settled(s, placements, n, view_changed);
        let before = update::place_all(s, placements, n, view_changed);
        let p = placements[count - 1];
        assert forall|k: (u32, u32)| #[trigger]
            is_wanted(placements, count, k) <==> is_wanted(placements, n, k) || (clip::visible(p)
            && update::key_of(p) == k) by {
            if is_wanted(placements, count, k) {
                let i = choose|i: int|
                    0 <= i < count && clip::visible(#[trigger] placements[i]) && update::key_of(
                        placements[i],
                    ) == k;
                if i < n {
                    assert(is_wanted(placements, n, k));
                }
            }
            if is_wanted(placements, n, k) {
                let i = choose|i: int|
                    0 <= i < n && clip::visible(#[trigger] placements[i]) && update::key_of(
                        placements[i],
                    ) == k;
                assert(clip::visible(placements[i]));
            }
            if clip::visible(p) && update::key_of(p) == k {
                assert(clip::visible(placements[count - 1]));
            }
        }
        if clip::visible(p) {
            assert(stands(s, placements[count - 1]) || passed_over(s, placements[count - 1]));
            let wanted = GraphicsState {
                current: before.current.insert(update::key_of(p)),
                ..before
            };
            assert(wanted.current =~= wanted_keys(placements, count));
            if passed_over(s, p) {
                assert(after == wanted);
            } else {
                lemma_put_same(s.sources, p.source_key, update::image_id_of(p));
                assert(update::retarget(wanted, p.source_key, update::image_id_of(p)) =~= wanted);
                lemma_put_same(s.placements, update::key_of(p), update::look_of(p));
                assert(after == update::show(wanted, p, view_changed));
            }
        } else {
            assert(before.current =~= wanted_keys(placements, count));
        }
        assert(after =~= (GraphicsState {
            commands: if view_changed {
                displays(s, placements, count)
            } else {
                Seq::empty()
            },
            current: wanted_keys(placements, count),
            ..s
        }));
    }
}

/// A pass over a settled screen changes no table. It says nothing when the view is the same,
/// and shows every visible placement once more, in order, when the view is another. Of a placement
/// that was passed over there is nothing to show.
pub proof fn law_settled_screen_stays(
    s: GraphicsState,
    placements: Seq<HostPlacement>,
    view_changed: bool,
)
    requires
        settled(s, placements),
        s.commands.len() == 0,
        s.current =~= Set::empty(),
    ensures
        ({
            let after = update::spec_update(s, placements, view_changed);
            &&& after.images == s.images
            &&& after.placements == s.placements
            &&& after.sources == s.sources
            &&& after.commands == (if view_changed {
                displays(s, placements, placements.len())
            } else {
                Seq::empty()
            })
        }),
{
    lemma_prune_settled(s, placements);
    lemma_place_settled(s, placements, placements.len(), view_changed);
    let placed = update::place_all(s, placements, placements.len(), view_changed);
    assert forall|i: int| 0 <= i < placed.placements.len() implies placed.current.contains(
        #[trigger] placed.placements[i].0,
    ) by {
        assert(table::has_key(s.placements, s.placements[i].0));
    }
    lemma_no_stale(placed.placements, placed.current);
    assert forall|i: int| 0 <= i < placed.placements.len() implies update::among(placed.current)(
        #[trigger] placed.placements[i],
    ) by {}
    lemma_filter_all(placed.placements, update::among(placed.current));
    assert(update::spec_update(s, placements, view_changed).commands =~= placed.commands);
}

/// Dropping unreferenced images keeps what is known of the others.
proof fn lemma_drop_unreferenced_images(s: GraphicsState, ids: Seq<u32>, count: nat)
    requires
        s.wf(),
        s.current =~= Set::empty(),
    ensures
        ({
            let after = update::drop_unreferenced(s, ids, count);
            &&& after.wf()
            &&& after.sources == s.sources
            &&& after.current =~= Set::empty()
            &&& forall|id: u32| #[trigger]
                update::held(after.images, id) is None || update::held(after.images, id)
                    == update::held(s.images, id)
            &&& forall|id: u32|
                table::has_value(s.sources, id) ==> #[trigger] update::held(after.images, id)
                    == update::held(s.images, id)
        }),
    decreases count,
{
    if count > 0 {
        let n = (count - 1) as nat;
        lemma_drop_unreferenced_images(s, ids, n);
        let before = update::drop_unreferenced(s, ids, n);
        let after = update::drop_unreferenced(s, ids, count);
        let dropped = ids[count - 1];
        if !table::has_value(before.sources, dropped) {
            update::lemma_drop_image(before, dropped);
            assert forall|id: u32| #[trigger]
                update::held(after.images, id) is None || update::held(after.images, id)
                    == update::held(s.images, id) by {
                if id != dropped {
                    assert(update::held(after.images, id) == update::held(before.images, id));
                }
            }
            assert forall|id: u32| table::has_value(s.sources, id) implies #[trigger] update::held(
                after.images,
                id,
            ) == update::held(s.images, id) by {
                assert(update::held(after.images, id) == update::held(before.images, id));
            }
        }
    }
}

/// What a pass has reached after `count` placements; `got` tells those that got their image.
spec fn reached(
    s: GraphicsState,
    placements: Seq<HostPlacement>,
    count: nat,
    got: spec_fn(int) -> bool,
) -> bool {
    &&& s.wf()
    &&& collision_free(s, placements)
    &&& forall|i: int|
        0 <= i < count && got(i) && clip::visible(#[trigger] placements[i]) ==> stands(
            s,
            placements[i],
        ) && s.current.contains(update::key_of(placements[i]))
    &&& forall|k: (u32, u32)| #[trigger] s.current.contains(k) ==> is_wanted(placements, count, k)
    &&& forall|k: HostSourceKey| #[trigger]
        table::has_key(s.sources, k) ==> update::is_current_source(placements, k)
}

/// Giving a visible placement's source its image keeps what earlier placements have.
proof fn lemma_retarget_reached(
    s: GraphicsState,
    placements: Seq<HostPlacement>,
    n: int,
    got: spec_fn(int) -> bool,
)
    requires
        0 <= n < placements.len(),
        independent(placements),
        clip::visible(placements[n]),
        s.wf(),
        collision_free(s, placements),
        update::held(s.images, update::image_id_of(placements[n])) == Some(
            update::content_of(placements[n]),
        ),
        s.current.contains(update::key_of(placements[n])),
        forall|i: int|
            0 <= i < n && got(i) && clip::visible(#[trigger] placements[i]) ==> stands(
                s,
                placements[i],
            ) && s.current.contains(update::key_of(placements[i])),
        forall|k: (u32, u32)| #[trigger]
            s.current.contains(k) ==> is_wanted(placements, (n + 1) as nat, k),
        forall|k: HostSourceKey| #[trigger]
            table::has_key(s.sources, k) ==> update::is_current_source(placements, k),
    ensures
        ({
            let p = placements[n];
            let t = update::retarget(s, p.source_key, update::image_id_of(p));
            &&& t.wf()
            &&& collision_free(t, placements)
            &&& update::held(t.images, update::image_id_of(p)) == Some(update::content_of(p))
            &&& table::lookup(t.sources, p.source_key) == Some(update::image_id_of(p))
            &&& t.current.contains(update::key_of(p))
            &&& forall|i: int|
                0 <= i < n && got(i) && clip::visible(#[trigger] placements[i]) ==> stands(
                    t,
                    placements[i],
                ) && t.current.contains(update::key_of(placements[i]))
            &&& forall|k: (u32, u32)| #[trigger]
                t.current.contains(k) ==> is_wanted(placements, (n + 1) as nat, k)
            &&& forall|k: HostSourceKey| #[trigger]
                table::has_key(t.sources, k) ==> update::is_current_source(placements, k)
        }),
{
    let p = placements[n];
    let id = update::image_id_of(p);
    let t = update::retarget(s, p.source_key, id);
    update::lemma_retarget(s, p.source_key, id);
    table::lemma_put(s.sources, p.source_key, id);
    let moved = GraphicsState { sources: table::put(s.sources, p.source_key, id), ..s };
    update::lemma_moved_wf(s, p.source_key, id);
    assert(update::is_current_source(placements, p.source_key)) by {
        assert(placements[n].source_key == p.source_key);
        assert(clip::spec_clip(placements[n]) is Some);
    }
    assert forall|i: int|
        0 <= i < n && got(i) && clip::visible(#[trigger] placements[i]) implies stands(
        moved,
        placements[i],
    ) && table::has_value(moved.sources, update::image_id_of(placements[i])) by {
        let key = placements[i].source_key;
        if key == placements[n].source_key {
            assert(update::image_id_of(placements[i]) == id);
        } else {
            assert(table::lookup(moved.sources, key) == table::lookup(s.sources, key));
        }
        table::lemma_found(moved.sources, key);
    }
    match table::lookup(s.sources, p.source_key) {
        None => {},
        Some(previous) => {
            if previous != id && !table::has_value(moved.sources, previous) {
                update::lemma_drop_image(moved, previous);
                assert(t == update::drop_image(moved, previous));
                assert forall|i: int|
                    0 <= i < n && got(i) && clip::visible(#[trigger] placements[i]) implies stands(
                    t,
                    placements[i],
                ) && t.current.contains(update::key_of(placements[i])) by {
                    let other = update::image_id_of(placements[i]);
                    assert(other != previous);
                    assert(update::held(t.images, other) == update::held(s.images, other));
                    assert(update::key_of(placements[i]).0 == other);
                }
                assert(collision_free(t, placements)) by {
                    assert forall|i: int|
                        0 <= i < placements.len() && clip::visible(
                            #[trigger] placements[i],
                        ) implies (update::held(
                            t.images,
                            update::image_id_of(placements[i]),
                        ) is None
                        || update::held(t.images, update::image_id_of(placements[i])) == Some(
                        update::content_of(placements[i]),
                    )) by {
                        let other = update::image_id_of(placements[i]);
                        if other != previous {
                            assert(update::held(t.images, other) == update::held(s.images, other));
                        }
                    }
                }
                assert(update::key_of(p).0 == id);
            }
        },
    }
}

/// Showing a visible placement keeps what earlier placements have.
proof fn lemma_show_reached(
    s: GraphicsState,
    placements: Seq<HostPlacement>,
    n: int,
    view_changed: bool,
    got: spec_fn(int) -> bool,
)
    requires
        0 <= n < placements.len(),
        independent(placements),
        clip::visible(placements[n]),
        s.wf(),
        collision_free(s, placements),
        update::held(s.images, update::image_id_of(placements[n])) == Some(
            update::content_of(placements[n]),
        ),
        table::lookup(s.sources, placements[n].source_key) == Some(
            update::image_id_of(placements[n]),
        ),
        s.current.contains(update::key_of(placements[n])),
        forall|i: int|
            0 <= i < n && got(i) && clip::visible(#[trigger] placements[i]) ==> stands(
                s,
                placements[i],
            ) && s.current.contains(update::key_of(placements[i])),
        forall|k: (u32, u32)| #[trigger]
            s.current.contains(k) ==> is_wanted(placements, (n + 1) as nat, k),
        forall|k: HostSourceKey| #[trigger]
            table::has_key(s.sources, k) ==> update::is_current_source(placements, k),
    ensures
        reached(
            update::show(s, placements[n], view_changed),
            placements,
            (n + 1) as nat,
            got,
        ),
{
    let p = placements[n];
    let shown = update::show(s, p, view_changed);
    update::lemma_show(s, p, view_changed);
    table::lemma_put(s.placements, update::key_of(p), update::look_of(p));
    assert(stands(shown, placements[n]));
    assert forall|i: int|
        0 <= i < n + 1 && got(i) && clip::visible(#[trigger] placements[i]) implies stands(
        shown,
        placements[i],
    ) && shown.current.contains(update::key_of(placements[i])) by {
        if i < n {
            assert(update::key_of(placements[i]) != update::key_of(placements[n]));
            let key = update::key_of(placements[i]);
            assert(stands(s, placements[i]));
            if shown.placements != s.placements {
                assert(table::lookup(shown.placements, key) == table::lookup(s.placements, key));
            }
        }
    }
    assert(collision_free(shown, placements)) by {
        assert(collision_free(s, placements));
    }
}

proof fn lemma_place_reached(
    s: GraphicsState,
    placements: Seq<HostPlacement>,
    count: nat,
    view_changed: bool,
    got: spec_fn(int) -> bool,
)
    requires
        reached(s, placements, 0, got),
        independent(placements),
        count <= placements.len(),
        forall|i: int|
            0 <= i < placements.len() && #[trigger] got(i)
                ==> placements[i].placement.data@.len() > 0 || holds_image(
                update::place_all(s, placements, i as nat, view_changed),
                placements[i],
            ),
    ensures
        reached(update::place_all(s, placements, count, view_changed), placements, count, got),
    decreases count,
{
    if count > 0 {
        let n = count - 1;
        lemma_place_reached(s, placements, n as nat, view_changed, got);
        let before = update::place_all(s, placements, n as nat, view_changed);
        let p = placements[n];
        let after = update::place(before, p, n, view_changed);
        assert(after == update::place_all(s, placements, count, view_changed));
        assert forall|k: (u32, u32)| is_wanted(placements, n as nat, k) implies #[trigger]
            is_wanted(placements, count, k) by {
            let i = choose|i: int|
                0 <= i < n && clip::visible(#[trigger] placements[i]) && update::key_of(
                    placements[i],
                ) == k;
            assert(clip::visible(placements[i]));
        }
        if !clip::visible(p) {
            assert(after == before);
            assert(reached(after, placements, count, got));
        } else if passed_over(before, p) {
            assert(!got(n));
            assert(after.current == before.current.insert(update::key_of(p)));
            assert(is_wanted(placements, count, update::key_of(p))) by {
                assert(clip::visible(placements[n]));
            }
            assert(collision_free(after, placements));
            assert forall|i: int|
                0 <= i < count && got(i) && clip::visible(#[trigger] placements[i]) implies stands(
                after,
                placements[i],
            ) && after.current.contains(update::key_of(placements[i])) by {
                assert(stands(before, placements[i]));
            }
            assert(reached(after, placements, count, got));
        } else {
            assert(is_wanted(placements, count, update::key_of(p))) by {
                assert(clip::visible(placements[n]));
            }
            let id = update::image_id_of(p);
            let wanted = GraphicsState {
                current: before.current.insert(update::key_of(p)),
                ..before
            };
            let known = update::held(before.images, id);
            assert(clip::visible(placements[n]));
            assert(known is None || known == Some(update::content_of(p)));
            let ready = if known is Some {
                wanted
            } else {
                update::upload(wanted, p, n)
            };
            assert(collision_free(ready, placements)) by {
                assert forall|i: int|
                    0 <= i < placements.len() && clip::visible(#[trigger] placements[i]) implies (
                update::held(ready.images, update::image_id_of(placements[i])) is None
                    || update::held(ready.images, update::image_id_of(placements[i])) == Some(
                    update::content_of(placements[i]),
                )) by {
                    let other = update::image_id_of(placements[i]);
                    if other == id {
                        if i != n {
                            assert(update::image_id_of(placements[i]) == update::image_id_of(
                                placements[n],
                            ));
                        }
                    } else if known is None {
                        assert(update::held(ready.images, other) == update::held(
                            before.images,
                            other,
                        ));
                    }
                }
            }
            if known is None {
                update::lemma_upload(wanted, p, n);
            }
            assert forall|i: int|
                0 <= i < n && got(i) && clip::visible(#[trigger] placements[i]) implies stands(
                ready,
                placements[i],
            ) && ready.current.contains(update::key_of(placements[i])) by {
                let other = update::image_id_of(placements[i]);
                if known is None && other != id {
                    assert(update::held(ready.images, other) == update::held(before.images, other));
                }
            }
            assert(update::held(ready.images, id) == Some(update::content_of(p)));
            lemma_retarget_reached(ready, placements, n, got);
            let moved = update::retarget(ready, p.source_key, id);
            let shown = update::show(moved, p, view_changed);
            lemma_show_reached(moved, placements, n, view_changed, got);
            assert(after.images == shown.images && after.sources == shown.sources
                && after.placements == shown.placements && after.current == shown.current) by {
                if known is None {
                    assert(p.placement.data@.len() > 0);
                    assert(after == update::animate(shown, p, n));
                } else {
                    assert(after == shown);
                }
            }
            assert forall|i: int|
                0 <= i < count && got(i) && clip::visible(#[trigger] placements[i]) implies stands(
                after,
                placements[i],
            ) && after.current.contains(update::key_of(placements[i])) by {
                assert(stands(shown, placements[i]));
            }
            assert(collision_free(after, placements)) by {
                assert(collision_free(shown, placements));
            }
        }
    }
}

/// What a pass starts from, once the sources that went away are forgotten.
proof fn lemma_pruned(s: GraphicsState, placements: Seq<HostPlacement>, got: spec_fn(int) -> bool)
    requires
        s.wf(),
        s.current =~= Set::empty(),
        collision_free(s, placements),
    ensures
        reached(update::prune(s, placements), placements, 0, got),
        forall|k: HostSourceKey|
            update::is_current_source(placements, k) ==> #[trigger] table::lookup(
                update::prune(s, placements).sources,
                k,
            ) == table::lookup(s.sources, k),
        forall|id: u32|
            table::has_value(update::prune(s, placements).sources, id) ==> #[trigger] update::held(
                update::prune(s, placements).images,
                id,
            ) == update::held(s.images, id),
{
    let kept = update::current_sources(placements);
    let lost = update::images_of_lost_layers(s.sources, kept);
    let filtered = GraphicsState { sources: s.sources.filter(update::from_sources(kept)), ..s };
    update::lemma_filter_sources(s, kept);
    table::lemma_filter_keys(s.sources, update::from_sources(kept));
    lemma_drop_unreferenced_images(filtered, lost, lost.len());
    let pruned = update::prune(s, placements);
    assert(collision_free(pruned, placements)) by {
        assert forall|i: int|
            0 <= i < placements.len() && clip::visible(#[trigger] placements[i]) implies (
        update::held(pruned.images, update::image_id_of(placements[i])) is None || update::held(
            pruned.images,
            update::image_id_of(placements[i]),
        ) == Some(update::content_of(placements[i]))) by {
            let id = update::image_id_of(placements[i]);
            assert(update::held(pruned.images, id) is None || update::held(pruned.images, id)
                == update::held(s.images, id));
        }
    }
    assert forall|k: HostSourceKey| #[trigger]
        table::has_key(pruned.sources, k) implies update::is_current_source(placements, k) by {
        assert(kept.contains(k));
    }
    assert forall|k: HostSourceKey|
        update::is_current_source(placements, k) implies #[trigger] table::lookup(
        pruned.sources,
        k,
    ) == table::lookup(s.sources, k) by {
        assert(kept.contains(k));
        assert(table::has_key(pruned.sources, k) <==> table::has_key(s.sources, k));
    }
}

/// What stands in a filtered table stood in it before, and was to be kept.
proof fn lemma_filter_keeps<K, V>(s: Seq<(K, V)>, keep: spec_fn((K, V)) -> bool, k: K)
    requires
        table::has_key(s.filter(keep), k),
    ensures
        exists|i: int| 0 <= i < s.len() && #[trigger] s[i].0 == k && keep(s[i]),
    decreases s.len(),
{
    reveal(Seq::filter);
    if s.len() > 0 {
        let before = s.drop_last().filter(keep);
        let at = choose|i: int| 0 <= i < s.filter(keep).len() && #[trigger] s.filter(keep)[i].0 == k;
        if at < before.len() {
            assert(before[at].0 == k);
            lemma_filter_keeps(s.drop_last(), keep, k);
            let i = choose|i: int|
                0 <= i < s.drop_last().len() && #[trigger] s.drop_last()[i].0 == k && keep(
                    s.drop_last()[i],
                );
            assert(s[i].0 == k && keep(s[i]));
        } else {
            assert(s[s.len() - 1].0 == k && keep(s[s.len() - 1]));
        }
    }
}

/// Forgetting the placements of an image makes none wanted.
proof fn lemma_drop_unreferenced_current(s: GraphicsState, ids: Seq<u32>, count: nat)
    ensures
        update::drop_unreferenced(s, ids, count).current.subset_of(s.current),
    decreases count,
{
    if count > 0 {
        lemma_drop_unreferenced_current(s, ids, (count - 1) as nat);
    }
}

/// A pass finds wanted what is visible, and nothing else.
proof fn lemma_current_is_wanted(
    s: GraphicsState,
    placements: Seq<HostPlacement>,
    count: nat,
    view_changed: bool,
)
    requires
        s.current =~= Set::empty(),
        count <= placements.len(),
    ensures
        forall|k: (u32, u32)| #[trigger]
            update::place_all(s, placements, count, view_changed).current.contains(k) ==> is_wanted(
                placements,
                count,
                k,
            ),
    decreases count,
{
    if count > 0 {
        let n = count - 1;
        lemma_current_is_wanted(s, placements, n as nat, view_changed);
        let before = update::place_all(s, placements, n as nat, view_changed);
        let after = update::place_all(s, placements, count, view_changed);
        let p = placements[n];
        assert(after == update::place(before, p, n, view_changed));
        assert forall|k: (u32, u32)| #[trigger] after.current.contains(k) implies is_wanted(
            placements,
            count,
            k,
        ) by {
            if before.current.contains(k) {
                let i = choose|i: int|
                    0 <= i < n && clip::visible(#[trigger] placements[i]) && update::key_of(
                        placements[i],
                    ) == k;
                assert(clip::visible(placements[i]));
            } else {
                assert(clip::visible(placements[n]) && k == update::key_of(placements[n]));
            }
        }
    }
}

/// After a pass, whatever came before it, the table holds no placement but the visible ones of the
/// pass.
pub proof fn law_only_wanted_placements_stay(
    s: GraphicsState,
    placements: Seq<HostPlacement>,
    view_changed: bool,
)
    requires
        s.current =~= Set::empty(),
    ensures
        all_wanted(update::spec_update(s, placements, view_changed), placements),
{
    let kept = update::current_sources(placements);
    let lost = update::images_of_lost_layers(s.sources, kept);
    let filtered = GraphicsState { sources: s.sources.filter(update::from_sources(kept)), ..s };
    lemma_drop_unreferenced_current(filtered, lost, lost.len());
    let pruned = update::prune(s, placements);
    lemma_current_is_wanted(pruned, placements, placements.len(), view_changed);
    let placed = update::place_all(pruned, placements, placements.len(), view_changed);
    let after = update::spec_update(s, placements, view_changed);
    assert forall|k: (u32, u32)| #[trigger] table::has_key(after.placements, k) implies is_wanted(
        placements,
        placements.len(),
        k,
    ) by {
        lemma_filter_keeps(placed.placements, update::among(placed.current), k);
        assert(placed.current.contains(k));
    }
}

proof fn lemma_forget_keeps_images(s: GraphicsState, id: u32)
    requires
        all_have_images(s),
    ensures
        all_have_images(update::forget_placements(s, id)),
        all_have_images(update::drop_image(s, id)),
{
    let t = update::forget_placements(s, id);
    let u = update::drop_image(s, id);
    assert(u.placements == t.placements);
    assert forall|k: (u32, u32)| #[trigger] table::has_key(t.placements, k) implies k.0 != id
        && t.images.contains_key(k.0) by {
        lemma_filter_keeps(s.placements, update::on_other_images(id), k);
        assert(table::has_key(s.placements, k));
    }
    assert forall|k: (u32, u32)| #[trigger]
        table::has_key(u.placements, k) implies u.images.contains_key(k.0) by {
        assert(table::has_key(t.placements, k));
    }
}

proof fn lemma_drop_unreferenced_keeps_images(s: GraphicsState, ids: Seq<u32>, count: nat)
    requires
        all_have_images(s),
    ensures
        all_have_images(update::drop_unreferenced(s, ids, count)),
    decreases count,
{
    if count > 0 {
        lemma_drop_unreferenced_keeps_images(s, ids, (count - 1) as nat);
        let before = update::drop_unreferenced(s, ids, (count - 1) as nat);
        lemma_forget_keeps_images(before, ids[count - 1]);
    }
}

/// A placement that is shown with its image at hand keeps every placement with its image.
proof fn lemma_show_keeps_images(s: GraphicsState, p: HostPlacement, view_changed: bool)
    requires
        all_have_images(s),
        s.images.contains_key(update::image_id_of(p)),
    ensures
        ({
            let moved = update::retarget(s, p.source_key, update::image_id_of(p));
            all_have_images(update::show(moved, p, view_changed))
        }),
{
    let id = update::image_id_of(p);
    let put = GraphicsState { sources: table::put(s.sources, p.source_key, id), ..s };
    assert(all_have_images(put));
    let moved = update::retarget(s, p.source_key, id);
    match table::lookup(s.sources, p.source_key) {
        None => {},
        Some(previous) => {
            lemma_forget_keeps_images(put, previous);
        },
    }
    assert(all_have_images(moved) && moved.images.contains_key(id));
    let shown = update::show(moved, p, view_changed);
    assert forall|k: (u32, u32)| #[trigger]
        table::has_key(shown.placements, k) implies shown.images.contains_key(k.0) by {
        if k != update::key_of(p) {
            let i = choose|i: int|
                0 <= i < shown.placements.len() && #[trigger] shown.placements[i].0 == k;
            assert(moved.placements[i].0 == k);
            assert(table::has_key(moved.placements, k));
        }
    }
}

proof fn lemma_place_keeps_images(s: GraphicsState, p: HostPlacement, i: int, view_changed: bool)
    requires
        all_have_images(s),
    ensures
        all_have_images(update::place(s, p, i, view_changed)),
{
    if clip::visible(p) {
        let id = update::image_id_of(p);
        let wanted = GraphicsState { current: s.current.insert(update::key_of(p)), ..s };
        assert(all_have_images(wanted));
        let known = update::held(s.images, id);
        if known == Some(update::content_of(p)) {
            lemma_show_keeps_images(wanted, p, view_changed);
        } else {
            let told = GraphicsState {
                commands: wanted.commands.push(GraphicsCommand::DeleteImage { host_id: id }),
                ..wanted
            };
            assert(all_have_images(told));
            lemma_forget_keeps_images(told, id);
            let clear = if known is Some {
                update::forget_placements(told, id)
            } else {
                wanted
            };
            if p.placement.data@.len() > 0 {
                let sent = update::upload(clear, p, i);
                assert(all_have_images(sent)) by {
                    assert forall|k: (u32, u32)| #[trigger]
                        table::has_key(sent.placements, k) implies sent.images.contains_key(k.0) by {
                        assert(table::has_key(clear.placements, k));
                    }
                }
                lemma_show_keeps_images(sent, p, view_changed);
                let shown = update::show(
                    update::retarget(sent, p.source_key, id),
                    p,
                    view_changed,
                );
                assert(all_have_images(update::animate(shown, p, i)));
            }
        }
    }
}

proof fn lemma_place_all_keeps_images(
    s: GraphicsState,
    placements: Seq<HostPlacement>,
    count: nat,
    view_changed: bool,
)
    requires
        all_have_images(s),
    ensures
        all_have_images(update::place_all(s, placements, count, view_changed)),
    decreases count,
{
    if count > 0 {
        let n = count - 1;
        lemma_place_all_keeps_images(s, placements, n as nat, view_changed);
        let before = update::place_all(s, placements, n as nat, view_changed);
        lemma_place_keeps_images(before, placements[n], n, view_changed);
    }
}

/// A pass keeps every placement of the table with its image: where each had one before, each has
/// one after.
pub proof fn law_every_placement_has_its_image(
    s: GraphicsState,
    placements: Seq<HostPlacement>,
    view_changed: bool,
)
    requires
        all_have_images(s),
    ensures
        all_have_images(update::spec_update(s, placements, view_changed)),
{
    let kept = update::current_sources(placements);
    let lost = update::images_of_lost_layers(s.sources, kept);
    let filtered = GraphicsState { sources: s.sources.filter(update::from_sources(kept)), ..s };
    assert(all_have_images(filtered));
    lemma_drop_unreferenced_keeps_images(filtered, lost, lost.len());
    let pruned = update::prune(s, placements);
    lemma_place_all_keeps_images(pruned, placements, placements.len(), view_changed);
    let placed = update::place_all(pruned, placements, placements.len(), view_changed);
    let after = update::spec_update(s, placements, view_changed);
    assert forall|k: (u32, u32)| #[trigger]
        table::has_key(after.placements, k) implies after.images.contains_key(k.0) by {
        lemma_filter_keeps(placed.placements, update::among(placed.current), k);
        assert(table::has_key(placed.placements, k));
    }
}

/// After a pass over placements that do not compete, that come in order, and whose ids collide with
/// no other image, the screen is settled.
pub proof fn law_pass_settles_the_screen(
    s: GraphicsState,
    placements: Seq<HostPlacement>,
    view_changed: bool,
)
    requires
        s.wf(),
        s.current =~= Set::empty(),
        independent(placements),
        collision_free(s, placements),
        in_order(s, placements, view_changed),
    ensures
        settled(update::spec_update(s, placements, view_changed), placements),
{
    let got = |i: int| taken(s, placements, i, view_changed);
    lemma_pruned(s, placements, got);
    let pruned = update::prune(s, placements);
    lemma_place_reached(pruned, placements, placements.len(), view_changed, got);
    let placed = update::place_all(pruned, placements, placements.len(), view_changed);
    let after = update::sweep(placed);
    update::lemma_sweep_wf(placed);
    table::lemma_filter_keys(placed.placements, update::among(placed.current));
    assert forall|i: int|
        0 <= i < placements.len() && clip::visible(#[trigger] placements[i]) implies stands(
        after,
        placements[i],
    ) || passed_over(after, placements[i]) by {
        if got(i) {
            let key = update::key_of(placements[i]);
            assert(stands(placed, placements[i]));
            assert(table::has_key(placed.placements, key));
            assert(table::has_key(after.placements, key));
        } else {
            assert(!holds_image(after, placements[i]));
            assert(collision_free(placed, placements));
        }
    }
    law_only_wanted_placements_stay(s, placements, view_changed);
}

/// A second pass over the same placements says nothing and changes nothing, whatever the first one
/// had to do.
pub proof fn law_second_pass_says_nothing(
    s: GraphicsState,
    placements: Seq<HostPlacement>,
    view_changed: bool,
)
    requires
        s.wf(),
        s.current =~= Set::empty(),
        independent(placements),
        collision_free(s, placements),
        in_order(s, placements, view_changed),
    ensures
        ({
            let first = update::spec_update(s, placements, view_changed);
            let start = GraphicsState { commands: Seq::empty(), current: Set::empty(), ..first };
            let second = update::spec_update(start, placements, false);
            &&& second.commands == Seq::<GraphicsCommand>::empty()
            &&& second.images == first.images
            &&& second.placements == first.placements
            &&& second.sources == first.sources
        }),
{
    law_pass_settles_the_screen(s, placements, view_changed);
    let first = update::spec_update(s, placements, view_changed);
    let start = GraphicsState { commands: Seq::empty(), current: Set::empty(), ..first };
    assert(settled(start, placements)) by {
        assert forall|i: int|
            0 <= i < placements.len() && clip::visible(#[trigger] placements[i]) implies stands(
            start,
            placements[i],
        ) || passed_over(start, placements[i]) by {
            assert(stands(first, placements[i]) || passed_over(first, placements[i]));
        }
    }
    law_settled_screen_stays(start, placements, false);
}

/// While a source stays with an image, a pass keeps that image.
proof fn lemma_image_stays(
    s: GraphicsState,
    placements: Seq<HostPlacement>,
    count: nat,
    view_changed: bool,
    k: HostSourceKey,
    id: u32,
)
    requires
        reached(s, placements, 0, |i: int| false),
        independent(placements),
        count <= placements.len(),
        table::lookup(s.sources, k) == Some(id),
        update::held(s.images, id) is Some,
        forall|i: int|
            0 <= i < placements.len() && clip::visible(#[trigger] placements[i])
                && placements[i].source_key == k ==> update::image_id_of(placements[i]) == id,
    ensures
        table::lookup(update::place_all(s, placements, count, view_changed).sources, k) == Some(id),
        update::held(update::place_all(s, placements, count, view_changed).images, id)
            == update::held(s.images, id),
    decreases count,
{
    if count > 0 {
        let n = count - 1;
        lemma_image_stays(s, placements, n as nat, view_changed, k, id);
        lemma_place_reached(s, placements, n as nat, view_changed, |i: int| false);
        let before = update::place_all(s, placements, n as nat, view_changed);
        let p = placements[n];
        let after = update::place(before, p, n, view_changed);
        assert(after == update::place_all(s, placements, count, view_changed));
        if clip::visible(p) && !passed_over(before, p) {
            let target = update::image_id_of(p);
            let known = update::held(before.images, target);
            assert(clip::visible(placements[n]));
            assert(known is None || known == Some(update::content_of(p)));
            let wanted = GraphicsState {
                current: before.current.insert(update::key_of(p)),
                ..before
            };
            let ready = if known is Some {
                wanted
            } else {
                update::upload(wanted, p, n)
            };
            if known is None {
                update::lemma_upload(wanted, p, n);
            }
            assert(update::held(ready.images, id) == update::held(s.images, id));
            update::lemma_retarget(ready, p.source_key, target);
            update::lemma_moved_wf(ready, p.source_key, target);
            table::lemma_put(ready.sources, p.source_key, target);
            let moved = GraphicsState {
                sources: table::put(ready.sources, p.source_key, target),
                ..ready
            };
            assert(table::lookup(moved.sources, k) == Some(id));
            table::lemma_found(moved.sources, k);
            assert(table::has_value(moved.sources, id));
            let held = update::retarget(ready, p.source_key, target);
            match table::lookup(ready.sources, p.source_key) {
                None => {},
                Some(previous) => {
                    if previous != target && !table::has_value(moved.sources, previous) {
                        update::lemma_drop_image(moved, previous);
                        assert(update::held(held.images, id) == update::held(moved.images, id));
                    }
                },
            }
            assert(update::held(held.images, id) == update::held(s.images, id));
        }
    }
}

/// An image that nobody brings does not come back in a pass.
proof fn lemma_image_stays_away(
    s: GraphicsState,
    placements: Seq<HostPlacement>,
    from: nat,
    count: nat,
    view_changed: bool,
    id: u32,
)
    requires
        reached(s, placements, 0, |i: int| false),
        independent(placements),
        from <= count <= placements.len(),
        nobody_brings(placements, id),
        update::held(update::place_all(s, placements, from, view_changed).images, id) is None,
    ensures
        update::held(update::place_all(s, placements, count, view_changed).images, id) is None,
    decreases count,
{
    if from < count {
        let n = count - 1;
        lemma_image_stays_away(s, placements, from, n as nat, view_changed, id);
        lemma_place_reached(s, placements, n as nat, view_changed, |i: int| false);
        let before = update::place_all(s, placements, n as nat, view_changed);
        let p = placements[n];
        let after = update::place(before, p, n, view_changed);
        assert(after == update::place_all(s, placements, count, view_changed));
        if clip::visible(p) && !passed_over(before, p) {
            let target = update::image_id_of(p);
            let known = update::held(before.images, target);
            assert(clip::visible(placements[n]));
            assert(known is None || known == Some(update::content_of(p)));
            assert(target != id);
            let wanted = GraphicsState {
                current: before.current.insert(update::key_of(p)),
                ..before
            };
            let ready = if known is Some {
                wanted
            } else {
                update::upload(wanted, p, n)
            };
            if known is None {
                update::lemma_upload(wanted, p, n);
            }
            assert(update::held(ready.images, id) is None);
            update::lemma_moved_wf(ready, p.source_key, target);
            table::lemma_put(ready.sources, p.source_key, target);
            let moved = GraphicsState {
                sources: table::put(ready.sources, p.source_key, target),
                ..ready
            };
            let held = update::retarget(ready, p.source_key, target);
            match table::lookup(ready.sources, p.source_key) {
                None => {},
                Some(previous) => {
                    if previous != target && !table::has_value(moved.sources, previous) {
                        update::lemma_drop_image(moved, previous);
                        if id != previous {
                            assert(update::held(held.images, id) == update::held(moved.images, id));
                        }
                    }
                },
            }
            assert(update::held(held.images, id) is None);
        }
    }
}

/// Placements come in order where each brings its image data, or has an image that the terminal
/// holds for a source that stays with it, or where nobody brings the data. So it is in a frame that
/// leaves out the data of every image which the terminal holds.
pub proof fn law_provided_images_come_in_order(
    s: GraphicsState,
    placements: Seq<HostPlacement>,
    view_changed: bool,
)
    requires
        s.wf(),
        s.current =~= Set::empty(),
        independent(placements),
        collision_free(s, placements),
        provided(s, placements),
    ensures
        in_order(s, placements, view_changed),
{
    let pruned = update::prune(s, placements);
    lemma_pruned(s, placements, |i: int| false);
    assert forall|i: int|
        0 <= i < placements.len() && clip::visible(#[trigger] placements[i]) implies taken(
        s,
        placements,
        i,
        view_changed,
    ) || !holds_image(update::spec_update(s, placements, view_changed), placements[i]) by {
        let p = placements[i];
        let id = update::image_id_of(p);
        if p.placement.data@.len() == 0 {
            if holds_image(s, p) && exists|k: HostSourceKey| #[trigger]
                stays_with(s, placements, k, id) {
                let k = choose|k: HostSourceKey| #[trigger] stays_with(s, placements, k, id);
                assert(table::lookup(pruned.sources, k) == Some(id));
                table::lemma_found(pruned.sources, k);
                assert(table::has_value(pruned.sources, id));
                assert(update::held(pruned.images, id) == update::held(s.images, id));
                lemma_image_stays(pruned, placements, i as nat, view_changed, k, id);
                assert(taken(s, placements, i, view_changed));
            } else {
                assert(nobody_brings(placements, id));
                let then = update::place_all(pruned, placements, i as nat, view_changed);
                lemma_place_reached(pruned, placements, i as nat, view_changed, |i: int| false);
                assert(collision_free(then, placements));
                if update::held(then.images, id) is None {
                    lemma_image_stays_away(
                        pruned,
                        placements,
                        i as nat,
                        placements.len(),
                        view_changed,
                        id,
                    );
                }
            }
        }
    }
}

/// A placement's look is the part of it that is visible, at its own depth and with its own scrolling;
/// its image goes by its surface and its content, and its placement by where it comes from.
pub proof fn law_looks_are_what_is_visible(p: HostPlacement)
    ensures
        ({
            let c = clip::clipped(p);
            let look = update::look_of(p);
            &&& look.x == c.x && look.y == c.y
            &&& look.cols == c.cols && look.rows == c.rows
            &&& look.source_x == c.source_x && look.source_y == c.source_y
            &&& look.source_width == c.source_width && look.source_height == c.source_height
            &&& look.x_offset == c.x_offset && look.y_offset == c.y_offset
            &&& look.z == p.placement.z
            &&& look.scrollback_offset == p.scrollback_offset
            &&& update::content_of(p).image_width == p.placement.image_width
            &&& update::content_of(p).image_height == p.placement.image_height
            &&& update::content_of(p).data_len == p.placement.data_len
            &&& update::content_of(p).data_fingerprint == p.placement.data_fingerprint
            &&& update::key_of(p).0 == crate::kitty_graphics::identity::spec_host_image_id(
                p.surface,
                update::content_of(p),
            )
            &&& update::key_of(p).1 == crate::kitty_graphics::identity::spec_host_placement_id(
                p.source_key,
                p.placement.image_id,
                p.placement.placement_id,
            )
        }),
{
}

/// A pass brings no image that no visible placement has.
proof fn lemma_no_new_image(
    s: GraphicsState,
    placements: Seq<HostPlacement>,
    count: nat,
    view_changed: bool,
    id: u32,
)
    requires
        count <= placements.len(),
        !s.images.contains_key(id),
        forall|i: int|
            0 <= i < placements.len() && clip::visible(#[trigger] placements[i])
                ==> update::image_id_of(placements[i]) != id,
    ensures
        !update::place_all(s, placements, count, view_changed).images.contains_key(id),
    decreases count,
{
    if count > 0 {
        let n = count - 1;
        lemma_no_new_image(s, placements, n as nat, view_changed, id);
        let before = update::place_all(s, placements, n as nat, view_changed);
        assert(clip::visible(placements[n]) ==> update::image_id_of(placements[n]) != id);
        assert(!update::place(before, placements[n], n, view_changed).images.contains_key(id));
    }
}

proof fn lemma_lost(sources: Seq<(HostSourceKey, u32)>, kept: Set<HostSourceKey>, i: int)
    requires
        0 <= i < sources.len(),
        sources[i].0 is Layer,
        !kept.contains(sources[i].0),
    ensures
        update::images_of_lost_layers(sources, kept).contains(sources[i].1),
    decreases sources.len(),
{
    let before = update::images_of_lost_layers(sources.drop_last(), kept);
    let all = update::images_of_lost_layers(sources, kept);
    let id = sources[i].1;
    if i < sources.len() - 1 {
        lemma_lost(sources.drop_last(), kept, i);
        let k = choose|k: int| 0 <= k < before.len() && before[k] == id;
        assert(all[k] == id);
    } else if before.contains(id) {
        let k = choose|k: int| 0 <= k < before.len() && before[k] == id;
        assert(all[k] == id);
    } else {
        assert(all[all.len() - 1] == id);
    }
}

proof fn lemma_dropped(s: GraphicsState, ids: Seq<u32>, count: nat, i: int)
    requires
        0 <= i < count <= ids.len(),
        !table::has_value(s.sources, ids[i]),
    ensures
        !update::drop_unreferenced(s, ids, count).images.contains_key(ids[i]),
        update::drop_unreferenced(s, ids, count).sources == s.sources,
    decreases count,
{
    let n = (count - 1) as nat;
    lemma_sources_stay(s, ids, n);
    if i < n {
        lemma_dropped(s, ids, n, i);
    }
}

proof fn lemma_sources_stay(s: GraphicsState, ids: Seq<u32>, count: nat)
    ensures
        update::drop_unreferenced(s, ids, count).sources == s.sources,
    decreases count,
{
    if count > 0 {
        lemma_sources_stay(s, ids, (count - 1) as nat);
    }
}

/// The image of a layer that went away goes with it: where no source that is still there has the
/// image, and no visible placement brings it, the terminal no longer holds it.
pub proof fn law_images_of_lost_layers_go(
    s: GraphicsState,
    placements: Seq<HostPlacement>,
    view_changed: bool,
    layer: HostSourceKey,
    id: u32,
)
    requires
        s.wf(),
        layer is Layer,
        table::lookup(s.sources, layer) == Some(id),
        forall|i: int|
            0 <= i < placements.len() && #[trigger] placements[i].source_key == layer
                ==> !clip::visible(placements[i]),
        forall|k: HostSourceKey| #[trigger]
            table::lookup(s.sources, k) == Some(id) ==> !update::is_current_source(placements, k),
        forall|i: int|
            0 <= i < placements.len() && clip::visible(#[trigger] placements[i])
                ==> update::image_id_of(placements[i]) != id,
    ensures
        !update::spec_update(s, placements, view_changed).images.contains_key(id),
{
    let kept = update::current_sources(placements);
    let lost = update::images_of_lost_layers(s.sources, kept);
    let filtered = GraphicsState { sources: s.sources.filter(update::from_sources(kept)), ..s };
    table::lemma_found(s.sources, layer);
    let at = table::position(s.sources, layer);
    assert(!kept.contains(layer)) by {
        if update::is_current_source(placements, layer) {
            let i = choose|i: int|
                0 <= i < placements.len() && #[trigger] placements[i].source_key == layer && (
                layer is Terminal || clip::spec_clip(placements[i]) is Some);
            assert(clip::visible(placements[i]));
        }
    }
    lemma_lost(s.sources, kept, at);
    let i = choose|i: int| 0 <= i < lost.len() && lost[i] == id;
    table::lemma_filter_keys(s.sources, update::from_sources(kept));
    assert(!table::has_value(filtered.sources, id)) by {
        if table::has_value(filtered.sources, id) {
            let n = choose|n: int|
                0 <= n < filtered.sources.len() && #[trigger] filtered.sources[n].1 == id;
            let k = filtered.sources[n].0;
            table::lemma_position(filtered.sources, n);
            assert(table::has_key(filtered.sources, k));
            assert(table::lookup(filtered.sources, k) == table::lookup(s.sources, k));
            assert(kept.contains(k));
        }
    }
    lemma_dropped(filtered, lost, lost.len(), i);
    let pruned = update::prune(s, placements);
    lemma_no_new_image(pruned, placements, placements.len(), view_changed, id);
}

/// What is still there: a terminal's image as long as the terminal has it, visible or not, and a
/// layer as long as it is visible.
pub proof fn law_what_is_still_there(placements: Seq<HostPlacement>, k: HostSourceKey, i: int)
    requires
        0 <= i < placements.len(),
        placements[i].source_key == k,
    ensures
        k is Terminal ==> update::is_current_source(placements, k),
        clip::visible(placements[i]) ==> update::is_current_source(placements, k),
        k is Layer && (forall|j: int|
            0 <= j < placements.len() && #[trigger] placements[j].source_key == k
                ==> !clip::visible(placements[j])) ==> !update::is_current_source(placements, k),
{
    if clip::visible(placements[i]) {
        assert(clip::spec_clip(placements[i]) is Some);
    }
}

} // verus!
