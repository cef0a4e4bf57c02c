//! Bringing the host terminal from the images it has to the images it should show.
//!
//! A pass over the visible placements drops the images of layers that went away, uploads what
//! the terminal lacks, shows what it does not show as it should, and takes back the placements
//! that are no longer wanted. What the terminal has is remembered in a [`HostGraphicsCache`],
//! so a pass over an unchanged screen has nothing to say.

use crate::kitty_graphics::clip;
use crate::kitty_graphics::clip::clipped_placement;
use crate::kitty_graphics::encode;
use crate::kitty_graphics::encode::{encode_commands, encode_delete_image, GraphicsCommand};
use crate::kitty_graphics::identity;
use crate::kitty_graphics::identity::{host_image_id, host_placement_id};
use crate::kitty_graphics::laws;
use crate::kitty_graphics::model;
use crate::kitty_graphics::model::{
    ClippedPlacement, HostPlacement, HostSourceKey, HostViewKey, ImageSignature,
    PlacementSignature,
};
use crate::table;
use std::collections::HashMap;
use vstd::prelude::*;

verus! {

/// What the host terminal is known to hold: its images, its placements by image and placement
/// id, the image that stands for each source, and the view they were shown for.
pub struct HostGraphicsCache {
    pub images: HashMap<u32, ImageSignature>,
    pub placements: Vec<((u32, u32), PlacementSignature)>,
    pub sources: Vec<(HostSourceKey, u32)>,
    pub view: Option<HostViewKey>,
}

#[verifier::ext_equal]
/// A moment of a pass: the commands so far, the three tables, and the placements that the pass
/// has found wanted.
pub struct GraphicsState {
    pub commands: Seq<GraphicsCommand>,
    pub images: Map<u32, ImageSignature>,
    pub placements: Seq<((u32, u32), PlacementSignature)>,
    pub sources: Seq<(HostSourceKey, u32)>,
    pub current: Set<(u32, u32)>,
}

impl GraphicsState {
    /// No key stands twice in a table; every placement and every source has an image that the
    /// terminal holds.
    pub open spec fn wf(self) -> bool {
        &&& table::distinct(self.placements)
        &&& table::distinct(self.sources)
        &&& forall|k: (u32, u32)| #[trigger]
            table::has_key(self.placements, k) ==> self.images.contains_key(k.0)
        &&& forall|k: HostSourceKey| #[trigger]
            table::has_key(self.sources, k) ==> self.images.contains_key(
                table::lookup(self.sources, k)->0,
            )
    }
}

impl HostGraphicsCache {
    pub open spec fn state(self) -> GraphicsState {
        GraphicsState {
            commands: Seq::empty(),
            images: self.images@,
            placements: self.placements@,
            sources: self.sources@,
            current: Set::empty(),
        }
    }

    pub open spec fn wf(self) -> bool {
        self.state().wf()
    }
}

/// The content of the image `id`, where the terminal holds it.
pub open spec fn held(images: Map<u32, ImageSignature>, id: u32) -> Option<ImageSignature> {
    if images.contains_key(id) {
        Some(images[id])
    } else {
        None
    }
}

pub open spec fn on_other_images(id: u32) -> spec_fn(((u32, u32), PlacementSignature)) -> bool {
    |e: ((u32, u32), PlacementSignature)| e.0.0 != id
}

pub open spec fn among(keys: Set<(u32, u32)>) -> spec_fn(((u32, u32), PlacementSignature)) -> bool {
    |e: ((u32, u32), PlacementSignature)| keys.contains(e.0)
}

pub open spec fn from_sources(keys: Set<HostSourceKey>) -> spec_fn((HostSourceKey, u32)) -> bool {
    |e: (HostSourceKey, u32)| keys.contains(e.0)
}

/// The placements of image `id` are gone, from the table and from those found wanted.
pub open spec fn forget_placements(s: GraphicsState, id: u32) -> GraphicsState {
    GraphicsState {
        placements: s.placements.filter(on_other_images(id)),
        current: s.current.difference(
            Set::new(|k: (u32, u32)| k.0 == id && table::has_key(s.placements, k)),
        ),
        ..s
    }
}

/// Image `id` is deleted, and its placements with it.
pub open spec fn drop_image(s: GraphicsState, id: u32) -> GraphicsState {
    let told = GraphicsState {
        commands: s.commands.push(GraphicsCommand::DeleteImage { host_id: id }),
        images: s.images.remove(id),
        ..s
    };
    forget_placements(told, id)
}

/// The sources that are still there. A layer that is not visible does not count as there, a
/// terminal's image does.
pub open spec fn current_sources(placements: Seq<HostPlacement>) -> Set<HostSourceKey> {
    Set::new(|k: HostSourceKey| is_current_source(placements, k))
}

pub open spec fn is_current_source(placements: Seq<HostPlacement>, k: HostSourceKey) -> bool {
    exists|i: int|
        0 <= i < placements.len() && #[trigger] placements[i].source_key == k && (k is Terminal
            || clip::spec_clip(placements[i]) is Some)
}

/// The images of the layers among `sources` that are not in `kept`, each once.
pub open spec fn images_of_lost_layers(
    sources: Seq<(HostSourceKey, u32)>,
    kept: Set<HostSourceKey>,
) -> Seq<u32>
    decreases sources.len(),
{
    if sources.len() == 0 {
        Seq::empty()
    } else {
        let before = images_of_lost_layers(sources.drop_last(), kept);
        let (source, id) = sources.last();
        if source is Layer && !kept.contains(source) && !before.contains(id) {
            before.push(id)
        } else {
            before
        }
    }
}

/// The first `count` images of `ids` are dropped, except those that a source still has.
pub open spec fn drop_unreferenced(s: GraphicsState, ids: Seq<u32>, count: nat) -> GraphicsState
    decreases count,
{
    if count == 0 {
        s
    } else {
        let before = drop_unreferenced(s, ids, (count - 1) as nat);
        let id = ids[count - 1];
        if table::has_value(before.sources, id) {
            before
        } else {
            drop_image(before, id)
        }
    }
}

/// The sources that went away are forgotten, and the images that only lost layers had are
/// dropped.
pub open spec fn prune(s: GraphicsState, placements: Seq<HostPlacement>) -> GraphicsState {
    let kept = current_sources(placements);
    let lost = images_of_lost_layers(s.sources, kept);
    let pruned = GraphicsState { sources: s.sources.filter(from_sources(kept)), ..s };
    drop_unreferenced(pruned, lost, lost.len())
}

/// `source` has image `id` from now on; the image it had before is dropped once no source has
/// it.
pub open spec fn retarget(s: GraphicsState, source: HostSourceKey, id: u32) -> GraphicsState {
    let moved = GraphicsState { sources: table::put(s.sources, source, id), ..s };
    match table::lookup(s.sources, source) {
        None => moved,
        Some(previous) => if previous == id || table::has_value(moved.sources, previous) {
            moved
        } else {
            drop_image(moved, previous)
        },
    }
}

/// What a placement looks like on screen.
pub open spec fn look(c: ClippedPlacement, z: i32, scrollback_offset: u32) -> PlacementSignature {
    PlacementSignature {
        x: c.x,
        y: c.y,
        cols: c.cols,
        rows: c.rows,
        source_x: c.source_x,
        source_y: c.source_y,
        source_width: c.source_width,
        source_height: c.source_height,
        x_offset: c.x_offset,
        y_offset: c.y_offset,
        z,
        scrollback_offset,
    }
}

/// The ids, the content and the look of a visible placement.
pub open spec fn image_id_of(p: HostPlacement) -> u32 {
    identity::spec_host_image_id(p.surface, content_of(p))
}

pub open spec fn placement_id_of(p: HostPlacement) -> u32 {
    identity::spec_host_placement_id(
        p.source_key,
        p.placement.image_id,
        p.placement.placement_id,
    )
}

pub open spec fn content_of(p: HostPlacement) -> ImageSignature {
    identity::signature_of(p.placement, model::spec_format_code(p.placement.format))
}

pub open spec fn look_of(p: HostPlacement) -> PlacementSignature {
    look(clip::clipped(p), p.placement.z, p.scrollback_offset)
}

pub open spec fn key_of(p: HostPlacement) -> (u32, u32) {
    (image_id_of(p), placement_id_of(p))
}

/// The placement is shown unless the terminal shows it just so already.
pub open spec fn show(s: GraphicsState, p: HostPlacement, view_changed: bool) -> GraphicsState {
    if !view_changed && table::lookup(s.placements, key_of(p)) == Some(look_of(p)) {
        s
    } else {
        GraphicsState {
            commands: s.commands.push(
                GraphicsCommand::Display {
                    clipped: clip::clipped(p),
                    host_id: image_id_of(p),
                    host_placement_id: placement_id_of(p),
                    z: p.placement.z,
                },
            ),
            placements: table::put(s.placements, key_of(p), look_of(p)),
            ..s
        }
    }
}

/// The image of placement number `i` is sent.
pub open spec fn upload(s: GraphicsState, p: HostPlacement, i: int) -> GraphicsState {
    GraphicsState {
        commands: s.commands.push(
            GraphicsCommand::Upload {
                placement: i as usize,
                format_code: model::spec_format_code(p.placement.format),
                host_id: image_id_of(p),
            },
        ),
        images: s.images.insert(image_id_of(p), content_of(p)),
        ..s
    }
}

/// The animation of placement number `i`, if it has one, is sent.
pub open spec fn animate(s: GraphicsState, p: HostPlacement, i: int) -> GraphicsState {
    if p.animation is Some {
        GraphicsState {
            commands: s.commands.push(
                GraphicsCommand::Animate {
                    placement: i as usize,
                    format_code: model::spec_format_code(p.placement.format),
                    host_id: image_id_of(p),
                },
            ),
            ..s
        }
    } else {
        s
    }
}

/// Placement number `i` is dealt with.
pub open spec fn place(s: GraphicsState, p: HostPlacement, i: int, view_changed: bool) ->
    GraphicsState {
    if !clip::visible(p) {
        s
    } else {
        let id = image_id_of(p);
        let wanted = GraphicsState { current: s.current.insert(key_of(p)), ..s };
        let known = held(s.images, id);
        if known == Some(content_of(p)) {
            show(retarget(wanted, p.source_key, id), p, view_changed)
        } else {
            let clear = if known is Some {
                forget_placements(
                    GraphicsState {
                        commands: wanted.commands.push(
                            GraphicsCommand::DeleteImage { host_id: id },
                        ),
                        ..wanted
                    },
                    id,
                )
            } else {
                wanted
            };
            if p.placement.data@.len() == 0 {
                clear
            } else {
                animate(
                    show(retarget(upload(clear, p, i), p.source_key, id), p, view_changed),
                    p,
                    i,
                )
            }
        }
    }
}

/// The first `count` placements are dealt with in order.
pub open spec fn place_all(
    s: GraphicsState,
    placements: Seq<HostPlacement>,
    count: nat,
    view_changed: bool,
) -> GraphicsState
    decreases count,
{
    if count == 0 {
        s
    } else {
        place(
            place_all(s, placements, (count - 1) as nat, view_changed),
            placements[count - 1],
            count - 1,
            view_changed,
        )
    }
}

/// The commands that take back the placements which nobody wants.
pub open spec fn stale_commands(
    placements: Seq<((u32, u32), PlacementSignature)>,
    current: Set<(u32, u32)>,
) -> Seq<GraphicsCommand>
    decreases placements.len(),
{
    if placements.len() == 0 {
        Seq::empty()
    } else {
        let before = stale_commands(placements.drop_last(), current);
        let key = placements.last().0;
        if current.contains(key) {
            before
        } else {
            before.push(
                GraphicsCommand::DeletePlacement { host_id: key.0, host_placement_id: key.1 },
            )
        }
    }
}

/// The placements that nobody wants are taken back.
pub open spec fn sweep(s: GraphicsState) -> GraphicsState {
    GraphicsState {
        commands: s.commands + stale_commands(s.placements, s.current),
        placements: s.placements.filter(among(s.current)),
        ..s
    }
}

/// A whole pass.
pub open spec fn spec_update(
    s: GraphicsState,
    placements: Seq<HostPlacement>,
    view_changed: bool,
) -> GraphicsState {
    sweep(place_all(prune(s, placements), placements, placements.len(), view_changed))
}

/// Axes that a pass can take: the coordinates fit, counted from one too.
pub open spec fn axes_fit(columns: clip::Axis, rows: clip::Axis, x: u16, y: u16) -> bool {
    &&& clip::axes_fit(columns, rows, x, y)
    &&& clip::axes_visible(columns, rows) ==> x + columns.offset() < u16::MAX && y + rows.offset()
        < u16::MAX
}

pub open spec fn placement_fits(p: HostPlacement) -> bool {
    axes_fit(clip::columns(p), clip::rows(p), p.area.x, p.area.y)
}

pub open spec fn all_fit(placements: Seq<HostPlacement>) -> bool {
    forall|i: int| 0 <= i < placements.len() ==> placement_fits(#[trigger] placements[i])
}

pub open spec fn commands_fit(
    commands: Seq<GraphicsCommand>,
    placements: Seq<HostPlacement>,
) -> bool {
    forall|i: int|
        0 <= i < commands.len() ==> encode::command_fits(#[trigger] commands[i], placements)
}

pub(crate) proof fn lemma_forget_placements(s: GraphicsState, id: u32)
    requires
        s.wf(),
    ensures
        forget_placements(s, id).wf(),
        !exists|k: (u32, u32)|
            k.0 == id && #[trigger] table::has_key(forget_placements(s, id).placements, k),
        forall|k: (u32, u32)|
            k.0 != id ==> #[trigger] table::lookup(forget_placements(s, id).placements, k)
                == table::lookup(s.placements, k),
        forall|k: (u32, u32)|
            k.0 != id ==> (#[trigger] forget_placements(s, id).current.contains(k)
                <==> s.current.contains(k)),
{
    table::lemma_filter_keys(s.placements, on_other_images(id));
    let t = forget_placements(s, id);
    assert forall|k: (u32, u32)| k.0 != id implies #[trigger] table::lookup(t.placements, k)
        == table::lookup(s.placements, k) by {
        assert(table::has_key(t.placements, k) <==> table::has_key(s.placements, k));
    }
}

/// Dropping an image that no source has keeps the state well formed and touches no other image.
pub(crate) proof fn lemma_drop_image(s: GraphicsState, id: u32)
    requires
        s.wf(),
        !table::has_value(s.sources, id),
    ensures
        drop_image(s, id).wf(),
        drop_image(s, id).sources == s.sources,
        !drop_image(s, id).images.contains_key(id),
        forall|other: u32|
            other != id ==> #[trigger] held(drop_image(s, id).images, other)
                == held(s.images, other),
        forall|k: (u32, u32)|
            k.0 != id ==> #[trigger] table::lookup(drop_image(s, id).placements, k)
                == table::lookup(s.placements, k),
        forall|k: (u32, u32)|
            k.0 != id ==> (#[trigger] drop_image(s, id).current.contains(k)
                <==> s.current.contains(k)),
        !exists|k: (u32, u32)|
            k.0 == id && #[trigger] table::has_key(drop_image(s, id).placements, k),
{
    lemma_forget_placements(s, id);
    let t = drop_image(s, id);
    assert(t.placements == forget_placements(s, id).placements);
    assert(t.current =~= forget_placements(s, id).current);
    assert forall|k: HostSourceKey| #[trigger]
        table::has_key(t.sources, k) implies t.images.contains_key(
        table::lookup(t.sources, k)->0,
    ) by {
        table::lemma_found(s.sources, k);
        let value = table::lookup(s.sources, k)->0;
        assert(s.sources[table::position(s.sources, k)].1 == value);
        assert(value != id);
        assert(s.images.contains_key(value));
    }
    assert forall|other: u32| other != id implies #[trigger] held(t.images, other)
        == held(s.images, other) by {
        assert(t.images.contains_key(other) <==> s.images.contains_key(other));
    }
}

pub(crate) proof fn lemma_retarget(s: GraphicsState, source: HostSourceKey, id: u32)
    requires
        s.wf(),
        s.images.contains_key(id),
    ensures
        retarget(s, source, id).wf(),
        retarget(s, source, id).images.contains_key(id),
        held(retarget(s, source, id).images, id) == held(s.images, id),
        retarget(s, source, id).sources == table::put(s.sources, source, id),
{
    table::lemma_put(s.sources, source, id);
    let moved = GraphicsState { sources: table::put(s.sources, source, id), ..s };
    assert(moved.wf()) by {
        assert forall|k: HostSourceKey| #[trigger]
            table::has_key(moved.sources, k) implies moved.images.contains_key(
            table::lookup(moved.sources, k)->0,
        ) by {
            if k != source {
                assert(table::has_key(s.sources, k));
                assert(table::lookup(moved.sources, k) == table::lookup(s.sources, k));
            }
        }
    }
    match table::lookup(s.sources, source) {
        None => {},
        Some(previous) => {
            if previous != id && !table::has_value(moved.sources, previous) {
                lemma_drop_image(moved, previous);
                assert(held(drop_image(moved, previous).images, id) == held(s.images, id));
            }
        },
    }
}

pub(crate) proof fn lemma_show(s: GraphicsState, p: HostPlacement, view_changed: bool)
    requires
        s.wf(),
        s.images.contains_key(image_id_of(p)),
    ensures
        show(s, p, view_changed).wf(),
{
    table::lemma_put(s.placements, key_of(p), look_of(p));
    let t = show(s, p, view_changed);
    assert forall|k: (u32, u32)| #[trigger]
        table::has_key(t.placements, k) implies t.images.contains_key(k.0) by {
        if k != key_of(p) {
            assert(table::has_key(s.placements, k));
        }
    }
}

pub(crate) proof fn lemma_upload(s: GraphicsState, p: HostPlacement, i: int)
    requires
        s.wf(),
    ensures
        upload(s, p, i).wf(),
        held(upload(s, p, i).images, image_id_of(p)) == Some(content_of(p)),
        upload(s, p, i).images.contains_key(image_id_of(p)),
{
}

pub(crate) proof fn lemma_place_wf(s: GraphicsState, p: HostPlacement, i: int, view_changed: bool)
    requires
        s.wf(),
    ensures
        place(s, p, i, view_changed).wf(),
{
    if clip::visible(p) {
        let id = image_id_of(p);
        let wanted = GraphicsState { current: s.current.insert(key_of(p)), ..s };
        assert(wanted.wf());
        let known = held(s.images, id);
        if known == Some(content_of(p)) {
            lemma_retarget(wanted, p.source_key, id);
            lemma_show(retarget(wanted, p.source_key, id), p, view_changed);
        } else {
            let told = GraphicsState {
                commands: wanted.commands.push(GraphicsCommand::DeleteImage { host_id: id }),
                ..wanted
            };
            assert(told.wf());
            lemma_forget_placements(told, id);
            let clear = if known is Some {
                forget_placements(told, id)
            } else {
                wanted
            };
            if p.placement.data@.len() > 0 {
                lemma_upload(clear, p, i);
                lemma_retarget(upload(clear, p, i), p.source_key, id);
                lemma_show(
                    retarget(upload(clear, p, i), p.source_key, id),
                    p,
                    view_changed,
                );
                let shown = show(
                    retarget(upload(clear, p, i), p.source_key, id),
                    p,
                    view_changed,
                );
                assert(animate(shown, p, i).wf());
            }
        }
    }
}

/// Forgetting sources keeps the state well formed.
pub(crate) proof fn lemma_filter_sources(s: GraphicsState, kept: Set<HostSourceKey>)
    requires
        s.wf(),
    ensures
        (GraphicsState { sources: s.sources.filter(from_sources(kept)), ..s }).wf(),
{
    table::lemma_filter_keys(s.sources, from_sources(kept));
    let t = GraphicsState { sources: s.sources.filter(from_sources(kept)), ..s };
    assert forall|k: HostSourceKey| #[trigger]
        table::has_key(t.sources, k) implies t.images.contains_key(
        table::lookup(t.sources, k)->0,
    ) by {
        assert(table::has_key(s.sources, k));
    }
}

proof fn lemma_drop_unreferenced(s: GraphicsState, ids: Seq<u32>, count: nat)
    requires
        s.wf(),
    ensures
        drop_unreferenced(s, ids, count).wf(),
        drop_unreferenced(s, ids, count).sources == s.sources,
    decreases count,
{
    if count > 0 {
        lemma_drop_unreferenced(s, ids, (count - 1) as nat);
        let before = drop_unreferenced(s, ids, (count - 1) as nat);
        if !table::has_value(before.sources, ids[count - 1]) {
            lemma_drop_image(before, ids[count - 1]);
        }
    }
}

pub(crate) proof fn lemma_sweep_wf(s: GraphicsState)
    requires
        s.wf(),
    ensures
        sweep(s).wf(),
{
    table::lemma_filter_keys(s.placements, among(s.current));
}

fn position_of_placement(
    placements: &Vec<((u32, u32), PlacementSignature)>,
    key: (u32, u32),
) -> (found: Option<usize>)
    ensures
        match found {
            Some(i) => i < placements@.len() && placements@[i as int].0 == key,
            None => !table::has_key(placements@, key),
        },
{
    let mut i: usize = 0;
    while i < placements.len()
        invariant
            i <= placements@.len(),
            forall|j: int| 0 <= j < i ==> #[trigger] placements@[j].0 != key,
        decreases placements@.len() - i,
    {
        let at = placements[i].0;
        if at.0 == key.0 && at.1 == key.1 {
            return Some(i);
        }
        i += 1;
    }
    None
}

fn position_of_source(sources: &Vec<(HostSourceKey, u32)>, key: HostSourceKey) -> (found: Option<
    usize,
>)
    ensures
        match found {
            Some(i) => i < sources@.len() && sources@[i as int].0 == key,
            None => !table::has_key(sources@, key),
        },
{
    let mut i: usize = 0;
    while i < sources.len()
        invariant
            i <= sources@.len(),
            forall|j: int| 0 <= j < i ==> #[trigger] sources@[j].0 != key,
        decreases sources@.len() - i,
    {
        if sources[i].0 == key {
            return Some(i);
        }
        i += 1;
    }
    None
}

fn some_source_has(sources: &Vec<(HostSourceKey, u32)>, id: u32) -> (found: bool)
    ensures
        found == table::has_value(sources@, id),
{
    let mut i: usize = 0;
    while i < sources.len()
        invariant
            i <= sources@.len(),
            forall|j: int| 0 <= j < i ==> #[trigger] sources@[j].1 != id,
        decreases sources@.len() - i,
    {
        if sources[i].1 == id {
            return true;
        }
        i += 1;
    }
    false
}

fn contains_key(keys: &Vec<(u32, u32)>, key: (u32, u32)) -> (found: bool)
    ensures
        found == keys@.to_set().contains(key),
{
    let mut i: usize = 0;
    while i < keys.len()
        invariant
            i <= keys@.len(),
            forall|j: int| 0 <= j < i ==> #[trigger] keys@[j] != key,
        decreases keys@.len() - i,
    {
        let at = keys[i];
        if at.0 == key.0 && at.1 == key.1 {
            assert(keys@.contains(key));
            return true;
        }
        i += 1;
    }
    false
}

fn contains_id(ids: &Vec<u32>, id: u32) -> (found: bool)
    ensures
        found == ids@.contains(id),
{
    let mut i: usize = 0;
    while i < ids.len()
        invariant
            i <= ids@.len(),
            forall|j: int| 0 <= j < i ==> #[trigger] ids@[j] != id,
        decreases ids@.len() - i,
    {
        if ids[i] == id {
            return true;
        }
        i += 1;
    }
    false
}

/// Whether the terminal holds the image `id` with the given content.
pub fn image_is_uploaded(
    images: &HashMap<u32, ImageSignature>,
    id: u32,
    content: ImageSignature,
) -> (uploaded: bool)
    ensures
        uploaded == (held(images@, id) == Some(content)),
{
    match held_image(images, id) {
        Some(known) => known == content,
        None => false,
    }
}

fn held_image(images: &HashMap<u32, ImageSignature>, id: u32) -> (known: Option<ImageSignature>)
    ensures
        known == held(images@, id),
{
    broadcast use vstd::std_specs::hash::group_hash_axioms;

    match images.get(&id) {
        Some(content) => Some(*content),
        None => None,
    }
}

/// The tables of a cache while a pass works on them.
struct Pass {
    commands: Vec<GraphicsCommand>,
    images: HashMap<u32, ImageSignature>,
    placements: Vec<((u32, u32), PlacementSignature)>,
    sources: Vec<(HostSourceKey, u32)>,
    current: Vec<(u32, u32)>,
}

impl View for Pass {
    type V = GraphicsState;

    closed spec fn view(&self) -> GraphicsState {
        GraphicsState {
            commands: self.commands@,
            images: self.images@,
            placements: self.placements@,
            sources: self.sources@,
            current: self.current@.to_set(),
        }
    }
}

impl Pass {
    fn image(&self, id: u32) -> (known: Option<ImageSignature>)
        ensures
            known == held(self@.images, id),
    {
        held_image(&self.images, id)
    }

    /// The placements of `id` leave the table and the set of those wanted.
    fn forget_placements(&mut self, id: u32)
        requires
            old(self)@.wf(),
        ensures
            final(self)@ == forget_placements(old(self)@, id),
    {
        let ghost before = self@;
        let ghost wanted = self.current@;
        let mut current: Vec<(u32, u32)> = Vec::new();
        let mut i: usize = 0;
        while i < self.current.len()
            invariant
                i <= self.current@.len(),
                self.current@ == wanted,
                self@ == before,
                forall|k: (u32, u32)| #[trigger]
                    current@.contains(k) <==> wanted.take(i as int).contains(k) && !(k.0 == id
                        && table::has_key(self.placements@, k)),
            decreases self.current@.len() - i,
        {
            let key = self.current[i];
            let gone = key.0 == id && position_of_placement(&self.placements, key).is_some();
            let ghost kept = current@;
            if !gone {
                current.push(key);
            }
            assert forall|k: (u32, u32)| #[trigger] current@.contains(k) <==> wanted.take(
                i + 1,
            ).contains(k) && !(k.0 == id && table::has_key(self.placements@, k)) by {
                assert(wanted.take(i + 1) =~= wanted.take(i as int).push(key));
                assert(wanted.take(i + 1).contains(k) <==> wanted.take(i as int).contains(k) || k
                    == key) by {
                    lemma_push_contains(wanted.take(i as int), key, k);
                }
                lemma_push_contains(kept, key, k);
            }
            i += 1;
        }
        assert(wanted.take(i as int) =~= wanted);
        assert(current@.to_set() =~= forget_placements(before, id).current) by {
            assert forall|k: (u32, u32)| #[trigger] current@.to_set().contains(k)
                <==> forget_placements(before, id).current.contains(k) by {
                assert(current@.contains(k) <==> wanted.take(i as int).contains(k) && !(k.0 == id
                    && table::has_key(self.placements@, k)));
            }
        }
        self.current = current;

        let mut placements: Vec<((u32, u32), PlacementSignature)> = Vec::new();
        let mut j: usize = 0;
        assert(self.placements@.take(0).filter(on_other_images(id)) =~= Seq::empty()) by {
            reveal(Seq::filter);
        }
        while j < self.placements.len()
            invariant
                j <= self.placements@.len(),
                self.placements@ == before.placements,
                placements@ == self.placements@.take(j as int).filter(on_other_images(id)),
            decreases self.placements@.len() - j,
        {
            let entry = self.placements[j];
            proof {
                lemma_filter_step(self.placements@, j as int, on_other_images(id));
            }
            if entry.0.0 != id {
                placements.push(entry);
            }
            j += 1;
        }
        assert(self.placements@.take(j as int) =~= self.placements@);
        self.placements = placements;
        assert(self@ =~= forget_placements(before, id));
    }

    /// Image `id` is deleted, and its placements with it.
    fn drop_image(&mut self, id: u32)
        requires
            old(self)@.wf(),
            !table::has_value(old(self)@.sources, id),
        ensures
            final(self)@ == drop_image(old(self)@, id),
            final(self)@.wf(),
    {
        let ghost before = self@;
        proof {
            lemma_drop_image(before, id);
        }
        self.forget_placements(id);
        self.commands.push(GraphicsCommand::DeleteImage { host_id: id });
        broadcast use vstd::std_specs::hash::group_hash_axioms;

        self.images.remove(&id);
        assert(self@ =~= drop_image(before, id));
    }

    /// `source` has image `id` from now on; the image it had before is dropped once no source
    /// has it.
    fn release_superseded_source_image(&mut self, source: HostSourceKey, id: u32)
        requires
            old(self)@.wf(),
            old(self)@.images.contains_key(id),
        ensures
            final(self)@ == retarget(old(self)@, source, id),
            final(self)@.wf(),
    {
        let ghost before = self@;
        proof {
            lemma_retarget(before, source, id);
            table::lemma_put(before.sources, source, id);
        }
        match position_of_source(&self.sources, source) {
            None => {
                self.sources.push((source, id));
                assert(self@ =~= retarget(before, source, id));
            },
            Some(i) => {
                let previous: u32 = self.sources[i].1;
                proof {
                    table::lemma_position(before.sources, i as int);
                }
                self.sources.set(i, (source, id));
                let ghost moved = GraphicsState {
                    sources: table::put(before.sources, source, id),
                    ..before
                };
                assert(self@ =~= moved);
                if previous == id || some_source_has(&self.sources, previous) {
                    return;
                }
                assert(moved.wf()) by {
                    lemma_moved_wf(before, source, id);
                }
                self.drop_image(previous);
            },
        }
    }

    /// Shows the placement unless the terminal shows it just so already.
    fn show(
        &mut self,
        p: &HostPlacement,
        clipped: ClippedPlacement,
        id: u32,
        placement_id: u32,
        view_changed: bool,
    )
        requires
            old(self)@.wf(),
            old(self)@.images.contains_key(id),
            id == image_id_of(*p),
            placement_id == placement_id_of(*p),
            clipped == clip::clipped(*p),
        ensures
            final(self)@ == show(old(self)@, *p, view_changed),
            final(self)@.wf(),
    {
        let ghost before = self@;
        proof {
            lemma_show(before, *p, view_changed);
        }
        let signature = placement_signature(clipped, p.placement.z, p.scrollback_offset);
        let key = (id, placement_id);
        match position_of_placement(&self.placements, key) {
            Some(i) => {
                proof {
                    table::lemma_position(self.placements@, i as int);
                }
                let known = self.placements[i].1;
                if !view_changed && known == signature {
                    return;
                }
                self.placements.set(i, (key, signature));
            },
            None => {
                self.placements.push((key, signature));
            },
        }
        self.commands.push(
            GraphicsCommand::Display {
                clipped,
                host_id: id,
                host_placement_id: placement_id,
                z: p.placement.z,
            },
        );
        assert(self@ =~= show(before, *p, view_changed));
    }

    fn put_image(&mut self, id: u32, content: ImageSignature)
        ensures
            final(self)@ == (GraphicsState {
                images: old(self)@.images.insert(id, content),
                ..old(self)@
            }),
    {
        broadcast use vstd::std_specs::hash::group_hash_axioms;

        self.images.insert(id, content);
        assert(self@ =~= (GraphicsState {
            images: old(self)@.images.insert(id, content),
            ..old(self)@
        }));
    }

    /// Deals with placement number `i`.
    fn place(&mut self, placements: &[HostPlacement], i: usize, view_changed: bool)
        requires
            old(self)@.wf(),
            i < placements@.len(),
            placement_fits(placements@[i as int]),
            commands_fit(old(self)@.commands, placements@),
        ensures
            final(self)@ == place(old(self)@, placements@[i as int], i as int, view_changed),
            final(self)@.wf(),
            commands_fit(final(self)@.commands, placements@),
    {
        let p = &placements[i];
        let ghost before = self@;
        proof {
            lemma_place_wf(before, *p, i as int, view_changed);
            lemma_place_fits(before, placements@, i as int, view_changed);
        }
        let (clipped, format_code) = match clipped_placement(p) {
            Some(clip) => clip,
            None => {
                return;
            },
        };
        let id: u32 = host_image_id(p.surface, &p.placement);
        let placement_id: u32 = host_placement_id(p.source_key, &p.placement);
        let content = image_signature(p, format_code);
        self.current.push((id, placement_id));
        let ghost wanted = GraphicsState { current: before.current.insert(key_of(*p)), ..before };
        assert(self@ =~= wanted) by {
            assert forall|k: (u32, u32)| #[trigger] self@.current.contains(k)
                <==> wanted.current.contains(k) by {
                lemma_push_contains(old(self).current@, (id, placement_id), k);
            }
        }
        assert(wanted.wf());
        let known = self.image(id);
        let ready = match known {
            Some(known) => known == content,
            None => false,
        };
        if ready {
            self.release_superseded_source_image(p.source_key, id);
            proof {
                lemma_retarget(wanted, p.source_key, id);
            }
            self.show(p, clipped, id, placement_id, view_changed);
            return;
        }
        if known.is_some() {
            self.commands.push(GraphicsCommand::DeleteImage { host_id: id });
            let ghost told = GraphicsState {
                commands: wanted.commands.push(GraphicsCommand::DeleteImage { host_id: id }),
                ..wanted
            };
            assert(self@ =~= told);
            assert(told.wf());
            proof {
                lemma_forget_placements(told, id);
            }
            self.forget_placements(id);
        }
        let ghost clear = self@;
        assert(clear.wf());
        if p.placement.data.len() == 0 {
            return;
        }
        proof {
            lemma_upload(clear, *p, i as int);
        }
        self.commands.push(GraphicsCommand::Upload { placement: i, format_code, host_id: id });
        self.put_image(id, content);
        assert(self@ =~= upload(clear, *p, i as int));
        self.release_superseded_source_image(p.source_key, id);
        proof {
            lemma_retarget(upload(clear, *p, i as int), p.source_key, id);
        }
        self.show(p, clipped, id, placement_id, view_changed);
        if p.animation.is_some() {
            self.commands.push(GraphicsCommand::Animate { placement: i, format_code, host_id: id });
        }
        assert(self@ =~= place(before, *p, i as int, view_changed));
    }

    /// Forgets the sources that went away, and drops the images that only lost layers had.
    fn prune(&mut self, placements: &[HostPlacement])
        requires
            old(self)@.wf(),
            old(self)@.commands.len() == 0,
            all_fit(placements@),
        ensures
            final(self)@ == prune(old(self)@, placements@),
            final(self)@.wf(),
            commands_fit(final(self)@.commands, placements@),
    {
        let ghost before = self@;
        let ghost kept = current_sources(placements@);
        let mut sources: Vec<(HostSourceKey, u32)> = Vec::new();
        let mut lost: Vec<u32> = Vec::new();
        let mut i: usize = 0;
        assert(self.sources@.take(0).filter(from_sources(kept)) =~= Seq::empty()) by {
            reveal(Seq::filter);
        }
        while i < self.sources.len()
            invariant
                i <= self.sources@.len(),
                all_fit(placements@),
                kept == current_sources(placements@),
                sources@ == self.sources@.take(i as int).filter(from_sources(kept)),
                lost@ == images_of_lost_layers(self.sources@.take(i as int), kept),
            decreases self.sources@.len() - i,
        {
            let (source, id) = self.sources[i];
            let retain = source_is_current(placements, source);
            proof {
                lemma_filter_step(self.sources@, i as int, from_sources(kept));
                assert(self.sources@.take(i + 1).drop_last() =~= self.sources@.take(i as int));
            }
            if retain {
                sources.push((source, id));
            } else {
                let layer = match source {
                    HostSourceKey::Layer { .. } => true,
                    HostSourceKey::Terminal { .. } => false,
                };
                if layer && !contains_id(&lost, id) {
                    lost.push(id);
                }
            }
            i += 1;
        }
        assert(self.sources@.take(i as int) =~= self.sources@);
        self.sources = sources;
        let ghost pruned = GraphicsState {
            sources: before.sources.filter(from_sources(kept)),
            ..before
        };
        assert(self@ =~= pruned);
        proof {
            lemma_filter_sources(before, kept);
        }
        let mut j: usize = 0;
        while j < lost.len()
            invariant
                j <= lost@.len(),
                pruned.wf(),
                self@ == drop_unreferenced(pruned, lost@, j as nat),
                self@.wf(),
                commands_fit(self@.commands, placements@),
            decreases lost@.len() - j,
        {
            proof {
                lemma_drop_unreferenced(pruned, lost@, j as nat);
            }
            if !some_source_has(&self.sources, lost[j]) {
                self.drop_image(lost[j]);
            }
            j += 1;
        }
    }

    /// Takes back the placements that nobody wants.
    fn sweep(&mut self, Ghost(placements): Ghost<Seq<HostPlacement>>)
        requires
            old(self)@.wf(),
            commands_fit(old(self)@.commands, placements),
        ensures
            final(self)@ == sweep(old(self)@),
            final(self)@.wf(),
            commands_fit(final(self)@.commands, placements),
    {
        let ghost before = self@;
        proof {
            lemma_sweep_wf(before);
        }
        let mut kept: Vec<((u32, u32), PlacementSignature)> = Vec::new();
        let mut i: usize = 0;
        assert(self.placements@.take(0).filter(among(before.current)) =~= Seq::empty()) by {
            reveal(Seq::filter);
        }
        assert(self.commands@ =~= before.commands + stale_commands(
            self.placements@.take(0),
            before.current,
        ));
        while i < self.placements.len()
            invariant
                i <= self.placements@.len(),
                self.placements@ == before.placements,
                self.images@ == before.images,
                self.sources@ == before.sources,
                self.current@.to_set() == before.current,
                kept@ == self.placements@.take(i as int).filter(among(before.current)),
                self.commands@ == before.commands + stale_commands(
                    self.placements@.take(i as int),
                    before.current,
                ),
                commands_fit(self.commands@, placements),
            decreases self.placements@.len() - i,
        {
            let entry = self.placements[i];
            proof {
                lemma_filter_step(self.placements@, i as int, among(before.current));
                assert(self.placements@.take(i + 1).drop_last() =~= self.placements@.take(
                    i as int,
                ));
            }
            if contains_key(&self.current, entry.0) {
                kept.push(entry);
            } else {
                self.commands.push(
                    GraphicsCommand::DeletePlacement {
                        host_id: entry.0.0,
                        host_placement_id: entry.0.1,
                    },
                );
            }
            assert(self.commands@ =~= before.commands + stale_commands(
                self.placements@.take(i + 1),
                before.current,
            ));
            i += 1;
        }
        assert(self.placements@.take(i as int) =~= self.placements@);
        self.placements = kept;
        assert(self@ =~= sweep(before));
    }
}

pub(crate) proof fn lemma_moved_wf(s: GraphicsState, source: HostSourceKey, id: u32)
    requires
        s.wf(),
        s.images.contains_key(id),
    ensures
        (GraphicsState { sources: table::put(s.sources, source, id), ..s }).wf(),
{
    table::lemma_put(s.sources, source, id);
    let moved = GraphicsState { sources: table::put(s.sources, source, id), ..s };
    assert forall|k: HostSourceKey| #[trigger]
        table::has_key(moved.sources, k) implies moved.images.contains_key(
        table::lookup(moved.sources, k)->0,
    ) by {
        if k != source {
            assert(table::has_key(s.sources, k));
            assert(table::lookup(moved.sources, k) == table::lookup(s.sources, k));
        }
    }
}

proof fn lemma_push_contains<A>(s: Seq<A>, a: A, k: A)
    ensures
        s.push(a).contains(k) <==> s.contains(k) || k == a,
{
    if s.contains(k) {
        let i = choose|i: int| 0 <= i < s.len() && s[i] == k;
        assert(s.push(a)[i] == k);
    }
    assert(s.push(a)[s.len() as int] == a);
    if s.push(a).contains(k) {
        let i = choose|i: int| 0 <= i < s.push(a).len() && s.push(a)[i] == k;
        if i < s.len() {
            assert(s[i] == k);
        }
    }
}

proof fn lemma_filter_step<A>(s: Seq<A>, i: int, keep: spec_fn(A) -> bool)
    requires
        0 <= i < s.len(),
    ensures
        s.take(i + 1).filter(keep) == if keep(s[i]) {
            s.take(i).filter(keep).push(s[i])
        } else {
            s.take(i).filter(keep)
        },
{
    reveal(Seq::filter);
    assert(s.take(i + 1).drop_last() =~= s.take(i));
    assert(s.take(i + 1).last() == s[i]);
}

/// Every command that dealing with a placement adds can be written out.
proof fn lemma_place_fits(
    s: GraphicsState,
    placements: Seq<HostPlacement>,
    i: int,
    view_changed: bool,
)
    requires
        0 <= i < placements.len(),
        placements.len() <= usize::MAX,
        placement_fits(placements[i]),
        commands_fit(s.commands, placements),
    ensures
        commands_fit(place(s, placements[i], i, view_changed).commands, placements),
{
}

pub fn image_signature(p: &HostPlacement, format_code: u32) -> (signature: ImageSignature)
    ensures
        signature == identity::signature_of(p.placement, format_code),
{
    ImageSignature {
        image_width: p.placement.image_width,
        image_height: p.placement.image_height,
        format_code,
        data_len: p.placement.data_len,
        data_fingerprint: p.placement.data_fingerprint,
    }
}

pub fn placement_signature(
    clipped: ClippedPlacement,
    z: i32,
    scrollback_offset: u32,
) -> (signature: PlacementSignature)
    ensures
        signature == look(clipped, z, scrollback_offset),
{
    PlacementSignature {
        x: clipped.x,
        y: clipped.y,
        cols: clipped.cols,
        rows: clipped.rows,
        source_x: clipped.source_x,
        source_y: clipped.source_y,
        source_width: clipped.source_width,
        source_height: clipped.source_height,
        x_offset: clipped.x_offset,
        y_offset: clipped.y_offset,
        z,
        scrollback_offset,
    }
}

fn source_is_current(placements: &[HostPlacement], key: HostSourceKey) -> (current: bool)
    requires
        all_fit(placements@),
    ensures
        current == is_current_source(placements@, key),
{
    let mut i: usize = 0;
    while i < placements.len()
        invariant
            i <= placements@.len(),
            all_fit(placements@),
            forall|j: int|
                0 <= j < i ==> !(#[trigger] placements@[j].source_key == key && (key is Terminal
                    || clip::spec_clip(placements@[j]) is Some)),
        decreases placements@.len() - i,
    {
        if placements[i].source_key == key {
            let terminal = match key {
                HostSourceKey::Terminal { .. } => true,
                HostSourceKey::Layer { .. } => false,
            };
            if terminal || clipped_placement(&placements[i]).is_some() {
                return true;
            }
        }
        i += 1;
    }
    false
}

/// Works out what to tell the host terminal so that it shows `placements`, and remembers in
/// `cache` what it will then hold.
pub fn plan_graphics_update(
    placements: &[HostPlacement],
    view_changed: bool,
    cache: &mut HostGraphicsCache,
) -> (commands: Vec<GraphicsCommand>)
    requires
        old(cache).wf(),
        all_fit(placements@),
    ensures
        ({
            let after = spec_update(old(cache).state(), placements@, view_changed);
            &&& commands@ == after.commands
            &&& final(cache).images@ == after.images
            &&& final(cache).placements@ == after.placements
            &&& final(cache).sources@ == after.sources
        }),
        laws::all_wanted(final(cache).state(), placements@),
        final(cache).view == old(cache).view,
        final(cache).wf(),
        commands_fit(commands@, placements@),
{
    let ghost start = cache.state();
    let mut pass = Pass {
        commands: Vec::new(),
        images: HashMap::new(),
        placements: Vec::new(),
        sources: Vec::new(),
        current: Vec::new(),
    };
    std::mem::swap(&mut pass.images, &mut cache.images);
    std::mem::swap(&mut pass.placements, &mut cache.placements);
    std::mem::swap(&mut pass.sources, &mut cache.sources);
    assert(pass@ =~= start);
    pass.prune(placements);
    let ghost pruned = pass@;
    let mut i: usize = 0;
    while i < placements.len()
        invariant
            i <= placements@.len(),
            all_fit(placements@),
            pass@ == place_all(pruned, placements@, i as nat, view_changed),
            pass@.wf(),
            commands_fit(pass@.commands, placements@),
        decreases placements@.len() - i,
    {
        pass.place(placements, i, view_changed);
        i += 1;
    }
    pass.sweep(Ghost(placements@));
    proof {
        laws::law_only_wanted_placements_stay(start, placements@, view_changed);
    }
    std::mem::swap(&mut pass.images, &mut cache.images);
    std::mem::swap(&mut pass.placements, &mut cache.placements);
    std::mem::swap(&mut pass.sources, &mut cache.sources);
    pass.commands
}

/// Appends the escapes that bring the host terminal to show `placements`, the images travelling
/// inside the stream.
pub fn encode_graphics_update(
    bytes: &mut Vec<u8>,
    placements: &[HostPlacement],
    view_changed: bool,
    cache: &mut HostGraphicsCache,
)
    requires
        old(cache).wf(),
        all_fit(placements@),
    ensures
        ({
            let after = spec_update(old(cache).state(), placements@, view_changed);
            &&& final(bytes)@ == old(bytes)@ + encode::commands_bytes(
                after.commands,
                placements@,
                Seq::empty(),
                after.commands.len(),
            )
            &&& final(cache).images@ == after.images
            &&& final(cache).placements@ == after.placements
            &&& final(cache).sources@ == after.sources
        }),
        laws::all_wanted(final(cache).state(), placements@),
        final(cache).view == old(cache).view,
        final(cache).wf(),
{
    let commands = plan_graphics_update(placements, view_changed, cache);
    let staged: Vec<Option<String>> = Vec::new();
    encode_commands(bytes, commands.as_slice(), placements, staged.as_slice());
}

/// The deletion of the first `count` images.
pub open spec fn deletions(ids: Seq<u32>, count: nat) -> Seq<u8>
    decreases count,
{
    if count == 0 {
        Seq::empty()
    } else {
        deletions(ids, (count - 1) as nat) + encode::delete_image_bytes(ids[count - 1])
    }
}

/// The commands that delete images, in order.
pub open spec fn deletion_commands(ids: Seq<u32>) -> Seq<GraphicsCommand> {
    Seq::new(ids.len(), |i: int| GraphicsCommand::DeleteImage { host_id: ids[i] })
}

/// Whether a list names the images of a terminal, each once.
pub open spec fn lists(ids: Seq<u32>, images: Map<u32, ImageSignature>) -> bool {
    ids.no_duplicates() && ids.to_set() == images.dom()
}

/// The deletions of the images of a terminal, in any order.
pub open spec fn deletes_all(bytes: Seq<u8>, images: Map<u32, ImageSignature>) -> bool {
    exists|ids: Seq<u32>| #[trigger] lists(ids, images) && bytes == deletions(ids, ids.len())
}

/// The commands that delete the images of a terminal, in any order.
pub open spec fn orders_deletion(
    commands: Seq<GraphicsCommand>,
    images: Map<u32, ImageSignature>,
) -> bool {
    exists|ids: Seq<u32>| #[trigger] lists(ids, images) && commands == deletion_commands(ids)
}

/// Written out, the commands that delete images are the deletions of those images.
pub proof fn law_deletions_are_commands(ids: Seq<u32>, count: nat)
    requires
        count <= ids.len(),
    ensures
        encode::commands_bytes(deletion_commands(ids), Seq::empty(), Seq::empty(), count)
            == deletions(ids, count),
    decreases count,
{
    if count > 0 {
        law_deletions_are_commands(ids, (count - 1) as nat);
    }
}

fn image_ids(images: &HashMap<u32, ImageSignature>) -> (ids: Vec<u32>)
    ensures
        lists(ids@, images@),
{
    broadcast use vstd::std_specs::hash::group_hash_axioms;

    let mut ids: Vec<u32> = Vec::new();
    let ghost order = vstd::std_specs::iter::IteratorSpec::remaining(&images.keys()).unref();
    for id in keys: images.keys()
        invariant
            keys.seq().unref() == order,
            ids@ == order.take(keys.index()),
    {
        assert(keys.seq().unref()[keys.index()] == *keys.seq()[keys.index()]);
        assert(order.take(keys.index() + 1) =~= order.take(keys.index()).push(*id));
        ids.push(*id);
    }
    assert(ids@ =~= order);
    ids
}

impl Default for HostGraphicsCache {
    fn default() -> (cache: Self)
        ensures
            cache.images@ == Map::<u32, ImageSignature>::empty(),
            cache.placements@.len() == 0,
            cache.sources@.len() == 0,
            cache.view is None,
            cache.wf(),
    {
        HostGraphicsCache {
            images: HashMap::new(),
            placements: Vec::new(),
            sources: Vec::new(),
            view: None,
        }
    }
}

impl HostGraphicsCache {
    pub fn is_empty(&self) -> (empty: bool)
        ensures
            empty == (self.images@.dom().is_empty() && self.placements@.len() == 0),
    {
        self.images.is_empty() && self.placements.len() == 0
    }

    /// Forgets everything, and says which images the terminal is to delete.
    pub fn clear_commands(&mut self) -> (commands: Vec<GraphicsCommand>)
        ensures
            orders_deletion(commands@, old(self).images@),
            final(self).images@ == Map::<u32, ImageSignature>::empty(),
            final(self).placements@.len() == 0,
            final(self).sources@.len() == 0,
            final(self).view is None,
            final(self).wf(),
    {
        let ids = image_ids(&self.images);
        let mut commands: Vec<GraphicsCommand> = Vec::new();
        let mut i: usize = 0;
        while i < ids.len()
            invariant
                i <= ids@.len(),
                commands@ == deletion_commands(ids@.take(i as int)),
            decreases ids@.len() - i,
        {
            commands.push(GraphicsCommand::DeleteImage { host_id: ids[i] });
            i += 1;
            assert(commands@ =~= deletion_commands(ids@.take(i as int)));
        }
        assert(ids@.take(i as int) =~= ids@);
        self.forget();
        commands
    }

    /// Forgets everything, and says how to delete every image from the terminal.
    pub fn clear_bytes(&mut self) -> (bytes: Vec<u8>)
        ensures
            deletes_all(bytes@, old(self).images@),
            final(self).images@ == Map::<u32, ImageSignature>::empty(),
            final(self).placements@.len() == 0,
            final(self).sources@.len() == 0,
            final(self).view is None,
            final(self).wf(),
    {
        let ids = image_ids(&self.images);
        let mut bytes: Vec<u8> = Vec::new();
        let mut i: usize = 0;
        while i < ids.len()
            invariant
                i <= ids@.len(),
                bytes@ == deletions(ids@, i as nat),
            decreases ids@.len() - i,
        {
            encode_delete_image(&mut bytes, ids[i]);
            i += 1;
        }
        self.forget();
        bytes
    }

    fn forget(&mut self)
        ensures
            final(self).images@ == Map::<u32, ImageSignature>::empty(),
            final(self).placements@.len() == 0,
            final(self).sources@.len() == 0,
            final(self).view is None,
            final(self).wf(),
    {
        self.images.clear();
        self.placements.clear();
        self.sources.clear();
        self.view = None;
    }

    /// Remembers which view is shown, and says whether it is another one than before.
    pub fn update_view(&mut self, view_key: Option<HostViewKey>) -> (changed: bool)
        ensures
            changed == (old(self).view != view_key),
            final(self).view == view_key,
            final(self).images == old(self).images,
            final(self).placements == old(self).placements,
            final(self).sources == old(self).sources,
    {
        let same = match (self.view, view_key) {
            (Some(shown), Some(wanted)) => shown == wanted,
            (None, None) => true,
            _ => false,
        };
        if same {
            return false;
        }
        self.view = view_key;
        true
    }
}

} // verus!
