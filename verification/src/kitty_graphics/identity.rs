//! The ids that images and placements have on the host terminal.
//!
//! An id is derived from what it stands for, so the same content on the same surface always
//! finds the image that is already there.

use crate::kitty_graphics::model;
use crate::kitty_graphics::model::{
    kitty_format_code, HostSourceKey, HostSurfaceId, ImageSignature, KittyImagePlacement,
};
use std::collections::hash_map::DefaultHasher;
use std::hash::Hasher;
use vstd::bytes::*;
use vstd::prelude::*;
use vstd::std_specs::hash::*;

verus! {

/// The first id that an image of a pane can have.
pub const HOST_IMAGE_ID_BASE: u32 = 10_000;

/// The bit that every layer's own image id carries and no other id does.
pub const PANE_GRAPHICS_IMAGE_ID_BIT: u32 = 0x8000_0000;

/// What hashing a text feeds to the hasher: its bytes, and a byte that ends no text.
pub open spec fn text_writes(s: &str) -> Seq<Seq<u8>> {
    seq![crate::text::utf8(s), seq![0xffu8]]
}

/// What a surface contributes to the hash of an id. A pane contributes its raw id and nothing
/// else.
pub open spec fn surface_writes(surface: HostSurfaceId) -> Seq<Seq<u8>> {
    match surface {
        HostSurfaceId::Pane(pane_id) => seq![spec_u32_to_le_bytes(pane_id.0)],
        HostSurfaceId::Sidebar => text_writes("surface.sidebar"),
        HostSurfaceId::SignalTray => text_writes("surface.signal-tray"),
        HostSurfaceId::SidebarCards(slot) => text_writes("surface.sidebar.cards").push(
            spec_u16_to_le_bytes(slot),
        ),
        HostSurfaceId::SidebarParticleField => text_writes("surface.sidebar.particle-field"),
        HostSurfaceId::BackgroundScene => text_writes("surface.background.scene"),
        HostSurfaceId::BackgroundEffects => text_writes("surface.background.effects"),
    }
}

/// What an image's signature contributes to the hash of an id: its fields in order.
pub open spec fn signature_writes(signature: ImageSignature) -> Seq<Seq<u8>> {
    seq![
        spec_u32_to_le_bytes(signature.image_width),
        spec_u32_to_le_bytes(signature.image_height),
        spec_u32_to_le_bytes(signature.format_code),
        spec_u64_to_le_bytes(signature.data_len as u64),
        spec_u64_to_le_bytes(signature.data_fingerprint),
    ]
}

/// What a source contributes to the hash of a placement id.
pub open spec fn source_writes(source_key: HostSourceKey) -> Seq<Seq<u8>> {
    match source_key {
        HostSourceKey::Terminal { pane_id, .. } => seq![spec_u32_to_le_bytes(pane_id.0)],
        HostSourceKey::Layer { surface } => text_writes("pane.graphics") + surface_writes(surface),
    }
}

/// The hash of the image that `surface` shows with the content `signature`.
pub open spec fn image_hash(surface: HostSurfaceId, signature: ImageSignature) -> u64 {
    DefaultHasher::spec_finish(surface_writes(surface) + signature_writes(signature))
}

/// The host id of an image: between 10000 and 909999, picked by the hash.
pub open spec fn spec_host_image_id(surface: HostSurfaceId, signature: ImageSignature) -> u32 {
    (HOST_IMAGE_ID_BASE + (image_hash(surface, signature) as u32) % 900_000) as u32
}

/// The id a layer's image is looked up by when it is collected: the hash with the top bit set.
pub open spec fn spec_layer_host_image_id(
    surface: HostSurfaceId,
    signature: ImageSignature,
) -> u32 {
    PANE_GRAPHICS_IMAGE_ID_BIT | ((image_hash(surface, signature) as u32)
        & !PANE_GRAPHICS_IMAGE_ID_BIT)
}

/// The host id of a placement: between 1 and 900000, picked by the hash of its source, image
/// number and placement number.
pub open spec fn spec_host_placement_id(
    source_key: HostSourceKey,
    image_id: u32,
    placement_id: u32,
) -> u32 {
    (1 + (DefaultHasher::spec_finish(
        source_writes(source_key).push(spec_u32_to_le_bytes(image_id)).push(
            spec_u32_to_le_bytes(placement_id),
        ),
    ) as u32) % 900_000) as u32
}

/// The signature of the image that a placement shows.
pub open spec fn signature_of(placement: KittyImagePlacement, format_code: u32) -> ImageSignature {
    ImageSignature {
        image_width: placement.image_width,
        image_height: placement.image_height,
        format_code,
        data_len: placement.data_len,
        data_fingerprint: placement.data_fingerprint,
    }
}

fn write_text(hasher: &mut DefaultHasher, s: &str)
    ensures
        final(hasher)@ == old(hasher)@ + text_writes(s),
{
    hasher.write(s.as_bytes());
    let end: Vec<u8> = vec![0xffu8];
    hasher.write(end.as_slice());
    assert(end@ =~= seq![0xffu8]);
    assert(hasher@ =~= old(hasher)@ + text_writes(s));
}

fn write_u32(hasher: &mut DefaultHasher, n: u32)
    ensures
        final(hasher)@ == old(hasher)@.push(spec_u32_to_le_bytes(n)),
{
    let bytes = u32_to_le_bytes(n);
    hasher.write(bytes.as_slice());
}

fn write_u64(hasher: &mut DefaultHasher, n: u64)
    ensures
        final(hasher)@ == old(hasher)@.push(spec_u64_to_le_bytes(n)),
{
    let bytes = u64_to_le_bytes(n);
    hasher.write(bytes.as_slice());
}

impl HostSurfaceId {
    /// Feeds the surface's identity into the hash of an id.
    fn hash_identity(self, hasher: &mut DefaultHasher)
        ensures
            final(hasher)@ == old(hasher)@ + surface_writes(self),
    {
        match self {
            HostSurfaceId::Pane(pane_id) => write_u32(hasher, pane_id.raw()),
            HostSurfaceId::Sidebar => write_text(hasher, "surface.sidebar"),
            HostSurfaceId::SignalTray => write_text(hasher, "surface.signal-tray"),
            HostSurfaceId::SidebarCards(slot) => {
                write_text(hasher, "surface.sidebar.cards");
                let bytes = u16_to_le_bytes(slot);
                hasher.write(bytes.as_slice());
            },
            HostSurfaceId::SidebarParticleField => write_text(
                hasher,
                "surface.sidebar.particle-field",
            ),
            HostSurfaceId::BackgroundScene => write_text(hasher, "surface.background.scene"),
            HostSurfaceId::BackgroundEffects => write_text(hasher, "surface.background.effects"),
        }
        assert(hasher@ =~= old(hasher)@ + surface_writes(self));
    }
}

fn hash_image(surface: HostSurfaceId, signature: ImageSignature) -> (hash: u64)
    ensures
        hash == image_hash(surface, signature),
{
    let mut hasher = DefaultHasher::new();
    surface.hash_identity(&mut hasher);
    write_u32(&mut hasher, signature.image_width);
    write_u32(&mut hasher, signature.image_height);
    write_u32(&mut hasher, signature.format_code);
    write_u64(&mut hasher, signature.data_len as u64);
    write_u64(&mut hasher, signature.data_fingerprint);
    assert(hasher@ =~= surface_writes(surface) + signature_writes(signature));
    hasher.finish()
}

pub fn host_image_id_for_signature(surface: HostSurfaceId, signature: ImageSignature) -> (id: u32)
    ensures
        id == spec_host_image_id(surface, signature),
        HOST_IMAGE_ID_BASE <= id < HOST_IMAGE_ID_BASE + 900_000,
{
    HOST_IMAGE_ID_BASE + (#[verifier::truncate] (hash_image(surface, signature) as u32)) % 900_000
}

pub fn host_image_id(surface: HostSurfaceId, placement: &KittyImagePlacement) -> (id: u32)
    ensures
        id == spec_host_image_id(
            surface,
            signature_of(*placement, model::spec_format_code(placement.format)),
        ),
{
    host_image_id_for_signature(
        surface,
        ImageSignature {
            image_width: placement.image_width,
            image_height: placement.image_height,
            format_code: kitty_format_code(placement.format),
            data_len: placement.data_len,
            data_fingerprint: placement.data_fingerprint,
        },
    )
}

pub fn layer_host_image_id(surface: HostSurfaceId, signature: ImageSignature) -> (id: u32)
    ensures
        id == spec_layer_host_image_id(surface, signature),
{
    PANE_GRAPHICS_IMAGE_ID_BIT | ((#[verifier::truncate] (hash_image(surface, signature) as u32))
        & !PANE_GRAPHICS_IMAGE_ID_BIT)
}

pub fn host_placement_id(source_key: HostSourceKey, placement: &KittyImagePlacement) -> (id: u32)
    ensures
        id == spec_host_placement_id(source_key, placement.image_id, placement.placement_id),
        1 <= id <= 900_000,
{
    let mut hasher = DefaultHasher::new();
    match source_key {
        HostSourceKey::Terminal { pane_id, .. } => write_u32(&mut hasher, pane_id.raw()),
        HostSourceKey::Layer { surface } => {
            write_text(&mut hasher, "pane.graphics");
            surface.hash_identity(&mut hasher);
        },
    }
    assert(hasher@ =~= source_writes(source_key));
    write_u32(&mut hasher, placement.image_id);
    write_u32(&mut hasher, placement.placement_id);
    1 + (#[verifier::truncate] (hasher.finish() as u32)) % 900_000
}

/// No image id of a pane is the id of any layer's own image: they differ in the top bit.
pub proof fn law_layer_ids_are_disjoint(
    surface: HostSurfaceId,
    signature: ImageSignature,
    other_surface: HostSurfaceId,
    other_signature: ImageSignature,
)
    ensures
        spec_host_image_id(surface, signature) & PANE_GRAPHICS_IMAGE_ID_BIT == 0,
        spec_layer_host_image_id(other_surface, other_signature) & PANE_GRAPHICS_IMAGE_ID_BIT != 0,
        spec_host_image_id(surface, signature) != spec_layer_host_image_id(
            other_surface,
            other_signature,
        ),
{
    let id = spec_host_image_id(surface, signature);
    assert(id < 0x8000_0000);
    assert(id & 0x8000_0000u32 == 0) by (bit_vector)
        requires
            id < 0x8000_0000u32,
    ;
    let hash = image_hash(other_surface, other_signature) as u32;
    let layer_id = 0x8000_0000u32 | (hash & !0x8000_0000u32);
    assert((0x8000_0000u32 | (hash & !0x8000_0000u32)) & 0x8000_0000u32 != 0) by (bit_vector);
    assert(layer_id == spec_layer_host_image_id(other_surface, other_signature));
}

proof fn lemma_u32_bytes(a: u32, b: u32)
    ensures
        spec_u32_to_le_bytes(a).len() == 4,
        spec_u32_to_le_bytes(a) == spec_u32_to_le_bytes(b) ==> a == b,
{
    lemma_auto_spec_u32_to_from_le_bytes();
    assert(spec_u32_to_le_bytes(a).len() == 4 && spec_u32_to_le_bytes(b).len() == 4);
}

proof fn lemma_u16_bytes(a: u16, b: u16)
    ensures
        spec_u16_to_le_bytes(a) == spec_u16_to_le_bytes(b) ==> a == b,
{
    lemma_auto_spec_u16_to_from_le_bytes();
    assert(spec_u16_to_le_bytes(a).len() == 2 && spec_u16_to_le_bytes(b).len() == 2);
}

proof fn lemma_u64_bytes(a: u64, b: u64)
    ensures
        spec_u64_to_le_bytes(a) == spec_u64_to_le_bytes(b) ==> a == b,
{
    lemma_auto_spec_u64_to_from_le_bytes();
}

proof fn lemma_words_differ()
    ensures
        ({
            let sidebar = text_writes("surface.sidebar")[0];
            let tray = text_writes("surface.signal-tray")[0];
            let cards = text_writes("surface.sidebar.cards")[0];
            let field = text_writes("surface.sidebar.particle-field")[0];
            let scene = text_writes("surface.background.scene")[0];
            let effects = text_writes("surface.background.effects")[0];
            let layer = text_writes("pane.graphics")[0];
            &&& sidebar.len() == 15
            &&& tray.len() == 19
            &&& cards.len() == 21
            &&& field.len() == 30
            &&& scene.len() == 24
            &&& effects.len() == 26
            &&& layer.len() == 13
        }),
{
    reveal_strlit("surface.sidebar");
    reveal_strlit("surface.signal-tray");
    reveal_strlit("surface.sidebar.cards");
    reveal_strlit("surface.sidebar.particle-field");
    reveal_strlit("surface.background.scene");
    reveal_strlit("surface.background.effects");
    reveal_strlit("pane.graphics");
    vstd::utf8::is_ascii_chars_encode_utf8("surface.sidebar"@);
    vstd::utf8::is_ascii_chars_encode_utf8("surface.signal-tray"@);
    vstd::utf8::is_ascii_chars_encode_utf8("surface.sidebar.cards"@);
    vstd::utf8::is_ascii_chars_encode_utf8("surface.sidebar.particle-field"@);
    vstd::utf8::is_ascii_chars_encode_utf8("surface.background.scene"@);
    vstd::utf8::is_ascii_chars_encode_utf8("surface.background.effects"@);
    vstd::utf8::is_ascii_chars_encode_utf8("pane.graphics"@);
}

/// Different surfaces are told apart: what goes into the hash of one goes into that of no other.
pub proof fn law_surfaces_are_told_apart(a: HostSurfaceId, b: HostSurfaceId)
    requires
        surface_writes(a) == surface_writes(b),
    ensures
        a == b,
{
    lemma_words_differ();
    let first = surface_writes(a)[0];
    let other = surface_writes(b)[0];
    assert(first == other);
    match (a, b) {
        (HostSurfaceId::Pane(p), HostSurfaceId::Pane(q)) => {
            lemma_u32_bytes(p.0, q.0);
        },
        (HostSurfaceId::SidebarCards(s), HostSurfaceId::SidebarCards(t)) => {
            assert(surface_writes(a).last() == surface_writes(b).last());
            lemma_u16_bytes(s, t);
        },
        (HostSurfaceId::Pane(p), _) => {
            lemma_u32_bytes(p.0, 0);
        },
        (_, HostSurfaceId::Pane(p)) => {
            lemma_u32_bytes(p.0, 0);
        },
        _ => {},
    }
}

/// Different contents are told apart: size, format, length and fingerprint of an image all go into
/// the hash of its id, each in its place.
pub proof fn law_contents_are_told_apart(a: ImageSignature, b: ImageSignature)
    requires
        signature_writes(a) == signature_writes(b),
    ensures
        a == b,
{
    let x = signature_writes(a);
    let y = signature_writes(b);
    assert(x[0] == y[0] && x[1] == y[1] && x[2] == y[2] && x[3] == y[3] && x[4] == y[4]);
    lemma_u32_bytes(a.image_width, b.image_width);
    lemma_u32_bytes(a.image_height, b.image_height);
    lemma_u32_bytes(a.format_code, b.format_code);
    lemma_u64_bytes(a.data_len as u64, b.data_len as u64);
    lemma_u64_bytes(a.data_fingerprint, b.data_fingerprint);
}

/// An image's id depends on its surface and all of its content, and on nothing else; it is picked by
/// the hash of both, one behind the other. A placement's signature is that of its own image.
pub proof fn law_ids_go_by_surface_and_content(
    surface: HostSurfaceId,
    placement: KittyImagePlacement,
    format_code: u32,
)
    ensures
        ({
            let signature = signature_of(placement, format_code);
            &&& signature.image_width == placement.image_width
            &&& signature.image_height == placement.image_height
            &&& signature.format_code == format_code
            &&& signature.data_len == placement.data_len
            &&& signature.data_fingerprint == placement.data_fingerprint
            &&& image_hash(surface, signature) == DefaultHasher::spec_finish(
                surface_writes(surface) + signature_writes(signature),
            )
            &&& 10_000 <= spec_host_image_id(surface, signature) < 910_000
            &&& (spec_host_image_id(surface, signature) - 10_000) % 900_000 == (image_hash(
                surface,
                signature,
            ) as u32) % 900_000
        }),
{
}

/// Where a placement comes from is told apart too: two panes never share it, nor two layers, nor a
/// pane and a layer.
pub proof fn law_sources_are_told_apart(a: HostSourceKey, b: HostSourceKey)
    requires
        source_writes(a) == source_writes(b),
    ensures
        a is Terminal <==> b is Terminal,
        a is Terminal ==> a->pane_id == b->pane_id,
        a is Layer ==> a == b,
{
    lemma_words_differ();
    let first = source_writes(a)[0];
    let other = source_writes(b)[0];
    assert(first == other);
    match (a, b) {
        (HostSourceKey::Terminal { pane_id: p, .. }, HostSourceKey::Terminal { pane_id: q, .. }) => {
            lemma_u32_bytes(p.0, q.0);
        },
        (HostSourceKey::Layer { surface: s }, HostSourceKey::Layer { surface: t }) => {
            assert(source_writes(a).skip(2) =~= surface_writes(s));
            assert(source_writes(b).skip(2) =~= surface_writes(t));
            law_surfaces_are_told_apart(s, t);
        },
        (HostSourceKey::Terminal { pane_id, .. }, _) => {
            lemma_u32_bytes(pane_id.0, 0);
        },
        (_, HostSourceKey::Terminal { pane_id, .. }) => {
            lemma_u32_bytes(pane_id.0, 0);
        },
    }
}

/// The ids keep to their ranges: those of images lie from ten thousand on and below ninety-one times
/// that, those of placements from one to nine hundred thousand, so that none is ever zero and no
/// image has an id with the top bit set.
pub proof fn law_ids_keep_to_their_ranges(
    surface: HostSurfaceId,
    content: ImageSignature,
    source: HostSourceKey,
    image: u32,
    placement: u32,
)
    ensures
        10_000 <= spec_host_image_id(surface, content) < 910_000,
        1 <= spec_host_placement_id(source, image, placement) <= 900_000,
        spec_layer_host_image_id(surface, content) >= 0x8000_0000,
        spec_layer_host_image_id(surface, content) != spec_host_image_id(surface, content),
        (image_hash(surface, content) as u32) % 900_000 == spec_host_image_id(surface, content)
            - 10_000,
        (image_hash(surface, content) as u32) % 0x8000_0000 == spec_layer_host_image_id(
            surface,
            content,
        ) - 0x8000_0000,
{
    let hash = image_hash(surface, content) as u32;
    assert((0x8000_0000u32 | (hash & !0x8000_0000u32)) == 0x8000_0000u32 + hash % 0x8000_0000u32)
        by (bit_vector);
}

} // verus!
