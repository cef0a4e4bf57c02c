//! The batch of a frame: every image of it in one buffer, one run of the card, and one copy back.

use crate::gpu::scene::{Bits, Curve, Declined, Splat, Tile};
use crate::text::push_bytes;
use vstd::prelude::*;
use vstd::slice::*;

verus! {

/// How many bytes a splat takes in its buffer.
pub const SPLAT_STRIDE: usize = 64;

/// How many bytes an image's record takes before it is aligned.
pub const TILE_RECORD: u32 = 64;

/// The bytes of a word, lowest first.
pub open spec fn word_bytes(word: u32) -> Seq<u8> {
    seq![
        (word % 256) as u8,
        (word / 256 % 256) as u8,
        (word / 65536 % 256) as u8,
        (word / 16777216) as u8,
    ]
}

/// The bytes of four words.
pub open spec fn quad_bytes(a: u32, b: u32, c: u32, d: u32) -> Seq<u8> {
    word_bytes(a) + word_bytes(b) + word_bytes(c) + word_bytes(d)
}

/// The bytes of a column's colour.
pub open spec fn column_bytes(columns: Seq<[Bits; 4]>) -> Seq<u8>
    decreases columns.len(),
{
    if columns.len() == 0 {
        seq![]
    } else {
        let last = columns.last()@;
        column_bytes(columns.drop_last()) + quad_bytes(last[0], last[1], last[2], last[3])
    }
}

/// How many columns some splats have before them.
pub open spec fn column_count(splats: Seq<Splat>) -> nat
    decreases splats.len(),
{
    if splats.len() == 0 {
        0
    } else {
        column_count(splats.drop_last()) + splats.last().columns@.len()
    }
}

/// The columns of some splats, one splat after the other.
pub open spec fn all_columns(splats: Seq<Splat>) -> Seq<u8>
    decreases splats.len(),
{
    if splats.len() == 0 {
        seq![]
    } else {
        all_columns(splats.drop_last()) + column_bytes(splats.last().columns@)
    }
}

/// The record of a splat whose columns start at a given one.
pub open spec fn splat_record(splat: Splat, columns: u32) -> Seq<u8> {
    quad_bytes(splat.rect@[0], splat.rect@[1], splat.rect@[2], splat.rect@[3]) + quad_bytes(
        splat.radius,
        splat.near_sigma,
        splat.far_sigma,
        0,
    ) + quad_bytes(splat.bounds@[0], splat.bounds@[1], splat.bounds@[2], splat.bounds@[3])
        + quad_bytes(splat.max_step, columns, 0, 0)
}

/// The records of some splats, one after the other.
pub open spec fn splat_records(splats: Seq<Splat>) -> Seq<u8>
    decreases splats.len(),
{
    if splats.len() == 0 {
        seq![]
    } else {
        let before = splats.drop_last();
        splat_records(before) + splat_record(splats.last(), column_count(before) as u32)
    }
}

/// Whether every splat can say where its columns start.
pub open spec fn columns_fit(splats: Seq<Splat>) -> bool
    decreases splats.len(),
{
    splats.len() == 0 || (columns_fit(splats.drop_last()) && column_count(splats.drop_last())
        <= u32::MAX)
}

/// All splats of a batch, one image after the other.
pub open spec fn all_splats(tiles: Seq<Tile>) -> Seq<Splat>
    decreases tiles.len(),
{
    if tiles.len() == 0 {
        seq![]
    } else {
        all_splats(tiles.drop_last()) + tiles.last().splats@
    }
}

/// All pixels of a batch.
pub open spec fn all_pixels(tiles: Seq<Tile>) -> nat
    decreases tiles.len(),
{
    if tiles.len() == 0 {
        0
    } else {
        all_pixels(tiles.drop_last()) + tiles.last().area()
    }
}

/// Whether every image of a batch can say where its splats and pixels start, and how many splats
/// it has.
pub open spec fn offsets_fit(tiles: Seq<Tile>) -> bool
    decreases tiles.len(),
{
    tiles.len() == 0 || (offsets_fit(tiles.drop_last()) && all_splats(tiles.drop_last()).len()
        <= u32::MAX && tiles.last().splats@.len() <= u32::MAX && all_pixels(tiles.drop_last())
        <= u32::MAX)
}

/// The record of an image: its size, where its splats and its pixels start, and the falloff.
pub open spec fn tile_record(tile: Tile, splats: u32, pixels: u32, curve: Curve) -> Seq<u8> {
    quad_bytes(tile.width, tile.height, splats, tile.splats@.len() as u32) + quad_bytes(
        pixels,
        0,
        0,
        0,
    ) + quad_bytes(curve.steps_per_px, curve.peak, curve.near_weight, curve.far_weight)
        + quad_bytes(curve.paint_floor, 0, 0, 0)
}

/// Bytes that say nothing.
pub open spec fn zeroes(n: nat) -> Seq<u8> {
    Seq::new(n, |i: int| 0u8)
}

/// The records of the images, each with as many zeroes behind it as the card's alignment asks.
pub open spec fn tile_records(tiles: Seq<Tile>, curve: Curve, stride: int) -> Seq<u8>
    decreases tiles.len(),
{
    if tiles.len() == 0 {
        seq![]
    } else {
        let before = tiles.drop_last();
        tile_records(before, curve, stride) + tile_record(
            tiles.last(),
            all_splats(before).len() as u32,
            all_pixels(before) as u32,
            curve,
        ) + zeroes((stride - 64) as nat)
    }
}

/// The distance between the records of two images.
pub open spec fn record_stride(alignment: u32) -> u32 {
    if alignment > TILE_RECORD {
        alignment
    } else {
        TILE_RECORD
    }
}

/// A buffer that is never empty, since an empty one cannot be bound.
pub open spec fn padded(bytes: Seq<u8>, stride: nat) -> Seq<u8> {
    if bytes.len() == 0 {
        zeroes(stride)
    } else {
        bytes
    }
}

/// How many bytes the pixels take.
pub open spec fn pixel_bytes(tiles: Seq<Tile>) -> nat {
    if all_pixels(tiles) == 0 {
        4
    } else {
        4 * all_pixels(tiles)
    }
}

/// Whether the card can take a batch: every offset fits a word, and every buffer is one that it
/// will bind.
pub open spec fn batch_fits(tiles: Seq<Tile>, max_binding: u64) -> bool {
    let splats = all_splats(tiles);
    &&& columns_fit(splats)
    &&& offsets_fit(tiles)
    &&& pixel_bytes(tiles) <= max_binding
    &&& splat_records(splats).len() <= max_binding
    &&& all_columns(splats).len() <= max_binding
}

/// A batch as the card takes it.
#[derive(Debug)]
pub struct Batch {
    pub stride: u32,
    pub tiles: Vec<u8>,
    pub splats: Vec<u8>,
    pub columns: Vec<u8>,
    pub pixel_bytes: u64,
}

fn push_word(out: &mut Vec<u8>, word: u32)
    ensures
        final(out)@ == old(out)@ + word_bytes(word),
{
    out.push((word % 256) as u8);
    out.push((word / 256 % 256) as u8);
    out.push((word / 65536 % 256) as u8);
    out.push((word / 16777216) as u8);
    assert(out@ =~= old(out)@ + word_bytes(word));
}

fn push_u32(out: &mut Vec<u8>, a: u32, b: u32, c: u32, d: u32)
    ensures
        final(out)@ == old(out)@ + quad_bytes(a, b, c, d),
{
    push_word(out, a);
    push_word(out, b);
    push_word(out, c);
    push_word(out, d);
    assert(out@ =~= old(out)@ + quad_bytes(a, b, c, d));
}

fn push_columns(out: &mut Vec<u8>, columns: &[[Bits; 4]])
    ensures
        final(out)@ == old(out)@ + column_bytes(columns@),
{
    let mut i: usize = 0;
    assert(out@ =~= old(out)@ + column_bytes(columns@.take(0)));
    while i < columns.len()
        invariant
            i <= columns@.len(),
            out@ == old(out)@ + column_bytes(columns@.take(i as int)),
        decreases columns@.len() - i,
    {
        let column = columns[i];
        assert(columns@.take(i + 1).drop_last() =~= columns@.take(i as int));
        push_u32(out, column[0], column[1], column[2], column[3]);
        i += 1;
        assert(out@ =~= old(out)@ + column_bytes(columns@.take(i as int)));
    }
    assert(columns@.take(i as int) =~= columns@);
}

proof fn lemma_record_lengths(splats: Seq<Splat>)
    ensures
        splat_records(splats).len() == 64 * splats.len(),
        all_columns(splats).len() == 16 * column_count(splats),
    decreases splats.len(),
{
    if splats.len() > 0 {
        lemma_record_lengths(splats.drop_last());
        lemma_column_lengths(splats.last().columns@);
    }
}

proof fn lemma_column_lengths(columns: Seq<[Bits; 4]>)
    ensures
        column_bytes(columns).len() == 16 * columns.len(),
    decreases columns.len(),
{
    if columns.len() > 0 {
        lemma_column_lengths(columns.drop_last());
    }
}

proof fn lemma_columns_fit(splats: Seq<Splat>, n: int)
    requires
        0 <= n <= splats.len(),
        columns_fit(splats),
    ensures
        columns_fit(splats.take(n)),
    decreases splats.len() - n,
{
    if n < splats.len() {
        assert(splats.drop_last().take(n) =~= splats.take(n));
        lemma_columns_fit(splats.drop_last(), n);
    } else {
        assert(splats.take(n) =~= splats);
    }
}

/// Adds the splats of an image to the batch; `before` are those that are in it.
fn push_splats(
    splat_bytes: &mut Vec<u8>,
    columns: &mut Vec<u8>,
    splats: &[Splat],
    Ghost(before): Ghost<Seq<Splat>>,
) -> (outcome: Result<(), Declined>)
    requires
        old(splat_bytes)@ == splat_records(before),
        old(columns)@ == all_columns(before),
        columns_fit(before),
    ensures
        match outcome {
            Ok(_) => columns_fit(before + splats@) && final(splat_bytes)@ == splat_records(
                before + splats@,
            ) && final(columns)@ == all_columns(before + splats@),
            Err(reason) => reason is TooLarge && !columns_fit(before + splats@),
        },
{
    let ghost all = before + splats@;
    let mut i: usize = 0;
    assert(all.take(before.len() as int) =~= before);
    while i < splats.len()
        invariant
            i <= splats@.len(),
            all == before + splats@,
            splat_bytes@ == splat_records(all.take(before.len() + i)),
            columns@ == all_columns(all.take(before.len() + i)),
            columns_fit(all.take(before.len() + i)),
        decreases splats@.len() - i,
    {
        let splat = &splats[i];
        let ghost done = all.take(before.len() + i);
        let ghost more = all.take(before.len() + i + 1);
        proof {
            assert(more.drop_last() =~= done);
            assert(more.last() == *splat);
            lemma_record_lengths(done);
        }
        let first: usize = columns.len() / 16;
        assert(first == column_count(done));
        if first > 0xffff_ffff {
            proof {
                if columns_fit(all) {
                    lemma_columns_fit(all, before.len() + i + 1);
                }
            }
            return Err(Declined::TooLarge);
        }
        push_columns(columns, splat.columns.as_slice());
        let ghost start = splat_bytes@;
        push_u32(splat_bytes, splat.rect[0], splat.rect[1], splat.rect[2], splat.rect[3]);
        push_u32(splat_bytes, splat.radius, splat.near_sigma, splat.far_sigma, 0);
        push_u32(splat_bytes, splat.bounds[0], splat.bounds[1], splat.bounds[2], splat.bounds[3]);
        push_u32(splat_bytes, splat.max_step, first as u32, 0, 0);
        assert(splat_bytes@ =~= start + splat_record(*splat, first as u32));
        i += 1;
    }
    assert(all.take(before.len() + i) =~= all);
    Ok(())
}

fn push_zeroes(out: &mut Vec<u8>, n: u32)
    ensures
        final(out)@ == old(out)@ + zeroes(n as nat),
{
    let mut i: u32 = 0;
    assert(out@ =~= old(out)@ + zeroes(0));
    while i < n
        invariant
            i <= n,
            out@ == old(out)@ + zeroes(i as nat),
        decreases n - i,
    {
        out.push(0);
        i += 1;
        assert(out@ =~= old(out)@ + zeroes(i as nat));
    }
}

fn pad_to_one(bytes: Vec<u8>, stride: u32) -> (buffer: Vec<u8>)
    ensures
        buffer@ == padded(bytes@, stride as nat),
{
    let mut buffer = bytes;
    if buffer.len() == 0 {
        push_zeroes(&mut buffer, stride);
        assert(buffer@ =~= zeroes(stride as nat));
    }
    buffer
}

proof fn lemma_offsets_fit(tiles: Seq<Tile>, n: int)
    requires
        0 <= n <= tiles.len(),
        offsets_fit(tiles),
    ensures
        offsets_fit(tiles.take(n)),
    decreases tiles.len() - n,
{
    if n < tiles.len() {
        assert(tiles.drop_last().take(n) =~= tiles.take(n));
        lemma_offsets_fit(tiles.drop_last(), n);
    } else {
        assert(tiles.take(n) =~= tiles);
    }
}

proof fn lemma_splats_prefix(tiles: Seq<Tile>, n: int)
    requires
        0 <= n <= tiles.len(),
    ensures
        all_splats(tiles.take(n)).len() <= all_splats(tiles).len(),
        all_splats(tiles.take(n)) == all_splats(tiles).take(all_splats(tiles.take(n)).len() as int),
    decreases tiles.len() - n,
{
    if n < tiles.len() {
        assert(tiles.drop_last().take(n) =~= tiles.take(n));
        lemma_splats_prefix(tiles.drop_last(), n);
        assert(all_splats(tiles.take(n)) =~= all_splats(tiles).take(
            all_splats(tiles.take(n)).len() as int,
        ));
    } else {
        assert(tiles.take(n) =~= tiles);
        assert(all_splats(tiles) =~= all_splats(tiles).take(all_splats(tiles).len() as int));
    }
}

/// Lays a frame out for the card. A frame that is too large for it is declined, and the processor
/// draws it.
pub fn lay_out(tiles: &[Tile], curve: Curve, alignment: u32, max_binding: u64) -> (batch: Result<
    Batch,
    Declined,
>)
    ensures
        match batch {
            Ok(batch) => {
                &&& batch_fits(tiles@, max_binding)
                &&& batch.stride == record_stride(alignment)
                &&& batch.tiles@ == tile_records(tiles@, curve, record_stride(alignment) as int)
                &&& batch.splats@ == padded(splat_records(all_splats(tiles@)), 64)
                &&& batch.columns@ == padded(all_columns(all_splats(tiles@)), 16)
                &&& batch.pixel_bytes == pixel_bytes(tiles@)
            },
            Err(reason) => reason is TooLarge && !batch_fits(tiles@, max_binding),
        },
{
    let stride: u32 = if alignment > TILE_RECORD {
        alignment
    } else {
        TILE_RECORD
    };
    let mut records: Vec<u8> = Vec::new();
    let mut splat_bytes: Vec<u8> = Vec::new();
    let mut columns: Vec<u8> = Vec::new();
    let mut pixels: u64 = 0;
    let mut i: usize = 0;
    assert(tiles@.take(0) =~= seq![]);
    while i < tiles.len()
        invariant
            i <= tiles@.len(),
            64 <= stride == record_stride(alignment),
            records@ == tile_records(tiles@.take(i as int), curve, stride as int),
            splat_bytes@ == splat_records(all_splats(tiles@.take(i as int))),
            columns@ == all_columns(all_splats(tiles@.take(i as int))),
            columns_fit(all_splats(tiles@.take(i as int))),
            offsets_fit(tiles@.take(i as int)),
            pixels == all_pixels(tiles@.take(i as int)),
        decreases tiles@.len() - i,
    {
        let tile = &tiles[i];
        let ghost done = tiles@.take(i as int);
        let ghost more = tiles@.take(i + 1);
        proof {
            assert(more.drop_last() =~= done);
            assert(more.last() == *tile);
            lemma_record_lengths(all_splats(done));
            lemma_splats_prefix(tiles@, i + 1);
            if columns_fit(all_splats(tiles@)) {
                lemma_columns_fit(all_splats(tiles@), all_splats(more).len() as int);
            }
            if offsets_fit(tiles@) {
                lemma_offsets_fit(tiles@, i + 1);
            }
        }
        let first: usize = splat_bytes.len() / SPLAT_STRIDE;
        let count: usize = tile.splats.len();
        match push_splats(
            &mut splat_bytes,
            &mut columns,
            tile.splats.as_slice(),
            Ghost(all_splats(done)),
        ) {
            Ok(_) => {},
            Err(reason) => {
                return Err(reason);
            },
        }
        if first > 0xffff_ffff || count > 0xffff_ffff || pixels > 0xffff_ffff {
            return Err(Declined::TooLarge);
        }
        let ghost start = records@;
        push_u32(&mut records, tile.width, tile.height, first as u32, count as u32);
        push_u32(&mut records, pixels as u32, 0, 0, 0);
        push_u32(
            &mut records,
            curve.steps_per_px,
            curve.peak,
            curve.near_weight,
            curve.far_weight,
        );
        push_u32(&mut records, curve.paint_floor, 0, 0, 0);
        assert(records@ =~= start + tile_record(*tile, first as u32, pixels as u32, curve));
        push_zeroes(&mut records, stride - 64);
        let area: u64 = tile.pixels();
        assert(area <= 0xffff_ffff * 0xffff_ffff) by {
            assert(tile.width * tile.height <= 0xffff_ffff * 0xffff_ffff) by (nonlinear_arith)
                requires
                    tile.width <= 0xffff_ffff,
                    tile.height <= 0xffff_ffff,
            ;
        }
        pixels += area;
        i += 1;
    }
    assert(tiles@.take(i as int) =~= tiles@);
    let bytes: u64 = match pixels.checked_mul(4) {
        Some(bytes) => if bytes > 4 {
            bytes
        } else {
            4
        },
        None => {
            return Err(Declined::TooLarge);
        },
    };
    if bytes > max_binding || splat_bytes.len() as u64 > max_binding || columns.len() as u64
        > max_binding {
        return Err(Declined::TooLarge);
    }
    Ok(
        Batch {
            stride,
            tiles: records,
            splats: pad_to_one(splat_bytes, 64),
            columns: pad_to_one(columns, 16),
            pixel_bytes: bytes,
        },
    )
}

/// One run over an image: where its record starts, and how many groups of eight by eight pixels
/// cover it.
#[derive(Debug, Clone, Copy, PartialEq, Eq, Structural)]
pub struct Dispatch {
    pub offset: u32,
    pub groups_x: u32,
    pub groups_y: u32,
}

/// How many groups of eight cover so many pixels.
pub open spec fn groups(pixels: u32) -> u32 {
    ((pixels + 7) / 8) as u32
}

/// The runs over the images of a batch, without those that have no pixels.
pub open spec fn runs(tiles: Seq<Tile>, stride: u32) -> Seq<Dispatch>
    decreases tiles.len(),
{
    if tiles.len() == 0 {
        seq![]
    } else {
        let before = runs(tiles.drop_last(), stride);
        let tile = tiles.last();
        if tile.width == 0 || tile.height == 0 {
            before
        } else {
            before.push(
                Dispatch {
                    offset: ((tiles.len() - 1) * stride) as u32,
                    groups_x: groups(tile.width),
                    groups_y: groups(tile.height),
                },
            )
        }
    }
}

/// Whether the record of every image that is drawn starts within reach.
pub open spec fn runs_fit(tiles: Seq<Tile>, stride: u32) -> bool
    decreases tiles.len(),
{
    tiles.len() == 0 || (runs_fit(tiles.drop_last(), stride) && (tiles.last().width == 0
        || tiles.last().height == 0 || (tiles.len() - 1) * stride <= u32::MAX))
}

proof fn lemma_runs_fit(tiles: Seq<Tile>, stride: u32, n: int)
    requires
        0 <= n <= tiles.len(),
        runs_fit(tiles, stride),
    ensures
        runs_fit(tiles.take(n), stride),
    decreases tiles.len() - n,
{
    if n < tiles.len() {
        assert(tiles.drop_last().take(n) =~= tiles.take(n));
        lemma_runs_fit(tiles.drop_last(), stride, n);
    } else {
        assert(tiles.take(n) =~= tiles);
    }
}

/// How many groups of eight cover so many pixels.
fn group_count(pixels: u32) -> (count: u32)
    ensures
        count == groups(pixels),
{
    ((pixels as u64 + 7) / 8) as u32
}

/// The runs over the images of a batch whose records stand so far apart.
pub fn dispatches(tiles: &[Tile], stride: u32) -> (list: Result<Vec<Dispatch>, Declined>)
    ensures
        match list {
            Ok(list) => runs_fit(tiles@, stride) && list@ == runs(tiles@, stride),
            Err(reason) => reason is TooLarge && !runs_fit(tiles@, stride),
        },
{
    let mut list: Vec<Dispatch> = Vec::new();
    let mut i: usize = 0;
    assert(tiles@.take(0) =~= seq![]);
    while i < tiles.len()
        invariant
            i <= tiles@.len(),
            list@ == runs(tiles@.take(i as int), stride),
            runs_fit(tiles@.take(i as int), stride),
        decreases tiles@.len() - i,
    {
        let tile = &tiles[i];
        let ghost more = tiles@.take(i + 1);
        proof {
            assert(more.drop_last() =~= tiles@.take(i as int));
            assert(more.last() == *tile);
            if runs_fit(tiles@, stride) {
                lemma_runs_fit(tiles@, stride, i + 1);
            }
        }
        if tile.width != 0 && tile.height != 0 {
            assert(i * stride <= 0xffff_ffff_ffff_ffff * 0xffff_ffff) by (nonlinear_arith)
                requires
                    0 <= i <= 0xffff_ffff_ffff_ffff,
                    0 <= stride <= 0xffff_ffff,
            ;
            let offset: u128 = i as u128 * stride as u128;
            if offset > 0xffff_ffff {
                return Err(Declined::TooLarge);
            }
            list.push(
                Dispatch {
                    offset: offset as u32,
                    groups_x: group_count(tile.width),
                    groups_y: group_count(tile.height),
                },
            );
        }
        i += 1;
    }
    assert(tiles@.take(i as int) =~= tiles@);
    Ok(list)
}

/// The bytes of each image in what came back from the card.
pub open spec fn images(tiles: Seq<Tile>, mapped: Seq<u8>) -> Seq<Seq<u8>>
    decreases tiles.len(),
{
    if tiles.len() == 0 {
        seq![]
    } else {
        let start = 4 * all_pixels(tiles.drop_last());
        images(tiles.drop_last(), mapped).push(
            mapped.subrange(start as int, (start + 4 * tiles.last().area()) as int),
        )
    }
}

/// Byte lists by what they hold.
pub open spec fn byte_lists(lists: Seq<Vec<u8>>) -> Seq<Seq<u8>> {
    lists.map_values(|list: Vec<u8>| list@)
}

proof fn lemma_pixels_grow(tiles: Seq<Tile>, n: int)
    requires
        0 <= n <= tiles.len(),
    ensures
        all_pixels(tiles.take(n)) <= all_pixels(tiles),
    decreases tiles.len() - n,
{
    if n < tiles.len() {
        assert(tiles.take(n + 1).drop_last() =~= tiles.take(n));
        lemma_pixels_grow(tiles, n + 1);
    } else {
        assert(tiles.take(n) =~= tiles);
    }
}

/// Takes what came back from the card apart: each image in its turn, four bytes to a pixel.
pub fn split_readback(tiles: &[Tile], mapped: &[u8]) -> (out: Vec<Vec<u8>>)
    requires
        4 * all_pixels(tiles@) <= mapped@.len(),
    ensures
        byte_lists(out@) == images(tiles@, mapped@),
{
    let mut out: Vec<Vec<u8>> = Vec::new();
    let mut at: usize = 0;
    let mut i: usize = 0;
    let len: usize = mapped.len();
    assert(byte_lists(out@) =~= images(tiles@.take(0), mapped@));
    while i < tiles.len()
        invariant
            i <= tiles@.len(),
            len == mapped@.len(),
            4 * all_pixels(tiles@) <= len,
            at == 4 * all_pixels(tiles@.take(i as int)),
            byte_lists(out@) == images(tiles@.take(i as int), mapped@),
        decreases tiles@.len() - i,
    {
        let tile = &tiles[i];
        let ghost more = tiles@.take(i + 1);
        proof {
            assert(more.drop_last() =~= tiles@.take(i as int));
            assert(more.last() == *tile);
            lemma_pixels_grow(tiles@, i + 1);
        }
        let area: usize = tile.pixels() as usize;
        let image = slice_subrange(mapped, at, at + area * 4);
        let ghost before = byte_lists(out@);
        let mut copy: Vec<u8> = Vec::new();
        push_bytes(&mut copy, image);
        assert(copy@ =~= image@);
        out.push(copy);
        assert(byte_lists(out@) =~= before.push(image@));
        at += area * 4;
        i += 1;
    }
    assert(tiles@.take(i as int) =~= tiles@);
    out
}

/// Byte lists one after the other.
pub open spec fn joined(lists: Seq<Seq<u8>>) -> Seq<u8>
    decreases lists.len(),
{
    if lists.len() == 0 {
        seq![]
    } else {
        joined(lists.drop_last()) + lists.last()
    }
}

/// Every byte of the pixels that came back belongs to exactly one image, in order: put together
/// again, the images are what came back. There are as many as were sent, each with four bytes to a
/// pixel.
pub proof fn law_images_share_the_readback(tiles: Seq<Tile>, mapped: Seq<u8>)
    requires
        4 * all_pixels(tiles) <= mapped.len(),
    ensures
        joined(images(tiles, mapped)) == mapped.take(4 * all_pixels(tiles) as int),
        images(tiles, mapped).len() == tiles.len(),
        forall|i: int|
            0 <= i < tiles.len() ==> (#[trigger] images(tiles, mapped)[i]).len() == 4
                * tiles[i].area(),
    decreases tiles.len(),
{
    if tiles.len() > 0 {
        let before = tiles.drop_last();
        law_images_share_the_readback(before, mapped);
        let list = images(tiles, mapped);
        assert(list.drop_last() =~= images(before, mapped));
        assert(joined(list) =~= mapped.take(4 * all_pixels(tiles) as int));
        assert forall|i: int| 0 <= i < tiles.len() implies (#[trigger] list[i]).len() == 4
            * tiles[i].area() by {
            if i < before.len() {
                assert(list[i] == images(before, mapped)[i]);
                assert(tiles[i] == before[i]);
            }
        }
    }
}

/// In a batch that fits, the pixels of each image lie behind those of the images before it, and
/// all of them in the buffer.
pub proof fn law_images_do_not_overlap(tiles: Seq<Tile>, i: int, j: int)
    requires
        0 <= i < j < tiles.len(),
    ensures
        all_pixels(tiles.take(i)) + tiles[i].area() <= all_pixels(tiles.take(j)),
        4 * (all_pixels(tiles.take(j)) + tiles[j].area()) <= pixel_bytes(tiles),
{
    assert(tiles.take(i + 1).drop_last() =~= tiles.take(i));
    assert(tiles.take(j + 1).drop_last() =~= tiles.take(j));
    lemma_pixels_grow(tiles.take(j), i + 1);
    assert(tiles.take(j).take(i + 1) =~= tiles.take(i + 1));
    lemma_pixels_grow(tiles, j + 1);
}

/// The word at a place of a buffer, its lowest byte first.
pub open spec fn word_at(bytes: Seq<u8>, at: int) -> int {
    bytes[at] + 256 * bytes[at + 1] + 65536 * bytes[at + 2] + 16777216 * bytes[at + 3]
}

/// `part` stands in `whole` at a place.
spec fn stands_at(whole: Seq<u8>, part: Seq<u8>, at: int) -> bool {
    &&& 0 <= at
    &&& at + part.len() <= whole.len()
    &&& forall|i: int| 0 <= i < part.len() ==> #[trigger] part[i] == whole[at + i]
}

proof fn lemma_stands_within(whole: Seq<u8>, part: Seq<u8>, at: int, more: Seq<u8>)
    requires
        stands_at(whole, part, at),
    ensures
        stands_at(whole + more, part, at),
{
    assert forall|i: int| 0 <= i < part.len() implies #[trigger] part[i] == (whole + more)[at
        + i] by {}
}

proof fn lemma_stands_behind(head: Seq<u8>, part: Seq<u8>, more: Seq<u8>)
    ensures
        stands_at(head + part, part, head.len() as int),
        stands_at(head + part + more, part, head.len() as int),
{
    assert forall|i: int| 0 <= i < part.len() implies #[trigger] part[i] == (head + part)[head.len()
        + i] by {}
    lemma_stands_within(head + part, part, head.len() as int, more);
}

proof fn lemma_stands_inside(whole: Seq<u8>, part: Seq<u8>, at: int, inner: Seq<u8>, inner_at: int)
    requires
        stands_at(whole, part, at),
        stands_at(part, inner, inner_at),
    ensures
        stands_at(whole, inner, at + inner_at),
{
    assert forall|i: int| 0 <= i < inner.len() implies #[trigger] inner[i] == whole[at + inner_at
        + i] by {
        assert(part[inner_at + i] == whole[at + (inner_at + i)]);
    }
}

proof fn lemma_word_read(bytes: Seq<u8>, word: u32, at: int)
    requires
        stands_at(bytes, word_bytes(word), at),
    ensures
        word_at(bytes, at) == word,
{
    let b = word_bytes(word);
    assert(b[0] == bytes[at + 0] && b[1] == bytes[at + 1] && b[2] == bytes[at + 2] && b[3]
        == bytes[at + 3]);
}

proof fn lemma_quad_read(bytes: Seq<u8>, a: u32, b: u32, c: u32, d: u32, at: int)
    requires
        stands_at(bytes, quad_bytes(a, b, c, d), at),
    ensures
        word_at(bytes, at) == a,
        word_at(bytes, at + 4) == b,
        word_at(bytes, at + 8) == c,
        word_at(bytes, at + 12) == d,
{
    let q = quad_bytes(a, b, c, d);
    assert(stands_at(q, word_bytes(a), 0));
    assert(stands_at(q, word_bytes(b), 4));
    assert(stands_at(q, word_bytes(c), 8));
    assert(stands_at(q, word_bytes(d), 12));
    lemma_stands_inside(bytes, q, at, word_bytes(a), 0);
    lemma_stands_inside(bytes, q, at, word_bytes(b), 4);
    lemma_stands_inside(bytes, q, at, word_bytes(c), 8);
    lemma_stands_inside(bytes, q, at, word_bytes(d), 12);
    lemma_word_read(bytes, a, at);
    lemma_word_read(bytes, b, at + 4);
    lemma_word_read(bytes, c, at + 8);
    lemma_word_read(bytes, d, at + 12);
}

/// Column `i` stands in the bytes of its splat's columns.
proof fn lemma_column_stands(columns: Seq<[Bits; 4]>, i: int)
    requires
        0 <= i < columns.len(),
    ensures
        stands_at(
            column_bytes(columns),
            quad_bytes(columns[i]@[0], columns[i]@[1], columns[i]@[2], columns[i]@[3]),
            16 * i,
        ),
    decreases columns.len(),
{
    let before = columns.drop_last();
    let last = columns.last()@;
    let tail = quad_bytes(last[0], last[1], last[2], last[3]);
    lemma_column_lengths(before);
    if i < before.len() {
        lemma_column_stands(before, i);
        assert(before[i] == columns[i]);
        lemma_stands_within(
            column_bytes(before),
            quad_bytes(columns[i]@[0], columns[i]@[1], columns[i]@[2], columns[i]@[3]),
            16 * i,
            tail,
        );
    } else {
        lemma_stands_behind(column_bytes(before), tail, seq![]);
    }
}

/// The columns of splat `s` stand behind those of the splats before it, and its record behind
/// theirs.
proof fn lemma_splat_stands(splats: Seq<Splat>, s: int)
    requires
        0 <= s < splats.len(),
    ensures
        stands_at(
            all_columns(splats),
            column_bytes(splats[s].columns@),
            16 * column_count(splats.take(s)) as int,
        ),
        stands_at(
            splat_records(splats),
            splat_record(splats[s], column_count(splats.take(s)) as u32),
            64 * s,
        ),
    decreases splats.len(),
{
    let before = splats.drop_last();
    lemma_record_lengths(before);
    let tail = column_bytes(splats.last().columns@);
    let record = splat_record(splats.last(), column_count(before) as u32);
    if s < before.len() {
        lemma_splat_stands(before, s);
        assert(before[s] == splats[s]);
        assert(before.take(s) =~= splats.take(s));
        lemma_stands_within(
            all_columns(before),
            column_bytes(splats[s].columns@),
            16 * column_count(splats.take(s)) as int,
            tail,
        );
        lemma_stands_within(
            splat_records(before),
            splat_record(splats[s], column_count(splats.take(s)) as u32),
            64 * s,
            record,
        );
    } else {
        assert(splats.take(s) =~= before);
        lemma_stands_behind(all_columns(before), tail, seq![]);
        lemma_stands_behind(splat_records(before), record, seq![]);
    }
}

proof fn lemma_splat_read(bytes: Seq<u8>, splat: Splat, columns: u32, at: int)
    requires
        stands_at(bytes, splat_record(splat, columns), at),
    ensures
        forall|k: int|
            0 <= k < 4 ==> word_at(bytes, #[trigger] (at + 4 * k)) == splat.rect@[k],
        word_at(bytes, at + 16) == splat.radius,
        word_at(bytes, at + 20) == splat.near_sigma,
        word_at(bytes, at + 24) == splat.far_sigma,
        forall|k: int|
            0 <= k < 4 ==> word_at(bytes, #[trigger] (at + 32 + 4 * k)) == splat.bounds@[k],
        word_at(bytes, at + 48) == splat.max_step,
        word_at(bytes, at + 52) == columns,
{
    let r = splat_record(splat, columns);
    let a = quad_bytes(splat.rect@[0], splat.rect@[1], splat.rect@[2], splat.rect@[3]);
    let b = quad_bytes(splat.radius, splat.near_sigma, splat.far_sigma, 0);
    let c = quad_bytes(splat.bounds@[0], splat.bounds@[1], splat.bounds@[2], splat.bounds@[3]);
    let d = quad_bytes(splat.max_step, columns, 0, 0);
    assert(r == a + b + c + d);
    assert(stands_at(r, a, 0));
    assert(stands_at(r, b, 16));
    assert(stands_at(r, c, 32));
    assert(stands_at(r, d, 48));
    lemma_stands_inside(bytes, r, at, a, 0);
    lemma_stands_inside(bytes, r, at, b, 16);
    lemma_stands_inside(bytes, r, at, c, 32);
    lemma_stands_inside(bytes, r, at, d, 48);
    lemma_quad_read(
        bytes,
        splat.rect@[0],
        splat.rect@[1],
        splat.rect@[2],
        splat.rect@[3],
        at,
    );
    lemma_quad_read(bytes, splat.radius, splat.near_sigma, splat.far_sigma, 0, at + 16);
    lemma_quad_read(
        bytes,
        splat.bounds@[0],
        splat.bounds@[1],
        splat.bounds@[2],
        splat.bounds@[3],
        at + 32,
    );
    lemma_quad_read(bytes, splat.max_step, columns, 0, 0, at + 48);
    assert forall|k: int| 0 <= k < 4 implies word_at(bytes, #[trigger] (at + 4 * k))
        == splat.rect@[k] by {
        assert(k == 0 || k == 1 || k == 2 || k == 3);
    }
    assert forall|k: int| 0 <= k < 4 implies word_at(bytes, #[trigger] (at + 32 + 4 * k))
        == splat.bounds@[k] by {
        assert(k == 0 || k == 1 || k == 2 || k == 3);
    }
}

proof fn lemma_columns_start_fits(splats: Seq<Splat>, s: int)
    requires
        columns_fit(splats),
        0 <= s < splats.len(),
    ensures
        column_count(splats.take(s)) <= u32::MAX,
{
    lemma_columns_fit(splats, s + 1);
    assert(splats.take(s + 1).drop_last() =~= splats.take(s));
}

proof fn lemma_splat_column(splats: Seq<Splat>, s: int, i: int)
    requires
        0 <= s < splats.len(),
        0 <= i < splats[s].columns@.len(),
    ensures
        ({
            let columns = padded(all_columns(splats), 16);
            let at = 16 * (column_count(splats.take(s)) + i);
            let column = splats[s].columns@[i]@;
            &&& word_at(columns, at) == column[0]
            &&& word_at(columns, at + 4) == column[1]
            &&& word_at(columns, at + 8) == column[2]
            &&& word_at(columns, at + 12) == column[3]
        }),
{
    lemma_splat_stands(splats, s);
    let columns = all_columns(splats);
    let first = column_count(splats.take(s));
    let column = splats[s].columns@[i]@;
    let quad = quad_bytes(column[0], column[1], column[2], column[3]);
    lemma_column_stands(splats[s].columns@, i);
    lemma_stands_inside(
        columns,
        column_bytes(splats[s].columns@),
        16 * first as int,
        quad,
        16 * i,
    );
    lemma_quad_read(columns, column[0], column[1], column[2], column[3], 16 * first + 16 * i);
    assert(columns.len() > 0);
    assert(16 * first + 16 * i == 16 * (first + i));
}

/// The card finds every splat as it was given: its record is the one with its number, with
/// rectangle, radius, spread, bounds and reach in their places, and from the column that the record
/// names on stand the red, green, blue and strength of each of its columns.
#[verifier::rlimit(60)]
pub proof fn law_splats_can_be_read_back(splats: Seq<Splat>, s: int)
    requires
        0 <= s < splats.len(),
        columns_fit(splats),
    ensures
        ({
            let records = padded(splat_records(splats), 64);
            let columns = padded(all_columns(splats), 16);
            let first = word_at(records, 64 * s + 52);
            &&& forall|k: int|
                0 <= k < 4 ==> word_at(records, #[trigger] (64 * s + 4 * k)) == splats[s].rect@[k]
            &&& word_at(records, 64 * s + 16) == splats[s].radius
            &&& word_at(records, 64 * s + 20) == splats[s].near_sigma
            &&& word_at(records, 64 * s + 24) == splats[s].far_sigma
            &&& forall|k: int|
                0 <= k < 4 ==> word_at(records, #[trigger] (64 * s + 32 + 4 * k))
                    == splats[s].bounds@[k]
            &&& word_at(records, 64 * s + 48) == splats[s].max_step
            &&& forall|i: int, k: int|
                0 <= i < splats[s].columns@.len() && 0 <= k < 4 ==> word_at(
                    columns,
                    #[trigger] (16 * (first + i) + 4 * k),
                ) == splats[s].columns@[i]@[k]
        }),
{
    lemma_splat_stands(splats, s);
    lemma_columns_start_fits(splats, s);
    lemma_record_lengths(splats);
    let records = splat_records(splats);
    let columns = all_columns(splats);
    let first = column_count(splats.take(s));
    lemma_splat_read(records, splats[s], first as u32, 64 * s);
    assert(padded(records, 64) == records);
    assert forall|i: int, k: int| 0 <= i < splats[s].columns@.len() && 0 <= k < 4 implies word_at(
        padded(columns, 16),
        #[trigger] (16 * (first + i) + 4 * k),
    ) == splats[s].columns@[i]@[k] by {
        lemma_splat_column(splats, s, i);
        assert(k == 0 || k == 1 || k == 2 || k == 3);
    }
}

proof fn lemma_tile_lengths(tiles: Seq<Tile>, curve: Curve, stride: int)
    requires
        64 <= stride,
    ensures
        tile_records(tiles, curve, stride).len() == stride * tiles.len(),
    decreases tiles.len(),
{
    if tiles.len() > 0 {
        lemma_tile_lengths(tiles.drop_last(), curve, stride);
        assert(stride * (tiles.len() - 1) + stride == stride * tiles.len()) by (nonlinear_arith);
    } else {
        assert(stride * 0 == 0);
    }
}

proof fn lemma_tile_stands(tiles: Seq<Tile>, curve: Curve, stride: int, t: int)
    requires
        64 <= stride,
        0 <= t < tiles.len(),
    ensures
        stands_at(
            tile_records(tiles, curve, stride),
            tile_record(
                tiles[t],
                all_splats(tiles.take(t)).len() as u32,
                all_pixels(tiles.take(t)) as u32,
                curve,
            ),
            stride * t,
        ),
    decreases tiles.len(),
{
    let before = tiles.drop_last();
    let head = tile_records(before, curve, stride);
    let record = tile_record(
        tiles.last(),
        all_splats(before).len() as u32,
        all_pixels(before) as u32,
        curve,
    );
    let gap = zeroes((stride - 64) as nat);
    lemma_tile_lengths(before, curve, stride);
    if t < before.len() {
        lemma_tile_stands(before, curve, stride, t);
        assert(before[t] == tiles[t]);
        assert(before.take(t) =~= tiles.take(t));
        let earlier = tile_record(
            tiles[t],
            all_splats(tiles.take(t)).len() as u32,
            all_pixels(tiles.take(t)) as u32,
            curve,
        );
        lemma_stands_within(head, earlier, stride * t, record);
        lemma_stands_within(head + record, earlier, stride * t, gap);
    } else {
        assert(tiles.take(t) =~= before);
        lemma_stands_behind(head, record, gap);
    }
}

proof fn lemma_tile_read(
    bytes: Seq<u8>,
    tile: Tile,
    splats: u32,
    pixels: u32,
    curve: Curve,
    at: int,
)
    requires
        stands_at(bytes, tile_record(tile, splats, pixels, curve), at),
    ensures
        word_at(bytes, at) == tile.width,
        word_at(bytes, at + 4) == tile.height,
        word_at(bytes, at + 8) == splats,
        word_at(bytes, at + 12) == tile.splats@.len() as u32,
        word_at(bytes, at + 16) == pixels,
        word_at(bytes, at + 32) == curve.steps_per_px,
        word_at(bytes, at + 36) == curve.peak,
        word_at(bytes, at + 40) == curve.near_weight,
        word_at(bytes, at + 44) == curve.far_weight,
        word_at(bytes, at + 48) == curve.paint_floor,
{
    let r = tile_record(tile, splats, pixels, curve);
    let a = quad_bytes(tile.width, tile.height, splats, tile.splats@.len() as u32);
    let b = quad_bytes(pixels, 0, 0, 0);
    let c = quad_bytes(curve.steps_per_px, curve.peak, curve.near_weight, curve.far_weight);
    let d = quad_bytes(curve.paint_floor, 0, 0, 0);
    assert(r == a + b + c + d);
    assert(stands_at(r, a, 0));
    assert(stands_at(r, b, 16));
    assert(stands_at(r, c, 32));
    assert(stands_at(r, d, 48));
    lemma_stands_inside(bytes, r, at, a, 0);
    lemma_stands_inside(bytes, r, at, b, 16);
    lemma_stands_inside(bytes, r, at, c, 32);
    lemma_stands_inside(bytes, r, at, d, 48);
    lemma_quad_read(bytes, tile.width, tile.height, splats, tile.splats@.len() as u32, at);
    lemma_quad_read(bytes, pixels, 0, 0, 0, at + 16);
    lemma_quad_read(
        bytes,
        curve.steps_per_px,
        curve.peak,
        curve.near_weight,
        curve.far_weight,
        at + 32,
    );
    lemma_quad_read(bytes, curve.paint_floor, 0, 0, 0, at + 48);
}

/// The words of an image's record, but for where its pixels start.
proof fn lemma_tile_words(tiles: Seq<Tile>, curve: Curve, stride: int, t: int)
    requires
        64 <= stride,
        0 <= t < tiles.len(),
        offsets_fit(tiles),
    ensures
        ({
            let records = tile_records(tiles, curve, stride);
            let at = stride * t;
            &&& word_at(records, at) == tiles[t].width
            &&& word_at(records, at + 4) == tiles[t].height
            &&& word_at(records, at + 8) == all_splats(tiles.take(t)).len()
            &&& word_at(records, at + 12) == tiles[t].splats@.len()
            &&& word_at(records, at + 32) == curve.steps_per_px
            &&& word_at(records, at + 36) == curve.peak
            &&& word_at(records, at + 40) == curve.near_weight
            &&& word_at(records, at + 44) == curve.far_weight
            &&& word_at(records, at + 48) == curve.paint_floor
        }),
{
    lemma_offsets_fit(tiles, t + 1);
    assert(tiles.take(t + 1).drop_last() =~= tiles.take(t));
    assert(tiles.take(t + 1).last() == tiles[t]);
    lemma_tile_stands(tiles, curve, stride, t);
    lemma_tile_read(
        tile_records(tiles, curve, stride),
        tiles[t],
        all_splats(tiles.take(t)).len() as u32,
        all_pixels(tiles.take(t)) as u32,
        curve,
        stride * t,
    );
}

/// The splats of an image stand behind those of the images before it.
proof fn lemma_own_splats(tiles: Seq<Tile>, t: int)
    requires
        0 <= t < tiles.len(),
    ensures
        all_splats(tiles.take(t)).len() + tiles[t].splats@.len() <= all_splats(tiles).len(),
        forall|i: int|
            0 <= i < tiles[t].splats@.len() ==> all_splats(tiles)[all_splats(tiles.take(t)).len()
                + i] == #[trigger] tiles[t].splats@[i],
{
    lemma_splats_prefix(tiles, t + 1);
    assert(tiles.take(t + 1).drop_last() =~= tiles.take(t));
    let first = all_splats(tiles.take(t)).len();
    let upto = all_splats(tiles.take(t + 1));
    assert(upto == all_splats(tiles.take(t)) + tiles[t].splats@);
    assert forall|i: int| 0 <= i < tiles[t].splats@.len() implies all_splats(tiles)[first + i]
        == #[trigger] tiles[t].splats@[i] by {
        assert(upto[first + i] == tiles[t].splats@[i]);
        assert(upto[first + i] == all_splats(tiles).take(upto.len() as int)[first + i]);
    }
}

/// The card finds every image of a batch as it was given: its record lies a stride behind the one
/// before it and holds its size, how many splats it has and the falloff; and the splats that the
/// record names are its own, in their order. Its pixels start where those of the image before it
/// end, and those of the first image at the start of the buffer.
#[verifier::rlimit(60)]
pub proof fn law_images_can_be_read_back(tiles: Seq<Tile>, curve: Curve, stride: int, t: int)
    requires
        64 <= stride,
        0 <= t < tiles.len(),
        offsets_fit(tiles),
    ensures
        ({
            let records = tile_records(tiles, curve, stride);
            let at = stride * t;
            let first = word_at(records, at + 8);
            &&& word_at(records, at) == tiles[t].width
            &&& word_at(records, at + 4) == tiles[t].height
            &&& word_at(records, at + 12) == tiles[t].splats@.len()
            &&& first + tiles[t].splats@.len() <= all_splats(tiles).len()
            &&& forall|i: int|
                0 <= i < tiles[t].splats@.len() ==> all_splats(tiles)[first + i]
                    == #[trigger] tiles[t].splats@[i]
            &&& t == 0 ==> word_at(records, at + 16) == 0
            &&& t > 0 ==> word_at(records, at + 16) == word_at(records, stride * (t - 1) + 16)
                + tiles[t - 1].width * tiles[t - 1].height
            &&& word_at(records, at + 32) == curve.steps_per_px
            &&& word_at(records, at + 36) == curve.peak
            &&& word_at(records, at + 40) == curve.near_weight
            &&& word_at(records, at + 44) == curve.far_weight
            &&& word_at(records, at + 48) == curve.paint_floor
        }),
{
    lemma_tile_words(tiles, curve, stride, t);
    lemma_own_splats(tiles, t);
    lemma_pixels_word(tiles, curve, stride, t);
    if t == 0 {
        assert(tiles.take(0) =~= seq![]);
    } else {
        lemma_pixels_word(tiles, curve, stride, t - 1);
        assert(tiles.take(t).drop_last() =~= tiles.take(t - 1));
        assert(tiles.take(t).last() == tiles[t - 1]);
    }
}

/// Image number `t` of what came back from the card is what the card wrote from the place on that
/// the image's record names.
pub proof fn law_each_image_comes_from_its_place(
    tiles: Seq<Tile>,
    mapped: Seq<u8>,
    curve: Curve,
    stride: int,
    t: int,
    i: int,
)
    requires
        64 <= stride,
        0 <= t < tiles.len(),
        offsets_fit(tiles),
        4 * all_pixels(tiles) <= mapped.len(),
        0 <= i < 4 * tiles[t].width * tiles[t].height,
    ensures
        images(tiles, mapped)[t].len() == 4 * tiles[t].width * tiles[t].height,
        images(tiles, mapped)[t][i] == mapped[4 * word_at(
            tile_records(tiles, curve, stride),
            stride * t + 16,
        ) + i],
{
    let area = tiles[t].width * tiles[t].height;
    assert(4 * area == 4 * tiles[t].width * tiles[t].height) by (nonlinear_arith)
        requires
            area == tiles[t].width * tiles[t].height,
    ;
    lemma_image_at(tiles, mapped, t);
    lemma_pixels_grow(tiles, t + 1);
    assert(tiles.take(t + 1).drop_last() =~= tiles.take(t));
    lemma_pixels_word(tiles, curve, stride, t);
}

proof fn lemma_pixels_word(tiles: Seq<Tile>, curve: Curve, stride: int, t: int)
    requires
        64 <= stride,
        0 <= t < tiles.len(),
        offsets_fit(tiles),
    ensures
        word_at(tile_records(tiles, curve, stride), stride * t + 16) == all_pixels(tiles.take(t)),
{
    lemma_offsets_fit(tiles, t + 1);
    assert(tiles.take(t + 1).drop_last() =~= tiles.take(t));
    lemma_tile_stands(tiles, curve, stride, t);
    lemma_tile_read(
        tile_records(tiles, curve, stride),
        tiles[t],
        all_splats(tiles.take(t)).len() as u32,
        all_pixels(tiles.take(t)) as u32,
        curve,
        stride * t,
    );
}

proof fn lemma_image_at(tiles: Seq<Tile>, mapped: Seq<u8>, t: int)
    requires
        0 <= t < tiles.len(),
    ensures
        images(tiles, mapped).len() == tiles.len(),
        ({
            let start = 4 * all_pixels(tiles.take(t));
            images(tiles, mapped)[t] == mapped.subrange(
                start as int,
                (start + 4 * tiles[t].area()) as int,
            )
        }),
    decreases tiles.len(),
{
    let before = tiles.drop_last();
    if t < before.len() {
        lemma_image_at(before, mapped, t);
        assert(before.take(t) =~= tiles.take(t));
        assert(before[t] == tiles[t]);
    } else {
        assert(tiles.take(t) =~= before);
        if before.len() > 0 {
            lemma_image_at(before, mapped, 0);
        } else {
            assert(images(before, mapped).len() == 0);
        }
    }
}

/// Every image that has pixels is run over once, in its turn: from its own record, with just as
/// many groups of eight by eight as cover it. One without pixels is not run over.
pub proof fn law_every_pixel_is_run_over(tiles: Seq<Tile>, stride: u32, t: int)
    requires
        0 <= t < tiles.len(),
        runs_fit(tiles, stride),
    ensures
        ({
            let before = runs(tiles.take(t), stride);
            let upto = runs(tiles.take(t + 1), stride);
            if tiles[t].width == 0 || tiles[t].height == 0 {
                upto == before
            } else {
                let run = upto.last();
                &&& upto.len() == before.len() + 1
                &&& upto.drop_last() == before
                &&& run.offset == t * stride
                &&& 8 * (run.groups_x - 1) < tiles[t].width <= 8 * run.groups_x
                &&& 8 * (run.groups_y - 1) < tiles[t].height <= 8 * run.groups_y
            }
        }),
        runs(tiles.take(t + 1), stride).is_prefix_of(runs(tiles, stride)),
        runs(tiles.take(0), stride).len() == 0,
{
    assert(tiles.take(t + 1).drop_last() =~= tiles.take(t));
    lemma_runs_fit(tiles, stride, t + 1);
    lemma_runs_prefix(tiles, stride, t + 1);
    assert(runs(tiles.take(t + 1), stride).drop_last() =~= runs(tiles.take(t), stride)
        || tiles[t].width == 0 || tiles[t].height == 0);
}

proof fn lemma_runs_prefix(tiles: Seq<Tile>, stride: u32, n: int)
    requires
        0 <= n <= tiles.len(),
    ensures
        runs(tiles.take(n), stride).is_prefix_of(runs(tiles, stride)),
    decreases tiles.len() - n,
{
    if n < tiles.len() {
        assert(tiles.drop_last().take(n) =~= tiles.take(n));
        lemma_runs_prefix(tiles.drop_last(), stride, n);
        let a = runs(tiles.take(n), stride);
        let b = runs(tiles.drop_last(), stride);
        let c = runs(tiles, stride);
        assert(c.subrange(0, a.len() as int) =~= b.subrange(0, a.len() as int));
    } else {
        assert(tiles.take(n) =~= tiles);
        let a = runs(tiles, stride);
        assert(a.subrange(0, a.len() as int) =~= a);
    }
}

/// The pixels of a batch take four bytes each, its splats 64 and their columns 16, and a frame is
/// declined only where one of these buffers is larger than the card will bind, or where a number
/// that the card is told fits no word.
pub proof fn law_small_batches_fit(tiles: Seq<Tile>, max_binding: u64)
    requires
        16 * column_count(all_splats(tiles)) <= max_binding,
        64 * all_splats(tiles).len() <= max_binding,
        4 * all_pixels(tiles) <= max_binding,
        4 <= max_binding <= u32::MAX,
    ensures
        batch_fits(tiles, max_binding),
{
    let splats = all_splats(tiles);
    lemma_record_lengths(splats);
    lemma_small_columns(splats);
    lemma_small_offsets(tiles);
}

proof fn lemma_small_columns(splats: Seq<Splat>)
    requires
        column_count(splats) <= u32::MAX,
    ensures
        columns_fit(splats),
    decreases splats.len(),
{
    if splats.len() > 0 {
        lemma_small_columns(splats.drop_last());
    }
}

proof fn lemma_small_offsets(tiles: Seq<Tile>)
    requires
        all_splats(tiles).len() <= u32::MAX,
        all_pixels(tiles) <= u32::MAX,
    ensures
        offsets_fit(tiles),
    decreases tiles.len(),
{
    if tiles.len() > 0 {
        lemma_small_offsets(tiles.drop_last());
    }
}

/// Records stand as far apart as the card asks for, and never so close that they overlap; nothing is
/// wasted beyond that.
pub proof fn law_records_stand_apart(alignment: u32)
    ensures
        record_stride(alignment) >= 64,
        record_stride(alignment) >= alignment,
        record_stride(alignment) == 64 || record_stride(alignment) == alignment,
{
}

/// A buffer is handed over as it is, and an empty one as one record of zeroes.
pub proof fn law_buffers_are_never_empty(bytes: Seq<u8>, stride: nat)
    requires
        stride > 0,
    ensures
        padded(bytes, stride).len() > 0,
        bytes.len() > 0 ==> padded(bytes, stride) == bytes,
        bytes.len() == 0 ==> padded(bytes, stride).len() == stride && forall|i: int|
            0 <= i < stride ==> #[trigger] padded(bytes, stride)[i] == 0,
{
}

} // verus!
