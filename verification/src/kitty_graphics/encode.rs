//! The escapes of the Kitty graphics protocol.

use crate::base64_codec;
use crate::kitty_graphics::model::{ClippedPlacement, GraphicsAnimation, HostPlacement};
use crate::text;
use crate::text::{push_bytes, push_decimal, push_signed, push_text};
use vstd::prelude::*;

verus! {

/// The most image bytes that one escape carries. Three bytes make four characters of base64, so
/// a full escape carries the 4096 characters that the protocol allows.
pub const KITTY_CHUNK_BYTES: usize = 3072;

/// One change to the images on the host terminal. An upload and an animation name the placement
/// whose image they send by its position in the list of placements.
#[derive(Debug, Clone, Copy, PartialEq, Eq, Structural)]
pub enum GraphicsCommand {
    DeleteImage { host_id: u32 },
    Upload { placement: usize, format_code: u32, host_id: u32 },
    Display { clipped: ClippedPlacement, host_id: u32, host_placement_id: u32, z: i32 },
    Animate { placement: usize, format_code: u32, host_id: u32 },
    DeletePlacement { host_id: u32, host_placement_id: u32 },
}

/// A labelled number.
pub open spec fn field(label: &str, n: nat) -> Seq<u8> {
    text::utf8(label) + text::decimal(n)
}

/// A labelled number that is left out when it is zero.
pub open spec fn optional_field(label: &str, n: nat) -> Seq<u8> {
    if n > 0 {
        field(label, n)
    } else {
        Seq::empty()
    }
}

/// Deletes an image with all its placements.
pub open spec fn delete_image_bytes(host_id: u32) -> Seq<u8> {
    field("\x1b_Ga=d,d=I,i=", host_id as nat) + text::utf8(",q=2;\x1b\\")
}

/// Deletes one placement and keeps the image.
pub open spec fn delete_placement_bytes(host_id: u32, host_placement_id: u32) -> Seq<u8> {
    field("\x1b_Ga=d,d=i,i=", host_id as nat) + field(",p=", host_placement_id as nat)
        + text::utf8(",q=2;\x1b\\")
}

/// What an upload says about the image, `how` naming the action and the transport.
pub open spec fn upload_control(
    how: &str,
    format_code: u32,
    width: u32,
    height: u32,
    host_id: u32,
) -> Seq<u8> {
    field(how, format_code as nat) + field(",s=", width as nat) + field(",v=", height as nat)
        + field(",i=", host_id as nat) + text::utf8(",q=2")
}

/// Uploads an image that the terminal reads from the file at `path`, in one escape.
pub open spec fn upload_via_file_bytes(
    path: Seq<char>,
    format_code: u32,
    width: u32,
    height: u32,
    host_id: u32,
) -> Seq<u8> {
    text::utf8("\x1b_G") + upload_control("a=t,t=f,f=", format_code, width, height, host_id)
        + text::utf8(",m=0;") + base64_bytes(vstd::utf8::encode_utf8(path)) + text::utf8("\x1b\\")
}

/// The bytes of the base64 text of `data`.
pub open spec fn base64_bytes(data: Seq<u8>) -> Seq<u8> {
    vstd::utf8::encode_utf8(base64_codec::encoded(data))
}

/// Whether more escapes follow the first one of `data`.
pub open spec fn more_follows(data: Seq<u8>) -> nat {
    if data.len() > KITTY_CHUNK_BYTES {
        1
    } else {
        0
    }
}

/// The part of `data` that its first escape carries.
pub open spec fn first_chunk(data: Seq<u8>) -> Seq<u8> {
    if data.len() > KITTY_CHUNK_BYTES {
        data.take(KITTY_CHUNK_BYTES as int)
    } else {
        data
    }
}

/// The part of `data` that its first escape leaves.
pub open spec fn later_chunks(data: Seq<u8>) -> Seq<u8> {
    if data.len() > KITTY_CHUNK_BYTES {
        data.skip(KITTY_CHUNK_BYTES as int)
    } else {
        Seq::empty()
    }
}

/// The escapes after the first: each says whether more follow, then whatever `extra` repeats.
pub open spec fn continuation_bytes(extra: Seq<u8>, data: Seq<u8>) -> Seq<u8>
    decreases data.len(),
{
    if data.len() == 0 {
        Seq::empty()
    } else {
        field("\x1b_Gm=", more_follows(data)) + extra + text::utf8(";") + base64_bytes(
            first_chunk(data),
        ) + text::utf8("\x1b\\") + continuation_bytes(extra, later_chunks(data))
    }
}

/// The escapes that carry `data`: the first has the whole control data, the others only what a
/// continuation needs. No data makes no escape.
pub open spec fn data_bytes(control: Seq<u8>, extra: Seq<u8>, data: Seq<u8>) -> Seq<u8> {
    if data.len() == 0 {
        Seq::empty()
    } else {
        text::utf8("\x1b_G") + control + field(",m=", more_follows(data)) + text::utf8(";")
            + base64_bytes(first_chunk(data)) + text::utf8("\x1b\\") + continuation_bytes(
            extra,
            later_chunks(data),
        )
    }
}

/// Uploads an image inside the stream.
pub open spec fn upload_bytes(
    format_code: u32,
    width: u32,
    height: u32,
    host_id: u32,
    data: Seq<u8>,
) -> Seq<u8> {
    data_bytes(
        upload_control("a=t,t=d,f=", format_code, width, height, host_id),
        Seq::empty(),
        data,
    )
}

/// Appends one further frame to an image. Every continuation repeats the action, since without
/// it the terminal would take the continuation for an ordinary upload.
pub open spec fn frame_bytes(
    host_id: u32,
    format_code: u32,
    width: u32,
    height: u32,
    gap_ms: u32,
    data: Seq<u8>,
) -> Seq<u8> {
    data_bytes(
        field("a=f,i=", host_id as nat) + field(",f=", format_code as nat) + field(
            ",s=",
            width as nat,
        ) + field(",v=", height as nat) + field(",z=", gap_ms as nat) + text::utf8(",q=2"),
        text::utf8(",a=f"),
        data,
    )
}

/// Sets the first frame's own gap, then starts looped playback.
pub open spec fn arm_bytes(host_id: u32, root_gap_ms: u32) -> Seq<u8> {
    field("\x1b_Ga=a,i=", host_id as nat) + field(",r=1,z=", root_gap_ms as nat) + text::utf8(
        ",q=2;\x1b\\",
    ) + field("\x1b_Ga=a,i=", host_id as nat) + text::utf8(",s=3,v=1,q=2;\x1b\\")
}

/// The first `count` frames of an animation, one after the other.
pub open spec fn frames_bytes(
    host_id: u32,
    format_code: u32,
    width: u32,
    height: u32,
    animation: GraphicsAnimation,
    count: nat,
) -> Seq<u8>
    decreases count,
{
    if count == 0 {
        Seq::empty()
    } else {
        frames_bytes(host_id, format_code, width, height, animation, (count - 1) as nat)
            + frame_bytes(
            host_id,
            format_code,
            width,
            height,
            animation.frame_gap_ms,
            animation.frames@[count - 1]@,
        )
    }
}

/// All frames of an animation, and the start of its playback. Without frames there is nothing
/// to play.
pub open spec fn animation_bytes(
    host_id: u32,
    format_code: u32,
    width: u32,
    height: u32,
    animation: GraphicsAnimation,
) -> Seq<u8> {
    if animation.frames@.len() == 0 {
        Seq::empty()
    } else {
        frames_bytes(host_id, format_code, width, height, animation, animation.frames@.len())
            + arm_bytes(host_id, animation.frame_gap_ms)
    }
}

/// Moves the cursor to a cell, rows and columns being counted from one.
pub open spec fn cursor_bytes(x: u16, y: u16) -> Seq<u8> {
    field("\x1b[", (y + 1) as nat) + field(";", (x + 1) as nat) + text::utf8("H")
}

/// Which image a placement shows, over how many cells, and at which height.
pub open spec fn placement_control(
    host_id: u32,
    host_placement_id: u32,
    cols: u32,
    rows: u32,
    z: i32,
) -> Seq<u8> {
    field("a=p,i=", host_id as nat) + field(",p=", host_placement_id as nat) + field(
        ",c=",
        cols as nat,
    ) + field(",r=", rows as nat) + text::utf8(",z=") + text::signed_decimal(z as int)
        + text::utf8(",C=1,q=2")
}

/// The part of the image that a placement shows, and its offset inside the first cell.
pub open spec fn crop_control(c: ClippedPlacement) -> Seq<u8> {
    optional_field(",x=", c.source_x as nat) + optional_field(",y=", c.source_y as nat)
        + optional_field(",w=", c.source_width as nat) + optional_field(
        ",h=",
        c.source_height as nat,
    ) + optional_field(",X=", c.x_offset as nat) + optional_field(",Y=", c.y_offset as nat)
}

/// Moves the cursor to the placement's first cell and shows the image there.
pub open spec fn display_bytes(
    c: ClippedPlacement,
    host_id: u32,
    host_placement_id: u32,
    z: i32,
) -> Seq<u8> {
    cursor_bytes(c.x, c.y) + text::utf8("\x1b_G") + placement_control(
        host_id,
        host_placement_id,
        c.cols,
        c.rows,
        z,
    ) + crop_control(c) + text::utf8(";\x1b\\")
}

/// The upload of a placement's image, from the file at `staged` where there is one.
pub open spec fn image_bytes(
    p: HostPlacement,
    format_code: u32,
    host_id: u32,
    staged: Option<Seq<char>>,
) -> Seq<u8> {
    if p.placement.data@.len() == 0 {
        Seq::empty()
    } else {
        match staged {
            Some(path) => upload_via_file_bytes(
                path,
                format_code,
                p.placement.image_width,
                p.placement.image_height,
                host_id,
            ),
            None => upload_bytes(
                format_code,
                p.placement.image_width,
                p.placement.image_height,
                host_id,
                p.placement.data@,
            ),
        }
    }
}

/// The bytes of one command. An upload takes its image from the file at `staged` where there is
/// one; otherwise the image travels inside the stream.
pub open spec fn command_bytes(
    command: GraphicsCommand,
    placements: Seq<HostPlacement>,
    staged: Option<Seq<char>>,
) -> Seq<u8> {
    match command {
        GraphicsCommand::DeleteImage { host_id } => delete_image_bytes(host_id),
        GraphicsCommand::Upload { placement, format_code, host_id } => image_bytes(
            placements[placement as int],
            format_code,
            host_id,
            staged,
        ),
        GraphicsCommand::Display { clipped, host_id, host_placement_id, z } => display_bytes(
            clipped,
            host_id,
            host_placement_id,
            z,
        ),
        GraphicsCommand::Animate { placement, format_code, host_id } => match placements[
            placement as int].animation {
            Some(animation) => animation_bytes(
                host_id,
                format_code,
                placements[placement as int].placement.image_width,
                placements[placement as int].placement.image_height,
                animation,
            ),
            None => Seq::empty(),
        },
        GraphicsCommand::DeletePlacement { host_id, host_placement_id } => delete_placement_bytes(
            host_id,
            host_placement_id,
        ),
    }
}

/// Where the image of the command at `i` was staged, if it was.
pub open spec fn staged_at(staged: Seq<Option<String>>, i: int) -> Option<Seq<char>> {
    if 0 <= i < staged.len() {
        match staged[i] {
            Some(path) => Some(path@),
            None => None,
        }
    } else {
        None
    }
}

/// The bytes of the first `count` commands, in order, each with its own entry of `staged`.
pub open spec fn commands_bytes(
    commands: Seq<GraphicsCommand>,
    placements: Seq<HostPlacement>,
    staged: Seq<Option<String>>,
    count: nat,
) -> Seq<u8>
    decreases count,
{
    if count == 0 {
        Seq::empty()
    } else {
        commands_bytes(commands, placements, staged, (count - 1) as nat) + command_bytes(
            commands[count - 1],
            placements,
            staged_at(staged, count - 1),
        )
    }
}

/// A command that can be written out: it names a placement that is there, and its cursor
/// position can be counted from one.
pub open spec fn command_fits(command: GraphicsCommand, placements: Seq<HostPlacement>) -> bool {
    match command {
        GraphicsCommand::Upload { placement, .. } => placement < placements.len(),
        GraphicsCommand::Animate { placement, .. } => placement < placements.len(),
        GraphicsCommand::Display { clipped, .. } => clipped.x < u16::MAX && clipped.y < u16::MAX,
        _ => true,
    }
}

fn push_field(out: &mut Vec<u8>, label: &str, n: u32)
    ensures
        final(out)@ == old(out)@ + field(label, n as nat),
{
    push_text(out, label);
    push_decimal(out, n as u64);
    assert(out@ =~= old(out)@ + field(label, n as nat));
}

fn push_optional_field(out: &mut Vec<u8>, label: &str, n: u32)
    ensures
        final(out)@ == old(out)@ + optional_field(label, n as nat),
{
    if n > 0 {
        push_field(out, label, n);
    } else {
        assert(out@ =~= old(out)@ + optional_field(label, n as nat));
    }
}

pub fn encode_delete_image(out: &mut Vec<u8>, id: u32)
    ensures
        final(out)@ == old(out)@ + delete_image_bytes(id),
{
    push_field(out, "\x1b_Ga=d,d=I,i=", id);
    push_text(out, ",q=2;\x1b\\");
    assert(out@ =~= old(out)@ + delete_image_bytes(id));
}

pub fn encode_delete_placement(out: &mut Vec<u8>, host_id: u32, host_placement_id: u32)
    ensures
        final(out)@ == old(out)@ + delete_placement_bytes(host_id, host_placement_id),
{
    push_field(out, "\x1b_Ga=d,d=i,i=", host_id);
    push_field(out, ",p=", host_placement_id);
    push_text(out, ",q=2;\x1b\\");
    assert(out@ =~= old(out)@ + delete_placement_bytes(host_id, host_placement_id));
}

fn push_upload_control(
    out: &mut Vec<u8>,
    how: &str,
    format_code: u32,
    width: u32,
    height: u32,
    host_id: u32,
)
    ensures
        final(out)@ == old(out)@ + upload_control(how, format_code, width, height, host_id),
{
    push_field(out, how, format_code);
    push_field(out, ",s=", width);
    push_field(out, ",v=", height);
    push_field(out, ",i=", host_id);
    push_text(out, ",q=2");
    assert(out@ =~= old(out)@ + upload_control(how, format_code, width, height, host_id));
}

/// Appends the base64 text of `data`.
fn push_base64(out: &mut Vec<u8>, data: &[u8])
    requires
        data@.len() <= usize::MAX / 8,
    ensures
        final(out)@ == old(out)@ + base64_bytes(data@),
{
    let encoded = base64_codec::encode(data);
    push_text(out, encoded.as_str());
}

/// Appends the escapes that carry `data`, `continuation_extra` being repeated in each after the
/// first.
pub fn encode_kitty_data(
    out: &mut Vec<u8>,
    control: &[u8],
    continuation_extra: &str,
    data: &[u8],
)
    ensures
        final(out)@ == old(out)@ + data_bytes(control@, text::utf8(continuation_extra), data@),
{
    let len: usize = data.len();
    if len == 0 {
        assert(out@ =~= old(out)@ + data_bytes(control@, text::utf8(continuation_extra), data@));
        return;
    }
    let ghost extra = text::utf8(continuation_extra);
    let first_end: usize = if len > KITTY_CHUNK_BYTES {
        KITTY_CHUNK_BYTES
    } else {
        len
    };
    let more: u32 = if len > KITTY_CHUNK_BYTES {
        1
    } else {
        0
    };
    push_text(out, "\x1b_G");
    push_bytes(out, control);
    push_field(out, ",m=", more);
    push_text(out, ";");
    let first = vstd::slice::slice_subrange(data, 0, first_end);
    assert(first@ =~= first_chunk(data@));
    push_base64(out, first);
    push_text(out, "\x1b\\");
    let ghost head = text::utf8("\x1b_G") + control@ + field(",m=", more_follows(data@))
        + text::utf8(";") + base64_bytes(first_chunk(data@)) + text::utf8("\x1b\\");
    assert(out@ =~= old(out)@ + head);
    assert(data@.skip(first_end as int) =~= later_chunks(data@));

    let mut at: usize = first_end;
    let ghost whole = old(out)@ + head + continuation_bytes(extra, later_chunks(data@));
    assert(out@ + continuation_bytes(extra, data@.skip(at as int)) =~= whole);
    while at < len
        invariant
            len == data@.len(),
            at <= len,
            extra == text::utf8(continuation_extra),
            out@ + continuation_bytes(extra, data@.skip(at as int)) == whole,
        decreases len - at,
    {
        let ghost rest = data@.skip(at as int);
        let ghost before = out@;
        let left: usize = len - at;
        let end: usize = if left > KITTY_CHUNK_BYTES {
            at + KITTY_CHUNK_BYTES
        } else {
            len
        };
        let more: u32 = if left > KITTY_CHUNK_BYTES {
            1
        } else {
            0
        };
        push_field(out, "\x1b_Gm=", more);
        push_text(out, continuation_extra);
        push_text(out, ";");
        let chunk = vstd::slice::slice_subrange(data, at, end);
        assert(chunk@ =~= first_chunk(rest));
        push_base64(out, chunk);
        push_text(out, "\x1b\\");
        assert(data@.skip(end as int) =~= later_chunks(rest));
        assert(out@ + continuation_bytes(extra, data@.skip(end as int)) =~= before
            + continuation_bytes(extra, rest));
        at = end;
    }
    assert(data@.skip(at as int) =~= Seq::<u8>::empty());
    assert(out@ =~= whole);
    assert(whole =~= old(out)@ + data_bytes(control@, extra, data@));
}

/// Appends the upload of a placement's image, from `staged` where the terminal is to read it
/// from a file there. Without image data there is nothing to upload.
pub fn encode_upload_image(
    out: &mut Vec<u8>,
    placement: &HostPlacement,
    format_code: u32,
    host_id: u32,
    staged: Option<&str>,
) -> (uploaded: bool)
    requires
        staged matches Some(path) ==> text::utf8(path).len() <= usize::MAX / 8,
    ensures
        uploaded == (placement.placement.data@.len() > 0),
        final(out)@ == old(out)@ + image_bytes(
            *placement,
            format_code,
            host_id,
            match staged {
                Some(path) => Some(path@),
                None => None,
            },
        ),
{
    if placement.placement.data.len() == 0 {
        assert(out@ =~= old(out)@ + Seq::<u8>::empty());
        return false;
    }
    if let Some(path) = staged {
        encode_upload_image_via_file(
            out,
            path,
            format_code,
            placement.placement.image_width,
            placement.placement.image_height,
            host_id,
        );
        return true;
    }
    let mut control: Vec<u8> = Vec::new();
    push_upload_control(
        &mut control,
        "a=t,t=d,f=",
        format_code,
        placement.placement.image_width,
        placement.placement.image_height,
        host_id,
    );
    let ghost said = upload_control(
        "a=t,t=d,f=",
        format_code,
        placement.placement.image_width,
        placement.placement.image_height,
        host_id,
    );
    assert(control@ =~= said);
    assert(text::utf8("") =~= Seq::<u8>::empty()) by {
        reveal_strlit("");
    }
    encode_kitty_data(out, control.as_slice(), "", placement.placement.data.as_slice());
    true
}

pub fn encode_upload_image_via_file(
    out: &mut Vec<u8>,
    path: &str,
    format_code: u32,
    width: u32,
    height: u32,
    host_id: u32,
)
    requires
        text::utf8(path).len() <= usize::MAX / 8,
    ensures
        final(out)@ == old(out)@ + upload_via_file_bytes(
            path@,
            format_code,
            width,
            height,
            host_id,
        ),
{
    push_text(out, "\x1b_G");
    push_upload_control(out, "a=t,t=f,f=", format_code, width, height, host_id);
    push_text(out, ",m=0;");
    push_base64(out, path.as_bytes());
    push_text(out, "\x1b\\");
    assert(out@ =~= old(out)@ + upload_via_file_bytes(path@, format_code, width, height, host_id));
}

pub fn encode_transmit_frame(
    out: &mut Vec<u8>,
    host_id: u32,
    format_code: u32,
    width: u32,
    height: u32,
    gap_ms: u32,
    data: &[u8],
)
    ensures
        final(out)@ == old(out)@ + frame_bytes(host_id, format_code, width, height, gap_ms, data@),
{
    let mut control: Vec<u8> = Vec::new();
    push_field(&mut control, "a=f,i=", host_id);
    push_field(&mut control, ",f=", format_code);
    push_field(&mut control, ",s=", width);
    push_field(&mut control, ",v=", height);
    push_field(&mut control, ",z=", gap_ms);
    push_text(&mut control, ",q=2");
    assert(control@ =~= field("a=f,i=", host_id as nat) + field(",f=", format_code as nat) + field(
        ",s=",
        width as nat,
    ) + field(",v=", height as nat) + field(",z=", gap_ms as nat) + text::utf8(",q=2"));
    encode_kitty_data(out, control.as_slice(), ",a=f", data);
}

pub fn encode_arm_animation(out: &mut Vec<u8>, host_id: u32, root_gap_ms: u32)
    ensures
        final(out)@ == old(out)@ + arm_bytes(host_id, root_gap_ms),
{
    push_field(out, "\x1b_Ga=a,i=", host_id);
    push_field(out, ",r=1,z=", root_gap_ms);
    push_text(out, ",q=2;\x1b\\");
    push_field(out, "\x1b_Ga=a,i=", host_id);
    push_text(out, ",s=3,v=1,q=2;\x1b\\");
    assert(out@ =~= old(out)@ + arm_bytes(host_id, root_gap_ms));
}

pub fn encode_animation_frames(
    out: &mut Vec<u8>,
    host_id: u32,
    format_code: u32,
    width: u32,
    height: u32,
    animation: &GraphicsAnimation,
)
    ensures
        final(out)@ == old(out)@ + animation_bytes(
            host_id,
            format_code,
            width,
            height,
            *animation,
        ),
{
    if animation.frames.len() == 0 {
        assert(out@ =~= old(out)@ + Seq::<u8>::empty());
        return;
    }
    let mut i: usize = 0;
    assert(out@ =~= old(out)@ + frames_bytes(host_id, format_code, width, height, *animation, 0));
    while i < animation.frames.len()
        invariant
            i <= animation.frames@.len(),
            out@ == old(out)@ + frames_bytes(
                host_id,
                format_code,
                width,
                height,
                *animation,
                i as nat,
            ),
        decreases animation.frames@.len() - i,
    {
        encode_transmit_frame(
            out,
            host_id,
            format_code,
            width,
            height,
            animation.frame_gap_ms,
            animation.frames[i].as_slice(),
        );
        assert(out@ =~= old(out)@ + frames_bytes(
            host_id,
            format_code,
            width,
            height,
            *animation,
            (i + 1) as nat,
        ));
        i += 1;
    }
    encode_arm_animation(out, host_id, animation.frame_gap_ms);
    assert(out@ =~= old(out)@ + animation_bytes(host_id, format_code, width, height, *animation));
}

fn push_cursor(out: &mut Vec<u8>, x: u16, y: u16)
    requires
        x < u16::MAX,
        y < u16::MAX,
    ensures
        final(out)@ == old(out)@ + cursor_bytes(x, y),
{
    push_field(out, "\x1b[", y as u32 + 1);
    push_field(out, ";", x as u32 + 1);
    push_text(out, "H");
    assert(out@ =~= old(out)@ + cursor_bytes(x, y));
}

fn push_placement_control(
    out: &mut Vec<u8>,
    host_id: u32,
    host_placement_id: u32,
    cols: u32,
    rows: u32,
    z: i32,
)
    ensures
        final(out)@ == old(out)@ + placement_control(host_id, host_placement_id, cols, rows, z),
{
    push_field(out, "a=p,i=", host_id);
    push_field(out, ",p=", host_placement_id);
    push_field(out, ",c=", cols);
    push_field(out, ",r=", rows);
    push_text(out, ",z=");
    push_signed(out, z);
    push_text(out, ",C=1,q=2");
    assert(out@ =~= old(out)@ + placement_control(host_id, host_placement_id, cols, rows, z));
}

fn push_crop_control(out: &mut Vec<u8>, c: ClippedPlacement)
    ensures
        final(out)@ == old(out)@ + crop_control(c),
{
    push_optional_field(out, ",x=", c.source_x);
    push_optional_field(out, ",y=", c.source_y);
    push_optional_field(out, ",w=", c.source_width);
    push_optional_field(out, ",h=", c.source_height);
    push_optional_field(out, ",X=", c.x_offset);
    push_optional_field(out, ",Y=", c.y_offset);
    assert(out@ =~= old(out)@ + crop_control(c));
}

pub fn encode_display_placement(
    out: &mut Vec<u8>,
    clipped: ClippedPlacement,
    host_id: u32,
    host_placement_id: u32,
    z: i32,
)
    requires
        clipped.x < u16::MAX,
        clipped.y < u16::MAX,
    ensures
        final(out)@ == old(out)@ + display_bytes(clipped, host_id, host_placement_id, z),
{
    push_cursor(out, clipped.x, clipped.y);
    push_text(out, "\x1b_G");
    push_placement_control(out, host_id, host_placement_id, clipped.cols, clipped.rows, z);
    push_crop_control(out, clipped);
    push_text(out, ";\x1b\\");
    assert(out@ =~= old(out)@ + display_bytes(clipped, host_id, host_placement_id, z));
}

/// Appends one command; an upload takes its image from the file at `staged` where there is one.
pub fn encode_command(
    out: &mut Vec<u8>,
    command: GraphicsCommand,
    placements: &[HostPlacement],
    staged: Option<&str>,
)
    requires
        command_fits(command, placements@),
        staged matches Some(path) ==> text::utf8(path).len() <= usize::MAX / 8,
    ensures
        final(out)@ == old(out)@ + command_bytes(
            command,
            placements@,
            match staged {
                Some(path) => Some(path@),
                None => None,
            },
        ),
{
    match command {
        GraphicsCommand::DeleteImage { host_id } => encode_delete_image(out, host_id),
        GraphicsCommand::Upload { placement, format_code, host_id } => {
            let _ = encode_upload_image(out, &placements[placement], format_code, host_id, staged);
        },
        GraphicsCommand::Display { clipped, host_id, host_placement_id, z } => {
            encode_display_placement(out, clipped, host_id, host_placement_id, z)
        },
        GraphicsCommand::Animate { placement, format_code, host_id } => {
            match &placements[placement].animation {
                Some(animation) => encode_animation_frames(
                    out,
                    host_id,
                    format_code,
                    placements[placement].placement.image_width,
                    placements[placement].placement.image_height,
                    animation,
                ),
                None => {
                    assert(out@ =~= old(out)@ + Seq::<u8>::empty());
                },
            }
        },
        GraphicsCommand::DeletePlacement { host_id, host_placement_id } => {
            encode_delete_placement(out, host_id, host_placement_id)
        },
    }
}

/// The paths of staged images are short enough to be written out.
pub open spec fn paths_fit(staged: Seq<Option<String>>) -> bool {
    forall|i: int|
        0 <= i < staged.len() ==> (#[trigger] staged[i] matches Some(path)
            ==> vstd::utf8::encode_utf8(path@).len() <= usize::MAX / 8)
}

/// Appends all commands in order, each with its own entry of `staged`; where the list ends
/// early, the images that follow travel inside the stream.
pub fn encode_commands(
    out: &mut Vec<u8>,
    commands: &[GraphicsCommand],
    placements: &[HostPlacement],
    staged: &[Option<String>],
)
    requires
        forall|i: int| 0 <= i < commands@.len() ==> command_fits(#[trigger] commands@[i], placements@),
        paths_fit(staged@),
    ensures
        final(out)@ == old(out)@ + commands_bytes(
            commands@,
            placements@,
            staged@,
            commands@.len(),
        ),
{
    let mut i: usize = 0;
    assert(out@ =~= old(out)@ + commands_bytes(commands@, placements@, staged@, 0));
    while i < commands.len()
        invariant
            i <= commands@.len(),
            forall|j: int| 0 <= j < commands@.len() ==> command_fits(
                #[trigger] commands@[j],
                placements@,
            ),
            paths_fit(staged@),
            out@ == old(out)@ + commands_bytes(commands@, placements@, staged@, i as nat),
        decreases commands@.len() - i,
    {
        let path: Option<&str> = if i < staged.len() {
            match &staged[i] {
                Some(path) => Some(path.as_str()),
                None => None,
            }
        } else {
            None
        };
        encode_command(out, commands[i], placements, path);
        assert(out@ =~= old(out)@ + commands_bytes(
            commands@,
            placements@,
            staged@,
            (i + 1) as nat,
        ));
        i += 1;
    }
}

/// What a command asks of the directory in which images are staged.
#[derive(Debug, Clone, Copy, PartialEq, Eq, Structural)]
pub enum StagingStep {
    Nothing,
    Write { placement: usize, host_id: u32 },
    Remove { host_id: u32 },
}

/// What to do in the staging directory before a command is written out. An image is staged where
/// the transport by file is switched on and the terminal reads this machine's files; a deleted
/// image takes its file with it in any case.
pub fn staging_step(
    command: GraphicsCommand,
    placements: &[HostPlacement],
    local_transport_enabled: bool,
    host_is_local: bool,
) -> (step: StagingStep)
    requires
        command_fits(command, placements@),
    ensures
        step == (match command {
            GraphicsCommand::DeleteImage { host_id } => StagingStep::Remove { host_id },
            GraphicsCommand::Upload { placement, host_id, .. } => if local_transport_enabled
                && host_is_local && placements@[placement as int].placement.data@.len() > 0 {
                StagingStep::Write { placement, host_id }
            } else {
                StagingStep::Nothing
            },
            _ => StagingStep::Nothing,
        }),
{
    match command {
        GraphicsCommand::DeleteImage { host_id } => StagingStep::Remove { host_id },
        GraphicsCommand::Upload { placement, host_id, .. } => {
            if local_transport_enabled && host_is_local
                && placements[placement].placement.data.len() > 0 {
                StagingStep::Write { placement, host_id }
            } else {
                StagingStep::Nothing
            }
        },
        _ => StagingStep::Nothing,
    }
}

/// Splitting `data` loses nothing, and every escape after the first chunk works on strictly
/// less of it.
pub proof fn law_chunks_cover_the_data(data: Seq<u8>)
    requires
        data.len() > 0,
    ensures
        first_chunk(data) + later_chunks(data) == data,
        0 < first_chunk(data).len() <= KITTY_CHUNK_BYTES,
        more_follows(data) == 1 <==> later_chunks(data).len() > 0,
{
    assert(first_chunk(data) + later_chunks(data) =~= data);
}

} // verus!
