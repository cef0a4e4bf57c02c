//! What a glow is, before any graphics card is asked for it.
//!
//! A number with a fraction is held as the 32 bits that the card gets: nothing here computes with
//! one.

use crate::text;
use vstd::prelude::*;
use vstd::string::*;

verus! {

/// The bits of a number in the card's own format.
pub type Bits = u32;

/// The glow of one card: a rounded rectangle, how its light falls off, and the colour of each
/// column of pixels that it crosses.
#[derive(Debug, PartialEq, Eq)]
pub struct Splat {
    /// Left, top, width and height.
    pub rect: [Bits; 4],
    pub radius: Bits,
    pub near_sigma: Bits,
    pub far_sigma: Bits,
    /// The last step of the falloff; beyond it nothing is lit.
    pub max_step: u32,
    /// The pixels that may be lit: left, top, right and bottom, the last two not included.
    pub bounds: [u32; 4],
    /// Red, green, blue and strength of each column within the bounds.
    pub columns: Vec<[Bits; 4]>,
}

/// An image and what lights it.
#[derive(Debug, PartialEq, Eq)]
pub struct Tile {
    pub width: u32,
    pub height: u32,
    pub splats: Vec<Splat>,
}

/// How many pixels a splat may light.
pub open spec fn box_pixels(splat: Splat) -> nat {
    let wide = if splat.bounds@[0] < splat.bounds@[2] {
        splat.bounds@[2] - splat.bounds@[0]
    } else {
        0
    };
    let high = if splat.bounds@[1] < splat.bounds@[3] {
        splat.bounds@[3] - splat.bounds@[1]
    } else {
        0
    };
    (wide * high) as nat
}

/// How many pixels some splats may light, one after the other.
pub open spec fn boxes(splats: Seq<Splat>) -> nat
    decreases splats.len(),
{
    if splats.len() == 0 {
        0
    } else {
        boxes(splats.drop_last()) + box_pixels(splats.last())
    }
}

fn splat_pixels(splat: &Splat) -> (pixels: u64)
    ensures
        pixels == box_pixels(*splat),
{
    let x0: u32 = splat.bounds[0];
    let y0: u32 = splat.bounds[1];
    let x1: u32 = splat.bounds[2];
    let y1: u32 = splat.bounds[3];
    let wide: u64 = if x0 < x1 {
        (x1 - x0) as u64
    } else {
        0
    };
    let high: u64 = if y0 < y1 {
        (y1 - y0) as u64
    } else {
        0
    };
    assert(0 <= wide * high <= 0xffff_ffff * 0xffff_ffff) by (nonlinear_arith)
        requires
            0 <= wide <= 0xffff_ffff,
            0 <= high <= 0xffff_ffff,
    ;
    wide * high
}

impl Tile {
    /// How many pixels the image has: what the card visits.
    pub open spec fn area(self) -> nat {
        (self.width * self.height) as nat
    }

    pub fn pixels(&self) -> (pixels: u64)
        ensures
            pixels == self.area(),
    {
        assert(0 <= self.width * self.height <= 0xffff_ffff * 0xffff_ffff) by (nonlinear_arith)
            requires
                0 <= self.width <= 0xffff_ffff,
                0 <= self.height <= 0xffff_ffff,
        ;
        self.width as u64 * self.height as u64
    }

    /// How many pixels the processor would visit instead: the box of each splat, and the image
    /// once.
    pub fn cpu_pixels(&self) -> (pixels: u64)
        requires
            self.area() + boxes(self.splats@) <= u64::MAX,
        ensures
            pixels == self.area() + boxes(self.splats@),
    {
        let mut total: u64 = self.pixels();
        let mut i: usize = 0;
        while i < self.splats.len()
            invariant
                i <= self.splats@.len(),
                total == self.area() + boxes(self.splats@.take(i as int)),
                self.area() + boxes(self.splats@) <= u64::MAX,
            decreases self.splats@.len() - i,
        {
            proof {
                assert(self.splats@.take(i + 1).drop_last() =~= self.splats@.take(i as int));
                lemma_boxes_grow(self.splats@, i + 1);
            }
            total += splat_pixels(&self.splats[i]);
            i += 1;
        }
        assert(self.splats@.take(i as int) =~= self.splats@);
        total
    }
}

proof fn lemma_boxes_grow(splats: Seq<Splat>, n: int)
    requires
        0 <= n <= splats.len(),
    ensures
        boxes(splats.take(n)) <= boxes(splats),
    decreases splats.len() - n,
{
    if n < splats.len() {
        assert(splats.take(n + 1).drop_last() =~= splats.take(n));
        lemma_boxes_grow(splats, n + 1);
    } else {
        assert(splats.take(n) =~= splats);
    }
}

/// The shape of the falloff.
#[derive(Debug, Clone, Copy, PartialEq, Eq, Structural)]
pub struct Curve {
    pub steps_per_px: Bits,
    pub peak: Bits,
    pub near_weight: Bits,
    pub far_weight: Bits,
    pub paint_floor: Bits,
}

/// Why a batch was not drawn by the card. Each means that the processor draws it.
#[derive(Debug, PartialEq, Eq)]
pub enum Declined {
    NoDevice,
    TooLarge,
    Failed(String),
    NotBuilt,
}

impl Declined {
    /// The reason in words.
    pub fn message(&self) -> (message: String)
        ensures
            message@ == match *self {
                Declined::NoDevice => "no GPU device"@,
                Declined::TooLarge => "batch larger than the device will bind"@,
                Declined::Failed(why) => "GPU pass failed: "@ + why@,
                Declined::NotBuilt => "built without the gpu-raster feature"@,
            },
    {
        match self {
            Declined::NoDevice => "no GPU device".to_owned(),
            Declined::TooLarge => "batch larger than the device will bind".to_owned(),
            Declined::Failed(why) => {
                let mut message = "GPU pass failed: ".to_owned();
                message.append(why.as_str());
                message
            },
            Declined::NotBuilt => "built without the gpu-raster feature".to_owned(),
        }
    }
}

/// What went wrong while the card drew a batch.
#[derive(Debug)]
pub enum PassFailure {
    NoDevice,
    ShaderNotBuilt,
    Validation(String),
    Poll(String),
    NeverRead,
    Read(String),
}

/// The reason that a failure is reported under.
pub fn declined(failure: PassFailure) -> (reason: Declined)
    ensures
        match failure {
            PassFailure::NoDevice => reason is NoDevice,
            PassFailure::ShaderNotBuilt => reason is Failed && reason->Failed_0@
                == "the bloom shader would not build"@,
            PassFailure::Validation(why) => reason is Failed && reason->Failed_0@ == why@,
            PassFailure::Poll(why) => reason is Failed && reason->Failed_0@ == why@,
            PassFailure::NeverRead => reason is Failed && reason->Failed_0@
                == "readback never completed"@,
            PassFailure::Read(why) => reason is Failed && reason->Failed_0@ == why@,
        },
{
    match failure {
        PassFailure::NoDevice => Declined::NoDevice,
        PassFailure::ShaderNotBuilt => Declined::Failed(
            text::duplicate("the bloom shader would not build"),
        ),
        PassFailure::Validation(why) => Declined::Failed(why),
        PassFailure::Poll(why) => Declined::Failed(why),
        PassFailure::NeverRead => Declined::Failed(text::duplicate("readback never completed")),
        PassFailure::Read(why) => Declined::Failed(why),
    }
}

/// A splat may light each pixel between its bounds once, and none where they are crossed; the boxes
/// of several splats add up.
pub proof fn law_boxes_add_up(splats: Seq<Splat>, splat: Splat)
    ensures
        splat.bounds@[0] <= splat.bounds@[2] && splat.bounds@[1] <= splat.bounds@[3] ==> box_pixels(
            splat,
        ) == (splat.bounds@[2] - splat.bounds@[0]) * (splat.bounds@[3] - splat.bounds@[1]),
        splat.bounds@[0] > splat.bounds@[2] || splat.bounds@[1] > splat.bounds@[3] ==> box_pixels(
            splat,
        ) == 0,
        boxes(splats.push(splat)) == boxes(splats) + box_pixels(splat),
        boxes(Seq::empty()) == 0,
{
    assert(splats.push(splat).drop_last() =~= splats);
    let wide = splat.bounds@[2] - splat.bounds@[0];
    let high = splat.bounds@[3] - splat.bounds@[1];
    assert(wide >= 0 && high >= 0 ==> wide * high >= 0) by (nonlinear_arith);
    assert(0 * high == 0 && wide * 0 == 0);
}

} // verus!
