//! The calls into outside crates that the engine relies on, with the
//! contracts assumed of them.
use std::sync::Arc;

use image::RgbaImage;
use line_drawing::Bresenham;
use rand::seq::SliceRandom;
use rand::Rng;
use vstd::prelude::*;

verus! {

/// Relies on `Arc::clone`: the new pointer refers to the same value.
#[verifier::external_body]
pub(crate) fn share<T>(a: &Arc<T>) -> (r: Arc<T>)
    ensures
        r == *a,
{
    Arc::clone(a)
}

/// An RGBA image of the grid. Verus refuses a declaration of
/// `image::ImageBuffer`, whose pixel type is bound by an outside trait, so the
/// image is held here, out of Verus's sight.
#[verifier::external_body]
pub struct GridImage(pub RgbaImage);

/// The raw bytes an RGBA image holds, row-major, four per pixel.
pub uninterp spec fn rgba_image_raw(img: GridImage) -> Seq<u8>;

/// The width of an RGBA image, in pixels.
pub uninterp spec fn rgba_image_width(img: GridImage) -> u32;

/// The height of an RGBA image, in pixels.
pub uninterp spec fn rgba_image_height(img: GridImage) -> u32;

/// Relies on `image::ImageBuffer::from_vec`: it succeeds when the buffer holds
/// at least `4 * width * height` bytes, and keeps the buffer as the image data
/// and the given width and height as its dimensions.
#[verifier::external_body]
pub(crate) fn rgba_image_from_vec(width: u32, height: u32, buf: Vec<u8>) -> (r: Option<GridImage>)
    requires
        buf.len() == 4 * (width as int) * (height as int),
    ensures
        r is Some,
        rgba_image_raw(r.unwrap()) == buf@,
        rgba_image_width(r.unwrap()) == width,
        rgba_image_height(r.unwrap()) == height,
{
    RgbaImage::from_vec(width, height, buf).map(GridImage)
}

/// The points of the Bresenham line from `(x0, y0)` to `(x1, y1)`, both ends
/// included, in order from the start.
pub uninterp spec fn bresenham_line(x0: int, y0: int, x1: int, y1: int) -> Seq<(int, int)>;

/// Relies on `line_drawing::Bresenham`: the points it yields from start to end,
/// one per step along the longer axis: the start comes first and never again,
/// and the line to a neighbouring cell is just the start and the end. Coordinates are kept far from the limits of
/// `i64`, where its stepping arithmetic would overflow.
#[verifier::external_body]
pub(crate) fn line_points(x0: i64, y0: i64, x1: i64, y1: i64) -> (r: Vec<(i64, i64)>)
    requires
        -0x100_0000_0000 < x0 < 0x100_0000_0000,
        -0x100_0000_0000 < y0 < 0x100_0000_0000,
        -0x100_0000_0000 < x1 < 0x100_0000_0000,
        -0x100_0000_0000 < y1 < 0x100_0000_0000,
    ensures
        r@.map_values(|q: (i64, i64)| (q.0 as int, q.1 as int)) == bresenham_line(
            x0 as int,
            y0 as int,
            x1 as int,
            y1 as int,
        ),
        r@.len() >= 1 && r@[0] == (x0, y0),
        forall|i: int| 1 <= i < r@.len() ==> #[trigger] r@[i] != (x0, y0),
        -1 <= x1 - x0 <= 1 && -1 <= y1 - y0 <= 1 && (x1 != x0 || y1 != y0) ==> r@ == seq![
            (x0, y0),
            (x1, y1),
        ],
{
    Bresenham::new((x0, y0), (x1, y1)).collect()
}

/// Relies on `rand::seq::SliceRandom::shuffle` with the thread-local generator:
/// it permutes the items in place (a sequence of swaps).
#[verifier::external_body]
pub(crate) fn shuffle_moves(moves: &mut Vec<(i32, i32)>)
    ensures
        final(moves)@.to_multiset() == old(moves)@.to_multiset(),
        final(moves)@.len() == old(moves)@.len(),
{
    moves.shuffle(&mut rand::thread_rng())
}

/// Relies on `rand::Rng::gen_range` with the thread-local generator: a value
/// of the half-open range, which must not be empty.
#[verifier::external_body]
pub(crate) fn random_in_range(lo: u32, hi: u32) -> (r: u32)
    requires
        lo < hi,
    ensures
        lo <= r < hi,
{
    rand::thread_rng().gen_range(lo..hi)
}

} // verus!
