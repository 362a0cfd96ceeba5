//! The recolouring engine: every pixel takes the colour of the palette that
//! is nearest to it.

use vstd::prelude::*;

use crate::color::{
    color_distance, distance, distance_to_itself_is_zero, distance_zero_iff_equal, Color,
    MAX_DISTANCE,
};
use crate::error::RecolourError;
use crate::image::{Image, ImageModel, Pixel};

verus! {

/// `i` is the place of the colour of `palette` nearest to `c`: no colour of
/// the palette is nearer, and every colour before it is further away.
pub open spec fn is_nearest(c: Color, palette: Seq<Color>, i: int) -> bool {
    &&& 0 <= i < palette.len()
    &&& forall|j: int|
        0 <= j < palette.len() ==> distance(c, palette[i]) <= distance(c, #[trigger] palette[j])
    &&& forall|j: int|
        0 <= j < i ==> distance(c, palette[i]) < distance(c, #[trigger] palette[j])
}

/// The place of the colour of `palette` nearest to `c`; of several at the
/// same distance, the first.
pub open spec fn nearest_index(c: Color, palette: Seq<Color>) -> int {
    choose|i: int| is_nearest(c, palette, i)
}

/// The colour of `palette` nearest to `c`.
pub open spec fn nearest(c: Color, palette: Seq<Color>) -> Color {
    palette[nearest_index(c, palette)]
}

/// The pixel `p` after recolouring: the nearest colour, and its own alpha.
pub open spec fn recoloured_pixel(p: Pixel, palette: Seq<Color>) -> Pixel {
    p.with_color(nearest(p.color(), palette))
}

/// The image after recolouring: every pixel recoloured, the size kept.
pub open spec fn recoloured(image: ImageModel, palette: Seq<Color>) -> ImageModel {
    ImageModel {
        width: image.width,
        height: image.height,
        bytes: Seq::new(
            image.bytes.len(),
            |k: int| recoloured_pixel(image.pixel(k / 4), palette).channel(k % 4),
        ),
    }
}

/// At most one place is that of the nearest colour.
pub proof fn lemma_nearest_unique(c: Color, palette: Seq<Color>, i: int, j: int)
    requires
        is_nearest(c, palette, i),
        is_nearest(c, palette, j),
    ensures
        i == j,
{
    if i < j {
        assert(distance(c, palette[j]) < distance(c, palette[i]));
        assert(distance(c, palette[i]) <= distance(c, palette[j]));
    } else if j < i {
        assert(distance(c, palette[i]) < distance(c, palette[j]));
        assert(distance(c, palette[j]) <= distance(c, palette[i]));
    }
}

/// A place that is that of the nearest colour is `nearest_index`.
pub proof fn lemma_nearest_is(c: Color, palette: Seq<Color>, i: int)
    requires
        is_nearest(c, palette, i),
    ensures
        nearest_index(c, palette) == i,
{
    lemma_nearest_unique(c, palette, i, nearest_index(c, palette));
}

/// A palette that is not empty has a nearest colour.
pub proof fn lemma_nearest_exists(c: Color, palette: Seq<Color>)
    requires
        palette.len() > 0,
    ensures
        is_nearest(c, palette, nearest_index(c, palette)),
    decreases palette.len(),
{
    if palette.len() == 1 {
        assert(is_nearest(c, palette, 0));
    } else {
        let front = palette.drop_last();
        lemma_nearest_exists(c, front);
        let i = nearest_index(c, front);
        let last = palette.len() - 1;
        assert forall|j: int| 0 <= j < last implies front[j] == palette[j] by {}
        if distance(c, palette[last]) < distance(c, palette[i]) {
            assert forall|j: int| 0 <= j < palette.len() implies distance(c, palette[last])
                <= distance(c, #[trigger] palette[j]) by {
                if j < last {
                    assert(distance(c, front[i]) <= distance(c, front[j]));
                }
            }
            assert forall|j: int| 0 <= j < last implies distance(c, palette[last]) < distance(
                c,
                #[trigger] palette[j],
            ) by {
                assert(distance(c, front[i]) <= distance(c, front[j]));
            }
            assert(is_nearest(c, palette, last));
        } else {
            assert forall|j: int| 0 <= j < palette.len() implies distance(c, palette[i])
                <= distance(c, #[trigger] palette[j]) by {
                if j < last {
                    assert(distance(c, front[i]) <= distance(c, front[j]));
                }
            }
            assert forall|j: int| 0 <= j < i implies distance(c, palette[i]) < distance(
                c,
                #[trigger] palette[j],
            ) by {
                assert(distance(c, front[i]) < distance(c, front[j]));
            }
            assert(is_nearest(c, palette, i));
        }
    }
}

/// The colour that a pixel takes is a colour of the palette.
pub proof fn recoloured_pixel_is_in_palette(p: Pixel, palette: Seq<Color>)
    requires
        palette.len() > 0,
    ensures
        palette.contains(recoloured_pixel(p, palette).color()),
{
    lemma_nearest_exists(p.color(), palette);
    assert(palette[nearest_index(p.color(), palette)] == recoloured_pixel(p, palette).color());
}

/// Of the colours of the palette that are nearest to a pixel, the first is
/// taken: no colour at the least distance stands before the one chosen.
pub proof fn first_of_the_nearest_is_chosen(p: Pixel, palette: Seq<Color>, i: int)
    requires
        0 <= i < palette.len(),
        forall|j: int|
            0 <= j < palette.len() ==> distance(p.color(), palette[i]) <= distance(
                p.color(),
                #[trigger] palette[j],
            ),
    ensures
        0 <= nearest_index(p.color(), palette) <= i,
        distance(p.color(), nearest(p.color(), palette)) == distance(p.color(), palette[i]),
        recoloured_pixel(p, palette).color() == palette[nearest_index(p.color(), palette)],
{
    let c = p.color();
    lemma_nearest_exists(c, palette);
    let k = nearest_index(c, palette);
    assert(distance(c, palette[k]) <= distance(c, palette[i]));
    assert(distance(c, palette[i]) <= distance(c, palette[k]));
}

/// Recolouring keeps the alpha of a pixel.
pub proof fn recoloured_pixel_keeps_alpha(p: Pixel, palette: Seq<Color>)
    ensures
        recoloured_pixel(p, palette).a == p.a,
{
}

/// A recoloured pixel is its own nearest colour: recolouring it again with
/// the same palette changes nothing.
pub proof fn recolouring_pixel_twice_is_once(p: Pixel, palette: Seq<Color>)
    requires
        palette.len() > 0,
    ensures
        recoloured_pixel(recoloured_pixel(p, palette), palette) == recoloured_pixel(p, palette),
{
    let once = recoloured_pixel(p, palette);
    let c = once.color();
    lemma_nearest_exists(p.color(), palette);
    let k = nearest_index(p.color(), palette);
    assert(palette[k] == c);
    lemma_nearest_exists(c, palette);
    let again = nearest_index(c, palette);
    distance_to_itself_is_zero(c);
    assert(distance(c, palette[again]) <= distance(c, palette[k]));
    distance_zero_iff_equal(c, palette[again]);
}

/// The pixels of a recoloured image are the recoloured pixels of the image.
pub proof fn recoloured_pixels(image: ImageModel, palette: Seq<Color>, i: int)
    requires
        image.wf(),
        0 <= i < image.pixel_count(),
    ensures
        recoloured(image, palette).wf(),
        recoloured(image, palette).pixel(i) == recoloured_pixel(image.pixel(i), palette),
{
}

/// Every pixel of a recoloured image has a colour of the palette.
pub proof fn recoloured_image_is_in_palette(image: ImageModel, palette: Seq<Color>, i: int)
    requires
        image.wf(),
        palette.len() > 0,
        0 <= i < image.pixel_count(),
    ensures
        palette.contains(recoloured(image, palette).pixel(i).color()),
{
    recoloured_pixels(image, palette, i);
    recoloured_pixel_is_in_palette(image.pixel(i), palette);
}

/// Recolouring leaves the alpha of every pixel as it was.
pub proof fn recoloured_image_keeps_alpha(image: ImageModel, palette: Seq<Color>, i: int)
    requires
        image.wf(),
        0 <= i < image.pixel_count(),
    ensures
        recoloured(image, palette).pixel(i).a == image.pixel(i).a,
{
    recoloured_pixels(image, palette, i);
}

/// Recolouring an image that was recoloured with the same palette changes
/// no pixel.
pub proof fn recolouring_twice_is_once(image: ImageModel, palette: Seq<Color>)
    requires
        image.wf(),
        palette.len() > 0,
    ensures
        recoloured(recoloured(image, palette), palette) == recoloured(image, palette),
{
    let once = recoloured(image, palette);
    let twice = recoloured(once, palette);
    assert forall|k: int| 0 <= k < once.bytes.len() implies twice.bytes[k] == once.bytes[k] by {
        let i = k / 4;
        recoloured_pixels(image, palette, i);
        recolouring_pixel_twice_is_once(image.pixel(i), palette);
    }
    assert(twice.bytes =~= once.bytes);
}

/// The colour of `palette` nearest to `color`, or `None` for an empty
/// palette. Of several colours at the same distance the first is taken.
pub fn nearest_color(color: Color, palette: &[Color]) -> (r: Option<Color>)
    ensures
        palette@.len() == 0 <==> r is None,
        palette@.len() > 0 ==> r == Some(nearest(color, palette@)),
        palette@.len() > 0 ==> is_nearest(color, palette@, nearest_index(color, palette@)),
        r matches Some(c) ==> palette@.contains(c),
{
    if palette.len() == 0 {
        None
    } else {
        Some(search_nearest(color, palette))
    }
}

/// The search itself: the palette is walked from its first colour to its
/// last, and a colour replaces the best one so far only if it is strictly
/// nearer. The search starts from a distance that no two colours have, so
/// the first colour always replaces the placeholder.
fn search_nearest(color: Color, palette: &[Color]) -> (best: Color)
    requires
        palette@.len() > 0,
    ensures
        best == nearest(color, palette@),
        is_nearest(color, palette@, nearest_index(color, palette@)),
{
    let mut best: Color = Color { r: 0, g: 0, b: 0 };
    let mut best_distance: u16 = MAX_DISTANCE + 1;
    let ghost mut best_index: int = -1;
    for i in 0..palette.len()
        invariant
            i == 0 ==> best_distance == MAX_DISTANCE + 1,
            i > 0 ==> 0 <= best_index < i && best == palette@[best_index] && best_distance
                == distance(color, best),
            forall|j: int| 0 <= j < i ==> best_distance <= distance(color, #[trigger] palette@[j]),
            forall|j: int|
                0 <= j < best_index ==> best_distance < distance(color, #[trigger] palette@[j]),
    {
        let candidate = palette[i];
        let d: u16 = color_distance(color, candidate);
        if d < best_distance {
            best = candidate;
            best_distance = d;
            proof {
                best_index = i as int;
            }
        }
    }
    proof {
        assert(is_nearest(color, palette@, best_index));
        lemma_nearest_is(color, palette@, best_index);
    }
    best
}

/// The pixel with the colour of `palette` nearest to its own, and its own
/// alpha; `None` for an empty palette.
pub fn recolour_pixel(pixel: Pixel, palette: &[Color]) -> (r: Option<Pixel>)
    ensures
        palette@.len() == 0 <==> r is None,
        palette@.len() > 0 ==> r == Some(recoloured_pixel(pixel, palette@)),
{
    match nearest_color(pixel.rgb(), palette) {
        Some(c) => Some(Pixel { r: c.r, g: c.g, b: c.b, a: pixel.a }),
        None => None,
    }
}

/// Recolours `image` in place: every pixel takes the colour of
/// `color_scheme` nearest to its own and keeps its alpha. A copy of the
/// recoloured image is returned. With an empty palette nothing is changed
/// and the call fails.
pub fn recolour_image(
    image: &mut Image,
    color_scheme: &[Color],
) -> (r: Result<Image, RecolourError>)
    ensures
        color_scheme@.len() == 0 ==> r == Err::<Image, RecolourError>(RecolourError::EmptyPalette),
        color_scheme@.len() == 0 ==> *final(image) == *old(image),
        color_scheme@.len() > 0 ==> final(image)@ == recoloured(old(image)@, color_scheme@),
        color_scheme@.len() > 0 ==> (r matches Ok(copy) && copy@ == final(image)@),
        color_scheme@.len() > 0 ==> forall|i: int|
            0 <= i < old(image)@.pixel_count() ==> #[trigger] final(image)@.pixel(i)
                == recoloured_pixel(old(image)@.pixel(i), color_scheme@),
        color_scheme@.len() > 0 ==> forall|i: int|
            0 <= i < old(image)@.pixel_count() ==> color_scheme@.contains(
                #[trigger] final(image)@.pixel(i).color(),
            ),
        forall|i: int|
            0 <= i < old(image)@.pixel_count() ==> #[trigger] final(image)@.pixel(i).a
                == old(image)@.pixel(i).a,
        final(image)@.wf(),
{
    let count: usize = image.pixel_count();
    if color_scheme.len() == 0 {
        return Err(RecolourError::EmptyPalette);
    }
    let ghost before = image@;
    let ghost after = recoloured(before, color_scheme@);
    for i in 0..count
        invariant
            color_scheme@.len() > 0,
            before.wf(),
            count == before.pixel_count(),
            after == recoloured(before, color_scheme@),
            image@.width == before.width,
            image@.height == before.height,
            image@.bytes.len() == before.bytes.len(),
            forall|k: int| 0 <= k < 4 * i ==> image@.bytes[k] == after.bytes[k],
            forall|k: int| 4 * i <= k < before.bytes.len() ==> image@.bytes[k] == before.bytes[k],
    {
        let pixel = image.pixel(i);
        let c = search_nearest(pixel.rgb(), color_scheme);
        image.set_pixel(i, Pixel { r: c.r, g: c.g, b: c.b, a: pixel.a });
    }
    assert(image@.bytes =~= after.bytes);
    assert forall|i: int| 0 <= i < before.pixel_count() implies {
        &&& #[trigger] after.pixel(i) == recoloured_pixel(before.pixel(i), color_scheme@)
        &&& color_scheme@.contains(after.pixel(i).color())
    } by {
        recoloured_image_is_in_palette(before, color_scheme@, i);
    }
    Ok(image.clone())
}

} // verus!
