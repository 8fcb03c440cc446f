//! Slicing a source image into the four layers of a parallax scene.
use crate::raster::{lemma_sample_index, sample_index, RasterImage};
use vstd::prelude::*;

verus! {

/// The side, in pixels, of the square canvas.
pub const CANVAS_SIZE: u32 = 1024;

/// The number of layers a source image is cut into.
pub const LAYER_COUNT: usize = 4;

/// The height, in pixels, of the band of the canvas that a layer owns.
pub const BAND_HEIGHT: u32 = 256;

/// Why an image could not be cut into layers.
#[derive(Debug, Clone, Copy, PartialEq, Eq, Structural)]
pub enum LayerError {
    /// The image is not a square of `CANVAS_SIZE` pixels; it has the size
    /// given here.
    DimensionMismatch { width: u32, height: u32 },
}

/// Row `y` lies in the band of layer `layer`.
pub open spec fn in_band(layer: int, y: int) -> bool {
    layer * BAND_HEIGHT <= y < (layer + 1) * BAND_HEIGHT
}

/// `layer` is layer number `index` of `source`: an image of the same size,
/// equal to the source inside the band of that layer and transparent black
/// everywhere else.
pub open spec fn is_layer(layer: RasterImage, source: RasterImage, index: int) -> bool {
    &&& layer.well_formed()
    &&& layer.width == source.width
    &&& layer.height == source.height
    &&& forall|x: int, y: int, ch: int|
        0 <= x < source.width && 0 <= y < source.height && 0 <= ch < 4 ==> #[trigger] layer.sample(
            x,
            y,
            ch,
        ) == if in_band(index, y) {
            source.sample(x, y, ch)
        } else {
            0
        }
}

/// Every row of the canvas lies in the band of one layer, and of one only.
pub proof fn lemma_bands_partition_canvas(y: int)
    requires
        0 <= y < CANVAS_SIZE,
    ensures
        0 <= y / (BAND_HEIGHT as int) < LAYER_COUNT,
        forall|layer: int| in_band(layer, y) <==> layer == y / (BAND_HEIGHT as int),
{
}

/// The layers of an image cover it without gap or overlap: each pixel is,
/// in the layer that owns its row, what it is in the image, and transparent
/// in every other layer.
pub proof fn lemma_layers_partition_source(
    source: RasterImage,
    layers: Seq<RasterImage>,
    x: int,
    y: int,
)
    requires
        source.width == CANVAS_SIZE,
        source.height == CANVAS_SIZE,
        layers.len() == LAYER_COUNT,
        forall|i: int| 0 <= i < LAYER_COUNT ==> is_layer(#[trigger] layers[i], source, i),
        0 <= x < CANVAS_SIZE,
        0 <= y < CANVAS_SIZE,
    ensures
        forall|ch: int|
            0 <= ch < 4 ==> layers[y / (BAND_HEIGHT as int)].sample(x, y, ch) == source.sample(
                x,
                y,
                ch,
            ),
        forall|i: int|
            0 <= i < LAYER_COUNT && i != y / (BAND_HEIGHT as int) ==> !(#[trigger] layers[i]).opaque_at(
                x,
                y,
            ),
{
    lemma_bands_partition_canvas(y);
    let owner = y / (BAND_HEIGHT as int);
    assert(is_layer(layers[owner], source, owner));
    assert forall|ch: int| 0 <= ch < 4 implies layers[owner].sample(x, y, ch) == source.sample(
        x,
        y,
        ch,
    ) by {}
    assert forall|i: int| 0 <= i < LAYER_COUNT && i != owner implies !(#[trigger] layers[i]).opaque_at(
        x,
        y,
    ) by {
        assert(is_layer(layers[i], source, i));
        assert(layers[i].sample(x, y, 3) == 0);
    }
}

/// One layer of an image: the rows from `index * band_height` up to, and
/// not including, `(index + 1) * band_height`, on transparent black.
fn slice_layer(source: &RasterImage, index: u32) -> (layer: RasterImage)
    requires
        source.well_formed(),
        index < LAYER_COUNT,
    ensures
        is_layer(layer, *source, index as int),
{
    let len = source.data.len();
    let width = source.width as usize;
    let first = index * BAND_HEIGHT;
    let mut data: Vec<u8> = Vec::new();
    let mut p: usize = 0;
    while p < len
        invariant
            len == source.data@.len(),
            width == source.width,
            first == index * BAND_HEIGHT,
            index < LAYER_COUNT,
            source.well_formed(),
            p <= len,
            data@.len() == p,
            forall|q: int|
                0 <= q < p ==> #[trigger] data@[q] == if in_band(
                    index as int,
                    (q / 4) / (width as int),
                ) {
                    source.data@[q]
                } else {
                    0
                },
        decreases len - p,
    {
        assert(width > 0) by {
            if width == 0 {
                assert(source.width as int * source.height as int == 0) by (nonlinear_arith)
                    requires
                        source.width == 0,
                ;
            }
        }
        let row = (p / 4) / width;
        if first as usize <= row && row - (first as usize) < BAND_HEIGHT as usize {
            data.push(source.data[p]);
        } else {
            data.push(0);
        }
        p += 1;
    }
    let layer = RasterImage { width: source.width, height: source.height, data };
    assert forall|x: int, y: int, ch: int|
        0 <= x < source.width && 0 <= y < source.height && 0 <= ch < 4 implies #[trigger] layer.sample(
        x,
        y,
        ch,
    ) == if in_band(index as int, y) {
        source.sample(x, y, ch)
    } else {
        0
    } by {
        lemma_sample_index(source.width as int, source.height as int, x, y);
        let q = sample_index(source.width as int, x, y, ch);
        assert(q / 4 == y * source.width + x);
        assert(layer.data@[q] == data@[q]);
    }
    layer
}

/// Cuts a source image into its four layers. Each layer has the size of
/// the source, shows the source inside its own band of `BAND_HEIGHT` rows
/// and is transparent elsewhere.
///
/// An image that is not a square of `CANVAS_SIZE` pixels is refused before
/// any layer is made.
pub fn create_parallax_layers(source: &RasterImage) -> (result: Result<
    Vec<RasterImage>,
    LayerError,
>)
    requires
        source.well_formed(),
    ensures
        match result {
            Ok(layers) => {
                &&& source.width == CANVAS_SIZE
                &&& source.height == CANVAS_SIZE
                &&& layers@.len() == LAYER_COUNT
                &&& forall|i: int|
                    0 <= i < LAYER_COUNT ==> is_layer(#[trigger] layers@[i], *source, i)
            },
            Err(error) => {
                &&& source.width != CANVAS_SIZE || source.height != CANVAS_SIZE
                &&& error == (LayerError::DimensionMismatch {
                    width: source.width,
                    height: source.height,
                })
            },
        },
{
    if source.width != CANVAS_SIZE || source.height != CANVAS_SIZE {
        return Err(LayerError::DimensionMismatch { width: source.width, height: source.height });
    }
    let mut layers: Vec<RasterImage> = Vec::new();
    let mut index: u32 = 0;
    while index < LAYER_COUNT as u32
        invariant
            source.well_formed(),
            index <= LAYER_COUNT,
            layers@.len() == index,
            forall|i: int| 0 <= i < index ==> is_layer(#[trigger] layers@[i], *source, i),
        decreases LAYER_COUNT - index,
    {
        let layer = slice_layer(source, index);
        layers.push(layer);
        index += 1;
    }
    Ok(layers)
}

} // verus!
