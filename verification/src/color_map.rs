//! The two tables that an animation is encoded with: the palette as bytes,
//! and the index of each palette color.
use crate::clustering::channel;
use crate::color::{lemma_pack_round_trip, packed, Color};
use crate::encoder::{looked_up, palette_colors, Lookup, PaletteMode, Tables};
use crate::palette::{can_scale, extracted_from, PaletteError, PaletteExtractor};
use crate::raster::RasterImage;
use std::collections::HashMap;
use vstd::prelude::*;

verus! {

broadcast use vstd::std_specs::hash::group_hash_axioms;

/// The number of colors of a canonical palette.
pub const CANONICAL_COLORS: usize = 256;

/// The width to which an image is scaled for its canonical palette.
pub const CANONICAL_WIDTH: u32 = 150;

/// The greatest number of rounds of clustering for a canonical palette.
pub const CANONICAL_ROUNDS: usize = 50;

/// A palette as bytes: the red, green and blue of each color in turn.
pub open spec fn flattened(palette: Seq<Color>) -> Seq<u8> {
    Seq::new(3 * palette.len(), |i: int| channel(palette[i / 3], i % 3) as u8)
}

/// The table from packed color to palette index over the first `n` colors
/// of a palette. A color that the palette holds more than once has the index
/// of its last entry.
pub open spec fn index_table(palette: Seq<Color>, n: nat) -> Map<u32, u8>
    decreases n,
{
    if n == 0 {
        Map::empty()
    } else {
        index_table(palette, (n - 1) as nat).insert(
            packed(palette[n - 1]) as u32,
            (n - 1) as u8,
        )
    }
}

/// The index table of a palette knows the packed form of each of its colors
/// and nothing else, and the index it gives for a color is that of an entry
/// of that color: the last one.
pub proof fn lemma_index_table(palette: Seq<Color>, n: nat)
    requires
        n <= palette.len(),
        n <= 256,
    ensures
        forall|key: u32| #[trigger]
            index_table(palette, n).contains_key(key) <==> exists|i: int|
                0 <= i < n && packed(#[trigger] palette[i]) == key,
        forall|i: int|
            0 <= i < n ==> {
                let entry = index_table(palette, n)[packed(#[trigger] palette[i]) as u32] as int;
                &&& i <= entry < n
                &&& palette[entry] == palette[i]
            },
    decreases n,
{
    if n > 0 {
        lemma_index_table(palette, (n - 1) as nat);
        let before = index_table(palette, (n - 1) as nat);
        let table = index_table(palette, n);
        let last = packed(palette[n - 1]) as u32;
        assert forall|key: u32| #[trigger] table.contains_key(key) implies exists|i: int|
            0 <= i < n && packed(#[trigger] palette[i]) == key by {
            if key == last {
                assert(packed(palette[n - 1]) == key);
            } else {
                assert(before.contains_key(key));
                let i = choose|i: int| 0 <= i < n - 1 && packed(#[trigger] palette[i]) == key;
                assert(packed(palette[i]) == key);
            }
        }
        assert forall|key: u32|
            (exists|i: int| 0 <= i < n && packed(#[trigger] palette[i]) == key) implies #[trigger]
            table.contains_key(key) by {
            let i = choose|i: int| 0 <= i < n && packed(#[trigger] palette[i]) == key;
            if i < n - 1 {
                assert(before.contains_key(key));
            }
        }
        assert forall|i: int| 0 <= i < n implies {
            let entry = table[packed(#[trigger] palette[i]) as u32] as int;
            &&& i <= entry < n
            &&& palette[entry] == palette[i]
        } by {
            if packed(palette[i]) as u32 == last {
                lemma_pack_round_trip(palette[i]);
                lemma_pack_round_trip(palette[n - 1]);
            }
        }
    }
}

/// The bytes of a palette give its colors back.
pub proof fn lemma_flattened_colors(palette: Seq<Color>)
    ensures
        palette_colors(flattened(palette)) == palette,
{
    assert(palette_colors(flattened(palette)) =~= palette);
}

/// With the tables of a palette, a pixel of a palette color keeps that very
/// color: it is looked up without a search, the tables stay as they are, and
/// the index found names an entry of the pixel's own color.
pub proof fn lemma_palette_color_maps_to_itself(palette: Seq<Color>, i: int)
    requires
        palette.len() <= 256,
        0 <= i < palette.len(),
    ensures
        ({
            let tables = Tables {
                palette: flattened(palette),
                indices: index_table(palette, palette.len()),
            };
            let pixel = packed(palette[i]) as u32;
            &&& looked_up(tables, PaletteMode::Precomputed, pixel) == Some(
                Lookup { index: tables.indices[pixel], tables },
            )
            &&& palette_colors(tables.palette)[tables.indices[pixel] as int] == palette[i]
        }),
{
    lemma_index_table(palette, palette.len());
    lemma_flattened_colors(palette);
    lemma_pack_round_trip(palette[i]);
    assert(index_table(palette, palette.len()).contains_key(packed(palette[i]) as u32));
}

/// The two tables of a palette: its bytes, and the index of each color.
pub fn palette_tables(palette: &Vec<Color>) -> (tables: (Vec<u8>, HashMap<u32, u8>))
    requires
        palette@.len() <= 256,
    ensures
        tables.0@ == flattened(palette@),
        tables.1@ == index_table(palette@, palette@.len()),
{
    let mut bytes: Vec<u8> = Vec::new();
    let mut table: HashMap<u32, u8> = HashMap::new();
    let mut i: usize = 0;
    while i < palette.len()
        invariant
            i <= palette@.len() <= 256,
            bytes@.len() == 3 * i,
            forall|m: int| 0 <= m < 3 * i ==> #[trigger] bytes@[m] == flattened(palette@)[m],
            table@ == index_table(palette@, i as nat),
        decreases palette@.len() - i,
    {
        let color = palette[i];
        bytes.push(color.r);
        bytes.push(color.g);
        bytes.push(color.b);
        table.insert(color.to_packed(), i as u8);
        i += 1;
    }
    assert(bytes@ =~= flattened(palette@));
    (bytes, table)
}

/// The canonical palette of an image, as the two tables that frames are
/// encoded with: 256 colors at most, from the image scaled to a width of 150
/// pixels, clustered for at most 50 rounds.
pub fn extract_palette(image: &RasterImage) -> (result: Result<
    (Vec<u8>, HashMap<u32, u8>),
    PaletteError,
>)
    requires
        image.well_formed(),
    ensures
        result is Ok <==> image.width == 0 || image.height == 0 || can_scale(
            image.width as int,
            image.height as int,
            CANONICAL_WIDTH as int,
        ),
        result matches Ok(tables) ==> exists|palette: Seq<Color>|
            {
                &&& extracted_from(
                    palette,
                    *image,
                    CANONICAL_COLORS as nat,
                    CANONICAL_WIDTH as nat,
                    CANONICAL_ROUNDS as nat,
                )
                &&& tables.0@ == flattened(palette)
                &&& tables.1@ == index_table(palette, palette.len())
            },
        result matches Err(error) ==> error == PaletteError::Unscalable,
{
    let extractor = PaletteExtractor::new(CANONICAL_COLORS).with_resize_width(
        CANONICAL_WIDTH,
    ).with_max_iterations(CANONICAL_ROUNDS);
    match extractor.extract_palette(image) {
        Ok(palette) => {
            let tables = palette_tables(&palette);
            assert(extracted_from(
                palette@,
                *image,
                CANONICAL_COLORS as nat,
                CANONICAL_WIDTH as nat,
                CANONICAL_ROUNDS as nat,
            ));
            Ok(tables)
        },
        Err(e) => Err(e),
    }
}

} // verus!
