use parallax_gif::layers::{create_parallax_layers, LayerError, BAND_HEIGHT, CANVAS_SIZE, LAYER_COUNT};
use parallax_gif::raster::RasterImage;

fn canvas(pixel: impl Fn(u32, u32) -> [u8; 4]) -> RasterImage {
    let mut data = Vec::with_capacity(4 * 1024 * 1024);
    for y in 0..CANVAS_SIZE {
        for x in 0..CANVAS_SIZE {
            data.extend_from_slice(&pixel(x, y));
        }
    }
    RasterImage::new(CANVAS_SIZE, CANVAS_SIZE, data).unwrap()
}

#[test]
fn the_canvas_is_cut_into_four_bands() {
    assert_eq!(CANVAS_SIZE, 1024);
    assert_eq!(LAYER_COUNT, 4);
    assert_eq!(BAND_HEIGHT, 256);
    assert_eq!(BAND_HEIGHT as usize * LAYER_COUNT, CANVAS_SIZE as usize);
}

#[test]
fn a_red_canvas_gives_four_layers_red_in_their_band() {
    let source = canvas(|_, _| [255, 0, 0, 255]);
    let layers = create_parallax_layers(&source).unwrap();
    assert_eq!(layers.len(), 4);
    for (i, layer) in layers.iter().enumerate() {
        assert_eq!((layer.width, layer.height), (1024, 1024));
        assert!(layer.is_well_formed());
        for y in 0..1024u32 {
            let inside = (i as u32) * 256 <= y && y < (i as u32 + 1) * 256;
            for x in [0u32, 1, 511, 1023] {
                let expected = if inside { [255, 0, 0, 255] } else { [0, 0, 0, 0] };
                assert_eq!(layer.get_pixel(x, y), expected);
            }
        }
    }
}

#[test]
fn every_pixel_is_in_one_layer_only() {
    let source = canvas(|x, y| [(x % 251) as u8, (y % 241) as u8, ((x + y) % 239) as u8, 255]);
    let layers = create_parallax_layers(&source).unwrap();
    for y in (0..1024u32).step_by(17).chain([255, 256, 511, 512, 767, 768, 1023]) {
        for x in (0..1024u32).step_by(101) {
            let owners: Vec<usize> =
                (0..4).filter(|&i| layers[i].get_pixel(x, y)[3] != 0).collect();
            assert_eq!(owners, vec![(y / 256) as usize]);
            assert_eq!(layers[owners[0]].get_pixel(x, y), source.get_pixel(x, y));
        }
    }
}

#[test]
fn transparent_pixels_of_the_source_stay_transparent() {
    let source = canvas(|x, _| if x % 2 == 0 { [9, 9, 9, 0] } else { [9, 9, 9, 200] });
    let layers = create_parallax_layers(&source).unwrap();
    assert_eq!(layers[0].get_pixel(0, 0), [9, 9, 9, 0]);
    assert_eq!(layers[0].get_pixel(1, 0), [9, 9, 9, 200]);
    assert_eq!(layers[1].get_pixel(1, 0), [0, 0, 0, 0]);
}

#[test]
fn an_image_of_another_size_is_refused() {
    let small = RasterImage::new(2, 2, vec![0; 16]).unwrap();
    assert_eq!(
        create_parallax_layers(&small).err(),
        Some(LayerError::DimensionMismatch { width: 2, height: 2 })
    );
    let wide = RasterImage::new(1024, 1, vec![0; 4096]).unwrap();
    assert_eq!(
        create_parallax_layers(&wide).err(),
        Some(LayerError::DimensionMismatch { width: 1024, height: 1 })
    );
    let tall = RasterImage::new(1, 1024, vec![0; 4096]).unwrap();
    assert_eq!(
        create_parallax_layers(&tall).err(),
        Some(LayerError::DimensionMismatch { width: 1, height: 1024 })
    );
}
