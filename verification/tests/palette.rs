use parallax_gif::color::Color;
use parallax_gif::palette::{nearest_index, PaletteError, PaletteExtractor};
use parallax_gif::raster::RasterImage;

fn uniform_image(width: u32, height: u32, rgba: [u8; 4]) -> RasterImage {
    let mut data = Vec::new();
    for _ in 0..(width as usize * height as usize) {
        data.extend_from_slice(&rgba);
    }
    RasterImage::new(width, height, data).unwrap()
}

#[test]
fn nearest_index_takes_the_first_of_equally_near_colors() {
    let colors = vec![Color::new(10, 0, 0), Color::new(0, 0, 0), Color::new(10, 0, 0)];
    assert_eq!(nearest_index(&colors, &Color::new(9, 0, 0)), 0);
    assert_eq!(nearest_index(&colors, &Color::new(1, 0, 0)), 1);
    // five is as far from zero as from ten: the lower index wins
    assert_eq!(nearest_index(&colors, &Color::new(5, 0, 0)), 0);
    let swapped = vec![Color::new(0, 0, 0), Color::new(10, 0, 0)];
    assert_eq!(nearest_index(&swapped, &Color::new(5, 0, 0)), 0);
}

#[test]
fn nearest_index_minimises_the_distance() {
    let colors = vec![
        Color::new(0, 0, 0),
        Color::new(255, 255, 255),
        Color::new(255, 0, 0),
        Color::new(0, 0, 255),
    ];
    for probe in [Color::new(200, 10, 10), Color::new(20, 30, 220), Color::new(130, 130, 130)] {
        let found = nearest_index(&colors, &probe);
        for (j, other) in colors.iter().enumerate() {
            let best = probe.distance_squared_to(&colors[found]);
            let d = probe.distance_squared_to(other);
            assert!(best <= d);
            if j < found {
                assert!(best < d);
            }
        }
    }
}

#[test]
fn few_pixels_are_their_own_centroids() {
    let pixels = vec![Color::new(1, 1, 1), Color::new(2, 2, 2)];
    let extractor = PaletteExtractor::new(5);
    assert_eq!(extractor.initialize_centroids(&pixels), pixels);
    let exact = PaletteExtractor::new(2);
    assert_eq!(exact.initialize_centroids(&pixels), pixels);
}

#[test]
fn centroids_are_taken_at_a_stride() {
    let pixels: Vec<Color> = (0..10).map(|i| Color::new(i, 0, 0)).collect();
    let extractor = PaletteExtractor::new(3);
    // stride 10 / 3 = 3: positions 0, 3 and 6
    assert_eq!(
        extractor.initialize_centroids(&pixels),
        vec![Color::new(0, 0, 0), Color::new(3, 0, 0), Color::new(6, 0, 0)]
    );
    let four = PaletteExtractor::new(4);
    // stride 10 / 4 = 2: positions 0, 2, 4 and 6
    assert_eq!(
        four.initialize_centroids(&pixels),
        vec![Color::new(0, 0, 0), Color::new(2, 0, 0), Color::new(4, 0, 0), Color::new(6, 0, 0)]
    );
}

#[test]
fn no_color_asked_for_gives_no_centroid() {
    let pixels = vec![Color::new(1, 1, 1), Color::new(2, 2, 2)];
    let extractor = PaletteExtractor::new(0);
    assert_eq!(extractor.initialize_centroids(&pixels), Vec::<Color>::new());
    assert_eq!(extractor.kmeans_clustering(pixels), Vec::<Color>::new());
}

#[test]
fn no_pixel_gives_the_empty_palette() {
    let extractor = PaletteExtractor::new(5);
    assert_eq!(extractor.kmeans_clustering(Vec::new()), Vec::<Color>::new());
}

#[test]
fn two_clusters_give_their_means() {
    let pixels = vec![
        Color::new(0, 0, 0),
        Color::new(10, 0, 0),
        Color::new(200, 200, 200),
        Color::new(210, 200, 200),
    ];
    let extractor = PaletteExtractor::new(2);
    assert_eq!(
        extractor.kmeans_clustering(pixels),
        vec![Color::new(5, 0, 0), Color::new(205, 200, 200)]
    );
}

#[test]
fn means_are_cut_down_not_rounded() {
    let pixels = vec![
        Color::new(0, 0, 0),
        Color::new(1, 3, 0),
        Color::new(255, 255, 255),
        Color::new(255, 254, 255),
    ];
    let extractor = PaletteExtractor::new(2);
    // (0 + 1) / 2 = 0, (0 + 3) / 2 = 1, (255 + 254) / 2 = 254
    assert_eq!(
        extractor.kmeans_clustering(pixels),
        vec![Color::new(0, 1, 0), Color::new(255, 254, 255)]
    );
}

#[test]
fn the_larger_cluster_comes_first() {
    let a = Color::new(0, 0, 0);
    let b = Color::new(250, 250, 250);
    let extractor = PaletteExtractor::new(2);
    assert_eq!(extractor.kmeans_clustering(vec![a, b, b, b]), vec![b, a]);
    assert_eq!(extractor.kmeans_clustering(vec![a, a, b, a]), vec![a, b]);
}

#[test]
fn clusters_of_one_size_keep_the_order_of_their_centroids() {
    let a = Color::new(0, 0, 0);
    let b = Color::new(250, 250, 250);
    let extractor = PaletteExtractor::new(2);
    assert_eq!(extractor.kmeans_clustering(vec![a, a, b, b]), vec![a, b]);
    assert_eq!(extractor.kmeans_clustering(vec![b, b, a, a]), vec![b, a]);
}

#[test]
fn a_cluster_without_pixels_is_left_out() {
    // both centroids start on the same color; every pixel goes to the first
    let a = Color::new(0, 0, 0);
    let b = Color::new(1, 0, 0);
    let extractor = PaletteExtractor::new(2);
    assert_eq!(extractor.kmeans_clustering(vec![a, a, a, b]), vec![a]);
}

#[test]
fn without_rounds_the_first_centroid_is_the_palette() {
    let a = Color::new(10, 20, 30);
    let b = Color::new(200, 100, 0);
    let extractor = PaletteExtractor::new(2).with_max_iterations(0);
    assert_eq!(extractor.kmeans_clustering(vec![a, b]), vec![a]);
}

#[test]
fn one_round_is_enough_for_few_pixels() {
    let a = Color::new(10, 20, 30);
    let b = Color::new(200, 100, 0);
    let extractor = PaletteExtractor::new(2).with_max_iterations(1);
    assert_eq!(extractor.kmeans_clustering(vec![a, b]), vec![a, b]);
}

#[test]
fn as_many_colors_as_asked_for_are_all_kept() {
    let pixels = vec![Color::new(9, 9, 9), Color::new(1, 2, 3), Color::new(200, 0, 100)];
    let extractor = PaletteExtractor::new(3);
    assert_eq!(extractor.kmeans_clustering(pixels.clone()), pixels);
    let generous = PaletteExtractor::new(256);
    assert_eq!(generous.kmeans_clustering(pixels.clone()), pixels);
}

#[test]
fn few_pixels_with_a_color_twice_keep_each_color_once() {
    let red = Color::new(255, 0, 0);
    let blue = Color::new(0, 0, 255);
    let extractor = PaletteExtractor::new(5);
    assert_eq!(extractor.kmeans_clustering(vec![blue, red, red]), vec![red, blue]);
    assert_eq!(extractor.kmeans_clustering(vec![red, red]), vec![red]);
}

#[test]
fn the_palette_is_no_longer_than_asked_for_nor_than_the_colors_there_are() {
    let pixels: Vec<Color> = (0..60u32)
        .map(|i| Color::new((i * 37 % 256) as u8, (i * 91 % 7) as u8, (i % 3 * 100) as u8))
        .collect();
    let mut distinct = pixels.clone();
    distinct.sort_by_key(|c| (c.r, c.g, c.b));
    distinct.dedup();
    for k in [1usize, 2, 5, 17, 59, 60, 100] {
        let palette = PaletteExtractor::new(k).kmeans_clustering(pixels.clone());
        assert!(!palette.is_empty());
        assert!(palette.len() <= k);
        assert!(palette.len() <= distinct.len());
    }
}

#[test]
fn clustering_twice_gives_the_same_palette() {
    let pixels: Vec<Color> = (0..200u32)
        .map(|i| Color::new((i * 13 % 256) as u8, (i * 7 % 256) as u8, (i * 101 % 256) as u8))
        .collect();
    let extractor = PaletteExtractor::new(8).with_max_iterations(50);
    let first = extractor.kmeans_clustering(pixels.clone());
    let second = extractor.kmeans_clustering(pixels.clone());
    assert_eq!(first, second);
    let other = PaletteExtractor::new(8).with_resize_width(7).with_max_iterations(50);
    assert_eq!(other.kmeans_clustering(pixels), first);
}

#[test]
fn rounds_go_on_until_nothing_moves_after_the_sixth() {
    let pixels: Vec<Color> = (0..50u32)
        .map(|i| Color::new((i * 5) as u8, (255 - i * 5) as u8, (i * 29 % 256) as u8))
        .collect();
    let many = PaletteExtractor::new(4).with_max_iterations(100).kmeans_clustering(pixels.clone());
    let more = PaletteExtractor::new(4).with_max_iterations(1000).kmeans_clustering(pixels);
    assert_eq!(many, more);
}

#[test]
fn pixels_are_read_row_by_row_without_alpha() {
    let image = RasterImage::new(2, 2, vec![
        1, 2, 3, 255, 4, 5, 6, 0, 7, 8, 9, 128, 10, 11, 12, 255,
    ])
    .unwrap();
    let extractor = PaletteExtractor::new(5);
    assert_eq!(
        extractor.extract_pixels(&image),
        vec![Color::new(1, 2, 3), Color::new(4, 5, 6), Color::new(7, 8, 9), Color::new(10, 11, 12)]
    );
}

#[test]
fn scaling_keeps_the_proportions() {
    let image = uniform_image(8, 4, [10, 20, 30, 255]);
    let extractor = PaletteExtractor::new(5).with_resize_width(4);
    let scaled = extractor.preprocess_image(&image).unwrap();
    assert_eq!((scaled.width, scaled.height), (4, 2));
    assert_eq!(scaled.data.len(), 4 * 4 * 2);
    let wider = PaletteExtractor::new(5).with_resize_width(12);
    let scaled = wider.preprocess_image(&image).unwrap();
    assert_eq!((scaled.width, scaled.height), (12, 6));
    assert_eq!(scaled.data.len(), 4 * 12 * 6);
}

#[test]
fn scaling_a_flat_image_keeps_its_color() {
    let image = uniform_image(8, 8, [10, 20, 30, 255]);
    let extractor = PaletteExtractor::new(5).with_resize_width(3);
    let scaled = extractor.preprocess_image(&image).unwrap();
    assert_eq!((scaled.width, scaled.height), (3, 3));
    for pixel in scaled.data.chunks(4) {
        assert_eq!(pixel, [10, 20, 30, 255]);
    }
}

#[test]
fn a_very_wide_image_is_scaled_to_one_row() {
    let image = uniform_image(100, 1, [0, 0, 0, 255]);
    let extractor = PaletteExtractor::new(5).with_resize_width(10);
    let scaled = extractor.preprocess_image(&image).unwrap();
    assert_eq!((scaled.width, scaled.height), (10, 1));
}

#[test]
fn what_cannot_be_scaled_has_no_palette() {
    let image = uniform_image(2, 2, [1, 1, 1, 255]);
    let zero = PaletteExtractor::new(5).with_resize_width(0);
    assert_eq!(zero.preprocess_image(&image).err(), Some(PaletteError::Unscalable));
    assert_eq!(zero.extract_palette(&image), Err(PaletteError::Unscalable));
    let huge = PaletteExtractor::new(5).with_resize_width(u32::MAX);
    assert_eq!(huge.extract_palette(&image), Err(PaletteError::Unscalable));
    let empty = RasterImage::new(0, 0, Vec::new()).unwrap();
    assert_eq!(zero.preprocess_image(&empty).err(), Some(PaletteError::Unscalable));
}

#[test]
fn a_side_too_long_for_the_resampler_cannot_be_scaled() {
    let pixel = uniform_image(1, 1, [1, 1, 1, 255]);
    let fits = PaletteExtractor::new(5).with_resize_width(65_535);
    // one column too many after scaling
    let wide = PaletteExtractor::new(5).with_resize_width(65_536);
    assert_eq!(wide.preprocess_image(&pixel).err(), Some(PaletteError::Unscalable));
    assert_eq!(wide.extract_palette(&pixel), Err(PaletteError::Unscalable));
    // 65,535 columns and as many rows are too many pixels
    assert_eq!(fits.preprocess_image(&pixel).err(), Some(PaletteError::Unscalable));
    // one column too many before scaling
    let long = uniform_image(65_536, 1, [1, 1, 1, 255]);
    let small = PaletteExtractor::new(5).with_resize_width(16);
    assert_eq!(small.preprocess_image(&long).err(), Some(PaletteError::Unscalable));
    let longest = uniform_image(65_535, 1, [1, 2, 3, 255]);
    let scaled = small.preprocess_image(&longest).unwrap();
    assert_eq!((scaled.width, scaled.height), (16, 1));
    // too many rows after scaling
    let tall = uniform_image(1, 40_000, [1, 1, 1, 255]);
    let double = PaletteExtractor::new(5).with_resize_width(2);
    assert_eq!(double.preprocess_image(&tall).err(), Some(PaletteError::Unscalable));
}

#[test]
fn an_image_of_the_scaled_size_stays_as_it_is() {
    let data: Vec<u8> = (0..4 * 6 * 3).map(|i| (i * 37 % 256) as u8).collect();
    let image = RasterImage::new(6, 3, data.clone()).unwrap();
    let extractor = PaletteExtractor::new(4).with_resize_width(6);
    let scaled = extractor.preprocess_image(&image).unwrap();
    assert_eq!((scaled.width, scaled.height), (6, 3));
    assert_eq!(scaled.data, data);
    let pixels = extractor.extract_pixels(&image);
    assert_eq!(extractor.extract_palette(&image), Ok(extractor.kmeans_clustering(pixels)));
}

#[test]
fn an_image_without_pixels_has_the_empty_palette() {
    let empty = RasterImage::new(0, 7, Vec::new()).unwrap();
    let extractor = PaletteExtractor::new(5);
    assert_eq!(extractor.extract_palette(&empty), Ok(Vec::new()));
}

#[test]
fn a_red_canvas_has_a_palette_of_red_alone() {
    let image = uniform_image(1024, 1024, [255, 0, 0, 255]);
    let extractor = PaletteExtractor::new(5);
    assert_eq!(extractor.extract_palette(&image), Ok(vec![Color::new(255, 0, 0)]));
}

#[test]
fn default_settings_are_five_colors() {
    let extractor = PaletteExtractor::default();
    let pixels: Vec<Color> = (0..6).map(|i| Color::new(i * 40, 0, 0)).collect();
    // six pixels for five colors: stride one, the first five pixels
    assert_eq!(extractor.initialize_centroids(&pixels), pixels[..5].to_vec());
}
