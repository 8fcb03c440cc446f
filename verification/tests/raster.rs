use parallax_gif::raster::RasterImage;

#[test]
fn an_image_needs_four_samples_for_each_pixel() {
    assert!(RasterImage::new(2, 1, vec![0; 8]).is_some());
    assert!(RasterImage::new(2, 1, vec![0; 7]).is_none());
    assert!(RasterImage::new(2, 1, vec![0; 9]).is_none());
    assert!(RasterImage::new(2, 1, vec![0; 12]).is_none());
    assert!(RasterImage::new(0, 5, Vec::new()).is_some());
    assert!(RasterImage::new(0, 5, vec![0; 4]).is_none());
}

#[test]
fn well_formedness_is_decided_by_the_length_of_the_data() {
    let good = RasterImage { width: 3, height: 2, data: vec![0; 24] };
    assert!(good.is_well_formed());
    let short = RasterImage { width: 3, height: 2, data: vec![0; 23] };
    assert!(!short.is_well_formed());
    let long = RasterImage { width: 3, height: 2, data: vec![0; 28] };
    assert!(!long.is_well_formed());
}

#[test]
fn pixels_are_found_row_by_row() {
    let data: Vec<u8> = (0..24).collect();
    let image = RasterImage::new(3, 2, data).unwrap();
    assert_eq!(image.get_pixel(0, 0), [0, 1, 2, 3]);
    assert_eq!(image.get_pixel(2, 0), [8, 9, 10, 11]);
    assert_eq!(image.get_pixel(0, 1), [12, 13, 14, 15]);
    assert_eq!(image.get_pixel(2, 1), [20, 21, 22, 23]);
}
