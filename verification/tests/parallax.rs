use parallax_gif::encoder::PaletteProvider;
use parallax_gif::layers::create_parallax_layers;
use parallax_gif::parallax::{draw_parallax_layer, draw_sprite, update_pixel_buffer};
use parallax_gif::raster::RasterImage;
use parallax_gif::state::{Camera, CaptureConfig, State};

fn sprite(width: u32, height: u32, pixel: impl Fn(u32, u32) -> [u8; 4]) -> RasterImage {
    let mut data = Vec::new();
    for y in 0..height {
        for x in 0..width {
            data.extend_from_slice(&pixel(x, y));
        }
    }
    RasterImage::new(width, height, data).unwrap()
}

fn numbered(width: u32, height: u32) -> RasterImage {
    sprite(width, height, |x, y| [0, y as u8, x as u8 + 1, 255])
}

fn small_state(camera: Camera, divisors: [usize; 4]) -> State {
    let layers: Vec<RasterImage> = (0..4u8)
        .map(|i| {
            sprite(4, 4, move |x, y| if y == i as u32 { [i + 1, 0, x as u8, 255] } else { [0, 0, 0, 0] })
        })
        .collect();
    let config = CaptureConfig {
        divisors,
        vertical_divisor: 666,
        camera_x_increment: 20,
        max_frames: 40,
        frame_interval_nanos: 0,
    };
    let mut state = State::new(layers, 4, 4, true, PaletteProvider::adaptive(), config).unwrap();
    state.camera = camera;
    state
}

#[test]
fn a_sprite_at_the_origin_covers_the_canvas() {
    let mut buffer = vec![0xeeeeee; 6];
    draw_sprite(0, 0, &numbered(3, 2), &mut buffer, 3);
    assert_eq!(buffer, vec![0x000001, 0x000002, 0x000003, 0x000101, 0x000102, 0x000103]);
}

#[test]
fn a_sprite_wraps_around_the_canvas() {
    let mut buffer = vec![0xeeeeee; 6];
    draw_sprite(1, 0, &numbered(3, 2), &mut buffer, 3);
    // column 0 of the sprite lands on column 1, column 2 comes back on column 0
    assert_eq!(buffer, vec![0x000003, 0x000001, 0x000002, 0x000103, 0x000101, 0x000102]);
    let mut buffer = vec![0xeeeeee; 6];
    draw_sprite(3, 0, &numbered(3, 2), &mut buffer, 3);
    assert_eq!(buffer, vec![0x000001, 0x000002, 0x000003, 0x000101, 0x000102, 0x000103]);
    let mut buffer = vec![0xeeeeee; 6];
    draw_sprite(5, 0, &numbered(3, 2), &mut buffer, 3);
    assert_eq!(buffer, vec![0x000002, 0x000003, 0x000001, 0x000102, 0x000103, 0x000101]);
}

#[test]
fn rows_that_fall_below_the_canvas_are_lost() {
    let mut buffer = vec![0xeeeeee; 6];
    draw_sprite(0, 1, &numbered(3, 2), &mut buffer, 3);
    assert_eq!(buffer, vec![0xeeeeee, 0xeeeeee, 0xeeeeee, 0x000001, 0x000002, 0x000003]);
    let mut buffer = vec![0xeeeeee; 6];
    draw_sprite(0, 2, &numbered(3, 2), &mut buffer, 3);
    assert_eq!(buffer, vec![0xeeeeee; 6]);
}

#[test]
fn transparent_pixels_leave_the_canvas_as_it_is() {
    let holes = sprite(2, 2, |x, y| if x == y { [7, 8, 9, 1] } else { [7, 8, 9, 0] });
    let mut buffer = vec![0x111111, 0x222222, 0x333333, 0x444444];
    draw_sprite(0, 0, &holes, &mut buffer, 2);
    assert_eq!(buffer, vec![0x070809, 0x222222, 0x333333, 0x070809]);
}

#[test]
fn a_narrow_sprite_covers_only_its_columns() {
    let mut buffer = vec![0xeeeeee; 4];
    draw_sprite(3, 0, &numbered(2, 1), &mut buffer, 4);
    assert_eq!(buffer, vec![0x000002, 0xeeeeee, 0xeeeeee, 0x000001]);
}

#[test]
fn a_canvas_without_columns_is_left_alone() {
    let mut buffer = vec![1, 2, 3];
    draw_sprite(0, 0, &numbered(2, 1), &mut buffer, 0);
    assert_eq!(buffer, vec![1, 2, 3]);
}

#[test]
fn a_layer_is_shifted_by_the_camera_over_its_divisor() {
    // camera 5, divisor 2: offset 2, stamped at column 4 - 2 = 2
    let mut state = small_state(Camera::new(5, 0), [16, 10, 6, 1]);
    draw_parallax_layer(&mut state, 0, 2);
    assert_eq!(&state.window_buffer[..4], &[0x010002, 0x010003, 0x010000, 0x010001]);
    assert_eq!(&state.window_buffer[4..], &[0; 12]);
    assert_eq!(state.camera, Camera::new(5, 0));
}

#[test]
fn the_offset_starts_again_after_the_width_of_the_layer() {
    // camera 9, divisor 2: 4 around a width of 4 is 0
    let mut state = small_state(Camera::new(9, 0), [16, 10, 6, 1]);
    draw_parallax_layer(&mut state, 1, 2);
    assert_eq!(&state.window_buffer[4..8], &[0x020000, 0x020001, 0x020002, 0x020003]);
    // camera 11, divisor 2: 5 around 4 is 1, stamped at column 3
    let mut state = small_state(Camera::new(11, 0), [16, 10, 6, 1]);
    draw_parallax_layer(&mut state, 1, 2);
    assert_eq!(&state.window_buffer[4..8], &[0x020001, 0x020002, 0x020003, 0x020000]);
}

#[test]
fn the_vertical_offset_is_the_camera_over_the_vertical_divisor() {
    let mut state = small_state(Camera::new(0, 666), [16, 10, 6, 1]);
    draw_parallax_layer(&mut state, 0, 1);
    assert_eq!(&state.window_buffer[..4], &[0; 4]);
    assert_eq!(&state.window_buffer[4..8], &[0x010000, 0x010001, 0x010002, 0x010003]);
    let mut state = small_state(Camera::new(0, 665), [16, 10, 6, 1]);
    draw_parallax_layer(&mut state, 0, 1);
    assert_eq!(&state.window_buffer[..4], &[0x010000, 0x010001, 0x010002, 0x010003]);
}

#[test]
fn the_scene_is_the_four_layers_each_at_its_pace() {
    let mut state = small_state(Camera::new(6, 0), [6, 3, 2, 1]);
    update_pixel_buffer(&mut state);
    // offsets 1, 2, 3 and 6 around 4 = 2; stamped at columns 3, 2, 1 and 2
    assert_eq!(
        state.window_buffer,
        vec![
            0x010001, 0x010002, 0x010003, 0x010000, //
            0x020002, 0x020003, 0x020000, 0x020001, //
            0x030003, 0x030000, 0x030001, 0x030002, //
            0x040002, 0x040003, 0x040000, 0x040001,
        ]
    );
}

#[test]
fn with_the_camera_at_the_origin_nothing_is_shifted() {
    let mut state = small_state(Camera::new(0, 0), [16, 10, 6, 1]);
    update_pixel_buffer(&mut state);
    assert_eq!(
        state.window_buffer,
        vec![
            0x010000, 0x010001, 0x010002, 0x010003, //
            0x020000, 0x020001, 0x020002, 0x020003, //
            0x030000, 0x030001, 0x030002, 0x030003, //
            0x040000, 0x040001, 0x040002, 0x040003,
        ]
    );
}

#[test]
fn at_the_first_tick_the_canvas_shows_the_source() {
    let mut data = Vec::with_capacity(4 * 1024 * 1024);
    for y in 0..1024u32 {
        for x in 0..1024u32 {
            data.extend_from_slice(&[(x % 256) as u8, (y % 256) as u8, (y / 256) as u8, 255]);
        }
    }
    let source = RasterImage::new(1024, 1024, data).unwrap();
    let layers = create_parallax_layers(&source).unwrap();
    let mut state = State::new(
        layers,
        1024,
        1024,
        true,
        PaletteProvider::adaptive(),
        CaptureConfig::default(),
    )
    .unwrap();
    assert_eq!(state.camera, Camera::new(0, 0));
    update_pixel_buffer(&mut state);
    for y in 0..1024usize {
        for x in 0..1024usize {
            let expected = (((x % 256) as u32) << 16) | (((y % 256) as u32) << 8) | (y / 256) as u32;
            assert_eq!(state.window_buffer[y * 1024 + x], expected);
        }
    }
}
