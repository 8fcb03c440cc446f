//! Composing the scene: the layers are stamped on the canvas, each shifted
//! by an offset that follows the camera at the layer's own pace.
use crate::color::{packed, Color};
use crate::layers::LAYER_COUNT;
use crate::raster::RasterImage;
use crate::state::State;
use vstd::arithmetic::div_mod::lemma_fundamental_div_mod_converse;
use vstd::prelude::*;

verus! {

/// The column of a sprite that lands on column `column` of a canvas `width`
/// pixels wide when the sprite is stamped at column `x`. The sprite wraps
/// around the canvas: what leaves it on the right comes back on the left.
pub open spec fn source_column(column: int, x: int, width: int) -> int {
    let shift = x % width;
    if column >= shift {
        column - shift
    } else {
        column + width - shift
    }
}

/// The column found by `source_column` is the one that the stamp moves to
/// `column`: it lies on the canvas, and `x` columns further, counted around
/// the canvas, lies `column`.
pub proof fn lemma_source_column(column: int, x: int, width: int)
    requires
        0 <= column < width,
        0 <= x,
    ensures
        0 <= source_column(column, x, width) < width,
        (x + source_column(column, x, width)) % width == column,
{
    let shift = x % width;
    let turns = x / width;
    vstd::arithmetic::div_mod::lemma_fundamental_div_mod(x, width);
    let source = source_column(column, x, width);
    if column >= shift {
        assert(x + source == turns * width + column) by (nonlinear_arith)
            requires
                x == width * turns + shift,
                source == column - shift,
        ;
        lemma_fundamental_div_mod_converse(x + source, width, turns, column);
    } else {
        assert(x + source == (turns + 1) * width + column) by (nonlinear_arith)
            requires
                x == width * turns + shift,
                source == column + width - shift,
        ;
        lemma_fundamental_div_mod_converse(x + source, width, turns + 1, column);
    }
}

/// What position `p` of the canvas holds after a sprite has been stamped at
/// column `x` and row `y`: the color of the sprite pixel that lands there,
/// if there is one and it is opaque, and what it held before otherwise. Rows
/// of the sprite that fall below the canvas are lost.
pub open spec fn stamped_pixel(
    before: u32,
    sprite: RasterImage,
    x: int,
    y: int,
    width: int,
    p: int,
) -> u32 {
    let sx = source_column(p % width, x, width);
    let sy = p / width - y;
    if width > 0 && 0 <= sy < sprite.height && sx < sprite.width && sprite.opaque_at(sx, sy) {
        packed(sprite.color_at(sx, sy)) as u32
    } else {
        before
    }
}

/// The canvas after a sprite has been stamped on it.
pub open spec fn stamped(before: Seq<u32>, sprite: RasterImage, x: int, y: int, width: int) -> Seq<
    u32,
> {
    Seq::new(before.len(), |p: int| stamped_pixel(before[p], sprite, x, y, width, p))
}

/// How far a layer is shifted to the left: the camera's x, slowed down by
/// the layer's divisor, counted around the width of the layer.
pub open spec fn parallax_offset_x(camera_x: int, divisor: int, layer_width: int) -> int {
    (camera_x / divisor) % layer_width
}

/// How far a layer is shifted down: the camera's y, slowed down.
pub open spec fn parallax_offset_y(camera_y: int, vertical_divisor: int) -> int {
    camera_y / vertical_divisor
}

/// The column at which a layer is stamped: the width of the canvas less the
/// layer's offset, and never less than zero.
pub open spec fn layer_column(canvas_width: int, offset_x: int) -> int {
    if offset_x >= canvas_width {
        0
    } else {
        canvas_width - offset_x
    }
}

/// The canvas after one layer has been drawn on it for the given camera.
pub open spec fn with_layer(before: Seq<u32>, state: State, layer_index: int, divisor: int) -> Seq<
    u32,
> {
    let layer = state.sprites@[layer_index];
    stamped(
        before,
        layer,
        layer_column(
            state.window_width as int,
            parallax_offset_x(state.camera.x as int, divisor, layer.width as int),
        ),
        parallax_offset_y(state.camera.y as int, state.config.vertical_divisor as int),
        state.window_width as int,
    )
}

/// The canvas after a tick: the first layer stamped at the origin, then
/// every layer drawn at its own offset, the farthest first.
pub open spec fn composed(state: State) -> Seq<u32> {
    let base = stamped(state.window_buffer@, state.sprites@[0], 0, 0, state.window_width as int);
    let first = with_layer(base, state, 0, state.config.divisors[0] as int);
    let second = with_layer(first, state, 1, state.config.divisors[1] as int);
    let third = with_layer(second, state, 2, state.config.divisors[2] as int);
    with_layer(third, state, 3, state.config.divisors[3] as int)
}

/// With the camera at rest at the origin no layer is shifted: each is
/// stamped as it would be at the origin of the canvas.
pub proof fn lemma_camera_at_origin(
    before: Seq<u32>,
    sprite: RasterImage,
    divisor: int,
    vertical_divisor: int,
    width: int,
)
    requires
        divisor > 0,
        vertical_divisor > 0,
        sprite.width > 0,
        width > 0,
    ensures
        parallax_offset_x(0, divisor, sprite.width as int) == 0,
        parallax_offset_y(0, vertical_divisor) == 0,
        stamped(before, sprite, layer_column(width, 0), 0, width) == stamped(
            before,
            sprite,
            0,
            0,
            width,
        ),
{
    assert(0int / divisor == 0) by (nonlinear_arith)
        requires
            divisor > 0,
    ;
    assert(0int / vertical_divisor == 0) by (nonlinear_arith)
        requires
            vertical_divisor > 0,
    ;
    assert(width % width == 0 && 0int % width == 0) by (nonlinear_arith)
        requires
            width > 0,
    ;
    assert(stamped(before, sprite, layer_column(width, 0), 0, width) =~= stamped(
        before,
        sprite,
        0,
        0,
        width,
    ));
}

/// Stamps a sprite on the canvas at column `x` and row `y`. Opaque pixels of
/// the sprite replace what the canvas held; transparent ones leave it. A
/// canvas without columns is left as it is.
pub fn draw_sprite(
    x: usize,
    y: usize,
    sprite: &RasterImage,
    window_buffer: &mut Vec<u32>,
    window_width: usize,
)
    requires
        sprite.well_formed(),
    ensures
        final(window_buffer)@ == stamped(
            old(window_buffer)@,
            *sprite,
            x as int,
            y as int,
            window_width as int,
        ),
{
    if window_width == 0 {
        assert(window_buffer@ =~= stamped(window_buffer@, *sprite, x as int, y as int, 0));
        return ;
    }
    let shift = x % window_width;
    let len = window_buffer.len();
    let mut p: usize = 0;
    while p < len
        invariant
            sprite.well_formed(),
            window_width > 0,
            shift == x % window_width,
            len == old(window_buffer)@.len(),
            window_buffer@.len() == len,
            p <= len,
            forall|q: int|
                0 <= q < p ==> #[trigger] window_buffer@[q] == stamped_pixel(
                    old(window_buffer)@[q],
                    *sprite,
                    x as int,
                    y as int,
                    window_width as int,
                    q,
                ),
            forall|q: int| p <= q < len ==> #[trigger] window_buffer@[q] == old(window_buffer)@[q],
        decreases len - p,
    {
        let column = p % window_width;
        let row = p / window_width;
        let sx = if column >= shift {
            column - shift
        } else {
            column + (window_width - shift)
        };
        if row >= y && row - y < sprite.height as usize && sx < sprite.width as usize {
            let rgba = sprite.get_pixel(sx as u32, (row - y) as u32);
            if rgba[3] != 0 {
                let color = Color { r: rgba[0], g: rgba[1], b: rgba[2] };
                window_buffer.set(p, color.to_packed());
            }
        }
        p += 1;
    }
    assert(window_buffer@ =~= stamped(
        old(window_buffer)@,
        *sprite,
        x as int,
        y as int,
        window_width as int,
    ));
}

/// Draws one layer on the canvas, shifted by its parallax offset for the
/// camera as it stands. Nothing but the canvas changes.
pub fn draw_parallax_layer(game_state: &mut State, layer_index: usize, divisor: usize)
    requires
        old(game_state).well_formed(),
        layer_index < LAYER_COUNT,
        divisor > 0,
    ensures
        final(game_state).window_buffer@ == with_layer(
            old(game_state).window_buffer@,
            *old(game_state),
            layer_index as int,
            divisor as int,
        ),
        *final(game_state) == (State {
            window_buffer: final(game_state).window_buffer,
            ..*old(game_state)
        }),
{
    let texture_width = game_state.sprites[layer_index].width as usize;
    let offset_x = game_state.camera.x / divisor % texture_width;
    let offset_y = game_state.camera.y / game_state.config.vertical_divisor;
    let x = if offset_x >= game_state.window_width {
        0
    } else {
        game_state.window_width - offset_x
    };
    draw_sprite(
        x,
        offset_y,
        &game_state.sprites[layer_index],
        &mut game_state.window_buffer,
        game_state.window_width,
    );
}

/// Repaints the canvas for the camera as it stands: the first layer at the
/// origin, so that no pixel shows what an earlier tick left, then the four
/// layers at their offsets. Nothing but the canvas changes.
pub fn update_pixel_buffer(game_state: &mut State)
    requires
        old(game_state).well_formed(),
    ensures
        final(game_state).window_buffer@ == composed(*old(game_state)),
        *final(game_state) == (State {
            window_buffer: final(game_state).window_buffer,
            ..*old(game_state)
        }),
        final(game_state).well_formed(),
{
    draw_sprite(
        0,
        0,
        &game_state.sprites[0],
        &mut game_state.window_buffer,
        game_state.window_width,
    );
    let divisors = game_state.config.divisors;
    draw_parallax_layer(game_state, 0, divisors[0]);
    draw_parallax_layer(game_state, 1, divisors[1]);
    draw_parallax_layer(game_state, 2, divisors[2]);
    draw_parallax_layer(game_state, 3, divisors[3]);
}

} // verus!
