//! The picture of a grid: opaque white for a live cell, opaque black for a
//! dead one, each cell drawn as a square of `scale` by `scale` pixels.

use crate::grid::Board;
use crate::grid::Grid;
use crate::index::lemma_cell_of_flat_index;
use crate::index::lemma_flat_index_in_bounds;
use crate::index::lemma_flat_index_roundtrip;
use vstd::arithmetic::div_mod::lemma_div_pos_is_pos;
use vstd::arithmetic::div_mod::lemma_multiply_divide_lt;
use vstd::prelude::*;

verus! {

/// Why a grid could not be drawn.
#[derive(Debug, Clone, Copy, PartialEq, Eq, Structural)]
pub enum RenderError {
    /// The buffer does not hold exactly four bytes for each pixel of the picture.
    InvalidBufferSize,
}

/// The value of the red, green and blue channels of a cell's pixels.
pub open spec fn shade(alive: bool) -> u8 {
    if alive {
        255
    } else {
        0
    }
}

/// The number of bytes in the picture of `board` at `scale`: four for each
/// of its `width * scale` by `height * scale` pixels.
pub open spec fn frame_len(board: Board, scale: nat) -> nat {
    (board.width * scale) * (board.height * scale) * 4
}

/// The position in the picture of channel `channel` of the pixel at `(px, py)`.
pub open spec fn frame_index(board: Board, scale: nat, px: int, py: int, channel: int) -> int {
    (py * (board.width * scale) + px) * 4 + channel
}

/// The byte at position `i` of the picture. The pixels lie row after row,
/// four bytes each; the pixel at `(px, py)` shows the cell at
/// `(px / scale, py / scale)`, and its fourth byte, the opacity, is full.
pub open spec fn frame_byte(board: Board, scale: nat, i: int) -> u8 {
    let pixel = i / 4;
    let px = pixel % (board.width * scale) as int;
    let py = pixel / (board.width * scale) as int;
    if i % 4 == 3 {
        255
    } else {
        shade(board.alive(px / scale as int, py / scale as int))
    }
}

/// The picture of `board` at `scale`.
pub open spec fn rendered(board: Board, scale: nat) -> Seq<u8> {
    Seq::new(frame_len(board, scale), |i: int| frame_byte(board, scale, i))
}

/// The length of the picture of `grid` at `scale`, where the machine can
/// hold a buffer of that length.
pub fn frame_size(grid: &Grid, scale: usize) -> (r: Option<usize>)
    ensures
        r is Some <==> frame_len(grid@, scale as nat) <= usize::MAX,
        r is Some ==> r.unwrap() == frame_len(grid@, scale as nat),
{
    let w: usize = grid.width();
    let h: usize = grid.height();
    if scale == 0 {
        assert(frame_len(grid@, 0) == 0) by (nonlinear_arith)
            requires
                frame_len(grid@, 0) == (grid@.width * 0) * (grid@.height * 0) * 4,
        ;
        return Some(0);
    }
    let ghost full = frame_len(grid@, scale as nat) as int;
    let canvas_width: usize = match w.checked_mul(scale) {
        Some(v) => v,
        None => {
            assert(full >= w * scale) by (nonlinear_arith)
                requires
                    full == (w * scale) * (h * scale) * 4,
                    h >= 1,
                    scale >= 1,
                    w >= 1,
            ;
            return None;
        },
    };
    let canvas_height: usize = match h.checked_mul(scale) {
        Some(v) => v,
        None => {
            assert(full >= h * scale) by (nonlinear_arith)
                requires
                    full == (w * scale) * (h * scale) * 4,
                    h >= 1,
                    scale >= 1,
                    w >= 1,
            ;
            return None;
        },
    };
    assert(canvas_width >= 1 && canvas_height >= 1) by (nonlinear_arith)
        requires
            canvas_width == w * scale,
            canvas_height == h * scale,
            h >= 1,
            scale >= 1,
            w >= 1,
    ;
    let pixels: usize = match canvas_width.checked_mul(canvas_height) {
        Some(v) => v,
        None => {
            assert(full >= canvas_width * canvas_height) by (nonlinear_arith)
                requires
                    full == canvas_width * canvas_height * 4,
                    canvas_width >= 1,
                    canvas_height >= 1,
            ;
            return None;
        },
    };
    pixels.checked_mul(4)
}

/// Draws `grid` at `scale` into `frame`, which must hold exactly four bytes
/// for each pixel of the picture; a buffer of any other length is refused
/// and left as it is.
pub fn draw(frame: &mut [u8], grid: &Grid, scale: usize) -> (r: Result<(), RenderError>)
    ensures
        r is Ok <==> old(frame)@.len() == frame_len(grid@, scale as nat),
        r is Ok ==> final(frame)@ == rendered(grid@, scale as nat),
        r is Err ==> r == Err::<(), RenderError>(RenderError::InvalidBufferSize),
        r is Err ==> final(frame)@ == old(frame)@,
{
    let len: usize = match frame_size(grid, scale) {
        Some(v) => v,
        None => {
            assert(frame.len() <= usize::MAX);
            return Err(RenderError::InvalidBufferSize);
        },
    };
    if frame.len() != len {
        return Err(RenderError::InvalidBufferSize);
    }
    if len == 0 {
        assert(frame@ =~= rendered(grid@, scale as nat));
        return Ok(());
    }
    let w: usize = grid.width();
    let h: usize = grid.height();
    assert(scale > 0 && w * scale <= usize::MAX && h * scale <= usize::MAX && (w * scale) * (h
        * scale) * 4 == len) by (nonlinear_arith)
        requires
            len == (w * scale) * (h * scale) * 4,
            len > 0,
            len <= usize::MAX,
            scale >= 0,
            w > 0,
            h > 0,
    ;
    let canvas_width: usize = w * scale;
    let pixels: usize = len / 4;
    let mut p: usize = 0;
    while p < pixels
        invariant
            p <= pixels,
            scale > 0,
            w == grid@.width,
            h == grid@.height,
            canvas_width == w * scale,
            h * scale <= usize::MAX,
            pixels == canvas_width * (h * scale),
            len == pixels * 4,
            frame@.len() == len,
            forall|i: int| 0 <= i < p * 4 ==> #[trigger] frame@[i] == frame_byte(grid@, scale as nat, i),
        decreases pixels - p,
    {
        proof {
            lemma_cell_of_flat_index(p as int, canvas_width as int, h * scale);
        }
        let px: usize = p % canvas_width;
        let py: usize = p / canvas_width;
        proof {
            lemma_div_pos_is_pos(px as int, scale as int);
            lemma_div_pos_is_pos(py as int, scale as int);
            assert(w * scale == scale * w) by (nonlinear_arith);
            assert(h * scale == scale * h) by (nonlinear_arith);
            lemma_multiply_divide_lt(px as int, scale as int, w as int);
            lemma_multiply_divide_lt(py as int, scale as int, h as int);
        }
        let color: u8 = if grid.get(px / scale, py / scale) {
            255
        } else {
            0
        };
        let at: usize = p * 4;
        frame[at] = color;
        frame[at + 1] = color;
        frame[at + 2] = color;
        frame[at + 3] = 255;
        p += 1;
    }
    assert(frame@ =~= rendered(grid@, scale as nat));
    Ok(())
}

/// Each pixel of the picture shows one cell: the pixel at `(px, py)` holds
/// the shade of the cell at `(px / scale, py / scale)` three times and then
/// full opacity.
pub proof fn lemma_pixel_shows_cell(board: Board, scale: nat, px: int, py: int, channel: int)
    requires
        board.wf(),
        scale > 0,
        0 <= px < board.width * scale,
        0 <= py < board.height * scale,
        0 <= channel < 4,
    ensures
        0 <= frame_index(board, scale, px, py, channel) < frame_len(board, scale),
        board.contains(px / scale as int, py / scale as int),
        rendered(board, scale)[frame_index(board, scale, px, py, channel)] == if channel == 3 {
            255u8
        } else {
            shade(board.alive(px / scale as int, py / scale as int))
        },
{
    let s = scale as int;
    let cw = (board.width * scale) as int;
    let ch = (board.height * scale) as int;
    lemma_flat_index_in_bounds(px, py, cw, ch);
    lemma_flat_index_roundtrip(px, py, cw);
    assert(s * board.width == cw) by (nonlinear_arith)
        requires
            cw == board.width * s,
    ;
    assert(s * board.height == ch) by (nonlinear_arith)
        requires
            ch == board.height * s,
    ;
    lemma_cell_of_flat_index(px, s, board.width as int);
    lemma_cell_of_flat_index(py, s, board.height as int);
    let pixel = py * cw + px;
    let i = frame_index(board, scale, px, py, channel);
    assert(i == pixel * 4 + channel);
    assert(i / 4 == pixel);
    assert(i % 4 == channel);
    assert(frame_len(board, scale) == cw * ch * 4);
}

/// At any scale a cell is drawn as a square of `scale` by `scale` pixels of
/// one colour: each pixel at an offset below `scale` from `(cx * scale,
/// cy * scale)` holds the shade of the cell at `(cx, cy)` three times and
/// then full opacity.
pub proof fn lemma_cell_fills_square(
    board: Board,
    scale: nat,
    cx: int,
    cy: int,
    dx: int,
    dy: int,
    channel: int,
)
    requires
        board.wf(),
        board.contains(cx, cy),
        0 <= dx < scale,
        0 <= dy < scale,
        0 <= channel < 4,
    ensures
        0 <= frame_index(board, scale, cx * scale + dx, cy * scale + dy, channel) < frame_len(
            board,
            scale,
        ),
        rendered(board, scale)[frame_index(
            board,
            scale,
            cx * scale + dx,
            cy * scale + dy,
            channel,
        )] == if channel == 3 {
            255u8
        } else {
            shade(board.alive(cx, cy))
        },
{
    let s = scale as int;
    lemma_flat_index_in_bounds(dx, cx, s, board.width as int);
    lemma_flat_index_in_bounds(dy, cy, s, board.height as int);
    assert(s * board.width == board.width * scale) by (nonlinear_arith)
        requires
            s == scale,
    ;
    assert(s * board.height == board.height * scale) by (nonlinear_arith)
        requires
            s == scale,
    ;
    lemma_flat_index_roundtrip(dx, cx, s);
    lemma_flat_index_roundtrip(dy, cy, s);
    lemma_pixel_shows_cell(board, scale, cx * s + dx, cy * s + dy, channel);
}

} // verus!
