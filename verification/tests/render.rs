use game_of_life::grid::Grid;
use game_of_life::render::draw;
use game_of_life::render::frame_size;
use game_of_life::render::RenderError;

const W: [u8; 4] = [255, 255, 255, 255];
const B: [u8; 4] = [0, 0, 0, 255];

fn pixels(rows: &[&[[u8; 4]]]) -> Vec<u8> {
    let mut bytes = Vec::new();
    for row in rows {
        for pixel in row.iter() {
            bytes.extend_from_slice(pixel);
        }
    }
    bytes
}

#[test]
fn render_maps_axes() {
    let grid = Grid::from_cells(2, 2, vec![true, false, false, true]).unwrap();
    let mut frame = vec![7u8; 16];
    assert_eq!(draw(&mut frame, &grid, 1), Ok(()));
    assert_eq!(frame, vec![255, 255, 255, 255, 0, 0, 0, 255, 0, 0, 0, 255, 255, 255, 255, 255]);
}

#[test]
fn render_is_row_major() {
    let mut grid = Grid::new(3, 2).unwrap();
    grid.set(2, 0, true);
    grid.set(0, 1, true);
    let mut frame = vec![9u8; 24];
    assert_eq!(draw(&mut frame, &grid, 1), Ok(()));
    assert_eq!(frame, pixels(&[&[B, B, W], &[W, B, B]]));
}

#[test]
fn render_scales_cells_to_squares() {
    let mut grid = Grid::new(3, 2).unwrap();
    grid.set(1, 0, true);
    grid.set(2, 1, true);
    let mut frame = vec![1u8; 6 * 4 * 4];
    assert_eq!(draw(&mut frame, &grid, 2), Ok(()));
    assert_eq!(
        frame,
        pixels(&[
            &[B, B, W, W, B, B],
            &[B, B, W, W, B, B],
            &[B, B, B, B, W, W],
            &[B, B, B, B, W, W],
        ])
    );
}

#[test]
fn render_square_matches_cell_at_scale_three() {
    let mut grid = Grid::new(4, 5).unwrap();
    grid.set(3, 4, true);
    grid.set(0, 2, true);
    grid.set(1, 0, true);
    let scale = 3;
    let mut frame = vec![0u8; 4 * 3 * 5 * 3 * 4];
    assert_eq!(draw(&mut frame, &grid, scale), Ok(()));
    for cy in 0..5 {
        for cx in 0..4 {
            let shade = if grid.get(cx, cy) { 255 } else { 0 };
            for dy in 0..scale {
                for dx in 0..scale {
                    let at = ((cy * scale + dy) * (4 * scale) + cx * scale + dx) * 4;
                    assert_eq!(&frame[at..at + 4], &[shade, shade, shade, 255]);
                }
            }
        }
    }
}

#[test]
fn render_rejects_short_buffer() {
    let grid = Grid::from_cells(2, 2, vec![true, true, true, true]).unwrap();
    let mut frame = vec![3u8; 15];
    assert_eq!(draw(&mut frame, &grid, 1), Err(RenderError::InvalidBufferSize));
    assert_eq!(frame, vec![3u8; 15]);
}

#[test]
fn render_rejects_long_buffer() {
    let grid = Grid::from_cells(2, 2, vec![true, true, true, true]).unwrap();
    let mut frame = vec![3u8; 20];
    assert_eq!(draw(&mut frame, &grid, 1), Err(RenderError::InvalidBufferSize));
    assert_eq!(frame, vec![3u8; 20]);
}

#[test]
fn render_rejects_buffer_for_other_scale() {
    let grid = Grid::new(2, 2).unwrap();
    let mut frame = vec![3u8; 16];
    assert_eq!(draw(&mut frame, &grid, 2), Err(RenderError::InvalidBufferSize));
    assert_eq!(frame, vec![3u8; 16]);
}

#[test]
fn render_rejects_size_beyond_the_machine() {
    let grid = Grid::new(2, 2).unwrap();
    let mut frame = vec![3u8; 16];
    assert_eq!(draw(&mut frame, &grid, usize::MAX), Err(RenderError::InvalidBufferSize));
    assert_eq!(draw(&mut frame, &grid, usize::MAX / 2), Err(RenderError::InvalidBufferSize));
    assert_eq!(frame, vec![3u8; 16]);
}

#[test]
fn render_at_scale_zero_is_empty() {
    let grid = Grid::new(2, 2).unwrap();
    let mut empty: Vec<u8> = Vec::new();
    assert_eq!(draw(&mut empty, &grid, 0), Ok(()));
    let mut frame = vec![3u8; 16];
    assert_eq!(draw(&mut frame, &grid, 0), Err(RenderError::InvalidBufferSize));
    assert_eq!(frame, vec![3u8; 16]);
}

#[test]
fn frame_size_is_four_bytes_a_pixel() {
    let grid = Grid::new(3, 2).unwrap();
    assert_eq!(frame_size(&grid, 1), Some(24));
    assert_eq!(frame_size(&grid, 2), Some(96));
    assert_eq!(frame_size(&grid, 5), Some(3 * 5 * 2 * 5 * 4));
    assert_eq!(frame_size(&grid, 0), Some(0));
    assert_eq!(frame_size(&grid, usize::MAX), None);
    assert_eq!(frame_size(&grid, usize::MAX / 3), None);
}

#[test]
fn render_overwrites_every_byte() {
    let grid = Grid::new(2, 1).unwrap();
    let mut frame = vec![77u8; 8];
    assert_eq!(draw(&mut frame, &grid, 1), Ok(()));
    assert_eq!(frame, pixels(&[&[B, B]]));
}
