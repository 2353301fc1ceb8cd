use puzzle15::grid::Grid;
use puzzle15::render::{
    build_geometry, frame_action, render, FrameAction, SurfaceStatus, Vertex, BACKGROUND_TENTHS,
    STEPS_PER_UNIT, TILE_STEPS,
};

fn v(x: i32, y: i32) -> Vertex {
    Vertex { x, y }
}

fn to_ndc(vertex: Vertex) -> (f32, f32) {
    (vertex.x as f32 / STEPS_PER_UNIT as f32, vertex.y as f32 / STEPS_PER_UNIT as f32)
}

#[test]
fn a_step_is_a_quarter_unit() {
    assert_eq!(STEPS_PER_UNIT, 4);
}

#[test]
fn solved_grid_draws_fifteen_tiles() {
    let grid = Grid::new();
    let vertices = build_geometry(&grid);
    assert_eq!(vertices.len(), 90);
    assert_eq!(vertices.len(), (4 * 4 - 1) * 6);
}

#[test]
fn first_tile_covers_the_top_left_cell() {
    let grid = Grid::new();
    let vertices = build_geometry(&grid);
    assert_eq!(
        &vertices[0..6],
        &[v(-4, 4), v(-2, 4), v(-2, 2), v(-4, 4), v(-2, 2), v(-4, 2)]
    );
}

#[test]
fn first_tile_in_normalized_device_coordinates() {
    let grid = Grid::new();
    let vertices = build_geometry(&grid);
    let quad: Vec<(f32, f32)> = vertices[0..6].iter().map(|&p| to_ndc(p)).collect();
    assert_eq!(
        quad,
        vec![(-1.0, 1.0), (-0.5, 1.0), (-0.5, 0.5), (-1.0, 1.0), (-0.5, 0.5), (-1.0, 0.5)]
    );
}

#[test]
fn tiles_come_in_row_major_order() {
    let grid = Grid::new();
    let vertices = build_geometry(&grid);
    // The second tile is cell (1, 0), the fifth is cell (0, 1).
    assert_eq!(vertices[6], v(-2, 4));
    assert_eq!(vertices[6 + 2], v(0, 2));
    assert_eq!(vertices[4 * 6], v(-4, 2));
    assert_eq!(vertices[4 * 6 + 2], v(-2, 0));
    // The last tile drawn is cell (2, 3).
    assert_eq!(
        &vertices[84..90],
        &[v(0, -2), v(2, -2), v(2, -4), v(0, -2), v(2, -4), v(0, -4)]
    );
}

#[test]
fn every_quad_is_two_triangles_over_one_cell() {
    let mut grid = Grid::new();
    assert!(grid.try_move((3, 2)));
    assert!(grid.try_move((2, 2)));
    let vertices = build_geometry(&grid);
    assert_eq!(vertices.len(), 90);
    let mut quad = 0;
    for row in 0..4i32 {
        for col in 0..4i32 {
            if grid.tile_at((col as usize, row as usize)) == 0 {
                continue;
            }
            let left = -4 + 2 * col;
            let top = 4 - 2 * row;
            let expected = [
                v(left, top),
                v(left + 2, top),
                v(left + 2, top - 2),
                v(left, top),
                v(left + 2, top - 2),
                v(left, top - 2),
            ];
            assert_eq!(&vertices[quad * 6..quad * 6 + 6], &expected);
            quad += 1;
        }
    }
    assert_eq!(quad, 15);
}

#[test]
fn empty_slot_leaves_a_gap() {
    let mut grid = Grid::new();
    assert!(grid.try_move((3, 2)));
    assert!(grid.try_move((2, 2)));
    assert_eq!(grid.empty_pos(), (2, 2));
    let vertices = build_geometry(&grid);
    // No quad starts at the top-left corner of cell (2, 2), which is (0, 0).
    for quad in vertices.chunks(6) {
        assert_ne!(quad[0], v(0, 0));
    }
    // Cell (3, 3) is drawn now.
    assert_eq!(vertices[84], v(2, -2));
}

#[test]
fn all_vertices_lie_in_the_device_square() {
    let mut grid = Grid::new();
    grid.shuffle();
    for vertex in build_geometry(&grid) {
        let (x, y) = to_ndc(vertex);
        assert!((-1.0..=1.0).contains(&x));
        assert!((-1.0..=1.0).contains(&y));
    }
}

#[test]
fn vertex_count_is_ninety_wherever_the_gap_is() {
    for _ in 0..20 {
        let mut grid = Grid::new();
        grid.shuffle();
        assert_eq!(build_geometry(&grid).len(), 90);
    }
}

#[test]
fn only_an_acquired_frame_is_drawn() {
    assert_eq!(frame_action(SurfaceStatus::Acquired), FrameAction::Draw);
    assert_eq!(frame_action(SurfaceStatus::Timeout), FrameAction::Skip);
    assert_eq!(frame_action(SurfaceStatus::OutOfMemory), FrameAction::SkipWithDiagnostic);
    assert_eq!(frame_action(SurfaceStatus::Outdated), FrameAction::SkipAndLog);
    assert_eq!(frame_action(SurfaceStatus::Lost), FrameAction::SkipAndLog);
}

#[test]
fn drawn_frame_carries_the_geometry() {
    let grid = Grid::new();
    let frame = render(&grid, SurfaceStatus::Acquired);
    assert_eq!(frame.action, FrameAction::Draw);
    assert_eq!(frame.vertices, build_geometry(&grid));
    assert_eq!(frame.vertex_count, 90);
    assert_eq!(frame.vertex_count as usize, frame.vertices.len());
}

#[test]
fn skipped_frame_generates_no_geometry() {
    let grid = Grid::new();
    for status in [
        SurfaceStatus::Timeout,
        SurfaceStatus::Outdated,
        SurfaceStatus::Lost,
        SurfaceStatus::OutOfMemory,
    ] {
        let frame = render(&grid, status);
        assert_ne!(frame.action, FrameAction::Draw);
        assert_eq!(frame.action, frame_action(status));
        assert!(frame.vertices.is_empty());
        assert_eq!(frame.vertex_count, 0);
    }
}

#[test]
fn geometry_matches_the_floating_point_formula() {
    // Tile size 2 / N; top-left of cell (x, y) at (-1 + x * s, 1 - y * s).
    let mut grid = Grid::new();
    grid.shuffle();
    let tile_size = 2.0 / 4.0_f32;
    let mut expected: Vec<(f32, f32)> = Vec::new();
    for y in 0..4usize {
        for x in 0..4usize {
            if grid.tile_at((x, y)) != 0 {
                let top_left_x = -1.0 + x as f32 * tile_size;
                let top_left_y = 1.0 - y as f32 * tile_size;
                let bottom_right_x = top_left_x + tile_size;
                let bottom_right_y = top_left_y - tile_size;
                expected.push((top_left_x, top_left_y));
                expected.push((bottom_right_x, top_left_y));
                expected.push((bottom_right_x, bottom_right_y));
                expected.push((top_left_x, top_left_y));
                expected.push((bottom_right_x, bottom_right_y));
                expected.push((top_left_x, bottom_right_y));
            }
        }
    }
    let found: Vec<(f32, f32)> = build_geometry(&grid).into_iter().map(to_ndc).collect();
    assert_eq!(found, expected);
}

#[test]
fn background_is_light_grey() {
    assert_eq!(BACKGROUND_TENTHS, [9, 9, 9, 10]);
    let channels: Vec<f64> = BACKGROUND_TENTHS.iter().map(|&c| c as f64 / 10.0).collect();
    assert_eq!(channels, vec![0.9, 0.9, 0.9, 1.0]);
}

#[test]
fn a_tile_is_two_steps_wide() {
    assert_eq!(TILE_STEPS, 2);
    assert_eq!(TILE_STEPS * 4, 2 * STEPS_PER_UNIT);
}
