use arcade_desktop::grid::{reduce_frame, GridError, LEDCalculator, RGB};

fn triples(bytes: &[u8]) -> Vec<(u8, u8, u8)> {
    bytes.chunks(3).map(|c| (c[0], c[1], c[2])).collect()
}

#[test]
fn new_has_one_zeroed_cell_per_grid_position() {
    let calc = LEDCalculator::new(1920, 1080, 120).unwrap();
    assert_eq!(calc.grid.len(), 16 * 9);
    assert!(calc.grid.iter().all(|c| c.r == 0 && c.g == 0 && c.b == 0));
}

#[test]
fn new_rejects_cell_size_that_does_not_divide() {
    assert!(matches!(LEDCalculator::new(100, 120, 30), Err(GridError::InvalidDimensions)));
    assert!(matches!(LEDCalculator::new(120, 100, 30), Err(GridError::InvalidDimensions)));
}

#[test]
fn new_rejects_zero_sizes() {
    assert!(matches!(LEDCalculator::new(120, 120, 0), Err(GridError::InvalidDimensions)));
    assert!(matches!(LEDCalculator::new(0, 120, 60), Err(GridError::InvalidDimensions)));
    assert!(matches!(LEDCalculator::new(120, 0, 60), Err(GridError::InvalidDimensions)));
}

#[test]
fn saturate_adds_into_the_covering_cell() {
    let mut calc = LEDCalculator::new(4, 4, 2).unwrap();
    calc.saturate(3, 1, 10, 20, 30);
    calc.saturate(2, 0, 1, 2, 3);
    calc.saturate(1, 3, 7, 8, 9);
    assert_eq!((calc.grid[1].r, calc.grid[1].g, calc.grid[1].b), (11, 22, 33));
    assert_eq!((calc.grid[2].r, calc.grid[2].g, calc.grid[2].b), (7, 8, 9));
    assert_eq!((calc.grid[0].r, calc.grid[3].r), (0, 0));
}

#[test]
fn average_divides_by_cell_area() {
    let mut calc = LEDCalculator::new(4, 2, 2).unwrap();
    calc.saturate(0, 0, 100, 4, 7);
    calc.saturate(1, 1, 100, 4, 0);
    calc.saturate(2, 0, 3, 0, 0);
    calc.average();
    assert_eq!((calc.grid[0].r, calc.grid[0].g, calc.grid[0].b), (50, 2, 1));
    assert_eq!((calc.grid[1].r, calc.grid[1].g, calc.grid[1].b), (0, 0, 0));
}

#[test]
fn quadrant_frame_averages_to_its_color() {
    let (w, h) = (240usize, 240usize);
    let mut data = vec![0u8; 4 * w * h];
    for y in 0..h {
        for x in 0..w {
            let i = 4 * (y * w + x);
            data[i + 3] = 255;
            if x < 120 && y < 120 {
                data[i] = 255;
            }
        }
    }
    let mut calc = reduce_frame(w, h, 120, &data).unwrap();
    calc.average();
    let cells: Vec<(usize, usize, usize)> = calc.grid.iter().map(|c| (c.r, c.g, c.b)).collect();
    assert_eq!(cells, vec![(255, 0, 0), (0, 0, 0), (0, 0, 0), (0, 0, 0)]);
}

#[test]
fn reduce_frame_sums_each_cell() {
    // 4x2 frame, cells of 2: pixel values are their own pixel number.
    let mut data = Vec::new();
    for j in 0..8u8 {
        data.extend_from_slice(&[j, 2 * j, 1, 99]);
    }
    let calc = reduce_frame(4, 2, 2, &data).unwrap();
    assert_eq!((calc.grid[0].r, calc.grid[0].g, calc.grid[0].b), (0 + 1 + 4 + 5, 20, 4));
    assert_eq!((calc.grid[1].r, calc.grid[1].g, calc.grid[1].b), (2 + 3 + 6 + 7, 36, 4));
}

#[test]
fn reduce_frame_rejects_bad_cell_size() {
    let data = vec![0u8; 4 * 10 * 10];
    assert!(matches!(reduce_frame(10, 10, 3, &data), Err(GridError::InvalidDimensions)));
}

fn labelled_grid(gw: usize, gh: usize) -> LEDCalculator {
    let mut calc = LEDCalculator::new(gw, gh, 1).unwrap();
    for y in 0..gh {
        for x in 0..gw {
            calc.saturate(x, y, x + y * gw, 0, 0);
        }
    }
    calc
}

#[test]
fn two_by_two_walk_visits_every_border_cell_clockwise() {
    let calc = labelled_grid(2, 2);
    let mut buf = Vec::new();
    calc.write(8, &mut buf);
    let cells: Vec<u8> = triples(&buf).iter().map(|t| t.0).collect();
    // top (0,0),(1,0); right (1,0),(1,1); bottom (1,1),(0,1); left (0,1),(0,0)
    assert_eq!(cells, vec![0, 1, 1, 3, 3, 2, 2, 0]);
    for c in 0..4u8 {
        assert!(cells.contains(&c));
    }
}

#[test]
fn walk_with_uneven_spacing_uses_integer_steps() {
    // 3x2 grid: perimeter 10, count 4 gives a step of 2: positions 0, 2, 4, 6.
    let calc = labelled_grid(3, 2);
    let mut buf = vec![42];
    calc.write(4, &mut buf);
    assert_eq!(buf[0], 42);
    let cells: Vec<u8> = triples(&buf[1..]).iter().map(|t| t.0).collect();
    assert_eq!(cells, vec![0, 2, 5, 4]);
}

#[test]
fn write_with_zero_count_appends_nothing() {
    let calc = labelled_grid(2, 2);
    let mut buf = vec![1, 2];
    calc.write(0, &mut buf);
    assert_eq!(buf, vec![1, 2]);
}

#[test]
fn write_emits_low_bytes_of_each_channel() {
    let mut calc = LEDCalculator::new(1, 1, 1).unwrap();
    calc.saturate(0, 0, 256 + 5, 300, 7);
    let mut buf = Vec::new();
    calc.write(1, &mut buf);
    assert_eq!(buf, vec![5, 44, 7]);
}

#[test]
fn cloned_grid_keeps_cells() {
    let calc = labelled_grid(2, 2);
    let copy = calc.clone();
    let a: Vec<usize> = calc.grid.iter().map(|c| c.r).collect();
    let b: Vec<usize> = copy.grid.iter().map(|c| c.r).collect();
    assert_eq!(a, b);
    let _unused = RGB { r: 0, g: 0, b: 0 };
}
