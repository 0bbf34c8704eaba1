use heatmap::{
    create_gradient, load_grid, min_max, parse_field, parse_grid, render_heatmap, render_row,
    scale_index, LoadError, Rgb,
};

fn cell(v: u8) -> String {
    format!("\x1b[48;2;{};{};{}m  ", v, v, v)
}

#[test]
fn scenario_two_by_two() {
    let grid = load_grid(b"0,128\n255,64\n").unwrap();
    assert_eq!(grid, vec![vec![0, 128], vec![255, 64]]);
    let (min, max) = min_max(&grid);
    assert_eq!((min, max), (0, 255));
    assert_eq!(scale_index(0, min, max), 0);
    assert_eq!(scale_index(128, min, max), 128);
    assert_eq!(scale_index(255, min, max), 255);
    assert_eq!(scale_index(64, min, max), 64);
    let gradient = create_gradient();
    let lines = render_heatmap(&grid, min, max, &gradient);
    assert_eq!(lines.len(), 2);
    assert_eq!(lines[0], format!("{}{}", cell(0), cell(128)));
    assert_eq!(lines[1], format!("{}{}", cell(255), cell(64)));
}

#[test]
fn malformed_text_field_is_rejected() {
    match load_grid(b"1,2\n3,abc\n") {
        Err(LoadError::Parse { row, column }) => assert_eq!((row, column), (1, 1)),
        other => panic!("expected a parse error, got {:?}", other),
    }
}

#[test]
fn out_of_range_field_is_rejected() {
    match load_grid(b"300,1\n") {
        Err(LoadError::Parse { row, column }) => assert_eq!((row, column), (0, 0)),
        other => panic!("expected a parse error, got {:?}", other),
    }
}

#[test]
fn first_bad_field_is_reported() {
    match load_grid(b"1,2,3\n4,-5,x\n") {
        Err(LoadError::Parse { row, column }) => assert_eq!((row, column), (1, 1)),
        other => panic!("expected a parse error, got {:?}", other),
    }
}

#[test]
fn rows_of_unequal_length_are_a_csv_error() {
    assert!(matches!(load_grid(b"1,2\n3\n"), Err(LoadError::Csv(_))));
}

#[test]
fn dimensions_and_order_are_kept() {
    let grid = load_grid(b"9,8,7\n6,5,4\n3,2,1\n0,10,20\n").unwrap();
    assert_eq!(grid.len(), 4);
    for row in &grid {
        assert_eq!(row.len(), 3);
    }
    assert_eq!(grid[0], vec![9, 8, 7]);
    assert_eq!(grid[3], vec![0, 10, 20]);
}

#[test]
fn empty_text_gives_empty_grid() {
    let grid = load_grid(b"").unwrap();
    assert!(grid.is_empty());
    assert_eq!(min_max(&grid), (255, 0));
    let lines = render_heatmap(&grid, 255, 0, &create_gradient());
    assert!(lines.is_empty());
}

#[test]
fn field_parsing() {
    assert_eq!(parse_field(b"0"), Some(0));
    assert_eq!(parse_field(b"255"), Some(255));
    assert_eq!(parse_field(b"007"), Some(7));
    assert_eq!(parse_field(b"+42"), Some(42));
    assert_eq!(parse_field(b"000000000000255"), Some(255));
    assert_eq!(parse_field(b"256"), None);
    assert_eq!(parse_field(b"1000"), None);
    assert_eq!(parse_field(b""), None);
    assert_eq!(parse_field(b"+"), None);
    assert_eq!(parse_field(b"-0"), None);
    assert_eq!(parse_field(b" 1"), None);
    assert_eq!(parse_field(b"abc"), None);
    assert_eq!(parse_field(b"1.5"), None);
}

#[test]
fn parse_grid_keeps_shape() {
    let records = vec![vec![b"1".to_vec()], vec![], vec![b"2".to_vec(), b"3".to_vec()]];
    assert_eq!(parse_grid(&records).unwrap(), vec![vec![1], vec![], vec![2, 3]]);
}

#[test]
fn range_of_grid() {
    let grid = vec![vec![17, 3, 200], vec![], vec![90]];
    assert_eq!(min_max(&grid), (3, 200));
    assert_eq!(min_max(&[vec![], vec![]]), (255, 0));
    assert_eq!(min_max(&[vec![5]]), (5, 5));
}

#[test]
fn gradient_is_grayscale_and_increasing() {
    let gradient = create_gradient();
    assert_eq!(gradient.len(), 256);
    for (i, c) in gradient.iter().enumerate() {
        let v = i as u8;
        assert_eq!(*c, Rgb { red: v, green: v, blue: v });
    }
    for w in gradient.windows(2) {
        assert!(w[0].red < w[1].red && w[0].green < w[1].green && w[0].blue < w[1].blue);
    }
}

#[test]
fn index_rounds_to_nearest() {
    assert_eq!(scale_index(1, 0, 2), 128);
    assert_eq!(scale_index(1, 0, 3), 85);
    assert_eq!(scale_index(2, 0, 3), 170);
    assert_eq!(scale_index(10, 10, 20), 0);
    assert_eq!(scale_index(20, 10, 20), 255);
    assert_eq!(scale_index(11, 10, 20), 26);
    assert_eq!(scale_index(5, 10, 20), 0);
    assert_eq!(scale_index(30, 10, 20), 255);
}

#[test]
fn flat_grid_renders_one_color() {
    let grid = vec![vec![42, 42], vec![42]];
    let (min, max) = min_max(&grid);
    assert_eq!((min, max), (42, 42));
    let lines = render_heatmap(&grid, min, max, &create_gradient());
    assert_eq!(lines, vec![format!("{}{}", cell(0), cell(0)), cell(0)]);
}

#[test]
fn row_renders_colored_cells() {
    let mut gradient = create_gradient();
    gradient[255] = Rgb { red: 1, green: 20, blue: 255 };
    let line = render_row(&[9, 3], 3, 9, &gradient);
    assert_eq!(line, "\x1b[48;2;1;20;255m  \x1b[48;2;0;0;0m  ");
    assert_eq!(render_row(&[], 0, 1, &gradient), "");
}

#[test]
fn empty_field_is_rejected() {
    match load_grid(b"1,,2\n") {
        Err(LoadError::Parse { row, column }) => assert_eq!((row, column), (0, 1)),
        other => panic!("expected a parse error, got {:?}", other),
    }
}
