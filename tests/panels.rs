use camterm::models::{Cell, CellPanel, Color};
use camterm::utils::{
    find_substr, generate_cell_line, grid_chars, overflow_sub, parse_cell_from_neighbors,
    write_cell_panels_with_border, ComposeError,
};

fn strings(lines: &[&str]) -> Vec<String> {
    lines.iter().map(|s| s.to_string()).collect()
}

fn row_text(row: &[Cell]) -> String {
    row.iter().map(|c| c.char).collect()
}

#[test]
fn fitted_buffer_shape_and_padding() {
    let panel = CellPanel::from_strings(&strings(&["abcdefgh", "", "xy"]), 3, 6, 1, 1);
    let rows: Vec<String> = panel.fitted_buffer.iter().map(|r| row_text(r)).collect();
    assert_eq!(rows, vec!["abc", "def", "gh ", "   ", "xy ", "   "]);
    for row in panel.fitted_buffer.iter() {
        assert_eq!(row.len(), 3);
    }
    assert_eq!(panel.index, 0);
    assert_eq!(panel.box_color, None);
}

#[test]
fn fitted_buffer_keeps_long_content() {
    let panel = CellPanel::from_strings(&strings(&["a", "b", "c", "d"]), 2, 2, 1, 1);
    assert_eq!(panel.fitted_buffer.len(), 4);
    assert!(panel.fitted_buffer.len() >= panel.height);
}

#[test]
fn fitted_buffer_of_nothing_is_blank() {
    let panel = CellPanel::from_strings(&Vec::new(), 4, 3, 1, 1);
    assert_eq!(panel.fitted_buffer.len(), 3);
    for row in panel.fitted_buffer.iter() {
        assert_eq!(row, &vec![Cell::default(); 4]);
    }
}

#[test]
fn fit_buffer_twice_is_same() {
    let mut panel = CellPanel::from_strings(&strings(&["hello world", "x"]), 4, 5, 1, 1);
    panel.fit_buffer();
    let first = panel.fitted_buffer.clone();
    let cells = panel.cells.clone();
    panel.fit_buffer();
    assert_eq!(panel.fitted_buffer, first);
    assert_eq!(panel.cells, cells);
}

#[test]
fn update_from_strings_refits() {
    let mut panel = CellPanel::from_strings(&strings(&["abc"]), 3, 2, 5, 6);
    panel.index = 1;
    panel.update_from_strings(&strings(&["xyzw"]));
    let rows: Vec<String> = panel.fitted_buffer.iter().map(|r| row_text(r)).collect();
    assert_eq!(rows, vec!["xyz", "w  "]);
    assert_eq!((panel.offset_x, panel.offset_y, panel.index), (5, 6, 1));
}

#[test]
fn write_to_buffer_places_rows() {
    let panel = CellPanel::from_strings(&strings(&["ab", "cd", "ef"]), 2, 2, 1, 1);
    let mut grid = vec![vec![Cell::default(); 4]; 4];
    panel.write_to_buffer(&mut grid);
    assert_eq!(row_text(&grid[1]), " ab ");
    assert_eq!(row_text(&grid[2]), " cd ");
    assert_eq!(row_text(&grid[3]), "    ");
}

#[test]
fn write_to_buffer_scrolled_past_end_writes_nothing() {
    let mut panel = CellPanel::from_strings(&strings(&["ab", "cd", "ef"]), 2, 2, 0, 0);
    panel.index = 10;
    let mut grid = vec![vec![Cell::new('.'); 2]; 2];
    panel.write_to_buffer(&mut grid);
    assert_eq!(row_text(&grid[0]), "..");
    assert_eq!(row_text(&grid[1]), "..");
    panel.index = 2;
    panel.write_to_buffer(&mut grid);
    assert_eq!(row_text(&grid[0]), "ef");
    assert_eq!(row_text(&grid[1]), "..");
}

#[test]
fn zero_height_panel_composites_to_touching_frame_rows() {
    let panel = CellPanel::from_strings(&Vec::new(), 2, 0, 1, 1);
    assert_eq!(panel.fitted_buffer.len(), 0);
    let grid = write_cell_panels_with_border(&[panel], 5, 3).unwrap();
    let rows: Vec<String> = grid.iter().map(|r| row_text(r)).collect();
    assert_eq!(rows, vec!["┏┳┳┓ ", "┗┻┻┛ ", "     "]);
}

#[test]
fn round_trip_single_panel() {
    let lines = strings(&["hi", "abc"]);
    let panel = CellPanel::from_strings(&lines, 4, 2, 2, 1);
    let grid = write_cell_panels_with_border(&[panel], 8, 5).unwrap();
    for (row, line) in lines.iter().enumerate() {
        for (col, c) in line.chars().enumerate() {
            assert_eq!(grid[1 + row][2 + col].char, c);
        }
    }
}

#[test]
fn composited_grid_is_rectangular() {
    let panel = CellPanel::from_strings(&strings(&["hi"]), 4, 2, 2, 1);
    let grid = write_cell_panels_with_border(&[panel], 8, 5).unwrap();
    assert_eq!(grid.len(), 5);
    for row in grid.iter() {
        assert_eq!(row.len(), 8);
    }
}

#[test]
fn single_panel_gets_a_box() {
    let panel = CellPanel::from_strings(&strings(&["ab"]), 2, 1, 1, 1);
    let grid = write_cell_panels_with_border(&[panel], 5, 4).unwrap();
    let rows: Vec<String> = grid.iter().map(|r| row_text(r)).collect();
    assert_eq!(rows, vec!["┏━━┓ ", "┃ab┃ ", "┗━━┛ ", "     "]);
}

#[test]
fn shared_border_gets_junctions() {
    let left = CellPanel::from_strings(&strings(&["ab"]), 2, 1, 1, 1);
    let right = CellPanel::from_strings(&strings(&["cd"]), 2, 1, 4, 1);
    let grid = write_cell_panels_with_border(&[left, right], 8, 4).unwrap();
    let rows: Vec<String> = grid.iter().map(|r| row_text(r)).collect();
    assert_eq!(rows, vec!["┏━━┳━━┓ ", "┃ab┃cd┃ ", "┗━━┻━━┛ ", "        "]);
}

#[test]
fn stacked_panels_get_side_junctions() {
    let top = CellPanel::from_strings(&strings(&["ab"]), 2, 1, 1, 1);
    let bottom = CellPanel::from_strings(&strings(&["cd"]), 2, 1, 1, 3);
    let grid = write_cell_panels_with_border(&[top, bottom], 5, 6).unwrap();
    let rows: Vec<String> = grid.iter().map(|r| row_text(r)).collect();
    assert_eq!(rows, vec!["┏━━┓ ", "┃ab┃ ", "┣━━┫ ", "┃cd┃ ", "┗━━┛ ", "     "]);
}

#[test]
fn compose_twice_is_identical() {
    let a = CellPanel::from_strings(&strings(&["ab"]), 2, 1, 1, 1);
    let b = CellPanel::from_strings(&strings(&["cd"]), 2, 1, 4, 1);
    let panels = [a, b];
    let first = write_cell_panels_with_border(&panels, 8, 4).unwrap();
    let second = write_cell_panels_with_border(&panels, 8, 4).unwrap();
    assert_eq!(first, second);
}

#[test]
fn border_glyphs_do_not_depend_on_content() {
    let a = [CellPanel::from_strings(&strings(&["ab"]), 2, 1, 1, 1)];
    let b = [CellPanel::from_strings(&strings(&["zz"]), 2, 1, 1, 1)];
    let ga = write_cell_panels_with_border(&a, 5, 4).unwrap();
    let gb = write_cell_panels_with_border(&b, 5, 4).unwrap();
    for (y, x) in [(0, 0), (0, 1), (0, 3), (1, 0), (1, 3), (2, 0), (2, 2), (2, 3)] {
        assert_eq!(ga[y][x].char, gb[y][x].char);
    }
}

#[test]
fn compose_rejects_panel_without_margin() {
    let bad = CellPanel::from_strings(&strings(&["ab"]), 2, 1, 0, 1);
    assert_eq!(write_cell_panels_with_border(&[bad], 5, 4), Err(ComposeError::PanelOutOfBounds { panel: 0 }));
    let good = CellPanel::from_strings(&strings(&["ab"]), 2, 1, 1, 1);
    let too_wide = CellPanel::from_strings(&strings(&["ab"]), 4, 1, 1, 1);
    assert_eq!(
        write_cell_panels_with_border(&[good, too_wide], 5, 4),
        Err(ComposeError::PanelOutOfBounds { panel: 1 })
    );
    let too_low = CellPanel::from_strings(&strings(&["ab"]), 2, 2, 1, 2);
    assert_eq!(write_cell_panels_with_border(&[too_low], 5, 4), Err(ComposeError::PanelOutOfBounds { panel: 0 }));
}

#[test]
fn box_colour_first_panel_wins() {
    let mut a = CellPanel::from_strings(&strings(&["ab"]), 2, 1, 1, 1);
    a.box_color = Some(Color::White);
    let mut b = CellPanel::from_strings(&strings(&["cd"]), 2, 1, 4, 1);
    b.box_color = Some(Color::DarkGreen);
    let grid = write_cell_panels_with_border(&[a, b], 8, 4).unwrap();
    assert_eq!(grid[1][0].foreground_color, Color::White);
    assert_eq!(grid[1][3].foreground_color, Color::White);
    assert_eq!(grid[1][6].foreground_color, Color::DarkGreen);
    assert_eq!(grid[1][1].foreground_color, Color::Green);
}

#[test]
fn box_colour_applies_over_default_frame() {
    let a = CellPanel::from_strings(&strings(&["ab"]), 2, 1, 1, 1);
    let mut b = CellPanel::from_strings(&strings(&["cd"]), 2, 1, 4, 1);
    b.box_color = Some(Color::White);
    let grid = write_cell_panels_with_border(&[a, b], 8, 4).unwrap();
    assert_eq!(grid[1][0].foreground_color, Color::Green);
    assert_eq!(grid[1][3].foreground_color, Color::White);
}

#[test]
fn glyph_table() {
    let table = [
        ((true, true, false, false), '┃'),
        ((false, false, true, true), '━'),
        ((true, true, false, true), '┣'),
        ((true, true, true, false), '┫'),
        ((true, false, true, true), '┻'),
        ((false, true, true, true), '┳'),
        ((true, true, true, true), '╋'),
        ((false, true, false, true), '┏'),
        ((false, true, true, false), '┓'),
        ((true, false, false, true), '┗'),
        ((true, false, true, false), '┛'),
    ];
    for ((u, d, l, r), c) in table {
        assert_eq!(parse_cell_from_neighbors(u, d, l, r), Some(c));
    }
    let mut some = 0;
    for bits in 0..16u8 {
        let (u, d, l, r) = (bits & 1 != 0, bits & 2 != 0, bits & 4 != 0, bits & 8 != 0);
        if parse_cell_from_neighbors(u, d, l, r).is_some() {
            some += 1;
        } else {
            assert!((u as u8 + d as u8 + l as u8 + r as u8) < 2);
        }
    }
    assert_eq!(some, 11);
}

#[test]
fn overflow_sub_wraps() {
    assert_eq!(overflow_sub(&0, 5), 4);
    assert_eq!(overflow_sub(&3, 5), 2);
    assert_eq!(overflow_sub(&0, 1), 0);
}

#[test]
fn find_substr_in_cells() {
    let line = generate_cell_line("hello world");
    assert_eq!(find_substr(&line, "world"), Some(6));
    assert_eq!(find_substr(&line, "hello"), Some(0));
    assert_eq!(find_substr(&line, "xyz"), None);
    assert_eq!(find_substr(&line, "hello world!"), None);
}

#[test]
fn cell_line_and_grid_chars() {
    let line = generate_cell_line("aé");
    assert_eq!(line, vec![Cell::new('a'), Cell::new('é')]);
    assert_eq!(line[0].foreground_color, Color::Green);
    let grid = vec![line, generate_cell_line("")];
    assert_eq!(grid_chars(&grid), vec![vec!['a', 'é'], vec![]]);
}
