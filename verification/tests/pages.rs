use cross_section_ui::pages::{
    current_page_sections, decimal_chars, dekigata_drawing_number, grid_cell, max_fitting, page_count,
    page_drawing_number, page_ranges, recalc_pages, rows_per_column,
};

#[test]
fn page_count_rounds_up() {
    assert_eq!(page_count(0, 6), 0);
    assert_eq!(page_count(6, 6), 1);
    assert_eq!(page_count(7, 6), 2);
    assert_eq!(page_count(13, 6), 3);
    assert_eq!(page_count(usize::MAX, 2), usize::MAX / 2 + 1);
}

#[test]
fn page_ranges_tile_the_sections() {
    assert_eq!(page_ranges(13, 6), vec![(0, 6), (6, 12), (12, 13)]);
    assert_eq!(page_ranges(12, 6), vec![(0, 6), (6, 12)]);
    assert_eq!(page_ranges(0, 6), Vec::<(usize, usize)>::new());
}

#[test]
fn current_page_slices() {
    let f: Vec<usize> = (0..10).collect();
    assert_eq!(current_page_sections(&f, 1, 4, 0), f);
    assert_eq!(current_page_sections(&f, 3, 0, 2), f);
    assert_eq!(current_page_sections(&f, 3, 4, 1), vec![4, 5, 6, 7]);
    assert_eq!(current_page_sections(&f, 3, 4, 2), vec![8, 9]);
}

#[test]
fn recalc_pages_cases() {
    let r = recalc_pages(0, Some(4), 3);
    assert_eq!((r.sections_per_page, r.total_pages, r.current_page), (0, 1, 0));
    let r = recalc_pages(10, None, 3);
    assert_eq!((r.sections_per_page, r.total_pages, r.current_page), (10, 1, 0));
    let r = recalc_pages(10, Some(4), 1);
    assert_eq!((r.sections_per_page, r.total_pages, r.current_page), (4, 3, 1));
    let r = recalc_pages(10, Some(4), 7);
    assert_eq!((r.sections_per_page, r.total_pages, r.current_page), (4, 3, 2));
    let r = recalc_pages(10, Some(0), 7);
    assert_eq!((r.sections_per_page, r.total_pages, r.current_page), (0, 1, 0));
}

#[test]
fn drawing_numbers() {
    assert_eq!(page_drawing_number("001", 0, 1), "001");
    assert_eq!(page_drawing_number("001", 1, 3), "001-2");
    assert_eq!(page_drawing_number("001", 9, 12), "001-10");
    assert_eq!(dekigata_drawing_number("", 0, 5), "1/5");
    assert_eq!(dekigata_drawing_number("A", 4, 5), "A-5/5");
    assert_eq!(dekigata_drawing_number("B", 99, 120), "B-100/120");
}

#[test]
fn decimal_digits() {
    let s = |n: usize| decimal_chars(n).into_iter().collect::<String>();
    assert_eq!(s(0), "0");
    assert_eq!(s(7), "7");
    assert_eq!(s(10), "10");
    assert_eq!(s(4096), "4096");
    assert_eq!(s(usize::MAX), usize::MAX.to_string());
}

#[test]
fn grid_cells_fill_columns() {
    let rpc = rows_per_column(10, 4);
    assert_eq!(rpc, 3);
    assert_eq!(grid_cell(0, rpc), (0, 0));
    assert_eq!(grid_cell(2, rpc), (0, 2));
    assert_eq!(grid_cell(3, rpc), (1, 0));
    assert_eq!(grid_cell(9, rpc), (3, 0));
}

#[test]
fn largest_fitting_count() {
    assert_eq!(max_fitting(&vec![]), 1);
    assert_eq!(max_fitting(&vec![Some(true), Some(true), Some(false), Some(true)]), 2);
    assert_eq!(max_fitting(&vec![Some(false), Some(true)]), 1);
    assert_eq!(max_fitting(&vec![Some(true), None, Some(true), None]), 3);
    assert_eq!(max_fitting(&vec![None, None]), 1);
}
