use estoque_relogios::cursor::Cursor;

#[test]
fn cursor_starts_at_the_top() {
    let c = Cursor::new();
    assert_eq!(c, Cursor { offset: 0, selected: 0 });
}

#[test]
fn move_up_stops_at_the_top() {
    let mut c = Cursor::new();
    c.move_up();
    assert_eq!(c, Cursor { offset: 0, selected: 0 });
}

#[test]
fn move_up_scrolls_when_the_row_is_out_of_sight() {
    let mut c = Cursor { offset: 3, selected: 3 };
    c.move_up();
    assert_eq!(c, Cursor { offset: 2, selected: 2 });
    let mut c = Cursor { offset: 3, selected: 5 };
    c.move_up();
    assert_eq!(c, Cursor { offset: 3, selected: 4 });
}

#[test]
fn move_down_stops_at_the_last_row() {
    let mut c = Cursor::new();
    c.move_down(0, 5);
    assert_eq!(c, Cursor { offset: 0, selected: 0 });
    c.move_down(1, 5);
    assert_eq!(c, Cursor { offset: 0, selected: 0 });
    c.move_down(2, 5);
    assert_eq!(c, Cursor { offset: 0, selected: 1 });
    c.move_down(2, 5);
    assert_eq!(c, Cursor { offset: 0, selected: 1 });
}

#[test]
fn move_down_scrolls_past_the_window() {
    let mut c = Cursor::new();
    for _ in 0..4 {
        c.move_down(10, 5);
    }
    assert_eq!(c, Cursor { offset: 0, selected: 4 });
    c.move_down(10, 5);
    assert_eq!(c, Cursor { offset: 1, selected: 5 });
    for _ in 0..10 {
        c.move_down(10, 5);
    }
    assert_eq!(c, Cursor { offset: 5, selected: 9 });
}

#[test]
fn reclamp_brings_the_cursor_into_a_shorter_list() {
    let mut c = Cursor { offset: 5, selected: 9 };
    c.reclamp(7);
    assert_eq!(c, Cursor { offset: 5, selected: 6 });
    c.reclamp(3);
    assert_eq!(c, Cursor { offset: 2, selected: 2 });
    c.reclamp(10);
    assert_eq!(c, Cursor { offset: 2, selected: 2 });
}

#[test]
fn reclamp_to_an_empty_list_goes_to_the_top() {
    let mut c = Cursor { offset: 5, selected: 9 };
    c.reclamp(0);
    assert_eq!(c, Cursor { offset: 0, selected: 0 });
}

#[test]
fn cursor_stays_in_list_and_window_after_any_run() {
    // A fixed run of pseudo-random operations.
    let height = 5;
    let mut n: usize = 12;
    let mut c = Cursor::new();
    let mut seed: u32 = 12345;
    for _ in 0..5000 {
        seed = seed.wrapping_mul(1103515245).wrapping_add(12345);
        match (seed >> 16) % 4 {
            0 => c.move_up(),
            1 | 2 => c.move_down(n, height),
            _ => {
                n = ((seed >> 8) % 20) as usize;
                c.reclamp(n);
            }
        }
        if n > 0 {
            assert!(c.selected < n);
        }
        assert!(c.offset <= c.selected);
        assert!(c.selected < c.offset + height);
    }
}

#[test]
fn window_is_a_range_of_the_list() {
    let c = Cursor { offset: 2, selected: 3 };
    assert_eq!(c.window(10, 4), (2, 6));
    assert_eq!(c.window(5, 4), (2, 5));
    assert_eq!(c.window(1, 4), (1, 1));
    assert_eq!(c.window(0, 4), (0, 0));
    assert_eq!(c.window(10, 0), (2, 2));
    assert_eq!(c.window(10, usize::MAX), (2, 10));
}
