use logview::scroll::ScrollState;

fn state(selected: usize, scroll_offset: usize, visible_rows: usize) -> ScrollState {
    ScrollState { selected, scroll_offset, visible_rows }
}

#[test]
fn new_state() {
    let s = ScrollState::new();
    assert_eq!((s.selected, s.scroll_offset, s.visible_rows), (0, 0, 20));
}

#[test]
fn step_moves() {
    let mut s = state(0, 0, 10);
    s.next(3);
    assert_eq!(s.selected, 1);
    s.next(3);
    s.next(3);
    assert_eq!(s.selected, 2);
    s.next(0);
    assert_eq!(s.selected, 2);
    s.prev();
    assert_eq!(s.selected, 1);
    s.prev();
    s.prev();
    assert_eq!(s.selected, 0);
    s.scroll_offset = 4;
    s.first();
    assert_eq!((s.selected, s.scroll_offset), (0, 0));
    s.last(7);
    assert_eq!(s.selected, 6);
    s.last(0);
    assert_eq!(s.selected, 6);
}

#[test]
fn page_moves() {
    let mut s = state(0, 0, 10);
    s.page_down(100);
    assert_eq!(s.selected, 8);
    s.page_down(12);
    assert_eq!(s.selected, 11);
    s.page_down(0);
    assert_eq!(s.selected, 0);
    s.selected = 20;
    s.page_up();
    assert_eq!(s.selected, 12);
    s.visible_rows = 2;
    s.page_up();
    assert_eq!(s.selected, 11);
    s.page_down(usize::MAX);
    assert_eq!(s.selected, 12);
    s.selected = usize::MAX - 1;
    s.visible_rows = 20;
    s.page_down(usize::MAX);
    assert_eq!(s.selected, usize::MAX - 1);
    s.page_up();
    assert_eq!(s.selected, usize::MAX - 19);
    s.selected = 3;
    s.page_up();
    assert_eq!(s.selected, 0);
}

#[test]
fn clamp_scrolls_up_to_selection() {
    let mut s = state(2, 5, 10);
    s.clamp(20, |_| 1);
    assert_eq!(s.scroll_offset, 2);
    assert_eq!(s.selected, 2);
}

#[test]
fn clamp_scrolls_down_to_selection() {
    let mut s = state(15, 0, 10);
    s.clamp(20, |_| 1);
    // rows 6..=15 fill the ten lines
    assert_eq!(s.scroll_offset, 6);
}

#[test]
fn clamp_keeps_visible_selection() {
    let mut s = state(5, 2, 10);
    s.clamp(20, |_| 1);
    assert_eq!(s.scroll_offset, 2);
}

#[test]
fn clamp_with_tall_rows() {
    // row 3 takes 6 lines, the others one
    let h = |r: usize| if r == 3 { 6 } else { 1 };
    let mut s = state(4, 0, 5);
    s.clamp(10, h);
    // from row 0: rows 0,1,2 fit (3 lines), row 3 does not; selection 4 is below
    // going up from 4: row 4 (1), row 3 would make 7 > 5
    assert_eq!(s.scroll_offset, 4);
    let mut t = state(3, 0, 5);
    t.clamp(10, h);
    // row 3 alone is taller than the viewport: it becomes the first row
    assert_eq!(t.scroll_offset, 3);
    let mut u = state(3, 3, 5);
    u.clamp(10, h);
    assert_eq!(u.scroll_offset, 3);
}

#[test]
fn clamp_on_empty_list() {
    let mut s = state(0, 0, 10);
    s.clamp(0, |_| 1);
    assert_eq!(s.scroll_offset, 0);
}

#[test]
fn clamp_with_zero_lines() {
    let mut s = state(3, 0, 0);
    s.clamp(5, |_| 1);
    assert_eq!(s.scroll_offset, 3);
}

#[test]
fn clamping_twice_is_clamping_once() {
    let h = |r: usize| if r % 3 == 0 { 4 } else { 1 };
    for selected in 0..12 {
        for offset in 0..12 {
            let mut s = state(selected, offset, 5);
            s.clamp(12, h);
            let once = s.scroll_offset;
            s.clamp(12, h);
            assert_eq!(s.scroll_offset, once);
            assert!(s.scroll_offset <= selected);
        }
    }
}

#[test]
fn clamp_asks_only_rows_in_range() {
    let total = 8;
    let h = |r: usize| {
        assert!(r < total, "row {r} asked");
        if r == 2 { 3 } else { 1 }
    };
    for selected in 0..total {
        for offset in 0..12 {
            let mut s = state(selected, offset, 4);
            s.clamp(total, h);
            assert!(s.scroll_offset <= selected);
            if selected < offset {
                assert_eq!(s.scroll_offset, selected);
            }
        }
    }
}
