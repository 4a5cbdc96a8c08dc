use hyperblow::files_view::{Area, FilesState};

fn area(y: u16) -> Area {
    Area { x: 0, y, width: 100, height: 30 }
}

#[test]
fn first_draw_places_ten_rows() {
    let mut state = FilesState::new();
    assert_eq!(state.get_top_index(), 0);
    assert_eq!(state.get_bottom_index(), 0);
    assert_eq!(state.get_scroll_state_current(), 0);
    assert_eq!(state.get_scroll_state_previous(), 0);
    state.advance(25, area(18));
    assert_eq!(state.get_top_index(), 0);
    assert_eq!(state.get_bottom_index(), 10);
    assert_eq!(state.rect, area(18));
}

#[test]
fn rows_follow_the_scroll_by_one() {
    let mut state = FilesState::new();
    state.advance(12, area(18));
    state.scrollGoingDown();
    state.advance(12, area(0));
    assert_eq!((state.get_top_index(), state.get_bottom_index()), (1, 11));
    assert_eq!(state.rect, area(18));
    state.set_scroll_state_previous(state.get_scroll_state_current());
    state.advance(12, area(18));
    assert_eq!((state.get_top_index(), state.get_bottom_index()), (1, 11));
    state.scrollGoingDown();
    state.advance(12, area(18));
    assert_eq!((state.get_top_index(), state.get_bottom_index()), (2, 12));
    state.advance(12, area(18));
    assert_eq!((state.get_top_index(), state.get_bottom_index()), (2, 12));
    state.set_scroll_state_previous(state.get_scroll_state_current());
    state.scrollGoingUp();
    assert_eq!(state.get_scroll_state_current(), 1);
    state.advance(12, area(18));
    assert_eq!((state.get_top_index(), state.get_bottom_index()), (1, 11));
    state.advance(12, area(18));
    assert_eq!((state.get_top_index(), state.get_bottom_index()), (0, 10));
    state.advance(12, area(18));
    assert_eq!((state.get_top_index(), state.get_bottom_index()), (0, 10));
}

#[test]
fn setters_set_one_field() {
    let mut state = FilesState::new();
    state.set_top_index(3);
    state.set_bottom_index(9);
    state.set_scroll_state_current(-4);
    state.set_scroll_state_previous(7);
    assert_eq!(state.get_top_index(), 3);
    assert_eq!(state.get_bottom_index(), 9);
    assert_eq!(state.get_scroll_state_current(), -4);
    assert_eq!(state.get_scroll_state_previous(), 7);
}

#[test]
fn click_below_the_header_falls_on_a_row() {
    let mut state = FilesState::new();
    state.advance(40, area(18));
    assert_eq!(state.clicked_row(17), None);
    assert_eq!(state.clicked_row(19), None);
    assert_eq!(state.clicked_row(20), Some(0));
    assert_eq!(state.clicked_row(24), Some(4));
    state.scrollGoingDown();
    state.advance(40, area(18));
    assert_eq!(state.clicked_row(20), Some(1));
    state.set_top_index(u16::MAX);
    state.rect = Area { x: 0, y: u16::MAX, width: 0, height: 0 };
    assert_eq!(state.clicked_row(u16::MAX), None);
    state.rect = area(0);
    assert_eq!(state.clicked_row(u16::MAX), Some(65535 + 65533));
}
