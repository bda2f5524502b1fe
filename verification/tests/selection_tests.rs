use game_of_life::engine::coords::Coords;
use game_of_life::ui::selection::Selection;

fn at(x: i32, y: i32) -> Coords {
    Coords { x, y }
}

#[test]
fn toggles_selected_coords() {
    let mut selection = Selection::default();
    selection.toggle(at(0, 0));
    assert!(selection.contains(at(0, 0)));

    selection.toggle(at(0, 0));
    assert!(selection.is_empty());
}

#[test]
fn moves_selection_by_delta() {
    let mut selection = Selection::default();
    selection.toggle(at(0, 0));
    selection.toggle(at(0, 1));
    selection.move_by(at(4, 1));
    assert_eq!(selection.len(), 2);
    assert!(selection.contains(at(4, 1)));
    assert!(selection.contains(at(4, 2)));
}

#[test]
fn recenters_selection_to_specified_coords() {
    let mut selection = Selection::default();
    selection.toggle(at(0, 0));
    selection.recenter_at(at(4, 5));
    assert_eq!(selection.len(), 1);
    assert!(selection.contains(at(4, 5)));

    let mut selection = Selection::default();
    selection.toggle(at(0, 0));
    selection.toggle(at(1, 1));
    selection.toggle(at(1, 2));
    selection.recenter_at(at(10, 1));

    assert_eq!(selection.len(), 3);
    assert!(selection.contains(at(10, 0)));
    assert!(selection.contains(at(11, 1)));
    assert!(selection.contains(at(11, 2)));
}

#[test]
fn does_nothing_when_selection_is_empty() {
    let mut selection = Selection::default();
    assert!(selection.is_empty());

    selection.recenter_at(at(4, 5));
    assert!(selection.is_empty());
}

#[test]
fn rotates_selection_around_center() {
    let mut selection = Selection::default();
    selection.toggle(at(1, 1));
    selection.toggle(at(2, 2));
    selection.toggle(at(3, 3));

    selection.rotate_right();
    assert_eq!(selection.len(), 3);
    assert!(selection.contains(at(3, 1)));
    assert!(selection.contains(at(2, 2)));
    assert!(selection.contains(at(1, 3)));

    selection.rotate_left();
    assert_eq!(selection.len(), 3);
    assert!(selection.contains(at(1, 1)));
    assert!(selection.contains(at(2, 2)));
    assert!(selection.contains(at(3, 3)));
}

#[test]
fn clears_the_whole_selection() {
    let mut selection = Selection::default();
    selection.toggle(at(2, 3));
    selection.toggle(at(4, 5));
    assert_eq!(selection.len(), 2);

    selection.clear();
    assert!(selection.is_empty());
    assert!(!selection.contains(at(2, 3)));
}

#[test]
fn iterates_over_selected_coords() {
    let mut selection = Selection::default();
    selection.toggle(at(7, 8));
    let listed = selection.iter();
    assert_eq!(listed.len(), 1);
    assert_eq!(listed[0], at(7, 8));
}
