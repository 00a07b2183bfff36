use amp::SelectableVec;

#[test]
fn selection_returns_none_when_the_set_is_empty() {
    let selectable_vec: SelectableVec<usize> = SelectableVec::new(Vec::new());
    assert!(selectable_vec.selection().is_none());
}

#[test]
fn selection_returns_selected_element() {
    let mut selectable_vec: SelectableVec<usize> = SelectableVec::new(vec![0, 1, 2]);
    selectable_vec.select_next();
    assert_eq!(selectable_vec.selection(), Some(&1));
}

#[test]
fn select_next_wraps_at_end_of_set() {
    let mut selectable_vec: SelectableVec<usize> = SelectableVec::new(vec![0, 1]);
    selectable_vec.select_next();
    selectable_vec.select_next();
    assert_eq!(selectable_vec.selection(), Some(&0));
}

#[test]
fn select_previous_wraps_at_start_of_set() {
    let mut selectable_vec: SelectableVec<usize> = SelectableVec::new(vec![0, 1]);
    selectable_vec.select_previous();
    assert_eq!(selectable_vec.selection(), Some(&1));
}

#[test]
fn set_selected_index_works_when_in_range() {
    let mut selectable_vec: SelectableVec<usize> = SelectableVec::new(vec![0, 1]);
    assert_eq!(selectable_vec.selected_index(), 0);
    selectable_vec.set_selected_index(1).unwrap();
    assert_eq!(selectable_vec.selected_index(), 1);
}

#[test]
fn set_selected_index_rejects_values_outside_range() {
    let mut selectable_vec: SelectableVec<usize> = SelectableVec::new(vec![0, 1]);
    assert_eq!(selectable_vec.selected_index(), 0);
    assert!(selectable_vec.set_selected_index(2).is_err());
    assert_eq!(selectable_vec.selected_index(), 0);
}

#[test]
fn select_next_then_previous_returns_to_the_same_element() {
    let mut selectable_vec: SelectableVec<usize> = SelectableVec::new(vec![4, 5, 6]);
    selectable_vec.set_selected_index(2).unwrap();
    selectable_vec.select_next();
    assert_eq!(selectable_vec.selection(), Some(&4));
    selectable_vec.select_previous();
    assert_eq!(selectable_vec.selection(), Some(&6));
}

#[test]
fn select_next_cycles_through_every_element() {
    let mut selectable_vec: SelectableVec<usize> = SelectableVec::new(vec![7, 8, 9]);
    selectable_vec.select_next();
    selectable_vec.select_next();
    selectable_vec.select_next();
    assert_eq!(selectable_vec.selected_index(), 0);
    assert_eq!(selectable_vec.len(), 3);
    assert_eq!(selectable_vec.get(1), Some(&8));
    assert_eq!(selectable_vec.get(3), None);
}
