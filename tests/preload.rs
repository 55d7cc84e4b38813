use avis_imgv::entry::{Entry, LoadState};
use avis_imgv::multi_gallery::MultiGallery;
use avis_imgv::single_gallery::{is_valid_for_preload, SingleGallery};
use avis_imgv::window::{get_vec_index_subtracted_by, get_vec_index_sum_by, window_contains};

fn paths(n: usize) -> Vec<String> {
    (0..n).map(|i| format!("/pics/img{i}.jpg")).collect()
}

fn spawn(p: &String) -> String {
    p.clone()
}

fn states<I>(g: &SingleGallery<I, String>) -> Vec<LoadState> {
    (0..g.len()).map(|i| g.entry(i).load_state()).collect()
}

fn resident_count(s: &[LoadState]) -> usize {
    s.iter()
        .filter(|x| **x == LoadState::Loading || **x == LoadState::Loaded)
        .count()
}

#[test]
fn wrapping_index_arithmetic() {
    assert_eq!(get_vec_index_subtracted_by(10, 1, 3), 8);
    assert_eq!(get_vec_index_subtracted_by(10, 5, 3), 2);
    assert_eq!(get_vec_index_sum_by(10, 8, 3), 1);
    assert_eq!(get_vec_index_sum_by(10, 2, 3), 5);
    assert_eq!(get_vec_index_sum_by(10, 9, 10), 9);
    assert!(window_contains(10, 0, 2, 9));
    assert!(!window_contains(10, 0, 2, 7));
}

#[test]
fn preload_needs_twice_the_depth() {
    assert!(is_valid_for_preload(2, 4));
    assert!(!is_valid_for_preload(3, 5));
    assert!(is_valid_for_preload(0, 0));
}

#[test]
fn focusing_loads_exactly_the_window() {
    let sel = Some("/pics/img0.jpg".to_string());
    let g: SingleGallery<u32, String> = SingleGallery::new(&paths(10), &sel, 2, false, &spawn);
    let s = states(&g);
    assert_eq!(resident_count(&s), 5);
    for i in [8, 9, 0, 1, 2] {
        assert_eq!(s[i], LoadState::Loading);
    }
    for i in 3..8 {
        assert_eq!(s[i], LoadState::Idle);
    }
}

#[test]
fn focusing_with_window_as_large_as_collection_loads_all() {
    let g: SingleGallery<u32, String> = SingleGallery::new(&paths(4), &None, 2, false, &spawn);
    assert_eq!(resident_count(&states(&g)), 4);
    let g: SingleGallery<u32, String> = SingleGallery::new(&paths(3), &None, 2, false, &spawn);
    assert_eq!(resident_count(&states(&g)), 3);
}

#[test]
fn advancing_unloads_trailing_and_loads_leading_entry() {
    let sel = Some("/pics/img5.jpg".to_string());
    let mut g: SingleGallery<u32, String> = SingleGallery::new(&paths(10), &sel, 2, false, &spawn);
    // every load finishes
    for i in 0..10 {
        if let Some(h) = g.poll_at(i, true) {
            g.complete_at(i, Some(h.len() as u32));
        }
    }
    let before = states(&g);
    assert_eq!(before[3], LoadState::Loaded);
    assert_eq!(before[8], LoadState::Idle);
    g.next_image(&vec![true; 10], &spawn);
    assert_eq!(g.selected_index(), 6);
    let after = states(&g);
    assert_eq!(after[3], LoadState::Idle);
    assert_eq!(after[8], LoadState::Loading);
    for i in [4, 5, 6, 7] {
        assert_eq!(after[i], LoadState::Loaded);
    }
    assert_eq!(resident_count(&after), 5);
}

#[test]
fn going_back_wraps_round() {
    let mut g: SingleGallery<u32, String> = SingleGallery::new(&paths(10), &None, 2, false, &spawn);
    g.previous_image(&vec![false; 10], &spawn);
    assert_eq!(g.selected_index(), 9);
    assert_eq!(g.entry(7).load_state(), LoadState::Loading);
    // the entry leaving the window was still loading: it is only marked
    assert_eq!(g.entry(2).load_state(), LoadState::ShouldUnload);
}

#[test]
fn advance_waits_for_the_focused_entry() {
    let mut g: SingleGallery<u32, String> = SingleGallery::new(&paths(10), &None, 2, true, &spawn);
    g.next_image(&vec![false; 10], &spawn);
    assert_eq!(g.selected_index(), 0);
    if let Some(h) = g.poll_at(0, true) {
        g.complete_at(0, Some(h.len() as u32));
    }
    g.next_image(&vec![false; 10], &spawn);
    assert_eq!(g.selected_index(), 1);
    assert_eq!(g.get_active_img_nr(), 2);
}

#[test]
fn select_pop_and_reload() {
    let mut g: SingleGallery<u32, String> = SingleGallery::new(&paths(10), &None, 1, false, &spawn);
    g.select_by_name(&"img9.jpg".to_string(), &vec![true; 10], &spawn);
    assert_eq!(g.selected_index(), 9);
    assert_eq!(g.pop(&"/pics/img9.jpg".to_string(), &vec![true; 10], &spawn), Some(9));
    assert_eq!(g.len(), 9);
    assert_eq!(g.selected_index(), 8);
    assert_eq!(g.pop(&"/nowhere".to_string(), &vec![true; 9], &spawn), None);
    g.reload_at(&"/pics/img8.jpg".to_string(), &vec![true; 9], &spawn);
    assert_eq!(g.entry(8).load_state(), LoadState::Loading);
}

#[test]
fn unload_while_loading_is_deferred() {
    let mut e: Entry<u32, String> = Entry::from_path(&"/pics/a.jpg".to_string());
    assert_eq!(e.name(), "a.jpg");
    assert!(e.load(&spawn));
    assert!(!e.load(&spawn));
    e.unload(false);
    assert_eq!(e.load_state(), LoadState::ShouldUnload);
    assert!(e.handle().is_some());
    assert!(e.poll(false).is_none());
    assert_eq!(e.load_state(), LoadState::ShouldUnload);
    e.unload(true);
    assert_eq!(e.load_state(), LoadState::Idle);
    assert!(e.handle().is_none());
    assert!(e.image().is_none());
}

#[test]
fn marked_entry_is_cleared_when_its_job_finishes() {
    let mut e: Entry<u32, String> = Entry::from_path(&"/pics/a.jpg".to_string());
    e.load(&spawn);
    e.unload(false);
    assert!(e.poll(true).is_none());
    assert_eq!(e.load_state(), LoadState::Idle);
}

#[test]
fn finished_job_is_handed_back_and_completed() {
    let mut e: Entry<u32, String> = Entry::from_path(&"/pics/a.jpg".to_string());
    e.load(&spawn);
    let h = e.poll(true).unwrap();
    assert_eq!(h, "/pics/a.jpg");
    e.complete(Some(7));
    assert_eq!(e.load_state(), LoadState::Loaded);
    assert_eq!(e.image(), Some(&7));
}

#[test]
fn grid_rows_and_per_row_bounds() {
    let mut g: MultiGallery<u32, String> = MultiGallery::new(&paths(11), 5, 1, 8);
    assert_eq!(g.total_rows(), 3);
    g.less_per_row();
    assert_eq!(g.images_per_row(), 4);
    assert_eq!(g.total_rows(), 3);
    let mut h: MultiGallery<u32, String> = MultiGallery::new(&paths(3), 16, 1, 8);
    h.more_per_row();
    assert_eq!(h.images_per_row(), 16);
    assert_eq!(h.preload_bounds(0, 1), (0, 1));
}

#[test]
fn grid_pass_loads_visible_first_and_respects_cap() {
    // 5 rows of 2; rows 2..3 visible, one row of margin: rows 1..4 resident.
    let mut g: MultiGallery<u32, String> = MultiGallery::new(&paths(10), 2, 1, 3);
    let started = g.update_window(2, 3, &vec![false; 10], &spawn);
    // visible entries 4, 5 first, then downwards 6; the cap of 3 stops there.
    assert_eq!(started, vec![4, 5, 6]);
    assert_eq!(g.entry(2).load_state(), LoadState::Idle);
    let started = g.update_window(2, 3, &vec![false; 10], &spawn);
    assert!(started.is_empty());
}

#[test]
fn grid_pass_unloads_outside_the_preload_rows() {
    let mut g: MultiGallery<u32, String> = MultiGallery::new(&paths(10), 2, 0, 10);
    let started = g.update_window(0, 1, &vec![false; 10], &spawn);
    assert_eq!(started, vec![0, 1]);
    let started = g.update_window(3, 4, &vec![false, true, false, false, false, false, false, false, false, false], &spawn);
    assert_eq!(started, vec![6, 7]);
    assert_eq!(g.entry(0).load_state(), LoadState::ShouldUnload);
    assert_eq!(g.entry(1).load_state(), LoadState::Idle);
}

#[test]
fn refused_load_keeps_the_unload_mark() {
    let mut e: Entry<u32, String> = Entry::from_path(&"/pics/a.jpg".to_string());
    e.load(&spawn);
    e.unload(false);
    assert!(!e.load(&spawn));
    assert_eq!(e.load_state(), LoadState::ShouldUnload);
    assert!(e.poll(true).is_none());
    assert_eq!(e.load_state(), LoadState::Idle);
}
