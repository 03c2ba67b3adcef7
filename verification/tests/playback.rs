use sorting_visualizer::playback::{
    bar, get_max, handle_key_input, holds, main_loop, process_iteration, Bar, Frame,
};
use sorting_visualizer::sorters::Iteration;

#[test]
fn get_max_of_values() {
    assert_eq!(get_max(&[3, 9, 2]), 9);
    assert_eq!(get_max(&[]), 0);
    assert_eq!(get_max(&[0, 0]), 0);
    assert_eq!(get_max(&[u32::MAX, 1]), u32::MAX);
}

#[test]
fn holds_finds_a_value() {
    assert!(holds(&[4, 5], 5));
    assert!(!holds(&[4, 5], 6));
    assert!(!holds(&[], 0));
}

#[test]
fn bar_of_each_kind() {
    let it = Iteration { arr: vec![1, 3, 2, 4], index: vec![2, 3] };
    assert_eq!(bar(&it, 1), Bar::Plain);
    assert_eq!(bar(&it, 2), Bar::Highlighted);
    assert_eq!(bar(&it, 3), Bar::Sounding);
    assert_eq!(bar(&it, 4), Bar::Plain);
}

#[test]
fn escape_stops_and_space_starts() {
    let mut started = true;
    assert!(handle_key_input(true, true, &mut started));
    assert!(!started);
    assert!(!handle_key_input(false, true, &mut started));
    assert!(started);
    assert!(!handle_key_input(false, false, &mut started));
    assert!(started);
    let mut idle = false;
    assert!(!handle_key_input(false, false, &mut idle));
    assert!(!idle);
}

#[test]
fn playback_steps_and_rewinds() {
    let mut position = 0;
    assert_eq!(process_iteration(2, &mut position), Some(0));
    assert_eq!(process_iteration(2, &mut position), Some(1));
    assert_eq!(position, 2);
    assert_eq!(process_iteration(2, &mut position), None);
    assert_eq!(position, 0);
    assert_eq!(process_iteration(0, &mut position), None);
}

#[test]
fn frames_of_the_loop() {
    let mut started = false;
    let mut position = 0;
    assert_eq!(main_loop(false, false, 1, &mut started, &mut position), Frame::Prompt);
    assert_eq!(position, 0);
    assert_eq!(main_loop(false, true, 1, &mut started, &mut position), Frame::Show(0));
    assert_eq!(main_loop(false, false, 1, &mut started, &mut position), Frame::Rest);
    assert_eq!(position, 0);
    assert_eq!(main_loop(false, false, 1, &mut started, &mut position), Frame::Show(0));
    assert_eq!(main_loop(true, false, 1, &mut started, &mut position), Frame::Quit);
    assert!(!started);
    assert_eq!(position, 1);
}
