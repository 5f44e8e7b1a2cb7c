use sorting_visualizer::session::{Command, Phase, SortSession};
use sorting_visualizer::sorts::{
    flip_prefix, insertion_setup, insertion_step, max_index, pancake_setup, pancake_step,
};

#[test]
fn setup_cursors() {
    let a = vec![9usize, 8, 7];
    assert_eq!(insertion_setup(&a), 1);
    assert_eq!(pancake_setup(&a), 3);
    let empty: Vec<usize> = Vec::new();
    assert_eq!(insertion_setup(&empty), 1);
    assert_eq!(pancake_setup(&empty), 0);
}

#[test]
fn flip_prefix_reverses_prefix() {
    let mut a = vec![1usize, 2, 3, 4, 5];
    flip_prefix(&mut a, 2);
    assert_eq!(a, [3, 2, 1, 4, 5]);
    flip_prefix(&mut a, 4);
    assert_eq!(a, [5, 4, 1, 2, 3]);
    flip_prefix(&mut a, 0);
    assert_eq!(a, [5, 4, 1, 2, 3]);
}

#[test]
fn max_index_picks_first_occurrence() {
    let a = vec![4usize, 2, 1, 3, 5, 2, 6];
    assert_eq!(max_index(&a, 7), 6);
    assert_eq!(max_index(&a, 6), 4);
    assert_eq!(max_index(&a, 2), 0);
    let ties = vec![2usize, 1, 2];
    assert_eq!(max_index(&ties, 3), 0);
    let more_ties = vec![5usize, 3, 5, 5];
    assert_eq!(max_index(&more_ties, 4), 0);
}

#[test]
fn insertion_step_inserts_one_element() {
    let mut a = vec![2usize, 4, 6, 3, 1];
    let (cursor, done) = insertion_step(&mut a, 3);
    assert_eq!(a, [2, 3, 4, 6, 1]);
    assert_eq!(cursor, 4);
    assert!(!done);
    let (cursor, done) = insertion_step(&mut a, 4);
    assert_eq!(a, [1, 2, 3, 4, 6]);
    assert_eq!(cursor, 5);
    assert!(done);
}

#[test]
fn pancake_step_moves_first_max_to_prefix_end() {
    let mut a = vec![4usize, 2, 1, 3, 5, 2, 6];
    // the maximum is already last in the prefix: no flips
    let (cursor, done) = pancake_step(&mut a, 7);
    assert_eq!(a, [4, 2, 1, 3, 5, 2, 6]);
    assert_eq!(cursor, 6);
    assert!(!done);
    // the maximum 5 sits at index 4: flip it to the front, then to the end
    let (cursor, done) = pancake_step(&mut a, 6);
    assert_eq!(a, [2, 4, 2, 1, 3, 5, 6]);
    assert_eq!(cursor, 5);
    assert!(!done);
}

#[test]
fn insertion_ticks_one_element_per_frame() {
    let mut s = SortSession::from_array(vec![3, 1, 2]);
    s.handle_command(Command::SelectInsertionSort);
    s.tick();
    assert_eq!(s.phase, Phase::Running);
    assert_eq!(s.array, [3, 1, 2]);
    s.tick();
    assert_eq!(s.array, [1, 3, 2]);
    assert_eq!(s.phase, Phase::Running);
    s.tick();
    assert_eq!(s.array, [1, 2, 3]);
    assert_eq!(s.phase, Phase::Idle);
}

#[test]
fn pancake_ticks_one_reduction_per_frame() {
    let mut s = SortSession::from_array(vec![3, 1, 2]);
    s.handle_command(Command::SelectPancakeSort);
    s.tick();
    assert_eq!(s.phase, Phase::Running);
    assert_eq!(s.array, [3, 1, 2]);
    s.tick();
    assert_eq!(s.array, [2, 1, 3]);
    assert_eq!(s.phase, Phase::Running);
    s.tick();
    assert_eq!(s.array, [1, 2, 3]);
    assert_eq!(s.phase, Phase::Idle);
}

#[test]
fn step_count_is_length_minus_one() {
    let selections = [Command::SelectInsertionSort, Command::SelectPancakeSort];
    for &select in &selections {
        let mut s = SortSession::from_array(vec![5, 4, 3, 2, 1]);
        s.handle_command(select);
        assert_eq!(s.run_to_completion(), 4);

        let mut s = SortSession::from_array(Vec::new());
        s.handle_command(select);
        assert_eq!(s.run_to_completion(), 0);

        let mut s = SortSession::from_array(vec![7]);
        s.handle_command(select);
        assert_eq!(s.run_to_completion(), 0);

        // an already-sorted array still takes the full pass
        let mut s = SortSession::from_array((1..101).collect());
        s.handle_command(select);
        assert_eq!(s.run_to_completion(), 99);
    }
}
