use sorting_visualizer::session::{Algorithm, Command, Phase, SortSession};

#[test]
fn new_builds_identity_array() {
    let s = SortSession::new(5);
    assert_eq!(s.array, [1, 2, 3, 4, 5]);
    assert_eq!(s.phase, Phase::Idle);
    assert_eq!(s.algorithm, Algorithm::PancakeSort);
    let empty = SortSession::new(0);
    assert_eq!(empty.array, []);
}

#[test]
fn commands_ignored_unless_idle() {
    let mut s = SortSession::from_array(vec![3, 1, 2]);
    s.handle_command(Command::SelectInsertionSort);
    assert_eq!(s.phase, Phase::SetupPending);
    assert_eq!(s.algorithm, Algorithm::InsertionSort);
    // setup is pending: selection and shuffle are no-ops
    s.handle_command(Command::SelectPancakeSort);
    assert_eq!(s.algorithm, Algorithm::InsertionSort);
    assert_eq!(s.phase, Phase::SetupPending);
    s.handle_command(Command::Shuffle);
    assert_eq!(s.array, [3, 1, 2]);
    s.tick();
    assert_eq!(s.phase, Phase::Running);
    // running: still no-ops
    s.handle_command(Command::Shuffle);
    assert_eq!(s.array, [3, 1, 2]);
    s.handle_command(Command::SelectPancakeSort);
    assert_eq!(s.algorithm, Algorithm::InsertionSort);
    s.shuffle();
    assert_eq!(s.array, [3, 1, 2]);
}

#[test]
fn idle_tick_is_a_no_op() {
    let mut s = SortSession::from_array(vec![2, 1]);
    s.tick();
    assert_eq!(s.phase, Phase::Idle);
    assert_eq!(s.array, [2, 1]);
}

#[test]
fn empty_array_is_immediately_done() {
    let mut s = SortSession::from_array(Vec::new());
    s.handle_command(Command::SelectPancakeSort);
    s.tick();
    assert_eq!(s.phase, Phase::Idle);
    assert_eq!(s.array, []);
}

#[test]
fn single_element_is_immediately_done() {
    let mut s = SortSession::from_array(vec![42]);
    s.handle_command(Command::SelectInsertionSort);
    s.tick();
    assert_eq!(s.phase, Phase::Idle);
    assert_eq!(s.array, [42]);
}

#[test]
fn shuffle_keeps_the_values() {
    let mut s = SortSession::new(10);
    s.shuffle();
    assert_eq!(s.array.len(), 10);
    s.handle_command(Command::SelectInsertionSort);
    s.run_to_completion();
    let expect: Vec<usize> = (1..11).collect();
    assert_eq!(s.array, expect);
}

#[test]
fn both_strategies_sort_duplicates() {
    let mut s = SortSession::from_array(vec![4, 2, 1, 3, 5, 2, 6]);
    s.handle_command(Command::SelectInsertionSort);
    s.run_to_completion();
    assert_eq!(s.array, [1, 2, 2, 3, 4, 5, 6]);

    let mut s = SortSession::from_array(vec![4, 2, 1, 3, 5, 2, 6]);
    s.handle_command(Command::SelectPancakeSort);
    s.run_to_completion();
    assert_eq!(s.array, [1, 2, 2, 3, 4, 5, 6]);
}

#[test]
fn reverse_hundred_sorts_either_way() {
    let mut s = SortSession::from_array((1..101).rev().collect());
    s.handle_command(Command::SelectInsertionSort);
    let steps = s.run_to_completion();
    assert_eq!(steps, 99);
    let expect: Vec<usize> = (1..101).collect();
    assert_eq!(s.array, expect);

    let mut s = SortSession::from_array((1..101).rev().collect());
    s.handle_command(Command::SelectPancakeSort);
    let steps = s.run_to_completion();
    assert_eq!(steps, 99);
    assert_eq!(s.array, expect);
}
