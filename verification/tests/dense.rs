use openshmem_rs::benchmark::{flop_count, lcg_states, lcg_step, SEED};
use openshmem_rs::thread_parallel::Matrix;

#[test]
fn test_idx() {
    let m = Matrix::new(vec![1.0f32, 2.0, 3.0, 4.0], (2, 2));
    assert_eq!(m.row(0).to_vec(), vec![1.0f32, 2.0]);
    assert_eq!(m.col(0), vec![1.0f32, 3.0]);
}

#[test]
fn rows_and_columns_of_a_wide_matrix() {
    let m = Matrix::new(vec![1u32, 2, 3, 4, 5, 6], (2, 3));
    assert_eq!(m.dim(), (2, 3));
    assert_eq!(m.row(1).to_vec(), vec![4, 5, 6]);
    assert_eq!(m.col(1), vec![2, 5]);
    assert_eq!(m.col(2), vec![3, 6]);
}

#[test]
fn column_of_elements_that_do_not_fill_the_last_row() {
    let m = Matrix::new(vec![10u8, 11, 12, 13, 14], (3, 2));
    assert_eq!(m.col(0), vec![10, 12, 14]);
    assert_eq!(m.col(1), vec![11, 13]);
}

#[test]
fn column_past_the_elements_is_empty() {
    let m = Matrix::new(vec![7u8], (1, 4));
    assert_eq!(m.col(3), Vec::<u8>::new());
}

#[test]
fn generator_steps_from_the_seed() {
    let mut state = SEED;
    assert_eq!(lcg_step(&mut state), 513726777);
    assert_eq!(state, 513726777);
    assert_eq!(lcg_step(&mut state), 3941075838);
}

#[test]
fn generator_states_continue_one_another() {
    let mut state = SEED;
    let states = lcg_states(&mut state, 3);
    assert_eq!(states, vec![513726777, 3941075838, 2579593439]);
    assert_eq!(state, 2579593439);
    assert_eq!(lcg_states(&mut state, 0), Vec::<u32>::new());
    assert_eq!(state, 2579593439);
}

#[test]
fn flop_count_of_a_product() {
    assert_eq!(flop_count(2, 3, 4), 40);
    assert_eq!(flop_count(32, 32, 32), 32 * 32 * 63);
    assert_eq!(flop_count(1, 1, 1), 1);
    assert_eq!(flop_count(0, 5, 7), 0);
}
