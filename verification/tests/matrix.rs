use openshmem_rs::matrix::{binary_search, coo_key, remote_value_read, CrsMatrix, Either};
use openshmem_rs::{ShmemCtx, PE};

#[test]
fn scenario_each_pe_fills_its_row() {
    // Every PE stores (mpe, 2 * mpe + 1) and (mpe, 2 * mpe), both with
    // value mpe, and then reads (mpe, 2 * mpe) back.
    for mpe in 0..3usize {
        let ctx = ShmemCtx::new(PE(mpe as u32), 3);
        let shm = ctx.shmallocator();
        let mut matrix: CrsMatrix<usize> = CrsMatrix::new(4096, 4096, &ctx, &shm);
        matrix.put(mpe, mpe * 2 + 1, mpe).unwrap();
        matrix.put(mpe, mpe * 2, mpe).unwrap();
        assert_eq!(matrix.local_nnz(), 2);
        assert_eq!(matrix.get_local(mpe, mpe * 2), Some(mpe));
        assert_eq!(matrix.get_local(mpe, mpe * 2 + 1), Some(mpe));
        assert_eq!(matrix.get_local(mpe, mpe * 2 + 2), None);
    }
}

#[test]
fn put_on_remote_row_is_refused() {
    let ctx = ShmemCtx::new(PE(0), 2);
    let shm = ctx.shmallocator();
    let mut m: CrsMatrix<u8> = CrsMatrix::new(8, 8, &ctx, &shm);
    assert!(matches!(m.put(1, 0, 1), Err(Either::L(_))));
    assert_eq!(m.local_nnz(), 0);
    assert!(m.row_on_this_pe(4));
    assert!(!m.row_on_this_pe(5));
    let (idx, pe) = m.global_row_to_pe_row(5);
    assert_eq!((idx, pe.0), (2, 1));
}

#[test]
fn replacing_keeps_count_and_full_buffers_refuse() {
    let ctx = ShmemCtx::new(PE(0), 1);
    let shm = ctx.shmallocator();
    let mut m: CrsMatrix<i32> = CrsMatrix::new(1, 10, &ctx, &shm);
    // capacity is rows * 2 = 2
    m.put(0, 5, 1).unwrap();
    m.put(0, 2, 2).unwrap();
    m.put(0, 5, 3).unwrap();
    assert_eq!(m.local_nnz(), 2);
    assert_eq!(m.get_local(0, 5), Some(3));
    assert!(matches!(m.put(0, 7, 4), Err(Either::R(_))));
    assert_eq!(m.get_local(0, 7), None);
}

#[test]
fn coo_puts_apply_in_order_after_growing() {
    let ctx = ShmemCtx::new(PE(0), 1);
    let shm = ctx.shmallocator();
    let mut m: CrsMatrix<u32> = CrsMatrix::new(2, 4, &ctx, &shm);
    let xs = [(0, 1, 10), (1, 3, 20), (0, 1, 11), (1, 0, 30), (0, 0, 40)];
    m.put_from_coo_all(&xs).unwrap();
    assert_eq!(m.get_local(0, 1), Some(11));
    assert_eq!(m.get_local(1, 3), Some(20));
    assert_eq!(m.get_local(1, 0), Some(30));
    assert_eq!(m.get_local(0, 0), Some(40));
    assert_eq!(m.local_nnz(), 4);
}

#[test]
fn coo_with_foreign_row_changes_nothing() {
    let ctx = ShmemCtx::new(PE(0), 2);
    let shm = ctx.shmallocator();
    let mut m: CrsMatrix<u32> = CrsMatrix::new(4, 4, &ctx, &shm);
    assert!(m.put_from_coo_all(&[(0, 0, 1), (1, 0, 2)]).is_err());
    assert_eq!(m.local_nnz(), 0);
}

#[test]
fn routing_groups_by_owner() {
    let ctx = ShmemCtx::new(PE(0), 3);
    let shm = ctx.shmallocator();
    let m: CrsMatrix<u8> = CrsMatrix::new(9, 9, &ctx, &shm);
    let xs = [(0, 0, 1), (4, 1, 2), (3, 2, 3), (5, 0, 4), (1, 1, 5)];
    let out = m.route_to_pes(&xs);
    assert_eq!(out.len(), 3);
    assert_eq!(out[0], vec![(0, 0, 1), (3, 2, 3)]);
    assert_eq!(out[1], vec![(4, 1, 2), (1, 1, 5)]);
    assert_eq!(out[2], vec![(5, 0, 4)]);
}

#[test]
fn incoming_is_sorted_by_key_and_deduplicated() {
    let ctx = ShmemCtx::new(PE(0), 1);
    let shm = ctx.shmallocator();
    let m: CrsMatrix<u8> = CrsMatrix::new(4, 4, &ctx, &shm);
    let out = m.prepare_incoming(vec![(2, 1, 1), (0, 3, 2), (2, 1, 1), (1, 0, 3)]);
    assert_eq!(out, vec![(0, 3, 2), (1, 0, 3), (2, 1, 1)]);
    assert_eq!(coo_key(4, 2, 1), 9);
}

#[test]
fn positions_of_a_wide_matrix_can_share_a_key() {
    let ctx = ShmemCtx::new(PE(0), 1);
    let shm = ctx.shmallocator();
    let m: CrsMatrix<u8> = CrsMatrix::new(2, 3, &ctx, &shm);
    // (0, 2) and (1, 0) both have the key 2 in a matrix of 2 rows.
    let out = m.prepare_incoming(vec![(1, 0, 7), (0, 2, 5), (1, 1, 9)]);
    assert_eq!(out.len(), 2);
    assert!(out[0] == (1, 0, 7) || out[0] == (0, 2, 5));
    assert_eq!(out[1], (1, 1, 9));
}

#[test]
fn binary_search_finds_or_places() {
    let s = [1usize, 3, 5, 9];
    assert_eq!(binary_search(&s, 5), Ok(2));
    assert_eq!(binary_search(&s, 4), Err(2));
    assert_eq!(binary_search(&s, 0), Err(0));
    assert_eq!(binary_search(&s, 10), Err(4));
    assert_eq!(binary_search(&[], 1), Err(0));
}

#[test]
fn a_new_matrix_publishes_zero_row_pointers() {
    let ctx = ShmemCtx::new(PE(1), 3);
    let shm = ctx.shmallocator();
    let m: CrsMatrix<u8> = CrsMatrix::new(7, 5, &ctx, &shm);
    assert_eq!(m.row_ptrs().to_vec(), vec![0usize; 4]);
    assert!(m.col_idxs().is_empty());
    assert!(m.values().is_empty());
    let (idx, pe) = m.global_row_to_pe_row(6);
    assert_eq!((idx, pe.0), (2, 0));
}

#[test]
fn storing_many_counts_each_new_position_once() {
    let ctx = ShmemCtx::new(PE(0), 1);
    let shm = ctx.shmallocator();
    let mut m: CrsMatrix<u8> = CrsMatrix::new(3, 3, &ctx, &shm);
    m.put(0, 0, 1).unwrap();
    m.put_from_coo_all(&[(0, 0, 2), (1, 2, 3), (1, 2, 4), (2, 1, 5)]).unwrap();
    assert_eq!(m.local_nnz(), 3);
    assert_eq!(m.get_local(0, 0), Some(2));
    assert_eq!(m.get_local(1, 2), Some(4));
}

#[test]
fn remote_value_reads_locate_the_column() {
    let r = remote_value_read(PE(2), 5, &[1, 4, 9], 4).unwrap();
    assert_eq!((r.pe.0, r.offset, r.count), (2, 6, 1));
    assert!(remote_value_read(PE(2), 5, &[1, 4, 9], 3).is_none());
    assert!(remote_value_read(PE(0), 0, &[], 0).is_none());
}
