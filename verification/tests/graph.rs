use openshmem_rs::graph::{parse_edge, parse_usize, share_range, sort_and_dedup, BfsSearch, BfsStep};

/// Runs a search to the end, answering each step from `adj`.
fn run(from: usize, to: usize, adj: &[Vec<usize>]) -> usize {
    let (mut search, mut step) = BfsSearch::new(from, to);
    loop {
        match step {
            BfsStep::Done(d) => return d,
            BfsStep::Expand(nodes) => {
                let lists = nodes.iter().map(|n| adj[*n].clone()).collect::<Vec<_>>();
                step = search.advance(lists);
            }
        }
    }
}

#[test]
fn sort_and_dedup_sorts_and_removes_repeats() {
    let mut v = vec![5, 1, 5, 3, 1];
    sort_and_dedup(&mut v);
    assert_eq!(v, vec![1, 3, 5]);
    let mut w = vec![7];
    sort_and_dedup(&mut w);
    assert_eq!(w, vec![7]);
    let mut again = v.clone();
    sort_and_dedup(&mut again);
    assert_eq!(again, v);
}

#[test]
fn parse_edges() {
    assert_eq!(parse_edge(b"12,34"), Some((12, 34)));
    assert_eq!(parse_edge(b"+1,2"), Some((1, 2)));
    assert_eq!(parse_edge(b"1,2,3"), None);
    assert_eq!(parse_edge(b"1 ,2"), None);
    assert_eq!(parse_edge(b"12"), None);
    assert_eq!(parse_edge(b",2"), None);
    assert_eq!(parse_edge(b"-1,2"), None);
    assert_eq!(parse_usize(b"18446744073709551615"), Some(18446744073709551615));
    assert_eq!(parse_usize(b"18446744073709551616"), None);
    assert_eq!(parse_usize(b"+"), None);
    assert_eq!(parse_usize(b"007"), Some(7));
}

#[test]
fn bfs_same_node_is_zero() {
    assert_eq!(run(3, 3, &[vec![], vec![], vec![], vec![]]), 0);
}

#[test]
fn bfs_counts_layers() {
    // 0 -> 1 -> 2 -> 3, and 0 -> 2
    let adj = vec![vec![1, 2], vec![2], vec![3], vec![]];
    assert_eq!(run(0, 1, &adj), 1);
    assert_eq!(run(0, 2, &adj), 1);
    assert_eq!(run(0, 3, &adj), 2);
    assert_eq!(run(1, 3, &adj), 2);
}

#[test]
fn bfs_unreachable_is_max() {
    let adj = vec![vec![1], vec![], vec![0]];
    assert_eq!(run(0, 2, &adj), usize::MAX);
}

#[test]
fn bfs_stalled_cycle_is_max() {
    // 0 <-> 1 forever, target 2 never reached
    let adj = vec![vec![1], vec![0], vec![]];
    assert_eq!(run(0, 2, &adj), usize::MAX);
}

#[test]
fn shares_cover_the_lines_in_order() {
    assert_eq!(share_range(10, 0, 3), (0, 4));
    assert_eq!(share_range(10, 1, 3), (4, 8));
    assert_eq!(share_range(10, 2, 3), (8, 10));
    assert_eq!(share_range(2, 3, 4), (2, 2));
    assert_eq!(share_range(0, 0, 1), (0, 0));
}
