use pow::algorithm::bm::{bm, build_bc, build_gs};
use pow::algorithm::kmp::{kmp, kmp_build_next, KmpPattern};
use pow::algorithm::merge_sort::{merge, merge_sort};
use pow::ds::circular_queue::CircularQueue;
use pow::ds::dsu::DisjointSet;
use pow::ds::edge::{Edge, EdgeState};
use pow::ds::graph_matrix::GraphMatrix;
use pow::ds::tree::BinTreeMap;
use pow::ds::vertex::{Vertex, VertexState};

#[test]
fn test_kmp_pattern() {
    let s1 = "0001000010";
    let s2 = "000010";

    let p = KmpPattern::new(s2);
    assert_eq!(p.kmp_find_in(s1), s1.find(s2));

    let s1 = "CHINALLCHILLA";
    let s2 = "CHIL";

    let p = KmpPattern::new(s2);
    assert_eq!(p.kmp_find_in(s1), s1.find(s2));
}

#[test]
fn test_kmp() {
    let s1 = "0001000010";
    let s2 = "000010";
    assert_eq!(kmp(s1, s2), s1.find(s2));

    let s1 = "CHINALLCHILLA";
    let s2 = "CHIL";
    assert_eq!(kmp(s1, s2), s1.find(s2));
}

#[test]
fn test_build_next() {
    let s = "000010";
    assert_eq!(kmp_build_next(s), vec![-1, -1, -1, -1, 3, -1]);
}

#[test]
fn kmp_rejects_long_and_empty_patterns() {
    assert_eq!(kmp("ab", "abc"), None);
    assert_eq!(kmp("ab", ""), None);
    assert_eq!(KmpPattern::new("abc").kmp_find_in("ab"), None);
}

#[test]
fn a_prepared_pattern_is_not_found_at_the_front() {
    assert_eq!(KmpPattern::new("abc").kmp_find_in("abc"), Some(3));
    assert_eq!(KmpPattern::new("abc").kmp_find_in("xabc"), Some(1));
    assert_eq!(KmpPattern::new("aa").kmp_find_in("aaa"), Some(1));
    assert_eq!(kmp("abc", "abc"), Some(0));
    assert_eq!(kmp("aaa", "aa"), Some(0));
    assert_eq!(kmp("xabc", "abc"), Some(1));
}

#[test]
fn kmp_without_a_match_ends_behind_the_room_for_the_pattern() {
    let at = kmp("aaaa", "ab").unwrap();
    assert!(at + 2 > 4);
    assert_eq!(at, 3);
}

#[test]
fn test_circular_queue() {
    let mut queue = CircularQueue::new(3);
    assert!(queue.push(1));
    assert!(queue.push(2));
    assert!(queue.push(3));
    assert_eq!(queue.len(), 3);

    assert!(queue.is_full());
    assert!(!queue.push(4));

    assert_eq!(queue.back(), Some(3));
    assert!(queue.is_full());

    assert!(queue.pop());
    assert!(queue.push(4));

    assert_eq!(queue.back(), Some(4));
}

#[test]
fn circular_queue_orders() {
    let mut queue = CircularQueue::new(4);
    assert!(queue.is_empty());
    assert_eq!(queue.capacity(), 4);
    assert_eq!(queue.front(), None);
    assert!(!queue.pop());
    assert!(queue.push(10));
    assert!(queue.push(20));
    assert!(queue.push(30));
    assert_eq!(queue.front(), Some(10));
    assert_eq!(queue.iter(), vec![30, 20, 10]);
    assert_eq!(queue.asc_iter(), vec![10, 20, 30]);
    assert!(queue.pop());
    assert_eq!(queue.iter(), vec![20, 30]);
    assert_eq!(queue.asc_iter(), vec![30, 20]);
}

#[test]
fn circular_queue_items_change_in_place() {
    let mut queue = CircularQueue::new(4);
    assert!(queue.push(10));
    assert!(queue.push(20));
    assert!(queue.push(30));
    assert!(queue.pop());
    assert_eq!(queue.iter(), vec![20, 30]);
    assert_eq!(queue.asc_iter(), vec![30, 20]);
    *queue.iter_mut(0).unwrap() += 1;
    assert_eq!(queue.iter(), vec![21, 30]);
    *queue.iter_mut(1).unwrap() += 2;
    assert_eq!(queue.iter(), vec![21, 32]);
    *queue.asc_iter_mut(0).unwrap() += 4;
    assert_eq!(queue.asc_iter(), vec![36, 21]);
    *queue.asc_iter_mut(1).unwrap() += 8;
    assert_eq!(queue.asc_iter(), vec![36, 29]);
    assert!(queue.iter_mut(2).is_none());
    assert!(queue.asc_iter_mut(2).is_none());
    assert_eq!(queue.clone().iter(), queue.iter());
}

#[test]
fn circular_queue_of_capacity_zero_takes_nothing() {
    let mut queue: CircularQueue<u8> = CircularQueue::new(0);
    assert!(!queue.push(1));
    assert!(queue.is_full());
    assert!(queue.is_empty());
}

#[test]
fn test_disjoint_set() {
    let mut pp = DisjointSet::new(10);

    pp.union(0, 9);
    pp.union(1, 0);
    pp.union(3, 1);
    pp.union(8, 6);
    pp.union(6, 3);

    println!("{:?}", pp);
}

#[test]
fn disjoint_set_roots() {
    let mut pp = DisjointSet::new(10);
    assert_eq!(pp.find(4), Some(4));
    pp.union(0, 9);
    assert_eq!(pp.find(0), Some(9));
    pp.union(1, 0);
    assert_eq!(pp.find(1), Some(9));
    pp.union(8, 6);
    assert_eq!(pp.find(6), Some(8));
    pp.union(6, 1);
    assert_eq!(pp.find(8), Some(9));
    assert_eq!(pp.find(6), Some(9));
    pp.union(6, 8);
    assert_eq!(pp.find(6), Some(9));
    pp.reset(8);
    assert_eq!(pp.find(6), Some(8));
    assert_eq!(pp.find(1), Some(9));
}

#[test]
fn graph_new() {
    let g: GraphMatrix<u32, String> = GraphMatrix::default();
    assert_eq!(g.size(), (0, 0));
}

#[test]
fn vertex_and_edge_states() {
    let mut v = Vertex::new(7u8);
    assert_eq!(*v.state(), VertexState::Undiscovered);
    v.update_state(VertexState::Visited);
    v.update_parent(3);
    assert_eq!(*v.state(), VertexState::Visited);

    let mut e = Edge::new("road", 5);
    assert_eq!(*e.state(), EdgeState::Undetermined);
    e.update_state(EdgeState::Tree);
    assert_eq!(*e.state(), EdgeState::Tree);
    let d: Edge<u32> = Edge::default();
    assert_eq!(*d.state(), EdgeState::Undetermined);
}

#[test]
fn test_bintree_default() {
    let t1 = BinTreeMap::<usize, String>::default();
    let t2 = BinTreeMap::default();

    assert_eq!(t1, t2);
    assert_eq!(t1, BinTreeMap::new());
}

#[test]
fn test_merge() {
    assert_eq!(
        merge(&vec![1, 3, 4, 5, 7, 9], &vec![2, 6, 8]),
        vec![1, 2, 3, 4, 5, 6, 7, 8, 9]
    );
}

#[test]
fn test_merge_sort() {
    assert_eq!(merge_sort(&vec![0]), vec![0]);
    assert_eq!(merge_sort(&vec![5, 3, 1, 4, 7, 9]), vec![1, 3, 4, 5, 7, 9]);
    assert_eq!(merge_sort(&vec![1, 2, 3, 4, 5]), vec![1, 2, 3, 4, 5]);
    assert_eq!(merge_sort(&vec![5, 4, 3, 2, 1]), vec![1, 2, 3, 4, 5]);
}

#[test]
fn merge_keeps_every_item() {
    assert_eq!(merge(&vec![2, 2], &vec![2]), vec![2, 2, 2]);
    assert_eq!(merge(&Vec::<i32>::new(), &vec![1]), vec![1]);
    assert_eq!(merge_sort(&vec![3, 1, 3, 1]), vec![1, 1, 3, 3]);
}

#[test]
fn test_bm() {
    let s1 = "CHINCHILLA";
    let s2 = "CHIL";
    assert_eq!(bm(s1, s2), s1.find(s2));

    let s1 = "CHINCHILLA";
    let s2 = "CHII";
    assert_eq!(bm(s1, s2), s1.find(s2));

    let s1 = "";
    let s2 = "";
    assert_eq!(bm(s1, s2), s1.find(s2));

    let s1 = "CHINCHILLA";
    let s2 = "";
    assert_eq!(bm(s1, s2), s1.find(s2));

    let s1 = "";
    let s2 = "CHIL";
    assert_eq!(bm(s1, s2), s1.find(s2));
}

#[test]
fn bm_finds_the_first_of_several() {
    assert_eq!(bm("abcabcabc", "cab"), Some(2));
    assert_eq!(bm("aaaa", "aa"), Some(0));
    assert_eq!(bm("xyz", "z"), Some(2));
    assert_eq!(bm("xyz", "w"), None);
}

#[test]
fn bm_tables() {
    let bc = build_bc("abca");
    assert_eq!(bc.get(&('a' as u32)), Some(&3));
    assert_eq!(bc.get(&('b' as u32)), Some(&1));
    assert_eq!(bc.get(&('z' as u32)), None);
    assert_eq!(build_gs("abc"), vec![None, None, None]);
}
