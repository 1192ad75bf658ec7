use estoque_relogios::rank::{order_by_distance, rank};
use estoque_relogios::sorted_map::SortedMap;

#[test]
fn order_of_nothing_is_empty() {
    assert_eq!(order_by_distance(&Vec::new()), Vec::<usize>::new());
}

#[test]
fn order_is_ascending_by_distance() {
    assert_eq!(order_by_distance(&vec![3, 1, 2]), vec![1, 2, 0]);
    assert_eq!(order_by_distance(&vec![0, 1, 2]), vec![0, 1, 2]);
    assert_eq!(order_by_distance(&vec![5, 4, 3, 2, 1]), vec![4, 3, 2, 1, 0]);
}

#[test]
fn order_keeps_equal_distances_in_place_order() {
    assert_eq!(order_by_distance(&vec![1, 0, 1, 0, 1]), vec![1, 3, 0, 2, 4]);
    assert_eq!(order_by_distance(&vec![2, 2, 2]), vec![0, 1, 2]);
}

#[test]
fn order_names_every_place_once() {
    let mut seed: u32 = 99;
    let mut dist = Vec::new();
    for _ in 0..200 {
        seed = seed.wrapping_mul(1103515245).wrapping_add(12345);
        dist.push(((seed >> 16) % 10) as usize);
    }
    let order = order_by_distance(&dist);
    let mut seen = vec![false; dist.len()];
    for &k in &order {
        assert!(!seen[k]);
        seen[k] = true;
    }
    assert!(seen.iter().all(|&b| b));
    for pair in order.windows(2) {
        let (a, b) = (pair[0], pair[1]);
        assert!(dist[a] < dist[b] || (dist[a] == dist[b] && a < b));
    }
}

#[test]
fn rank_puts_the_nearest_key_first() {
    let mut m: SortedMap<i32> = SortedMap::new();
    m.insert("B9".to_string(), 9);
    m.insert("A2".to_string(), 2);
    m.insert("A1".to_string(), 1);
    assert_eq!(
        rank(&m, "A1"),
        vec![("A1".to_string(), 1, 0), ("A2".to_string(), 2, 1), ("B9".to_string(), 9, 2)]
    );
    assert_eq!(
        rank(&m, "B9"),
        vec![("B9".to_string(), 9, 0), ("A1".to_string(), 1, 2), ("A2".to_string(), 2, 2)]
    );
}

#[test]
fn rank_of_an_empty_map_is_empty() {
    let m: SortedMap<i32> = SortedMap::new();
    assert!(rank(&m, "A1").is_empty());
}
