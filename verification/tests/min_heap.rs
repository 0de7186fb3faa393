use binary_tree_formatter::min_heap::MinHeap;

fn pushed(values: &[u32]) -> MinHeap<u32> {
    let mut heap = MinHeap::new();
    for value in values {
        heap.push(*value);
    }
    heap
}

fn elements(heap: &MinHeap<u32>) -> Vec<u32> {
    let mut all = Vec::new();
    for index in 1..=heap.len() {
        all.push(*heap.get(index).unwrap());
    }
    all
}

fn in_heap_order(heap: &MinHeap<u32>) -> bool {
    for index in 2..=heap.len() {
        if heap.get(index / 2).unwrap() > heap.get(index).unwrap() {
            return false;
        }
    }
    true
}

#[test]
fn new_heap_is_empty() {
    let heap: MinHeap<u32> = MinHeap::new();
    assert_eq!(heap.len(), 0);
    assert!(heap.is_empty());
    assert_eq!(heap.get(1), None);
    assert_eq!(heap.to_display_string(), "[]");
}

#[test]
fn push_six_values() {
    let heap = pushed(&[5, 3, 8, 1, 9, 2]);
    assert_eq!(heap.len(), 6);
    assert_eq!(heap.get(1), Some(&1));
    assert_eq!(elements(&heap), vec![1, 3, 2, 5, 9, 8]);
    assert_eq!(heap.to_display_string(), "[1, 3, 2, 5, 9, 8]");
    assert!(in_heap_order(&heap));
    let mut sorted = elements(&heap);
    sorted.sort();
    assert_eq!(sorted, vec![1, 2, 3, 5, 8, 9]);
}

#[test]
fn push_one_value() {
    let heap = pushed(&[42]);
    assert_eq!(heap.len(), 1);
    assert!(!heap.is_empty());
    assert_eq!(heap.get(1), Some(&42));
    assert_eq!(heap.get_last_node(), Some(&42));
    assert_eq!(heap.get(2), None);
}

#[test]
fn push_step_by_step() {
    let mut heap: MinHeap<u32> = MinHeap::new();
    heap.push(5);
    assert_eq!(elements(&heap), vec![5]);
    heap.push(3);
    assert_eq!(elements(&heap), vec![3, 5]);
    heap.push(8);
    assert_eq!(elements(&heap), vec![3, 5, 8]);
    heap.push(1);
    assert_eq!(elements(&heap), vec![1, 3, 8, 5]);
    heap.push(9);
    assert_eq!(elements(&heap), vec![1, 3, 8, 5, 9]);
    heap.push(2);
    assert_eq!(elements(&heap), vec![1, 3, 2, 5, 9, 8]);
}

#[test]
fn heap_order_after_each_push() {
    let values: [u32; 16] = [50, 40, 45, 7, 7, 90, 1, 33, 2, 2, 100, 64, 0, 12, 5, 81];
    let mut heap: MinHeap<u32> = MinHeap::new();
    for (k, value) in values.iter().enumerate() {
        heap.push(*value);
        assert_eq!(heap.len(), k + 1);
        assert!(in_heap_order(&heap));
        let least = values[..=k].iter().min().unwrap();
        assert_eq!(heap.get(1), Some(least));
        for index in 1..=heap.len() {
            assert!(heap.get(1).unwrap() <= heap.get(index).unwrap());
        }
        let mut held = elements(&heap);
        held.sort();
        let mut given = values[..=k].to_vec();
        given.sort();
        assert_eq!(held, given);
    }
}

#[test]
fn push_in_rising_order_moves_nothing() {
    let heap = pushed(&[1, 2, 3, 4, 5, 6, 7]);
    assert_eq!(elements(&heap), vec![1, 2, 3, 4, 5, 6, 7]);
}

#[test]
fn push_in_falling_order() {
    let heap = pushed(&[4, 3, 2, 1]);
    assert_eq!(elements(&heap), vec![1, 2, 3, 4]);
    assert!(in_heap_order(&heap));
}

#[test]
fn push_equal_values_moves_nothing() {
    let heap = pushed(&[3, 3, 3]);
    assert_eq!(elements(&heap), vec![3, 3, 3]);
}

#[test]
fn bubble_up_on_an_ordered_heap_changes_nothing() {
    let mut heap = pushed(&[5, 3, 8, 1, 9, 2]);
    let before = elements(&heap);
    for index in 0..=8usize {
        heap.bubble_up(index);
        assert_eq!(elements(&heap), before);
    }
    heap.bubble_up(usize::MAX);
    assert_eq!(elements(&heap), before);
}

#[test]
fn bubble_up_on_an_empty_heap() {
    let mut heap: MinHeap<u32> = MinHeap::new();
    heap.bubble_up(0);
    heap.bubble_up(1);
    heap.bubble_up(2);
    assert!(heap.is_empty());
}

#[test]
fn reading_the_tree() {
    let heap = pushed(&[5, 3, 8, 1, 9, 2]);
    assert_eq!(heap.last_node_index(), 6);
    assert_eq!(heap.get_parent(6), Some(&2));
    assert_eq!(heap.get_left_child(1), Some(&3));
    assert_eq!(heap.get_right_child(1), Some(&2));
    assert_eq!(heap.get_left_child(3), Some(&8));
    assert_eq!(heap.get_right_child(3), None);
    assert_eq!(heap.get_last_node(), Some(&8));
    assert_eq!(heap.get(7), None);
    assert_eq!(heap.heap().len(), 6);
    assert_eq!(heap.heap().get(4), Some(&5));
}

#[test]
fn other_element_types() {
    let mut signed: MinHeap<i64> = MinHeap::new();
    for value in [3i64, -7, 0, -7, 12] {
        signed.push(value);
    }
    assert_eq!(signed.get(1), Some(&-7));
    assert_eq!(signed.len(), 5);
    let mut words: MinHeap<&str> = MinHeap::new();
    for word in ["pear", "apple", "fig"] {
        words.push(word);
    }
    assert_eq!(words.get(1), Some(&"apple"));
}

#[test]
fn padding_for_a_numeral() {
    assert_eq!(MinHeap::<u32>::to_padded_string(5, 3, '0'), "00");
    assert_eq!(MinHeap::<u32>::to_padded_string(42, 5, ' '), "   ");
    assert_eq!(MinHeap::<u32>::to_padded_string(123, 3, '*'), "");
    assert_eq!(MinHeap::<u32>::to_padded_string(0, 1, '*'), "");
    assert_eq!(MinHeap::<u32>::to_padded_string(0, 2, '*'), "*");
}

#[test]
fn random_heap_has_the_count_and_the_range() {
    let heap = MinHeap::new_rand(200, 10, 20);
    assert_eq!(heap.len(), 200);
    assert!(in_heap_order(&heap));
    for value in elements(&heap) {
        assert!((10..=20).contains(&value));
    }
}

#[test]
fn random_heap_draws_from_the_whole_range() {
    let heap = MinHeap::new_rand(400, 0, 1_000_000);
    let all = elements(&heap);
    assert_eq!(all.len(), 400);
    assert!(all.iter().any(|value| *value != 0));
    assert!(all.iter().any(|value| *value != 1_000_000));
    assert!(all.iter().any(|value| *value != all[0]));
    assert!(in_heap_order(&heap));
}

#[test]
fn random_heap_of_one_value() {
    let heap = MinHeap::new_rand(5, 7, 7);
    assert_eq!(elements(&heap), vec![7, 7, 7, 7, 7]);
}

#[test]
fn random_heap_of_no_elements() {
    let heap = MinHeap::new_rand(0, 1, 50);
    assert!(heap.is_empty());
    let heap = MinHeap::new_rand(0, 9, 3);
    assert!(heap.is_empty());
}
