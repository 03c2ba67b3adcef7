use sorting_visualizer::recorder::{run, sort, Algorithm};
use sorting_visualizer::sorters::{Iteration, SortableArray};

fn steps(trace: &[Iteration]) -> Vec<(Vec<u32>, Vec<u32>)> {
    trace.iter().map(|it| (it.arr.clone(), it.index.clone())).collect()
}

fn deterministic() -> Vec<Algorithm> {
    vec![
        Algorithm::Bubble,
        Algorithm::Selection,
        Algorithm::Insertion,
        Algorithm::Shell,
        Algorithm::Merge,
        Algorithm::Quicksort,
        Algorithm::Heap,
        Algorithm::Cocktail,
    ]
}

#[test]
fn test_sort() {
    let mut arr = [1, 5, 2, 3, 4];
    sort(&mut arr);

    assert_eq!(arr, [1, 2, 3, 4, 5]);
}

#[test]
fn cocktail_records_every_comparison() {
    let mut s = SortableArray::new(vec![5, 3, 4, 1, 2]);
    s.cocktail_sort();
    assert_eq!(s.arr, vec![1, 2, 3, 4, 5]);
    let expected: Vec<(Vec<u32>, Vec<u32>)> = vec![
        (vec![3, 5, 4, 1, 2], vec![5]),
        (vec![3, 4, 5, 1, 2], vec![5]),
        (vec![3, 4, 1, 5, 2], vec![5]),
        (vec![3, 4, 1, 2, 5], vec![5]),
        (vec![3, 4, 1, 2, 5], vec![2]),
        (vec![3, 1, 4, 2, 5], vec![4]),
        (vec![1, 3, 4, 2, 5], vec![3]),
        (vec![1, 3, 4, 2, 5], vec![4]),
        (vec![1, 3, 2, 4, 5], vec![4]),
        (vec![1, 2, 3, 4, 5], vec![3]),
    ];
    assert_eq!(steps(&s.get_iterations()), expected);
}

#[test]
fn quicksort_takes_first_value_as_pivot() {
    let mut s = SortableArray::new(vec![1, 5, 2, 3, 4]);
    s.quicksort(0, 4);
    assert_eq!(s.arr, vec![1, 2, 3, 4, 5]);
    let expected: Vec<(Vec<u32>, Vec<u32>)> = vec![
        (vec![1, 5, 2, 3, 4], vec![1, 0]),
        (vec![1, 4, 2, 3, 5], vec![5, 4]),
        (vec![1, 3, 2, 4, 5], vec![4, 3]),
        (vec![1, 2, 3, 4, 5], vec![3, 2]),
    ];
    assert_eq!(steps(&s.get_iterations()), expected);
}

#[test]
fn quicksort_with_equal_values() {
    let mut s = SortableArray::new(vec![3, 5, 1, 3, 2]);
    s.quicksort(0, 4);
    let expected: Vec<(Vec<u32>, Vec<u32>)> = vec![
        (vec![3, 2, 1, 3, 5], vec![3, 3]),
        (vec![1, 2, 3, 3, 5], vec![3, 2]),
        (vec![1, 2, 3, 3, 5], vec![1, 0]),
    ];
    assert_eq!(steps(&s.get_iterations()), expected);
}

#[test]
fn partition_returns_the_pivot_place() {
    let mut s = SortableArray::new(vec![3, 5, 1, 3, 2]);
    let p = s.partition(0, 4);
    assert_eq!(p, 3);
    assert_eq!(s.arr, vec![3, 2, 1, 3, 5]);
}

#[test]
fn partition_of_a_single_position() {
    let mut s = SortableArray::new(vec![4, 2]);
    let p = s.partition(1, 1);
    assert_eq!(p, 1);
    assert_eq!(s.arr, vec![4, 2]);
    assert_eq!(steps(&s.get_iterations()), vec![(vec![4, 2], vec![2, 1])]);
}

#[test]
fn quicksort_on_a_range_leaves_the_rest() {
    let mut s = SortableArray::new(vec![9, 3, 2, 1, 0]);
    s.quicksort(1, 3);
    assert_eq!(s.arr, vec![9, 1, 2, 3, 0]);
    s.quicksort(2, 2);
    s.quicksort(3, 1);
    assert_eq!(s.arr, vec![9, 1, 2, 3, 0]);
}

#[test]
fn bubble_records_positions() {
    let mut s = SortableArray::new(vec![3, 1, 2]);
    s.bubble_sort();
    assert_eq!(s.arr, vec![1, 2, 3]);
    let expected: Vec<(Vec<u32>, Vec<u32>)> = vec![
        (vec![1, 3, 2], vec![0, 1]),
        (vec![1, 2, 3], vec![1, 2]),
        (vec![1, 2, 3], vec![0, 1]),
    ];
    assert_eq!(steps(&s.get_iterations()), expected);
}

#[test]
fn selection_records_each_pass() {
    let mut s = SortableArray::new(vec![3, 1, 2]);
    s.selection_sort();
    assert_eq!(s.arr, vec![1, 2, 3]);
    let expected: Vec<(Vec<u32>, Vec<u32>)> = vec![
        (vec![1, 3, 2], vec![1]),
        (vec![1, 2, 3], vec![2]),
        (vec![1, 2, 3], vec![2]),
    ];
    assert_eq!(steps(&s.get_iterations()), expected);
}

#[test]
fn insertion_records_each_placement() {
    let mut s = SortableArray::new(vec![3, 1, 2, 0]);
    s.insertion_sort();
    assert_eq!(s.arr, vec![0, 1, 2, 3]);
    let expected: Vec<(Vec<u32>, Vec<u32>)> = vec![
        (vec![1, 3, 2, 0], vec![1, 0]),
        (vec![1, 2, 3, 0], vec![2, 1]),
        (vec![0, 1, 2, 3], vec![3, 0]),
    ];
    assert_eq!(steps(&s.get_iterations()), expected);
}

#[test]
fn shell_halves_its_gap() {
    let mut s = SortableArray::new(vec![5, 3, 4, 1, 2]);
    s.shell_sort();
    assert_eq!(s.arr, vec![1, 2, 3, 4, 5]);
    let expected: Vec<(Vec<u32>, Vec<u32>)> = vec![
        (vec![4, 3, 5, 1, 2], vec![2, 0]),
        (vec![4, 1, 5, 3, 2], vec![3, 1]),
        (vec![2, 1, 4, 3, 5], vec![4, 0]),
        (vec![1, 2, 4, 3, 5], vec![1, 0]),
        (vec![1, 2, 4, 3, 5], vec![2, 2]),
        (vec![1, 2, 3, 4, 5], vec![3, 2]),
        (vec![1, 2, 3, 4, 5], vec![4, 4]),
    ];
    assert_eq!(steps(&s.get_iterations()), expected);
}

#[test]
fn merge_records_every_write() {
    let mut s = SortableArray::new(vec![3, 1, 2]);
    s.merge_sort_rec(0, 2);
    assert_eq!(s.arr, vec![1, 2, 3]);
    let expected: Vec<(Vec<u32>, Vec<u32>)> = vec![
        (vec![1, 1, 2], vec![1]),
        (vec![1, 3, 2], vec![3]),
        (vec![1, 3, 2], vec![1]),
        (vec![1, 2, 2], vec![2]),
        (vec![1, 2, 3], vec![3]),
    ];
    assert_eq!(steps(&s.get_iterations()), expected);
}

#[test]
fn merge_prefers_the_left_half_on_ties() {
    let mut s = SortableArray::new(vec![2, 7, 2, 3]);
    s.merge(0, 1, 3);
    assert_eq!(s.arr, vec![2, 2, 3, 7]);
    let t = steps(&s.get_iterations());
    assert_eq!(t.len(), 4);
    assert_eq!(t[0], (vec![2, 7, 2, 3], vec![2]));
    assert_eq!(t[1], (vec![2, 2, 2, 3], vec![2]));
    assert_eq!(t[3], (vec![2, 2, 3, 7], vec![7]));
}

#[test]
fn merge_sort_with_largest_values() {
    let m = u32::MAX;
    let mut s = SortableArray::new(vec![1, m, m]);
    s.merge_sort_rec(0, 2);
    assert_eq!(s.arr, vec![1, m, m]);
    assert_eq!(s.get_iterations().len(), 5);
}

#[test]
fn heap_sort_records_each_sift() {
    let mut s = SortableArray::new(vec![3, 1, 2]);
    s.heap_sort();
    assert_eq!(s.arr, vec![1, 2, 3]);
    let expected: Vec<(Vec<u32>, Vec<u32>)> = vec![
        (vec![3, 1, 2], vec![0, 0]),
        (vec![2, 1, 3], vec![0, 0]),
        (vec![1, 2, 3], vec![0, 0]),
    ];
    assert_eq!(steps(&s.get_iterations()), expected);
}

#[test]
fn heapify_sifts_down() {
    let mut s = SortableArray::new(vec![1, 9, 8, 4, 5]);
    s.heapify(5, 0);
    assert_eq!(s.arr, vec![9, 5, 8, 4, 1]);
    let expected: Vec<(Vec<u32>, Vec<u32>)> = vec![
        (vec![9, 5, 8, 4, 1], vec![4, 4]),
        (vec![9, 5, 8, 4, 1], vec![1, 4]),
        (vec![9, 5, 8, 4, 1], vec![0, 1]),
    ];
    assert_eq!(steps(&s.get_iterations()), expected);
}

#[test]
fn every_algorithm_sorts_and_keeps_the_values() {
    let input: Vec<u32> = vec![9, 4, 7, 4, 0, 12, 3, 3, 8, 1, 15, 2];
    let mut expected = input.clone();
    expected.sort();
    for algorithm in deterministic() {
        let mut arr = input.clone();
        let trace = run(&mut arr, algorithm, 0);
        assert_eq!(arr, expected);
        assert!(!trace.is_empty());
        assert_eq!(trace.last().unwrap().arr, expected);
        for it in trace.iter() {
            assert_eq!(it.arr.len(), input.len());
        }
    }
}

#[test]
fn repeated_runs_record_the_same_trace() {
    let input: Vec<u32> = vec![6, 2, 9, 2, 5, 1, 8];
    for algorithm in deterministic() {
        let mut a = input.clone();
        let mut b = input.clone();
        let ta = run(&mut a, algorithm, 0);
        let tb = run(&mut b, algorithm, 0);
        assert_eq!(a, b);
        assert_eq!(steps(&ta), steps(&tb));
    }
}

#[test]
fn sorted_input_comes_back_unchanged() {
    let input: Vec<u32> = vec![1, 2, 2, 5, 9];
    for algorithm in deterministic() {
        let mut arr = input.clone();
        let trace = run(&mut arr, algorithm, 0);
        assert_eq!(arr, input);
        assert_eq!(trace.last().unwrap().arr, input);
    }
    let mut arr = input.clone();
    let trace = run(&mut arr, Algorithm::Bogo, 0);
    assert_eq!(arr, input);
    assert_eq!(trace.len(), 4);
}

#[test]
fn empty_and_single_arrays_are_left_alone() {
    let mut all = deterministic();
    all.push(Algorithm::Bogo);
    for algorithm in all {
        let mut empty: Vec<u32> = Vec::new();
        let trace = run(&mut empty, algorithm, 3);
        assert!(empty.is_empty());
        assert!(trace.is_empty());
        let mut one: Vec<u32> = vec![7];
        let trace = run(&mut one, algorithm, 3);
        assert_eq!(one, vec![7]);
        for it in trace.iter() {
            assert_eq!(it.arr, vec![7]);
        }
    }
}

#[test]
fn selection_records_a_single_value() {
    let mut s = SortableArray::new(vec![7]);
    s.selection_sort();
    assert_eq!(steps(&s.get_iterations()), vec![(vec![7], vec![0])]);
}

#[test]
fn new_starts_with_an_empty_trace() {
    let s = SortableArray::new(vec![2, 1]);
    assert_eq!(s.arr, vec![2, 1]);
    assert!(s.get_iterations().is_empty());
}

#[test]
fn is_sorted_stops_at_the_first_descent() {
    let mut s = SortableArray::new(vec![1, 3, 2, 4]);
    assert!(!s.is_sorted());
    assert_eq!(s.arr, vec![1, 3, 2, 4]);
    let expected: Vec<(Vec<u32>, Vec<u32>)> =
        vec![(vec![1, 3, 2, 4], vec![3]), (vec![1, 3, 2, 4], vec![2])];
    assert_eq!(steps(&s.get_iterations()), expected);
}

#[test]
fn is_sorted_inspects_every_value_but_the_first() {
    let mut s = SortableArray::new(vec![1, 1, 2]);
    assert!(s.is_sorted());
    let expected: Vec<(Vec<u32>, Vec<u32>)> =
        vec![(vec![1, 1, 2], vec![1]), (vec![1, 1, 2], vec![2])];
    assert_eq!(steps(&s.get_iterations()), expected);
}

#[test]
fn bogo_without_shuffles_only_scans() {
    let mut s = SortableArray::new(vec![2, 1]);
    assert!(!s.bogo_sort(0));
    assert_eq!(s.arr, vec![2, 1]);
    assert_eq!(steps(&s.get_iterations()), vec![(vec![2, 1], vec![1])]);
}

#[test]
fn bogo_scans_once_more_than_it_shuffles() {
    let mut s = SortableArray::new(vec![5, 5, 1, 5, 5, 5, 5, 5, 0, 5, 5, 5]);
    let done = s.bogo_sort(2);
    let mut values = s.arr.clone();
    let trace = s.get_iterations();
    if !done {
        assert!(trace.len() >= 3);
    }
    values.sort();
    assert_eq!(values, vec![0, 1, 5, 5, 5, 5, 5, 5, 5, 5, 5, 5]);
}

#[test]
fn bogo_sorts_a_tiny_array() {
    let mut s = SortableArray::new(vec![3, 1, 2]);
    assert!(s.bogo_sort(100000));
    assert_eq!(s.arr, vec![1, 2, 3]);
    let trace = s.get_iterations();
    assert!(trace.len() >= 3);
    assert_eq!(trace.last().unwrap().arr, vec![1, 2, 3]);
    for it in trace.iter() {
        let mut values = it.arr.clone();
        values.sort();
        assert_eq!(values, vec![1, 2, 3]);
    }
}
