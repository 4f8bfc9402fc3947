use combinations::combinations;
use combinations::iter_combinations;
use combinations::IndexState;

fn values<T: Copy>(combos: Vec<Vec<&T>>) -> Vec<Vec<T>> {
    combos.into_iter().map(|c| c.into_iter().copied().collect()).collect()
}

fn drain<T: Copy>(pool: &[T], r: usize) -> Vec<Vec<T>> {
    let mut it = iter_combinations(pool, r);
    let mut out = Vec::new();
    while let Some(c) = it.next() {
        out.push(c.into_iter().copied().collect());
    }
    out
}

fn pascal(n: usize, r: usize) -> usize {
    if r > n {
        return 0;
    }
    let mut c = 1usize;
    for i in 0..r {
        c = c * (n - i) / (i + 1);
    }
    c
}

#[test]
fn it_works() {
    assert_eq!(2 + 2, 4);
}

#[test]
fn pairs_of_three() {
    let pool = [10, 20, 30];
    assert_eq!(values(combinations(&pool, 2)), vec![vec![10, 20], vec![10, 30], vec![20, 30]]);
    assert_eq!(drain(&pool, 2), vec![vec![10, 20], vec![10, 30], vec![20, 30]]);
}

#[test]
fn single_of_one() {
    let pool = ["a"];
    assert_eq!(values(combinations(&pool, 1)), vec![vec!["a"]]);
    assert_eq!(drain(&pool, 1), vec![vec!["a"]]);
}

#[test]
fn empty_pool() {
    let pool: [u8; 0] = [];
    assert_eq!(values(combinations(&pool, 0)), vec![Vec::<u8>::new()]);
    assert_eq!(values(combinations(&pool, 1)), Vec::<Vec<u8>>::new());
    assert_eq!(drain(&pool, 0), vec![Vec::<u8>::new()]);
    assert_eq!(drain(&pool, 1), Vec::<Vec<u8>>::new());
}

#[test]
fn triples_of_four() {
    let pool = [1, 2, 3, 4];
    let expected = vec![vec![1, 2, 3], vec![1, 2, 4], vec![1, 3, 4], vec![2, 3, 4]];
    assert_eq!(values(combinations(&pool, 3)), expected);
    assert_eq!(drain(&pool, 3), expected);
}

#[test]
fn pair_of_two() {
    let pool = [0, 1];
    assert_eq!(values(combinations(&pool, 2)), vec![vec![0, 1]]);
}

#[test]
fn count_is_binomial() {
    let expected = [1usize, 5, 10, 10, 5, 1, 0, 0];
    let pool = [7u32, 7, 7, 7, 7];
    for r in 0..expected.len() {
        assert_eq!(combinations(&pool, r).len(), expected[r]);
    }
    for n in 0..9usize {
        let pool: Vec<usize> = (0..n).collect();
        for r in 0..11usize {
            assert_eq!(combinations(&pool, r).len(), pascal(n, r));
        }
    }
    assert_eq!(combinations(&[0u8; 10], 5).len(), 252);
}

#[test]
fn index_tuples_ascend_strictly() {
    let pool: Vec<usize> = (0..7).collect();
    for r in 1..=7usize {
        let all = values(combinations(&pool, r));
        for c in &all {
            assert_eq!(c.len(), r);
            for w in c.windows(2) {
                assert!(w[0] < w[1]);
            }
            assert!(c.iter().all(|&i| i < 7));
        }
        for w in all.windows(2) {
            assert!(w[0] < w[1]);
        }
    }
}

#[test]
fn every_tuple_is_listed() {
    let pool: Vec<usize> = (0..5).collect();
    let all = values(combinations(&pool, 2));
    for a in 0..5usize {
        for b in (a + 1)..5 {
            assert!(all.contains(&vec![a, b]));
        }
    }
}

#[test]
fn lazy_agrees_with_eager() {
    for n in 0..7usize {
        let pool: Vec<u64> = (0..n as u64).map(|x| x * x + 1).collect();
        for r in 0..9usize {
            assert_eq!(drain(&pool, r), values(combinations(&pool, r)));
            let mut it = iter_combinations(&pool, r);
            assert_eq!(values(it.collect()), values(combinations(&pool, r)));
        }
    }
}

#[test]
fn collect_gives_what_is_left() {
    let pool = ['a', 'b', 'c', 'd'];
    let mut it = iter_combinations(&pool, 2);
    assert_eq!(it.next().map(|c| c.into_iter().copied().collect::<Vec<_>>()), Some(vec!['a', 'b']));
    assert_eq!(it.next().map(|c| c.into_iter().copied().collect::<Vec<_>>()), Some(vec!['a', 'c']));
    let rest = values(it.collect());
    assert_eq!(rest, vec![vec!['a', 'd'], vec!['b', 'c'], vec!['b', 'd'], vec!['c', 'd']]);
    assert!(it.next().is_none());
    assert!(it.collect().is_empty());
}

#[test]
fn arity_zero_gives_one_empty_combination() {
    let pool = [1, 2, 3];
    assert_eq!(values(combinations(&pool, 0)), vec![Vec::<i32>::new()]);
    let mut it = iter_combinations(&pool, 0);
    assert_eq!(it.next().map(|c| c.len()), Some(0));
    assert!(it.next().is_none());
}

#[test]
fn arity_of_pool_length_gives_the_pool() {
    let pool = [5, 3, 9, 3];
    assert_eq!(values(combinations(&pool, 4)), vec![vec![5, 3, 9, 3]]);
    assert_eq!(drain(&pool, 4), vec![vec![5, 3, 9, 3]]);
}

#[test]
fn arity_above_pool_length_gives_nothing() {
    let pool = [1, 2];
    assert!(combinations(&pool, 3).is_empty());
    assert!(combinations(&pool, usize::MAX).is_empty());
    let mut it = iter_combinations(&pool, 3);
    assert!(it.next().is_none());
    assert!(it.next().is_none());
    let mut it = iter_combinations(&pool, usize::MAX);
    assert!(it.next().is_none());
}

#[test]
fn exhausted_producer_stays_exhausted() {
    let pool = [1, 2, 3];
    let mut it = iter_combinations(&pool, 2);
    let mut seen = 0;
    while it.next().is_some() {
        seen += 1;
    }
    assert_eq!(seen, 3);
    for _ in 0..10 {
        assert!(it.next().is_none());
    }
}

#[test]
fn combinations_borrow_from_the_pool() {
    let pool = vec![String::from("x"), String::from("y"), String::from("z")];
    let all = combinations(&pool, 2);
    assert!(std::ptr::eq(all[0][0], &pool[0]));
    assert!(std::ptr::eq(all[0][1], &pool[1]));
    assert!(std::ptr::eq(all[2][0], &pool[1]));
    assert!(std::ptr::eq(all[2][1], &pool[2]));
}

#[test]
fn duplicates_in_the_pool_are_kept_apart() {
    let pool = [1, 1];
    assert_eq!(values(combinations(&pool, 1)), vec![vec![1], vec![1]]);
}

fn slots(state: &IndexState) -> Vec<usize> {
    (0..state.arity()).map(|i| state.slot(i)).collect()
}

#[test]
fn initial_state_counts_up() {
    let state = IndexState::initial(5, 3).unwrap();
    assert_eq!(state.arity(), 3);
    assert_eq!(slots(&state), vec![0, 1, 2]);
    assert!(IndexState::initial(2, 3).is_none());
    assert_eq!(slots(&IndexState::initial(0, 0).unwrap()), Vec::<usize>::new());
    assert_eq!(slots(&IndexState::initial(3, 3).unwrap()), vec![0, 1, 2]);
}

#[test]
fn advance_steps_through_the_order() {
    let mut state = IndexState::initial(4, 2).unwrap();
    let mut seen = vec![slots(&state)];
    while state.advance(4) {
        seen.push(slots(&state));
    }
    assert_eq!(
        seen,
        vec![vec![0, 1], vec![0, 2], vec![0, 3], vec![1, 2], vec![1, 3], vec![2, 3]]
    );
    assert!(!state.advance(4));
    assert_eq!(slots(&state), vec![2, 3]);
}

#[test]
fn advance_resets_the_slots_after_the_pivot() {
    let mut state = IndexState::initial(6, 3).unwrap();
    for _ in 0..3 {
        assert!(state.advance(6));
    }
    assert_eq!(slots(&state), vec![0, 1, 5]);
    assert!(state.advance(6));
    assert_eq!(slots(&state), vec![0, 2, 3]);
}

#[test]
fn advance_of_the_empty_tuple_has_nowhere_to_go() {
    let mut state = IndexState::initial(3, 0).unwrap();
    assert!(!state.advance(3));
    assert_eq!(state.arity(), 0);
}

#[test]
fn project_selects_in_tuple_order() {
    let pool = ["p", "q", "r", "s"];
    let mut state = IndexState::initial(4, 2).unwrap();
    assert_eq!(state.project(&pool), vec![&"p", &"q"]);
    assert!(state.advance(4));
    assert!(state.advance(4));
    assert_eq!(state.project(&pool), vec![&"p", &"s"]);
}
