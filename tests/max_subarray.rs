use kadane::kadanes_max_subarray;

fn brute_force(values: &[i64]) -> i64 {
    let mut best = values[0];
    for lo in 0..values.len() {
        let mut sum: i64 = 0;
        for hi in lo..values.len() {
            sum += values[hi];
            if sum > best {
                best = sum;
            }
        }
    }
    best
}

#[test]
fn test_kadanes_max_subarray() {
    assert_eq!(
        kadanes_max_subarray(&vec![-2, 1, -3, 4, -1, 2, 1, -5, 4]),
        6
    );
    assert_eq!(kadanes_max_subarray(&vec![1]), 1);
    assert_eq!(kadanes_max_subarray(&vec![5, 4, -1, 7, 8]), 23);
    assert_eq!(kadanes_max_subarray(&vec![-1]), -1);
}

#[test]
fn singleton_returns_its_element() {
    for v in [-7, 0, 9, i64::MIN, i64::MAX] {
        assert_eq!(kadanes_max_subarray(&[v]), v);
    }
}

#[test]
fn all_negative_returns_largest_element() {
    assert_eq!(kadanes_max_subarray(&[-8, -3, -6, -2, -5, -4]), -2);
    assert_eq!(kadanes_max_subarray(&[-1, -1, -1]), -1);
    assert_eq!(kadanes_max_subarray(&[i64::MIN, i64::MIN + 1, i64::MIN]), i64::MIN + 1);
}

#[test]
fn all_nonnegative_returns_total() {
    assert_eq!(kadanes_max_subarray(&[1, 2, 3, 4]), 10);
    assert_eq!(kadanes_max_subarray(&[0, 0, 0]), 0);
    assert_eq!(kadanes_max_subarray(&[3, 0, 0, 5]), 8);
}

#[test]
fn zero_is_a_real_answer() {
    assert_eq!(kadanes_max_subarray(&[-3, 0, -2]), 0);
}

#[test]
fn same_input_gives_same_answer() {
    let values = vec![2, -5, 3, -1, 4, -10, 6];
    let first = kadanes_max_subarray(&values);
    let second = kadanes_max_subarray(&values);
    assert_eq!(first, second);
    assert_eq!(first, 6);
    assert_eq!(values, vec![2, -5, 3, -1, 4, -10, 6]);
}

#[test]
fn run_in_the_middle() {
    assert_eq!(kadanes_max_subarray(&[-5, 2, 3, -1, 4, -20, 1]), 8);
    assert_eq!(kadanes_max_subarray(&[4, -10, 5]), 5);
}

#[test]
fn extreme_values_without_overflow() {
    assert_eq!(kadanes_max_subarray(&[i64::MIN, i64::MAX]), i64::MAX);
    assert_eq!(kadanes_max_subarray(&[i64::MAX, i64::MIN, 1]), i64::MAX);
    assert_eq!(kadanes_max_subarray(&[i64::MAX - 1, -5, 6]), i64::MAX);
    assert_eq!(kadanes_max_subarray(&[i64::MIN, i64::MIN]), i64::MIN);
}

#[test]
fn agrees_with_brute_force() {
    let mut state: u64 = 0x9E37_79B9_7F4A_7C15;
    for len in 1..=12usize {
        for _ in 0..50 {
            let mut values: Vec<i64> = Vec::new();
            for _ in 0..len {
                state = state.wrapping_mul(6364136223846793005).wrapping_add(1442695040888963407);
                values.push(((state >> 33) % 41) as i64 - 20);
            }
            assert_eq!(kadanes_max_subarray(&values), brute_force(&values), "{:?}", values);
        }
    }
}
