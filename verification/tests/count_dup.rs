use approx_entropy::count_dup;

#[test]
fn compute_count_dup() {
    let samples = ["a", "b", "b", "c", "c", "c"];
    let mut output = count_dup(&samples);
    output.sort();
    assert_eq!(output, vec![1, 2, 3]);
}

#[test]
fn count_dup_empty() {
    let samples: [usize; 0] = [];
    assert_eq!(count_dup(&samples), Vec::<usize>::new());
}

#[test]
fn count_dup_single_category() {
    let samples = ['x'; 5];
    assert_eq!(count_dup(&samples), vec![5]);
}

#[test]
fn count_dup_first_occurrence_order() {
    let samples = [5, 3, 5, 3, 3];
    assert_eq!(count_dup(&samples), vec![2, 3]);
}

#[test]
fn count_dup_counts_add_up() {
    let samples = ['a', 'b', 'c', 'c', 'a', 'b'];
    let output = count_dup(&samples);
    assert_eq!(output, vec![2, 2, 2]);
    assert_eq!(output.iter().sum::<usize>(), samples.len());
}
