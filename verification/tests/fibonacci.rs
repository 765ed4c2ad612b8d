use minitools::fibonacci::generate_fibonacci;

#[test]
fn first_terms() {
    assert_eq!(generate_fibonacci(10), vec![0, 1, 1, 2, 3, 5, 8, 13, 21, 34]);
    assert_eq!(generate_fibonacci(3), vec![0, 1, 1]);
    assert_eq!(generate_fibonacci(2), vec![0, 1]);
}

#[test]
fn never_fewer_than_two_terms() {
    assert_eq!(generate_fibonacci(0), vec![0, 1]);
    assert_eq!(generate_fibonacci(1), vec![0, 1]);
}

#[test]
fn the_most_terms_that_fit() {
    let all = generate_fibonacci(48);
    assert_eq!(all.len(), 48);
    assert_eq!(all[47], 2971215073);
    assert_eq!(all[46], 1836311903);
    for i in 2..48 {
        assert_eq!(all[i] as u64, all[i - 1] as u64 + all[i - 2] as u64);
    }
}

#[test]
fn each_sequence_starts_the_next() {
    for n in 2..=48u32 {
        let shorter = generate_fibonacci(n - 1);
        let longer = generate_fibonacci(n);
        assert_eq!(longer.len(), n as usize);
        if n > 2 {
            assert_eq!(&longer[..shorter.len()], &shorter[..]);
        }
    }
}
