use proofsheet::natural::natural_compare;

fn ord_to_i8(o: std::cmp::Ordering) -> i8 {
    match o {
        std::cmp::Ordering::Less => -1,
        std::cmp::Ordering::Equal => 0,
        std::cmp::Ordering::Greater => 1,
    }
}

#[test]
fn numeric_runs_compare_by_value() {
    assert_eq!(natural_compare("a1", "a2"), -1);
    assert_eq!(natural_compare("a2", "a10"), -1);
    assert_eq!(natural_compare("a1", "a10"), -1);
    assert_eq!(natural_compare("a10", "a2"), 1);
    assert_eq!(natural_compare("img2", "img10"), -1);
    assert_eq!(natural_compare("a10", "a10"), 0);
}

#[test]
fn plain_text_compares_by_code_point() {
    assert_eq!(natural_compare("alpha", "beta"), -1);
    assert_eq!(natural_compare("beta", "alpha"), 1);
    assert_eq!(natural_compare("same", "same"), 0);
    assert_eq!(natural_compare("", "a"), -1);
    assert_eq!(natural_compare("a", ""), 1);
    assert_eq!(natural_compare("", ""), 0);
}

#[test]
fn digits_sort_before_larger_numbers_regardless_of_length() {
    assert_eq!(natural_compare("rfc1.txt", "rfc822.txt"), -1);
    assert_eq!(natural_compare("rfc822.txt", "rfc2086.txt"), -1);
    assert_eq!(natural_compare("rfc1.txt", "rfc2086.txt"), -1);
}

#[test]
fn number_against_letter_compares_like_a_digit() {
    // digits sort before letters, after characters below '0'
    assert_eq!(natural_compare("a1", "ab"), -1);
    assert_eq!(natural_compare("ab", "a1"), 1);
    assert_eq!(natural_compare("a!", "a1"), -1);
}

#[test]
fn agrees_with_natord_on_plain_names() {
    let names = [
        "a", "a0", "a1", "a1a", "a1b", "a2", "a10", "a20", "rfc1.txt", "rfc822.txt",
        "rfc2086.txt", "x2-g8", "x2-y7", "x2-y8", "x8-y8", "pic2", "pic2a", "pic3",
    ];
    for x in names.iter() {
        for y in names.iter() {
            assert_eq!(
                natural_compare(x, y),
                ord_to_i8(natord::compare(x, y)),
                "disagree on {} vs {}",
                x,
                y
            );
        }
    }
}
