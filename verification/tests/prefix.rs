use soap_router::prefix::PrefixGenerator;

#[test]
fn first_prefixes_are_single_letters() {
    let mut generator = PrefixGenerator::new();
    let mut seen = Vec::new();
    for _ in 0..26 {
        seen.push(generator.next());
    }
    let expected: Vec<String> = (b'a'..=b'z').map(|b| (b as char).to_string()).collect();
    assert_eq!(seen, expected);
}

#[test]
fn prefixes_roll_over_to_two_letters() {
    let mut generator = PrefixGenerator::new();
    let mut last = String::new();
    for _ in 0..26 {
        last = generator.next();
    }
    assert_eq!(last, "z");
    assert_eq!(generator.next(), "aa");
    assert_eq!(generator.next(), "ab");
    for _ in 0..23 {
        generator.next();
    }
    assert_eq!(generator.next(), "az");
    assert_eq!(generator.next(), "ba");
}

#[test]
fn prefixes_roll_over_to_three_letters() {
    let mut generator = PrefixGenerator::default();
    let mut last = String::new();
    for _ in 0..(26 + 26 * 26) {
        last = generator.next();
    }
    assert_eq!(last, "zz");
    assert_eq!(generator.next(), "aaa");
}

#[test]
fn prefixes_are_pairwise_distinct() {
    let mut generator = PrefixGenerator::new();
    let mut seen = std::collections::HashSet::new();
    for _ in 0..2000 {
        assert!(seen.insert(generator.next()));
    }
}
