use amp::tag_generator::SingleCharacterTagGenerator;

#[test]
fn it_returns_a_lowercase_set_of_alphabetical_characters_excluding_f() {
    let mut generator = SingleCharacterTagGenerator::new();
    let expected_result = (97..123).fold(String::new(), |mut acc, i| {
        // Skip f
        if i != 102 {
            acc.push((i as u8) as char);
        }
        acc
    });
    let mut result = String::new();
    while let Some(tag) = generator.next() {
        result.push_str(&tag);
    }

    assert_eq!(result, expected_result);
}

#[test]
fn it_prevents_overflow_recycling() {
    let mut generator = SingleCharacterTagGenerator::new();
    for _ in 0..256 {
        generator.next();
    }

    assert_eq!(generator.next(), None);
}

#[test]
fn reset_returns_the_sequence_to_the_start() {
    let mut generator = SingleCharacterTagGenerator::new();

    generator.next();
    assert!(generator.next().unwrap() != "a");

    generator.reset();
    assert_eq!(generator.next().unwrap(), "a");
}

#[test]
fn tags_run_from_a_to_z_without_f() {
    let mut generator = SingleCharacterTagGenerator::new();
    assert_eq!(generator.next().unwrap(), "a");
    for _ in 0..4 {
        generator.next();
    }
    assert_eq!(generator.next().unwrap(), "g");
    let mut last = String::new();
    while let Some(tag) = generator.next() {
        last = tag;
    }
    assert_eq!(last, "z");
}

#[test]
fn double_tags_run_from_aa_to_zz() {
    let mut generator = amp::tag_generator::TagGenerator::new();
    assert_eq!(generator.next().unwrap(), "aa");
    assert_eq!(generator.next().unwrap(), "ab");
    let mut last = String::new();
    let mut count = 2;
    while let Some(tag) = generator.next() {
        last = tag;
        count += 1;
    }
    assert_eq!(count, 676);
    assert_eq!(last, "zz");
    generator.reset();
    assert_eq!(generator.next().unwrap(), "aa");
}
