use vessel::generator::{dictionary, generate_string, DictType, BASE_DICT, EXTENDED_DICT};

#[test]
fn base_alphabet_has_62_characters() {
    assert_eq!(BASE_DICT.chars().count(), 62);
    assert!(BASE_DICT.chars().all(|c| c.is_ascii_alphanumeric()));
    assert_eq!(dictionary(DictType::Base), BASE_DICT);
    assert_eq!(dictionary(DictType::Extended), EXTENDED_DICT);
}

#[test]
fn generated_length_base() {
    for length in [4u16, 12, 64, 127] {
        let s = generate_string(DictType::Base, length);
        assert_eq!(s.chars().count(), length as usize);
        assert!(s.chars().all(|c| BASE_DICT.contains(c)));
    }
}

#[test]
fn generated_length_extended() {
    let s = generate_string(DictType::Extended, 100);
    assert_eq!(s.chars().count(), 100);
    assert!(s.chars().all(|c| EXTENDED_DICT.contains(c)));
}
