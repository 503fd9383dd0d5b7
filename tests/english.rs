use sbv2_tts::english::{g2p_word, is_english_token, CmuDict};

#[test]
fn dictionary_word() {
    let mut dict = CmuDict::new();
    dict.add_line(&"HELLO  HH AH0 - L OW1".chars().collect::<Vec<char>>());
    let result = g2p_word("hello", &dict);
    assert_eq!(result.phones, vec!["hh", "ah", "l", "ow"]);
    assert!(!result.phones.is_empty());
    assert_eq!(result.char_phone_counts.len(), "hello".chars().count());
    assert_eq!(
        result.char_phone_counts.iter().sum::<usize>(),
        result.phones.len()
    );
}

#[test]
fn fallback_letters() {
    let result = g2p_word("xyz", &CmuDict::new());
    assert_eq!(result.phones.len(), result.tones.len());
    assert_eq!(
        result.char_phone_counts.iter().sum::<usize>(),
        result.phones.len()
    );
    assert_eq!(result.phones, vec!["k", "y", "z"]);
}

#[test]
fn acronym_letters_split() {
    let result = g2p_word("CG", &CmuDict::new());
    assert_eq!(result.char_phone_counts.len(), 2);
    assert_eq!(result.phones.len(), result.tones.len());
    assert_eq!(
        result.char_phone_counts.iter().sum::<usize>(),
        result.phones.len()
    );
    assert!(result.phones.len() >= 2);
}

#[test]
fn dictionary_entries_give_stress_tones() {
    let mut dict = CmuDict::new();
    dict.insert(
        "HELLO".chars().collect(),
        vec!["HH".chars().collect(), "AH0".chars().collect(), "L".chars().collect(), "OW1".chars().collect()],
    );
    let result = g2p_word("Hello", &dict);
    assert_eq!(result.phones, vec!["hh", "ah", "l", "ow"]);
    assert_eq!(result.tones, vec![3, 1, 3, 2]);
    assert_eq!(result.char_phone_counts, vec![1, 1, 1, 1, 0]);
}

#[test]
fn digits_and_marks() {
    let result = g2p_word("7-'", &CmuDict::new());
    assert_eq!(result.phones, vec!["s", "eh", "v", "ah", "n", "-", "'"]);
    assert_eq!(result.char_phone_counts, vec![5, 1, 1]);
    assert_eq!(result.tones, vec![0; 7]);
}

#[test]
fn phones_spread_evenly() {
    let mut dict = CmuDict::new();
    dict.insert(
        "AB".chars().collect(),
        vec!["EY1".chars().collect(), "B".chars().collect(), "IY1".chars().collect()],
    );
    let result = g2p_word("ab", &dict);
    assert_eq!(result.char_phone_counts, vec![2, 1]);
}

#[test]
fn english_token_detection() {
    assert!(is_english_token("Style-Bert-VITS2"));
    assert!(is_english_token("don't"));
    assert!(!is_english_token("中文"));
    assert!(!is_english_token("a b"));
}

#[test]
fn dictionary_from_file_text() {
    let mut text = String::new();
    for _ in 0..48 {
        text.push_str(";;; header\n");
    }
    text.push_str("HELLO  HH AH0 - L OW1\r\nWORLD  W ER1 L D\n");
    let dict = CmuDict::from_text(&text);
    let hello = g2p_word("hello", &dict);
    assert_eq!(hello.phones, vec!["hh", "ah", "l", "ow"]);
    let world = g2p_word("WORLD", &dict);
    assert_eq!(world.phones, vec!["w", "er", "l", "d"]);
    assert_eq!(world.tones, vec![3, 2, 3, 3]);
}
