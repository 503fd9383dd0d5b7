use sbv2_tts::english::CmuDict;
use sbv2_tts::g2p::{finals_with_tone, g2p, get_syllables, reconcile_word2ph};
use sbv2_tts::normalizer::normalize_text;
use sbv2_tts::tone_sandhi::ToneSandhi;

fn run(text: &str, sandhi: &ToneSandhi) -> (Vec<String>, Vec<i32>, Vec<usize>) {
    let dict = CmuDict::new();
    g2p(text, sandhi, &dict).expect("g2p succeeds")
}

#[test]
fn g2p_single_character() {
    let sandhi = ToneSandhi::new();
    let (phones, tones, word2ph) = run("你", &sandhi);
    assert_eq!(phones, vec!["_", "n", "i", "_"]);
    assert_eq!(tones, vec![0, 3, 3, 0]);
    assert_eq!(word2ph, vec![1, 2, 1]);
}

#[test]
fn g2p_applies_tone_sandhi() {
    let sandhi = ToneSandhi::new();
    let (phones, tones, word2ph) = run("你好", &sandhi);
    assert_eq!(phones, vec!["_", "n", "i", "h", "ao", "_"]);
    assert_eq!(tones, vec![0, 2, 2, 3, 3, 0]);
    assert_eq!(word2ph, vec![1, 2, 2, 1]);
}

#[test]
fn finals_with_tone_extraction() {
    assert_eq!(
        finals_with_tone("不对"),
        vec!["u4".to_string(), "ui4".to_string()]
    );
}

#[test]
fn g2p_mixed_language() {
    let sandhi = ToneSandhi::new();
    let (phones, tones, word2ph) = run("Hello世界", &sandhi);
    assert!(phones.iter().any(|p| p == "hh"));
    assert!(phones.iter().any(|p| p == "sh"));
    assert_eq!(phones.len(), tones.len());
    assert_eq!(word2ph.iter().sum::<usize>(), phones.len());
    // 5 Latin letters + 2 Hanzi + 2 pads
    assert_eq!(word2ph.len(), 5 + 2 + 2);
}

#[test]
fn g2p_mixed_language_complex() {
    let sandhi = ToneSandhi::new();
    let text = "你好，欢迎使用风格语音合成Style-Bert-VITS2 ONNX TTS";
    let normalized = normalize_text(text);
    let (phones, _tones, word2ph) = run(&normalized, &sandhi);
    let sum: usize = word2ph.iter().sum();
    assert_eq!(word2ph.len(), normalized.chars().count() + 2);
    assert_eq!(phones.len(), sum);
    assert!(phones.len() > 0);
}

#[test]
fn g2p_english_sentence() {
    let sandhi = ToneSandhi::new();
    let text = "Occasionally give me gifts, and have special interactions with me on special holidays.";
    let normalized = normalize_text(text);
    let (phones, _tones, word2ph) = run(&normalized, &sandhi);
    let sum: usize = word2ph.iter().sum();
    assert_eq!(word2ph.len(), normalized.chars().count() + 2);
    assert_eq!(phones.len(), sum);
    assert!(phones.len() > 0);
}

#[test]
fn g2p_preserves_whitespace_around_tilde() {
    let sandhi = ToneSandhi::new();
    let text = "Hello ~ 世界";
    let normalized = normalize_text(text);
    assert!(
        normalized.contains('-'),
        "normalizer should convert '~' into '-'"
    );
    let (_phones, _tones, word2ph) = run(&normalized, &sandhi);
    assert_eq!(word2ph.len(), normalized.chars().count() + 2);
    for (idx, ch) in normalized.chars().enumerate() {
        if ch.is_ascii_whitespace() {
            assert_eq!(
                word2ph[idx + 1],
                0,
                "expected whitespace at char index {idx}"
            );
        }
    }
}

#[test]
fn g2p_long_romantic_phrase() {
    let sandhi = ToneSandhi::new();
    let text = "嗨！是命运的邂逅吗，还是……久别重逢呢？ 真让人心跳加速呀！那么，就像初遇时那样，再一次呼唤我『昔涟』，好吗？ 我是昔涟，很高兴见到你，我的伙伴！";
    let normalized = normalize_text(text);
    let (phones, tones, word2ph) = run(&normalized, &sandhi);
    println!("Normalized text: {normalized}");
    println!("Phones: {phones:?}");
    println!("Tones: {tones:?}");
    println!("word2ph: {word2ph:?}");
    assert_eq!(
        word2ph.len(),
        normalized.chars().count() + 2,
        "word2ph should align to normalized text"
    );
    assert_eq!(phones.len(), tones.len(), "phones/tones length mismatch");
    assert_eq!(
        phones.len(),
        word2ph.iter().sum::<usize>(),
        "word2ph count should equal phones"
    );
    assert!(
        phones.windows(2).any(|w| w[0] == "h" && w[1] == "ai"),
        "expected to find phones for '嗨'"
    );
    assert!(
        phones.contains(&"x".to_string()) && phones.contains(&"ian".to_string()),
        "expected Style-Bert phones for '昔涟'"
    );
}

#[test]
fn g2p_shape_on_whitespace_and_punctuation() {
    let sandhi = ToneSandhi::new();
    for text in ["", " ", "你 好", "a b", "一,二。", "...", "我们 were here", "你\u{3000}好"] {
        let (phones, tones, word2ph) = run(text, &sandhi);
        assert_eq!(phones.len(), tones.len());
        assert_eq!(phones.len(), word2ph.iter().sum::<usize>());
        assert_eq!(word2ph.len(), text.chars().count() + 2);
        assert_eq!(phones.first().map(String::as_str), Some("_"));
        assert_eq!(phones.last().map(String::as_str), Some("_"));
        assert_eq!(tones[0], 0);
        assert_eq!(*tones.last().unwrap(), 0);
        assert_eq!(word2ph[0], 1);
        assert!(*word2ph.last().unwrap() >= 1);
        for (i, c) in text.chars().enumerate() {
            if c.is_whitespace() {
                assert_eq!(word2ph[i + 1], 0);
            }
        }
    }
}

#[test]
fn g2p_neutral_particle_and_bu() {
    let sandhi = ToneSandhi::new();
    let (phones, tones, _w) = run("不对", &sandhi);
    assert_eq!(phones, vec!["_", "b", "u", "d", "ui", "_"]);
    assert_eq!(tones, vec![0, 2, 2, 4, 4, 0]);
}

#[test]
fn reconcile_spreads_a_deficit_from_the_left() {
    let text: Vec<char> = "ab".chars().collect();
    assert_eq!(reconcile_word2ph(vec![1, 1, 1], &text, 6), vec![1, 2, 2, 1]);
}

#[test]
fn reconcile_takes_a_surplus_from_the_right() {
    let text: Vec<char> = "ab".chars().collect();
    assert_eq!(reconcile_word2ph(vec![1, 2, 2, 1], &text, 4), vec![1, 2, 0, 1]);
}

#[test]
fn reconcile_residue_goes_to_the_last_entry() {
    let text: Vec<char> = " ".chars().collect();
    assert_eq!(reconcile_word2ph(vec![1, 3, 1], &text, 5), vec![1, 0, 4]);
}

#[test]
fn syllables_split_onset_and_final() {
    let s = get_syllables(&['你', '好', 'x']);
    assert_eq!(s.len(), 3);
    assert_eq!(s[0].initial, vec!['n']);
    assert_eq!(s[0].final_with_tone, vec!['i', '3']);
    assert_eq!(s[1].initial, vec!['h']);
    assert_eq!(s[1].final_with_tone, vec!['a', 'o', '3']);
    assert_eq!(s[2].initial, vec!['x']);
    assert_eq!(s[2].final_with_tone, vec!['x']);
}

#[test]
fn reconcile_handles_any_drift() {
    let text: Vec<char> = "ab".chars().collect();
    assert_eq!(reconcile_word2ph(vec![], &text, 4), vec![1, 1, 1, 1]);
    assert_eq!(reconcile_word2ph(vec![5, 5, 5, 5, 5], &text, 4), vec![1, 2, 0, 1]);
}
