use sbv2_tts::config::{default_add_blank, default_sampling_rate, HyperParametersData};
use sbv2_tts::model::{
    blank_word2ph, default_style_id, intersperse, min_id, name_of_id, names_by_id, phone_ids,
    response_format_accepted, AudioFormat, clamp_style_id, clamp_style_table,
};
use sbv2_tts::symbols::Language;

#[test]
fn intersperse_surrounds_with_blanks() {
    assert_eq!(intersperse(&[5, 6, 7], 0), vec![0, 5, 0, 6, 0, 7, 0]);
    assert_eq!(intersperse(&[], 9), vec![9]);
}

#[test]
fn blank_word2ph_keeps_phone_count() {
    let phones = [1i64, 2, 3, 4, 5, 6];
    let mut w = vec![1usize, 2, 2, 1];
    blank_word2ph(&mut w);
    assert_eq!(w, vec![3, 4, 4, 2]);
    assert_eq!(w.iter().sum::<usize>(), intersperse(&phones, 0).len());
}

#[test]
fn phone_and_tone_ids() {
    let phones: Vec<String> = ["_", "n", "i", "_"].iter().map(|s| s.to_string()).collect();
    let ids = phone_ids(&phones, &vec![0, 3, 3, 0], Language::Zh).expect("known phones");
    assert_eq!(ids.phone_ids, vec![0, 62, 40, 0]);
    assert_eq!(ids.tone_ids, vec![0, 3, 3, 0]);
    assert_eq!(ids.lang_ids, vec![0, 0, 0, 0]);
    let en = phone_ids(&phones, &vec![0, 1, 1, 0], Language::En).expect("known phones");
    assert_eq!(en.tone_ids, vec![8, 9, 9, 8]);
    assert_eq!(en.lang_ids, vec![2, 2, 2, 2]);
    let bad: Vec<String> = vec!["nope".to_string()];
    assert!(phone_ids(&bad, &vec![0], Language::Zh).is_err());
}

#[test]
fn language_codes() {
    assert_eq!(Language::Zh.as_code(), "ZH");
    assert_eq!(Language::from_code("jp"), Some(Language::Jp));
    assert_eq!(Language::from_code("xx"), None);
}

#[test]
fn speaker_and_style_defaults() {
    let table = vec![("b".to_string(), 3usize), ("a".to_string(), 1usize)];
    assert_eq!(min_id(&table), 1);
    assert_eq!(min_id(&vec![]), 0);
    let styles = vec![("Neutral".to_string(), 5usize), ("Happy".to_string(), 1usize)];
    assert_eq!(default_style_id(&styles, 3), 2);
    assert_eq!(default_style_id(&styles, 10), 5);
    assert_eq!(default_style_id(&vec![], 4), 0);
}

#[test]
fn configuration_defaults() {
    assert_eq!(default_sampling_rate(), 44100);
    assert!(default_add_blank());
    let mut data = HyperParametersData {
        use_jp_extra: false,
        sampling_rate: 22050,
        add_blank: true,
        cleaned_text: true,
        spk2id: vec![],
        num_styles: 0,
        style2id: vec![],
    };
    data.complete_styles();
    assert_eq!(data.num_styles, 1);
    assert_eq!(data.style2id, vec![("0".to_string(), 0)]);
    let mut data2 = HyperParametersData { num_styles: 12, style2id: vec![], ..data };
    data2.complete_styles();
    assert_eq!(data2.style2id.len(), 12);
    assert_eq!(data2.style2id[2], ("10".to_string(), 10));
    assert_eq!(data2.style2id[11], ("9".to_string(), 9));
    let names: Vec<&String> = data2.style2id.iter().map(|(n, _)| n).collect();
    let mut sorted = names.clone();
    sorted.sort();
    assert_eq!(names, sorted);
}

#[test]
fn audio_and_response_formats() {
    assert_eq!(AudioFormat::Wav.as_str(), "wav");
    assert_eq!(AudioFormat::Mp3.as_str(), "mp3");
    assert_eq!(AudioFormat::from_name(None), Some(AudioFormat::Wav));
    assert_eq!(AudioFormat::from_name(Some("mp3")), Some(AudioFormat::Mp3));
    assert_eq!(AudioFormat::from_name(Some("ogg")), None);
    assert!(response_format_accepted(None));
    assert!(response_format_accepted(Some("b64_json")));
    assert!(response_format_accepted(Some("base64")));
    assert!(!response_format_accepted(Some("url")));
}

#[test]
fn names_of_ids() {
    let table = vec![("b".to_string(), 3usize), ("a".to_string(), 1usize), ("c".to_string(), 3usize)];
    assert_eq!(name_of_id(&table, 3), Some("b".to_string()));
    assert_eq!(name_of_id(&table, 7), None);
}

#[test]
fn names_ordered_by_id() {
    let table = vec![
        ("c".to_string(), 2usize),
        ("a".to_string(), 0usize),
        ("d".to_string(), 2usize),
        ("b".to_string(), 1usize),
    ];
    assert_eq!(names_by_id(&table), vec!["a", "b", "c", "d"]);
    assert!(names_by_id(&vec![]).is_empty());
}

#[test]
fn style_ids_are_clamped() {
    assert_eq!(clamp_style_id(7, 3), 2);
    assert_eq!(clamp_style_id(1, 3), 1);
    let table = vec![("Neutral".to_string(), 0usize), ("Happy".to_string(), 9usize)];
    let clamped = clamp_style_table(&table, 4);
    assert_eq!(clamped, vec![("Neutral".to_string(), 0), ("Happy".to_string(), 3)]);
}
