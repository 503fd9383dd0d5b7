use sbv2_tts::tone_sandhi::ToneSandhi;

#[test]
fn bu_before_fourth_tone_becomes_second() {
    let sandhi = ToneSandhi::new();
    let finals = vec!["u4".to_string(), "ui4".to_string()];
    let result = sandhi.modified_tone("不对", "v", finals);
    assert_eq!(result, vec!["u2".to_string(), "ui4".to_string()]);
}

#[test]
fn third_tone_pair_applies_sandhi() {
    let sandhi = ToneSandhi::new();
    let finals = vec!["i3".to_string(), "ao3".to_string()];
    let result = sandhi.modified_tone("你好", "v", finals);
    assert_eq!(result, vec!["i2".to_string(), "ao3".to_string()]);
}

#[test]
fn yi_before_fourth_tone_becomes_second() {
    let sandhi = ToneSandhi::new();
    let result = sandhi.modified_tone("一样", "d", vec!["i1".to_string(), "iang4".to_string()]);
    assert_eq!(result, vec!["i2".to_string(), "iang4".to_string()]);
}

#[test]
fn ordinal_yi_takes_first_tone() {
    let sandhi = ToneSandhi::new();
    let result = sandhi.modified_tone("第一", "m", vec!["i4".to_string(), "i4".to_string()]);
    assert_eq!(result, vec!["i4".to_string(), "i1".to_string()]);
}

#[test]
fn sentence_final_particle_is_neutral() {
    let sandhi = ToneSandhi::new();
    let result = sandhi.modified_tone("好吧", "y", vec!["ao3".to_string(), "a1".to_string()]);
    assert_eq!(result[1], "a5");
}

#[test]
fn pre_merge_joins_bu_and_reduplication() {
    let sandhi = ToneSandhi::new();
    let seg = vec![
        ("不".to_string(), "d".to_string()),
        ("好".to_string(), "a".to_string()),
        ("看看".to_string(), "v".to_string()),
        ("看看".to_string(), "v".to_string()),
    ];
    let merged = sandhi.pre_merge_for_modify(seg);
    assert_eq!(merged[0].0, "不好");
    assert_eq!(merged[1].0, "看看看看");
    assert_eq!(merged.len(), 2);
}

#[test]
fn pre_merge_joins_erhua() {
    let sandhi = ToneSandhi::new();
    let seg = vec![
        ("花".to_string(), "n".to_string()),
        ("儿".to_string(), "n".to_string()),
    ];
    let merged = sandhi.pre_merge_for_modify(seg);
    assert_eq!(merged, vec![("花儿".to_string(), "n".to_string())]);
}

#[test]
fn three_third_tones_split_two_plus_one() {
    let sandhi = ToneSandhi::new();
    let finals = vec!["an3".to_string(), "an3".to_string(), "uan3".to_string()];
    let result = sandhi.modified_tone("展览馆", "n", finals);
    assert_eq!(result, vec!["an2".to_string(), "an2".to_string(), "uan3".to_string()]);
}

#[test]
fn pre_merge_fuses_repeated_v_yi_v_without_repeating_text() {
    let sandhi = ToneSandhi::new();
    let seg: Vec<(String, String)> = [("看", "v"), ("一", "m"), ("看", "v"), ("一", "m"), ("看", "v")]
        .iter()
        .map(|(w, p)| (w.to_string(), p.to_string()))
        .collect();
    let merged = sandhi.pre_merge_for_modify(seg);
    assert_eq!(merged, vec![("看一看一看".to_string(), "v".to_string())]);
}

#[test]
fn pre_merge_fuses_yi_with_following_word_of_other_tag() {
    let sandhi = ToneSandhi::new();
    let seg: Vec<(String, String)> = [("看", "n"), ("一", "m"), ("看", "v")]
        .iter()
        .map(|(w, p)| (w.to_string(), p.to_string()))
        .collect();
    let merged = sandhi.pre_merge_for_modify(seg);
    let text: String = merged.iter().map(|(w, _)| w.as_str()).collect();
    assert_eq!(text, "看一看");
}
