use sbv2_tts::bert::{
    align_word2ph, bert_input_order, bert_output_dims, bert_token_inputs, AssistCache, BertInput,
};
use sbv2_tts::errors::TtsError;

#[test]
fn assist_cache_drops_least_recent_entry() {
    let mut cache: AssistCache<Vec<f32>> = AssistCache::new(2);
    let first = vec![0.0];
    let second = vec![1.0];
    let third = vec![2.0];

    cache.insert("first", first);
    cache.insert("second", second);
    cache.get("first");
    cache.insert("third", third);

    assert!(cache.contains_key("first"));
    assert!(cache.contains_key("third"));
    assert!(!cache.contains_key("second"));
}

#[test]
fn assist_cache_keeps_capacity() {
    let mut cache: AssistCache<u32> = AssistCache::new(3);
    for (i, k) in ["a", "b", "c", "d"].iter().enumerate() {
        cache.insert(k, i as u32);
    }
    assert_eq!(cache.len(), 3);
    assert!(!cache.contains_key("a"));
    assert_eq!(cache.get("d"), Some(&3));
    assert_eq!(cache.get("zz"), None);
}

#[test]
fn align_sums_counts_over_token_spans() {
    // "你好a": 3 + 3 + 1 bytes; tokens [CLS] 你 好a [SEP]
    let text = "你好a";
    let word2ph = [1usize, 2, 2, 1, 1];
    let offsets = [(0usize, 0usize), (0, 3), (3, 7), (0, 0)];
    let aligned = align_word2ph(text, &word2ph, &offsets).expect("aligns");
    assert_eq!(aligned, vec![1, 2, 3, 1]);
    assert_eq!(aligned.iter().sum::<usize>(), word2ph.iter().sum::<usize>());
}

#[test]
fn align_rejects_length_mismatch() {
    assert!(align_word2ph("你好", &[1, 2, 1], &[(0, 0), (0, 3), (0, 0)]).is_err());
    assert!(align_word2ph("你", &[], &[(0, 0)]).is_err());
    assert!(align_word2ph("你", &[1, 2, 1], &[]).is_err());
}

#[test]
fn assist_cache_reinsert_replaces_value() {
    let mut cache: AssistCache<u32> = AssistCache::new(2);
    cache.insert("a", 1);
    cache.insert("b", 2);
    cache.insert("a", 3);
    assert_eq!(cache.len(), 2);
    cache.insert("c", 4);
    assert!(!cache.contains_key("b"));
    assert_eq!(cache.get("a"), Some(&3));
    let zero: AssistCache<u32> = AssistCache::new(0);
    assert_eq!(zero.len(), 0);
}

#[test]
fn bert_inputs_follow_declared_names() {
    let names: Vec<String> = ["attention_mask", "input_ids", "segment_ids"].iter().map(|s| s.to_string()).collect();
    assert_eq!(
        bert_input_order(&names).expect("known names"),
        vec![BertInput::AttentionMask, BertInput::InputIds, BertInput::TokenTypeIds]
    );
    let bad: Vec<String> = vec!["input_ids".to_string(), "position_ids".to_string()];
    assert!(bert_input_order(&bad).is_err());
}

#[test]
fn bert_output_shapes() {
    assert_eq!(bert_output_dims(&vec![1, 7, 1024]).expect("3-d"), (7, 1024));
    assert_eq!(bert_output_dims(&vec![7, 1024]).expect("2-d"), (7, 1024));
    assert!(bert_output_dims(&vec![0, 7, 1024]).is_err());
    assert!(bert_output_dims(&vec![7]).is_err());
}

#[test]
fn bert_token_inputs_fill_type_ids() {
    let (ids, types, mask) = bert_token_inputs(&vec![101, 872, 102], &vec![], &vec![1, 1, 1]).expect("tokens");
    assert_eq!(ids, vec![101, 872, 102]);
    assert_eq!(types, vec![0, 0, 0]);
    assert_eq!(mask, vec![1, 1, 1]);
    assert!(matches!(bert_token_inputs(&vec![], &vec![], &vec![]), Err(TtsError::Tokenization(_))));
}

#[test]
fn align_keeps_total_with_gaps_and_inner_special_tokens() {
    let text = "你 好";
    let word2ph = [1usize, 2, 0, 2, 1];
    let offsets = [(0usize, 0usize), (0, 3), (0, 0), (4, 7), (0, 0)];
    let aligned = align_word2ph(text, &word2ph, &offsets).expect("aligns");
    assert_eq!(aligned, vec![1, 2, 0, 2, 1]);
    assert_eq!(aligned.iter().sum::<usize>(), word2ph.iter().sum::<usize>());
}
