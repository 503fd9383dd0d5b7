use sbv2_tts::cn2an::replace_numbers;
use sbv2_tts::normalizer::{normalize_text, replace_punctuation};

#[test]
fn normalizes_numbers_and_punctuation() {
    assert_eq!(
        normalize_text("你好，世界！123abc"),
        "你好,世界!一百二十三abc"
    );
}

#[test]
fn replaces_arabic_numbers_with_chinese() {
    assert_eq!(replace_numbers("我有123个苹果"), "我有一百二十三个苹果");
    assert_eq!(replace_numbers("价格是0.5元"), "价格是零点五元");
}

#[test]
fn numerals_of_various_sizes() {
    assert_eq!(replace_numbers("0"), "零");
    assert_eq!(replace_numbers("10"), "十");
    assert_eq!(replace_numbers("12"), "十二");
    assert_eq!(replace_numbers("105"), "一百零五");
    assert_eq!(replace_numbers("1000"), "一千");
    assert_eq!(replace_numbers("10001"), "一万零一");
    assert_eq!(replace_numbers("20000"), "二万");
    assert_eq!(replace_numbers("100000000"), "一亿");
    assert_eq!(replace_numbers("3.14"), "三点一四");
    assert_eq!(replace_numbers("1."), "一.");
    assert_eq!(replace_numbers("007"), "七");
    assert_eq!(replace_numbers("abc"), "abc");
}

#[test]
fn numerals_beyond_signed_128_bits_stay_as_written() {
    let big = "1".repeat(40);
    assert_eq!(replace_numbers(&big), big);
    assert_eq!(replace_numbers(&format!("{big}.5")), format!("{big}点五"));
}

#[test]
fn punctuation_is_folded_and_unsupported_characters_dropped() {
    assert_eq!(replace_punctuation("（你好）"), "'你好'");
    assert_eq!(replace_punctuation("等等..."), "等等…");
    assert_eq!(replace_punctuation("嗯呣"), "恩母");
    assert_eq!(replace_punctuation("a#b$c\nd"), "ab.c.d");
    assert_eq!(replace_punctuation("～~—"), "---");
}

#[test]
fn normalize_twice_equals_once() {
    for text in ["你好，世界！123abc", "价格是0.5元", "（测试）...好的", "a b\tc"] {
        let once = normalize_text(text);
        assert_eq!(normalize_text(&once), once);
    }
}
