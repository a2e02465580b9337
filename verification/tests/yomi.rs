use riamify::yomi::{apply_accent, feature_fields, feature_from_records, is_readable, parse_feature, try_fallback_yomi};
use riamify::yomi::{NodeKana, YomiBuilder};

fn kana(counter: &str, reading: &str, bypass: &str, fallback: &str) -> NodeKana {
    NodeKana {
        counter: counter.to_string(),
        reading: reading.to_string(),
        bypass: bypass.to_string(),
        fallback: fallback.to_string(),
    }
}

/// A feature string in the UniDic layout: part of speech in field 0, its
/// subclass in 1 and 2, the counter reading in 6, the reading in 9 and the
/// accent type in 23.
fn feature(pos: &str, sub1: &str, sub2: &str, counter: &str, reading: &str, accent: &str) -> String {
    let mut f: Vec<String> = vec!["*".to_string(); 26];
    f[0] = pos.to_string();
    f[1] = sub1.to_string();
    f[2] = sub2.to_string();
    f[6] = counter.to_string();
    f[9] = reading.to_string();
    f[23] = accent.to_string();
    f.join(",")
}

#[test]
fn accent_type_one_marks_before_first_full_kana() {
    assert_eq!(apply_accent("はし".to_string(), '1', false), "は'し");
    assert_eq!(apply_accent("きょう".to_string(), '1', false), "きょ'う");
    assert_eq!(apply_accent("あー".to_string(), '1', false), "あー");
    assert_eq!(apply_accent("".to_string(), '1', false), "");
    assert_eq!(apply_accent("あ".to_string(), '1', false), "あ");
}

#[test]
fn accent_type_two_marks_the_end() {
    assert_eq!(apply_accent("はし".to_string(), '2', false), "はし'");
}

#[test]
fn accent_other_types_and_bouyomi_leave_reading() {
    assert_eq!(apply_accent("はし".to_string(), '0', false), "はし");
    assert_eq!(apply_accent("はし".to_string(), '*', false), "はし");
    assert_eq!(apply_accent("はし".to_string(), '1', true), "はし");
    assert_eq!(apply_accent("はし".to_string(), '2', true), "はし");
}

#[test]
fn readable_characters() {
    assert!(is_readable('あ'));
    assert!(is_readable('ー'));
    assert!(is_readable('？'));
    assert!(!is_readable('a'));
    assert!(!is_readable('ア'));
    assert!(!is_readable('漢'));
}

#[test]
fn fallback_for_punctuation() {
    assert_eq!(try_fallback_yomi("、", ""), "、");
    assert_eq!(try_fallback_yomi(",", ""), "、");
    assert_eq!(try_fallback_yomi("．", ""), "。");
    assert_eq!(try_fallback_yomi("!", ""), "。");
    assert_eq!(try_fallback_yomi("?", ""), "？");
    assert_eq!(try_fallback_yomi("'", ""), "'");
    assert_eq!(try_fallback_yomi("(", ""), "/か'っこ/");
    assert_eq!(try_fallback_yomi("）", ""), "/か'っことじ/");
    assert_eq!(try_fallback_yomi("「", ""), ",");
    assert_eq!(try_fallback_yomi("-", ""), "ー");
}

#[test]
fn fallback_keeps_only_readable_characters() {
    assert_eq!(try_fallback_yomi("ABCあ", "abcあ"), "あ");
    assert_eq!(try_fallback_yomi("ネコ", "ねこ"), "ねこ");
    assert_eq!(try_fallback_yomi("xyz", "xyz"), "");
}

#[test]
fn feature_is_cut_or_padded_to_thirty_fields() {
    let f = parse_feature("a,b,c").unwrap();
    assert_eq!(f.len(), 30);
    assert_eq!(f[0], "a");
    assert_eq!(f[2], "c");
    assert_eq!(f[3], "");
    let long: Vec<String> = (0..40).map(|i| i.to_string()).collect();
    let f = parse_feature(&long.join(",")).unwrap();
    assert_eq!(f.len(), 30);
    assert_eq!(f[29], "29");
    let f = parse_feature("\"x,y\",z").unwrap();
    assert_eq!(f[0], "x,y");
    assert_eq!(f[1], "z");
}

#[test]
fn feature_without_record() {
    assert!(parse_feature("").is_none());
    let f = feature_fields("");
    assert_eq!(f.len(), 30);
    assert!(f.iter().all(|x| x.is_empty()));
}

fn run(nodes: &[(&str, String, NodeKana)], bouyomi: bool) -> String {
    let mut b = YomiBuilder::new(bouyomi);
    for (s, f, k) in nodes {
        b.feed(s, f, k);
    }
    b.finish()
}

#[test]
fn yomi_words_and_particle() {
    let nodes = vec![
        ("尾崎", feature("名詞", "固有名詞", "人名", "*", "オザキ", "1"), kana("", "おざき", "", "")),
        ("由香", feature("名詞", "固有名詞", "人名", "*", "ユカ", "1"), kana("", "ゆか", "", "")),
        ("って", feature("助詞", "副助詞", "*", "*", "ッテ", "*"), kana("", "って", "", "")),
    ];
    assert_eq!(run(&nodes, true), "おざき/ゆか+って");
    assert_eq!(run(&nodes, false), "お'ざき/ゆ'か+って");
}

#[test]
fn yomi_verb_with_particles() {
    let nodes = vec![
        ("し", feature("動詞", "非自立可能", "*", "*", "シ", "0"), kana("", "し", "", "")),
        ("て", feature("助詞", "接続助詞", "*", "*", "テ", "*"), kana("", "て", "", "")),
        ("みろ", feature("動詞", "非自立可能", "*", "*", "ミロ", "0"), kana("", "みろ", "", "")),
        ("って", feature("助詞", "副助詞", "*", "*", "ッテ", "*"), kana("", "って", "", "")),
    ];
    assert_eq!(run(&nodes, true), "し+て/みろ+って");
}

#[test]
fn yomi_word_ending_in_long_vowel() {
    let nodes = vec![("みゃー", feature("感動詞", "一般", "*", "*", "ミャー", "1"), kana("", "みゃー", "", ""))];
    assert_eq!(run(&nodes, true), "みゃー");
}

#[test]
fn yomi_attached_desu_gets_accent_one() {
    let nodes = vec![
        ("猫", feature("名詞", "普通名詞", "一般", "*", "ネコ", "1"), kana("", "ねこ", "", "")),
        ("です", feature("助動詞", "*", "*", "*", "デス", "*"), kana("", "です", "", "")),
    ];
    assert_eq!(run(&nodes, false), "ね'こ+で'す");
}

#[test]
fn yomi_numbers_with_counters() {
    let three_tsu = vec![
        ("3", feature("名詞", "数詞", "*", "*", "サン", "0"), kana("", "さん", "", "")),
        ("つ", feature("名詞", "普通名詞", "助数詞", "ツ", "ツ", "*"), kana("つ", "つ", "", "")),
    ];
    assert_eq!(run(&three_tsu, true), "みっつ");
    let twelve_ko = vec![
        ("12", feature("名詞", "数詞", "*", "*", "ジュウニ", "0"), kana("", "じゅうに", "", "")),
        ("個", feature("名詞", "普通名詞", "助数詞", "コ", "コ", "*"), kana("こ", "こ", "", "")),
    ];
    assert_eq!(run(&twelve_ko, true), "<NUMK VAL=12 COUNTER=こ>");
    let eleven_tsu = vec![
        ("11", feature("名詞", "数詞", "*", "*", "ジュウイチ", "0"), kana("", "じゅういち", "", "")),
        ("つ", feature("名詞", "普通名詞", "助数詞", "ツ", "ツ", "*"), kana("つ", "つ", "", "")),
    ];
    assert_eq!(run(&eleven_tsu, true), "<NUMK VAL=11 COUNTER=つ>");
}

#[test]
fn yomi_pending_number_is_written_at_the_end() {
    let nodes = vec![
        ("3", feature("名詞", "数詞", "*", "*", "サン", "0"), kana("", "さん", "", "")),
        (".", feature("補助記号", "句点", "*", "*", "*", "*"), kana("", "*", "", ".")),
        ("5", feature("名詞", "数詞", "*", "*", "ゴ", "0"), kana("", "ご", "", "")),
    ];
    assert_eq!(run(&nodes, true), "<NUMK VAL=3.5>");
}

#[test]
fn yomi_number_before_word() {
    let nodes = vec![
        ("7", feature("名詞", "数詞", "*", "*", "ナナ", "0"), kana("", "なな", "", "")),
        ("猫", feature("名詞", "普通名詞", "一般", "*", "ネコ", "1"), kana("", "ねこ", "", "")),
    ];
    assert_eq!(run(&nodes, true), "<NUMK VAL=7>/ねこ");
}

#[test]
fn yomi_text_between_sharps_bypasses_analysis() {
    let sym = feature("補助記号", "一般", "*", "*", "", "*");
    let mut b = YomiBuilder::new(true);
    b.feed("#", &sym, &kana("", "", "", ""));
    b.feed("シャー", &feature("名詞", "普通名詞", "一般", "*", "シャー", "1"), &kana("", "しゃー", "", ""));
    b.feed("プ", &feature("名詞", "普通名詞", "一般", "*", "プ", "1"), &kana("", "ぷ", "", ""));
    assert_eq!(b.sharp_buffer(), "シャープ");
    b.feed("#", &sym, &kana("", "", "しゃーぷ", ""));
    assert_eq!(b.sharp_buffer(), "");
    assert_eq!(b.finish(), "しゃーぷ");
}

#[test]
fn yomi_unknown_word_uses_fallback() {
    let nodes = vec![("ＸＹ", feature("名詞", "普通名詞", "一般", "*", "*", "*"), kana("", "*", "", "xy"))];
    assert_eq!(run(&nodes, true), "");
    let nodes = vec![("、", feature("補助記号", "読点", "*", "*", "", "*"), kana("", "", "", "、"))];
    assert_eq!(run(&nodes, true), "、");
}

#[test]
fn yomi_empty_surfaces_are_skipped() {
    let nodes = vec![("", feature("名詞", "数詞", "*", "*", "サン", "0"), kana("", "さん", "", ""))];
    assert_eq!(run(&nodes, true), "");
}

fn without_marks(s: &str) -> String {
    s.chars().filter(|c| *c != '\'').collect()
}

#[test]
fn bouyomi_only_drops_accent_marks() {
    let nodes = vec![
        ("尾崎", feature("名詞", "固有名詞", "人名", "*", "オザキ", "1"), kana("", "おざき", "", "")),
        ("はし", feature("名詞", "普通名詞", "一般", "*", "ハシ", "2"), kana("", "はし", "", "")),
        ("って", feature("助詞", "副助詞", "*", "*", "ッテ", "*"), kana("", "って", "", "")),
        ("12", feature("名詞", "数詞", "*", "*", "ジュウニ", "0"), kana("", "じゅうに", "", "")),
        ("です", feature("助動詞", "*", "*", "*", "デス", "*"), kana("", "です", "", "")),
    ];
    let accented = run(&nodes, false);
    let plain = run(&nodes, true);
    assert_eq!(accented, "お'ざき/はし'+って<NUMK VAL=12>+で'す");
    assert_eq!(plain, "おざき/はし+って<NUMK VAL=12>+です");
    assert_eq!(without_marks(&accented), without_marks(&plain));
}

#[test]
fn end_mark_after_sokuon_keeps_it_before_separator() {
    let sym = feature("補助記号", "一般", "*", "*", "", "*");
    let nodes = vec![
        ("あっ", feature("感動詞", "一般", "*", "*", "アッ", "2"), kana("", "あっ", "", "")),
        ("#", sym.clone(), kana("", "", "", "")),
        ("#", sym, kana("", "", "", "")),
        ("ね", feature("名詞", "普通名詞", "一般", "*", "ネ", "0"), kana("", "ね", "", "")),
    ];
    assert_eq!(run(&nodes, false), "あっ'/ね");
    assert_eq!(run(&nodes, true), "あ/ね");
}

#[test]
fn end_mark_after_sokuon_without_later_separator_only_adds_marks() {
    let nodes = vec![
        ("ねこ", feature("名詞", "普通名詞", "一般", "*", "ネコ", "0"), kana("", "ねこ", "", "")),
        ("あっ", feature("感動詞", "一般", "*", "*", "アッ", "2"), kana("", "あっ", "", "")),
    ];
    let accented = run(&nodes, false);
    let plain = run(&nodes, true);
    assert_eq!(accented, "ねこ/あっ'");
    assert_eq!(plain, "ねこ/あっ");
    assert_eq!(without_marks(&accented), without_marks(&plain));

    let nodes = vec![
        ("あっ", feature("感動詞", "一般", "*", "*", "アッ", "2"), kana("", "あっ", "", "")),
        ("と", feature("助詞", "格助詞", "*", "*", "ト", "*"), kana("", "と", "", "")),
    ];
    let accented = run(&nodes, false);
    let plain = run(&nodes, true);
    assert_eq!(accented, "あっ'と");
    assert_eq!(plain, "あっと");
    assert_eq!(without_marks(&accented), without_marks(&plain));
}

fn fields(v: &[&str]) -> Vec<String> {
    v.iter().map(|s| s.to_string()).collect()
}

#[test]
fn feature_from_first_readable_record() {
    let f = feature_from_records(vec![None, Some(fields(&["a", "b"])), Some(fields(&["c"]))]).unwrap();
    assert_eq!(f.len(), 30);
    assert_eq!(f[0], "a");
    assert_eq!(f[1], "b");
    assert!(f[2..].iter().all(|x| x.is_empty()));

    let long: Vec<String> = (0..35).map(|i| i.to_string()).collect();
    let f = feature_from_records(vec![Some(long.clone())]).unwrap();
    assert_eq!(f, long[..30].to_vec());

    assert!(feature_from_records(vec![]).is_none());
    assert!(feature_from_records(vec![None, None]).is_none());
}
