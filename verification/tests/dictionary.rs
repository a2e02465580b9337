use riamify::dictionary::{Dictionary, Pattern};
use riamify::rules::read_rules;
use riamify::settings::{Settings, Word};

fn lines(ls: &[&str]) -> Vec<String> {
    ls.iter().map(|l| l.to_string()).collect()
}

#[test]
fn default_rules_turn_fullwidth_into_ascii() {
    let mut d = Dictionary::default();
    d.build_ac();
    assert!(d.can_replace("ＡＢＣ"));
    assert_eq!(d.try_replace("ＡＢＣ１２３ｘｙｚ"), "ABC123xyz");
    assert_eq!(d.try_replace("ねこ"), "ねこ");
}

#[test]
fn without_automaton_text_is_unchanged() {
    let d = Dictionary::default();
    assert!(d.can_replace("ＡＢＣ"));
    assert_eq!(d.try_replace("ＡＢＣ"), "ＡＢＣ");
}

#[test]
fn custom_rules_are_guarded_by_sharps() {
    let mut d = Dictionary::empty();
    d.load_custom(&[Pattern { priority: 0, from: "猫", to: "ねこ" }]);
    d.build_ac();
    assert_eq!(d.try_replace("猫と#"), "# ねこ #と# しゃ'ーぷ #");
}

#[test]
fn loading_after_building_blocks_replacement() {
    let mut d = Dictionary::empty();
    d.build_ac();
    assert!(d.can_replace("ＡＢＣ"));
    d.load_custom(&[]);
    assert!(!d.can_replace("ＡＢＣ"));
    d.build_ac();
    assert!(d.can_replace("ＡＢＣ"));
}

#[test]
fn line_rules_follow_priority() {
    let (from, to) = read_rules(&lines(&["猫 ねこ,にゃんこ 1,2\n"]));
    assert_eq!(from, vec!["猫", "猫"]);
    assert_eq!(to, vec!["にゃんこ", "ねこ"]);
    let mut d = Dictionary::empty();
    d.load_lines(&lines(&["猫 ねこ,にゃんこ 1,2\n"]));
    d.build_ac();
    assert_eq!(d.try_replace("猫だ"), "にゃんこだ");
}

#[test]
fn missing_priority_keeps_first_replacement_only() {
    let (from, to) = read_rules(&lines(&["a b,c\n"]));
    assert_eq!(from, vec!["a"]);
    assert_eq!(to, vec!["b"]);
}

#[test]
fn unreadable_priority_counts_as_zero() {
    let (_, to) = read_rules(&lines(&["犬 いぬ,わんこ,ワン x,5,-1\n"]));
    assert_eq!(to, vec!["わんこ", "いぬ", "ワン"]);
}

#[test]
fn equal_priorities_order_by_replacement_descending() {
    let (_, to) = read_rules(&lines(&["x a,c,b 0,0,0\n"]));
    assert_eq!(to, vec!["c", "b", "a"]);
}

#[test]
fn short_line_is_read_with_the_next() {
    let (from, to) = read_rules(&lines(&["猫\n", "ねこ\n"]));
    assert_eq!(from, vec!["猫"]);
    assert_eq!(to, vec!["ねこ"]);
    let (from, to) = read_rules(&lines(&["\n", "犬　いぬ\n"]));
    assert_eq!(from, vec!["犬"]);
    assert_eq!(to, vec!["いぬ"]);
}

#[test]
fn empty_line_ends_the_file() {
    let (from, _) = read_rules(&lines(&["a b\n", "", "c d\n"]));
    assert_eq!(from, vec!["a"]);
}

#[test]
fn pending_text_at_end_is_dropped() {
    let (from, _) = read_rules(&lines(&["a b\n", "c\n"]));
    assert_eq!(from, vec!["a"]);
}

#[test]
fn dictionary_for_settings() {
    let mut s = Settings::default();
    s.dictionary.push(Word { word: "猫".to_string(), replace: "ねこ".to_string() });
    let d = Dictionary::for_settings(&s, &[lines(&["犬 いぬ\n"])]);
    assert!(d.can_replace("ＡＢＣ"));
    assert_eq!(d.try_replace("猫と犬とＡ"), "# ねこ #といぬとA");
}

#[test]
fn empty_word_blocks_replacement_of_non_ascii_text() {
    let mut d = Dictionary::empty();
    d.load_custom(&[Pattern { priority: 0, from: "", to: "x" }]);
    d.build_ac();
    assert!(d.can_replace("abc"));
    assert!(!d.can_replace("ねこ"));
    assert_eq!(d.try_replace("ab"), "ab");
}

#[test]
fn first_added_pattern_wins_at_a_place() {
    let mut d = Dictionary::empty();
    d.load_custom(&[
        Pattern { priority: 0, from: "append", to: "x" },
        Pattern { priority: 0, from: "appendage", to: "y" },
        Pattern { priority: 0, from: "app", to: "z" },
    ]);
    d.build_ac();
    assert!(d.can_replace("append the app to the appendage"));
    assert_eq!(
        d.try_replace("append the app to the appendage"),
        "# x # the # z # to the # x #age"
    );
}

#[test]
fn leftmost_match_comes_before_an_earlier_pattern() {
    let mut d = Dictionary::empty();
    d.load_custom(&[
        Pattern { priority: 0, from: "bc", to: "1" },
        Pattern { priority: 0, from: "abcd", to: "2" },
    ]);
    d.build_ac();
    assert_eq!(d.try_replace("abcd bce"), "# 2 # # 1 #e");
}

#[test]
fn fields_split_at_unicode_white_space() {
    let (from, to) = read_rules(&lines(&["a\tb\u{2003}1\n"]));
    assert_eq!(from, vec!["a"]);
    assert_eq!(to, vec!["b"]);
    let (from, _) = read_rules(&lines(&["a\u{200B}b c\n"]));
    assert_eq!(from, vec!["a\u{200B}b"]);
}
