use riamify::{encode_message, synthesis_error, RiamifyError};

#[test]
fn message_is_shift_jis_and_null_terminated() {
    assert_eq!(encode_message("あ"), vec![0x82, 0xA0, 0]);
    assert_eq!(encode_message("abc"), vec![b'a', b'b', b'c', 0]);
    assert_eq!(encode_message(""), vec![0]);
    assert_eq!(encode_message("a\0"), vec![b'a', 0]);
}

#[test]
fn synthesis_error_codes() {
    assert!(matches!(synthesis_error(101), RiamifyError::OutOfMemory));
    assert!(matches!(synthesis_error(102), RiamifyError::UndefinedSymbol));
    assert!(matches!(synthesis_error(105), RiamifyError::UndefinedSymbol));
    assert!(matches!(synthesis_error(103), RiamifyError::NegativeProsody));
    assert!(matches!(synthesis_error(106), RiamifyError::InvalidTag));
    assert!(matches!(synthesis_error(107), RiamifyError::TooLongTag));
    assert!(matches!(synthesis_error(108), RiamifyError::InvalidTagNumber));
    assert!(matches!(synthesis_error(111), RiamifyError::NoData));
    assert!(matches!(synthesis_error(200), RiamifyError::TooLong));
    assert!(matches!(synthesis_error(201), RiamifyError::TooLongPhrase));
    assert!(matches!(synthesis_error(202), RiamifyError::Overflow));
    assert!(matches!(synthesis_error(204), RiamifyError::Overflow));
    assert!(matches!(synthesis_error(203), RiamifyError::LowHeapMemory));
    assert!(matches!(synthesis_error(0), RiamifyError::Other));
    assert!(matches!(synthesis_error(104), RiamifyError::Other));
}

#[test]
fn error_messages() {
    assert_eq!(RiamifyError::DllError.message(), "DLLの読み込みに失敗しました");
    assert_eq!(RiamifyError::Other.message(), "その他のエラーです");
    assert_eq!(RiamifyError::OutOfMemory.message(), "メモリが不足しています");
    assert_eq!(RiamifyError::UndefinedSymbol.message(), "処理できない記号を含んでいます");
    assert_eq!(RiamifyError::NegativeProsody.message(), "negaive prosodyエラーです");
    assert_eq!(RiamifyError::InternalError.message(), "内部エラーで寸");
    assert_eq!(RiamifyError::InvalidTag.message(), "不正なタグです");
    assert_eq!(RiamifyError::TooLongTag.message(), "タグが長すぎます");
    assert_eq!(RiamifyError::InvalidTagNumber.message(), "不正な数字です");
    assert_eq!(RiamifyError::NoData.message(), "データがありません");
    assert_eq!(RiamifyError::TooLong.message(), "長すぎます");
    assert_eq!(RiamifyError::TooLongPhrase.message(), "フレーズが長すぎます");
    assert_eq!(RiamifyError::Overflow.message(), "オーバーフローしました");
    assert_eq!(RiamifyError::LowHeapMemory.message(), "ヒープメモリが不足しています");
    assert_eq!(RiamifyError::Custom("独自".to_string()).message(), "独自");
}

#[test]
fn error_messages_with_detail() {
    let io = std::io::Error::new(std::io::ErrorKind::Other, "disk");
    assert_eq!(RiamifyError::IoError(io).message(), "I/Oエラーです：disk");
    let io = std::io::Error::new(std::io::ErrorKind::Other, "x");
    assert_eq!(RiamifyError::IoError(io).message_with_detail("詳細"), "I/Oエラーです：詳細");
    let yaml = serde_yaml::from_str::<Vec<u8>>("[").unwrap_err();
    let text = format!("{}", yaml);
    let m = RiamifyError::YamlError(yaml).message();
    assert_eq!(m, format!("YAMLのパースに失敗しました：{}", text));
    assert!(text.len() > 0);
    assert_eq!(RiamifyError::TooLong.message_with_detail("ignored"), "長すぎます");
}
