//! Reading generation and dictionary replacement for a speech front end
//! built on the AquesTalk speech engine.

pub mod app;
pub mod dictionary;
pub mod ffi;
pub mod rules;
pub mod settings;
pub mod text;
pub mod wav;
pub mod yomi;

pub use app::{Preset, Presets};
pub use ffi::{encode_message, synthesis_error};

use vstd::prelude::*;

use text::{push_str, str_to_chars, string_from_chars};

verus! {

#[verifier::external_type_specification]
#[verifier::external_body]
pub struct ExIoError(std::io::Error);

#[verifier::external_type_specification]
#[verifier::external_body]
pub struct ExYamlError(serde_yaml::Error);

/// The errors of the library and of the speech engine.
#[derive(Debug)]
pub enum RiamifyError {
    IoError(std::io::Error),
    YamlError(serde_yaml::Error),
    DllError,
    Other,
    OutOfMemory,
    UndefinedSymbol,
    NegativeProsody,
    InternalError,
    InvalidTag,
    TooLongTag,
    InvalidTagNumber,
    NoData,
    TooLong,
    TooLongPhrase,
    Overflow,
    LowHeapMemory,
    Custom(String),
}

/// The message of `e`; `detail` is the text of the I/O or YAML error that
/// it carries, where it carries one.
pub open spec fn message_with(e: RiamifyError, detail: Seq<char>) -> Seq<char> {
    match e {
        RiamifyError::IoError(_) => "I/Oエラーです："@ + detail,
        RiamifyError::YamlError(_) => "YAMLのパースに失敗しました："@ + detail,
        RiamifyError::DllError => "DLLの読み込みに失敗しました"@,
        RiamifyError::Other => "その他のエラーです"@,
        RiamifyError::OutOfMemory => "メモリが不足しています"@,
        RiamifyError::UndefinedSymbol => "処理できない記号を含んでいます"@,
        RiamifyError::NegativeProsody => "negaive prosodyエラーです"@,
        RiamifyError::InternalError => "内部エラーで寸"@,
        RiamifyError::InvalidTag => "不正なタグです"@,
        RiamifyError::TooLongTag => "タグが長すぎます"@,
        RiamifyError::InvalidTagNumber => "不正な数字です"@,
        RiamifyError::NoData => "データがありません"@,
        RiamifyError::TooLong => "長すぎます"@,
        RiamifyError::TooLongPhrase => "フレーズが長すぎます"@,
        RiamifyError::Overflow => "オーバーフローしました"@,
        RiamifyError::LowHeapMemory => "ヒープメモリが不足しています"@,
        RiamifyError::Custom(s) => s@,
    }
}

/// The text that `std::io::Error`'s `Display` writes for `e`. It depends on
/// the operating system and is not stated.
#[verifier::external_body]
fn io_error_text(e: &std::io::Error) -> String {
    format!("{}", e)
}

/// The text that `serde_yaml::Error`'s `Display` writes for `e`. The error
/// is opaque here, so nothing is stated of the text.
#[verifier::external_body]
fn yaml_error_text(e: &serde_yaml::Error) -> String {
    format!("{}", e)
}

/// `prefix` followed by `detail`.
fn joined_message(prefix: &str, detail: &str) -> (res: String)
    ensures
        res@ == prefix@ + detail@,
{
    let mut v = str_to_chars(prefix);
    push_str(&mut v, detail);
    string_from_chars(v.as_slice())
}

impl RiamifyError {
    /// The message of this error, given the text of the I/O or YAML error
    /// that it carries (ignored for the other kinds).
    pub fn message_with_detail(&self, detail: &str) -> (res: String)
        ensures
            res@ == message_with(*self, detail@),
    {
        match self {
            RiamifyError::IoError(_) => joined_message("I/Oエラーです：", detail),
            RiamifyError::YamlError(_) => joined_message("YAMLのパースに失敗しました：", detail),
            RiamifyError::DllError => "DLLの読み込みに失敗しました".to_string(),
            RiamifyError::Other => "その他のエラーです".to_string(),
            RiamifyError::OutOfMemory => "メモリが不足しています".to_string(),
            RiamifyError::UndefinedSymbol => "処理できない記号を含んでいます".to_string(),
            RiamifyError::NegativeProsody => "negaive prosodyエラーです".to_string(),
            RiamifyError::InternalError => "内部エラーで寸".to_string(),
            RiamifyError::InvalidTag => "不正なタグです".to_string(),
            RiamifyError::TooLongTag => "タグが長すぎます".to_string(),
            RiamifyError::InvalidTagNumber => "不正な数字です".to_string(),
            RiamifyError::NoData => "データがありません".to_string(),
            RiamifyError::TooLong => "長すぎます".to_string(),
            RiamifyError::TooLongPhrase => "フレーズが長すぎます".to_string(),
            RiamifyError::Overflow => "オーバーフローしました".to_string(),
            RiamifyError::LowHeapMemory => "ヒープメモリが不足しています".to_string(),
            RiamifyError::Custom(s) => s.clone(),
        }
    }

    /// The message of this error, as the error is shown to the user. For an
    /// I/O or YAML error it is a fixed prefix followed by that error's own
    /// text; for every other kind it is fixed (or the custom text).
    pub fn message(&self) -> (res: String)
        ensures
            exists|detail: Seq<char>| res@ == message_with(*self, detail),
            !(*self is IoError) && !(*self is YamlError) ==> res@ == message_with(
                *self,
                Seq::empty(),
            ),
    {
        match self {
            RiamifyError::IoError(e) => {
                let t = io_error_text(e);
                self.message_with_detail(t.as_str())
            },
            RiamifyError::YamlError(e) => {
                let t = yaml_error_text(e);
                self.message_with_detail(t.as_str())
            },
            _ => self.message_with_detail(""),
        }
    }
}

} // verus!
