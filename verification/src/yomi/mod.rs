//! Readings for the speech engine.
//!
//! A message is cut into morphemes by MeCab (with the UniDic dictionary);
//! each morpheme comes with its surface form and its feature string, a CSV
//! record. `YomiBuilder` turns the sequence of morphemes into the reading
//! notation of the speech engine: hiragana with accent marks, `/` between
//! independent words, `+` before attached words, and `<NUMK ...>` tags for
//! numbers.

pub mod accent_rule;
pub mod modes;

pub use accent_rule::apply_accent;

use vstd::prelude::*;

use crate::text::{all_chars_in, chars_eq_str, push_chars, push_str, str_contains_char, str_eq, str_to_chars,
    string_from_chars, strings_view};
use accent_rule::{accented, lemma_small_kana_never_nucleus, never_nucleus, small_kana};

verus! {

/// The kind of the word last written to the reading.
#[derive(Clone, Copy, Debug, PartialEq, Eq, Structural)]
pub enum WordState {
    Categorem,
    Adjunct,
    Other,
}

/// What the `csv` crate reads from `text` (no header row, records of any
/// length): for each record in order, its fields, or `None` where reading
/// that record failed.
pub uninterp spec fn csv_records(text: Seq<char>) -> Seq<Option<Seq<Seq<char>>>>;

/// The views of the records that the reader returned.
pub open spec fn records_view(v: Seq<Option<Vec<String>>>) -> Seq<Option<Seq<Seq<char>>>> {
    v.map_values(
        |r: Option<Vec<String>>|
            match r {
                Some(f) => Some(strings_view(f@)),
                None => None,
            },
    )
}

/// Reads `text` with a `csv::Reader` built with `has_headers(false)` and
/// `flexible(true)`, and returns every record that `records()` yields, each
/// as its fields, or `None` for a record that failed. The contract names the
/// result.
#[verifier::external_body]
fn csv_read_records(text: &str) -> (res: Vec<Option<Vec<String>>>)
    ensures
        records_view(res@) == csv_records(text@),
{
    let mut r = csv::ReaderBuilder::new().has_headers(false).flexible(true).from_reader(
        text.as_bytes(),
    );
    r.records().map(|rec| rec.ok().map(|rec| rec.iter().map(|f| f.to_string()).collect())).collect()
}

/// The first record of `records` that was read without error.
pub open spec fn first_readable(records: Seq<Option<Seq<Seq<char>>>>) -> Option<Seq<Seq<char>>>
    decreases records.len(),
{
    if records.len() == 0 {
        None
    } else if records[0] is Some {
        records[0]
    } else {
        first_readable(records.drop_first())
    }
}

/// The first record of `records` that was read without error.
fn first_readable_record(records: Vec<Option<Vec<String>>>) -> (res: Option<Vec<String>>)
    ensures
        match res {
            Some(v) => first_readable(records_view(records@)) == Some(strings_view(v@)),
            None => first_readable(records_view(records@)) is None,
        },
{
    let ghost all = records_view(records@);
    let mut rest = records;
    let n = rest.len();
    let mut i: usize = 0;
    assert(all.skip(0) =~= all);
    while i < n
        invariant
            n == rest@.len(),
            all == records_view(rest@),
            all == records_view(records@),
            i <= n,
            first_readable(all.skip(i as int)) == first_readable(all),
        decreases n - i,
    {
        assert(all.skip(i as int)[0] == all[i as int]);
        assert(all.skip(i as int).drop_first() =~= all.skip(i + 1));
        let ghost ri = rest@[i as int];
        assert(all[i as int] == (match ri {
            Some(f) => Some(strings_view(f@)),
            None => None,
        }));
        if rest[i].is_some() {
            assert(first_readable(all.skip(i as int)) == all[i as int]);
            let rec = rest.remove(i);
            assert(rec == ri);
            return rec;
        }
        i = i + 1;
    }
    assert(all.skip(n as int).len() == 0);
    None
}

/// The number of fields that a feature record is cut or padded to.
pub const FEATURE_LEN: usize = 30;

/// `fields` cut to `n` entries, or padded with empty strings up to `n`.
pub open spec fn resized(fields: Seq<Seq<char>>, n: nat) -> Seq<Seq<char>> {
    if fields.len() >= n {
        fields.take(n as int)
    } else {
        fields + Seq::new((n - fields.len()) as nat, |i: int| Seq::<char>::empty())
    }
}

/// The feature fields taken from the records of a feature string: the
/// first record read without error, cut or padded to thirty fields.
pub open spec fn records_feature(records: Seq<Option<Seq<Seq<char>>>>) -> Option<Seq<Seq<char>>> {
    match first_readable(records) {
        Some(r) => Some(resized(r, FEATURE_LEN as nat)),
        None => None,
    }
}

/// The fields of a feature string, as `parse_feature` gives them.
pub open spec fn parsed_feature(feature: Seq<char>) -> Option<Seq<Seq<char>>> {
    records_feature(csv_records(feature))
}

/// The fields of a feature string, with thirty empty fields when it holds
/// no record.
pub open spec fn feature_fields_of(feature: Seq<char>) -> Seq<Seq<char>> {
    match parsed_feature(feature) {
        Some(f) => f,
        None => Seq::new(FEATURE_LEN as nat, |i: int| Seq::<char>::empty()),
    }
}

/// Splits a MeCab feature string (a CSV record) into exactly thirty fields.
pub fn parse_feature(feature: &str) -> (res: Option<Vec<String>>)
    ensures
        match res {
            Some(v) => parsed_feature(feature@) == Some(strings_view(v@)) && v@.len()
                == FEATURE_LEN,
            None => parsed_feature(feature@) is None,
        },
{
    feature_from_records(csv_read_records(feature))
}

/// The feature fields from the records that the CSV reader returned: the
/// first record read without error, cut or padded to thirty fields.
pub fn feature_from_records(records: Vec<Option<Vec<String>>>) -> (res: Option<Vec<String>>)
    ensures
        match res {
            Some(v) => records_feature(records_view(records@)) == Some(strings_view(v@))
                && v@.len() == FEATURE_LEN,
            None => records_feature(records_view(records@)) is None,
        },
{
    match first_readable_record(records) {
        Some(mut k) => {
            let ghost r = strings_view(k@);
            if k.len() > FEATURE_LEN {
                k.truncate(FEATURE_LEN);
            }
            while k.len() < FEATURE_LEN
                invariant
                    k.len() <= FEATURE_LEN,
                    r.len() >= FEATURE_LEN ==> strings_view(k@) == r.take(FEATURE_LEN as int),
                    r.len() < FEATURE_LEN ==> strings_view(k@) == r + Seq::new(
                        (k.len() - r.len()) as nat,
                        |i: int| Seq::<char>::empty(),
                    ),
                    r.len() < FEATURE_LEN ==> k.len() >= r.len(),
                decreases FEATURE_LEN - k.len(),
            {
                let ghost before = strings_view(k@);
                k.push(String::new());
                assert(strings_view(k@) =~= before.push(Seq::<char>::empty()));
                assert(strings_view(k@) =~= r + Seq::new(
                    (k.len() - r.len()) as nat,
                    |i: int| Seq::<char>::empty(),
                ));
            }
            assert(strings_view(k@) =~= resized(r, FEATURE_LEN as nat));
            Some(k)
        },
        None => None,
    }
}

/// The thirty fields of a feature string; thirty empty fields when the
/// string holds no record.
pub fn feature_fields(feature: &str) -> (res: Vec<String>)
    ensures
        strings_view(res@) == feature_fields_of(feature@),
        res@.len() == FEATURE_LEN,
{
    match parse_feature(feature) {
        Some(v) => v,
        None => {
            let mut v: Vec<String> = Vec::new();
            while v.len() < FEATURE_LEN
                invariant
                    v.len() <= FEATURE_LEN,
                    strings_view(v@) == Seq::new(v.len() as nat, |i: int| Seq::<char>::empty()),
                decreases FEATURE_LEN - v.len(),
            {
                let ghost before = strings_view(v@);
                v.push(String::new());
                assert(strings_view(v@) =~= before.push(Seq::<char>::empty()));
                assert(strings_view(v@) =~= Seq::new(v.len() as nat, |i: int| Seq::<char>::empty()));
            }
            v
        },
    }
}

/// The characters that the speech engine reads.
pub open spec fn readable_kana() -> Seq<char> {
    "あいうえおかきくけこさしすせそたちつてとなにぬねのはひふへほまみむめもやゆよらりるれろわをんぁぃぅぇぉっゃゅょゎがぎぐげござじずぜぞだぢづでどばびぶべぼぱぴぷぺぽ',、。？ー"@
}

/// Whether the speech engine reads `c`.
pub fn is_readable(c: char) -> (res: bool)
    ensures
        res == readable_kana().contains(c),
{
    str_contains_char(
        "あいうえおかきくけこさしすせそたちつてとなにぬねのはひふへほまみむめもやゆよらりるれろわをんぁぃぅぇぉっゃゅょゎがぎぐげござじずぜぞだぢづでどばびぶべぼぱぴぷぺぽ',、。？ー",
        c,
    )
}

/// The reading of a morpheme that has no reading of its own.
///
/// Punctuation and brackets get fixed readings; anything else is read as
/// its hiragana form `hiragana` (the surface in lower case, converted from
/// katakana by the caller) with every unreadable character left out.
pub open spec fn fallback_yomi(surface: Seq<char>, hiragana: Seq<char>) -> Seq<char> {
    if surface == "、"@ || surface == "，"@ || surface == ","@ {
        "、"@
    } else if surface == "。"@ || surface == "．"@ || surface == "."@ {
        "。"@
    } else if surface == "！"@ || surface == "!"@ {
        "。"@
    } else if surface == "？"@ || surface == "?"@ {
        "？"@
    } else if surface == "'"@ {
        "'"@
    } else if surface == "（"@ || surface == "("@ {
        "/か'っこ/"@
    } else if surface == "）"@ || surface == ")"@ {
        "/か'っことじ/"@
    } else if surface == "「"@ || surface == "」"@ {
        ","@
    } else if surface == "ー"@ || surface == "-"@ {
        "ー"@
    } else {
        hiragana.filter(|c: char| readable_kana().contains(c))
    }
}

/// The reading of a morpheme that has no reading of its own; `hiragana` is
/// the surface in lower case converted to hiragana.
pub fn try_fallback_yomi(surface: &str, hiragana: &str) -> (res: String)
    ensures
        res@ == fallback_yomi(surface@, hiragana@),
{
    if str_eq(surface, "、") || str_eq(surface, "，") || str_eq(surface, ",") {
        String::from_str("、")
    } else if str_eq(surface, "。") || str_eq(surface, "．") || str_eq(surface, ".") {
        String::from_str("。")
    } else if str_eq(surface, "！") || str_eq(surface, "!") {
        String::from_str("。")
    } else if str_eq(surface, "？") || str_eq(surface, "?") {
        String::from_str("？")
    } else if str_eq(surface, "'") {
        String::from_str("'")
    } else if str_eq(surface, "（") || str_eq(surface, "(") {
        String::from_str("/か'っこ/")
    } else if str_eq(surface, "）") || str_eq(surface, ")") {
        String::from_str("/か'っことじ/")
    } else if str_eq(surface, "「") || str_eq(surface, "」") {
        String::from_str(",")
    } else if str_eq(surface, "ー") || str_eq(surface, "-") {
        String::from_str("ー")
    } else {
        let h = str_to_chars(hiragana);
        let ghost p = |c: char| readable_kana().contains(c);
        let mut out: Vec<char> = Vec::new();
        let mut i: usize = 0;
        while i < h.len()
            invariant
                h@ == hiragana@,
                p == (|c: char| readable_kana().contains(c)),
                i <= h@.len(),
                out@ == h@.take(i as int).filter(p),
            decreases h@.len() - i,
        {
            let c = h[i];
            let r = is_readable(c);
            let ghost prev = h@.take(i as int);
            assert(h@.take(i + 1) =~= prev.push(c));
            assert(prev.push(c).drop_last() =~= prev);
            assert(p(c) == r);
            reveal_with_fuel(Seq::<_>::filter, 1);
            assert(prev.push(c).filter(p) == (if p(c) {
                prev.filter(p).push(c)
            } else {
                prev.filter(p)
            }));
            if r {
                out.push(c);
            }
            i = i + 1;
        }
        assert(h@.take(h@.len() as int) =~= h@);
        string_from_chars(out.as_slice())
    }
}


/// The hiragana forms of one morpheme, as the caller computes them with a
/// katakana-to-hiragana conversion.
pub struct NodeKana {
    /// Field 6 of the feature record (the reading of a counter) in hiragana.
    pub counter: String,
    /// Field 9 of the feature record (the reading) in hiragana.
    pub reading: String,
    /// The builder's `sharp_buffer()` before this morpheme, in hiragana.
    pub bypass: String,
    /// The surface in lower case, in hiragana.
    pub fallback: String,
}

/// The character sequences of a `NodeKana`.
pub struct NodeKanaView {
    pub counter: Seq<char>,
    pub reading: Seq<char>,
    pub bypass: Seq<char>,
    pub fallback: Seq<char>,
}

impl View for NodeKana {
    type V = NodeKanaView;

    open spec fn view(&self) -> NodeKanaView {
        NodeKanaView {
            counter: self.counter@,
            reading: self.reading@,
            bypass: self.bypass@,
            fallback: self.fallback@,
        }
    }
}

/// What a `YomiBuilder` holds: the reading written so far, the digits
/// waiting to be written as a number, the kind of the last word, whether
/// the builder is between two `#` marks (text that bypasses the
/// morphological analysis) and the text collected there, and the mode.
#[verifier::ext_equal]
pub struct YomiState {
    pub out: Seq<char>,
    pub number_buf: Seq<char>,
    pub word_buf: WordState,
    pub sharp_mode: bool,
    pub sharp_buf: Seq<char>,
    pub bouyomi: bool,
}

/// `s` with every small katakana `ァ` written as the hiragana `ぁ`.
pub open spec fn kana_fixed(s: Seq<char>) -> Seq<char> {
    s.map_values(|c: char| if c == 'ァ' { 'ぁ' } else { c })
}

/// The number tag for the digits `n`.
pub open spec fn numk_tag(n: Seq<char>) -> Seq<char> {
    "<NUMK VAL="@ + n + ">"@
}

/// The number tag for the digits `n` with the counter read `counter`.
pub open spec fn numk_counter_tag(n: Seq<char>, counter: Seq<char>) -> Seq<char> {
    "<NUMK VAL="@ + n + " COUNTER="@ + counter + ">"@
}

/// The reading of the number `n` with the counter `つ`, for the numbers that
/// the speech engine does not read right by itself.
pub open spec fn counter_word(n: Seq<char>) -> Option<Seq<char>> {
    if n == "1"@ || n == "１"@ {
        Some("ひとつ"@)
    } else if n == "2"@ || n == "２"@ {
        Some("ふたつ"@)
    } else if n == "3"@ || n == "３"@ {
        Some("みっつ"@)
    } else if n == "4"@ || n == "４"@ {
        Some("よっつ"@)
    } else if n == "5"@ || n == "５"@ {
        Some("いつつ"@)
    } else if n == "6"@ || n == "６"@ {
        Some("むっつ"@)
    } else if n == "7"@ || n == "７"@ {
        Some("ななつ"@)
    } else if n == "8"@ || n == "８"@ {
        Some("やっつ"@)
    } else if n == "9"@ || n == "９"@ {
        Some("ここのつ"@)
    } else if n == "108"@ || n == "１０８"@ {
        Some("ひゃくやっつ"@)
    } else {
        None
    }
}

/// Whether every character of `s` is an ASCII digit.
pub open spec fn all_digits(s: Seq<char>) -> bool {
    forall|j: int| 0 <= j < s.len() ==> "0123456789"@.contains(#[trigger] s[j])
}

/// `s` without the copies of `c` at its end.
pub open spec fn trim_end(s: Seq<char>, c: char) -> Seq<char>
    decreases s.len(),
{
    if s.len() > 0 && s.last() == c {
        trim_end(s.drop_last(), c)
    } else {
        s
    }
}

/// The number part of a step: digits of a numeral are collected; the first
/// morpheme after them writes the collected number (with its counter, when
/// it is one). The flag says whether the morpheme is done with.
pub open spec fn number_step(
    st: YomiState,
    surface: Seq<char>,
    f: Seq<Seq<char>>,
    k: NodeKanaView,
) -> (YomiState, bool) {
    if f[1] == "数詞"@ && all_digits(surface) {
        (YomiState { number_buf: st.number_buf + surface, ..st }, true)
    } else if st.number_buf.len() == 0 {
        (st, false)
    } else if surface == "."@ {
        (YomiState { number_buf: st.number_buf + surface, ..st }, true)
    } else if f[2] == "助数詞"@ {
        let y = kana_fixed(k.counter);
        if y == "つ"@ && counter_word(st.number_buf) is Some {
            (
                YomiState {
                    out: st.out + counter_word(st.number_buf)->0,
                    number_buf: Seq::empty(),
                    word_buf: WordState::Adjunct,
                    ..st
                },
                true,
            )
        } else {
            (
                YomiState {
                    out: st.out + numk_counter_tag(st.number_buf, y),
                    number_buf: Seq::empty(),
                    word_buf: WordState::Adjunct,
                    ..st
                },
                true,
            )
        }
    } else {
        (
            YomiState {
                out: st.out + numk_tag(st.number_buf),
                number_buf: Seq::empty(),
                word_buf: WordState::Adjunct,
                ..st
            },
            false,
        )
    }
}

/// The kind of a word: attached (auxiliary verbs and particles), other (no
/// reading), or independent.
pub open spec fn word_type_of(part_of_speech: Seq<char>, yomi: Seq<char>) -> WordState {
    if part_of_speech == "助動詞"@ || part_of_speech == "助詞"@ {
        WordState::Adjunct
    } else if yomi == "*"@ || yomi.len() == 0 {
        WordState::Other
    } else {
        WordState::Categorem
    }
}

/// The reading `out` ready for a word of kind `next` after one of kind
/// `prev`: unless either is `Other`, the trailing `っ` are dropped and the
/// word separator is added (`+` before an attached word, `/` before an
/// independent one).
pub open spec fn joined(out: Seq<char>, prev: WordState, next: WordState) -> Seq<char> {
    if prev == WordState::Other || next == WordState::Other {
        out
    } else if next == WordState::Adjunct {
        trim_end(out, 'っ') + "+"@
    } else {
        trim_end(out, 'っ') + "/"@
    }
}

/// The accent type of a word: `'1'` for the attached `です`, else the first
/// character of the accent field, or `'*'` when that is empty.
pub open spec fn accent_type_of(surface: Seq<char>, wt: WordState, accent_field: Seq<char>) -> char {
    if wt == WordState::Adjunct && surface == "です"@ {
        '1'
    } else if accent_field.len() > 0 {
        accent_field[0]
    } else {
        '*'
    }
}

/// Whether `y`, without its trailing apostrophes, ends in a small kana, a
/// `っ` or a long-vowel mark.
pub open spec fn ends_in_small_kana(y: Seq<char>) -> bool {
    let t = trim_end(y, '\'');
    t.len() > 0 && small_kana().contains(t.last())
}

/// The word part of a step.
pub open spec fn word_step(
    st: YomiState,
    surface: Seq<char>,
    f: Seq<Seq<char>>,
    k: NodeKanaView,
) -> YomiState {
    let yomi = kana_fixed(k.reading);
    let wt = word_type_of(f[0], yomi);
    let out = joined(st.out, st.word_buf, wt);
    if surface == "#"@ {
        YomiState {
            out: out + kana_fixed(k.bypass),
            sharp_mode: !st.sharp_mode,
            word_buf: WordState::Categorem,
            sharp_buf: Seq::empty(),
            ..st
        }
    } else {
        let y = accented(yomi, accent_type_of(surface, wt, f[23]), st.bouyomi);
        let wb = if ends_in_small_kana(y) {
            WordState::Other
        } else {
            wt
        };
        let piece = if y != "*"@ && y.len() > 0 {
            y
        } else {
            fallback_yomi(surface, k.fallback)
        };
        YomiState { out: out + piece, word_buf: wb, ..st }
    }
}

/// The state after one morpheme with surface `surface` and feature string
/// `feature`. Empty surfaces are skipped; between `#` marks the surfaces are
/// collected as they are.
pub open spec fn yomi_step(
    st: YomiState,
    surface: Seq<char>,
    feature: Seq<char>,
    k: NodeKanaView,
) -> YomiState {
    if surface.len() == 0 {
        st
    } else if st.sharp_mode && surface != "#"@ {
        YomiState { sharp_buf: st.sharp_buf + surface, ..st }
    } else {
        let f = feature_fields_of(feature);
        let (st2, done) = number_step(st, surface, f, k);
        if done {
            st2
        } else {
            word_step(st2, surface, f, k)
        }
    }
}

/// The reading once every morpheme is in: a number still waiting is
/// written as a number tag.
pub open spec fn yomi_finish(st: YomiState) -> Seq<char> {
    if st.number_buf.len() > 0 {
        st.out + numk_tag(st.number_buf)
    } else {
        st.out
    }
}

/// The state before the first morpheme.
pub open spec fn yomi_start(bouyomi: bool) -> YomiState {
    YomiState {
        out: Seq::empty(),
        number_buf: Seq::empty(),
        word_buf: WordState::Other,
        sharp_mode: false,
        sharp_buf: Seq::empty(),
        bouyomi,
    }
}

/// Builds the reading of a message, one morpheme at a time.
pub struct YomiBuilder {
    out: Vec<char>,
    number_buf: Vec<char>,
    word_buf: WordState,
    sharp_mode: bool,
    sharp_buf: Vec<char>,
    bouyomi: bool,
}

impl View for YomiBuilder {
    type V = YomiState;

    closed spec fn view(&self) -> YomiState {
        YomiState {
            out: self.out@,
            number_buf: self.number_buf@,
            word_buf: self.word_buf,
            sharp_mode: self.sharp_mode,
            sharp_buf: self.sharp_buf@,
            bouyomi: self.bouyomi,
        }
    }
}

/// The characters of `s` with every `ァ` written as `ぁ`.
fn kana_fixed_chars(s: &str) -> (v: Vec<char>)
    ensures
        v@ == kana_fixed(s@),
{
    let c = str_to_chars(s);
    let mut v: Vec<char> = Vec::new();
    let mut i: usize = 0;
    while i < c.len()
        invariant
            c@ == s@,
            i <= c@.len(),
            v@ == kana_fixed(c@.take(i as int)),
        decreases c@.len() - i,
    {
        let x = c[i];
        v.push(if x == 'ァ' { 'ぁ' } else { x });
        assert(kana_fixed(c@.take(i + 1)) =~= kana_fixed(c@.take(i as int)).push(
            if x == 'ァ' { 'ぁ' } else { x },
        ));
        i = i + 1;
    }
    assert(c@.take(c@.len() as int) =~= c@);
    v
}

/// `counter_word` for the digits `n`.
fn counter_word_of(n: &[char]) -> (r: Option<&'static str>)
    ensures
        match r {
            Some(w) => counter_word(n@) == Some(w@),
            None => counter_word(n@) is None,
        },
{
    if chars_eq_str(n, "1") || chars_eq_str(n, "１") {
        Some("ひとつ")
    } else if chars_eq_str(n, "2") || chars_eq_str(n, "２") {
        Some("ふたつ")
    } else if chars_eq_str(n, "3") || chars_eq_str(n, "３") {
        Some("みっつ")
    } else if chars_eq_str(n, "4") || chars_eq_str(n, "４") {
        Some("よっつ")
    } else if chars_eq_str(n, "5") || chars_eq_str(n, "５") {
        Some("いつつ")
    } else if chars_eq_str(n, "6") || chars_eq_str(n, "６") {
        Some("むっつ")
    } else if chars_eq_str(n, "7") || chars_eq_str(n, "７") {
        Some("ななつ")
    } else if chars_eq_str(n, "8") || chars_eq_str(n, "８") {
        Some("やっつ")
    } else if chars_eq_str(n, "9") || chars_eq_str(n, "９") {
        Some("ここのつ")
    } else if chars_eq_str(n, "108") || chars_eq_str(n, "１０８") {
        Some("ひゃくやっつ")
    } else {
        None
    }
}

/// Drops the copies of `c` at the end of `v`.
fn trim_end_in_place(v: &mut Vec<char>, c: char)
    ensures
        final(v)@ == trim_end(old(v)@, c),
{
    while v.len() > 0 && v[v.len() - 1] == c
        invariant
            trim_end(v@, c) == trim_end(old(v)@, c),
        decreases v@.len(),
    {
        let ghost before = v@;
        v.pop();
        assert(v@ =~= before.drop_last());
    }
}

/// The kind of a word with part of speech `pos` and reading `yomi`.
fn word_type(pos: &str, yomi: &[char]) -> (wt: WordState)
    ensures
        wt == word_type_of(pos@, yomi@),
{
    if str_eq(pos, "助動詞") || str_eq(pos, "助詞") {
        WordState::Adjunct
    } else if chars_eq_str(yomi, "*") || yomi.len() == 0 {
        WordState::Other
    } else {
        WordState::Categorem
    }
}

impl YomiBuilder {
    /// A builder with nothing read yet; `bouyomi` turns off the accent marks.
    pub fn new(bouyomi: bool) -> (b: Self)
        ensures
            b@ == yomi_start(bouyomi),
    {
        let b = YomiBuilder {
            out: Vec::new(),
            number_buf: Vec::new(),
            word_buf: WordState::Other,
            sharp_mode: false,
            sharp_buf: Vec::new(),
            bouyomi,
        };
        assert(b@ =~= yomi_start(bouyomi));
        b
    }

    /// The text collected since the last `#` mark, while between two marks.
    pub fn sharp_buffer(&self) -> (s: String)
        ensures
            s@ == self@.sharp_buf,
    {
        string_from_chars(self.sharp_buf.as_slice())
    }

    /// Writes the collected number, with its counter where `counter` is one.
    fn number_part(&mut self, surface: &str, f: &Vec<String>, kana: &NodeKana) -> (done: bool)
        requires
            f@.len() == FEATURE_LEN,
        ensures
            (final(self)@, done) == number_step(old(self)@, surface@, strings_view(f@), kana@),
    {
        let ghost fv = strings_view(f@);
        let s = str_to_chars(surface);
        assert(fv[1] == f@[1]@ && fv[2] == f@[2]@);
        if str_eq(f[1].as_str(), "数詞") && all_chars_in(s.as_slice(), "0123456789") {
            push_chars(&mut self.number_buf, s.as_slice());
            assert(self@ =~= number_step(old(self)@, surface@, fv, kana@).0);
            return true;
        }
        if self.number_buf.len() == 0 {
            return false;
        }
        if str_eq(surface, ".") {
            push_chars(&mut self.number_buf, s.as_slice());
            assert(self@ =~= number_step(old(self)@, surface@, fv, kana@).0);
            return true;
        }
        if str_eq(f[2].as_str(), "助数詞") {
            let y = kana_fixed_chars(kana.counter.as_str());
            if chars_eq_str(y.as_slice(), "つ") {
                match counter_word_of(self.number_buf.as_slice()) {
                    Some(w) => {
                        push_str(&mut self.out, w);
                        self.number_buf.clear();
                        self.word_buf = WordState::Adjunct;
                        assert(self@ =~= number_step(old(self)@, surface@, fv, kana@).0);
                        return true;
                    },
                    None => {},
                }
            }
            push_str(&mut self.out, "<NUMK VAL=");
            push_chars(&mut self.out, self.number_buf.as_slice());
            push_str(&mut self.out, " COUNTER=");
            push_chars(&mut self.out, y.as_slice());
            push_str(&mut self.out, ">");
            self.number_buf.clear();
            self.word_buf = WordState::Adjunct;
            assert(self@.out =~= old(self)@.out + numk_counter_tag(
                old(self)@.number_buf,
                kana_fixed(kana@.counter),
            ));
            assert(self@ =~= number_step(old(self)@, surface@, fv, kana@).0);
            return true;
        }
        push_str(&mut self.out, "<NUMK VAL=");
        push_chars(&mut self.out, self.number_buf.as_slice());
        push_str(&mut self.out, ">");
        self.number_buf.clear();
        self.word_buf = WordState::Adjunct;
        assert(self@.out =~= old(self)@.out + numk_tag(old(self)@.number_buf));
        assert(self@ =~= number_step(old(self)@, surface@, fv, kana@).0);
        false
    }

    /// Writes the word of a morpheme.
    fn word_part(&mut self, surface: &str, f: &Vec<String>, kana: &NodeKana)
        requires
            f@.len() == FEATURE_LEN,
        ensures
            final(self)@ == word_step(old(self)@, surface@, strings_view(f@), kana@),
    {
        let ghost fv = strings_view(f@);
        assert(fv[0] == f@[0]@ && fv[23] == f@[23]@);
        let yomi = kana_fixed_chars(kana.reading.as_str());
        let wt = word_type(f[0].as_str(), yomi.as_slice());
        let ghost expected = word_step(old(self)@, surface@, fv, kana@);
        match (self.word_buf, wt) {
            (WordState::Other, _) | (_, WordState::Other) => {},
            (_, WordState::Adjunct) => {
                trim_end_in_place(&mut self.out, 'っ');
                push_str(&mut self.out, "+");
            },
            (_, WordState::Categorem) => {
                trim_end_in_place(&mut self.out, 'っ');
                push_str(&mut self.out, "/");
            },
        }
        assert(self.out@ == joined(old(self)@.out, old(self)@.word_buf, wt));
        self.word_buf = wt;
        if str_eq(surface, "#") {
            let b = kana_fixed_chars(kana.bypass.as_str());
            push_chars(&mut self.out, b.as_slice());
            self.sharp_mode = !self.sharp_mode;
            self.word_buf = WordState::Categorem;
            self.sharp_buf.clear();
            assert(self@ =~= expected);
            return;
        }
        let accent_type = if wt == WordState::Adjunct && str_eq(surface, "です") {
            '1'
        } else if f[23].as_str().unicode_len() > 0 {
            f[23].as_str().get_char(0)
        } else {
            '*'
        };
        assert(accent_type == accent_type_of(surface@, wt, fv[23]));
        let y = apply_accent(string_from_chars(yomi.as_slice()), accent_type, self.bouyomi);
        let mut t = str_to_chars(y.as_str());
        trim_end_in_place(&mut t, '\'');
        if t.len() > 0 && str_contains_char("ぁぃぅぇぉゃゅょっー", t[t.len() - 1]) {
            self.word_buf = WordState::Other;
        }
        assert(self.word_buf == expected.word_buf);
        if !str_eq(y.as_str(), "*") && y.as_str().unicode_len() > 0 {
            push_str(&mut self.out, y.as_str());
        } else {
            let fb = try_fallback_yomi(surface, kana.fallback.as_str());
            push_str(&mut self.out, fb.as_str());
        }
        assert(self@ =~= expected);
    }

    /// Takes in the next morpheme: its surface, its feature string, and the
    /// hiragana forms that the caller computed for it.
    pub fn feed(&mut self, surface: &str, feature: &str, kana: &NodeKana)
        ensures
            final(self)@ == yomi_step(old(self)@, surface@, feature@, kana@),
    {
        if surface.unicode_len() == 0 {
            return;
        }
        if self.sharp_mode && !str_eq(surface, "#") {
            push_str(&mut self.sharp_buf, surface);
            assert(self@ =~= yomi_step(old(self)@, surface@, feature@, kana@));
            return;
        }
        let f = feature_fields(feature);
        if self.number_part(surface, &f, kana) {
            return;
        }
        self.word_part(surface, &f, kana);
    }

    /// The reading of the whole message.
    pub fn finish(self) -> (s: String)
        ensures
            s@ == yomi_finish(self@),
    {
        let mut out = self.out;
        if self.number_buf.len() > 0 {
            push_str(&mut out, "<NUMK VAL=");
            push_chars(&mut out, self.number_buf.as_slice());
            push_str(&mut out, ">");
            assert(out@ =~= self@.out + numk_tag(self@.number_buf));
        }
        string_from_chars(out.as_slice())
    }
}

/// What every state of a builder keeps: outside `#` marks nothing is being
/// collected, and the number waiting holds only ASCII digits and points.
pub open spec fn yomi_wf(st: YomiState) -> bool {
    &&& !st.sharp_mode ==> st.sharp_buf.len() == 0
    &&& forall|j: int| 0 <= j < st.number_buf.len() ==> "0123456789."@.contains(#[trigger] st.number_buf[j])
}

/// Law: the start state keeps `yomi_wf`, and so does every step.
pub proof fn law_yomi_steps_keep_wf(st: YomiState, surface: Seq<char>, feature: Seq<char>, k: NodeKanaView)
    requires
        yomi_wf(st),
    ensures
        yomi_wf(yomi_start(st.bouyomi)),
        yomi_wf(yomi_step(st, surface, feature, k)),
{
    reveal_strlit("0123456789.");
    reveal_strlit("0123456789");
    reveal_strlit(".");
    reveal_strlit("#");
    let next = yomi_step(st, surface, feature, k);
    if surface.len() > 0 && !(st.sharp_mode && surface != "#"@) {
        let f = feature_fields_of(feature);
        if f[1] == "数詞"@ && all_digits(surface) {
            assert forall|j: int| 0 <= j < next.number_buf.len() implies "0123456789."@.contains(
                #[trigger] next.number_buf[j],
            ) by {
                if j >= st.number_buf.len() {
                    let c = surface[j - st.number_buf.len()];
                    assert("0123456789"@.contains(c));
                    let w = choose|x: int| 0 <= x < "0123456789"@.len() && "0123456789"@[x] == c;
                    assert("0123456789."@[w] == c);
                }
            }
        } else if st.number_buf.len() > 0 && surface == "."@ {
            assert forall|j: int| 0 <= j < next.number_buf.len() implies "0123456789."@.contains(
                #[trigger] next.number_buf[j],
            ) by {
                if j >= st.number_buf.len() {
                    assert(next.number_buf[j] == '.');
                    assert("0123456789."@[10] == '.');
                }
            }
        }
    }
}

/// Law: between `#` marks the reading does not change; a morpheme other
/// than `#` only adds its surface to the text being collected.
pub proof fn law_sharp_text_bypasses_reading(
    st: YomiState,
    surface: Seq<char>,
    feature: Seq<char>,
    k: NodeKanaView,
)
    requires
        st.sharp_mode,
        surface != "#"@,
    ensures
        yomi_step(st, surface, feature, k).out == st.out,
        yomi_step(st, surface, feature, k).sharp_buf == st.sharp_buf + surface,
        yomi_step(st, surface, feature, k).sharp_mode,
{
    if surface.len() == 0 {
        assert(st.sharp_buf + surface =~= st.sharp_buf);
    }
}

proof fn lemma_trim_end_last(s: Seq<char>, c: char)
    ensures
        trim_end(s, c).len() == 0 || trim_end(s, c).last() != c,
        trim_end(s, c).len() <= s.len(),
        trim_end(s, c) == s.take(trim_end(s, c).len() as int),
    decreases s.len(),
{
    if s.len() > 0 && s.last() == c {
        lemma_trim_end_last(s.drop_last(), c);
        let t = trim_end(s.drop_last(), c);
        assert(s.drop_last().take(t.len() as int) =~= s.take(t.len() as int));
    } else {
        assert(s.take(s.len() as int) =~= s);
    }
}

/// Law: a word separator never follows a `っ`. When `joined` adds a
/// separator, the reading before it is the old reading without its
/// trailing `っ`, so it does not end in one.
pub proof fn law_no_sokuon_before_separator(out: Seq<char>, prev: WordState, next: WordState)
    requires
        prev != WordState::Other,
        next != WordState::Other,
    ensures
        ({
            let j = joined(out, prev, next);
            let body = j.drop_last();
            &&& j.len() > 0
            &&& j.last() == (if next == WordState::Adjunct { '+' } else { '/' })
            &&& body == trim_end(out, 'っ')
            &&& body.len() == 0 || body.last() != 'っ'
            &&& out.take(body.len() as int) == body
        }),
{
    reveal_strlit("+");
    reveal_strlit("/");
    lemma_trim_end_last(out, 'っ');
    let t = trim_end(out, 'っ');
    if next == WordState::Adjunct {
        assert((t + "+"@).drop_last() =~= t);
    } else {
        assert((t + "/"@).drop_last() =~= t);
    }
}

/// Law: a word's reading counts as ending in a small kana (so that no
/// separator follows it) exactly when its last character other than accent
/// marks is one on which the nucleus cannot fall: a small kana, `っ` or `ー`.
pub proof fn law_ends_in_small_kana_means_last_never_nucleus(y: Seq<char>)
    ensures
        ends_in_small_kana(y) <==> ({
            let t = trim_end(y, '\'');
            t.len() > 0 && never_nucleus(t.last())
        }),
{
    let t = trim_end(y, '\'');
    if t.len() > 0 {
        lemma_small_kana_never_nucleus(t.last());
    }
}

/// The ASCII digits one to nine.
pub open spec fn ascii_digits() -> Seq<char> {
    "123456789"@
}

/// The full-width digits one to nine.
pub open spec fn fullwidth_digits() -> Seq<char> {
    "１２３４５６７８９"@
}

/// The native Japanese words for counting one to nine things.
pub open spec fn native_count_words() -> Seq<Seq<char>> {
    seq!["ひとつ"@, "ふたつ"@, "みっつ"@, "よっつ"@, "いつつ"@, "むっつ"@, "ななつ"@, "やっつ"@, "ここのつ"@]
}

/// Whether `n` writes the number `v` (one to nine) with one ASCII or one
/// full-width digit.
pub open spec fn writes_digit(n: Seq<char>, v: int) -> bool {
    1 <= v <= 9 && (n == seq![ascii_digits()[v - 1]] || n == seq![fullwidth_digits()[v - 1]])
}

/// Law: the counter `つ` after a number from one to nine is read with the
/// native count word of that number (five things: いつつ), and after 108
/// with ひゃく and the word for eight; every other number has no such word.
pub proof fn law_counter_words_are_native_counts(n: Seq<char>)
    ensures
        forall|v: int| #[trigger] writes_digit(n, v) ==> counter_word(n) == Some(
            native_count_words()[v - 1],
        ),
        (n == "108"@ || n == "１０８"@) ==> counter_word(n) == Some(
            "ひゃく"@ + native_count_words()[7],
        ),
        counter_word(n) is Some ==> (n == "108"@ || n == "１０８"@ || exists|v: int|
            #[trigger] writes_digit(n, v)),
{
    reveal_strlit("1");
    reveal_strlit("１");
    reveal_strlit("2");
    reveal_strlit("２");
    reveal_strlit("3");
    reveal_strlit("３");
    reveal_strlit("4");
    reveal_strlit("４");
    reveal_strlit("5");
    reveal_strlit("５");
    reveal_strlit("6");
    reveal_strlit("６");
    reveal_strlit("7");
    reveal_strlit("７");
    reveal_strlit("8");
    reveal_strlit("８");
    reveal_strlit("9");
    reveal_strlit("９");
    reveal_strlit("108");
    reveal_strlit("１０８");
    reveal_strlit("123456789");
    reveal_strlit("１２３４５６７８９");
    reveal_strlit("ひゃく");
    reveal_strlit("ひゃくやっつ");
    reveal_strlit("ひとつ");
    reveal_strlit("ふたつ");
    reveal_strlit("みっつ");
    reveal_strlit("よっつ");
    reveal_strlit("いつつ");
    reveal_strlit("むっつ");
    reveal_strlit("ななつ");
    reveal_strlit("やっつ");
    reveal_strlit("ここのつ");
    assert forall|v: int| #[trigger] writes_digit(n, v) implies counter_word(n) == Some(
        native_count_words()[v - 1],
    ) by {
        if v == 1 {
            assert(ascii_digits()[0] == '1' && fullwidth_digits()[0] == '１');
            assert(seq!['1'] =~= "1"@ && seq!['１'] =~= "１"@);
            assert(n == "1"@ || n == "１"@);
            assert(counter_word(n) == Some("ひとつ"@));
            assert(native_count_words()[v - 1] == "ひとつ"@);
        } else if v == 2 {
            assert(ascii_digits()[1] == '2' && fullwidth_digits()[1] == '２');
            assert(seq!['2'] =~= "2"@ && seq!['２'] =~= "２"@);
            assert(n == "2"@ || n == "２"@);
            assert(n[0] != "1"@[0] && n[0] != "１"@[0]);
            assert(n != "1"@ && n != "１"@);
            assert(counter_word(n) == Some("ふたつ"@));
            assert(native_count_words()[v - 1] == "ふたつ"@);
        } else if v == 3 {
            assert(ascii_digits()[2] == '3' && fullwidth_digits()[2] == '３');
            assert(seq!['3'] =~= "3"@ && seq!['３'] =~= "３"@);
            assert(n == "3"@ || n == "３"@);
            assert(n[0] != "1"@[0] && n[0] != "１"@[0]);
            assert(n != "1"@ && n != "１"@);
            assert(n[0] != "2"@[0] && n[0] != "２"@[0]);
            assert(n != "2"@ && n != "２"@);
            assert(counter_word(n) == Some("みっつ"@));
            assert(native_count_words()[v - 1] == "みっつ"@);
        } else if v == 4 {
            assert(ascii_digits()[3] == '4' && fullwidth_digits()[3] == '４');
            assert(seq!['4'] =~= "4"@ && seq!['４'] =~= "４"@);
            assert(n == "4"@ || n == "４"@);
            assert(n[0] != "1"@[0] && n[0] != "１"@[0]);
            assert(n != "1"@ && n != "１"@);
            assert(n[0] != "2"@[0] && n[0] != "２"@[0]);
            assert(n != "2"@ && n != "２"@);
            assert(n[0] != "3"@[0] && n[0] != "３"@[0]);
            assert(n != "3"@ && n != "３"@);
            assert(counter_word(n) == Some("よっつ"@));
            assert(native_count_words()[v - 1] == "よっつ"@);
        } else if v == 5 {
            assert(ascii_digits()[4] == '5' && fullwidth_digits()[4] == '５');
            assert(seq!['5'] =~= "5"@ && seq!['５'] =~= "５"@);
            assert(n == "5"@ || n == "５"@);
            assert(n[0] != "1"@[0] && n[0] != "１"@[0]);
            assert(n != "1"@ && n != "１"@);
            assert(n[0] != "2"@[0] && n[0] != "２"@[0]);
            assert(n != "2"@ && n != "２"@);
            assert(n[0] != "3"@[0] && n[0] != "３"@[0]);
            assert(n != "3"@ && n != "３"@);
            assert(n[0] != "4"@[0] && n[0] != "４"@[0]);
            assert(n != "4"@ && n != "４"@);
            assert(counter_word(n) == Some("いつつ"@));
            assert(native_count_words()[v - 1] == "いつつ"@);
        } else if v == 6 {
            assert(ascii_digits()[5] == '6' && fullwidth_digits()[5] == '６');
            assert(seq!['6'] =~= "6"@ && seq!['６'] =~= "６"@);
            assert(n == "6"@ || n == "６"@);
            assert(n[0] != "1"@[0] && n[0] != "１"@[0]);
            assert(n != "1"@ && n != "１"@);
            assert(n[0] != "2"@[0] && n[0] != "２"@[0]);
            assert(n != "2"@ && n != "２"@);
            assert(n[0] != "3"@[0] && n[0] != "３"@[0]);
            assert(n != "3"@ && n != "３"@);
            assert(n[0] != "4"@[0] && n[0] != "４"@[0]);
            assert(n != "4"@ && n != "４"@);
            assert(n[0] != "5"@[0] && n[0] != "５"@[0]);
            assert(n != "5"@ && n != "５"@);
            assert(counter_word(n) == Some("むっつ"@));
            assert(native_count_words()[v - 1] == "むっつ"@);
        } else if v == 7 {
            assert(ascii_digits()[6] == '7' && fullwidth_digits()[6] == '７');
            assert(seq!['7'] =~= "7"@ && seq!['７'] =~= "７"@);
            assert(n == "7"@ || n == "７"@);
            assert(n[0] != "1"@[0] && n[0] != "１"@[0]);
            assert(n != "1"@ && n != "１"@);
            assert(n[0] != "2"@[0] && n[0] != "２"@[0]);
            assert(n != "2"@ && n != "２"@);
            assert(n[0] != "3"@[0] && n[0] != "３"@[0]);
            assert(n != "3"@ && n != "３"@);
            assert(n[0] != "4"@[0] && n[0] != "４"@[0]);
            assert(n != "4"@ && n != "４"@);
            assert(n[0] != "5"@[0] && n[0] != "５"@[0]);
            assert(n != "5"@ && n != "５"@);
            assert(n[0] != "6"@[0] && n[0] != "６"@[0]);
            assert(n != "6"@ && n != "６"@);
            assert(counter_word(n) == Some("ななつ"@));
            assert(native_count_words()[v - 1] == "ななつ"@);
        } else if v == 8 {
            assert(ascii_digits()[7] == '8' && fullwidth_digits()[7] == '８');
            assert(seq!['8'] =~= "8"@ && seq!['８'] =~= "８"@);
            assert(n == "8"@ || n == "８"@);
            assert(n[0] != "1"@[0] && n[0] != "１"@[0]);
            assert(n != "1"@ && n != "１"@);
            assert(n[0] != "2"@[0] && n[0] != "２"@[0]);
            assert(n != "2"@ && n != "２"@);
            assert(n[0] != "3"@[0] && n[0] != "３"@[0]);
            assert(n != "3"@ && n != "３"@);
            assert(n[0] != "4"@[0] && n[0] != "４"@[0]);
            assert(n != "4"@ && n != "４"@);
            assert(n[0] != "5"@[0] && n[0] != "５"@[0]);
            assert(n != "5"@ && n != "５"@);
            assert(n[0] != "6"@[0] && n[0] != "６"@[0]);
            assert(n != "6"@ && n != "６"@);
            assert(n[0] != "7"@[0] && n[0] != "７"@[0]);
            assert(n != "7"@ && n != "７"@);
            assert(counter_word(n) == Some("やっつ"@));
            assert(native_count_words()[v - 1] == "やっつ"@);
        } else if v == 9 {
            assert(ascii_digits()[8] == '9' && fullwidth_digits()[8] == '９');
            assert(seq!['9'] =~= "9"@ && seq!['９'] =~= "９"@);
            assert(n == "9"@ || n == "９"@);
            assert(n[0] != "1"@[0] && n[0] != "１"@[0]);
            assert(n != "1"@ && n != "１"@);
            assert(n[0] != "2"@[0] && n[0] != "２"@[0]);
            assert(n != "2"@ && n != "２"@);
            assert(n[0] != "3"@[0] && n[0] != "３"@[0]);
            assert(n != "3"@ && n != "３"@);
            assert(n[0] != "4"@[0] && n[0] != "４"@[0]);
            assert(n != "4"@ && n != "４"@);
            assert(n[0] != "5"@[0] && n[0] != "５"@[0]);
            assert(n != "5"@ && n != "５"@);
            assert(n[0] != "6"@[0] && n[0] != "６"@[0]);
            assert(n != "6"@ && n != "６"@);
            assert(n[0] != "7"@[0] && n[0] != "７"@[0]);
            assert(n != "7"@ && n != "７"@);
            assert(n[0] != "8"@[0] && n[0] != "８"@[0]);
            assert(n != "8"@ && n != "８"@);
            assert(counter_word(n) == Some("ここのつ"@));
            assert(native_count_words()[v - 1] == "ここのつ"@);
        }
    }
    assert("ひゃく"@ + native_count_words()[7] =~= "ひゃくやっつ"@);
    if n == "108"@ || n == "１０８"@ {
        assert(n.len() == 3);
        assert(n.len() != "1"@.len() && n.len() != "１"@.len());
        assert(n.len() != "2"@.len() && n.len() != "２"@.len());
        assert(n.len() != "3"@.len() && n.len() != "３"@.len());
        assert(n.len() != "4"@.len() && n.len() != "４"@.len());
        assert(n.len() != "5"@.len() && n.len() != "５"@.len());
        assert(n.len() != "6"@.len() && n.len() != "６"@.len());
        assert(n.len() != "7"@.len() && n.len() != "７"@.len());
        assert(n.len() != "8"@.len() && n.len() != "８"@.len());
        assert(n.len() != "9"@.len() && n.len() != "９"@.len());
        assert(counter_word(n) == Some("ひゃくやっつ"@));
    }
    if counter_word(n) is Some && !(n == "108"@ || n == "１０８"@) {
        if n == "1"@ || n == "１"@ {
            assert(ascii_digits()[0] == '1' && fullwidth_digits()[0] == '１');
            assert(seq!['1'] =~= "1"@ && seq!['１'] =~= "１"@);
            assert(writes_digit(n, 1));
        } else if n == "2"@ || n == "２"@ {
            assert(ascii_digits()[1] == '2' && fullwidth_digits()[1] == '２');
            assert(seq!['2'] =~= "2"@ && seq!['２'] =~= "２"@);
            assert(writes_digit(n, 2));
        } else if n == "3"@ || n == "３"@ {
            assert(ascii_digits()[2] == '3' && fullwidth_digits()[2] == '３');
            assert(seq!['3'] =~= "3"@ && seq!['３'] =~= "３"@);
            assert(writes_digit(n, 3));
        } else if n == "4"@ || n == "４"@ {
            assert(ascii_digits()[3] == '4' && fullwidth_digits()[3] == '４');
            assert(seq!['4'] =~= "4"@ && seq!['４'] =~= "４"@);
            assert(writes_digit(n, 4));
        } else if n == "5"@ || n == "５"@ {
            assert(ascii_digits()[4] == '5' && fullwidth_digits()[4] == '５');
            assert(seq!['5'] =~= "5"@ && seq!['５'] =~= "５"@);
            assert(writes_digit(n, 5));
        } else if n == "6"@ || n == "６"@ {
            assert(ascii_digits()[5] == '6' && fullwidth_digits()[5] == '６');
            assert(seq!['6'] =~= "6"@ && seq!['６'] =~= "６"@);
            assert(writes_digit(n, 6));
        } else if n == "7"@ || n == "７"@ {
            assert(ascii_digits()[6] == '7' && fullwidth_digits()[6] == '７');
            assert(seq!['7'] =~= "7"@ && seq!['７'] =~= "７"@);
            assert(writes_digit(n, 7));
        } else if n == "8"@ || n == "８"@ {
            assert(ascii_digits()[7] == '8' && fullwidth_digits()[7] == '８');
            assert(seq!['8'] =~= "8"@ && seq!['８'] =~= "８"@);
            assert(writes_digit(n, 8));
        } else if n == "9"@ || n == "９"@ {
            assert(ascii_digits()[8] == '9' && fullwidth_digits()[8] == '９');
            assert(seq!['9'] =~= "9"@ && seq!['９'] =~= "９"@);
            assert(writes_digit(n, 9));
        }
    }
}

/// Law: outside `#` marks, a counter read `つ` that follows a number from
/// one to nine (one ASCII or full-width digit) writes that number's native
/// count word, for five いつつ, and nothing else; the number is then done.
pub proof fn law_counter_tsu_after_digit_writes_native_count(
    st: YomiState,
    surface: Seq<char>,
    feature: Seq<char>,
    k: NodeKanaView,
    v: int,
)
    requires
        !st.sharp_mode,
        surface.len() > 0,
        surface != "."@,
        writes_digit(st.number_buf, v),
        feature_fields_of(feature)[2] == "助数詞"@,
        !(feature_fields_of(feature)[1] == "数詞"@ && all_digits(surface)),
        kana_fixed(k.counter) == "つ"@,
    ensures
        yomi_step(st, surface, feature, k).out == st.out + native_count_words()[v - 1],
        yomi_step(st, surface, feature, k).number_buf.len() == 0,
{
    law_counter_words_are_native_counts(st.number_buf);
    assert(st.number_buf.len() == 1);
}

/// Law: punctuation without a reading is read alike in its full-width and
/// its ASCII form, whatever its kana: a question mark (？ or ?) is read as
/// the question mark `？`, an exclamation mark (！ or !) as the full stop
/// `。`, a comma as `、`, a full stop as `。`, a dash as `ー`, and brackets as
/// the words for bracket and closing bracket.
pub proof fn law_fallback_punctuation_forms_agree(h: Seq<char>)
    ensures
        fallback_yomi("？"@, h) == "？"@,
        fallback_yomi("?"@, h) == "？"@,
        fallback_yomi("！"@, h) == "。"@,
        fallback_yomi("!"@, h) == "。"@,
        fallback_yomi("，"@, h) == fallback_yomi(","@, h),
        fallback_yomi("、"@, h) == fallback_yomi(","@, h),
        fallback_yomi(","@, h) == "、"@,
        fallback_yomi("．"@, h) == fallback_yomi("."@, h),
        fallback_yomi("。"@, h) == fallback_yomi("."@, h),
        fallback_yomi("."@, h) == "。"@,
        fallback_yomi("（"@, h) == fallback_yomi("("@, h),
        fallback_yomi("）"@, h) == fallback_yomi(")"@, h),
        fallback_yomi("ー"@, h) == fallback_yomi("-"@, h),
        fallback_yomi("-"@, h) == "ー"@,
{
    reveal_strlit("、");
    reveal_strlit("，");
    reveal_strlit(",");
    reveal_strlit("。");
    reveal_strlit("．");
    reveal_strlit(".");
    reveal_strlit("！");
    reveal_strlit("!");
    reveal_strlit("？");
    reveal_strlit("?");
    reveal_strlit("'");
    reveal_strlit("（");
    reveal_strlit("(");
    reveal_strlit("）");
    reveal_strlit(")");
    reveal_strlit("「");
    reveal_strlit("」");
    reveal_strlit("ー");
    reveal_strlit("-");
    reveal_strlit("/か'っこ/");
    reveal_strlit("/か'っことじ/");
    assert("？"@[0] != "、"@[0]);
    assert("？"@[0] != "，"@[0]);
    assert("？"@[0] != ","@[0]);
    assert("？"@[0] != "。"@[0]);
    assert("？"@[0] != "．"@[0]);
    assert("？"@[0] != "."@[0]);
    assert("？"@[0] != "！"@[0]);
    assert("？"@[0] != "!"@[0]);
    assert("?"@[0] != "、"@[0]);
    assert("?"@[0] != "，"@[0]);
    assert("?"@[0] != ","@[0]);
    assert("?"@[0] != "。"@[0]);
    assert("?"@[0] != "．"@[0]);
    assert("?"@[0] != "."@[0]);
    assert("?"@[0] != "！"@[0]);
    assert("?"@[0] != "!"@[0]);
    assert("?"@[0] != "？"@[0]);
    assert("！"@[0] != "、"@[0]);
    assert("！"@[0] != "，"@[0]);
    assert("！"@[0] != ","@[0]);
    assert("！"@[0] != "。"@[0]);
    assert("！"@[0] != "．"@[0]);
    assert("！"@[0] != "."@[0]);
    assert("!"@[0] != "、"@[0]);
    assert("!"@[0] != "，"@[0]);
    assert("!"@[0] != ","@[0]);
    assert("!"@[0] != "。"@[0]);
    assert("!"@[0] != "．"@[0]);
    assert("!"@[0] != "."@[0]);
    assert("!"@[0] != "！"@[0]);
    assert("，"@[0] != "、"@[0]);
    assert(","@[0] != "、"@[0]);
    assert(","@[0] != "，"@[0]);
    assert("．"@[0] != "、"@[0]);
    assert("．"@[0] != "，"@[0]);
    assert("．"@[0] != ","@[0]);
    assert("．"@[0] != "。"@[0]);
    assert("。"@[0] != "、"@[0]);
    assert("。"@[0] != "，"@[0]);
    assert("。"@[0] != ","@[0]);
    assert("."@[0] != "、"@[0]);
    assert("."@[0] != "，"@[0]);
    assert("."@[0] != ","@[0]);
    assert("."@[0] != "。"@[0]);
    assert("."@[0] != "．"@[0]);
    assert("（"@[0] != "、"@[0]);
    assert("（"@[0] != "，"@[0]);
    assert("（"@[0] != ","@[0]);
    assert("（"@[0] != "。"@[0]);
    assert("（"@[0] != "．"@[0]);
    assert("（"@[0] != "."@[0]);
    assert("（"@[0] != "！"@[0]);
    assert("（"@[0] != "!"@[0]);
    assert("（"@[0] != "？"@[0]);
    assert("（"@[0] != "?"@[0]);
    assert("（"@[0] != "'"@[0]);
    assert("("@[0] != "、"@[0]);
    assert("("@[0] != "，"@[0]);
    assert("("@[0] != ","@[0]);
    assert("("@[0] != "。"@[0]);
    assert("("@[0] != "．"@[0]);
    assert("("@[0] != "."@[0]);
    assert("("@[0] != "！"@[0]);
    assert("("@[0] != "!"@[0]);
    assert("("@[0] != "？"@[0]);
    assert("("@[0] != "?"@[0]);
    assert("("@[0] != "'"@[0]);
    assert("("@[0] != "（"@[0]);
    assert("）"@[0] != "、"@[0]);
    assert("）"@[0] != "，"@[0]);
    assert("）"@[0] != ","@[0]);
    assert("）"@[0] != "。"@[0]);
    assert("）"@[0] != "．"@[0]);
    assert("）"@[0] != "."@[0]);
    assert("）"@[0] != "！"@[0]);
    assert("）"@[0] != "!"@[0]);
    assert("）"@[0] != "？"@[0]);
    assert("）"@[0] != "?"@[0]);
    assert("）"@[0] != "'"@[0]);
    assert("）"@[0] != "（"@[0]);
    assert("）"@[0] != "("@[0]);
    assert(")"@[0] != "、"@[0]);
    assert(")"@[0] != "，"@[0]);
    assert(")"@[0] != ","@[0]);
    assert(")"@[0] != "。"@[0]);
    assert(")"@[0] != "．"@[0]);
    assert(")"@[0] != "."@[0]);
    assert(")"@[0] != "！"@[0]);
    assert(")"@[0] != "!"@[0]);
    assert(")"@[0] != "？"@[0]);
    assert(")"@[0] != "?"@[0]);
    assert(")"@[0] != "'"@[0]);
    assert(")"@[0] != "（"@[0]);
    assert(")"@[0] != "("@[0]);
    assert(")"@[0] != "）"@[0]);
    assert("ー"@[0] != "、"@[0]);
    assert("ー"@[0] != "，"@[0]);
    assert("ー"@[0] != ","@[0]);
    assert("ー"@[0] != "。"@[0]);
    assert("ー"@[0] != "．"@[0]);
    assert("ー"@[0] != "."@[0]);
    assert("ー"@[0] != "！"@[0]);
    assert("ー"@[0] != "!"@[0]);
    assert("ー"@[0] != "？"@[0]);
    assert("ー"@[0] != "?"@[0]);
    assert("ー"@[0] != "'"@[0]);
    assert("ー"@[0] != "（"@[0]);
    assert("ー"@[0] != "("@[0]);
    assert("ー"@[0] != "）"@[0]);
    assert("ー"@[0] != ")"@[0]);
    assert("ー"@[0] != "「"@[0]);
    assert("ー"@[0] != "」"@[0]);
    assert("-"@[0] != "、"@[0]);
    assert("-"@[0] != "，"@[0]);
    assert("-"@[0] != ","@[0]);
    assert("-"@[0] != "。"@[0]);
    assert("-"@[0] != "．"@[0]);
    assert("-"@[0] != "."@[0]);
    assert("-"@[0] != "！"@[0]);
    assert("-"@[0] != "!"@[0]);
    assert("-"@[0] != "？"@[0]);
    assert("-"@[0] != "?"@[0]);
    assert("-"@[0] != "'"@[0]);
    assert("-"@[0] != "（"@[0]);
    assert("-"@[0] != "("@[0]);
    assert("-"@[0] != "）"@[0]);
    assert("-"@[0] != ")"@[0]);
    assert("-"@[0] != "「"@[0]);
    assert("-"@[0] != "」"@[0]);
    assert("-"@[0] != "ー"@[0]);
}

} // verus!
