//! Accent marks on a reading.

use vstd::prelude::*;

use crate::text::{str_contains_char, str_to_chars, string_from_chars};

verus! {

/// The kana that never carry the accent nucleus: small kana, the small
/// `っ` and the long-vowel mark.
pub open spec fn small_kana() -> Seq<char> {
    "ぁぃぅぇぉゃゅょっー"@
}

/// The first position at or after `i` whose character is not in
/// `small_kana()`, or `-1` if there is none.
pub open spec fn first_full_kana_from(y: Seq<char>, i: int) -> int
    recommends
        0 <= i,
    decreases y.len() - i,
{
    if i < 0 || i >= y.len() {
        -1
    } else if !small_kana().contains(y[i]) {
        i
    } else {
        first_full_kana_from(y, i + 1)
    }
}

/// The reading `yomi` with the accent of type `accent_type` applied.
///
/// In bouyomi mode the reading is left as it is. Type `'1'` puts an
/// apostrophe before the first full kana after the first character
/// (no change if there is none); type `'2'` appends an apostrophe; every
/// other type leaves the reading unchanged.
pub open spec fn accented(yomi: Seq<char>, accent_type: char, bouyomi: bool) -> Seq<char> {
    if bouyomi {
        yomi
    } else if accent_type == '1' {
        let k = first_full_kana_from(yomi, 1);
        if k < 0 {
            yomi
        } else {
            yomi.take(k) + seq!['\''] + yomi.skip(k)
        }
    } else if accent_type == '2' {
        yomi.push('\'')
    } else {
        yomi
    }
}

/// Applies the accent rule of `accent_type` to `yomi`.
pub fn apply_accent(yomi: String, accent_type: char, bouyomi: bool) -> (res: String)
    ensures
        res@ == accented(yomi@, accent_type, bouyomi),
{
    if bouyomi {
        return yomi;
    }
    if accent_type == '1' {
        let mut y = str_to_chars(yomi.as_str());
        let mut i: usize = 1;
        while i < y.len()
            invariant
                y@ == yomi@,
                !bouyomi,
                accent_type == '1',
                i >= 1,
                first_full_kana_from(yomi@, 1) == first_full_kana_from(yomi@, i as int),
            decreases y@.len() - i,
        {
            let c = y[i];
            if !str_contains_char("ぁぃぅぇぉゃゅょっー", c) {
                assert(first_full_kana_from(yomi@, i as int) == i);
                y.insert(i, '\'');
                assert(y@ =~= yomi@.take(i as int) + seq!['\''] + yomi@.skip(i as int));
                return string_from_chars(y.as_slice());
            }
            i = i + 1;
        }
        yomi
    } else if accent_type == '2' {
        let mut y = str_to_chars(yomi.as_str());
        y.push('\'');
        string_from_chars(y.as_slice())
    } else {
        yomi
    }
}

/// Law: an accent rule adds at most one mark. The accented reading is the
/// reading itself, or the reading with one apostrophe inserted; in bouyomi
/// mode it is always the reading itself.
pub proof fn law_accent_adds_at_most_one_mark(yomi: Seq<char>, accent_type: char, bouyomi: bool)
    ensures
        accented(yomi, accent_type, bouyomi) == yomi || exists|k: int|
            0 <= k <= yomi.len() && accented(yomi, accent_type, bouyomi) == yomi.insert(k, '\''),
        bouyomi ==> accented(yomi, accent_type, bouyomi) == yomi,
{
    if !bouyomi {
        if accent_type == '1' {
            let k = first_full_kana_from(yomi, 1);
            if k >= 0 {
                lemma_first_full_kana_in_range(yomi, 1);
                assert(yomi.take(k) + seq!['\''] + yomi.skip(k) =~= yomi.insert(k, '\''));
            }
        } else if accent_type == '2' {
            assert(yomi.push('\'') =~= yomi.insert(yomi.len() as int, '\''));
        }
    }
}

/// The first full kana found from `i` on lies between `i` and the end, and
/// is neither a small kana nor `っ`.
pub proof fn lemma_first_full_kana_in_range(y: Seq<char>, i: int)
    requires
        0 <= i,
    ensures
        first_full_kana_from(y, i) == -1 || (i <= first_full_kana_from(y, i) < y.len()
            && !small_kana().contains(y[first_full_kana_from(y, i)]) && y[first_full_kana_from(
            y,
            i,
        )] != 'っ'),
    decreases y.len() - i,
{
    reveal_strlit("ぁぃぅぇぉゃゅょっー");
    assert(small_kana()[8] == 'っ');
    if i < y.len() && small_kana().contains(y[i]) {
        lemma_first_full_kana_in_range(y, i + 1);
    }
}

/// Whether the accent nucleus can never fall on `c`: the small vowels
/// ぁぃぅぇぉ, the small ゃゅょ, the small っ and the long-vowel mark ー.
pub open spec fn never_nucleus(c: char) -> bool {
    c == 'ぁ' || c == 'ぃ' || c == 'ぅ' || c == 'ぇ' || c == 'ぉ' || c == 'ゃ' || c == 'ゅ' || c
        == 'ょ' || c == 'っ' || c == 'ー'
}

/// The kana that `small_kana` lists are exactly those that never carry the
/// nucleus.
pub proof fn lemma_small_kana_never_nucleus(c: char)
    ensures
        small_kana().contains(c) <==> never_nucleus(c),
{
    reveal_strlit("ぁぃぅぇぉゃゅょっー");
    let s = small_kana();
    assert(s.len() == 10);
    assert(s[0] == 'ぁ' && s[1] == 'ぃ' && s[2] == 'ぅ' && s[3] == 'ぇ' && s[4] == 'ぉ');
    assert(s[5] == 'ゃ' && s[6] == 'ゅ' && s[7] == 'ょ' && s[8] == 'っ' && s[9] == 'ー');
    if never_nucleus(c) {
        if c == 'ぁ' {
            assert(s[0] == c);
        } else if c == 'ぃ' {
            assert(s[1] == c);
        } else if c == 'ぅ' {
            assert(s[2] == c);
        } else if c == 'ぇ' {
            assert(s[3] == c);
        } else if c == 'ぉ' {
            assert(s[4] == c);
        } else if c == 'ゃ' {
            assert(s[5] == c);
        } else if c == 'ゅ' {
            assert(s[6] == c);
        } else if c == 'ょ' {
            assert(s[7] == c);
        } else if c == 'っ' {
            assert(s[8] == c);
        } else {
            assert(s[9] == c);
        }
    }
    if s.contains(c) {
        let k = choose|k: int| 0 <= k < s.len() && s[k] == c;
        assert(0 <= k < 10);
    }
}

proof fn lemma_first_full_kana_from(y: Seq<char>, i: int)
    requires
        0 <= i,
    ensures
        first_full_kana_from(y, i) < 0 ==> forall|j: int| i <= j < y.len() ==> never_nucleus(
            #[trigger] y[j],
        ),
        first_full_kana_from(y, i) >= 0 ==> {
            let k = first_full_kana_from(y, i);
            &&& i <= k < y.len()
            &&& !never_nucleus(y[k])
            &&& forall|j: int| i <= j < k ==> never_nucleus(#[trigger] y[j])
        },
    decreases y.len() - i,
{
    if i < y.len() {
        lemma_small_kana_never_nucleus(y[i]);
        if small_kana().contains(y[i]) {
            lemma_first_full_kana_from(y, i + 1);
        }
    }
}

/// Law: accent type 1 puts its mark before the first character after the
/// first one on which the nucleus can fall (not a small kana, `っ` or
/// `ー`), and never before one on which it cannot; when there is no such
/// character the reading is left as it is.
pub proof fn law_accent_one_marks_first_possible_nucleus(y: Seq<char>)
    ensures
        ({
            let r = accented(y, '1', false);
            ||| (r == y && forall|j: int| 1 <= j < y.len() ==> never_nucleus(#[trigger] y[j]))
            ||| exists|k: int|
                1 <= k < y.len() && r == y.insert(k, '\'') && !never_nucleus(y[k]) && forall|
                    j: int,
                | 1 <= j < k ==> never_nucleus(#[trigger] y[j])
        }),
{
    lemma_first_full_kana_from(y, 1);
    let k = first_full_kana_from(y, 1);
    if k >= 0 {
        assert(y.take(k) + seq!['\''] + y.skip(k) =~= y.insert(k, '\''));
    }
}

} // verus!
