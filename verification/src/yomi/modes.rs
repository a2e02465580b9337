//! Bouyomi mode and accented mode compared over a whole message.

use vstd::prelude::*;

use super::accent_rule::{accented, first_full_kana_from, lemma_first_full_kana_in_range};
use super::{
    accent_type_of, ends_in_small_kana, feature_fields_of, joined, kana_fixed, number_step,
    trim_end, word_step, word_type_of, yomi_finish, yomi_start, yomi_step, NodeKanaView,
    WordState, YomiState,
};

verus! {

/// `s` without its accent marks (apostrophes).
pub open spec fn without_marks(s: Seq<char>) -> Seq<char> {
    s.filter(|c: char| c != '\'')
}

/// One morpheme: its surface, its feature string and its hiragana forms.
pub type Morpheme = (Seq<char>, Seq<char>, NodeKanaView);

/// The state after feeding `nodes`, one after the other, from `st`.
pub open spec fn yomi_run(st: YomiState, nodes: Seq<Morpheme>) -> YomiState
    decreases nodes.len(),
{
    if nodes.len() == 0 {
        st
    } else {
        let n = nodes.last();
        yomi_step(yomi_run(st, nodes.drop_last()), n.0, n.1, n.2)
    }
}

/// Whether the accent mark that accented mode gives a morpheme changes
/// nothing but the mark: a morpheme of accent type `'2'` (a mark at its
/// end) has a reading that is not empty, not `*` and does not end in `っ`.
pub open spec fn mark_neutral(n: Morpheme) -> bool {
    let f = feature_fields_of(n.1);
    let y = kana_fixed(n.2.reading);
    accent_type_of(n.0, word_type_of(f[0], y), f[23]) == '2' ==> (y.len() > 0 && y != "*"@
        && y.last() != 'っ')
}

/// `s` without its trailing `っ`.
pub open spec fn body_of(s: Seq<char>) -> Seq<char> {
    trim_end(s, 'っ')
}

/// The number of trailing `っ` of `s`.
pub open spec fn run_len(s: Seq<char>) -> int {
    s.len() - body_of(s).len()
}

/// Two readings that agree but for accent marks, with the same trailing `っ`.
pub open spec fn outs_agree(o1: Seq<char>, o2: Seq<char>) -> bool {
    &&& without_marks(body_of(o1)) == without_marks(body_of(o2))
    &&& run_len(o1) == run_len(o2)
}

/// An accented-mode state and a bouyomi-mode state that agree.
pub open spec fn modes_agree(s1: YomiState, s2: YomiState) -> bool {
    &&& s1.number_buf == s2.number_buf
    &&& s1.word_buf == s2.word_buf
    &&& s1.sharp_mode == s2.sharp_mode
    &&& s1.sharp_buf == s2.sharp_buf
    &&& !s1.bouyomi
    &&& s2.bouyomi
    &&& outs_agree(s1.out, s2.out)
}

proof fn lemma_trim_end_shape(s: Seq<char>, c: char)
    ensures
        trim_end(s, c).len() <= s.len(),
        trim_end(s, c) == s.take(trim_end(s, c).len() as int),
        forall|i: int| trim_end(s, c).len() <= i < s.len() ==> s[i] == c,
        trim_end(s, c).len() == 0 || trim_end(s, c).last() != c,
    decreases s.len(),
{
    if s.len() > 0 && s.last() == c {
        lemma_trim_end_shape(s.drop_last(), c);
        let t = trim_end(s.drop_last(), c);
        assert(s.drop_last().take(t.len() as int) =~= s.take(t.len() as int));
        assert forall|i: int| t.len() <= i < s.len() implies s[i] == c by {
            if i < s.len() - 1 {
                assert(s.drop_last()[i] == s[i]);
            }
        }
    } else {
        assert(s.take(s.len() as int) =~= s);
    }
}

proof fn lemma_marks_add(a: Seq<char>, b: Seq<char>)
    ensures
        without_marks(a + b) == without_marks(a) + without_marks(b),
{
    Seq::filter_distributes_over_add(a, b, |c: char| c != '\'');
}

proof fn lemma_marks_of_mark()
    ensures
        without_marks(seq!['\'']) == Seq::<char>::empty(),
{
    reveal_with_fuel(Seq::<_>::filter, 2);
    assert(seq!['\''].drop_last() =~= Seq::<char>::empty());
}

proof fn lemma_marks_insert(s: Seq<char>, k: int)
    requires
        0 <= k <= s.len(),
    ensures
        without_marks(s.insert(k, '\'')) == without_marks(s),
{
    assert(s.insert(k, '\'') =~= s.take(k) + seq!['\''] + s.skip(k));
    assert(s =~= s.take(k) + s.skip(k));
    lemma_marks_add(s.take(k) + seq!['\''], s.skip(k));
    lemma_marks_add(s.take(k), seq!['\'']);
    lemma_marks_add(s.take(k), s.skip(k));
    lemma_marks_of_mark();
    assert(without_marks(s.take(k)) + Seq::<char>::empty() =~= without_marks(s.take(k)));
}

/// Agreeing readings have the same text once the marks are left out.
proof fn lemma_agree_marks(o1: Seq<char>, o2: Seq<char>)
    requires
        outs_agree(o1, o2),
    ensures
        without_marks(o1) == without_marks(o2),
{
    lemma_trim_end_shape(o1, 'っ');
    lemma_trim_end_shape(o2, 'っ');
    let n1 = body_of(o1).len() as int;
    let n2 = body_of(o2).len() as int;
    let r = Seq::new(run_len(o1) as nat, |i: int| 'っ');
    assert(o1.skip(n1) =~= r);
    assert(o2.skip(n2) =~= r);
    assert(o1 =~= body_of(o1) + o1.skip(n1));
    assert(o2 =~= body_of(o2) + o2.skip(n2));
    lemma_marks_add(body_of(o1), r);
    lemma_marks_add(body_of(o2), r);
}

/// The trailing `っ` of `o + p`: those of `p`, or, when `p` is only `っ`,
/// those of `o` and all of `p`.
proof fn lemma_core_concat(o: Seq<char>, p: Seq<char>)
    ensures
        body_of(o + p) == (if body_of(p).len() > 0 {
            o + body_of(p)
        } else {
            body_of(o)
        }),
    decreases p.len(),
{
    if p.len() == 0 {
        assert(o + p =~= o);
    } else if p.last() == 'っ' {
        assert((o + p).drop_last() =~= o + p.drop_last());
        lemma_core_concat(o, p.drop_last());
    } else {
        assert((o + p).last() == p.last());
    }
}

proof fn lemma_agree_append(o1: Seq<char>, o2: Seq<char>, p: Seq<char>)
    requires
        outs_agree(o1, o2),
    ensures
        outs_agree(o1 + p, o2 + p),
{
    lemma_core_concat(o1, p);
    lemma_core_concat(o2, p);
    if body_of(p).len() > 0 {
        lemma_agree_marks(o1, o2);
        lemma_marks_add(o1, body_of(p));
        lemma_marks_add(o2, body_of(p));
    }
}

proof fn lemma_agree_separator(o1: Seq<char>, o2: Seq<char>, sep: Seq<char>)
    requires
        outs_agree(o1, o2),
        sep.len() > 0,
        sep.last() != 'っ',
    ensures
        outs_agree(body_of(o1) + sep, body_of(o2) + sep),
{
    lemma_core_concat(body_of(o1), sep);
    lemma_core_concat(body_of(o2), sep);
    assert(body_of(sep) == sep);
    lemma_marks_add(body_of(o1), sep);
    lemma_marks_add(body_of(o2), sep);
}

proof fn lemma_agree_joined(o1: Seq<char>, o2: Seq<char>, prev: WordState, next: WordState)
    requires
        outs_agree(o1, o2),
    ensures
        outs_agree(joined(o1, prev, next), joined(o2, prev, next)),
{
    reveal_strlit("+");
    reveal_strlit("/");
    if prev != WordState::Other && next != WordState::Other {
        if next == WordState::Adjunct {
            lemma_agree_separator(o1, o2, "+"@);
        } else {
            lemma_agree_separator(o1, o2, "/"@);
        }
    }
}

/// A mark inside a reading, before a character other than `っ`.
proof fn lemma_agree_inner_mark(o1: Seq<char>, o2: Seq<char>, y: Seq<char>, k: int)
    requires
        outs_agree(o1, o2),
        0 <= k < y.len(),
        y[k] != 'っ',
    ensures
        outs_agree(o1 + y.insert(k, '\''), o2 + y),
{
    lemma_trim_end_shape(y, 'っ');
    let n = body_of(y).len() as int;
    assert(k < n);
    let rest = y.skip(n);
    assert(y =~= body_of(y) + rest);
    let ci = body_of(y).insert(k, '\'');
    assert(y.insert(k, '\'') =~= ci + rest);
    lemma_trim_end_shape(rest, 'っ');
    assert(body_of(rest).len() == 0) by {
        if body_of(rest).len() > 0 {
            assert(rest[body_of(rest).len() - 1] == 'っ');
        }
    }
    lemma_core_concat(ci, rest);
    assert(ci.last() == body_of(y).last());
    assert(body_of(ci) == ci);
    lemma_core_concat(o1, y.insert(k, '\''));
    lemma_core_concat(o2, y);
    lemma_agree_marks(o1, o2);
    lemma_marks_add(o1, ci);
    lemma_marks_add(o2, body_of(y));
    lemma_marks_insert(body_of(y), k);
}

/// A mark at the end of a reading that does not end in `っ`.
proof fn lemma_agree_end_mark(o1: Seq<char>, o2: Seq<char>, y: Seq<char>)
    requires
        outs_agree(o1, o2),
        y.len() > 0,
        y.last() != 'っ',
    ensures
        outs_agree(o1 + y.push('\''), o2 + y),
{
    assert(body_of(y) == y);
    assert(body_of(y.push('\'')) == y.push('\''));
    lemma_core_concat(o1, y.push('\''));
    lemma_core_concat(o2, y);
    lemma_agree_marks(o1, o2);
    assert(y.push('\'') =~= y + seq!['\'']);
    lemma_marks_add(o1, y.push('\''));
    lemma_marks_add(y, seq!['\'']);
    lemma_marks_add(o2, y);
    lemma_marks_of_mark();
    assert(without_marks(y) + Seq::<char>::empty() =~= without_marks(y));
}

/// A mark inserted before the end of a reading leaves the reading's last
/// character, once trailing marks are left out, where it was.
proof fn lemma_trim_marks_insert(y: Seq<char>, k: int)
    requires
        0 <= k < y.len(),
    ensures
        (trim_end(y.insert(k, '\''), '\'').len() > 0) == (trim_end(y, '\'').len() > 0),
        trim_end(y, '\'').len() > 0 ==> trim_end(y.insert(k, '\''), '\'').last() == trim_end(
            y,
            '\'',
        ).last(),
    decreases y.len(),
{
    let y1 = y.insert(k, '\'');
    assert(y1[y1.len() - 1] == y[y.len() - 1]);
    assert(y1.last() == y.last());
    if y.last() == '\'' {
        assert(trim_end(y, '\'') == trim_end(y.drop_last(), '\''));
        assert(trim_end(y1, '\'') == trim_end(y1.drop_last(), '\''));
        if k == y.len() - 1 {
            let p = y.drop_last().push('\'');
            assert(y1.drop_last() =~= p);
            assert(p.drop_last() =~= y.drop_last());
            assert(trim_end(p, '\'') == trim_end(y.drop_last(), '\''));
        } else {
            assert(y1.drop_last() =~= y.drop_last().insert(k, '\''));
            lemma_trim_marks_insert(y.drop_last(), k);
        }
    } else {
        assert(trim_end(y, '\'') == y);
        assert(trim_end(y1, '\'') == y1);
    }
}

proof fn lemma_small_end_insert(y: Seq<char>, k: int)
    requires
        0 <= k < y.len(),
    ensures
        ends_in_small_kana(y.insert(k, '\'')) == ends_in_small_kana(y),
{
    lemma_trim_marks_insert(y, k);
}

proof fn lemma_small_end_push(y: Seq<char>)
    ensures
        ends_in_small_kana(y.push('\'')) == ends_in_small_kana(y),
{
    assert(y.push('\'').drop_last() =~= y);
}

proof fn lemma_word_step_agree(a1: YomiState, a2: YomiState, surface: Seq<char>, f: Seq<Seq<char>>, k: NodeKanaView)
    requires
        modes_agree(a1, a2),
        ({
            let y = kana_fixed(k.reading);
            accent_type_of(surface, word_type_of(f[0], y), f[23]) == '2' ==> (y.len() > 0 && y
                != "*"@ && y.last() != 'っ')
        }),
    ensures
        modes_agree(word_step(a1, surface, f, k), word_step(a2, surface, f, k)),
{
    reveal_strlit("*");
    let yomi = kana_fixed(k.reading);
    let wt = word_type_of(f[0], yomi);
    let o1 = joined(a1.out, a1.word_buf, wt);
    let o2 = joined(a2.out, a2.word_buf, wt);
    lemma_agree_joined(a1.out, a2.out, a1.word_buf, wt);
    if surface == "#"@ {
        lemma_agree_append(o1, o2, kana_fixed(k.bypass));
    } else {
        let t = accent_type_of(surface, wt, f[23]);
        let y1 = accented(yomi, t, false);
        assert(accented(yomi, t, true) == yomi);
        if t == '1' && first_full_kana_from(yomi, 1) >= 0 {
            let kk = first_full_kana_from(yomi, 1);
            lemma_first_full_kana_in_range(yomi, 1);
            assert(y1 =~= yomi.insert(kk, '\''));
            lemma_small_end_insert(yomi, kk);
            lemma_agree_inner_mark(o1, o2, yomi, kk);
        } else if t == '2' {
            assert(y1 == yomi.push('\''));
            lemma_small_end_push(yomi);
            lemma_agree_end_mark(o1, o2, yomi);
        } else {
            assert(y1 == yomi);
            let piece = if yomi != "*"@ && yomi.len() > 0 {
                yomi
            } else {
                super::fallback_yomi(surface, k.fallback)
            };
            lemma_agree_append(o1, o2, piece);
        }
    }
}

/// One morpheme keeps the two modes in agreement.
proof fn lemma_step_agree(s1: YomiState, s2: YomiState, n: Morpheme)
    requires
        modes_agree(s1, s2),
        mark_neutral(n),
    ensures
        modes_agree(yomi_step(s1, n.0, n.1, n.2), yomi_step(s2, n.0, n.1, n.2)),
{
    let surface = n.0;
    let k = n.2;
    if surface.len() == 0 {
    } else if s1.sharp_mode && surface != "#"@ {
    } else {
        let f = feature_fields_of(n.1);
        let (t1, d1) = number_step(s1, surface, f, k);
        let (t2, d2) = number_step(s2, surface, f, k);
        assert(d1 == d2);
        if f[1] == "数詞"@ && super::all_digits(surface) {
        } else if s1.number_buf.len() == 0 {
        } else if surface == "."@ {
        } else if f[2] == "助数詞"@ {
            let y = kana_fixed(k.counter);
            if y == "つ"@ && super::counter_word(s1.number_buf) is Some {
                lemma_agree_append(s1.out, s2.out, super::counter_word(s1.number_buf)->0);
            } else {
                lemma_agree_append(s1.out, s2.out, super::numk_counter_tag(s1.number_buf, y));
            }
        } else {
            lemma_agree_append(s1.out, s2.out, super::numk_tag(s1.number_buf));
        }
        assert(modes_agree(t1, t2));
        if !d1 {
            lemma_word_step_agree(t1, t2, surface, f, k);
        }
    }
}

proof fn lemma_run_agree(nodes: Seq<Morpheme>)
    requires
        forall|i: int| 0 <= i < nodes.len() ==> mark_neutral(#[trigger] nodes[i]),
    ensures
        modes_agree(yomi_run(yomi_start(false), nodes), yomi_run(yomi_start(true), nodes)),
    decreases nodes.len(),
{
    if nodes.len() == 0 {
        assert(body_of(Seq::<char>::empty()) == Seq::<char>::empty());
    } else {
        let rest = nodes.drop_last();
        assert forall|i: int| 0 <= i < rest.len() implies mark_neutral(#[trigger] rest[i]) by {
            assert(rest[i] == nodes[i]);
        }
        lemma_run_agree(rest);
        assert(mark_neutral(nodes[nodes.len() - 1]));
        lemma_step_agree(
            yomi_run(yomi_start(false), rest),
            yomi_run(yomi_start(true), rest),
            nodes.last(),
        );
    }
}

/// Whether a morpheme of accent type `'2'` (a mark at its end) has a reading
/// that is neither empty nor `*`.
pub open spec fn end_mark_has_reading(n: Morpheme) -> bool {
    let f = feature_fields_of(n.1);
    let y = kana_fixed(n.2.reading);
    accent_type_of(n.0, word_type_of(f[0], y), f[23]) == '2' ==> (y.len() > 0 && y != "*"@)
}

/// The state after the number part of morpheme `n`, fed in state `st`.
pub open spec fn before_word(st: YomiState, n: Morpheme) -> YomiState {
    number_step(st, n.0, feature_fields_of(n.1), n.2).0
}

/// Whether morpheme `n`, fed in state `st`, writes a word separator (and
/// drops the trailing `っ` before it).
pub open spec fn writes_separator(st: YomiState, n: Morpheme) -> bool {
    let f = feature_fields_of(n.1);
    let (t, done) = number_step(st, n.0, f, n.2);
    &&& n.0.len() > 0
    &&& !(st.sharp_mode && n.0 != "#"@)
    &&& !done
    &&& t.word_buf != WordState::Other
    &&& word_type_of(f[0], kana_fixed(n.2.reading)) != WordState::Other
}

/// Whether, if morpheme `i` of `nodes` writes a word separator, the readings
/// of the two modes end there in the same number of `っ`, so that both drop
/// the same.
pub open spec fn separator_trims_alike(nodes: Seq<Morpheme>, i: int) -> bool {
    let s1 = yomi_run(yomi_start(false), nodes.take(i));
    let s2 = yomi_run(yomi_start(true), nodes.take(i));
    writes_separator(s1, nodes[i]) ==> run_len(before_word(s1, nodes[i]).out) == run_len(
        before_word(s2, nodes[i]).out,
    )
}

/// An accented-mode state and a bouyomi-mode state whose readings are the
/// same once marks are left out.
pub open spec fn modes_match(s1: YomiState, s2: YomiState) -> bool {
    &&& s1.number_buf == s2.number_buf
    &&& s1.word_buf == s2.word_buf
    &&& s1.sharp_mode == s2.sharp_mode
    &&& s1.sharp_buf == s2.sharp_buf
    &&& !s1.bouyomi
    &&& s2.bouyomi
    &&& without_marks(s1.out) == without_marks(s2.out)
}

/// Readings that match once marks are left out, and end in the same number
/// of `っ`, match without those `っ` too.
proof fn lemma_match_body(o1: Seq<char>, o2: Seq<char>)
    requires
        without_marks(o1) == without_marks(o2),
        run_len(o1) == run_len(o2),
    ensures
        without_marks(body_of(o1)) == without_marks(body_of(o2)),
{
    lemma_trim_end_shape(o1, 'っ');
    lemma_trim_end_shape(o2, 'っ');
    let n1 = body_of(o1).len() as int;
    let n2 = body_of(o2).len() as int;
    let r = Seq::new(run_len(o1) as nat, |i: int| 'っ');
    assert(o1.skip(n1) =~= r);
    assert(o2.skip(n2) =~= r);
    assert(o1 =~= body_of(o1) + o1.skip(n1));
    assert(o2 =~= body_of(o2) + o2.skip(n2));
    lemma_marks_add(body_of(o1), r);
    lemma_marks_add(body_of(o2), r);
    let w = without_marks(r);
    let b1 = without_marks(body_of(o1));
    let b2 = without_marks(body_of(o2));
    assert(o1 == body_of(o1) + r);
    assert(o2 == body_of(o2) + r);
    assert(without_marks(o1) == b1 + w);
    assert(without_marks(o2) == b2 + w);
    assert(b1.len() == b2.len());
    assert(b1 =~= (b1 + w).take(b1.len() as int));
    assert(b2 =~= (b2 + w).take(b2.len() as int));
}

proof fn lemma_match_append(o1: Seq<char>, o2: Seq<char>, p1: Seq<char>, p2: Seq<char>)
    requires
        without_marks(o1) == without_marks(o2),
        without_marks(p1) == without_marks(p2),
    ensures
        without_marks(o1 + p1) == without_marks(o2 + p2),
{
    lemma_marks_add(o1, p1);
    lemma_marks_add(o2, p2);
}

proof fn lemma_word_step_match(
    a1: YomiState,
    a2: YomiState,
    surface: Seq<char>,
    f: Seq<Seq<char>>,
    k: NodeKanaView,
)
    requires
        modes_match(a1, a2),
        ({
            let y = kana_fixed(k.reading);
            accent_type_of(surface, word_type_of(f[0], y), f[23]) == '2' ==> (y.len() > 0 && y
                != "*"@)
        }),
        a1.word_buf != WordState::Other && word_type_of(f[0], kana_fixed(k.reading))
            != WordState::Other ==> run_len(a1.out) == run_len(a2.out),
    ensures
        modes_match(word_step(a1, surface, f, k), word_step(a2, surface, f, k)),
{
    reveal_strlit("*");
    reveal_strlit("+");
    reveal_strlit("/");
    let yomi = kana_fixed(k.reading);
    let wt = word_type_of(f[0], yomi);
    let o1 = joined(a1.out, a1.word_buf, wt);
    let o2 = joined(a2.out, a2.word_buf, wt);
    if a1.word_buf != WordState::Other && wt != WordState::Other {
        lemma_match_body(a1.out, a2.out);
        let sep = if wt == WordState::Adjunct { "+"@ } else { "/"@ };
        lemma_match_append(body_of(a1.out), body_of(a2.out), sep, sep);
    }
    assert(without_marks(o1) == without_marks(o2));
    if surface == "#"@ {
        lemma_match_append(o1, o2, kana_fixed(k.bypass), kana_fixed(k.bypass));
    } else {
        let t = accent_type_of(surface, wt, f[23]);
        let y1 = accented(yomi, t, false);
        assert(accented(yomi, t, true) == yomi);
        if t == '1' && first_full_kana_from(yomi, 1) >= 0 {
            let kk = first_full_kana_from(yomi, 1);
            lemma_first_full_kana_in_range(yomi, 1);
            assert(y1 =~= yomi.insert(kk, '\''));
            lemma_small_end_insert(yomi, kk);
            lemma_marks_insert(yomi, kk);
            lemma_match_append(o1, o2, y1, yomi);
        } else if t == '2' {
            assert(y1 == yomi.push('\''));
            lemma_small_end_push(yomi);
            assert(yomi.push('\'') =~= yomi + seq!['\'']);
            lemma_marks_add(yomi, seq!['\'']);
            lemma_marks_of_mark();
            assert(without_marks(yomi) + Seq::<char>::empty() =~= without_marks(yomi));
            lemma_match_append(o1, o2, y1, yomi);
        } else {
            assert(y1 == yomi);
            let piece = if yomi != "*"@ && yomi.len() > 0 {
                yomi
            } else {
                super::fallback_yomi(surface, k.fallback)
            };
            lemma_match_append(o1, o2, piece, piece);
        }
    }
}

/// One morpheme keeps the two modes matching.
proof fn lemma_step_match(s1: YomiState, s2: YomiState, n: Morpheme)
    requires
        modes_match(s1, s2),
        end_mark_has_reading(n),
        writes_separator(s1, n) ==> run_len(before_word(s1, n).out) == run_len(
            before_word(s2, n).out,
        ),
    ensures
        modes_match(yomi_step(s1, n.0, n.1, n.2), yomi_step(s2, n.0, n.1, n.2)),
{
    let surface = n.0;
    let k = n.2;
    if surface.len() == 0 {
    } else if s1.sharp_mode && surface != "#"@ {
    } else {
        let f = feature_fields_of(n.1);
        let (t1, d1) = number_step(s1, surface, f, k);
        let (t2, d2) = number_step(s2, surface, f, k);
        assert(d1 == d2);
        if f[1] == "数詞"@ && super::all_digits(surface) {
        } else if s1.number_buf.len() == 0 {
        } else if surface == "."@ {
        } else if f[2] == "助数詞"@ {
            let y = kana_fixed(k.counter);
            if y == "つ"@ && super::counter_word(s1.number_buf) is Some {
                let w = super::counter_word(s1.number_buf)->0;
                lemma_match_append(s1.out, s2.out, w, w);
            } else {
                let w = super::numk_counter_tag(s1.number_buf, y);
                lemma_match_append(s1.out, s2.out, w, w);
            }
        } else {
            let w = super::numk_tag(s1.number_buf);
            lemma_match_append(s1.out, s2.out, w, w);
        }
        assert(modes_match(t1, t2));
        if !d1 {
            lemma_word_step_match(t1, t2, surface, f, k);
        }
    }
}

proof fn lemma_run_match(nodes: Seq<Morpheme>)
    requires
        forall|i: int| 0 <= i < nodes.len() ==> end_mark_has_reading(#[trigger] nodes[i]),
        forall|i: int| 0 <= i < nodes.len() ==> #[trigger] separator_trims_alike(nodes, i),
    ensures
        modes_match(yomi_run(yomi_start(false), nodes), yomi_run(yomi_start(true), nodes)),
    decreases nodes.len(),
{
    if nodes.len() == 0 {
    } else {
        let rest = nodes.drop_last();
        assert forall|i: int| 0 <= i < rest.len() implies end_mark_has_reading(
            #[trigger] rest[i],
        ) by {
            assert(rest[i] == nodes[i]);
        }
        assert forall|i: int| 0 <= i < rest.len() implies #[trigger] separator_trims_alike(
            rest,
            i,
        ) by {
            assert(rest[i] == nodes[i]);
            assert(rest.take(i) =~= nodes.take(i));
            assert(separator_trims_alike(nodes, i));
        }
        lemma_run_match(rest);
        let last = nodes.len() - 1;
        assert(end_mark_has_reading(nodes[last]));
        assert(separator_trims_alike(nodes, last));
        assert(nodes.take(last) =~= rest);
        lemma_step_match(
            yomi_run(yomi_start(false), rest),
            yomi_run(yomi_start(true), rest),
            nodes.last(),
        );
    }
}

/// Law: bouyomi mode only leaves out accent marks. Over a whole message,
/// the reading in accented mode and the reading in bouyomi mode are the same
/// once their apostrophes are left out, on every message where
/// - no morpheme of accent type `'2'` has an empty reading or `*` (there
///   accented mode writes the reading with its mark where bouyomi mode
///   falls back to the surface), and
/// - wherever a word separator is written, the two readings end in the same
///   number of `っ` (an end mark after `っ`, left standing until the next
///   separator, keeps accented mode from dropping those `っ`).
pub proof fn law_bouyomi_only_drops_accent_marks(nodes: Seq<Morpheme>)
    requires
        forall|i: int| 0 <= i < nodes.len() ==> end_mark_has_reading(#[trigger] nodes[i]),
        forall|i: int| 0 <= i < nodes.len() ==> #[trigger] separator_trims_alike(nodes, i),
    ensures
        without_marks(yomi_finish(yomi_run(yomi_start(false), nodes))) == without_marks(
            yomi_finish(yomi_run(yomi_start(true), nodes)),
        ),
{
    lemma_run_match(nodes);
    let s1 = yomi_run(yomi_start(false), nodes);
    let s2 = yomi_run(yomi_start(true), nodes);
    if s1.number_buf.len() > 0 {
        let w = super::numk_tag(s1.number_buf);
        lemma_match_append(s1.out, s2.out, w, w);
    }
}

/// Law: where no morpheme of accent type `'2'` has a reading that is empty,
/// `*` or ends in `っ`, the reading in accented mode and the reading in
/// bouyomi mode are the same once their apostrophes are left out. (A
/// condition on each morpheme alone, under which the separators always
/// trim alike.)
pub proof fn law_bouyomi_drops_marks_when_no_end_mark_follows_sokuon(nodes: Seq<Morpheme>)
    requires
        forall|i: int| 0 <= i < nodes.len() ==> mark_neutral(#[trigger] nodes[i]),
    ensures
        without_marks(yomi_finish(yomi_run(yomi_start(false), nodes))) == without_marks(
            yomi_finish(yomi_run(yomi_start(true), nodes)),
        ),
{
    lemma_run_agree(nodes);
    let s1 = yomi_run(yomi_start(false), nodes);
    let s2 = yomi_run(yomi_start(true), nodes);
    if s1.number_buf.len() > 0 {
        lemma_agree_append(s1.out, s2.out, super::numk_tag(s1.number_buf));
        lemma_agree_marks(s1.out + super::numk_tag(s1.number_buf), s2.out + super::numk_tag(s2.number_buf));
    } else {
        lemma_agree_marks(s1.out, s2.out);
    }
}

} // verus!
