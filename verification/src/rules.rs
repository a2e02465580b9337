//! The lines of a dictionary file.
//!
//! A line holds a word, its replacements separated by commas, and
//! optionally their priorities, also separated by commas (0 where one is
//! missing or not a number); the three are separated by white space. The
//! rules of a line are ordered by priority, highest first (ties by the
//! replacement, in reverse code-point order). A line with fewer than two
//! fields is kept and read together with the next one.

use vstd::prelude::*;

use crate::text::{push_str, string_from_chars, strings_view};

verus! {

/// Whether `c` has the Unicode `White_Space` property.
pub open spec fn unicode_white_space(c: char) -> bool {
    let u = c as u32;
    (0x09 <= u <= 0x0D) || u == 0x20 || u == 0x85 || u == 0xA0 || u == 0x1680 || (0x2000 <= u
        <= 0x200A) || u == 0x2028 || u == 0x2029 || u == 0x202F || u == 0x205F || u == 0x3000
}

/// Whether `c` is white space, as `char::is_whitespace` decides it (std
/// documents it as the Unicode `White_Space` property).
fn char_is_whitespace(c: char) -> (b: bool)
    ensures
        b == unicode_white_space(c),
{
    let u = c as u32;
    (0x09 <= u && u <= 0x0D) || u == 0x20 || u == 0x85 || u == 0xA0 || u == 0x1680 || (0x2000
        <= u && u <= 0x200A) || u == 0x2028 || u == 0x2029 || u == 0x202F || u == 0x205F || u
        == 0x3000
}

/// The value of a non-empty run of ASCII digits.
pub open spec fn decimal_value(s: Seq<char>) -> int
    decreases s.len(),
{
    if s.len() == 0 {
        0
    } else {
        decimal_value(s.drop_last()) * 10 + ((s.last() as u32) - ('0' as u32))
    }
}

/// Whether `c` is an ASCII digit.
pub open spec fn is_ascii_digit(c: char) -> bool {
    '0' <= c && c <= '9'
}

/// What `str::parse::<i64>` gives: an optional `+` or `-` followed by at
/// least one ASCII digit, whose value fits in an `i64`.
pub open spec fn i64_from_str(s: Seq<char>) -> Option<i64> {
    let neg = s.len() > 0 && s[0] == '-';
    let body = if s.len() > 0 && (s[0] == '-' || s[0] == '+') {
        s.drop_first()
    } else {
        s
    };
    if body.len() == 0 || !(forall|j: int| 0 <= j < body.len() ==> is_ascii_digit(#[trigger] body[j])) {
        None
    } else {
        let v = if neg {
            -decimal_value(body)
        } else {
            decimal_value(body)
        };
        if i64::MIN <= v <= i64::MAX {
            Some(v as i64)
        } else {
            None
        }
    }
}

/// `str::parse::<i64>`, as std documents it: an optional sign, then one or
/// more ASCII digits, and a value in range.
#[verifier::external_body]
fn parse_i64(s: &str) -> (r: Option<i64>)
    ensures
        r == i64_from_str(s@),
{
    s.parse::<i64>().ok()
}

/// The priority written as `s`; 0 when it is not a number.
pub open spec fn priority_of(s: Seq<char>) -> i64 {
    match i64_from_str(s) {
        Some(v) => v,
        None => 0,
    }
}

/// The views of a sequence of character vectors.
pub open spec fn chars_view(v: Seq<Vec<char>>) -> Seq<Seq<char>> {
    v.map_values(|x: Vec<char>| x@)
}

/// The tokens of `s` that follow the current token `cur` and the finished
/// tokens `acc`: maximal runs of characters that are not white space.
pub open spec fn tokens_from(s: Seq<char>, cur: Seq<char>, acc: Seq<Seq<char>>) -> Seq<Seq<char>>
    decreases s.len(),
{
    if s.len() == 0 {
        if cur.len() > 0 {
            acc.push(cur)
        } else {
            acc
        }
    } else if unicode_white_space(s[0]) {
        tokens_from(
            s.drop_first(),
            Seq::empty(),
            if cur.len() > 0 {
                acc.push(cur)
            } else {
                acc
            },
        )
    } else {
        tokens_from(s.drop_first(), cur.push(s[0]), acc)
    }
}

/// What `str::split_whitespace` gives.
pub open spec fn whitespace_tokens(s: Seq<char>) -> Seq<Seq<char>> {
    tokens_from(s, Seq::empty(), Seq::empty())
}

/// The pieces of `s` cut at each `sep`, after the current piece `cur` and
/// the finished pieces `acc`.
pub open spec fn pieces_from(s: Seq<char>, sep: char, cur: Seq<char>, acc: Seq<Seq<char>>) -> Seq<
    Seq<char>,
>
    decreases s.len(),
{
    if s.len() == 0 {
        acc.push(cur)
    } else if s[0] == sep {
        pieces_from(s.drop_first(), sep, Seq::empty(), acc.push(cur))
    } else {
        pieces_from(s.drop_first(), sep, cur.push(s[0]), acc)
    }
}

/// What `str::split(sep)` gives: empty pieces included.
pub open spec fn pieces(s: Seq<char>, sep: char) -> Seq<Seq<char>> {
    pieces_from(s, sep, Seq::empty(), Seq::empty())
}

/// Splits `s` at white space.
fn split_whitespace_chars(s: &[char]) -> (v: Vec<Vec<char>>)
    ensures
        chars_view(v@) == whitespace_tokens(s@),
{
    let mut acc: Vec<Vec<char>> = Vec::new();
    let mut cur: Vec<char> = Vec::new();
    let mut i: usize = 0;
    assert(chars_view(acc@) =~= Seq::<Seq<char>>::empty());
    assert(s@.skip(0) =~= s@);
    while i < s.len()
        invariant
            i <= s@.len(),
            tokens_from(s@.skip(i as int), cur@, chars_view(acc@)) == whitespace_tokens(s@),
        decreases s@.len() - i,
    {
        let ghost rest = s@.skip(i as int);
        assert(rest.drop_first() =~= s@.skip(i + 1));
        assert(rest[0] == s@[i as int]);
        let c = s[i];
        if char_is_whitespace(c) {
            if cur.len() > 0 {
                let ghost a = chars_view(acc@);
                let done = cur;
                acc.push(done);
                assert(chars_view(acc@) =~= a.push(done@));
            }
            cur = Vec::new();
            assert(cur@ =~= Seq::<char>::empty());
        } else {
            cur.push(c);
        }
        i = i + 1;
    }
    assert(s@.skip(s@.len() as int) =~= Seq::<char>::empty());
    if cur.len() > 0 {
        let ghost a = chars_view(acc@);
        let done = cur;
        acc.push(done);
        assert(chars_view(acc@) =~= a.push(done@));
    }
    acc
}

/// Splits `s` at each `sep`.
fn split_chars(s: &[char], sep: char) -> (v: Vec<Vec<char>>)
    ensures
        chars_view(v@) == pieces(s@, sep),
{
    let mut acc: Vec<Vec<char>> = Vec::new();
    let mut cur: Vec<char> = Vec::new();
    let mut i: usize = 0;
    assert(chars_view(acc@) =~= Seq::<Seq<char>>::empty());
    assert(s@.skip(0) =~= s@);
    while i < s.len()
        invariant
            i <= s@.len(),
            pieces_from(s@.skip(i as int), sep, cur@, chars_view(acc@)) == pieces(s@, sep),
        decreases s@.len() - i,
    {
        let ghost rest = s@.skip(i as int);
        assert(rest.drop_first() =~= s@.skip(i + 1));
        assert(rest[0] == s@[i as int]);
        let c = s[i];
        if c == sep {
            let ghost a = chars_view(acc@);
            let done = cur;
            acc.push(done);
            assert(chars_view(acc@) =~= a.push(done@));
            cur = Vec::new();
            assert(cur@ =~= Seq::<char>::empty());
        } else {
            cur.push(c);
        }
        i = i + 1;
    }
    assert(s@.skip(s@.len() as int) =~= Seq::<char>::empty());
    let ghost a = chars_view(acc@);
    let done = cur;
    acc.push(done);
    assert(chars_view(acc@) =~= a.push(done@));
    acc
}

/// Whether `a` comes before `b` in code-point order (the order of `str`).
pub open spec fn chars_lt(a: Seq<char>, b: Seq<char>) -> bool
    decreases a.len(),
{
    if a.len() == 0 {
        b.len() > 0
    } else if b.len() == 0 {
        false
    } else if a[0] != b[0] {
        a[0] < b[0]
    } else {
        chars_lt(a.drop_first(), b.drop_first())
    }
}

/// A rule of a line before the word is attached: its priority and its
/// replacement.
pub type Entry = (i64, Seq<char>);

/// The order of rules: by priority, then by replacement.
pub open spec fn entry_lt(x: Entry, y: Entry) -> bool {
    x.0 < y.0 || (x.0 == y.0 && chars_lt(x.1, y.1))
}

/// `e` put into the descending sequence `s` before the first element that
/// is smaller.
pub open spec fn insert_desc(s: Seq<Entry>, e: Entry) -> Seq<Entry>
    decreases s.len(),
{
    if s.len() == 0 {
        seq![e]
    } else if entry_lt(s[0], e) {
        seq![e] + s
    } else {
        seq![s[0]] + insert_desc(s.drop_first(), e)
    }
}

/// `s` sorted from the greatest to the smallest entry.
pub open spec fn sort_desc(s: Seq<Entry>) -> Seq<Entry>
    decreases s.len(),
{
    if s.len() == 0 {
        s
    } else {
        insert_desc(sort_desc(s.drop_last()), s.last())
    }
}

/// The views of executable entries.
pub open spec fn entries_view(v: Seq<(i64, Vec<char>)>) -> Seq<Entry> {
    v.map_values(|e: (i64, Vec<char>)| (e.0, e.1@))
}

/// A copy of `v`.
fn copy_chars(v: &[char]) -> (r: Vec<char>)
    ensures
        r@ == v@,
{
    let mut r: Vec<char> = Vec::new();
    let mut i: usize = 0;
    while i < v.len()
        invariant
            i <= v@.len(),
            r@ == v@.take(i as int),
        decreases v@.len() - i,
    {
        r.push(v[i]);
        assert(v@.take(i + 1) =~= v@.take(i as int).push(v@[i as int]));
        i = i + 1;
    }
    assert(v@.take(v@.len() as int) =~= v@);
    r
}

/// Whether `a` comes before `b` in code-point order.
fn chars_less(a: &[char], b: &[char]) -> (r: bool)
    ensures
        r == chars_lt(a@, b@),
{
    let mut i: usize = 0;
    assert(a@.skip(0) =~= a@);
    assert(b@.skip(0) =~= b@);
    while i < a.len() && i < b.len()
        invariant
            i <= a@.len(),
            i <= b@.len(),
            chars_lt(a@, b@) == chars_lt(a@.skip(i as int), b@.skip(i as int)),
        decreases a@.len() - i,
    {
        assert(a@.skip(i as int)[0] == a@[i as int]);
        assert(b@.skip(i as int)[0] == b@[i as int]);
        if a[i] != b[i] {
            return a[i] < b[i];
        }
        assert(a@.skip(i as int).drop_first() =~= a@.skip(i + 1));
        assert(b@.skip(i as int).drop_first() =~= b@.skip(i + 1));
        i = i + 1;
    }
    i == a.len() && i < b.len()
}

/// Whether entry `x` is smaller than entry `y`.
fn entry_less(x: &(i64, Vec<char>), y: &(i64, Vec<char>)) -> (r: bool)
    ensures
        r == entry_lt((x.0, x.1@), (y.0, y.1@)),
{
    x.0 < y.0 || (x.0 == y.0 && chars_less(x.1.as_slice(), y.1.as_slice()))
}

/// Sorts the entries from the greatest to the smallest.
fn sort_entries(v: &Vec<(i64, Vec<char>)>) -> (r: Vec<(i64, Vec<char>)>)
    ensures
        entries_view(r@) == sort_desc(entries_view(v@)),
{
    let ghost ev = entries_view(v@);
    let mut r: Vec<(i64, Vec<char>)> = Vec::new();
    let mut i: usize = 0;
    assert(ev.take(0) =~= Seq::<Entry>::empty());
    assert(entries_view(r@) =~= Seq::<Entry>::empty());
    while i < v.len()
        invariant
            ev == entries_view(v@),
            i <= v@.len(),
            entries_view(r@) == sort_desc(ev.take(i as int)),
        decreases v@.len() - i,
    {
        let e = (v[i].0, copy_chars(v[i].1.as_slice()));
        let ghost ee: Entry = (e.0, e.1@);
        assert(ee == ev[i as int]);
        let ghost rv = entries_view(r@);
        let mut j: usize = 0;
        while j < r.len() && !entry_less(&r[j], &e)
            invariant
                j <= r@.len(),
                rv == entries_view(r@),
                ee == (e.0, e.1@),
                forall|k: int| 0 <= k < j ==> !entry_lt(#[trigger] rv[k], ee),
            decreases r@.len() - j,
        {
            j = j + 1;
        }
        proof {
            let j0 = lemma_insert_desc_position(rv, ee);
            if j0 < j {
                assert(!entry_lt(rv[j0], ee));
            } else if j < j0 {
                assert(!entry_lt(rv[j as int], ee));
            }
            assert(j0 == j);
        }
        r.insert(j, e);
        assert(entries_view(r@) =~= rv.insert(j as int, ee));
        assert(ev.take(i + 1).drop_last() =~= ev.take(i as int));
        i = i + 1;
    }
    assert(ev.take(v@.len() as int) =~= ev);
    r
}

/// Pairs each replacement with the priority at the same place; the
/// shorter list decides how many rules there are.
pub open spec fn zip_entries(tos: Seq<Seq<char>>, prios: Seq<Seq<char>>) -> Seq<Entry> {
    Seq::new(
        if tos.len() <= prios.len() {
            tos.len()
        } else {
            prios.len()
        },
        |i: int| (priority_of(prios[i]), tos[i]),
    )
}

/// The rules (word, replacement) of one dictionary line, highest priority
/// first; `None` when the line has fewer than two fields.
pub open spec fn line_rules(buf: Seq<char>) -> Option<Seq<(Seq<char>, Seq<char>)>> {
    let t = whitespace_tokens(buf);
    if t.len() < 2 {
        None
    } else {
        let prio = if t.len() >= 3 {
            t[2]
        } else {
            "0"@
        };
        Some(
            sort_desc(zip_entries(pieces(t[1], ','), pieces(prio, ','))).map_values(
                |x: Entry| (t[0], x.1),
            ),
        )
    }
}

/// Reading a dictionary file: the text kept for the next line, the rules
/// read so far, and whether the end was reached.
pub struct LoadState {
    pub buf: Seq<char>,
    pub rules: Seq<(Seq<char>, Seq<char>)>,
    pub ended: bool,
}

/// The state after one more line. An empty line stands for the end of the
/// file: nothing after it is read. A line whose text (with what was kept)
/// has fewer than two fields is kept for the next one.
pub open spec fn load_step(st: LoadState, line: Seq<char>) -> LoadState {
    if st.ended || line.len() == 0 {
        LoadState { ended: true, ..st }
    } else {
        let buf = st.buf + line;
        match line_rules(buf) {
            Some(r) => LoadState { buf: Seq::empty(), rules: st.rules + r, ended: false },
            None => LoadState { buf: buf, ..st },
        }
    }
}

/// The state after all of `lines`.
pub open spec fn load_all(lines: Seq<Seq<char>>) -> LoadState
    decreases lines.len(),
{
    if lines.len() == 0 {
        LoadState { buf: Seq::empty(), rules: Seq::empty(), ended: false }
    } else {
        load_step(load_all(lines.drop_last()), lines.last())
    }
}

/// The word and the sorted entries of one line, if it has two fields.
fn rules_of_line(buf: &[char]) -> (r: Option<(Vec<char>, Vec<(i64, Vec<char>)>)>)
    ensures
        match r {
            None => line_rules(buf@) is None,
            Some(x) => line_rules(buf@) == Some(
                entries_view(x.1@).map_values(|e: Entry| (x.0@, e.1)),
            ),
        },
{
    let t = split_whitespace_chars(buf);
    let ghost tv = chars_view(t@);
    if t.len() < 2 {
        return None;
    }
    assert(tv[0] == t@[0]@ && tv[1] == t@[1]@);
    let prio = if t.len() >= 3 {
        assert(tv[2] == t@[2]@);
        copy_chars(t[2].as_slice())
    } else {
        crate::text::str_to_chars("0")
    };
    let tos = split_chars(t[1].as_slice(), ',');
    let prios = split_chars(prio.as_slice(), ',');
    let ghost z = zip_entries(chars_view(tos@), chars_view(prios@));
    let n = if tos.len() <= prios.len() {
        tos.len()
    } else {
        prios.len()
    };
    let mut entries: Vec<(i64, Vec<char>)> = Vec::new();
    let mut k: usize = 0;
    while k < n
        invariant
            n <= tos@.len(),
            n <= prios@.len(),
            z == zip_entries(chars_view(tos@), chars_view(prios@)),
            z.len() == n,
            k <= n,
            entries_view(entries@) == z.take(k as int),
        decreases n - k,
    {
        let ps = string_from_chars(prios[k].as_slice());
        let p = match parse_i64(ps.as_str()) {
            Some(v) => v,
            None => 0,
        };
        let ghost before = entries_view(entries@);
        let e = (p, copy_chars(tos[k].as_slice()));
        entries.push(e);
        assert(chars_view(prios@)[k as int] == prios@[k as int]@);
        assert(chars_view(tos@)[k as int] == tos@[k as int]@);
        assert(entries_view(entries@) =~= before.push((e.0, e.1@)));
        assert(z.take(k + 1) =~= z.take(k as int).push(z[k as int]));
        k = k + 1;
    }
    assert(z.take(n as int) =~= z);
    let sorted = sort_entries(&entries);
    let word = copy_chars(t[0].as_slice());
    Some((word, sorted))
}

/// Reads the rules of the lines of a dictionary file, each line with its
/// line break as the file has it; returns the words and the replacements.
pub fn read_rules(lines: &[String]) -> (r: (Vec<String>, Vec<String>))
    ensures
        strings_view(r.0@) == load_all(strings_view(lines@)).rules.map_values(
            |x: (Seq<char>, Seq<char>)| x.0,
        ),
        strings_view(r.1@) == load_all(strings_view(lines@)).rules.map_values(
            |x: (Seq<char>, Seq<char>)| x.1,
        ),
{
    let ghost lv = strings_view(lines@);
    let mut from: Vec<String> = Vec::new();
    let mut to: Vec<String> = Vec::new();
    let mut buf: Vec<char> = Vec::new();
    let mut ended = false;
    let mut i: usize = 0;
    assert(lv.take(0) =~= Seq::<Seq<char>>::empty());
    while i < lines.len()
        invariant
            lv == strings_view(lines@),
            i <= lines@.len(),
            load_all(lv.take(i as int)).buf == buf@,
            load_all(lv.take(i as int)).ended == ended,
            strings_view(from@) == load_all(lv.take(i as int)).rules.map_values(
                |x: (Seq<char>, Seq<char>)| x.0,
            ),
            strings_view(to@) == load_all(lv.take(i as int)).rules.map_values(
                |x: (Seq<char>, Seq<char>)| x.1,
            ),
        decreases lines@.len() - i,
    {
        let ghost st = load_all(lv.take(i as int));
        assert(lv.take(i + 1).drop_last() =~= lv.take(i as int));
        assert(lv.take(i + 1).last() == lines@[i as int]@);
        let line = lines[i].as_str();
        if ended || line.unicode_len() == 0 {
            ended = true;
        } else {
            push_str(&mut buf, line);
            match rules_of_line(buf.as_slice()) {
                Some(x) => {
                    let (word, entries) = x;
                    let ghost rs = entries_view(entries@).map_values(|e: Entry| (word@, e.1));
                    let ghost f0 = strings_view(from@);
                    let ghost t0 = strings_view(to@);
                    let mut k: usize = 0;
                    while k < entries.len()
                        invariant
                            rs == entries_view(entries@).map_values(|e: Entry| (word@, e.1)),
                            k <= entries@.len(),
                            strings_view(from@) == f0 + rs.take(k as int).map_values(
                                |x: (Seq<char>, Seq<char>)| x.0,
                            ),
                            strings_view(to@) == t0 + rs.take(k as int).map_values(
                                |x: (Seq<char>, Seq<char>)| x.1,
                            ),
                        decreases entries@.len() - k,
                    {
                        let ghost fb = strings_view(from@);
                        let ghost tb = strings_view(to@);
                        from.push(string_from_chars(word.as_slice()));
                        to.push(string_from_chars(entries[k].1.as_slice()));
                        assert(rs[k as int] == (word@, entries@[k as int].1@));
                        assert(rs.take(k + 1) =~= rs.take(k as int).push(rs[k as int]));
                        assert(strings_view(from@) =~= fb.push(word@));
                        assert(strings_view(to@) =~= tb.push(entries@[k as int].1@));
                        assert(rs.take(k + 1).map_values(|x: (Seq<char>, Seq<char>)| x.0)
                            =~= rs.take(k as int).map_values(|x: (Seq<char>, Seq<char>)| x.0).push(word@));
                        assert(rs.take(k + 1).map_values(|x: (Seq<char>, Seq<char>)| x.1)
                            =~= rs.take(k as int).map_values(|x: (Seq<char>, Seq<char>)| x.1).push(entries@[k as int].1@));
                        k = k + 1;
                    }
                    assert(rs.take(entries@.len() as int) =~= rs);
                    assert((st.rules + rs).map_values(|x: (Seq<char>, Seq<char>)| x.0)
                        =~= st.rules.map_values(|x: (Seq<char>, Seq<char>)| x.0) + rs.map_values(|x: (Seq<char>, Seq<char>)| x.0));
                    assert((st.rules + rs).map_values(|x: (Seq<char>, Seq<char>)| x.1)
                        =~= st.rules.map_values(|x: (Seq<char>, Seq<char>)| x.1) + rs.map_values(|x: (Seq<char>, Seq<char>)| x.1));
                    buf = Vec::new();
                    assert(buf@ =~= Seq::<char>::empty());
                },
                None => {},
            }
        }
        i = i + 1;
    }
    assert(lv.take(lines@.len() as int) =~= lv);
    (from, to)
}

/// No entry of `r` is smaller than one after it.
pub open spec fn sorted_desc(r: Seq<Entry>) -> bool {
    forall|i: int, j: int| 0 <= i < j < r.len() ==> !entry_lt(#[trigger] r[i], #[trigger] r[j])
}

proof fn lemma_chars_lt_irreflexive(a: Seq<char>)
    ensures
        !chars_lt(a, a),
    decreases a.len(),
{
    if a.len() > 0 {
        lemma_chars_lt_irreflexive(a.drop_first());
    }
}

proof fn lemma_chars_lt_transitive(a: Seq<char>, b: Seq<char>, c: Seq<char>)
    requires
        chars_lt(a, b),
        chars_lt(b, c),
    ensures
        chars_lt(a, c),
    decreases a.len(),
{
    if a.len() > 0 && b.len() > 0 && c.len() > 0 && a[0] == b[0] && b[0] == c[0] {
        lemma_chars_lt_transitive(a.drop_first(), b.drop_first(), c.drop_first());
    }
}

proof fn lemma_entry_lt_transitive(x: Entry, y: Entry, z: Entry)
    requires
        entry_lt(x, y),
        entry_lt(y, z),
    ensures
        entry_lt(x, z),
{
    if x.0 == y.0 && y.0 == z.0 {
        lemma_chars_lt_transitive(x.1, y.1, z.1);
    }
}

/// `insert_desc` inserts `e` at the first position whose element is
/// smaller than `e`.
proof fn lemma_insert_desc_position(s: Seq<Entry>, e: Entry) -> (j: int)
    ensures
        0 <= j <= s.len(),
        insert_desc(s, e) == s.insert(j, e),
        forall|k: int| 0 <= k < j ==> !entry_lt(#[trigger] s[k], e),
        j == s.len() || entry_lt(s[j], e),
    decreases s.len(),
{
    if s.len() == 0 {
        assert(seq![e] =~= s.insert(0, e));
        0
    } else if entry_lt(s[0], e) {
        assert(seq![e] + s =~= s.insert(0, e));
        0
    } else {
        let t = s.drop_first();
        let j0 = lemma_insert_desc_position(t, e);
        assert(seq![s[0]] + t.insert(j0, e) =~= s.insert(j0 + 1, e));
        assert forall|k: int| 0 <= k < j0 + 1 implies !entry_lt(#[trigger] s[k], e) by {
            if k > 0 {
                assert(s[k] == t[k - 1]);
            }
        }
        j0 + 1
    }
}

proof fn lemma_insert_desc_sorted(s: Seq<Entry>, e: Entry)
    requires
        sorted_desc(s),
    ensures
        sorted_desc(insert_desc(s, e)),
        insert_desc(s, e).to_multiset() == s.to_multiset().insert(e),
{
    let j = lemma_insert_desc_position(s, e);
    let r = s.insert(j, e);
    vstd::seq_lib::to_multiset_insert(s, j, e);
    assert forall|a: int, b: int| 0 <= a < b < r.len() implies !entry_lt(
        #[trigger] r[a],
        #[trigger] r[b],
    ) by {
        if b < j {
            assert(r[a] == s[a] && r[b] == s[b]);
        } else if b == j {
            assert(r[a] == s[a] && r[b] == e);
        } else if a < j {
            assert(r[a] == s[a] && r[b] == s[b - 1]);
        } else if a == j {
            assert(r[a] == e && r[b] == s[b - 1]);
            if entry_lt(e, s[b - 1]) {
                if b - 1 == j {
                    lemma_entry_lt_transitive(e, s[j], e);
                    lemma_chars_lt_irreflexive(e.1);
                } else {
                    lemma_entry_lt_transitive(s[j], e, s[b - 1]);
                }
            }
        } else {
            assert(r[a] == s[a - 1] && r[b] == s[b - 1]);
        }
    }
}

/// Law: `sort_desc` sorts. Its result has no entry smaller than one after
/// it (so priorities never increase along it) and holds exactly the entries
/// it was given.
pub proof fn law_sort_desc_sorts(s: Seq<Entry>)
    ensures
        sorted_desc(sort_desc(s)),
        forall|i: int, j: int|
            0 <= i < j < sort_desc(s).len() ==> (#[trigger] sort_desc(s)[i]).0 >= (
            #[trigger] sort_desc(s)[j]).0,
        sort_desc(s).to_multiset() == s.to_multiset(),
    decreases s.len(),
{
    if s.len() > 0 {
        law_sort_desc_sorts(s.drop_last());
        lemma_insert_desc_sorted(sort_desc(s.drop_last()), s.last());
        vstd::seq_lib::to_multiset_build(s.drop_last(), s.last());
        assert(s.drop_last().push(s.last()) =~= s);
    }
    let r = sort_desc(s);
    assert forall|i: int, j: int| 0 <= i < j < r.len() implies (#[trigger] r[i]).0 >= (
    #[trigger] r[j]).0 by {
        assert(!entry_lt(r[i], r[j]));
    }
}

/// The code points of the characters with the Unicode `White_Space`
/// property, one by one.
pub open spec fn white_space_code_points() -> Seq<u32> {
    seq![0x0009u32, 0x000A, 0x000B, 0x000C, 0x000D, 0x0020, 0x0085, 0x00A0, 0x1680, 0x2000, 0x2001, 0x2002, 0x2003, 0x2004, 0x2005, 0x2006, 0x2007, 0x2008, 0x2009, 0x200A, 0x2028, 0x2029, 0x202F, 0x205F, 0x3000]
}

/// Whether `s` holds no white-space character.
pub open spec fn free_of_white_space(s: Seq<char>) -> bool {
    forall|j: int| 0 <= j < s.len() ==> !white_space_code_points().contains(#[trigger] s[j] as u32)
}

/// `unicode_white_space` holds of exactly the listed code points.
pub proof fn lemma_white_space_listed(c: char)
    ensures
        unicode_white_space(c) <==> white_space_code_points().contains(c as u32),
{
    let w = white_space_code_points();
    let u = c as u32;
    assert(w.len() == 25);
    assert(w[0] == 0x0009);
    assert(w[1] == 0x000A);
    assert(w[2] == 0x000B);
    assert(w[3] == 0x000C);
    assert(w[4] == 0x000D);
    assert(w[5] == 0x0020);
    assert(w[6] == 0x0085);
    assert(w[7] == 0x00A0);
    assert(w[8] == 0x1680);
    assert(w[9] == 0x2000);
    assert(w[10] == 0x2001);
    assert(w[11] == 0x2002);
    assert(w[12] == 0x2003);
    assert(w[13] == 0x2004);
    assert(w[14] == 0x2005);
    assert(w[15] == 0x2006);
    assert(w[16] == 0x2007);
    assert(w[17] == 0x2008);
    assert(w[18] == 0x2009);
    assert(w[19] == 0x200A);
    assert(w[20] == 0x2028);
    assert(w[21] == 0x2029);
    assert(w[22] == 0x202F);
    assert(w[23] == 0x205F);
    assert(w[24] == 0x3000);
    if unicode_white_space(c) {
        if u == 0x0009 {
            assert(w[0] == u);
        } else if u == 0x000A {
            assert(w[1] == u);
        } else if u == 0x000B {
            assert(w[2] == u);
        } else if u == 0x000C {
            assert(w[3] == u);
        } else if u == 0x000D {
            assert(w[4] == u);
        } else if u == 0x0020 {
            assert(w[5] == u);
        } else if u == 0x0085 {
            assert(w[6] == u);
        } else if u == 0x00A0 {
            assert(w[7] == u);
        } else if u == 0x1680 {
            assert(w[8] == u);
        } else if u == 0x2000 {
            assert(w[9] == u);
        } else if u == 0x2001 {
            assert(w[10] == u);
        } else if u == 0x2002 {
            assert(w[11] == u);
        } else if u == 0x2003 {
            assert(w[12] == u);
        } else if u == 0x2004 {
            assert(w[13] == u);
        } else if u == 0x2005 {
            assert(w[14] == u);
        } else if u == 0x2006 {
            assert(w[15] == u);
        } else if u == 0x2007 {
            assert(w[16] == u);
        } else if u == 0x2008 {
            assert(w[17] == u);
        } else if u == 0x2009 {
            assert(w[18] == u);
        } else if u == 0x200A {
            assert(w[19] == u);
        } else if u == 0x2028 {
            assert(w[20] == u);
        } else if u == 0x2029 {
            assert(w[21] == u);
        } else if u == 0x202F {
            assert(w[22] == u);
        } else if u == 0x205F {
            assert(w[23] == u);
        } else if u == 0x3000 {
            assert(w[24] == u);
        }
    }
    if w.contains(u) {
        let k = choose|k: int| 0 <= k < w.len() && w[k] == u;
        assert(0 <= k < 25);
    }
}

/// Whether no character of `s` has the `White_Space` property.
spec fn no_uws(s: Seq<char>) -> bool {
    forall|j: int| 0 <= j < s.len() ==> !unicode_white_space(#[trigger] s[j])
}

proof fn lemma_no_uws_free(s: Seq<char>)
    requires
        no_uws(s),
    ensures
        free_of_white_space(s),
{
    assert forall|j: int| 0 <= j < s.len() implies !white_space_code_points().contains(
        #[trigger] s[j] as u32,
    ) by {
        lemma_white_space_listed(s[j]);
    }
}

proof fn lemma_tokens_no_uws(s: Seq<char>, cur: Seq<char>, acc: Seq<Seq<char>>)
    requires
        no_uws(cur),
        forall|i: int| 0 <= i < acc.len() ==> no_uws(#[trigger] acc[i]),
    ensures
        forall|i: int|
            0 <= i < tokens_from(s, cur, acc).len() ==> no_uws(#[trigger] tokens_from(s, cur, acc)[i]),
    decreases s.len(),
{
    if s.len() == 0 {
        if cur.len() > 0 {
            assert forall|i: int| 0 <= i < acc.push(cur).len() implies no_uws(
                #[trigger] acc.push(cur)[i],
            ) by {
                if i < acc.len() {
                    assert(acc.push(cur)[i] == acc[i]);
                }
            }
        }
    } else if unicode_white_space(s[0]) {
        let a2 = if cur.len() > 0 {
            acc.push(cur)
        } else {
            acc
        };
        assert forall|i: int| 0 <= i < a2.len() implies no_uws(#[trigger] a2[i]) by {
            if i < acc.len() {
                assert(a2[i] == acc[i]);
            }
        }
        lemma_tokens_no_uws(s.drop_first(), Seq::empty(), a2);
        assert(tokens_from(s, cur, acc) == tokens_from(s.drop_first(), Seq::empty(), a2));
    } else {
        let c2 = cur.push(s[0]);
        assert forall|j: int| 0 <= j < c2.len() implies !unicode_white_space(#[trigger] c2[j]) by {
            if j < cur.len() {
                assert(c2[j] == cur[j]);
            }
        }
        lemma_tokens_no_uws(s.drop_first(), c2, acc);
        assert(tokens_from(s, cur, acc) == tokens_from(s.drop_first(), c2, acc));
    }
}

proof fn lemma_pieces_no_uws(s: Seq<char>, sep: char, cur: Seq<char>, acc: Seq<Seq<char>>)
    requires
        no_uws(s),
        no_uws(cur),
        forall|i: int| 0 <= i < acc.len() ==> no_uws(#[trigger] acc[i]),
    ensures
        forall|i: int|
            0 <= i < pieces_from(s, sep, cur, acc).len() ==> no_uws(
                #[trigger] pieces_from(s, sep, cur, acc)[i],
            ),
    decreases s.len(),
{
    let a2 = acc.push(cur);
    assert forall|i: int| 0 <= i < a2.len() implies no_uws(#[trigger] a2[i]) by {
        if i < acc.len() {
            assert(a2[i] == acc[i]);
        }
    }
    if s.len() > 0 {
        let t = s.drop_first();
        assert forall|j: int| 0 <= j < t.len() implies !unicode_white_space(#[trigger] t[j]) by {
            assert(t[j] == s[j + 1]);
        }
        if s[0] == sep {
            lemma_pieces_no_uws(t, sep, Seq::empty(), a2);
            assert(pieces_from(s, sep, cur, acc) == pieces_from(t, sep, Seq::empty(), a2));
        } else {
            let c2 = cur.push(s[0]);
            assert forall|j: int| 0 <= j < c2.len() implies !unicode_white_space(
                #[trigger] c2[j],
            ) by {
                if j < cur.len() {
                    assert(c2[j] == cur[j]);
                }
            }
            lemma_pieces_no_uws(t, sep, c2, acc);
            assert(pieces_from(s, sep, cur, acc) == pieces_from(t, sep, c2, acc));
        }
    }
}

proof fn lemma_line_rules_no_uws(buf: Seq<char>)
    ensures
        line_rules(buf) matches Some(r) ==> forall|i: int|
            0 <= i < r.len() ==> no_uws((#[trigger] r[i]).0) && no_uws(r[i].1),
{
    let t = whitespace_tokens(buf);
    if t.len() >= 2 {
        lemma_tokens_no_uws(buf, Seq::empty(), Seq::empty());
        let prio = if t.len() >= 3 {
            t[2]
        } else {
            "0"@
        };
        let tos = pieces(t[1], ',');
        assert(no_uws(t[1]));
        lemma_pieces_no_uws(t[1], ',', Seq::empty(), Seq::empty());
        let z = zip_entries(tos, pieces(prio, ','));
        let sd = sort_desc(z);
        law_sort_desc_sorts(z);
        broadcast use vstd::seq_lib::group_to_multiset_ensures;
        let r = sd.map_values(|x: Entry| (t[0], x.1));
        assert forall|i: int| 0 <= i < r.len() implies no_uws((#[trigger] r[i]).0) && no_uws(
            r[i].1,
        ) by {
            let e = sd[i];
            assert(sd.to_multiset().count(e) > 0);
            assert(z.contains(e));
            let m = choose|m: int| 0 <= m < z.len() && z[m] == e;
            assert(e.1 == tos[m]);
        }
    }
}

proof fn lemma_load_all_no_uws(lines: Seq<Seq<char>>)
    ensures
        forall|i: int|
            0 <= i < load_all(lines).rules.len() ==> no_uws((#[trigger] load_all(lines).rules[i]).0)
                && no_uws(load_all(lines).rules[i].1),
    decreases lines.len(),
{
    if lines.len() > 0 {
        let prev = load_all(lines.drop_last());
        lemma_load_all_no_uws(lines.drop_last());
        let line = lines.last();
        if !(prev.ended || line.len() == 0) {
            let buf = prev.buf + line;
            lemma_line_rules_no_uws(buf);
            if let Some(r) = line_rules(buf) {
                let all = prev.rules + r;
                assert forall|i: int| 0 <= i < all.len() implies no_uws((#[trigger] all[i]).0)
                    && no_uws(all[i].1) by {
                    if i < prev.rules.len() {
                        assert(all[i] == prev.rules[i]);
                    } else {
                        assert(all[i] == r[i - prev.rules.len()]);
                    }
                }
            }
        }
    }
}

/// Law: the rules read from dictionary lines hold no white space: the lines
/// are split at every character with the Unicode `White_Space` property
/// (carriage return, line feed, tab, space, the ideographic space and the
/// rest), so no word and no replacement contains one; `猫 ねこ\r\n` gives
/// the rule 猫 → ねこ.
pub proof fn law_rules_hold_no_white_space(lines: Seq<Seq<char>>)
    ensures
        forall|i: int|
            0 <= i < load_all(lines).rules.len() ==> free_of_white_space(
                (#[trigger] load_all(lines).rules[i]).0,
            ) && free_of_white_space(load_all(lines).rules[i].1),
{
    lemma_load_all_no_uws(lines);
    assert forall|i: int| 0 <= i < load_all(lines).rules.len() implies free_of_white_space(
        (#[trigger] load_all(lines).rules[i]).0,
    ) && free_of_white_space(load_all(lines).rules[i].1) by {
        lemma_no_uws_free(load_all(lines).rules[i].0);
        lemma_no_uws_free(load_all(lines).rules[i].1);
    }
}

} // verus!
