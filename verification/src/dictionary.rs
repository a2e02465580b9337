//! The replacement dictionary: patterns matched with the Aho-Corasick
//! algorithm (leftmost-first) and replaced all at once.

use vstd::prelude::*;

use aho_corasick::{AhoCorasick, AhoCorasickBuilder, MatchKind};
use vstd::utf8::is_ascii_chars;

use crate::rules::{load_all, read_rules};
use crate::settings::{Settings, Word};
use crate::text::{str_to_chars, string_from_chars, strings_view};

verus! {

/// An `aho_corasick::AhoCorasick` automaton, held opaque: its type
/// parameter is bound by the crate's sealed `StateID` trait, which cannot be
/// declared here.
#[verifier::external_body]
pub struct Automaton {
    ac: AhoCorasick,
}

/// The patterns that an automaton was built from, in order.
pub uninterp spec fn ac_patterns(ac: Automaton) -> Seq<Seq<char>>;

/// Whether an automaton was built with leftmost-first match semantics.
pub uninterp spec fn ac_leftmost_first(ac: Automaton) -> bool;

/// What `AhoCorasick::replace_all` returns for a leftmost-first automaton
/// built from `patterns`, on `haystack`, with `replacements`.
pub uninterp spec fn leftmost_first_replace_all(
    patterns: Seq<Seq<char>>,
    haystack: Seq<char>,
    replacements: Seq<Seq<char>>,
) -> Seq<char>;

/// Whether `p` occurs in `s` as a contiguous part.
pub open spec fn occurs_in(p: Seq<char>, s: Seq<char>) -> bool {
    exists|i: int| 0 <= i && i + p.len() <= s.len() && #[trigger] s.subrange(i, i + p.len()) == p
}

/// Whether no pattern of the automaton (if any) is empty or occurs in `s`.
pub open spec fn no_pattern_occurs(automaton: Option<Seq<Seq<char>>>, s: Seq<char>) -> bool {
    match automaton {
        Some(p) => forall|j: int|
            0 <= j < p.len() ==> (#[trigger] p[j]).len() > 0 && !occurs_in(p[j], s),
        None => true,
    }
}

/// How an automaton chooses among matches that start at the same place (the
/// match kinds of `aho_corasick`).
#[derive(Clone, Copy, Debug, PartialEq, Eq, Structural)]
pub enum MatchRule {
    Standard,
    LeftmostFirst,
    LeftmostLongest,
}

/// Builds an automaton over `patterns` with `AhoCorasickBuilder` and the
/// match kind that `rule` names. The contract claims that the automaton holds
/// the given patterns in order, and whether it is leftmost-first.
#[verifier::external_body]
fn build_automaton(patterns: &Vec<String>, rule: MatchRule) -> (ac: Automaton)
    ensures
        ac_patterns(ac) == strings_view(patterns@),
        ac_leftmost_first(ac) == (rule == MatchRule::LeftmostFirst),
{
    let kind = match rule {
        MatchRule::Standard => MatchKind::Standard,
        MatchRule::LeftmostFirst => MatchKind::LeftmostFirst,
        MatchRule::LeftmostLongest => MatchKind::LeftmostLongest,
    };
    Automaton { ac: AhoCorasickBuilder::new().match_kind(kind).build(patterns) }
}

/// `AhoCorasick::pattern_count`: the number of patterns the automaton was
/// built from.
#[verifier::external_body]
fn ac_pattern_count(ac: &Automaton) -> (n: usize)
    ensures
        n == ac_patterns(*ac).len(),
{
    ac.ac.pattern_count()
}

/// Whether none of `patterns` is empty.
pub open spec fn all_nonempty(patterns: Seq<Seq<char>>) -> bool {
    forall|j: int| 0 <= j < patterns.len() ==> (#[trigger] patterns[j]).len() > 0
}

/// The index of the first of `patterns`, in their order, that `h` starts
/// with, or `-1` if `h` starts with none of them.
pub open spec fn first_prefix(patterns: Seq<Seq<char>>, h: Seq<char>) -> int
    decreases patterns.len(),
{
    if patterns.len() == 0 {
        -1
    } else if first_prefix(patterns.drop_last(), h) >= 0 {
        first_prefix(patterns.drop_last(), h)
    } else if patterns.last().is_prefix_of(h) {
        patterns.len() - 1
    } else {
        -1
    }
}

/// Leftmost-first replacement: scanning `h` from the left, at each place
/// the first of `patterns` (in their order) that starts there is replaced
/// by its replacement and the scan goes on after it; where none starts, the
/// character is kept.
pub open spec fn leftmost_first_replaced(
    patterns: Seq<Seq<char>>,
    h: Seq<char>,
    replacements: Seq<Seq<char>>,
) -> Seq<char>
    decreases h.len(),
{
    if h.len() == 0 {
        Seq::empty()
    } else {
        let j = first_prefix(patterns, h);
        if 0 <= j < patterns.len() && 0 < patterns[j].len() <= h.len() {
            replacements[j] + leftmost_first_replaced(
                patterns,
                h.skip(patterns[j].len() as int),
                replacements,
            )
        } else {
            seq![h[0]] + leftmost_first_replaced(patterns, h.skip(1), replacements)
        }
    }
}

/// `AhoCorasick::replace_all`: replaces every match that `find_iter`
/// reports of the `i`-th pattern with `replace_with[i]`, keeping the text
/// between matches. The contract names the result, and claims that where
/// no pattern is empty it is `leftmost_first_replaced`: the documented
/// leftmost-first semantics (the leftmost match, and among matches there
/// the pattern added first) with the search going on at the end of each
/// match. (The crate matches bytes; a non-empty pattern that is valid UTF-8
/// matches a `&str` only at character boundaries, so matching the
/// characters is the same.) With an empty pattern the result is only named.
/// The call panics unless there is exactly one replacement per pattern; it
/// also panics when an empty pattern matches inside a multi-byte character
/// (the search then moves on by one byte and slices the haystack there).
/// `requires` rules both out: one replacement per pattern, and no empty
/// pattern unless the haystack is ASCII.
#[verifier::external_body]
fn ac_replace_all(ac: &Automaton, haystack: &str, replace_with: &Vec<String>) -> (res: String)
    requires
        ac_leftmost_first(*ac),
        replace_with@.len() == ac_patterns(*ac).len(),
        all_nonempty(ac_patterns(*ac)) || is_ascii_chars(haystack@),
    ensures
        res@ == leftmost_first_replace_all(
            ac_patterns(*ac),
            haystack@,
            strings_view(replace_with@),
        ),
        all_nonempty(ac_patterns(*ac)) ==> res@ == leftmost_first_replaced(
            ac_patterns(*ac),
            haystack@,
            strings_view(replace_with@),
        ),
{
    ac.ac.replace_all(haystack, replace_with.as_slice())
}

/// What `first_prefix` gives: a pattern that `h` starts with, before which
/// no pattern does; or `-1` when `h` starts with no pattern.
pub proof fn lemma_first_prefix(patterns: Seq<Seq<char>>, h: Seq<char>)
    ensures
        -1 <= first_prefix(patterns, h) < patterns.len(),
        first_prefix(patterns, h) >= 0 ==> patterns[first_prefix(patterns, h)].is_prefix_of(h),
        forall|i: int|
            0 <= i < patterns.len() && (first_prefix(patterns, h) < 0 || i < first_prefix(
                patterns,
                h,
            )) ==> !(#[trigger] patterns[i]).is_prefix_of(h),
    decreases patterns.len(),
{
    if patterns.len() > 0 {
        let rest = patterns.drop_last();
        lemma_first_prefix(rest, h);
        let r = first_prefix(patterns, h);
        assert forall|i: int|
            0 <= i < patterns.len() && (r < 0 || i < r) implies !(
            #[trigger] patterns[i]).is_prefix_of(h) by {
            if i < rest.len() {
                assert(rest[i] == patterns[i]);
            }
        }
        if first_prefix(rest, h) >= 0 {
            assert(rest[first_prefix(rest, h)] == patterns[first_prefix(rest, h)]);
        }
    }
}

/// Law: leftmost-first replacement, at the start of the text. Where several
/// non-empty patterns start there, the one that comes first is replaced and
/// replacement goes on after it; where none starts there, the first
/// character is kept.
pub proof fn law_first_pattern_wins(
    patterns: Seq<Seq<char>>,
    h: Seq<char>,
    replacements: Seq<Seq<char>>,
)
    requires
        all_nonempty(patterns),
        h.len() > 0,
    ensures
        forall|j: int|
            0 <= j < patterns.len() && (#[trigger] patterns[j]).is_prefix_of(h) && (forall|i: int|
                0 <= i < j ==> !(#[trigger] patterns[i]).is_prefix_of(h)) ==> leftmost_first_replaced(
                patterns,
                h,
                replacements,
            ) == replacements[j] + leftmost_first_replaced(
                patterns,
                h.skip(patterns[j].len() as int),
                replacements,
            ),
        (forall|i: int| 0 <= i < patterns.len() ==> !(#[trigger] patterns[i]).is_prefix_of(h))
            ==> leftmost_first_replaced(patterns, h, replacements) == seq![h[0]]
            + leftmost_first_replaced(patterns, h.skip(1), replacements),
{
    lemma_first_prefix(patterns, h);
    let r = first_prefix(patterns, h);
    assert forall|j: int|
        0 <= j < patterns.len() && (#[trigger] patterns[j]).is_prefix_of(h) && (forall|i: int|
            0 <= i < j ==> !(#[trigger] patterns[i]).is_prefix_of(h)) implies r == j by {
        if r < 0 {
            assert(!patterns[j].is_prefix_of(h));
        } else if r < j {
            assert(!patterns[r].is_prefix_of(h));
        } else if j < r {
            assert(!patterns[j].is_prefix_of(h));
        }
    }
    if r >= 0 {
        assert(patterns[r].len() > 0);
    }
}

/// Law: text in which no pattern occurs (all patterns non-empty) comes out
/// of leftmost-first replacement unchanged.
pub proof fn law_replaced_without_match(
    patterns: Seq<Seq<char>>,
    h: Seq<char>,
    replacements: Seq<Seq<char>>,
)
    requires
        forall|j: int|
            0 <= j < patterns.len() ==> (#[trigger] patterns[j]).len() > 0 && !occurs_in(
                patterns[j],
                h,
            ),
    ensures
        leftmost_first_replaced(patterns, h, replacements) == h,
    decreases h.len(),
{
    if h.len() > 0 {
        lemma_first_prefix(patterns, h);
        let r = first_prefix(patterns, h);
        if r >= 0 {
            let n = patterns[r].len() as int;
            assert(h.subrange(0, 0 + n) == patterns[r]);
            assert(occurs_in(patterns[r], h));
        }
        let t = h.skip(1);
        assert forall|j: int|
            0 <= j < patterns.len() implies (#[trigger] patterns[j]).len() > 0 && !occurs_in(
            patterns[j],
            t,
        ) by {
            if occurs_in(patterns[j], t) {
                let i = choose|i: int|
                    0 <= i && i + patterns[j].len() <= t.len() && #[trigger] t.subrange(
                        i,
                        i + patterns[j].len(),
                    ) == patterns[j];
                assert(h.subrange(i + 1, i + 1 + patterns[j].len()) =~= t.subrange(
                    i,
                    i + patterns[j].len(),
                ));
                assert(!occurs_in(patterns[j], h));
            }
        }
        law_replaced_without_match(patterns, t, replacements);
        assert(seq![h[0]] + t =~= h);
    }
}

/// One replacement rule: text `from` is read as `to`; among the rules of
/// one dictionary line, a higher `priority` comes first.
#[derive(Clone, Copy, Debug, PartialEq, Eq, PartialOrd, Ord)]
pub struct Pattern<'a> {
    pub priority: i64,
    pub from: &'a str,
    pub to: &'a str,
}

/// What a dictionary holds: the patterns, their replacements, and the
/// patterns that the automaton was built from, if it was built.
pub struct DictionaryView {
    pub from: Seq<Seq<char>>,
    pub to: Seq<Seq<char>>,
    pub automaton: Option<Seq<Seq<char>>>,
}

/// A replacement dictionary.
pub struct Dictionary {
    ac: Option<Automaton>,
    from_patterns: Vec<String>,
    replace_patterns: Vec<String>,
}

impl View for Dictionary {
    type V = DictionaryView;

    closed spec fn view(&self) -> DictionaryView {
        DictionaryView {
            from: strings_view(self.from_patterns@),
            to: strings_view(self.replace_patterns@),
            automaton: match self.ac {
                Some(ac) => Some(ac_patterns(ac)),
                None => None,
            },
        }
    }
}

/// The full-width digits and Latin letters that the default rules replace.
pub open spec fn fullwidth_alnum() -> Seq<char> {
    "１２３４５６７８９０ＡＢＣＤＥＦＧＨＩＪＫＬＭＮＯＰＱＲＳＴＵＶＷＸＹＺａｂｃｄｅｆｇｈｉｊｋｌｍｎｏｐｑｒｓｔｕｖｗｘｙｚ"@
}

/// Their ASCII counterparts, in the same order.
pub open spec fn ascii_alnum() -> Seq<char> {
    "1234567890ABCDEFGHIJKLMNOPQRSTUVWXYZabcdefghijklmnopqrstuvwxyz"@
}

/// The number of default rules: one per pair of the two lists.
pub open spec fn default_rule_count() -> nat {
    if fullwidth_alnum().len() <= ascii_alnum().len() {
        fullwidth_alnum().len()
    } else {
        ascii_alnum().len()
    }
}

/// The patterns of the default rules: each full-width character alone.
pub open spec fn default_from() -> Seq<Seq<char>> {
    Seq::new(default_rule_count(), |i: int| seq![fullwidth_alnum()[i]])
}

/// The replacements of the default rules: each ASCII character alone.
pub open spec fn default_to() -> Seq<Seq<char>> {
    Seq::new(default_rule_count(), |i: int| seq![ascii_alnum()[i]])
}

/// The replacement of a custom rule: its text between `# ` and ` #`, so
/// that the reading step leaves it as it is.
pub open spec fn guarded(to: Seq<char>) -> Seq<char> {
    "# "@ + to + " #"@
}

/// The view of a rule.
pub open spec fn pattern_view(p: Pattern) -> (i64, Seq<char>, Seq<char>) {
    (p.priority, p.from@, p.to@)
}

/// Whether none of the strings is empty.
fn all_patterns_nonempty(v: &Vec<String>) -> (b: bool)
    ensures
        b == all_nonempty(strings_view(v@)),
{
    let mut i: usize = 0;
    while i < v.len()
        invariant
            i <= v@.len(),
            forall|j: int| 0 <= j < i ==> (#[trigger] strings_view(v@)[j]).len() > 0,
        decreases v@.len() - i,
    {
        if v[i].as_str().unicode_len() == 0 {
            assert(strings_view(v@)[i as int].len() == 0);
            return false;
        }
        assert(strings_view(v@)[i as int] == v@[i as int]@);
        i = i + 1;
    }
    true
}

impl Default for Dictionary {
    /// A dictionary with the default rules and no automaton.
    fn default() -> (d: Self)
        ensures
            d.wf(),
            d@.from == default_from(),
            d@.to == default_to(),
            d@.automaton is None,
    {
        let mut d = Dictionary::empty();
        d.load_default();
        assert(d@.from =~= default_from());
        assert(d@.to =~= default_to());
        d
    }
}

impl Dictionary {
    /// Holds while there is one replacement per pattern and the automaton,
    /// if built, has leftmost-first semantics and was built from the first
    /// patterns held now (patterns are only ever added at the end).
    pub closed spec fn wf(&self) -> bool {
        &&& self.from_patterns@.len() == self.replace_patterns@.len()
        &&& match self.ac {
            Some(ac) => {
                &&& ac_leftmost_first(ac)
                &&& ac_patterns(ac).len() <= self.from_patterns@.len()
                &&& ac_patterns(ac) == strings_view(self.from_patterns@).take(
                    ac_patterns(ac).len() as int,
                )
            },
            None => true,
        }
    }

    /// Whether `try_replace` can run on `text` without a panic of the
    /// automaton: it has no empty pattern, or `text` is ASCII.
    pub open spec fn replace_safe(&self, text: Seq<char>) -> bool {
        match self@.automaton {
            Some(p) => all_nonempty(p) || is_ascii_chars(text),
            None => true,
        }
    }

    /// Whether `try_replace` can run: the automaton, if built, has as many
    /// patterns as there are replacements.
    pub open spec fn replace_ready(&self) -> bool {
        match self@.automaton {
            Some(p) => p.len() == self@.to.len(),
            None => true,
        }
    }

    /// A dictionary with no rules and no automaton.
    pub fn empty() -> (d: Self)
        ensures
            d.wf(),
            d@.from == Seq::<Seq<char>>::empty(),
            d@.to == Seq::<Seq<char>>::empty(),
            d@.automaton is None,
    {
        let d = Dictionary { ac: None, from_patterns: Vec::new(), replace_patterns: Vec::new() };
        assert(d@.from =~= Seq::<Seq<char>>::empty());
        assert(d@.to =~= Seq::<Seq<char>>::empty());
        d
    }

    /// Adds the custom rules: first `#` (read as the word "sharp"), then each
    /// rule with its replacement between `#` marks.
    pub fn load_custom(&mut self, custom: &[Pattern])
        requires
            old(self).wf(),
        ensures
            final(self).wf(),
            final(self)@.from == old(self)@.from + seq!["#"@] + custom@.map_values(
                |p: Pattern| p.from@,
            ),
            final(self)@.to == old(self)@.to + seq!["# しゃ'ーぷ #"@] + custom@.map_values(
                |p: Pattern| guarded(p.to@),
            ),
            final(self)@.automaton == old(self)@.automaton,
    {
        self.from_patterns.push(String::from_str("#"));
        self.replace_patterns.push(String::from_str("# しゃ'ーぷ #"));
        let ghost from0 = strings_view(self.from_patterns@);
        let ghost to0 = strings_view(self.replace_patterns@);
        assert(from0 =~= old(self)@.from + seq!["#"@]);
        assert(to0 =~= old(self)@.to + seq!["# しゃ'ーぷ #"@]);
        let mut i: usize = 0;
        while i < custom.len()
            invariant
                i <= custom@.len(),
                self.from_patterns@.len() == self.replace_patterns@.len(),
                self.ac == old(self).ac,
                strings_view(self.from_patterns@) == from0 + custom@.take(i as int).map_values(
                    |p: Pattern| p.from@,
                ),
                strings_view(self.replace_patterns@) == to0 + custom@.take(i as int).map_values(
                    |p: Pattern| guarded(p.to@),
                ),
            decreases custom@.len() - i,
        {
            let p = &custom[i];
            let ghost f_before = strings_view(self.from_patterns@);
            let ghost t_before = strings_view(self.replace_patterns@);
            self.from_patterns.push(String::from_str(p.from));
            let mut r = String::from_str("# ");
            r.append(p.to);
            r.append(" #");
            self.replace_patterns.push(r);
            assert(custom@.take(i + 1) =~= custom@.take(i as int).push(custom@[i as int]));
            assert(strings_view(self.from_patterns@) =~= f_before.push(p.from@));
            assert(strings_view(self.replace_patterns@) =~= t_before.push(guarded(p.to@)));
            i = i + 1;
        }
        assert(custom@.take(custom@.len() as int) =~= custom@);
        proof {
            if self.ac is Some {
                let n = ac_patterns(self.ac->0).len() as int;
                assert(strings_view(self.from_patterns@).take(n) =~= strings_view(
                    old(self).from_patterns@,
                ).take(n));
            }
        }
    }

    /// Adds the default rules, which turn full-width digits and Latin
    /// letters into ASCII.
    pub fn load_default(&mut self)
        requires
            old(self).wf(),
        ensures
            final(self).wf(),
            final(self)@.from == old(self)@.from + default_from(),
            final(self)@.to == old(self)@.to + default_to(),
            final(self)@.automaton == old(self)@.automaton,
    {
        let from = str_to_chars(
            "１２３４５６７８９０ＡＢＣＤＥＦＧＨＩＪＫＬＭＮＯＰＱＲＳＴＵＶＷＸＹＺａｂｃｄｅｆｇｈｉｊｋｌｍｎｏｐｑｒｓｔｕｖｗｘｙｚ",
        );
        let to = str_to_chars("1234567890ABCDEFGHIJKLMNOPQRSTUVWXYZabcdefghijklmnopqrstuvwxyz");
        let n = if from.len() <= to.len() {
            from.len()
        } else {
            to.len()
        };
        let mut i: usize = 0;
        while i < n
            invariant
                from@ == fullwidth_alnum(),
                to@ == ascii_alnum(),
                n == default_rule_count(),
                i <= n,
                self.from_patterns@.len() == self.replace_patterns@.len(),
                self.ac == old(self).ac,
                strings_view(self.from_patterns@) == old(self)@.from + default_from().take(i as int),
                strings_view(self.replace_patterns@) == old(self)@.to + default_to().take(i as int),
            decreases n - i,
        {
            let ghost f_before = strings_view(self.from_patterns@);
            let ghost t_before = strings_view(self.replace_patterns@);
            let mut f: Vec<char> = Vec::new();
            f.push(from[i]);
            let mut t: Vec<char> = Vec::new();
            t.push(to[i]);
            self.from_patterns.push(string_from_chars(f.as_slice()));
            self.replace_patterns.push(string_from_chars(t.as_slice()));
            assert(default_from().take(i + 1) =~= default_from().take(i as int).push(
                seq![from@[i as int]],
            ));
            assert(default_to().take(i + 1) =~= default_to().take(i as int).push(
                seq![to@[i as int]],
            ));
            assert(strings_view(self.from_patterns@) =~= f_before.push(f@));
            assert(strings_view(self.replace_patterns@) =~= t_before.push(t@));
            i = i + 1;
        }
        assert(default_from().take(n as int) =~= default_from());
        assert(default_to().take(n as int) =~= default_to());
        proof {
            if self.ac is Some {
                let n = ac_patterns(self.ac->0).len() as int;
                assert(strings_view(self.from_patterns@).take(n) =~= strings_view(
                    old(self).from_patterns@,
                ).take(n));
            }
        }
    }

    /// Adds the rules read from the lines of a dictionary file, each line
    /// with its line break (see `rules::load_all`).
    pub fn load_lines(&mut self, lines: &[String])
        requires
            old(self).wf(),
        ensures
            final(self).wf(),
            final(self)@.from == old(self)@.from + load_all(strings_view(lines@)).rules.map_values(
                |x: (Seq<char>, Seq<char>)| x.0,
            ),
            final(self)@.to == old(self)@.to + load_all(strings_view(lines@)).rules.map_values(
                |x: (Seq<char>, Seq<char>)| x.1,
            ),
            final(self)@.automaton == old(self)@.automaton,
    {
        let (mut f, mut t) = read_rules(lines);
        let ghost fv = strings_view(f@);
        let ghost tv = strings_view(t@);
        self.from_patterns.append(&mut f);
        self.replace_patterns.append(&mut t);
        assert(strings_view(self.from_patterns@) =~= old(self)@.from + fv);
        assert(strings_view(self.replace_patterns@) =~= old(self)@.to + tv);
        proof {
            if self.ac is Some {
                let n = ac_patterns(self.ac->0).len() as int;
                assert(strings_view(self.from_patterns@).take(n) =~= strings_view(
                    old(self).from_patterns@,
                ).take(n));
            }
        }
    }

    /// Builds the automaton from the patterns held now.
    pub fn build_ac(&mut self)
        requires
            old(self).wf(),
        ensures
            final(self).wf(),
            final(self)@.from == old(self)@.from,
            final(self)@.to == old(self)@.to,
            final(self)@.automaton == Some(old(self)@.from),
            final(self).replace_ready(),
    {
        let ac = build_automaton(&self.from_patterns, MatchRule::LeftmostFirst);
        self.ac = Some(ac);
        assert(strings_view(self.from_patterns@).take(self.from_patterns@.len() as int)
            =~= strings_view(self.from_patterns@));
    }

    /// Whether `try_replace` can run on `text` now (see `replace_ready` and
    /// `replace_safe`).
    pub fn can_replace(&self, text: &str) -> (b: bool)
        requires
            self.wf(),
        ensures
            b == (self.replace_ready() && self.replace_safe(text@)),
    {
        match &self.ac {
            Some(ac) => {
                if ac_pattern_count(ac) != self.replace_patterns.len() {
                    return false;
                }
                assert(strings_view(self.from_patterns@).take(self.from_patterns@.len() as int)
                    =~= strings_view(self.from_patterns@));
                all_patterns_nonempty(&self.from_patterns) || text.is_ascii()
            },
            None => true,
        }
    }

    /// Replaces every match of the patterns in `string`; without an
    /// automaton the string comes back as it is.
    pub fn try_replace(&self, string: &str) -> (res: String)
        requires
            self.wf(),
            self.replace_ready(),
            self.replace_safe(string@),
        ensures
            res@ == match self@.automaton {
                Some(p) => leftmost_first_replace_all(p, string@, self@.to),
                None => string@,
            },
            match self@.automaton {
                Some(p) => all_nonempty(p) ==> res@ == leftmost_first_replaced(p, string@, self@.to),
                None => true,
            },
            no_pattern_occurs(self@.automaton, string@) ==> res@ == string@,
    {
        match &self.ac {
            Some(ac) => {
                let res = ac_replace_all(ac, string, &self.replace_patterns);
                proof {
                    if no_pattern_occurs(self@.automaton, string@) {
                        law_replaced_without_match(ac_patterns(*ac), string@, self@.to);
                    }
                }
                res
            },
            None => String::from_str(string),
        }
    }
}

/// The rules of the external dictionary files, one file after the other;
/// `files[i]` holds the lines of the `i`-th file.
pub open spec fn files_rules(files: Seq<Seq<Seq<char>>>) -> Seq<(Seq<char>, Seq<char>)>
    decreases files.len(),
{
    if files.len() == 0 {
        Seq::empty()
    } else {
        files_rules(files.drop_last()) + load_all(files.last()).rules
    }
}

/// The views of the lines of several files.
pub open spec fn files_view(files: Seq<Vec<String>>) -> Seq<Seq<Seq<char>>> {
    files.map_values(|f: Vec<String>| strings_view(f@))
}

/// The patterns of the settings' custom rules.
pub open spec fn words_from(words: Seq<Word>) -> Seq<Seq<char>> {
    words.map_values(|w: Word| w.word@)
}

/// The replacements of the settings' custom rules.
pub open spec fn words_to(words: Seq<Word>) -> Seq<Seq<char>> {
    words.map_values(|w: Word| guarded(w.replace@))
}

impl Dictionary {
    /// The dictionary of the application: the default rules, the settings'
    /// custom rules (after the rule for `#`), then the rules of each external
    /// dictionary file (`files[i]` holds the lines of the `i`-th file), with
    /// the automaton built over all of them.
    pub fn for_settings(settings: &Settings, files: &[Vec<String>]) -> (d: Dictionary)
        ensures
            d.wf(),
            d.replace_ready(),
            d@.from == default_from() + seq!["#"@] + words_from(settings.dictionary@)
                + files_rules(files_view(files@)).map_values(|x: (Seq<char>, Seq<char>)| x.0),
            d@.to == default_to() + seq!["# しゃ'ーぷ #"@] + words_to(settings.dictionary@)
                + files_rules(files_view(files@)).map_values(|x: (Seq<char>, Seq<char>)| x.1),
            d@.automaton == Some(d@.from),
    {
        let mut d = Dictionary::default();
        let patterns = settings.custom_patterns();
        d.load_custom(patterns.as_slice());
        assert(patterns@.map_values(|p: Pattern| p.from@) =~= words_from(settings.dictionary@));
        assert(patterns@.map_values(|p: Pattern| guarded(p.to@)) =~= words_to(
            settings.dictionary@,
        ));
        let ghost base_from = d@.from;
        let ghost base_to = d@.to;
        let ghost fv = files_view(files@);
        let mut i: usize = 0;
        assert(fv.take(0) =~= Seq::<Seq<Seq<char>>>::empty());
        assert(base_from + files_rules(fv.take(0)).map_values(|x: (Seq<char>, Seq<char>)| x.0)
            =~= base_from);
        assert(base_to + files_rules(fv.take(0)).map_values(|x: (Seq<char>, Seq<char>)| x.1)
            =~= base_to);
        while i < files.len()
            invariant
                fv == files_view(files@),
                i <= files@.len(),
                d.wf(),
                d@.automaton is None,
                d@.from == base_from + files_rules(fv.take(i as int)).map_values(
                    |x: (Seq<char>, Seq<char>)| x.0,
                ),
                d@.to == base_to + files_rules(fv.take(i as int)).map_values(
                    |x: (Seq<char>, Seq<char>)| x.1,
                ),
            decreases files@.len() - i,
        {
            let ghost prev = files_rules(fv.take(i as int));
            d.load_lines(files[i].as_slice());
            assert(fv.take(i + 1).drop_last() =~= fv.take(i as int));
            assert(fv.take(i + 1).last() == strings_view(files@[i as int]@));
            let ghost add = load_all(strings_view(files@[i as int]@)).rules;
            assert((prev + add).map_values(|x: (Seq<char>, Seq<char>)| x.0) =~= prev.map_values(
                |x: (Seq<char>, Seq<char>)| x.0,
            ) + add.map_values(|x: (Seq<char>, Seq<char>)| x.0));
            assert((prev + add).map_values(|x: (Seq<char>, Seq<char>)| x.1) =~= prev.map_values(
                |x: (Seq<char>, Seq<char>)| x.1,
            ) + add.map_values(|x: (Seq<char>, Seq<char>)| x.1));
            i = i + 1;
        }
        assert(fv.take(files@.len() as int) =~= fv);
        d.build_ac();
        d
    }
}

/// Whether `c` is an ASCII digit or Latin letter.
pub open spec fn is_ascii_alnum(c: char) -> bool {
    let u = c as u32;
    (0x30 <= u <= 0x39) || (0x41 <= u <= 0x5A) || (0x61 <= u <= 0x7A)
}

/// The code of the `i`-th ASCII character that a default rule writes: the
/// digits 1 to 9, then 0, then A to Z, then a to z.
spec fn alnum_code(i: int) -> int {
    if i < 9 {
        0x31 + i
    } else if i == 9 {
        0x30
    } else if i < 36 {
        0x41 + (i - 10)
    } else {
        0x61 + (i - 36)
    }
}

proof fn lemma_char_code_determines(a: char, b: char)
    requires
        a as u32 == b as u32,
    ensures
        a == b,
{
    assert(a as int == b as int);
}

proof fn lemma_alnum_lists()
    ensures
        fullwidth_alnum().len() == 62,
        ascii_alnum().len() == 62,
        forall|i: int|
            0 <= i < 62 ==> (#[trigger] ascii_alnum()[i]) as u32 == alnum_code(i) && fullwidth_alnum()[i] as u32
                == alnum_code(i) + 0xFEE0,
{
    reveal_strlit("１２３４５６７８９０ＡＢＣＤＥＦＧＨＩＪＫＬＭＮＯＰＱＲＳＴＵＶＷＸＹＺａｂｃｄｅｆｇｈｉｊｋｌｍｎｏｐｑｒｓｔｕｖｗｘｙｚ");
    reveal_strlit("1234567890ABCDEFGHIJKLMNOPQRSTUVWXYZabcdefghijklmnopqrstuvwxyz");
    let f = fullwidth_alnum();
    let a = ascii_alnum();
    assert forall|i: int| 0 <= i < 62 implies (#[trigger] a[i]) as u32 == alnum_code(i) && f[i] as u32
        == alnum_code(i) + 0xFEE0 by {
        if i == 0 {
            assert(f[0] == '１' && a[0] == '1');
        } else if i == 1 {
            assert(f[1] == '２' && a[1] == '2');
        } else if i == 2 {
            assert(f[2] == '３' && a[2] == '3');
        } else if i == 3 {
            assert(f[3] == '４' && a[3] == '4');
        } else if i == 4 {
            assert(f[4] == '５' && a[4] == '5');
        } else if i == 5 {
            assert(f[5] == '６' && a[5] == '6');
        } else if i == 6 {
            assert(f[6] == '７' && a[6] == '7');
        } else if i == 7 {
            assert(f[7] == '８' && a[7] == '8');
        } else if i == 8 {
            assert(f[8] == '９' && a[8] == '9');
        } else if i == 9 {
            assert(f[9] == '０' && a[9] == '0');
        } else if i == 10 {
            assert(f[10] == 'Ａ' && a[10] == 'A');
        } else if i == 11 {
            assert(f[11] == 'Ｂ' && a[11] == 'B');
        } else if i == 12 {
            assert(f[12] == 'Ｃ' && a[12] == 'C');
        } else if i == 13 {
            assert(f[13] == 'Ｄ' && a[13] == 'D');
        } else if i == 14 {
            assert(f[14] == 'Ｅ' && a[14] == 'E');
        } else if i == 15 {
            assert(f[15] == 'Ｆ' && a[15] == 'F');
        } else if i == 16 {
            assert(f[16] == 'Ｇ' && a[16] == 'G');
        } else if i == 17 {
            assert(f[17] == 'Ｈ' && a[17] == 'H');
        } else if i == 18 {
            assert(f[18] == 'Ｉ' && a[18] == 'I');
        } else if i == 19 {
            assert(f[19] == 'Ｊ' && a[19] == 'J');
        } else if i == 20 {
            assert(f[20] == 'Ｋ' && a[20] == 'K');
        } else if i == 21 {
            assert(f[21] == 'Ｌ' && a[21] == 'L');
        } else if i == 22 {
            assert(f[22] == 'Ｍ' && a[22] == 'M');
        } else if i == 23 {
            assert(f[23] == 'Ｎ' && a[23] == 'N');
        } else if i == 24 {
            assert(f[24] == 'Ｏ' && a[24] == 'O');
        } else if i == 25 {
            assert(f[25] == 'Ｐ' && a[25] == 'P');
        } else if i == 26 {
            assert(f[26] == 'Ｑ' && a[26] == 'Q');
        } else if i == 27 {
            assert(f[27] == 'Ｒ' && a[27] == 'R');
        } else if i == 28 {
            assert(f[28] == 'Ｓ' && a[28] == 'S');
        } else if i == 29 {
            assert(f[29] == 'Ｔ' && a[29] == 'T');
        } else if i == 30 {
            assert(f[30] == 'Ｕ' && a[30] == 'U');
        } else if i == 31 {
            assert(f[31] == 'Ｖ' && a[31] == 'V');
        } else if i == 32 {
            assert(f[32] == 'Ｗ' && a[32] == 'W');
        } else if i == 33 {
            assert(f[33] == 'Ｘ' && a[33] == 'X');
        } else if i == 34 {
            assert(f[34] == 'Ｙ' && a[34] == 'Y');
        } else if i == 35 {
            assert(f[35] == 'Ｚ' && a[35] == 'Z');
        } else if i == 36 {
            assert(f[36] == 'ａ' && a[36] == 'a');
        } else if i == 37 {
            assert(f[37] == 'ｂ' && a[37] == 'b');
        } else if i == 38 {
            assert(f[38] == 'ｃ' && a[38] == 'c');
        } else if i == 39 {
            assert(f[39] == 'ｄ' && a[39] == 'd');
        } else if i == 40 {
            assert(f[40] == 'ｅ' && a[40] == 'e');
        } else if i == 41 {
            assert(f[41] == 'ｆ' && a[41] == 'f');
        } else if i == 42 {
            assert(f[42] == 'ｇ' && a[42] == 'g');
        } else if i == 43 {
            assert(f[43] == 'ｈ' && a[43] == 'h');
        } else if i == 44 {
            assert(f[44] == 'ｉ' && a[44] == 'i');
        } else if i == 45 {
            assert(f[45] == 'ｊ' && a[45] == 'j');
        } else if i == 46 {
            assert(f[46] == 'ｋ' && a[46] == 'k');
        } else if i == 47 {
            assert(f[47] == 'ｌ' && a[47] == 'l');
        } else if i == 48 {
            assert(f[48] == 'ｍ' && a[48] == 'm');
        } else if i == 49 {
            assert(f[49] == 'ｎ' && a[49] == 'n');
        } else if i == 50 {
            assert(f[50] == 'ｏ' && a[50] == 'o');
        } else if i == 51 {
            assert(f[51] == 'ｐ' && a[51] == 'p');
        } else if i == 52 {
            assert(f[52] == 'ｑ' && a[52] == 'q');
        } else if i == 53 {
            assert(f[53] == 'ｒ' && a[53] == 'r');
        } else if i == 54 {
            assert(f[54] == 'ｓ' && a[54] == 's');
        } else if i == 55 {
            assert(f[55] == 'ｔ' && a[55] == 't');
        } else if i == 56 {
            assert(f[56] == 'ｕ' && a[56] == 'u');
        } else if i == 57 {
            assert(f[57] == 'ｖ' && a[57] == 'v');
        } else if i == 58 {
            assert(f[58] == 'ｗ' && a[58] == 'w');
        } else if i == 59 {
            assert(f[59] == 'ｘ' && a[59] == 'x');
        } else if i == 60 {
            assert(f[60] == 'ｙ' && a[60] == 'y');
        } else if i == 61 {
            assert(f[61] == 'ｚ' && a[61] == 'z');
        }
    }
}

/// Law: the default rules fold full-width digits and Latin letters into
/// ASCII: each rule replaces one full-width character by the single ASCII
/// character of the same digit or letter (code point 0xFEE0 lower), and
/// every ASCII digit and letter is written by one of them, so `１０` becomes
/// `10`.
pub proof fn law_default_rules_fold_fullwidth()
    ensures
        default_from().len() == 62,
        default_to().len() == 62,
        forall|i: int|
            0 <= i < 62 ==> (#[trigger] default_from()[i]).len() == 1 && default_to()[i].len() == 1
                && default_from()[i][0] as u32 == default_to()[i][0] as u32 + 0xFEE0
                && is_ascii_alnum(default_to()[i][0]),
        forall|c: char|
            #[trigger] is_ascii_alnum(c) ==> exists|i: int|
                0 <= i < 62 && default_to()[i] == seq![c] && default_from()[i][0] as u32 == c as u32
                    + 0xFEE0,
{
    lemma_alnum_lists();
    assert forall|c: char| #[trigger] is_ascii_alnum(c) implies exists|i: int|
        0 <= i < 62 && default_to()[i] == seq![c] && default_from()[i][0] as u32 == c as u32
            + 0xFEE0 by {
        let u = c as u32;
        let i: int = if u == 0x30 {
            9
        } else if u <= 0x39 {
            u - 0x31
        } else if u <= 0x5A {
            10 + (u - 0x41)
        } else {
            36 + (u - 0x61)
        };
        assert(ascii_alnum()[i] as u32 == u);
        let x = ascii_alnum()[i];
        lemma_char_code_determines(x, c);
        assert(default_to()[i] =~= seq![c]);
    }
}

} // verus!
