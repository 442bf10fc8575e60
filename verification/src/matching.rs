//! Line classification: joins suppression, the speaker filter, and the
//! content search (literal substring or regex), applied in a strict order.

use crate::line_view::{is_join_nick, spec_message, spec_nick, spec_nick_raw, view_message,
    LineView, OP_PREFIX, VOICE_PREFIX};
use crate::settings::{ConfigModel, Settings};
use crate::text::bytes_eq;
use vstd::prelude::*;
use vstd::utf8::*;

verus! {

/// How one line fares against the configuration.
#[derive(Debug)]
pub enum MatchType {
    /// The pattern matched: the non-empty, left-to-right spans of each
    /// occurrence, as byte offsets into the message.
    Match(Vec<(usize, usize)>),
    /// The speaker filter was satisfied and no pattern was configured.
    MatchNick,
    /// Examined, but the criteria were not satisfied.
    NoMatch,
    /// Excluded outright by join/part/quit suppression.
    Skip,
}

/// The mathematical content of a [`MatchType`].
pub ghost enum Outcome {
    Match(Seq<(usize, usize)>),
    MatchNick,
    NoMatch,
    Skip,
}

impl View for MatchType {
    type V = Outcome;

    open spec fn view(&self) -> Outcome {
        match self {
            MatchType::Match(v) => Outcome::Match(v@),
            MatchType::MatchNick => Outcome::MatchNick,
            MatchType::NoMatch => Outcome::NoMatch,
            MatchType::Skip => Outcome::Skip,
        }
    }
}

/// Compares two span lists element by element.
fn spans_eq(a: &Vec<(usize, usize)>, b: &Vec<(usize, usize)>) -> (r: bool)
    ensures
        r == (a@ == b@),
{
    if a.len() != b.len() {
        return false;
    }
    let mut i: usize = 0;
    while i < a.len()
        invariant
            i <= a@.len(),
            a@.len() == b@.len(),
            forall|j: int| 0 <= j < i ==> a@[j] == b@[j],
        decreases a@.len() - i,
    {
        if a[i].0 != b[i].0 || a[i].1 != b[i].1 {
            return false;
        }
        i = i + 1;
    }
    proof {
        assert(a@ =~= b@);
    }
    true
}

impl PartialEq for MatchType {
    fn eq(&self, other: &MatchType) -> (r: bool) {
        match (self, other) {
            (MatchType::Match(a), MatchType::Match(b)) => spans_eq(a, b),
            (MatchType::MatchNick, MatchType::MatchNick) => true,
            (MatchType::NoMatch, MatchType::NoMatch) => true,
            (MatchType::Skip, MatchType::Skip) => true,
            _ => false,
        }
    }
}

impl vstd::std_specs::cmp::PartialEqSpecImpl for MatchType {
    open spec fn obeys_eq_spec() -> bool {
        true
    }

    open spec fn eq_spec(&self, other: &MatchType) -> bool {
        self@ == other@
    }
}

/// The pattern occurs in `text` at offset `i`.
pub open spec fn matches_at(text: Seq<u8>, pat: Seq<u8>, i: int) -> bool {
    &&& 0 <= i
    &&& i + pat.len() <= text.len()
    &&& text.subrange(i, i + pat.len() as int) == pat
}

/// The spans of all non-overlapping occurrences of `pat` in `text` at or
/// after `from`, scanning left to right: a match is consumed whole, and
/// the scan resumes right after it.
pub open spec fn spec_fixed_spans(text: Seq<u8>, pat: Seq<u8>, from: int) -> Seq<(usize, usize)>
    recommends
        pat.len() > 0,
        0 <= from,
    decreases text.len() - from,
    when 0 <= from && pat.len() > 0
{
    if from + pat.len() > text.len() {
        Seq::empty()
    } else if matches_at(text, pat, from) {
        seq![(from as usize, (from + pat.len()) as usize)] + spec_fixed_spans(
            text,
            pat,
            from + pat.len() as int,
        )
    } else {
        spec_fixed_spans(text, pat, from + 1)
    }
}

/// What `spec_fixed_spans` lists: occurrences of the pattern, in
/// left-to-right order, none overlapping the next.
pub proof fn lemma_fixed_spans_sound(text: Seq<u8>, pat: Seq<u8>, from: int)
    requires
        pat.len() > 0,
        0 <= from,
        text.len() <= usize::MAX,
    ensures
        ({
            let spans = spec_fixed_spans(text, pat, from);
            &&& forall|k: int|
                0 <= k < spans.len() ==> matches_at(text, pat, #[trigger] spans[k].0 as int)
                    && spans[k].1 == spans[k].0 + pat.len() && from <= spans[k].0
            &&& forall|k: int|
                0 <= k && k + 1 < spans.len() ==> #[trigger] spans[k].1 <= spans[k + 1].0
        }),
    decreases text.len() - from,
{
    let spans = spec_fixed_spans(text, pat, from);
    if from + pat.len() > text.len() {
    } else if matches_at(text, pat, from) {
        lemma_fixed_spans_sound(text, pat, from + pat.len() as int);
        let rest = spec_fixed_spans(text, pat, from + pat.len() as int);
        let x = (from as usize, (from + pat.len()) as usize);
        assert(spans == seq![x] + rest);
        assert(spans[0] == x);
        assert forall|k: int| 1 <= k < spans.len() implies #[trigger] spans[k] == rest[k - 1] by {
            assert(spans[k] == (seq![x] + rest)[k]);
        }
        assert forall|k: int|
            0 <= k < spans.len() implies matches_at(text, pat, #[trigger] spans[k].0 as int)
            && spans[k].1 == spans[k].0 + pat.len() && from <= spans[k].0 by {
            if k > 0 {
                assert(spans[k] == rest[k - 1]);
            }
        }
        assert forall|k: int|
            0 <= k && k + 1 < spans.len() implies #[trigger] spans[k].1 <= spans[k + 1].0 by {
            if k == 0 {
                assert(spans[1] == rest[0]);
            } else {
                assert(spans[k] == rest[k - 1]);
                assert(spans[k + 1] == rest[k]);
            }
        }
    } else {
        lemma_fixed_spans_sound(text, pat, from + 1);
        let rest = spec_fixed_spans(text, pat, from + 1);
        assert(spans == rest);
        assert forall|k: int|
            0 <= k < spans.len() implies matches_at(text, pat, #[trigger] spans[k].0 as int)
            && spans[k].1 == spans[k].0 + pat.len() && from <= spans[k].0 by {
            assert(spans[k] == rest[k]);
            assert(matches_at(text, pat, rest[k].0 as int));
        }
        assert forall|k: int|
            0 <= k && k + 1 < spans.len() implies #[trigger] spans[k].1 <= spans[k + 1].0 by {
            assert(spans[k] == rest[k] && spans[k + 1] == rest[k + 1]);
            assert(rest[k].1 <= rest[k + 1].0);
        }
    }
}

/// The pattern occurs in `text` at offset `at`.
fn match_at(text: &[u8], pat: &[u8], at: usize) -> (r: bool)
    requires
        at + pat@.len() <= text@.len(),
    ensures
        r == matches_at(text@, pat@, at as int),
{
    let n = text.len();
    let mut j: usize = 0;
    while j < pat.len()
        invariant
            n == text@.len(),
            at + pat@.len() <= text@.len(),
            j <= pat@.len(),
            forall|k: int| 0 <= k < j ==> text@[at + k] == pat@[k],
        decreases pat@.len() - j,
    {
        if text[at + j] != pat[j] {
            proof {
                if matches_at(text@, pat@, at as int) {
                    assert(text@.subrange(at as int, at + pat@.len())[j as int] == text@[at + j]);
                }
            }
            return false;
        }
        j = j + 1;
    }
    proof {
        assert(text@.subrange(at as int, at + pat@.len()) =~= pat@);
    }
    true
}

/// All non-overlapping occurrences of `pat` in `text`, scanned left to
/// right, each span a `(start, end)` pair of byte offsets.
pub fn find_fixed_spans(text: &[u8], pat: &[u8]) -> (r: Vec<(usize, usize)>)
    requires
        pat@.len() > 0,
    ensures
        r@ == spec_fixed_spans(text@, pat@, 0),
{
    let mut r: Vec<(usize, usize)> = Vec::new();
    let n = text.len();
    let m = pat.len();
    if m > n {
        return r;
    }
    let mut i: usize = 0;
    while i <= n - m
        invariant
            0 < m <= n,
            n == text@.len(),
            m == pat@.len(),
            i <= n,
            spec_fixed_spans(text@, pat@, 0) == r@ + spec_fixed_spans(text@, pat@, i as int),
        decreases n - i,
    {
        if match_at(text, pat, i) {
            let ghost old_r = r@;
            r.push((i, i + m));
            proof {
                let rest = spec_fixed_spans(text@, pat@, i + m);
                assert(old_r.push((i, (i + m) as usize)) + rest =~= old_r + (seq![
                    (i, (i + m) as usize),
                ] + rest));
            }
            i = i + m;
        } else {
            i = i + 1;
        }
    }
    proof {
        assert(spec_fixed_spans(text@, pat@, i as int) =~= Seq::<(usize, usize)>::empty());
        assert(r@ + Seq::<(usize, usize)>::empty() =~= r@);
    }
    r
}

/// Whether a pattern compiles as a regular expression: a fact of the
/// pattern string alone.
pub uninterp spec fn regex_valid(pattern: Seq<char>) -> bool;

/// The non-overlapping, leftmost-first match spans of a compiled pattern
/// in a haystack, as byte offsets: a function of pattern and haystack
/// alone.
pub uninterp spec fn regex_spans(pattern: Seq<char>, text: Seq<char>) -> Seq<(usize, usize)>;

/// Relies on regex::Regex::new: whether a pattern compiles depends on the
/// pattern string alone.
#[verifier::external_body]
pub(crate) fn regex_compiles(pattern: &str) -> (r: bool)
    ensures
        r == regex_valid(pattern@),
{
    regex::Regex::new(pattern).is_ok()
}

/// Relies on regex::Regex::new and regex::Regex::find_iter: the
/// non-overlapping, leftmost-first match spans are byte offsets into the
/// haystack and depend on the pattern and the haystack alone.
#[verifier::external_body]
fn regex_find_spans(pattern: &str, text: &str) -> (r: Vec<(usize, usize)>)
    requires
        regex_valid(pattern@),
    ensures
        r@ == regex_spans(pattern@, text@),
{
    let re = regex::Regex::new(pattern).unwrap();
    let mut v = Vec::new();
    for m in re.find_iter(text) {
        v.push((m.start(), m.end()));
    }
    v
}

/// A non-empty character sequence encodes to a non-empty byte sequence.
pub proof fn lemma_encode_nonempty(chars: Seq<char>)
    requires
        chars.len() > 0,
    ensures
        encode_utf8(chars).len() > 0,
{
    encode_utf8_first_scalar(chars);
}

/// Classification, in strict order: join suppression first, then the
/// speaker filter, then the content pattern. With a pattern configured,
/// the outcome carries the occurrence spans found in the message.
pub open spec fn spec_classify(c: ConfigModel, line: Seq<char>) -> Outcome {
    let bytes = encode_utf8(line);
    if c.strip_joins && is_join_nick(spec_nick(bytes)) {
        Outcome::Skip
    } else if c.nickname.len() > 0 && encode_utf8(c.nickname) != spec_nick(bytes) {
        Outcome::NoMatch
    } else if c.pattern.len() == 0 {
        Outcome::MatchNick
    } else {
        let spans = if c.fixed {
            spec_fixed_spans(spec_message(bytes), encode_utf8(c.pattern), 0)
        } else {
            regex_spans(c.pattern, view_message(line))
        };
        if spans.len() > 0 {
            Outcome::Match(spans)
        } else {
            Outcome::NoMatch
        }
    }
}

/// Joins suppression wins over every other rule: with `strip_joins` set, a
/// join/part/quit notice is skipped whatever the speaker filter and the
/// pattern would have said.
pub proof fn lemma_join_suppression_wins(c: ConfigModel, line: Seq<char>)
    requires
        c.strip_joins,
        is_join_nick(spec_nick(encode_utf8(line))),
    ensures
        spec_classify(c, line) == Outcome::Skip,
{
}

/// A content match never carries an empty span list: classification
/// returns `Match` only when at least one occurrence was found.
pub proof fn lemma_match_spans_nonempty(c: ConfigModel, line: Seq<char>)
    ensures
        spec_classify(c, line) matches Outcome::Match(spans) ==> spans.len() > 0,
{
}

/// A status prefix on the speaker is invisible to the filter: a line
/// whose speaker field is `@` or `+` followed by exactly the configured
/// nickname passes the speaker check, and with no pattern configured it
/// matches on the speaker alone.
pub proof fn lemma_status_prefix_ignored(c: ConfigModel, line: Seq<char>)
    requires
        !c.strip_joins,
        c.pattern.len() == 0,
        c.nickname.len() > 0,
        spec_nick_raw(encode_utf8(line)).len() > 0,
        spec_nick_raw(encode_utf8(line))[0] == OP_PREFIX || spec_nick_raw(encode_utf8(line))[0]
            == VOICE_PREFIX,
        spec_nick_raw(encode_utf8(line)).drop_first() == encode_utf8(c.nickname),
    ensures
        spec_classify(c, line) == Outcome::MatchNick,
{
}

/// Classifies one parsed line against the configuration.
pub fn match_line(settings: &Settings, lv: &LineView) -> (r: MatchType)
    requires
        lv.wf(),
        settings.fixed || settings.pattern_string@.len() == 0 || regex_valid(
            settings.pattern_string@,
        ),
    ensures
        r@ == spec_classify(settings@, lv@),
{
    if settings.strip_joins && lv.is_join() {
        return MatchType::Skip;
    }

    let nick = lv.nick();
    if !settings.nickname.as_str().is_empty() && !bytes_eq(
        settings.nickname.as_str().as_bytes(),
        nick.as_bytes(),
    ) {
        return MatchType::NoMatch;
    }

    if settings.pattern_string.as_str().is_empty() {
        return MatchType::MatchNick;
    }

    let msg = lv.message();
    let v: Vec<(usize, usize)> = if settings.fixed {
        proof {
            lemma_encode_nonempty(settings.pattern_string@);
        }
        find_fixed_spans(msg.as_bytes(), settings.pattern_string.as_str().as_bytes())
    } else {
        regex_find_spans(settings.pattern_string.as_str(), msg)
    };

    if v.len() > 0 {
        MatchType::Match(v)
    } else {
        MatchType::NoMatch
    }
}

} // verus!
