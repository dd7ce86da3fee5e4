//! The paragraph classifier and the output renderer.
//!
//! Stage one assigns each paragraph an initial category from its own
//! statistics, the stopword dictionary and the configured thresholds; stage
//! two revises the categories from neighbour context in four ordered
//! passes; the renderer turns the classified sequence into extracted text.

use vstd::prelude::*;
use vstd::pervasive::VecAdditionalExecFns;

use crate::parser::Classification;
use crate::parser::ParaModel;
use crate::parser::Paragraph;
use crate::parser::Parser;
use crate::parser::models;
use crate::tools::component_start;
use crate::tools::contains_char;
use crate::tools::contains_sub;
use crate::tools::heading_path;
use crate::tools::is_white;
use crate::tools::spec_component_start;
use crate::tools::spec_contains_seq;
use crate::tools::spec_heading_path;
use crate::tools::push_char;
use crate::tools::spec_wrap;
use crate::tools::wrap_text;
use crate::tools::spec_replace;
use crate::tools::replace_a_to_b;
use crate::tools::str_eq;
use crate::tools::white;
use crate::JustextError;

verus! {

/// The stopword dictionary: an immutable set of common words for one
/// language, loaded once by the caller and shared read-only.
pub struct StopList {
    pub words: Vec<String>,
}

impl StopList {
    /// The set of words this dictionary holds.
    pub open spec fn set(&self) -> Set<Seq<char>> {
        self.words.deep_view().to_set()
    }

    /// Builds the dictionary from its words, one per line in the source
    /// file; reading the file happens outside this crate.
    pub fn from_words(words: Vec<String>) -> (s: StopList)
        ensures
            s.set() == words.deep_view().to_set(),
    {
        StopList { words }
    }

    /// Decides whether `w` is a stopword.
    pub fn contains(&self, w: &str) -> (r: bool)
        ensures
            r == self.set().contains(w@),
    {
        let n = self.words.len();
        let mut i: usize = 0;
        while i < n
            invariant
                n == self.words@.len(),
                i <= n,
                forall|j: int| 0 <= j < i ==> self.words.deep_view()[j] != w@,
            decreases n - i,
        {
            if str_eq(self.words[i].as_str(), w) {
                proof {
                    assert(self.words.deep_view()[i as int] == w@);
                    assert(self.words.deep_view().contains(w@));
                }
                return true;
            }
            i += 1;
        }
        proof {
            if self.set().contains(w@) {
                let j = choose|j: int|
                    0 <= j < self.words.deep_view().len() && self.words.deep_view()[j] == w@;
                assert(false);
            }
        }
        false
    }
}

/// Position `i` starts a whitespace-delimited token of `s`.
pub open spec fn token_start(s: Seq<char>, i: int) -> bool {
    0 <= i < s.len() && !is_white(s[i]) && (i == 0 || is_white(s[i - 1]))
}

/// The end of the token running at position `i`: the first whitespace
/// character at or after `i`, or the end of the text.
pub open spec fn token_end(s: Seq<char>, i: int) -> int
    decreases s.len() - i,
    when 0 <= i <= s.len()
{
    if i >= s.len() {
        i
    } else if is_white(s[i]) {
        i
    } else {
        token_end(s, i + 1)
    }
}

/// The number of tokens starting before position `n`.
pub open spec fn spec_token_count_upto(s: Seq<char>, n: int) -> int
    decreases n,
{
    if n <= 0 {
        0
    } else {
        spec_token_count_upto(s, n - 1) + if token_start(s, n - 1) {
            1int
        } else {
            0int
        }
    }
}

/// The number of whitespace-delimited tokens of `s`.
pub open spec fn spec_token_count(s: Seq<char>) -> int {
    spec_token_count_upto(s, s.len() as int)
}

/// The number of tokens starting before position `n` that are stopwords.
pub open spec fn spec_stopword_count_upto(s: Seq<char>, dict: Set<Seq<char>>, n: int) -> int
    decreases n,
{
    if n <= 0 {
        0
    } else {
        spec_stopword_count_upto(s, dict, n - 1) + if token_start(s, n - 1) && dict.contains(
            s.subrange(n - 1, token_end(s, n - 1)),
        ) {
            1int
        } else {
            0int
        }
    }
}

/// The number of tokens of `s` that are stopwords.
pub open spec fn spec_stopword_count(s: Seq<char>, dict: Set<Seq<char>>) -> int {
    spec_stopword_count_upto(s, dict, s.len() as int)
}

/// Counts the whitespace-delimited tokens of `text` and how many of them
/// the dictionary holds.
pub fn count_tokens(text: &str, stoplist: &StopList) -> (r: (usize, usize))
    ensures
        r.0 == spec_token_count(text@),
        r.1 == spec_stopword_count(text@, stoplist.set()),
        r.1 <= r.0 <= text@.len(),
{
    let n = text.unicode_len();
    let mut tokens: usize = 0;
    let mut stops: usize = 0;
    let mut i: usize = 0;
    while i < n
        invariant
            n == text@.len(),
            i <= n,
            tokens == spec_token_count_upto(text@, i as int),
            stops == spec_stopword_count_upto(text@, stoplist.set(), i as int),
            stops <= tokens <= i,
        decreases n - i,
    {
        let c = text.get_char(i);
        let starts = !white(c) && (i == 0 || white(text.get_char(i - 1)));
        if starts {
            tokens += 1;
            let mut j: usize = i;
            while j < n && !white(text.get_char(j))
                invariant
                    n == text@.len(),
                    i <= j <= n,
                    token_end(text@, i as int) == token_end(text@, j as int),
                decreases n - j,
            {
                j += 1;
            }
            proof {
                assert(token_end(text@, j as int) == j as int);
            }
            let tok = text.substring_char(i, j);
            proof {
                assert(tok@ == text@.subrange(i as int, token_end(text@, i as int)));
            }
            if stoplist.contains(tok) {
                stops += 1;
            }
        }
        i += 1;
    }
    (tokens, stops)
}

/// The classifier: the configured thresholds.
///
/// Densities are fractions in `[0, 1]`, configured here in thousandths so
/// the comparisons are exact integer arithmetic.
pub struct Justext {
    /// Paragraphs shorter than this are at most `Short`.
    pub length_low: usize,
    /// Paragraphs must be longer than this to be `Good` outright.
    pub length_high: usize,
    /// Stopword density, in thousandths, above which a paragraph is at
    /// least `NearGood`.
    pub stopwords_low: u32,
    /// Stopword density, in thousandths, above which a long paragraph is
    /// `Good`.
    pub stopwords_high: u32,
    /// Link density, in thousandths, above which a paragraph is `Bad`.
    pub max_link_density: u32,
    /// Never mark a paragraph as a heading.
    pub no_headings: bool,
    /// The text distance within which a heading looks for a `Good`
    /// paragraph.
    pub max_heading_distance: usize,
}

impl Justext {
    /// The thresholds are in range: densities are fractions of at most
    /// one, and the low stopword bound does not exceed the high one.
    pub open spec fn valid(&self) -> bool {
        self.stopwords_low <= self.stopwords_high && self.stopwords_high <= 1000
            && self.max_link_density <= 1000
    }

    /// A classifier with the documented default thresholds.
    pub fn new() -> (j: Justext)
        ensures
            j.length_low == 70,
            j.length_high == 200,
            j.stopwords_low == 300,
            j.stopwords_high == 320,
            j.max_link_density == 200,
            !j.no_headings,
            j.max_heading_distance == 200,
            j.valid(),
    {
        Justext {
            length_low: 70,
            length_high: 200,
            stopwords_low: 300,
            stopwords_high: 320,
            max_link_density: 200,
            no_headings: false,
            max_heading_distance: 200,
        }
    }

    /// A classifier with the given thresholds; out-of-range thresholds
    /// (a density above one, or the low stopword bound above the high one)
    /// are rejected, never clamped.
    pub fn with_config(
        length_low: usize,
        length_high: usize,
        stopwords_low: u32,
        stopwords_high: u32,
        max_link_density: u32,
        no_headings: bool,
        max_heading_distance: usize,
    ) -> (r: Result<Justext, JustextError>)
        ensures
            match r {
                Ok(j) => j.valid() && j.length_low == length_low && j.length_high == length_high
                    && j.stopwords_low == stopwords_low && j.stopwords_high == stopwords_high
                    && j.max_link_density == max_link_density && j.no_headings == no_headings
                    && j.max_heading_distance == max_heading_distance,
                Err(e) => e == JustextError::MalformedConfig,
            },
            r is Ok <==> (stopwords_low <= stopwords_high && stopwords_high <= 1000
                && max_link_density <= 1000),
    {
        if stopwords_low > stopwords_high || stopwords_high > 1000 || max_link_density > 1000 {
            Err(JustextError::MalformedConfig)
        } else {
            Ok(
                Justext {
                    length_low,
                    length_high,
                    stopwords_low,
                    stopwords_high,
                    max_link_density,
                    no_headings,
                    max_heading_distance,
                },
            )
        }
    }
}

/// The density `num / den` (zero when `den` is zero) is strictly above
/// `pm` thousandths.
pub open spec fn spec_density_gt(num: int, den: int, pm: int) -> bool {
    if den == 0 {
        0 > pm
    } else {
        num * 1000 > den * pm
    }
}

/// The density `num / den` (zero when `den` is zero) reaches `pm`
/// thousandths.
pub open spec fn spec_density_ge(num: int, den: int, pm: int) -> bool {
    if den == 0 {
        0 >= pm
    } else {
        num * 1000 >= den * pm
    }
}

/// Decides whether `num / den` is strictly above `pm` thousandths.
pub fn density_gt(num: usize, den: usize, pm: u32) -> (r: bool)
    ensures
        r == spec_density_gt(num as int, den as int, pm as int),
{
    if den == 0 {
        false
    } else {
        proof {
            vstd::arithmetic::mul::lemma_mul_upper_bound(
                num as int,
                usize::MAX as int,
                1000,
                1000,
            );
            vstd::arithmetic::mul::lemma_mul_upper_bound(
                den as int,
                usize::MAX as int,
                pm as int,
                u32::MAX as int,
            );
        }
        let lhs: u128 = (num as u128) * 1000;
        let rhs: u128 = (den as u128) * (pm as u128);
        lhs > rhs
    }
}

/// Decides whether `num / den` reaches `pm` thousandths.
pub fn density_ge(num: usize, den: usize, pm: u32) -> (r: bool)
    ensures
        r == spec_density_ge(num as int, den as int, pm as int),
{
    if den == 0 {
        pm == 0
    } else {
        proof {
            vstd::arithmetic::mul::lemma_mul_upper_bound(
                num as int,
                usize::MAX as int,
                1000,
                1000,
            );
            vstd::arithmetic::mul::lemma_mul_upper_bound(
                den as int,
                usize::MAX as int,
                pm as int,
                u32::MAX as int,
            );
        }
        let lhs: u128 = (num as u128) * 1000;
        let rhs: u128 = (den as u128) * (pm as u128);
        lhs >= rhs
    }
}

/// The text carries a copyright marker: the copyright sign or the literal
/// entity `&copy`.
pub open spec fn spec_copyright(text: Seq<char>) -> bool {
    text.contains('\u{a9}') || spec_contains_seq(text, "&copy"@)
}

/// The initial category of one paragraph, from its statistics alone:
/// too link-dense, copyright-marked or select-sourced paragraphs are
/// `Bad`; short paragraphs are `Bad` when linked, else `Short`; otherwise
/// the stopword density decides between `Good`, `NearGood` and `Bad`.
pub open spec fn spec_cfclass(
    length: int,
    tokens: int,
    stops: int,
    linked: int,
    copyright: bool,
    select: bool,
    cfg: Justext,
) -> Classification {
    if spec_density_gt(linked, length, cfg.max_link_density as int) {
        Classification::Bad
    } else if copyright {
        Classification::Bad
    } else if select {
        Classification::Bad
    } else if length < cfg.length_low {
        if linked > 0 {
            Classification::Bad
        } else {
            Classification::Short
        }
    } else if spec_density_ge(stops, tokens, cfg.stopwords_high as int) {
        if length > cfg.length_high {
            Classification::Good
        } else {
            Classification::NearGood
        }
    } else if spec_density_ge(stops, tokens, cfg.stopwords_low as int) {
        Classification::NearGood
    } else {
        Classification::Bad
    }
}

/// One paragraph after the initial classification: the heading and bullet
/// flags from the dom path (keeping a heading promotion made by the
/// segmenter), the token and stopword counts from the text, and the
/// initial category.
pub open spec fn spec_classified(p: ParaModel, dict: Set<Seq<char>>, cfg: Justext) -> ParaModel {
    let heading = !cfg.no_headings && (p.heading || spec_heading_path(p.dom_path));
    let bullet = !heading && spec_component_start(p.dom_path, "li"@);
    let tokens = spec_token_count(p.text);
    let stops = spec_stopword_count(p.text, dict);
    ParaModel {
        heading,
        bullet,
        token_count: tokens,
        stopword_count: stops,
        cfclass: spec_cfclass(
            p.text.len() as int,
            tokens,
            stops,
            p.linked_char_count,
            spec_copyright(p.text),
            spec_component_start(p.dom_path, "select"@),
            cfg,
        ),
        ..p
    }
}

impl Justext {
    /// Assigns every paragraph its initial category and statistics.
    pub fn classify_paragraphs(&self, paragraphs: &mut Vec<Paragraph>, stoplist: &StopList)
        ensures
            final(paragraphs)@.len() == old(paragraphs)@.len(),
            forall|i: int|
                0 <= i < old(paragraphs)@.len() ==> models(final(paragraphs)@)[i]
                    == spec_classified(models(old(paragraphs)@)[i], stoplist.set(), *self),
    {
        let n = paragraphs.len();
        let mut i: usize = 0;
        while i < n
            invariant
                n == paragraphs@.len(),
                n == old(paragraphs)@.len(),
                i <= n,
                forall|j: int| i <= j < n ==> paragraphs@[j] == old(paragraphs)@[j],
                forall|j: int|
                    0 <= j < i ==> models(paragraphs@)[j] == spec_classified(
                        models(old(paragraphs)@)[j],
                        stoplist.set(),
                        *self,
                    ),
            decreases n - i,
        {
            let p = &paragraphs[i];
            let length = p.text.as_str().unicode_len();
            let counts = count_tokens(p.text.as_str(), stoplist);
            let heading = !self.no_headings && (p.heading || heading_path(p.dom_path.as_str()));
            let bullet = !heading && component_start(p.dom_path.as_str(), "li");
            let copyright = contains_char(p.text.as_str(), '\u{a9}') || contains_sub(
                p.text.as_str(),
                "&copy",
            );
            let select = component_start(p.dom_path.as_str(), "select");
            let cf = self.classify_decision(
                length,
                counts.0,
                counts.1,
                p.linked_char_count,
                copyright,
                select,
            );
            let q = Paragraph {
                dom_path: p.dom_path.clone(),
                text_nodes: Vec::new(),
                text: p.text.clone(),
                cfclass: cf,
                finalclass: p.finalclass,
                heading,
                bullet,
                word_count: p.word_count,
                linked_char_count: p.linked_char_count,
                stopword_count: counts.1,
                token_count: counts.0,
                tag: p.tag.clone(),
            };
            let ghost before = paragraphs@;
            paragraphs.set(i, q);
            proof {
                assert(models(paragraphs@)[i as int] =~~= spec_classified(
                    models(old(paragraphs)@)[i as int],
                    stoplist.set(),
                    *self,
                ));
                assert forall|j: int| 0 <= j < i implies models(paragraphs@)[j]
                    == spec_classified(
                    models(old(paragraphs)@)[j],
                    stoplist.set(),
                    *self,
                ) by {
                    assert(paragraphs@[j] == before[j]);
                    assert(models(before)[j] == spec_classified(
                        models(old(paragraphs)@)[j],
                        stoplist.set(),
                        *self,
                    ));
                }
                assert(forall|j: int|
                    i < j < n ==> paragraphs@[j] == old(paragraphs)@[j]);
            }
            i += 1;
        }
    }

    /// The category the decision tree gives these statistics.
    pub fn classify_decision(
        &self,
        length: usize,
        tokens: usize,
        stops: usize,
        linked: usize,
        copyright: bool,
        select: bool,
    ) -> (c: Classification)
        ensures
            c == spec_cfclass(
                length as int,
                tokens as int,
                stops as int,
                linked as int,
                copyright,
                select,
                *self,
            ),
    {
        if density_gt(linked, length, self.max_link_density) {
            Classification::Bad
        } else if copyright {
            Classification::Bad
        } else if select {
            Classification::Bad
        } else if length < self.length_low {
            if linked > 0 {
                Classification::Bad
            } else {
                Classification::Short
            }
        } else if density_ge(stops, tokens, self.stopwords_high) {
            if length > self.length_high {
                Classification::Good
            } else {
                Classification::NearGood
            }
        } else if density_ge(stops, tokens, self.stopwords_low) {
            Classification::NearGood
        } else {
            Classification::Bad
        }
    }
}

/// The class of the nearest preceding neighbour, skipping `Short` (and,
/// when `ignore_neargood` holds, `NearGood`) paragraphs; the sequence
/// boundary counts as `Bad`.
pub open spec fn spec_prev_neighbour(ms: Seq<ParaModel>, i: int, ignore_neargood: bool)
    -> Classification
    decreases i,
    when 0 <= i <= ms.len()
{
    if i <= 0 {
        Classification::Bad
    } else {
        let c = ms[i - 1].finalclass;
        if c == Classification::Good || c == Classification::Bad {
            c
        } else if c == Classification::NearGood && !ignore_neargood {
            c
        } else {
            spec_prev_neighbour(ms, i - 1, ignore_neargood)
        }
    }
}

/// The class of the nearest following neighbour, skipping `Short` (and,
/// when `ignore_neargood` holds, `NearGood`) paragraphs; the sequence
/// boundary counts as `Bad`.
pub open spec fn spec_next_neighbour(ms: Seq<ParaModel>, i: int, ignore_neargood: bool)
    -> Classification
    decreases ms.len() - i,
    when -1 <= i <= ms.len()
{
    if i + 1 >= ms.len() {
        Classification::Bad
    } else {
        let c = ms[i + 1].finalclass;
        if c == Classification::Good || c == Classification::Bad {
            c
        } else if c == Classification::NearGood && !ignore_neargood {
            c
        } else {
            spec_next_neighbour(ms, i + 1, ignore_neargood)
        }
    }
}

/// Returns the class at the top end of the short/near-good block around
/// `i`: only `Good` or `Bad` when `ignore_neargood` holds, else possibly
/// `NearGood`.
pub fn get_prev_neighbour(i: usize, paragraphs: &Vec<Paragraph>, ignore_neargood: bool)
    -> (c: Classification)
    requires
        i < paragraphs@.len(),
    ensures
        c == spec_prev_neighbour(models(paragraphs@), i as int, ignore_neargood),
{
    let mut j: usize = i;
    loop
        invariant
            j <= i < paragraphs@.len(),
            spec_prev_neighbour(models(paragraphs@), i as int, ignore_neargood)
                == spec_prev_neighbour(models(paragraphs@), j as int, ignore_neargood),
        decreases j,
    {
        if j == 0 {
            return Classification::Bad;
        }
        let c = paragraphs[j - 1].finalclass;
        proof {
            assert(models(paragraphs@)[j - 1].finalclass == c);
        }
        if c == Classification::Good || c == Classification::Bad {
            return c;
        }
        if c == Classification::NearGood && !ignore_neargood {
            return c;
        }
        j -= 1;
    }
}

/// Returns the class at the bottom end of the short/near-good block around
/// `i`: only `Good` or `Bad` when `ignore_neargood` holds, else possibly
/// `NearGood`.
pub fn get_next_neighbour(i: usize, paragraphs: &Vec<Paragraph>, ignore_neargood: bool)
    -> (c: Classification)
    requires
        i < paragraphs@.len(),
    ensures
        c == spec_next_neighbour(models(paragraphs@), i as int, ignore_neargood),
{
    let n = paragraphs.len();
    let mut j: usize = i;
    loop
        invariant
            i <= j < n,
            n == paragraphs@.len(),
            spec_next_neighbour(models(paragraphs@), i as int, ignore_neargood)
                == spec_next_neighbour(models(paragraphs@), j as int, ignore_neargood),
        decreases n - j,
    {
        if j + 1 >= n {
            return Classification::Bad;
        }
        let c = paragraphs[j + 1].finalclass;
        proof {
            assert(models(paragraphs@)[j + 1].finalclass == c);
        }
        if c == Classification::Good || c == Classification::Bad {
            return c;
        }
        if c == Classification::NearGood && !ignore_neargood {
            return c;
        }
        j += 1;
    }
}

/// The revised class the short-paragraph rule gives position `i`.
pub open spec fn spec_short_rule(ms: Seq<ParaModel>, i: int) -> Classification {
    let sp = spec_prev_neighbour(ms, i, true);
    let sn = spec_next_neighbour(ms, i, true);
    if sp == Classification::Good && sn == Classification::Good {
        Classification::Good
    } else if sp == Classification::Bad && sn == Classification::Bad {
        Classification::Bad
    } else if (sp == Classification::Bad && spec_prev_neighbour(ms, i, false)
        == Classification::NearGood) || (sn == Classification::Bad && spec_next_neighbour(
        ms,
        i,
        false,
    ) == Classification::NearGood) {
        Classification::Good
    } else {
        Classification::Bad
    }
}

/// Pass one: every revised class starts from the initial class.
pub open spec fn spec_pass1(ms: Seq<ParaModel>) -> Seq<ParaModel> {
    ms.map_values(|p: ParaModel| ParaModel { finalclass: p.cfclass, ..p })
}

/// A `Good` paragraph stands at or after `j`, within the heading distance:
/// the scan accumulates text lengths and gives up past `max`.
pub open spec fn spec_scan_good(ms: Seq<ParaModel>, j: int, distance: int, max: int) -> bool
    decreases ms.len() - j,
    when 0 <= j
{
    if j >= ms.len() || distance > max {
        false
    } else if ms[j].finalclass == Classification::Good {
        true
    } else {
        spec_scan_good(ms, j + 1, distance + ms[j].text.len(), max)
    }
}

/// Pass two at one position: a `Short` heading with a `Good` paragraph in
/// reach becomes `NearGood`.
pub open spec fn spec_pass2_step(ms: Seq<ParaModel>, i: int, max: int) -> Seq<ParaModel> {
    if 0 <= i < ms.len() && ms[i].heading && ms[i].finalclass == Classification::Short
        && spec_scan_good(ms, i + 1, 0, max) {
        ms.update(i, ParaModel { finalclass: Classification::NearGood, ..ms[i] })
    } else {
        ms
    }
}

/// Pass two applied to the first `n` positions, in order, each step
/// reading the state the previous steps left.
pub open spec fn spec_pass2_upto(ms: Seq<ParaModel>, n: int, max: int) -> Seq<ParaModel>
    decreases n,
{
    if n <= 0 {
        ms
    } else {
        spec_pass2_step(spec_pass2_upto(ms, n - 1, max), n - 1, max)
    }
}

/// Pass two: good headings.
pub open spec fn spec_pass2(ms: Seq<ParaModel>, max: int) -> Seq<ParaModel> {
    spec_pass2_upto(ms, ms.len() as int, max)
}

/// Pass three: every `Short` paragraph is reclassified from its strict and
/// loose neighbours, all decisions read the same pre-pass state.
pub open spec fn spec_pass3(ms: Seq<ParaModel>) -> Seq<ParaModel> {
    Seq::new(
        ms.len(),
        |i: int|
            if ms[i].finalclass == Classification::Short {
                ParaModel { finalclass: spec_short_rule(ms, i), ..ms[i] }
            } else {
                ms[i]
            },
    )
}

/// Pass four at one position: a `NearGood` paragraph flanked by strict
/// `Bad` neighbours on both sides becomes `Bad`, else `Good`.
pub open spec fn spec_pass4_step(ms: Seq<ParaModel>, i: int) -> Seq<ParaModel> {
    if 0 <= i < ms.len() && ms[i].finalclass == Classification::NearGood {
        let sp = spec_prev_neighbour(ms, i, true);
        let sn = spec_next_neighbour(ms, i, true);
        ms.update(
            i,
            ParaModel {
                finalclass: if sp == Classification::Bad && sn == Classification::Bad {
                    Classification::Bad
                } else {
                    Classification::Good
                },
                ..ms[i]
            },
        )
    } else {
        ms
    }
}

/// Pass four applied to the first `n` positions, in order.
pub open spec fn spec_pass4_upto(ms: Seq<ParaModel>, n: int) -> Seq<ParaModel>
    decreases n,
{
    if n <= 0 {
        ms
    } else {
        spec_pass4_step(spec_pass4_upto(ms, n - 1), n - 1)
    }
}

/// Pass four: revise near-good.
pub open spec fn spec_pass4(ms: Seq<ParaModel>) -> Seq<ParaModel> {
    spec_pass4_upto(ms, ms.len() as int)
}

/// Pass five at one position: a heading demoted to `Bad` by the earlier
/// passes is promoted to `Good` when a `Good` paragraph stands in reach.
pub open spec fn spec_pass5_step(ms: Seq<ParaModel>, i: int, max: int) -> Seq<ParaModel> {
    if 0 <= i < ms.len() && ms[i].heading && ms[i].finalclass == Classification::Bad
        && ms[i].cfclass != Classification::Bad && spec_scan_good(ms, i + 1, 0, max) {
        ms.update(i, ParaModel { finalclass: Classification::Good, ..ms[i] })
    } else {
        ms
    }
}

/// Pass five applied to the first `n` positions, in order.
pub open spec fn spec_pass5_upto(ms: Seq<ParaModel>, n: int, max: int) -> Seq<ParaModel>
    decreases n,
{
    if n <= 0 {
        ms
    } else {
        spec_pass5_step(spec_pass5_upto(ms, n - 1, max), n - 1, max)
    }
}

/// Pass five: more good headings.
pub open spec fn spec_pass5(ms: Seq<ParaModel>, max: int) -> Seq<ParaModel> {
    spec_pass5_upto(ms, ms.len() as int, max)
}

/// The whole revision: the four context passes after the initial copy,
/// strictly in order.
pub open spec fn spec_revise(ms: Seq<ParaModel>, max: int) -> Seq<ParaModel> {
    spec_pass5(spec_pass4(spec_pass3(spec_pass2(spec_pass1(ms), max))), max)
}

/// A copy of `p` with a new revised class.
fn with_finalclass(p: &Paragraph, c: Classification) -> (q: Paragraph)
    ensures
        q.model() == (ParaModel { finalclass: c, ..p.model() }),
{
    let q = Paragraph {
        dom_path: p.dom_path.clone(),
        text_nodes: Vec::new(),
        text: p.text.clone(),
        cfclass: p.cfclass,
        finalclass: c,
        heading: p.heading,
        bullet: p.bullet,
        word_count: p.word_count,
        linked_char_count: p.linked_char_count,
        stopword_count: p.stopword_count,
        token_count: p.token_count,
        tag: p.tag.clone(),
    };
    proof {
        assert(q.model() =~~= (ParaModel { finalclass: c, ..p.model() }));
    }
    q
}

/// Scans forward from `start` for a `Good` paragraph within the heading
/// distance.
fn scan_good(paragraphs: &Vec<Paragraph>, start: usize, max: usize) -> (r: bool)
    requires
        start <= paragraphs@.len(),
    ensures
        r == spec_scan_good(models(paragraphs@), start as int, 0, max as int),
{
    let n = paragraphs.len();
    let mut j: usize = start;
    let mut d: u128 = 0;
    while j < n && d <= max as u128
        invariant
            n == paragraphs@.len(),
            start <= j <= n,
            spec_scan_good(models(paragraphs@), start as int, 0, max as int) == spec_scan_good(
                models(paragraphs@),
                j as int,
                d as int,
                max as int,
            ),
        decreases n - j,
    {
        if paragraphs[j].finalclass == Classification::Good {
            proof {
                assert(models(paragraphs@)[j as int].finalclass == Classification::Good);
            }
            return true;
        }
        let l = paragraphs[j].text.as_str().unicode_len();
        proof {
            assert(models(paragraphs@)[j as int].text.len() == l);
        }
        d = d + l as u128;
        j += 1;
    }
    false
}

/// Pass one of the revision: copy the initial class.
pub fn pass_copy(paragraphs: &mut Vec<Paragraph>)
    ensures
        models(final(paragraphs)@) == spec_pass1(models(old(paragraphs)@)),
{
    let n = paragraphs.len();
    let mut i: usize = 0;
    while i < n
        invariant
            n == paragraphs@.len(),
            n == old(paragraphs)@.len(),
            i <= n,
            forall|j: int| i <= j < n ==> paragraphs@[j] == old(paragraphs)@[j],
            forall|j: int|
                0 <= j < i ==> models(paragraphs@)[j] == spec_pass1(models(old(paragraphs)@))[j],
        decreases n - i,
    {
        let c = paragraphs[i].cfclass;
        let q = with_finalclass(&paragraphs[i], c);
        let ghost before = paragraphs@;
        paragraphs.set(i, q);
        proof {
            assert(models(paragraphs@)[i as int] =~~= spec_pass1(
                models(old(paragraphs)@),
            )[i as int]);
            assert(forall|j: int|
                0 <= j < i ==> paragraphs@[j] == before[j] && models(paragraphs@)[j] == models(
                    before,
                )[j]);
        }
        i += 1;
    }
    proof {
        assert(models(paragraphs@) =~~= spec_pass1(models(old(paragraphs)@)));
    }
}

/// Passes two and five share this shape: a sequential sweep that promotes
/// qualifying headings when a `Good` paragraph is in reach.  `promote_bad`
/// selects pass five (headings already demoted to `Bad`), otherwise pass
/// two (still `Short` headings).
pub fn pass_headings(paragraphs: &mut Vec<Paragraph>, max: usize, promote_bad: bool)
    ensures
        promote_bad ==> models(final(paragraphs)@) == spec_pass5(
            models(old(paragraphs)@),
            max as int,
        ),
        !promote_bad ==> models(final(paragraphs)@) == spec_pass2(
            models(old(paragraphs)@),
            max as int,
        ),
{
    let n = paragraphs.len();
    let mut i: usize = 0;
    while i < n
        invariant
            n == paragraphs@.len(),
            n == old(paragraphs)@.len(),
            i <= n,
            promote_bad ==> models(paragraphs@) == spec_pass5_upto(
                models(old(paragraphs)@),
                i as int,
                max as int,
            ),
            !promote_bad ==> models(paragraphs@) == spec_pass2_upto(
                models(old(paragraphs)@),
                i as int,
                max as int,
            ),
        decreases n - i,
    {
        let ghost cur = models(paragraphs@);
        let selected = if promote_bad {
            paragraphs[i].heading && paragraphs[i].finalclass == Classification::Bad
                && paragraphs[i].cfclass != Classification::Bad
        } else {
            paragraphs[i].heading && paragraphs[i].finalclass == Classification::Short
        };
        proof {
            assert(cur[i as int] == paragraphs@[i as int].model());
        }
        if selected {
            if scan_good(paragraphs, i + 1, max) {
                let c = if promote_bad {
                    Classification::Good
                } else {
                    Classification::NearGood
                };
                let q = with_finalclass(&paragraphs[i], c);
                paragraphs.set(i, q);
                proof {
                    if promote_bad {
                        assert(models(paragraphs@) =~~= spec_pass5_step(cur, i as int, max as int));
                    } else {
                        assert(models(paragraphs@) =~~= spec_pass2_step(cur, i as int, max as int));
                    }
                }
            } else {
                proof {
                    if promote_bad {
                        assert(models(paragraphs@) =~~= spec_pass5_step(cur, i as int, max as int));
                    } else {
                        assert(models(paragraphs@) =~~= spec_pass2_step(cur, i as int, max as int));
                    }
                }
            }
        } else {
            proof {
                if promote_bad {
                    assert(models(paragraphs@) =~~= spec_pass5_step(cur, i as int, max as int));
                } else {
                    assert(models(paragraphs@) =~~= spec_pass2_step(cur, i as int, max as int));
                }
            }
        }
        i += 1;
    }
}

/// Pass three of the revision: reclassify every `Short` paragraph from a
/// snapshot of the pass-two state, committing all decisions together.
pub fn pass_short(paragraphs: &mut Vec<Paragraph>)
    ensures
        models(final(paragraphs)@) == spec_pass3(models(old(paragraphs)@)),
{
    let n = paragraphs.len();
    let ghost ms0 = models(paragraphs@);
    let mut newcls: Vec<Classification> = Vec::new();
    let mut i: usize = 0;
    while i < n
        invariant
            n == paragraphs@.len(),
            ms0 == models(paragraphs@),
            paragraphs@ == old(paragraphs)@,
            newcls@.len() == i,
            i <= n,
            forall|j: int|
                0 <= j < i ==> newcls@[j] == spec_pass3(ms0)[j].finalclass,
        decreases n - i,
    {
        let c = if paragraphs[i].finalclass == Classification::Short {
            let sp = get_prev_neighbour(i, paragraphs, true);
            let sn = get_next_neighbour(i, paragraphs, true);
            if sp == Classification::Good && sn == Classification::Good {
                Classification::Good
            } else if sp == Classification::Bad && sn == Classification::Bad {
                Classification::Bad
            } else if (sp == Classification::Bad && get_prev_neighbour(i, paragraphs, false)
                == Classification::NearGood) || (sn == Classification::Bad && get_next_neighbour(
                i,
                paragraphs,
                false,
            ) == Classification::NearGood) {
                Classification::Good
            } else {
                Classification::Bad
            }
        } else {
            paragraphs[i].finalclass
        };
        proof {
            assert(ms0[i as int] == paragraphs@[i as int].model());
            assert(c == spec_pass3(ms0)[i as int].finalclass);
        }
        newcls.push(c);
        i += 1;
    }
    let mut k: usize = 0;
    while k < n
        invariant
            n == paragraphs@.len(),
            n == old(paragraphs)@.len(),
            newcls@.len() == n,
            k <= n,
            forall|j: int| 0 <= j < n ==> newcls@[j] == spec_pass3(ms0)[j].finalclass,
            ms0 == models(old(paragraphs)@),
            forall|j: int| k <= j < n ==> paragraphs@[j] == old(paragraphs)@[j],
            forall|j: int|
                0 <= j < k ==> models(paragraphs@)[j] == spec_pass3(ms0)[j],
        decreases n - k,
    {
        let q = with_finalclass(&paragraphs[k], newcls[k]);
        let ghost before = paragraphs@;
        paragraphs.set(k, q);
        proof {
            assert(models(paragraphs@)[k as int] =~~= spec_pass3(ms0)[k as int]);
            assert(forall|j: int|
                0 <= j < k ==> paragraphs@[j] == before[j] && models(paragraphs@)[j] == models(
                    before,
                )[j]);
        }
        k += 1;
    }
    proof {
        assert(models(paragraphs@) =~~= spec_pass3(ms0));
    }
}

/// Pass four of the revision: sweep the `NearGood` paragraphs in order,
/// each decision reading the state the earlier ones left.
pub fn pass_neargood(paragraphs: &mut Vec<Paragraph>)
    ensures
        models(final(paragraphs)@) == spec_pass4(models(old(paragraphs)@)),
{
    let n = paragraphs.len();
    let mut i: usize = 0;
    while i < n
        invariant
            n == paragraphs@.len(),
            n == old(paragraphs)@.len(),
            i <= n,
            models(paragraphs@) == spec_pass4_upto(models(old(paragraphs)@), i as int),
        decreases n - i,
    {
        let ghost cur = models(paragraphs@);
        proof {
            assert(cur[i as int] == paragraphs@[i as int].model());
        }
        if paragraphs[i].finalclass == Classification::NearGood {
            let sp = get_prev_neighbour(i, paragraphs, true);
            let sn = get_next_neighbour(i, paragraphs, true);
            let c = if sp == Classification::Bad && sn == Classification::Bad {
                Classification::Bad
            } else {
                Classification::Good
            };
            let q = with_finalclass(&paragraphs[i], c);
            paragraphs.set(i, q);
            proof {
                assert(models(paragraphs@) =~~= spec_pass4_step(cur, i as int));
            }
        } else {
            proof {
                assert(models(paragraphs@) =~~= spec_pass4_step(cur, i as int));
            }
        }
        i += 1;
    }
}

impl Justext {
    /// Revises the classification of the whole ordered sequence: the four
    /// context-sensitive passes, strictly in order, after copying the
    /// initial classes.
    pub fn revise_paragraph_classification(
        &self,
        paragraphs: &mut Vec<Paragraph>,
        max_heading_distance: usize,
    )
        ensures
            models(final(paragraphs)@) == spec_revise(
                models(old(paragraphs)@),
                max_heading_distance as int,
            ),
    {
        pass_copy(paragraphs);
        pass_headings(paragraphs, max_heading_distance, false);
        pass_short(paragraphs);
        pass_neargood(paragraphs);
        pass_headings(paragraphs, max_heading_distance, true);
    }
}

/// Extracted text after reversing the fixed entity escapes: non-breaking
/// space, quote and angle brackets become literal characters.
pub open spec fn spec_unescape(s: Seq<char>) -> Seq<char> {
    spec_replace(
        spec_replace(spec_replace(spec_replace(s, "&nbsp;"@, " "@), "&quot;"@, "\""@), "&gt;"@, ">"@),
        "&lt;"@,
        "<"@,
    )
}

/// Reverses the fixed set of entity escapes to literal characters.
pub fn unescape(s: &str) -> (r: String)
    ensures
        r@ == spec_unescape(s@),
{
    proof {
        reveal_strlit("&nbsp;");
        reveal_strlit("&quot;");
        reveal_strlit("&gt;");
        reveal_strlit("&lt;");
    }
    let mut t = String::from_str(s);
    replace_a_to_b(&mut t, "&nbsp;", " ");
    replace_a_to_b(&mut t, "&quot;", "\"");
    replace_a_to_b(&mut t, "&gt;", ">");
    replace_a_to_b(&mut t, "&lt;", "<");
    t
}

/// The plain-mode output: the unescaped text of every `Good` paragraph,
/// each terminated by a line break; everything else is dropped.
pub open spec fn spec_output_plain(ms: Seq<ParaModel>) -> Seq<char>
    decreases ms.len(),
{
    if ms.len() == 0 {
        Seq::empty()
    } else {
        spec_output_plain(ms.drop_last()) + if ms.last().finalclass == Classification::Good {
            spec_unescape(ms.last().text).push('\n')
        } else {
            Seq::empty()
        }
    }
}

/// Some paragraph of the sequence was retained as `Good`.
pub open spec fn spec_any_good(ms: Seq<ParaModel>) -> bool {
    exists|i: int| 0 <= i < ms.len() && (#[trigger] ms[i]).finalclass == Classification::Good
}

impl Justext {
    /// Renders the plain extracted text and says whether any content was
    /// found: a false flag tells an empty document from one with no `Good`
    /// paragraph retained.
    pub fn output_default(&self, paragraphs: &Vec<Paragraph>) -> (r: (String, bool))
        ensures
            r.0@ == spec_output_plain(models(paragraphs@)),
            r.1 == spec_any_good(models(paragraphs@)),
    {
        let n = paragraphs.len();
        let mut out = String::new();
        let mut found = false;
        let mut i: usize = 0;
        proof {
            assert(models(paragraphs@).take(0) =~= Seq::<ParaModel>::empty());
        }
        while i < n
            invariant
                n == paragraphs@.len(),
                i <= n,
                out@ == spec_output_plain(models(paragraphs@).take(i as int)),
                found == spec_any_good(models(paragraphs@).take(i as int)),
            decreases n - i,
        {
            let ghost ms = models(paragraphs@);
            let ghost out0 = out@;
            let ghost found0 = found;
            if paragraphs[i].finalclass == Classification::Good {
                let t = unescape(paragraphs[i].text.as_str());
                out.append(t.as_str());
                push_char(&mut out, '\n');
                found = true;
            }
            proof {
                assert(ms.take(i + 1).drop_last() =~= ms.take(i as int));
                assert(ms.take(i + 1).last() == ms[i as int]);
                assert(ms[i as int] == paragraphs@[i as int].model());
                if paragraphs@[i as int].model().finalclass == Classification::Good {
                    assert(out@ =~= out0 + spec_unescape(ms[i as int].text).push('\n'));
                    assert(found == spec_any_good(ms.take(i + 1)));
                } else {
                    assert(out@ =~= out0 + Seq::<char>::empty());
                    if found0 {
                        let w = choose|j: int|
                            0 <= j < ms.take(i as int).len() && (#[trigger] ms.take(
                                i as int,
                            )[j]).finalclass == Classification::Good;
                        assert(ms.take(i + 1)[w].finalclass == Classification::Good);
                    }
                    if spec_any_good(ms.take(i + 1)) {
                        let w = choose|j: int|
                            0 <= j < ms.take(i + 1).len() && (#[trigger] ms.take(
                                i + 1,
                            )[j]).finalclass == Classification::Good;
                        assert(w < i + 1);
                        assert(w != i);
                        assert(ms.take(i as int)[w].finalclass == Classification::Good);
                    }
                    assert(found == spec_any_good(ms.take(i + 1)));
                }
            }
            i += 1;
        }
        proof {
            assert(models(paragraphs@).take(n as int) =~= models(paragraphs@));
        }
        (out, found)
    }

    /// Classifies, revises and renders the paragraphs a segmenter
    /// collected: the extracted text and the content-found flag.
    pub fn get_content(&self, parser: &mut Parser, stoplist: &StopList) -> (r: (String, bool))
        ensures
            models(final(parser).paragraphs@) == spec_pipeline(
                models(old(parser).paragraphs@),
                stoplist.set(),
                *self,
            ),
            r.0@ == spec_output_plain(models(final(parser).paragraphs@)),
            r.1 == spec_any_good(models(final(parser).paragraphs@)),
    {
        self.classify_paragraphs(&mut parser.paragraphs, stoplist);
        proof {
            assert(models(parser.paragraphs@) =~= spec_classify_seq(
                models(old(parser).paragraphs@),
                stoplist.set(),
                *self,
            ));
        }
        self.revise_paragraph_classification(&mut parser.paragraphs, self.max_heading_distance);
        self.output_default(&parser.paragraphs)
    }
}

/// The whole sequence after the initial classification.
pub open spec fn spec_classify_seq(ms: Seq<ParaModel>, dict: Set<Seq<char>>, cfg: Justext)
    -> Seq<ParaModel> {
    ms.map_values(|p: ParaModel| spec_classified(p, dict, cfg))
}

/// The whole classifier: initial classification, then the revision passes
/// with the configured heading distance.
pub open spec fn spec_pipeline(ms: Seq<ParaModel>, dict: Set<Seq<char>>, cfg: Justext)
    -> Seq<ParaModel> {
    spec_revise(spec_classify_seq(ms, dict, cfg), cfg.max_heading_distance as int)
}

/// The role letter a paragraph is wrapped in: `h` for retained headings,
/// `l` for retained list items, `p` for other retained paragraphs, and
/// `b` for boilerplate.
pub open spec fn spec_role_char(p: ParaModel) -> char {
    if p.finalclass == Classification::Good {
        if p.heading {
            'h'
        } else if p.bullet {
            'l'
        } else {
            'p'
        }
    } else {
        'b'
    }
}

/// Runs of three or more line breaks collapse to a blank line; shorter
/// runs stay.
pub open spec fn spec_collapse_blank(s: Seq<char>) -> Seq<char>
    decreases s.len(),
{
    if s.len() == 0 {
        Seq::empty()
    } else if s[0] == '\n' && s.len() > 2 && s[1] == '\n' && s[2] == '\n' {
        spec_collapse_blank(s.skip(1))
    } else {
        seq![s[0]] + spec_collapse_blank(s.skip(1))
    }
}

/// Collapses runs of three or more line breaks to a blank line.
fn collapse_blank(s: &str) -> (r: String)
    ensures
        r@ == spec_collapse_blank(s@),
{
    let n = s.unicode_len();
    let mut out = String::new();
    let mut i: usize = 0;
    proof {
        assert(s@.skip(0) =~= s@);
        assert(out@ + spec_collapse_blank(s@) =~= spec_collapse_blank(s@));
    }
    while i < n
        invariant
            n == s@.len(),
            i <= n,
            spec_collapse_blank(s@) == out@ + spec_collapse_blank(s@.skip(i as int)),
        decreases n - i,
    {
        let ghost rest = s@.skip(i as int);
        let ghost out0 = out@;
        let c = s.get_char(i);
        proof {
            assert(rest[0] == c);
            assert(rest.skip(1) =~= s@.skip(i + 1));
            if i + 1 < n {
                assert(rest[1] == s@[i + 1]);
            }
            if i + 2 < n {
                assert(rest[2] == s@[i + 2]);
            }
        }
        if c == '\n' && n - i > 2 && s.get_char(i + 1) == '\n' && s.get_char(i + 2) == '\n' {
            // the run continues past a blank line: drop this break
        } else {
            push_char(&mut out, c);
            proof {
                assert(out0 + (seq![c] + spec_collapse_blank(s@.skip(i + 1))) =~= out0.push(c)
                    + spec_collapse_blank(s@.skip(i + 1)));
            }
        }
        i += 1;
    }
    proof {
        assert(s@.skip(n as int) =~= Seq::<char>::empty());
        assert(out@ + spec_collapse_blank(Seq::<char>::empty()) =~= out@);
    }
    out
}

/// One paragraph of the full report: its unescaped text behind its role
/// letter, wrapped to eighty columns, except preformatted paragraphs,
/// whose blank-line runs collapse instead.
pub open spec fn spec_render_full_one(p: ParaModel) -> Seq<char> {
    let body = if p.tag == "pre"@ {
        spec_collapse_blank(spec_unescape(p.text))
    } else {
        spec_wrap(spec_unescape(p.text), 80)
    };
    seq!['<', spec_role_char(p), '>'] + body + seq!['\n', '\n']
}

/// The full tagged output: every paragraph, retained or not.
pub open spec fn spec_output_full(ms: Seq<ParaModel>) -> Seq<char>
    decreases ms.len(),
{
    if ms.len() == 0 {
        Seq::empty()
    } else {
        spec_output_full(ms.drop_last()) + spec_render_full_one(ms.last())
    }
}

impl Justext {
    /// Renders the full diagnostic form: every paragraph wrapped in its
    /// role tag, boilerplate included.
    pub fn output_full(&self, paragraphs: &Vec<Paragraph>) -> (r: String)
        ensures
            r@ == spec_output_full(models(paragraphs@)),
    {
        let n = paragraphs.len();
        let mut out = String::new();
        let mut i: usize = 0;
        proof {
            assert(models(paragraphs@).take(0) =~= Seq::<ParaModel>::empty());
        }
        while i < n
            invariant
                n == paragraphs@.len(),
                i <= n,
                out@ == spec_output_full(models(paragraphs@).take(i as int)),
            decreases n - i,
        {
            let ghost ms = models(paragraphs@);
            let ghost out0 = out@;
            let p = &paragraphs[i];
            let role = if p.finalclass == Classification::Good {
                if p.heading {
                    'h'
                } else if p.bullet {
                    'l'
                } else {
                    'p'
                }
            } else {
                'b'
            };
            let unescaped = unescape(p.text.as_str());
            let body = if str_eq(p.tag.as_str(), "pre") {
                collapse_blank(unescaped.as_str())
            } else {
                wrap_text(unescaped.as_str(), 80)
            };
            push_char(&mut out, '<');
            push_char(&mut out, role);
            push_char(&mut out, '>');
            out.append(body.as_str());
            push_char(&mut out, '\n');
            push_char(&mut out, '\n');
            proof {
                assert(ms.take(i + 1).drop_last() =~= ms.take(i as int));
                assert(ms.take(i + 1).last() == ms[i as int]);
                assert(ms[i as int] == paragraphs@[i as int].model());
                assert(role == spec_role_char(ms[i as int]));
                assert(out@ =~= out0 + spec_render_full_one(ms[i as int]));
            }
            i += 1;
        }
        proof {
            assert(models(paragraphs@).take(n as int) =~= models(paragraphs@));
        }
        out
    }
}

} // verus!
