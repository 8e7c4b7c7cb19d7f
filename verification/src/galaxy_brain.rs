//! The galaxy-brain display (full mathematical transparency of an
//! inference): its settings, the symbol and heading choices it makes for
//! Unicode and ASCII terminals, and its layout around the numbers of a
//! posterior and its evidence ledger, which reach it already written out.
use crate::ledger::Classification;
use crate::text::{decimal, join_with, push_decimal};
use vstd::prelude::*;

verus! {

/// Verbosity level for galaxy-brain output.
#[derive(Debug, Clone, Copy, PartialEq, Eq, Hash, Structural)]
pub enum Verbosity {
    /// One-line posterior and classification.
    Summary,
    /// Prior, posterior and evidence breakdown with Bayes factors.
    Detail,
    /// Complete mathematical trace including log-odds arithmetic.
    Full,
}

/// Display mode for mathematical symbols.
#[derive(Debug, Clone, Copy, PartialEq, Eq, Hash, Structural)]
pub enum MathMode {
    /// Unicode symbols.
    Unicode,
    /// Plain ASCII fallback.
    Ascii,
}

/// Configuration for galaxy-brain rendering.
#[derive(Debug, Clone, Copy)]
pub struct GalaxyBrainConfig {
    /// How much of the computation is shown.
    pub verbosity: Verbosity,
    /// Which symbol set is used.
    pub math_mode: MathMode,
    /// Maximum evidence terms to show in Detail mode.
    pub max_evidence_terms: usize,
}

impl Default for GalaxyBrainConfig {
    fn default() -> (c: Self)
        ensures
            c.verbosity == Verbosity::Detail,
            c.math_mode == MathMode::Unicode,
            c.max_evidence_terms == 10,
    {
        GalaxyBrainConfig {
            verbosity: Verbosity::Detail,
            math_mode: MathMode::Unicode,
            max_evidence_terms: 10,
        }
    }
}

/// The symbol shown in `mode`: the Unicode form or its ASCII fallback.
pub open spec fn sym_spec(mode: MathMode, unicode: Seq<char>, ascii: Seq<char>) -> Seq<char> {
    match mode {
        MathMode::Unicode => unicode,
        MathMode::Ascii => ascii,
    }
}

/// Pick the Unicode form or the ASCII fallback of a symbol.
pub fn sym<'a>(mode: MathMode, unicode: &'a str, ascii: &'a str) -> (s: &'a str)
    ensures
        s@ == sym_spec(mode, unicode@, ascii@),
{
    match mode {
        MathMode::Unicode => unicode,
        MathMode::Ascii => ascii,
    }
}

/// Text of a section heading: a bullet, a space and the title.
pub open spec fn section_header_text(title: Seq<char>, mode: MathMode) -> Seq<char> {
    sym_spec(mode, "▸"@, ">"@) + " "@ + title
}

/// Section heading for `title` in the configured symbol set.
pub fn section_header(title: &str, config: &GalaxyBrainConfig) -> (s: String)
    ensures
        s@ == section_header_text(title@, config.math_mode),
{
    let bullet = sym(config.math_mode, "▸", ">");
    let mut s = String::new();
    s.append(bullet);
    s.append(" ");
    s.append(title);
    proof {
        assert(s@ =~= section_header_text(title@, config.math_mode));
    }
    s
}

/// How many of `total` evidence terms a detail display lists, and how many
/// it leaves to its "... and N more terms" line.
pub fn evidence_terms_shown(total: usize, config: &GalaxyBrainConfig) -> (r: (usize, usize))
    ensures
        r.0 == if total < config.max_evidence_terms {
            total
        } else {
            config.max_evidence_terms
        },
        r.0 + r.1 == total,
{
    let n = if total < config.max_evidence_terms {
        total
    } else {
        config.max_evidence_terms
    };
    (n, total - n)
}

/// The four class scores of a display, each written out as the display
/// shows it.
pub struct ScoreTexts {
    pub useful: String,
    pub useful_bad: String,
    pub abandoned: String,
    pub zombie: String,
}

/// One evidence term: its feature and its four log-likelihoods written out.
pub struct EvidenceTermTexts {
    pub feature: String,
    pub log_likelihood: ScoreTexts,
}

/// One Bayes factor: its feature, whether it favours abandoned (its log
/// factor is positive), its numbers written out for the detail and the full
/// display, and its strength label.
pub struct BayesFactorTexts {
    pub feature: String,
    pub favours_abandoned: bool,
    /// The factor, two decimals, right-aligned in eight columns.
    pub bf: String,
    /// The absolute change in bits, one decimal.
    pub bits: String,
    /// The log factor, four decimals, right-aligned in eight columns.
    pub log_bf_full: String,
    /// The factor, four decimals, right-aligned in ten columns.
    pub bf_full: String,
    /// The absolute change in bits, four decimals.
    pub bits_full: String,
    pub strength: String,
}

/// What a galaxy-brain display shows of a posterior and its evidence
/// ledger, with every floating-point number already written out.
pub struct RenderTexts {
    /// Posterior, three decimals (summary).
    pub summary_posterior: ScoreTexts,
    /// Prior and posterior, four decimals (detail).
    pub prior: ScoreTexts,
    pub posterior: ScoreTexts,
    /// Prior, posterior and log-posterior, six decimals (full trace).
    pub prior_full: ScoreTexts,
    pub posterior_full: ScoreTexts,
    pub log_posterior_full: ScoreTexts,
    /// Log-odds of abandoned against useful, three and six decimals.
    pub log_odds: String,
    pub log_odds_full: String,
    pub evidence_terms: Vec<EvidenceTermTexts>,
    pub bayes_factors: Vec<BayesFactorTexts>,
    pub classification: Classification,
    /// The confidence level as the ledger writes it.
    pub confidence: String,
}

/// `s` followed by spaces up to `width` characters.
pub open spec fn pad_right(s: Seq<char>, width: nat) -> Seq<char> {
    if s.len() < width {
        s + Seq::new((width - s.len()) as nat, |i: int| ' ')
    } else {
        s
    }
}

/// `n` copies of `piece`.
pub open spec fn repeat_text(piece: Seq<char>, n: nat) -> Seq<char>
    decreases n,
{
    if n == 0 {
        Seq::empty()
    } else {
        repeat_text(piece, (n - 1) as nat) + piece
    }
}

/// The separator line of `n` heavy rules.
pub open spec fn separator(mode: MathMode, n: nat) -> Seq<char> {
    repeat_text(sym_spec(mode, "━"@, "="@), n)
}

/// Scores in one line: label, approximation sign, the four scores.
pub open spec fn scores_line(label: Seq<char>, s: ScoreTexts, mode: MathMode) -> Seq<char> {
    "  "@ + label + "  "@ + sym_spec(mode, "≈"@, "~"@) + " ["@ + s.useful@ + ", "@
        + s.useful_bad@ + ", "@ + s.abandoned@ + ", "@ + s.zombie@ + "]  (U, UB, A, Z)"@
}

/// Scores one per line, for the full trace.
pub open spec fn full_score_lines(s: ScoreTexts, mode: MathMode) -> Seq<Seq<char>> {
    let eq = sym_spec(mode, "="@, "="@);
    seq![
        "  P(Useful)     "@ + eq + " "@ + s.useful@,
        "  P(UsefulBad)  "@ + eq + " "@ + s.useful_bad@,
        "  P(Abandoned)  "@ + eq + " "@ + s.abandoned@,
        "  P(Zombie)     "@ + eq + " "@ + s.zombie@,
    ]
}

/// The classification and confidence line.
pub open spec fn decision_line(t: RenderTexts) -> Seq<char> {
    "  Classification: "@ + crate::ledger::classification_name(t.classification)
        + "  |  Confidence: "@ + t.confidence@
}

/// A Bayes factor in the detail display.
pub open spec fn bf_line(b: BayesFactorTexts, mode: MathMode) -> Seq<char> {
    let arrow = if b.favours_abandoned {
        sym_spec(mode, "↑A"@, "^A"@)
    } else {
        sym_spec(mode, "↓U"@, "vU"@)
    };
    "  "@ + pad_right(b.feature@, 20) + " BF="@ + b.bf@ + "  "@ + arrow + b.bits@ + " bits  ["@
        + b.strength@ + "]"@
}

/// A Bayes factor in the full trace.
pub open spec fn bf_line_full(b: BayesFactorTexts, mode: MathMode) -> Seq<char> {
    let arrow = if b.favours_abandoned {
        sym_spec(mode, "↑"@, "^"@)
    } else {
        sym_spec(mode, "↓"@, "v"@)
    };
    "  "@ + pad_right(b.feature@, 20) + " log BF="@ + b.log_bf_full@ + "  BF="@ + b.bf_full@
        + "  "@ + arrow + b.bits_full@ + " bits  ["@ + b.strength@ + "]"@
}

/// Detail lines of the first `k` Bayes factors.
pub open spec fn bf_lines(bfs: Seq<BayesFactorTexts>, k: nat, mode: MathMode) -> Seq<Seq<char>>
    decreases k,
{
    if k == 0 {
        Seq::empty()
    } else {
        bf_lines(bfs, (k - 1) as nat, mode).push(bf_line(bfs[k - 1], mode))
    }
}

/// Full-trace lines of the first `k` Bayes factors.
pub open spec fn bf_lines_full(bfs: Seq<BayesFactorTexts>, k: nat, mode: MathMode) -> Seq<Seq<char>>
    decreases k,
{
    if k == 0 {
        Seq::empty()
    } else {
        bf_lines_full(bfs, (k - 1) as nat, mode).push(bf_line_full(bfs[k - 1], mode))
    }
}

/// Full-trace lines of the first `k` evidence terms: a numbered feature
/// line, then its four log-likelihoods.
pub open spec fn term_lines(terms: Seq<EvidenceTermTexts>, k: nat, mode: MathMode) -> Seq<Seq<char>>
    decreases k,
{
    if k == 0 {
        Seq::empty()
    } else {
        let t = terms[k - 1];
        let l = t.log_likelihood;
        term_lines(terms, (k - 1) as nat, mode).push(
            "  "@ + sym_spec(mode, "π"@, "pi"@) + "("@ + decimal(k) + ") Feature: "@ + t.feature@,
        ).push(
            "    log P(f|U)="@ + l.useful@ + "  log P(f|UB)="@ + l.useful_bad@ + "  log P(f|A)="@
                + l.abandoned@ + "  log P(f|Z)="@ + l.zombie@,
        )
    }
}

/// The summary display.
pub open spec fn summary_text(t: RenderTexts, mode: MathMode) -> Seq<char> {
    let p = t.summary_posterior;
    "P(C|x): U="@ + p.useful@ + " UB="@ + p.useful_bad@ + " A="@ + p.abandoned@ + " Z="@
        + p.zombie@ + " "@ + sym_spec(mode, "→"@, "->"@) + " "@
        + crate::ledger::classification_name(t.classification) + " ("@ + t.confidence@ + ")"@
}

/// Lines of the detail display: header, prior, posterior, decision, the
/// first `max_terms` Bayes factors (and how many were left out), log-odds.
pub open spec fn detail_lines(t: RenderTexts, mode: MathMode, max_terms: nat) -> Seq<Seq<char>> {
    let total = t.bayes_factors@.len();
    let n = if total < max_terms {
        total
    } else {
        max_terms
    };
    let sep = separator(mode, 50);
    seq![
        sym_spec(mode, "🧠"@, "[*]"@) + " Galaxy-Brain Mode "@ + sep,
        Seq::empty(),
        section_header_text("Prior Distribution"@, mode),
        scores_line("P(C)"@, t.prior, mode),
        Seq::empty(),
        section_header_text("Posterior Distribution"@, mode),
        scores_line("P(C|x)"@, t.posterior, mode),
        Seq::empty(),
        decision_line(t),
        Seq::empty(),
        section_header_text("Evidence (Bayes Factors)"@, mode),
    ] + bf_lines(t.bayes_factors@, n, mode) + (if total > n {
        seq!["  ... and "@ + decimal((total - n) as nat) + " more terms"@]
    } else {
        Seq::empty()
    }) + seq![Seq::empty(), "  log-odds(A/U) = "@ + t.log_odds@, sep]
}

/// Lines of the full trace: prior, evidence terms, Bayes factors,
/// posterior, log-posterior and the decision.
pub open spec fn full_lines(t: RenderTexts, mode: MathMode) -> Seq<Seq<char>> {
    let sep = separator(mode, 60);
    seq![
        sym_spec(mode, "🧠"@, "[*]"@) + " Galaxy-Brain Mode (Full Trace) "@ + sep,
        Seq::empty(),
        section_header_text("Step 1: Prior P(C)"@, mode),
    ] + full_score_lines(t.prior_full, mode) + seq![
        Seq::empty(),
        section_header_text("Step 2: Evidence Terms"@, mode),
    ] + term_lines(t.evidence_terms@, t.evidence_terms@.len(), mode) + seq![
        Seq::empty(),
        section_header_text("Step 3: Bayes Factors (A vs U)"@, mode),
    ] + bf_lines_full(t.bayes_factors@, t.bayes_factors@.len(), mode) + seq![
        Seq::empty(),
        section_header_text("Step 4: Posterior P(C|x)"@, mode),
    ] + full_score_lines(t.posterior_full, mode) + seq![
        Seq::empty(),
        section_header_text("Step 5: Log-Posterior"@, mode),
    ] + full_score_lines(t.log_posterior_full, mode) + seq![
        Seq::empty(),
        section_header_text("Step 6: Decision"@, mode),
        "  log-odds(A/U) = "@ + t.log_odds_full@,
        decision_line(t),
        Seq::empty(),
        sep,
    ]
}

/// The text of a galaxy-brain display: the summary line, or the lines of
/// the detail display or of the full trace joined by newlines.
pub open spec fn render_text(t: RenderTexts, config: GalaxyBrainConfig) -> Seq<char> {
    match config.verbosity {
        Verbosity::Summary => summary_text(t, config.math_mode),
        Verbosity::Detail => join_with(
            detail_lines(t, config.math_mode, config.max_evidence_terms as nat),
            "\n"@,
        ),
        Verbosity::Full => join_with(full_lines(t, config.math_mode), "\n"@),
    }
}

/// Two lines per evidence term.
proof fn lemma_term_lines_len(terms: Seq<EvidenceTermTexts>, k: nat, mode: MathMode)
    ensures
        term_lines(terms, k, mode).len() == 2 * k,
    decreases k,
{
    if k > 0 {
        lemma_term_lines_len(terms, (k - 1) as nat, mode);
    }
}

/// One line per Bayes factor, in order, in the full trace.
proof fn lemma_bf_lines_full(bfs: Seq<BayesFactorTexts>, k: nat, mode: MathMode)
    ensures
        bf_lines_full(bfs, k, mode).len() == k,
        forall|j: int| 0 <= j < k ==> #[trigger] bf_lines_full(bfs, k, mode)[j] == bf_line_full(bfs[j], mode),
    decreases k,
{
    if k > 0 {
        lemma_bf_lines_full(bfs, (k - 1) as nat, mode);
    }
}

/// One line per Bayes factor, in order, in the detail display.
proof fn lemma_bf_lines(bfs: Seq<BayesFactorTexts>, k: nat, mode: MathMode)
    ensures
        bf_lines(bfs, k, mode).len() == k,
        forall|j: int| 0 <= j < k ==> #[trigger] bf_lines(bfs, k, mode)[j] == bf_line(bfs[j], mode),
    decreases k,
{
    if k > 0 {
        lemma_bf_lines(bfs, (k - 1) as nat, mode);
    }
}

/// Lines `i` to `i + 3` show the four scores `s`, one per line, useful,
/// useful-bad, abandoned and zombie in that order.
pub open spec fn shows_scores_at(lines: Seq<Seq<char>>, i: int, s: ScoreTexts) -> bool {
    &&& lines[i] == "  P(Useful)     "@ + "="@ + " "@ + s.useful@
    &&& lines[i + 1] == "  P(UsefulBad)  "@ + "="@ + " "@ + s.useful_bad@
    &&& lines[i + 2] == "  P(Abandoned)  "@ + "="@ + " "@ + s.abandoned@
    &&& lines[i + 3] == "  P(Zombie)     "@ + "="@ + " "@ + s.zombie@
}

/// Law: the full trace shows, under "Step 1: Prior P(C)", the prior; under
/// "Step 4: Posterior P(C|x)", the posterior; and under "Step 5:
/// Log-Posterior", the log-posterior; each as four lines right after its
/// heading.  Between steps 1 and 4 stand two lines per evidence term and one
/// per Bayes factor, and step 6 shows the log-odds and the decision.
pub proof fn lemma_full_trace_sections(t: RenderTexts, mode: MathMode)
    ensures
        full_lines(t, mode).len() == 29 + 2 * (t.evidence_terms@.len() as int) + t.bayes_factors@.len(),
        full_lines(t, mode)[2] == section_header_text("Step 1: Prior P(C)"@, mode),
        shows_scores_at(full_lines(t, mode), 3, t.prior_full),
        full_lines(t, mode)[8] == section_header_text("Step 2: Evidence Terms"@, mode),
        full_lines(t, mode)[10 + 2 * (t.evidence_terms@.len() as int)] == section_header_text(
            "Step 3: Bayes Factors (A vs U)"@,
            mode,
        ),
        forall|j: int|
            0 <= j < t.bayes_factors@.len() ==> #[trigger] full_lines(t, mode)[11 + 2
                * (t.evidence_terms@.len() as int) + j] == bf_line_full(t.bayes_factors@[j], mode),
        full_lines(t, mode)[12 + 2 * (t.evidence_terms@.len() as int) + t.bayes_factors@.len()]
            == section_header_text("Step 4: Posterior P(C|x)"@, mode),
        shows_scores_at(
            full_lines(t, mode),
            13 + 2 * (t.evidence_terms@.len() as int) + t.bayes_factors@.len(),
            t.posterior_full,
        ),
        full_lines(t, mode)[18 + 2 * (t.evidence_terms@.len() as int) + t.bayes_factors@.len()]
            == section_header_text("Step 5: Log-Posterior"@, mode),
        shows_scores_at(
            full_lines(t, mode),
            19 + 2 * (t.evidence_terms@.len() as int) + t.bayes_factors@.len(),
            t.log_posterior_full,
        ),
        full_lines(t, mode)[24 + 2 * (t.evidence_terms@.len() as int) + t.bayes_factors@.len()]
            == section_header_text("Step 6: Decision"@, mode),
        full_lines(t, mode)[25 + 2 * (t.evidence_terms@.len() as int) + t.bayes_factors@.len()]
            == "  log-odds(A/U) = "@ + t.log_odds_full@,
        full_lines(t, mode)[26 + 2 * (t.evidence_terms@.len() as int) + t.bayes_factors@.len()]
            == "  Classification: "@ + crate::ledger::classification_name(t.classification)
            + "  |  Confidence: "@ + t.confidence@,
{
    let nt = t.evidence_terms@.len() as int;
    let nb = t.bayes_factors@.len() as int;
    lemma_term_lines_len(t.evidence_terms@, nt as nat, mode);
    lemma_bf_lines_full(t.bayes_factors@, nb as nat, mode);
    let sep = separator(mode, 60);
    let a = seq![
        sym_spec(mode, "🧠"@, "[*]"@) + " Galaxy-Brain Mode (Full Trace) "@ + sep,
        Seq::empty(),
        section_header_text("Step 1: Prior P(C)"@, mode),
    ] + full_score_lines(t.prior_full, mode) + seq![
        Seq::empty(),
        section_header_text("Step 2: Evidence Terms"@, mode),
    ];
    let b = a + term_lines(t.evidence_terms@, nt as nat, mode) + seq![
        Seq::empty(),
        section_header_text("Step 3: Bayes Factors (A vs U)"@, mode),
    ];
    let c = b + bf_lines_full(t.bayes_factors@, nb as nat, mode) + seq![
        Seq::empty(),
        section_header_text("Step 4: Posterior P(C|x)"@, mode),
    ];
    let d = c + full_score_lines(t.posterior_full, mode) + seq![
        Seq::empty(),
        section_header_text("Step 5: Log-Posterior"@, mode),
    ];
    let e = d + full_score_lines(t.log_posterior_full, mode);
    let tail: Seq<Seq<char>> = seq![
        Seq::empty(),
        section_header_text("Step 6: Decision"@, mode),
        "  log-odds(A/U) = "@ + t.log_odds_full@,
        decision_line(t),
        Seq::empty(),
        sep,
    ];
    let l = full_lines(t, mode);
    assert(l == e + tail);
    assert(a.len() == 9);
    assert(b.len() == 11 + 2 * nt);
    assert(c.len() == 13 + 2 * nt + nb);
    assert(d.len() == 19 + 2 * nt + nb);
    assert(e.len() == 23 + 2 * nt + nb);
    assert(sym_spec(mode, "="@, "="@) == "="@);
    assert(shows_scores_at(a, 3, t.prior_full));
    assert(shows_scores_at(e, 3, t.prior_full));
    assert(shows_scores_at(d, 13 + 2 * nt + nb, t.posterior_full));
    assert(shows_scores_at(e, 13 + 2 * nt + nb, t.posterior_full));
    assert(shows_scores_at(e, 19 + 2 * nt + nb, t.log_posterior_full));
    assert forall|j: int| 0 <= j < nb implies #[trigger] l[11 + 2 * nt + j] == bf_line_full(
        t.bayes_factors@[j],
        mode,
    ) by {
        assert(c[11 + 2 * nt + j] == bf_lines_full(t.bayes_factors@, nb as nat, mode)[j]);
        assert(e[11 + 2 * nt + j] == c[11 + 2 * nt + j]);
    }
    assert(l[2] == a[2]);
    assert(l[8] == a[8]);
    assert(l[10 + 2 * nt] == b[10 + 2 * nt]);
    assert(l[12 + 2 * nt + nb] == c[12 + 2 * nt + nb]);
    assert(l[18 + 2 * nt + nb] == d[18 + 2 * nt + nb]);
}

/// Law: the detail display shows the prior, then the posterior, each on the
/// line after its heading, then the decision, then one line for each of the
/// first `max_terms` Bayes factors in order, a count of the factors left out
/// when there are more, and the log-odds.
pub proof fn lemma_detail_sections(t: RenderTexts, mode: MathMode, max_terms: nat)
    ensures
        ({
            let total = t.bayes_factors@.len();
            let n = if total < max_terms {
                total
            } else {
                max_terms
            };
            let more: int = if total > n {
                1
            } else {
                0
            };
            let l = detail_lines(t, mode, max_terms);
            &&& l.len() == 14 + n + more
            &&& l[2] == section_header_text("Prior Distribution"@, mode)
            &&& l[3] == scores_line("P(C)"@, t.prior, mode)
            &&& l[5] == section_header_text("Posterior Distribution"@, mode)
            &&& l[6] == scores_line("P(C|x)"@, t.posterior, mode)
            &&& l[8] == "  Classification: "@ + crate::ledger::classification_name(t.classification)
                + "  |  Confidence: "@ + t.confidence@
            &&& forall|j: int| 0 <= j < n ==> #[trigger] l[11 + j] == bf_line(t.bayes_factors@[j], mode)
            &&& total > n ==> l[11 + n as int] == "  ... and "@ + decimal((total - n) as nat) + " more terms"@
            &&& l[12 + n + more] == "  log-odds(A/U) = "@ + t.log_odds@
        }),
{
    let total = t.bayes_factors@.len();
    let n = if total < max_terms {
        total
    } else {
        max_terms
    };
    lemma_bf_lines(t.bayes_factors@, n, mode);
    let sep = separator(mode, 50);
    let a = seq![
        sym_spec(mode, "🧠"@, "[*]"@) + " Galaxy-Brain Mode "@ + sep,
        Seq::empty(),
        section_header_text("Prior Distribution"@, mode),
        scores_line("P(C)"@, t.prior, mode),
        Seq::empty(),
        section_header_text("Posterior Distribution"@, mode),
        scores_line("P(C|x)"@, t.posterior, mode),
        Seq::empty(),
        decision_line(t),
        Seq::empty(),
        section_header_text("Evidence (Bayes Factors)"@, mode),
    ];
    let b = a + bf_lines(t.bayes_factors@, n, mode);
    let m: Seq<Seq<char>> = if total > n {
        seq!["  ... and "@ + decimal((total - n) as nat) + " more terms"@]
    } else {
        Seq::empty()
    };
    let c = b + m;
    let l = detail_lines(t, mode, max_terms);
    assert(l == c + seq![Seq::empty(), "  log-odds(A/U) = "@ + t.log_odds@, sep]);
    assert forall|j: int| 0 <= j < n implies #[trigger] l[11 + j] == bf_line(t.bayes_factors@[j], mode) by {
        assert(b[11 + j] == bf_lines(t.bayes_factors@, n, mode)[j]);
        assert(c[11 + j] == b[11 + j]);
    }
    assert(l[3] == a[3]);
    assert(l[6] == a[6]);
    assert(l[8] == a[8]);
    assert(l[2] == a[2]);
    assert(l[5] == a[5]);
}

/// Lines of text joined by newlines, built one line at a time.
struct LineText {
    text: String,
    empty: bool,
    lines: Ghost<Seq<Seq<char>>>,
}

impl LineText {
    spec fn holds(&self, lines: Seq<Seq<char>>) -> bool {
        &&& self.lines@ == lines
        &&& self.text@ == join_with(lines, "\n"@)
        &&& self.empty == (lines.len() == 0)
    }

    fn new() -> (b: LineText)
        ensures
            b.holds(Seq::empty()),
    {
        LineText { text: String::new(), empty: true, lines: Ghost(Seq::empty()) }
    }

    fn push(&mut self, line: &str)
        requires
            old(self).holds(old(self).lines@),
        ensures
            final(self).holds(old(self).lines@.push(line@)),
    {
        let ghost lines = self.lines@;
        crate::text::push_joined(&mut self.text, self.empty, "\n", line, Ghost(lines));
        self.empty = false;
        self.lines = Ghost(lines.push(line@));
    }
}

/// Append `s` and then spaces up to `width` characters.
fn push_padded(out: &mut String, s: &str, width: usize)
    ensures
        final(out)@ == old(out)@ + pad_right(s@, width as nat),
{
    out.append(s);
    let len = s.unicode_len();
    let mut k = len;
    while k < width
        invariant
            len == s@.len(),
            k >= len,
            k <= width || k == len,
            out@ == old(out)@ + s@ + Seq::new((k - len) as nat, |i: int| ' '),
        decreases width - k,
    {
        out.append(" ");
        proof {
            reveal_strlit(" ");
            assert(out@ =~= old(out)@ + s@ + Seq::new((k + 1 - len) as nat, |i: int| ' '));
        }
        k = k + 1;
    }
    proof {
        if len < width {
            assert(out@ =~= old(out)@ + pad_right(s@, width as nat));
        } else {
            assert(out@ =~= old(out)@ + pad_right(s@, width as nat));
        }
    }
}

/// The separator line of `n` rules.
fn separator_string(mode: MathMode, n: usize) -> (s: String)
    ensures
        s@ == separator(mode, n as nat),
{
    let piece = sym(mode, "━", "=");
    let mut s = String::new();
    let mut k: usize = 0;
    while k < n
        invariant
            k <= n,
            piece@ == sym_spec(mode, "━"@, "="@),
            s@ == repeat_text(piece@, k as nat),
        decreases n - k,
    {
        s.append(piece);
        k = k + 1;
    }
    s
}

fn scores_string(label: &str, sc: &ScoreTexts, mode: MathMode) -> (s: String)
    ensures
        s@ == scores_line(label@, *sc, mode),
{
    let mut s = String::new();
    s.append("  ");
    s.append(label);
    s.append("  ");
    s.append(sym(mode, "≈", "~"));
    s.append(" [");
    s.append(sc.useful.as_str());
    s.append(", ");
    s.append(sc.useful_bad.as_str());
    s.append(", ");
    s.append(sc.abandoned.as_str());
    s.append(", ");
    s.append(sc.zombie.as_str());
    s.append("]  (U, UB, A, Z)");
    proof {
        assert(s@ =~= scores_line(label@, *sc, mode));
    }
    s
}

fn push_full_scores(out: &mut LineText, sc: &ScoreTexts, mode: MathMode)
    requires
        old(out).holds(old(out).lines@),
    ensures
        final(out).holds(old(out).lines@ + full_score_lines(*sc, mode)),
{
    let ghost start = out.lines@;
    let eq = sym(mode, "=", "=");
    let mut l0 = String::new();
    l0.append("  P(Useful)     ");
    l0.append(eq);
    l0.append(" ");
    l0.append(sc.useful.as_str());
    out.push(l0.as_str());
    let mut l1 = String::new();
    l1.append("  P(UsefulBad)  ");
    l1.append(eq);
    l1.append(" ");
    l1.append(sc.useful_bad.as_str());
    out.push(l1.as_str());
    let mut l2 = String::new();
    l2.append("  P(Abandoned)  ");
    l2.append(eq);
    l2.append(" ");
    l2.append(sc.abandoned.as_str());
    out.push(l2.as_str());
    let mut l3 = String::new();
    l3.append("  P(Zombie)     ");
    l3.append(eq);
    l3.append(" ");
    l3.append(sc.zombie.as_str());
    out.push(l3.as_str());
    proof {
        assert(out.lines@ =~= start + full_score_lines(*sc, mode));
    }
}

fn decision_string(t: &RenderTexts) -> (s: String)
    ensures
        s@ == decision_line(*t),
{
    let mut s = String::new();
    s.append("  Classification: ");
    s.append(t.classification.name());
    s.append("  |  Confidence: ");
    s.append(t.confidence.as_str());
    proof {
        assert(s@ =~= decision_line(*t));
    }
    s
}

fn bf_string(b: &BayesFactorTexts, mode: MathMode, full: bool) -> (s: String)
    ensures
        s@ == if full {
            bf_line_full(*b, mode)
        } else {
            bf_line(*b, mode)
        },
{
    let arrow = if full {
        if b.favours_abandoned {
            sym(mode, "↑", "^")
        } else {
            sym(mode, "↓", "v")
        }
    } else {
        if b.favours_abandoned {
            sym(mode, "↑A", "^A")
        } else {
            sym(mode, "↓U", "vU")
        }
    };
    let mut s = String::new();
    s.append("  ");
    push_padded(&mut s, b.feature.as_str(), 20);
    if full {
        s.append(" log BF=");
        s.append(b.log_bf_full.as_str());
        s.append("  BF=");
        s.append(b.bf_full.as_str());
        s.append("  ");
        s.append(arrow);
        s.append(b.bits_full.as_str());
    } else {
        s.append(" BF=");
        s.append(b.bf.as_str());
        s.append("  ");
        s.append(arrow);
        s.append(b.bits.as_str());
    }
    s.append(" bits  [");
    s.append(b.strength.as_str());
    s.append("]");
    proof {
        if full {
            assert(s@ =~= bf_line_full(*b, mode));
        } else {
            assert(s@ =~= bf_line(*b, mode));
        }
    }
    s
}

fn header_line(out: &mut LineText, title: &str, config: &GalaxyBrainConfig)
    requires
        old(out).holds(old(out).lines@),
    ensures
        final(out).holds(old(out).lines@.push(section_header_text(title@, config.math_mode))),
{
    let h = section_header(title, config);
    out.push(h.as_str());
}

fn render_summary(t: &RenderTexts, mode: MathMode) -> (s: String)
    ensures
        s@ == summary_text(*t, mode),
{
    let p = &t.summary_posterior;
    let mut s = String::new();
    s.append("P(C|x): U=");
    s.append(p.useful.as_str());
    s.append(" UB=");
    s.append(p.useful_bad.as_str());
    s.append(" A=");
    s.append(p.abandoned.as_str());
    s.append(" Z=");
    s.append(p.zombie.as_str());
    s.append(" ");
    s.append(sym(mode, "→", "->"));
    s.append(" ");
    s.append(t.classification.name());
    s.append(" (");
    s.append(t.confidence.as_str());
    s.append(")");
    proof {
        assert(s@ =~= summary_text(*t, mode));
    }
    s
}

#[verifier::rlimit(40)]
#[verifier::spinoff_prover]
fn render_detail(t: &RenderTexts, config: &GalaxyBrainConfig) -> (s: String)
    ensures
        s@ == join_with(detail_lines(*t, config.math_mode, config.max_evidence_terms as nat), "\n"@),
{
    let mode = config.math_mode;
    let max_terms = config.max_evidence_terms;
    let sep = separator_string(mode, 50);
    let mut out = LineText::new();
    let mut head = String::new();
    head.append(sym(mode, "🧠", "[*]"));
    head.append(" Galaxy-Brain Mode ");
    head.append(sep.as_str());
    out.push(head.as_str());
    out.push("");
    header_line(&mut out, "Prior Distribution", config);
    let prior = scores_string("P(C)", &t.prior, mode);
    out.push(prior.as_str());
    out.push("");
    header_line(&mut out, "Posterior Distribution", config);
    let post = scores_string("P(C|x)", &t.posterior, mode);
    out.push(post.as_str());
    out.push("");
    let dec = decision_string(t);
    out.push(dec.as_str());
    out.push("");
    header_line(&mut out, "Evidence (Bayes Factors)", config);
    let ghost before = out.lines@;
    let total = t.bayes_factors.len();
    let n = if total < max_terms {
        total
    } else {
        max_terms
    };
    let mut k: usize = 0;
    while k < n
        invariant
            k <= n,
            n <= total,
            total == t.bayes_factors@.len(),
            out.holds(before + bf_lines(t.bayes_factors@, k as nat, mode)),
        decreases n - k,
    {
        let line = bf_string(&t.bayes_factors[k], mode, false);
        out.push(line.as_str());
        proof {
            assert(before + bf_lines(t.bayes_factors@, (k + 1) as nat, mode) =~= (before + bf_lines(
                t.bayes_factors@,
                k as nat,
                mode,
            )).push(bf_line(t.bayes_factors@[k as int], mode)));
        }
        k = k + 1;
    }
    let ghost with_bfs = out.lines@;
    if total > n {
        let mut more = String::new();
        more.append("  ... and ");
        push_decimal(&mut more, (total - n) as u64);
        more.append(" more terms");
        out.push(more.as_str());
    }
    let ghost with_more = out.lines@;
    out.push("");
    let mut odds = String::new();
    odds.append("  log-odds(A/U) = ");
    odds.append(t.log_odds.as_str());
    out.push(odds.as_str());
    out.push(sep.as_str());
    proof {
        reveal_strlit("");
        let e: Seq<char> = ""@;
        assert(e =~= Seq::<char>::empty());
        assert(out.lines@ =~= detail_lines(*t, mode, max_terms as nat));
    }
    out.text
}

#[verifier::rlimit(60)]
#[verifier::spinoff_prover]
fn render_full(t: &RenderTexts, config: &GalaxyBrainConfig) -> (s: String)
    ensures
        s@ == join_with(full_lines(*t, config.math_mode), "\n"@),
{
    let mode = config.math_mode;
    let sep = separator_string(mode, 60);
    let mut out = LineText::new();
    let mut head = String::new();
    head.append(sym(mode, "🧠", "[*]"));
    head.append(" Galaxy-Brain Mode (Full Trace) ");
    head.append(sep.as_str());
    out.push(head.as_str());
    out.push("");
    header_line(&mut out, "Step 1: Prior P(C)", config);
    push_full_scores(&mut out, &t.prior_full, mode);
    out.push("");
    header_line(&mut out, "Step 2: Evidence Terms", config);
    let ghost before_terms = out.lines@;
    let nt = t.evidence_terms.len();
    let mut k: usize = 0;
    while k < nt
        invariant
            k <= nt,
            nt == t.evidence_terms@.len(),
            out.holds(before_terms + term_lines(t.evidence_terms@, k as nat, mode)),
        decreases nt - k,
    {
        let term = &t.evidence_terms[k];
        let mut name = String::new();
        name.append("  ");
        name.append(sym(mode, "π", "pi"));
        name.append("(");
        push_decimal(&mut name, (k + 1) as u64);
        name.append(") Feature: ");
        name.append(term.feature.as_str());
        out.push(name.as_str());
        let l = &term.log_likelihood;
        let mut ll = String::new();
        ll.append("    log P(f|U)=");
        ll.append(l.useful.as_str());
        ll.append("  log P(f|UB)=");
        ll.append(l.useful_bad.as_str());
        ll.append("  log P(f|A)=");
        ll.append(l.abandoned.as_str());
        ll.append("  log P(f|Z)=");
        ll.append(l.zombie.as_str());
        out.push(ll.as_str());
        proof {
            assert(before_terms + term_lines(t.evidence_terms@, (k + 1) as nat, mode) =~= (before_terms
                + term_lines(t.evidence_terms@, k as nat, mode)).push(name@).push(ll@));
        }
        k = k + 1;
    }
    out.push("");
    header_line(&mut out, "Step 3: Bayes Factors (A vs U)", config);
    let ghost before_bfs = out.lines@;
    let nb = t.bayes_factors.len();
    let mut j: usize = 0;
    while j < nb
        invariant
            j <= nb,
            nb == t.bayes_factors@.len(),
            out.holds(before_bfs + bf_lines_full(t.bayes_factors@, j as nat, mode)),
        decreases nb - j,
    {
        let line = bf_string(&t.bayes_factors[j], mode, true);
        out.push(line.as_str());
        proof {
            assert(before_bfs + bf_lines_full(t.bayes_factors@, (j + 1) as nat, mode) =~= (before_bfs
                + bf_lines_full(t.bayes_factors@, j as nat, mode)).push(
                bf_line_full(t.bayes_factors@[j as int], mode),
            ));
        }
        j = j + 1;
    }
    out.push("");
    header_line(&mut out, "Step 4: Posterior P(C|x)", config);
    push_full_scores(&mut out, &t.posterior_full, mode);
    out.push("");
    header_line(&mut out, "Step 5: Log-Posterior", config);
    push_full_scores(&mut out, &t.log_posterior_full, mode);
    out.push("");
    header_line(&mut out, "Step 6: Decision", config);
    let mut odds = String::new();
    odds.append("  log-odds(A/U) = ");
    odds.append(t.log_odds_full.as_str());
    out.push(odds.as_str());
    let dec = decision_string(t);
    out.push(dec.as_str());
    out.push("");
    out.push(sep.as_str());
    proof {
        reveal_strlit("");
        let e: Seq<char> = ""@;
        assert(e =~= Seq::<char>::empty());
        assert(out.lines@ =~= full_lines(*t, mode));
    }
    out.text
}

/// Render a galaxy-brain display: the summary line, the detail display or
/// the full trace, as the configuration asks.
pub fn render(t: &RenderTexts, config: &GalaxyBrainConfig) -> (s: String)
    ensures
        s@ == render_text(*t, *config),
{
    match config.verbosity {
        Verbosity::Summary => render_summary(t, config.math_mode),
        Verbosity::Detail => render_detail(t, config),
        Verbosity::Full => render_full(t, config),
    }
}

} // verus!
