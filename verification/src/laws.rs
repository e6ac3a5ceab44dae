//! Properties of the scanner, stated over its mathematical model and
//! proved once and for all: whitespace-only input, keyword resolution,
//! token well-formedness, determinism, whitespace-insensitivity, and
//! error line attribution.

use vstd::prelude::*;

use crate::lexer::digit_run_end;
use crate::lexer::is_digit_char;
use crate::lexer::digits_value;
use crate::lexer::is_punct_char;
use crate::lexer::is_space_char;
use crate::lexer::is_word_char;
use crate::lexer::is_word_start_char;
use crate::lexer::lex_line_from;
use crate::lexer::line_cons;
use crate::lexer::lex_line_model;
use crate::lexer::lemma_digit_run_end;
use crate::lexer::lemma_word_run_end;
use crate::lexer::scan_from;
use crate::lexer::scan_model;
use crate::lexer::spec_classify_word;
use crate::lexer::spec_keyword_of;
use crate::lexer::word_run_end;
use crate::lexer::LexErrorModel;
use crate::lexer::LineModel;
use crate::lexer::TokenModel;

verus! {

// ---------------------------------------------------------------------------
// Whitespace-only input
// ---------------------------------------------------------------------------

/// A line of nothing but whitespace.
pub open spec fn all_space_line(s: Seq<char>) -> bool {
    forall|j: int| 0 <= j < s.len() ==> is_space_char(#[trigger] s[j])
}

/// A line holding nothing but whitespace from `i` on scans to no tokens.
pub proof fn lemma_whitespace_line_from(s: Seq<char>, i: int)
    requires
        0 <= i <= s.len(),
        forall|k: int| i <= k < s.len() ==> is_space_char(s[k]),
    ensures
        lex_line_from(s, i) == LineModel::Tokens(Seq::<TokenModel>::empty()),
    decreases s.len() - i,
{
    if i < s.len() {
        lemma_whitespace_line_from(s, i + 1);
    }
}

proof fn lemma_whitespace_scan_from(lines: Seq<Seq<char>>, k: int)
    requires
        0 <= k <= lines.len(),
        forall|m: int| 0 <= m < lines.len() ==> all_space_line(#[trigger] lines[m]),
    ensures
        scan_from(lines, k) == Ok::<_, LexErrorModel>(Seq::<TokenModel>::empty()),
    decreases lines.len() - k,
{
    if k < lines.len() {
        lemma_whitespace_line_from(lines[k], 0);
        lemma_whitespace_scan_from(lines, k + 1);
        assert(Seq::<TokenModel>::empty() + Seq::<TokenModel>::empty()
            =~= Seq::<TokenModel>::empty());
    }
}

/// Law: a file made of whitespace alone scans to the empty token
/// sequence, with no error.
pub proof fn lemma_whitespace_only_scans_empty(lines: Seq<Seq<char>>)
    requires
        forall|m: int| 0 <= m < lines.len() ==> all_space_line(#[trigger] lines[m]),
    ensures
        scan_model(lines) == Ok::<_, LexErrorModel>(Seq::<TokenModel>::empty()),
{
    lemma_whitespace_scan_from(lines, 0);
}

// ---------------------------------------------------------------------------
// Keyword resolution
// ---------------------------------------------------------------------------

/// Law: a word that spells no reserved keyword is classified as an
/// identifier, never as a keyword.
pub proof fn lemma_non_keyword_is_identifier(s: Seq<char>)
    requires
        !(s =~= seq!['i', 'n', 't']),
        !(s =~= seq!['r', 'e', 't', 'u', 'r', 'n']),
    ensures
        spec_classify_word(s) == TokenModel::Identifier(s),
{
}

/// Law: a line holding exactly one identifier-shaped word that spells no
/// keyword scans to exactly one identifier token carrying that word.
pub proof fn lemma_identifier_line(s: Seq<char>)
    requires
        s.len() > 0,
        is_word_start_char(s[0]),
        forall|k: int| 0 <= k < s.len() ==> is_word_char(s[k]),
        !(s =~= seq!['i', 'n', 't']),
        !(s =~= seq!['r', 'e', 't', 'u', 'r', 'n']),
    ensures
        lex_line_model(s) == LineModel::Tokens(seq![TokenModel::Identifier(s)]),
{
    lemma_word_run_end(s, 0);
    let j = word_run_end(s, 0);
    assert(j == s.len());
    assert(s.subrange(0, j) =~= s);
    lemma_non_keyword_is_identifier(s);
    assert(!is_space_char(s[0]));
    assert(lex_line_from(s, j) == LineModel::Tokens(Seq::<TokenModel>::empty()));
    assert(lex_line_model(s) == crate::lexer::line_cons(
        TokenModel::Identifier(s),
        lex_line_from(s, j),
    ));
    assert(seq![TokenModel::Identifier(s)] + Seq::<TokenModel>::empty()
        =~= seq![TokenModel::Identifier(s)]);
}

// ---------------------------------------------------------------------------
// Token well-formedness
// ---------------------------------------------------------------------------

/// What a token may look like: an identifier is a nonempty word that
/// starts with a letter or underscore and spells no keyword, a constant
/// fits its width and is never negative, and a punctuator is one
/// recognized symbol.  In particular no token stands for whitespace.
pub open spec fn wf_token(t: TokenModel) -> bool {
    match t {
        TokenModel::Identifier(s) => {
            &&& s.len() > 0
            &&& is_word_start_char(s[0])
            &&& forall|k: int| 0 <= k < s.len() ==> is_word_char(#[trigger] s[k])
            &&& spec_keyword_of(s) is None
        },
        TokenModel::Constant(v) => 0 <= v <= i32::MAX,
        TokenModel::Keywords(_) => true,
        TokenModel::Punctuators(s) => s.len() == 1 && is_punct_char(s[0]),
    }
}

/// Law: every token a line scans to is well-formed.
pub proof fn lemma_line_tokens_well_formed(s: Seq<char>, i: int)
    requires
        0 <= i <= s.len(),
    ensures
        lex_line_from(s, i) matches LineModel::Tokens(ts) ==> forall|k: int|
            0 <= k < ts.len() ==> wf_token(#[trigger] ts[k]),
    decreases s.len() - i,
{
    if i >= s.len() {
    } else if is_space_char(s[i]) {
        lemma_line_tokens_well_formed(s, i + 1);
    } else if is_word_start_char(s[i]) {
        lemma_word_run_end(s, i);
        let j = word_run_end(s, i);
        lemma_line_tokens_well_formed(s, j);
        let w = s.subrange(i, j);
        assert(w.len() > 0 && w[0] == s[i]);
        assert(forall|k: int| 0 <= k < w.len() ==> is_word_char(#[trigger] w[k]));
        assert(wf_token(spec_classify_word(w)));
    } else if is_digit_char(s[i]) {
        lemma_digit_run_end(s, i);
        let j = digit_run_end(s, i);
        if !(j < s.len() && is_word_char(s[j])) && digits_value(s.subrange(i, j)) <= i32::MAX {
            lemma_line_tokens_well_formed(s, j);
            crate::lexer::lemma_digits_value_nonneg(s.subrange(i, j));
        }
    } else if is_punct_char(s[i]) {
        lemma_line_tokens_well_formed(s, i + 1);
    } else {
    }
}

proof fn lemma_scan_tokens_well_formed_from(lines: Seq<Seq<char>>, k: int)
    requires
        0 <= k <= lines.len(),
    ensures
        scan_from(lines, k) matches Ok(ts) ==> forall|m: int|
            0 <= m < ts.len() ==> wf_token(#[trigger] ts[m]),
    decreases lines.len() - k,
{
    if k < lines.len() {
        lemma_line_tokens_well_formed(lines[k], 0);
        lemma_scan_tokens_well_formed_from(lines, k + 1);
    }
}

/// Law: every token a whole scan returns is well-formed; in particular no
/// token is emitted for matched whitespace, and no identifier spells a
/// reserved keyword.
pub proof fn lemma_scan_tokens_well_formed(lines: Seq<Seq<char>>)
    ensures
        scan_model(lines) matches Ok(ts) ==> forall|m: int|
            0 <= m < ts.len() ==> wf_token(#[trigger] ts[m]),
{
    lemma_scan_tokens_well_formed_from(lines, 0);
}

// ---------------------------------------------------------------------------
// Determinism
// ---------------------------------------------------------------------------

/// Law: scanning the same unmodified lines twice gives the same outcome.
/// Together with the scanner's contract, which pins its result to
/// [`scan_model`], two runs of [`crate::lexer::lex`] over one file return
/// identical token sequences.
pub proof fn lemma_scan_deterministic(
    lines: Seq<Seq<char>>,
    r1: Result<Seq<TokenModel>, LexErrorModel>,
    r2: Result<Seq<TokenModel>, LexErrorModel>,
)
    requires
        r1 == scan_model(lines),
        r2 == scan_model(lines),
    ensures
        r1 == r2,
{
}

// ---------------------------------------------------------------------------
// Whitespace-insensitivity
// ---------------------------------------------------------------------------

/// The token sequence of a line outcome, where there is one.
pub open spec fn line_tokens_of(m: LineModel) -> Option<Seq<TokenModel>> {
    match m {
        LineModel::Tokens(ts) => Some(ts),
        _ => None,
    }
}

/// Whether whitespace between the characters `prev` and `c` carries
/// meaning: only where two word characters would otherwise touch and fuse
/// into one lexeme.
pub open spec fn fused_boundary(prev: Option<char>, c: char) -> bool {
    prev matches Some(p) && is_word_char(p) && is_word_char(c)
}

/// Lines `s` (from `i`) and `t` (from `j`) differ only in their whitespace
/// runs: the non-whitespace characters agree in order, and where two word
/// characters would otherwise touch, either both sides separate them with
/// whitespace or neither does.  `gs` and `gt` record whether whitespace
/// was just crossed on each side; `prev` is the last matched character.
pub open spec fn ws_equiv_from(
    s: Seq<char>,
    i: int,
    t: Seq<char>,
    j: int,
    gs: bool,
    gt: bool,
    prev: Option<char>,
) -> bool
    decreases (s.len() - i) + (t.len() - j),
    when 0 <= i <= s.len() && 0 <= j <= t.len()
{
    if i >= s.len() && j >= t.len() {
        true
    } else if i < s.len() && is_space_char(s[i]) {
        ws_equiv_from(s, i + 1, t, j, true, gt, prev)
    } else if j < t.len() && is_space_char(t[j]) {
        ws_equiv_from(s, i, t, j + 1, gs, true, prev)
    } else if i < s.len() && j < t.len() && s[i] == t[j] {
        &&& (fused_boundary(prev, s[i]) ==> gs == gt)
        &&& ws_equiv_from(s, i + 1, t, j + 1, false, false, Some(s[i]))
    } else {
        false
    }
}

/// Where the last matched character and the next character of `t` are both
/// word characters, and `s` crossed no whitespace, `t` cannot have crossed
/// any either: the only way the equivalence holds is an immediate match.
proof fn lemma_no_lone_gap_t(s: Seq<char>, i: int, t: Seq<char>, j: int, gs: bool, p: char)
    requires
        0 <= i <= s.len(),
        0 <= j < t.len(),
        is_word_char(t[j]),
        is_word_char(p),
        ws_equiv_from(s, i, t, j, gs, false, Some(p)),
    ensures
        i < s.len() && s[i] == t[j] && gs == false,
    decreases s.len() - i,
{
    assert(!is_space_char(t[j]));
    if i < s.len() && is_space_char(s[i]) {
        lemma_no_lone_gap_t(s, i + 1, t, j, true, p);
        assert(false);
    }
}

/// The mirror image: where the last matched character and the next
/// character of `s` are both word characters, and `t` crossed no
/// whitespace, `s` cannot have crossed any either.
proof fn lemma_no_lone_gap_s(s: Seq<char>, i: int, t: Seq<char>, j: int, gt: bool, p: char)
    requires
        0 <= i < s.len(),
        0 <= j <= t.len(),
        is_word_char(s[i]),
        is_word_char(p),
        ws_equiv_from(s, i, t, j, false, gt, Some(p)),
    ensures
        j < t.len() && t[j] == s[i] && gt == false,
    decreases t.len() - j,
{
    assert(!is_space_char(s[i]));
    if j < t.len() && is_space_char(t[j]) {
        lemma_no_lone_gap_s(s, i, t, j + 1, true, p);
        assert(false);
    }
}

/// Aligned word characters begin word runs of equal content, after which
/// the equivalence resumes.
proof fn lemma_word_runs_align(s: Seq<char>, i: int, t: Seq<char>, j: int)
    requires
        0 <= i < s.len(),
        0 <= j < t.len(),
        s[i] == t[j],
        is_word_char(s[i]),
        ws_equiv_from(s, i + 1, t, j + 1, false, false, Some(s[i])),
    ensures
        word_run_end(s, i) - i == word_run_end(t, j) - j,
        s.subrange(i, word_run_end(s, i)) == t.subrange(j, word_run_end(t, j)),
        ws_equiv_from(
            s,
            word_run_end(s, i),
            t,
            word_run_end(t, j),
            false,
            false,
            Some(s[word_run_end(s, i) - 1]),
        ),
        word_run_end(s, i) > i,
        word_run_end(t, j) > j,
    decreases s.len() - i,
{
    lemma_word_run_end(s, i);
    lemma_word_run_end(t, j);
    let c = s[i];
    if i + 1 < s.len() && is_word_char(s[i + 1]) {
        lemma_no_lone_gap_s(s, i + 1, t, j + 1, false, c);
        lemma_word_runs_align(s, i + 1, t, j + 1);
        assert(s.subrange(i, word_run_end(s, i)) =~= seq![c] + s.subrange(
            i + 1,
            word_run_end(s, i + 1),
        ));
        assert(t.subrange(j, word_run_end(t, j)) =~= seq![c] + t.subrange(
            j + 1,
            word_run_end(t, j + 1),
        ));
    } else {
        if j + 1 < t.len() && is_word_char(t[j + 1]) {
            lemma_no_lone_gap_t(s, i + 1, t, j + 1, false, c);
            assert(false);
        }
        assert(word_run_end(s, i) == word_run_end(s, i + 1));
        assert(word_run_end(s, i + 1) == i + 1);
        assert(word_run_end(t, j) == word_run_end(t, j + 1));
        assert(word_run_end(t, j + 1) == j + 1);
        assert(s.subrange(i, i + 1) =~= seq![c]);
        assert(t.subrange(j, j + 1) =~= seq![c]);
    }
}

/// Aligned digits begin digit runs of equal content; afterwards either
/// both runs touch a word character (so neither parses as a constant) or
/// neither does, and the equivalence resumes.
proof fn lemma_digit_runs_align(s: Seq<char>, i: int, t: Seq<char>, j: int)
    requires
        0 <= i < s.len(),
        0 <= j < t.len(),
        s[i] == t[j],
        is_digit_char(s[i]),
        ws_equiv_from(s, i + 1, t, j + 1, false, false, Some(s[i])),
    ensures
        digit_run_end(s, i) - i == digit_run_end(t, j) - j,
        s.subrange(i, digit_run_end(s, i)) == t.subrange(j, digit_run_end(t, j)),
        ws_equiv_from(
            s,
            digit_run_end(s, i),
            t,
            digit_run_end(t, j),
            false,
            false,
            Some(s[digit_run_end(s, i) - 1]),
        ),
        digit_run_end(s, i) > i,
        digit_run_end(t, j) > j,
        (digit_run_end(s, i) < s.len() && is_word_char(s[digit_run_end(s, i)])) <==> (
        digit_run_end(t, j) < t.len() && is_word_char(t[digit_run_end(t, j)])),
    decreases s.len() - i,
{
    lemma_digit_run_end(s, i);
    lemma_digit_run_end(t, j);
    let c = s[i];
    if i + 1 < s.len() && is_digit_char(s[i + 1]) {
        lemma_no_lone_gap_s(s, i + 1, t, j + 1, false, c);
        lemma_digit_runs_align(s, i + 1, t, j + 1);
        assert(s.subrange(i, digit_run_end(s, i)) =~= seq![c] + s.subrange(
            i + 1,
            digit_run_end(s, i + 1),
        ));
        assert(t.subrange(j, digit_run_end(t, j)) =~= seq![c] + t.subrange(
            j + 1,
            digit_run_end(t, j + 1),
        ));
    } else {
        if j + 1 < t.len() && is_digit_char(t[j + 1]) {
            lemma_no_lone_gap_t(s, i + 1, t, j + 1, false, c);
            assert(false);
        }
        assert(digit_run_end(s, i) == i + 1);
        assert(digit_run_end(t, j) == j + 1);
        assert(s.subrange(i, i + 1) =~= seq![c]);
        assert(t.subrange(j, j + 1) =~= seq![c]);
        // The boundary after the runs: a word character follows one run
        // exactly where one follows the other.
        if i + 1 < s.len() && is_word_char(s[i + 1]) {
            lemma_no_lone_gap_s(s, i + 1, t, j + 1, false, c);
        }
        if j + 1 < t.len() && is_word_char(t[j + 1]) {
            lemma_no_lone_gap_t(s, i + 1, t, j + 1, false, c);
        }
    }
}

proof fn lemma_cons_same_tokens(x: TokenModel, m1: LineModel, m2: LineModel)
    requires
        line_tokens_of(m1) == line_tokens_of(m2),
    ensures
        line_tokens_of(line_cons(x, m1)) == line_tokens_of(line_cons(x, m2)),
{
    match (m1, m2) {
        (LineModel::Tokens(ts1), LineModel::Tokens(ts2)) => {
            assert(ts1 == ts2);
        },
        _ => {},
    }
}

/// Equivalent suffixes scan to the same tokens, or both fail.
proof fn lemma_ws_equiv_same_tokens(
    s: Seq<char>,
    i: int,
    t: Seq<char>,
    j: int,
    gs: bool,
    gt: bool,
    prev: Option<char>,
)
    requires
        0 <= i <= s.len(),
        0 <= j <= t.len(),
        ws_equiv_from(s, i, t, j, gs, gt, prev),
    ensures
        line_tokens_of(lex_line_from(s, i)) == line_tokens_of(lex_line_from(t, j)),
    decreases (s.len() - i) + (t.len() - j),
{
    if i >= s.len() && j >= t.len() {
        // Both sides are done.
    } else if i < s.len() && is_space_char(s[i]) {
        lemma_ws_equiv_same_tokens(s, i + 1, t, j, true, gt, prev);
    } else if j < t.len() && is_space_char(t[j]) {
        lemma_ws_equiv_same_tokens(s, i, t, j + 1, gs, true, prev);
    } else {
        assert(i < s.len() && j < t.len() && s[i] == t[j]);
        let c = s[i];
        if is_word_start_char(c) {
            lemma_word_run_end(s, i);
            lemma_word_run_end(t, j);
            lemma_word_runs_align(s, i, t, j);
            let wi = word_run_end(s, i);
            let wj = word_run_end(t, j);
            lemma_ws_equiv_same_tokens(s, wi, t, wj, false, false, Some(s[wi - 1]));
            lemma_cons_same_tokens(
                spec_classify_word(s.subrange(i, wi)),
                lex_line_from(s, wi),
                lex_line_from(t, wj),
            );
        } else if is_digit_char(c) {
            lemma_digit_run_end(s, i);
            lemma_digit_run_end(t, j);
            lemma_digit_runs_align(s, i, t, j);
            let di = digit_run_end(s, i);
            let dj = digit_run_end(t, j);
            if di < s.len() && is_word_char(s[di]) {
                // Both runs touch a word character: no rule matches on
                // either side.
            } else if digits_value(s.subrange(i, di)) > i32::MAX {
                // The same literal overflows on both sides.
            } else {
                lemma_ws_equiv_same_tokens(s, di, t, dj, false, false, Some(s[di - 1]));
                lemma_cons_same_tokens(
                    TokenModel::Constant(digits_value(s.subrange(i, di))),
                    lex_line_from(s, di),
                    lex_line_from(t, dj),
                );
            }
        } else if is_punct_char(c) {
            lemma_ws_equiv_same_tokens(s, i + 1, t, j + 1, false, false, Some(c));
            lemma_cons_same_tokens(
                TokenModel::Punctuators(seq![c]),
                lex_line_from(s, i + 1),
                lex_line_from(t, j + 1),
            );
        } else {
            // No rule matches the character on either side.
        }
    }
}

/// Two lines that spell the same tokens and differ only in whitespace
/// runs.
pub open spec fn whitespace_equivalent(s: Seq<char>, t: Seq<char>) -> bool {
    ws_equiv_from(s, 0, t, 0, false, false, None)
}

/// Law: whitespace-insensitivity.  Two lines whose non-whitespace
/// characters agree, and which separate word characters with whitespace in
/// the same places, scan to identical token sequences — or both fail.
pub proof fn lemma_whitespace_insensitive(s: Seq<char>, t: Seq<char>)
    requires
        whitespace_equivalent(s, t),
    ensures
        line_tokens_of(lex_line_model(s)) == line_tokens_of(lex_line_model(t)),
{
    lemma_ws_equiv_same_tokens(s, 0, t, 0, false, false, None);
}

proof fn lemma_ws_file_from(a: Seq<Seq<char>>, b: Seq<Seq<char>>, k: int)
    requires
        a.len() == b.len(),
        0 <= k <= a.len(),
        forall|m: int| 0 <= m < a.len() ==> whitespace_equivalent(#[trigger] a[m], b[m]),
        scan_from(a, k) is Ok,
    ensures
        scan_from(b, k) == scan_from(a, k),
    decreases a.len() - k,
{
    if k < a.len() {
        lemma_whitespace_insensitive(a[k], b[k]);
        lemma_ws_file_from(a, b, k + 1);
    }
}

/// Law: whitespace-insensitivity of a whole scan.  Where two files pair
/// off line by line into whitespace-equivalent lines, and one of them
/// scans cleanly, both scan to the same token sequence.
pub proof fn lemma_whitespace_insensitive_file(a: Seq<Seq<char>>, b: Seq<Seq<char>>)
    requires
        a.len() == b.len(),
        forall|m: int| 0 <= m < a.len() ==> whitespace_equivalent(#[trigger] a[m], b[m]),
        scan_model(a) is Ok,
    ensures
        scan_model(b) == scan_model(a),
{
    lemma_ws_file_from(a, b, 0);
}

// ---------------------------------------------------------------------------
// Error line attribution
// ---------------------------------------------------------------------------

/// The 1-based line number an error cites.
pub open spec fn error_line(e: LexErrorModel) -> int {
    match e {
        LexErrorModel::UnrecognizedToken { line, .. } => line,
        LexErrorModel::InvalidConstant { line, .. } => line,
    }
}

proof fn lemma_error_line_from(lines: Seq<Seq<char>>, m: int, k: int)
    requires
        0 <= m <= k < lines.len(),
        forall|j: int| 0 <= j < k ==> #[trigger] lex_line_model(lines[j]) is Tokens,
        !(lex_line_model(lines[k]) is Tokens),
    ensures
        scan_from(lines, m) matches Err(e) && error_line(e) == k + 1,
    decreases k - m,
{
    if m < k {
        lemma_error_line_from(lines, m + 1, k);
    }
}

/// Law: when the first failing line of a file is line `k + 1` (1-based),
/// the scan's error cites exactly that line number.
pub proof fn lemma_error_line_attribution(lines: Seq<Seq<char>>, k: int)
    requires
        0 <= k < lines.len(),
        forall|j: int| 0 <= j < k ==> #[trigger] lex_line_model(lines[j]) is Tokens,
        !(lex_line_model(lines[k]) is Tokens),
    ensures
        scan_model(lines) matches Err(e) && error_line(e) == k + 1,
{
    lemma_error_line_from(lines, 0, k);
}

} // verus!
