//! Lexical analysis: classification of source characters, the ordered
//! pattern rules, and the scanner that turns source lines into tokens.
//!
//! The scanner works line by line.  At each position of a line it tries,
//! in priority order, four start-anchored recognizers: a whitespace run
//! (skipped, no token), an identifier-shaped word (a letter or underscore
//! followed by word characters), a decimal constant (a digit run that must
//! not be followed by a word character), and a single punctuator out of
//! `( ) { } ;`.  The first match wins; if none matches, the scan fails with
//! a diagnostic that cites the line number and the remaining text.

use vstd::prelude::*;

verus! {

// ---------------------------------------------------------------------------
// Character classification
// ---------------------------------------------------------------------------

/// A whitespace character: the ASCII blank, tab, line and form feeds.
pub open spec fn is_space_char(c: char) -> bool {
    c == ' ' || c == '\t' || c == '\n' || c == '\r' || c == '\u{b}' || c == '\u{c}'
}

/// An ASCII letter.
pub open spec fn is_letter_char(c: char) -> bool {
    ('a' <= c && c <= 'z') || ('A' <= c && c <= 'Z')
}

/// A character that may begin an identifier: a letter or an underscore.
pub open spec fn is_word_start_char(c: char) -> bool {
    is_letter_char(c) || c == '_'
}

/// A decimal digit.
pub open spec fn is_digit_char(c: char) -> bool {
    '0' <= c && c <= '9'
}

/// A character that may continue an identifier: a letter, digit or underscore.
pub open spec fn is_word_char(c: char) -> bool {
    is_word_start_char(c) || is_digit_char(c)
}

/// A recognized structural symbol.
pub open spec fn is_punct_char(c: char) -> bool {
    c == '(' || c == ')' || c == '{' || c == '}' || c == ';'
}

// ---------------------------------------------------------------------------
// Tokens
// ---------------------------------------------------------------------------

/// A reserved word of the grammar, distinguished from ordinary identifiers
/// by exact string match against a closed table.
#[derive(Debug, Clone, Copy, PartialEq, Eq, Structural)]
pub enum Keyword {
    Int,
    Return,
}

/// One lexical unit of source text.
#[derive(Debug)]
pub enum Token {
    Identifier(String),
    Constant(i32),
    Keywords(Keyword),
    Punctuators(String),
}

/// The mathematical value of a [`Token`]: its lexeme as a character
/// sequence, or its numeric value.
pub ghost enum TokenModel {
    Identifier(Seq<char>),
    Constant(int),
    Keywords(Keyword),
    Punctuators(Seq<char>),
}

impl View for Token {
    type V = TokenModel;

    open spec fn view(&self) -> TokenModel {
        match self {
            Token::Identifier(s) => TokenModel::Identifier(s@),
            Token::Constant(v) => TokenModel::Constant(*v as int),
            Token::Keywords(k) => TokenModel::Keywords(*k),
            Token::Punctuators(s) => TokenModel::Punctuators(s@),
        }
    }
}

impl DeepView for Token {
    type V = TokenModel;

    open spec fn deep_view(&self) -> TokenModel {
        self.view()
    }
}

impl PartialEq for Token {
    fn eq(&self, other: &Token) -> bool {
        match (self, other) {
            (Token::Identifier(a), Token::Identifier(b)) => *a == *b,
            (Token::Constant(a), Token::Constant(b)) => *a == *b,
            (Token::Keywords(a), Token::Keywords(b)) => *a == *b,
            (Token::Punctuators(a), Token::Punctuators(b)) => *a == *b,
            _ => false,
        }
    }
}

impl vstd::std_specs::cmp::PartialEqSpecImpl for Token {
    open spec fn obeys_eq_spec() -> bool {
        true
    }

    open spec fn eq_spec(&self, other: &Token) -> bool {
        self@ == other@
    }
}

/// The keyword spelled by `s`, if any.  Keywords are recognized by exact
/// match, never by pattern shape.
pub open spec fn spec_keyword_of(s: Seq<char>) -> Option<Keyword> {
    if s =~= seq!['i', 'n', 't'] {
        Some(Keyword::Int)
    } else if s =~= seq!['r', 'e', 't', 'u', 'r', 'n'] {
        Some(Keyword::Return)
    } else {
        None
    }
}

/// The token an identifier-shaped lexeme is classified as: the matching
/// keyword where one exists, and an identifier otherwise.
pub open spec fn spec_classify_word(s: Seq<char>) -> TokenModel {
    match spec_keyword_of(s) {
        Some(k) => TokenModel::Keywords(k),
        None => TokenModel::Identifier(s),
    }
}

// ---------------------------------------------------------------------------
// Maximal runs
// ---------------------------------------------------------------------------

/// The end of the maximal run of whitespace characters beginning at `i`.
pub open spec fn space_run_end(s: Seq<char>, i: int) -> int
    decreases s.len() - i,
{
    if 0 <= i < s.len() && is_space_char(s[i]) {
        space_run_end(s, i + 1)
    } else {
        i
    }
}

/// The end of the maximal run of word characters beginning at `i`.
pub open spec fn word_run_end(s: Seq<char>, i: int) -> int
    decreases s.len() - i,
{
    if 0 <= i < s.len() && is_word_char(s[i]) {
        word_run_end(s, i + 1)
    } else {
        i
    }
}

/// The end of the maximal run of digits beginning at `i`.
pub open spec fn digit_run_end(s: Seq<char>, i: int) -> int
    decreases s.len() - i,
{
    if 0 <= i < s.len() && is_digit_char(s[i]) {
        digit_run_end(s, i + 1)
    } else {
        i
    }
}

/// A maximal whitespace run stays inside the line, consists of whitespace,
/// and is not followed by whitespace.
pub proof fn lemma_space_run_end(s: Seq<char>, i: int)
    requires
        0 <= i <= s.len(),
    ensures
        i <= space_run_end(s, i) <= s.len(),
        forall|k: int| i <= k < space_run_end(s, i) ==> is_space_char(s[k]),
        space_run_end(s, i) < s.len() ==> !is_space_char(s[space_run_end(s, i)]),
    decreases s.len() - i,
{
    if i < s.len() && is_space_char(s[i]) {
        lemma_space_run_end(s, i + 1);
    }
}

/// A maximal word-character run stays inside the line, consists of word
/// characters, and is not followed by a word character.
pub proof fn lemma_word_run_end(s: Seq<char>, i: int)
    requires
        0 <= i <= s.len(),
    ensures
        i <= word_run_end(s, i) <= s.len(),
        forall|k: int| i <= k < word_run_end(s, i) ==> is_word_char(s[k]),
        word_run_end(s, i) < s.len() ==> !is_word_char(s[word_run_end(s, i)]),
    decreases s.len() - i,
{
    if i < s.len() && is_word_char(s[i]) {
        lemma_word_run_end(s, i + 1);
    }
}

/// A maximal digit run stays inside the line, consists of digits, and is
/// not followed by a digit.
pub proof fn lemma_digit_run_end(s: Seq<char>, i: int)
    requires
        0 <= i <= s.len(),
    ensures
        i <= digit_run_end(s, i) <= s.len(),
        forall|k: int| i <= k < digit_run_end(s, i) ==> is_digit_char(s[k]),
        digit_run_end(s, i) < s.len() ==> !is_digit_char(s[digit_run_end(s, i)]),
    decreases s.len() - i,
{
    if i < s.len() && is_digit_char(s[i]) {
        lemma_digit_run_end(s, i + 1);
    }
}

// ---------------------------------------------------------------------------
// Numeric value of a digit run
// ---------------------------------------------------------------------------

/// The numeric value of a single decimal digit.
pub open spec fn digit_val(c: char) -> int {
    c as u32 - '0' as u32
}

/// The numeric value of a run of decimal digits, most significant first.
pub open spec fn digits_value(s: Seq<char>) -> int
    decreases s.len(),
{
    if s.len() == 0 {
        0
    } else {
        digits_value(s.drop_last()) * 10 + digit_val(s.last())
    }
}

/// The value of a digit run is never negative.
pub proof fn lemma_digits_value_nonneg(s: Seq<char>)
    requires
        forall|k: int| 0 <= k < s.len() ==> is_digit_char(s[k]),
    ensures
        digits_value(s) >= 0,
    decreases s.len(),
{
    if s.len() > 0 {
        lemma_digits_value_nonneg(s.drop_last());
    }
}

// ---------------------------------------------------------------------------
// The line model: what scanning one line means
// ---------------------------------------------------------------------------

/// The outcome of scanning one line: its tokens, or the position at which
/// no rule matched, or the bounds of a digit run whose value does not fit
/// the constant width.
pub ghost enum LineModel {
    Tokens(Seq<TokenModel>),
    NoRule { at: int },
    BadConstant { from: int, to: int },
}

/// Prepends a token to a successful line outcome; failures pass through.
pub open spec fn line_cons(t: TokenModel, m: LineModel) -> LineModel {
    match m {
        LineModel::Tokens(ts) => LineModel::Tokens(seq![t] + ts),
        LineModel::NoRule { at } => LineModel::NoRule { at },
        LineModel::BadConstant { from, to } => LineModel::BadConstant { from, to },
    }
}

/// The meaning of scanning line `s` from position `i` on: rules are tried
/// in priority order against the suffix.  Whitespace is skipped without a
/// token; a word run is classified as keyword or identifier; a digit run
/// must end at a non-word character and fit an `i32`; a punctuator stands
/// for itself.  Where no rule matches, the scan fails at `i`.
pub open spec fn lex_line_from(s: Seq<char>, i: int) -> LineModel
    decreases s.len() - i,
    when 0 <= i
    via lex_line_from_decreases
{
    if i >= s.len() {
        LineModel::Tokens(Seq::empty())
    } else if is_space_char(s[i]) {
        lex_line_from(s, i + 1)
    } else if is_word_start_char(s[i]) {
        let j = word_run_end(s, i);
        line_cons(spec_classify_word(s.subrange(i, j)), lex_line_from(s, j))
    } else if is_digit_char(s[i]) {
        let j = digit_run_end(s, i);
        if j < s.len() && is_word_char(s[j]) {
            LineModel::NoRule { at: i }
        } else if digits_value(s.subrange(i, j)) > i32::MAX {
            LineModel::BadConstant { from: i, to: j }
        } else {
            line_cons(TokenModel::Constant(digits_value(s.subrange(i, j))), lex_line_from(s, j))
        }
    } else if is_punct_char(s[i]) {
        line_cons(TokenModel::Punctuators(seq![s[i]]), lex_line_from(s, i + 1))
    } else {
        LineModel::NoRule { at: i }
    }
}

#[via_fn]
proof fn lex_line_from_decreases(s: Seq<char>, i: int) {
    if 0 <= i < s.len() {
        if !is_space_char(s[i]) && is_word_start_char(s[i]) {
            lemma_word_run_end(s, i);
        } else if !is_space_char(s[i]) && is_digit_char(s[i]) {
            lemma_digit_run_end(s, i);
        }
    }
}

/// The meaning of scanning a whole line.
pub open spec fn lex_line_model(s: Seq<char>) -> LineModel {
    lex_line_from(s, 0)
}

// ---------------------------------------------------------------------------
// The scan model: what scanning a whole file means
// ---------------------------------------------------------------------------

/// A structured scan failure: the kind of fault, the 1-based number of the
/// offending line, and the offending text (the unscanned remainder of the
/// line, or the malformed literal).
pub ghost enum LexErrorModel {
    UnrecognizedToken { line: int, col: int, text: Seq<char> },
    InvalidConstant { line: int, col: int, literal: Seq<char> },
}

/// The error reported for a failed line outcome `m` on the line numbered
/// `line_no` with content `s`.
pub open spec fn line_error_model(s: Seq<char>, line_no: int, m: LineModel) -> LexErrorModel
    recommends
        !(m is Tokens),
{
    match m {
        LineModel::NoRule { at } => LexErrorModel::UnrecognizedToken {
            line: line_no,
            col: at + 1,
            text: s.subrange(at, s.len() as int),
        },
        LineModel::BadConstant { from, to } => LexErrorModel::InvalidConstant {
            line: line_no,
            col: from + 1,
            literal: s.subrange(from, to),
        },
        LineModel::Tokens(_) => LexErrorModel::UnrecognizedToken {
            line: line_no,
            col: 1,
            text: s,
        },
    }
}

/// The meaning of scanning the lines from index `k` on: the concatenation,
/// in source order, of every line's tokens, or the first line's failure,
/// attributed to its 1-based line number.
pub open spec fn scan_from(lines: Seq<Seq<char>>, k: int) -> Result<Seq<TokenModel>, LexErrorModel>
    decreases lines.len() - k,
{
    if k < 0 || k >= lines.len() {
        Ok(Seq::empty())
    } else {
        match lex_line_model(lines[k]) {
            LineModel::Tokens(ts) => match scan_from(lines, k + 1) {
                Ok(rest) => Ok(ts + rest),
                Err(e) => Err(e),
            },
            m => Err(line_error_model(lines[k], k + 1, m)),
        }
    }
}

/// The meaning of scanning a whole file, given as its lines with the
/// terminators stripped.
pub open spec fn scan_model(lines: Seq<Seq<char>>) -> Result<Seq<TokenModel>, LexErrorModel> {
    scan_from(lines, 0)
}

fn space_char(c: char) -> (b: bool)
    ensures
        b == is_space_char(c),
{
    c == ' ' || c == '\t' || c == '\n' || c == '\r' || c == '\u{b}' || c == '\u{c}'
}

fn word_start_char(c: char) -> (b: bool)
    ensures
        b == is_word_start_char(c),
{
    ('a' <= c && c <= 'z') || ('A' <= c && c <= 'Z') || c == '_'
}

fn digit_char(c: char) -> (b: bool)
    ensures
        b == is_digit_char(c),
{
    '0' <= c && c <= '9'
}

fn word_char(c: char) -> (b: bool)
    ensures
        b == is_word_char(c),
{
    word_start_char(c) || digit_char(c)
}

fn punct_char(c: char) -> (b: bool)
    ensures
        b == is_punct_char(c),
{
    c == '(' || c == ')' || c == '{' || c == '}' || c == ';'
}

// ---------------------------------------------------------------------------
// Exec scanning of maximal runs
// ---------------------------------------------------------------------------

/// Scans the maximal run of word characters beginning at `i`.
fn scan_word_run(line: &str, n: usize, i: usize) -> (j: usize)
    requires
        n == line@.len(),
        i <= n,
    ensures
        j == word_run_end(line@, i as int),
        i <= j <= n,
{
    let mut j: usize = i;
    while j < n && word_char(line.get_char(j))
        invariant
            n == line@.len(),
            i <= j <= n,
            word_run_end(line@, i as int) == word_run_end(line@, j as int),
        decreases n - j,
    {
        j = j + 1;
    }
    proof {
        lemma_word_run_end(line@, j as int);
    }
    j
}

/// Scans the maximal run of decimal digits beginning at `i`.
fn scan_digit_run(line: &str, n: usize, i: usize) -> (j: usize)
    requires
        n == line@.len(),
        i <= n,
    ensures
        j == digit_run_end(line@, i as int),
        i <= j <= n,
{
    let mut j: usize = i;
    while j < n && digit_char(line.get_char(j))
        invariant
            n == line@.len(),
            i <= j <= n,
            digit_run_end(line@, i as int) == digit_run_end(line@, j as int),
        decreases n - j,
    {
        j = j + 1;
    }
    proof {
        lemma_digit_run_end(line@, j as int);
    }
    j
}

// ---------------------------------------------------------------------------
// Numeric parse
// ---------------------------------------------------------------------------

/// One scanning step extends the value by one digit.
proof fn lemma_digits_value_step(s: Seq<char>, from: int, k: int)
    requires
        0 <= from <= k < s.len(),
    ensures
        digits_value(s.subrange(from, k + 1)) == digits_value(s.subrange(from, k)) * 10
            + digit_val(s[k]),
{
    let t = s.subrange(from, k + 1);
    assert(t.drop_last() =~= s.subrange(from, k));
    assert(t.last() == s[k]);
}

/// The value of a digit run is at least the value of any of its prefixes.
proof fn lemma_digits_value_prefix_le(t: Seq<char>, m: int)
    requires
        0 <= m <= t.len(),
        forall|k: int| 0 <= k < t.len() ==> is_digit_char(t[k]),
    ensures
        digits_value(t.subrange(0, m)) <= digits_value(t),
    decreases t.len(),
{
    if m == t.len() {
        assert(t.subrange(0, m) =~= t);
    } else {
        let u = t.drop_last();
        assert(forall|k: int| 0 <= k < u.len() ==> is_digit_char(u[k]));
        lemma_digits_value_prefix_le(u, m);
        assert(t.subrange(0, m) =~= u.subrange(0, m));
        lemma_digits_value_nonneg(u);
        assert(digits_value(t) == digits_value(u) * 10 + digit_val(t.last()));
        assert(is_digit_char(t.last()));
        assert(digit_val(t.last()) >= 0);
        assert(digits_value(u) * 10 >= digits_value(u));
    }
}

/// Parses the digit run `line[from..to]` as an `i32` constant, most
/// significant digit first; reports `None` where the value does not fit.
fn parse_digits(line: &str, from: usize, to: usize) -> (r: Option<i32>)
    requires
        from <= to <= line@.len(),
        forall|k: int| from <= k < to ==> is_digit_char(line@[k]),
    ensures
        ({
            let v = digits_value(line@.subrange(from as int, to as int));
            match r {
                Some(x) => v <= i32::MAX && x as int == v,
                None => v > i32::MAX,
            }
        }),
{
    let ghost whole = line@.subrange(from as int, to as int);
    let mut acc: u64 = 0;
    let mut k: usize = from;
    while k < to
        invariant
            from <= k <= to <= line@.len(),
            forall|j: int| from <= j < to ==> is_digit_char(line@[j]),
            acc as int == digits_value(line@.subrange(from as int, k as int)),
            acc <= i32::MAX as u64,
            whole == line@.subrange(from as int, to as int),
        decreases to - k,
    {
        let c = line.get_char(k);
        proof {
            assert(is_digit_char(line@[k as int]));
        }
        let d: u32 = c as u32 - '0' as u32;
        let next: u64 = acc * 10 + d as u64;
        proof {
            lemma_digits_value_step(line@, from as int, k as int);
        }
        if next > i32::MAX as u64 {
            proof {
                assert(forall|j: int| 0 <= j < whole.len() ==> is_digit_char(whole[j]));
                lemma_digits_value_prefix_le(whole, k + 1 - from);
                assert(whole.subrange(0, k + 1 - from) =~= line@.subrange(
                    from as int,
                    k as int + 1,
                ));
            }
            return None;
        }
        acc = next;
        k = k + 1;
    }
    proof {
        assert(line@.subrange(from as int, k as int) == whole);
    }
    Some(acc as i32)
}

// ---------------------------------------------------------------------------
// Keyword resolution
// ---------------------------------------------------------------------------

/// Classifies an identifier-shaped lexeme: a token for the reserved word
/// it spells exactly, an identifier token otherwise.
pub fn match_identifier(s: &str) -> (t: Token)
    ensures
        t@ == spec_classify_word(s@),
{
    let n = s.unicode_len();
    if n == 3 && s.get_char(0) == 'i' && s.get_char(1) == 'n' && s.get_char(2) == 't' {
        proof {
            assert(s@ =~= seq!['i', 'n', 't']);
        }
        Token::Keywords(Keyword::Int)
    } else if n == 6 && s.get_char(0) == 'r' && s.get_char(1) == 'e' && s.get_char(2) == 't'
        && s.get_char(3) == 'u' && s.get_char(4) == 'r' && s.get_char(5) == 'n' {
        proof {
            assert(s@ =~= seq!['r', 'e', 't', 'u', 'r', 'n']);
        }
        Token::Keywords(Keyword::Return)
    } else {
        proof {
            assert(!(s@ =~= seq!['i', 'n', 't']));
            assert(!(s@ =~= seq!['r', 'e', 't', 'u', 'r', 'n']));
        }
        Token::Identifier(s.to_owned())
    }
}

// ---------------------------------------------------------------------------
// Scanning one line
// ---------------------------------------------------------------------------

/// A failure inside a single line, located by character offset.
#[derive(Debug, Clone, Copy, PartialEq, Eq, Structural)]
pub enum LineError {
    /// No rule matched at offset `at`.
    NoRule { at: usize },
    /// The digit run `[from, to)` does not fit the constant width.
    BadConstant { from: usize, to: usize },
}

/// Appends a successful line outcome to already-scanned tokens; failures
/// pass through.
pub open spec fn line_glue(prefix: Seq<TokenModel>, m: LineModel) -> LineModel {
    match m {
        LineModel::Tokens(ts) => LineModel::Tokens(prefix + ts),
        LineModel::NoRule { at } => LineModel::NoRule { at },
        LineModel::BadConstant { from, to } => LineModel::BadConstant { from, to },
    }
}

proof fn lemma_line_glue_empty(m: LineModel)
    ensures
        line_glue(Seq::empty(), m) == m,
{
    match m {
        LineModel::Tokens(ts) => {
            assert(Seq::empty() + ts =~= ts);
        },
        _ => {},
    }
}

proof fn lemma_line_glue_push(prefix: Seq<TokenModel>, t: TokenModel, m: LineModel)
    ensures
        line_glue(prefix, line_cons(t, m)) == line_glue(prefix.push(t), m),
{
    match m {
        LineModel::Tokens(ts) => {
            assert(prefix + (seq![t] + ts) =~= prefix.push(t) + ts);
        },
        _ => {},
    }
}

/// Scans one line, with the terminator stripped, into its tokens.
///
/// The rules are tried in priority order at each position: whitespace
/// (skipped), identifier-or-keyword, decimal constant, punctuator.  The
/// result is exactly what [`lex_line_model`] assigns to the line's
/// characters; a failure carries the offset it arose at.
pub fn lex_line(line: &str) -> (r: Result<Vec<Token>, LineError>)
    ensures
        ({
            match lex_line_model(line@) {
                LineModel::Tokens(ts) => r matches Ok(v) && v.deep_view() == ts,
                LineModel::NoRule { at } => r matches Err(LineError::NoRule { at: a })
                    && a as int == at,
                LineModel::BadConstant { from, to } => r matches Err(
                    LineError::BadConstant { from: f, to: t },
                ) && f as int == from && t as int == to,
            }
        }),
        r matches Err(LineError::NoRule { at }) ==> at < line@.len(),
        r matches Err(LineError::BadConstant { from, to }) ==> from < to <= line@.len(),
{
    let n = line.unicode_len();
    let mut toks: Vec<Token> = Vec::new();
    let mut i: usize = 0;
    proof {
        lemma_line_glue_empty(lex_line_from(line@, 0));
        assert(toks.deep_view() =~= Seq::<TokenModel>::empty());
    }
    while i < n
        invariant
            n == line@.len(),
            i <= n,
            lex_line_model(line@) == line_glue(
                toks.deep_view(),
                lex_line_from(line@, i as int),
            ),
        decreases n - i,
    {
        let ghost s = line@;
        let ghost prefix = toks.deep_view();
        let c = line.get_char(i);
        if space_char(c) {
            i = i + 1;
        } else if word_start_char(c) {
            let j = scan_word_run(line, n, i);
            proof {
                lemma_word_run_end(s, i as int);
            }
            let lexeme = line.substring_char(i, j);
            let tok = match_identifier(lexeme);
            proof {
                lemma_line_glue_push(
                    prefix,
                    spec_classify_word(s.subrange(i as int, j as int)),
                    lex_line_from(s, j as int),
                );
            }
            toks.push(tok);
            proof {
                assert(toks.deep_view() =~= prefix.push(
                    spec_classify_word(s.subrange(i as int, j as int)),
                ));
            }
            i = j;
        } else if digit_char(c) {
            let j = scan_digit_run(line, n, i);
            proof {
                lemma_digit_run_end(s, i as int);
            }
            if j < n && word_char(line.get_char(j)) {
                return Err(LineError::NoRule { at: i });
            }
            match parse_digits(line, i, j) {
                None => {
                    proof {
                        lemma_digit_run_end(s, i as int + 1);
                    }
                    return Err(LineError::BadConstant { from: i, to: j });
                },
                Some(v) => {
                    proof {
                        lemma_line_glue_push(
                            prefix,
                            TokenModel::Constant(digits_value(s.subrange(i as int, j as int))),
                            lex_line_from(s, j as int),
                        );
                    }
                    toks.push(Token::Constant(v));
                    proof {
                        assert(toks.deep_view() =~= prefix.push(
                            TokenModel::Constant(digits_value(s.subrange(i as int, j as int))),
                        ));
                    }
                    i = j;
                },
            }
        } else if punct_char(c) {
            let sym = line.substring_char(i, i + 1);
            proof {
                assert(s.subrange(i as int, i as int + 1) =~= seq![s[i as int]]);
                lemma_line_glue_push(
                    prefix,
                    TokenModel::Punctuators(seq![s[i as int]]),
                    lex_line_from(s, i as int + 1),
                );
            }
            toks.push(Token::Punctuators(sym.to_owned()));
            proof {
                assert(toks.deep_view() =~= prefix.push(
                    TokenModel::Punctuators(seq![s[i as int]]),
                ));
            }
            i = i + 1;
        } else {
            return Err(LineError::NoRule { at: i });
        }
    }
    proof {
        assert(toks.deep_view() + Seq::<TokenModel>::empty() =~= toks.deep_view());
    }
    Ok(toks)
}

// ---------------------------------------------------------------------------
// Scanning a whole file
// ---------------------------------------------------------------------------

/// A structured scan failure: the kind of fault, the 1-based number of the
/// offending line, and the offending text.
#[derive(Debug)]
pub enum LexError {
    /// No pattern rule matched; `text` is the unscanned remainder of the
    /// line, beginning at 1-based column `col`.
    UnrecognizedToken { line: usize, col: usize, text: String },
    /// The digit run `literal`, beginning at 1-based column `col`, does
    /// not parse as a constant of the chosen width.
    InvalidConstant { line: usize, col: usize, literal: String },
}

impl View for LexError {
    type V = LexErrorModel;

    open spec fn view(&self) -> LexErrorModel {
        match self {
            LexError::UnrecognizedToken { line, col, text } => LexErrorModel::UnrecognizedToken {
                line: *line as int,
                col: *col as int,
                text: text@,
            },
            LexError::InvalidConstant { line, col, literal } => LexErrorModel::InvalidConstant {
                line: *line as int,
                col: *col as int,
                literal: literal@,
            },
        }
    }
}

/// Appends a successful scan outcome to already-scanned tokens; failures
/// pass through.
pub open spec fn scan_glue(
    prefix: Seq<TokenModel>,
    m: Result<Seq<TokenModel>, LexErrorModel>,
) -> Result<Seq<TokenModel>, LexErrorModel> {
    match m {
        Ok(ts) => Ok(prefix + ts),
        Err(e) => Err(e),
    }
}

proof fn lemma_scan_glue_empty(m: Result<Seq<TokenModel>, LexErrorModel>)
    ensures
        scan_glue(Seq::empty(), m) == m,
{
    match m {
        Ok(ts) => {
            assert(Seq::empty() + ts =~= ts);
        },
        _ => {},
    }
}

proof fn lemma_scan_glue_concat(
    prefix: Seq<TokenModel>,
    ts: Seq<TokenModel>,
    m: Result<Seq<TokenModel>, LexErrorModel>,
)
    ensures
        ({
            match m {
                Ok(rest) => scan_glue(prefix, Ok(ts + rest)) == scan_glue(prefix + ts, m),
                Err(e) => scan_glue(prefix, m) == scan_glue(prefix + ts, m),
            }
        }),
{
    match m {
        Ok(rest) => {
            assert(prefix + (ts + rest) =~= (prefix + ts) + rest);
        },
        _ => {},
    }
}

/// Scans a source file, given as its lines with the terminators stripped,
/// into one ordered token sequence.
///
/// On success the sequence is exactly the concatenation, in source order,
/// of every line's tokens, with nothing for whitespace.  The first failing
/// line aborts the scan: the error carries its 1-based line number and the
/// offending text, and no tokens are returned.
pub fn lex(lines: &Vec<String>) -> (r: Result<Vec<Token>, LexError>)
    ensures
        ({
            match scan_model(lines.deep_view()) {
                Ok(ts) => r matches Ok(v) && v.deep_view() == ts,
                Err(e) => r matches Err(x) && x@ == e,
            }
        }),
{
    let ghost file = lines.deep_view();
    let mut toks: Vec<Token> = Vec::new();
    let mut k: usize = 0;
    proof {
        lemma_scan_glue_empty(scan_from(file, 0));
        assert(toks.deep_view() =~= Seq::<TokenModel>::empty());
    }
    while k < lines.len()
        invariant
            file == lines.deep_view(),
            k <= lines.len(),
            scan_model(file) == scan_glue(toks.deep_view(), scan_from(file, k as int)),
        decreases lines.len() - k,
    {
        let ghost prefix = toks.deep_view();
        let line = &lines[k];
        let n = line.as_str().unicode_len();
        proof {
            assert(file[k as int] == line@);
        }
        match lex_line(line.as_str()) {
            Ok(mut line_toks) => {
                let ghost ts = line_toks.deep_view();
                proof {
                    lemma_scan_glue_concat(prefix, ts, scan_from(file, k as int + 1));
                }
                toks.append(&mut line_toks);
                proof {
                    assert(toks.deep_view() =~= prefix + ts);
                }
                k = k + 1;
            },
            Err(LineError::NoRule { at }) => {
                let text = line.as_str().substring_char(at, n).to_owned();
                return Err(LexError::UnrecognizedToken { line: k + 1, col: at + 1, text });
            },
            Err(LineError::BadConstant { from, to }) => {
                let literal = line.as_str().substring_char(from, to).to_owned();
                return Err(LexError::InvalidConstant { line: k + 1, col: from + 1, literal });
            },
        }
    }
    Ok(toks)
}

} // verus!
