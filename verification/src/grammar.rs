//! The lexical grammar, as a mathematical model.
//!
//! A source text is cut, from left to right, into segments that follow one
//! another without gap or overlap. A segment is either a lexeme, which
//! becomes a token, or text that the scanner passes over: blank space, a
//! comment, a character that starts nothing, a string literal that is never
//! closed. The tokens of a text are its lexemes in order, closed by the
//! end-of-input marker; its reports are the complaints about the two kinds
//! of malformed segments, in order.

use crate::lox::report_line;
use crate::token::{LiteralView, TokenType, TokenView};
use vstd::prelude::*;

verus! {

/// The ten decimal digits.
pub open spec fn is_digit(c: char) -> bool {
    '0' <= c && c <= '9'
}

/// Letters and the underscore: what an identifier may begin with.
pub open spec fn is_alpha(c: char) -> bool {
    ('a' <= c && c <= 'z') || ('A' <= c && c <= 'Z') || c == '_'
}

/// What an identifier may go on with.
pub open spec fn is_alphanumeric(c: char) -> bool {
    is_alpha(c) || is_digit(c)
}

/// Space, tab, carriage return and newline.
pub open spec fn is_blank(c: char) -> bool {
    c == ' ' || c == '\t' || c == '\r' || c == '\n'
}

/// The kinds of stretches that the scanner consumes greedily.
pub enum Run {
    /// Decimal digits.
    Digits,
    /// Letters, digits and underscores.
    Word,
    /// Anything up to the end of the line.
    Comment,
    /// Anything up to the next double quote.
    Quoted,
}

impl Run {
    /// Whether a stretch of this kind goes on over `c`.
    pub open spec fn admits(self, c: char) -> bool {
        match self {
            Run::Digits => is_digit(c),
            Run::Word => is_alphanumeric(c),
            Run::Comment => c != '\n',
            Run::Quoted => c != '"',
        }
    }
}

/// Where the longest stretch of kind `run` that begins at `i` ends: the first
/// position from `i` on that holds no admitted character, or the end of `s`.
pub open spec fn run_end(s: Seq<char>, i: int, run: Run) -> int
    decreases s.len() - i,
{
    if 0 <= i < s.len() && run.admits(s[i]) {
        run_end(s, i + 1, run)
    } else {
        i
    }
}

/// Whether position `i` of `s` holds the character `c`.
pub open spec fn holds(s: Seq<char>, i: int, c: char) -> bool {
    0 <= i < s.len() && s[i] == c
}

/// Whether a fractional part begins at `i`: a point with a digit behind it.
pub open spec fn fraction_at(s: Seq<char>, i: int) -> bool {
    holds(s, i, '.') && i + 1 < s.len() && is_digit(s[i + 1])
}

/// Where the numeric literal that begins at `i` ends. A point belongs to it
/// only where a digit follows the point.
pub open spec fn number_end(s: Seq<char>, i: int) -> int {
    let whole = run_end(s, i, Run::Digits);
    if fraction_at(s, whole) {
        run_end(s, whole + 2, Run::Digits)
    } else {
        whole
    }
}

/// The reserved word that `word` spells, if it is one.
pub open spec fn keyword(word: Seq<char>) -> Option<TokenType> {
    if word == "and"@ {
        Some(TokenType::And)
    } else if word == "class"@ {
        Some(TokenType::Class)
    } else if word == "else"@ {
        Some(TokenType::Else)
    } else if word == "false"@ {
        Some(TokenType::False)
    } else if word == "fun"@ {
        Some(TokenType::Fun)
    } else if word == "for"@ {
        Some(TokenType::For)
    } else if word == "if"@ {
        Some(TokenType::If)
    } else if word == "nil"@ {
        Some(TokenType::Nil)
    } else if word == "or"@ {
        Some(TokenType::Or)
    } else if word == "print"@ {
        Some(TokenType::Print)
    } else if word == "return"@ {
        Some(TokenType::Return)
    } else if word == "super"@ {
        Some(TokenType::Super)
    } else if word == "this"@ {
        Some(TokenType::This)
    } else if word == "true"@ {
        Some(TokenType::True)
    } else if word == "var"@ {
        Some(TokenType::Var)
    } else if word == "while"@ {
        Some(TokenType::While)
    } else {
        None
    }
}

/// The category of a word: its keyword, or else an identifier.
pub open spec fn word_type(word: Seq<char>) -> TokenType {
    match keyword(word) {
        Some(token_type) => token_type,
        None => TokenType::Identifier,
    }
}

/// What a segment of the source is.
pub enum Piece {
    /// Text that becomes a token of the given category.
    Lexeme(TokenType),
    /// One blank character.
    Blank,
    /// A comment, from its two slashes up to the end of the line.
    Comment,
    /// One character that begins nothing.
    Unexpected,
    /// A double quote with no partner, and all that follows it.
    Unterminated,
}

/// A stretch of the source, from `start` up to but not including `end`.
pub struct Segment {
    pub start: int,
    pub end: int,
    pub piece: Piece,
}

/// The segment of a one-character token.
pub open spec fn single(i: int, token_type: TokenType) -> Segment {
    Segment { start: i, end: i + 1, piece: Piece::Lexeme(token_type) }
}

/// The segment of an operator that an equals sign may lengthen: the longer
/// form wins wherever the equals sign is there.
pub open spec fn operator(s: Seq<char>, i: int, short: TokenType, long: TokenType) -> Segment {
    if holds(s, i + 1, '=') {
        Segment { start: i, end: i + 2, piece: Piece::Lexeme(long) }
    } else {
        single(i, short)
    }
}

/// The segment that begins at position `i` of `s`.
pub open spec fn segment_at(s: Seq<char>, i: int) -> Segment
    recommends
        0 <= i < s.len(),
{
    let c = s[i];
    if c == '(' {
        single(i, TokenType::LeftParen)
    } else if c == ')' {
        single(i, TokenType::RightParen)
    } else if c == '{' {
        single(i, TokenType::LeftBrace)
    } else if c == '}' {
        single(i, TokenType::RightBrace)
    } else if c == ',' {
        single(i, TokenType::Comma)
    } else if c == '.' {
        single(i, TokenType::Dot)
    } else if c == '-' {
        single(i, TokenType::Minus)
    } else if c == '+' {
        single(i, TokenType::Plus)
    } else if c == ';' {
        single(i, TokenType::Semicolon)
    } else if c == '*' {
        single(i, TokenType::Star)
    } else if c == '!' {
        operator(s, i, TokenType::Bang, TokenType::BangEqual)
    } else if c == '=' {
        operator(s, i, TokenType::Equal, TokenType::EqualEqual)
    } else if c == '<' {
        operator(s, i, TokenType::Less, TokenType::LessEqual)
    } else if c == '>' {
        operator(s, i, TokenType::Greater, TokenType::GreaterEqual)
    } else if c == '/' {
        if holds(s, i + 1, '/') {
            Segment { start: i, end: run_end(s, i + 2, Run::Comment), piece: Piece::Comment }
        } else {
            single(i, TokenType::Slash)
        }
    } else if is_digit(c) {
        Segment { start: i, end: number_end(s, i), piece: Piece::Lexeme(TokenType::Number) }
    } else if c == '"' {
        let close = run_end(s, i + 1, Run::Quoted);
        if close < s.len() {
            Segment { start: i, end: close + 1, piece: Piece::Lexeme(TokenType::String) }
        } else {
            Segment { start: i, end: close, piece: Piece::Unterminated }
        }
    } else if is_blank(c) {
        Segment { start: i, end: i + 1, piece: Piece::Blank }
    } else if is_alpha(c) {
        let end = run_end(s, i + 1, Run::Word);
        Segment { start: i, end, piece: Piece::Lexeme(word_type(s.subrange(i, end))) }
    } else {
        Segment { start: i, end: i + 1, piece: Piece::Unexpected }
    }
}

/// The segments of `s` from position `i` on.
pub open spec fn segments_from(s: Seq<char>, i: int) -> Seq<Segment>
    decreases s.len() - i,
    when 0 <= i
    via segments_from_terminates
{
    if i >= s.len() {
        Seq::empty()
    } else {
        seq![segment_at(s, i)] + segments_from(s, segment_at(s, i).end)
    }
}

#[via_fn]
proof fn segments_from_terminates(s: Seq<char>, i: int) {
    if i < s.len() {
        lemma_segment_bounds(s, i);
    }
}

/// The segments of the whole of `s`.
pub open spec fn segments(s: Seq<char>) -> Seq<Segment> {
    segments_from(s, 0)
}

/// How many newlines stand before position `i` of `s`.
pub open spec fn newlines_before(s: Seq<char>, i: int) -> nat
    decreases i,
{
    if i <= 0 || i > s.len() {
        0
    } else if s[i - 1] == '\n' {
        newlines_before(s, i - 1) + 1
    } else {
        newlines_before(s, i - 1)
    }
}

/// The number of the line that position `i` of `s` is on, counted from 1.
pub open spec fn line_at(s: Seq<char>, i: int) -> nat {
    newlines_before(s, i) + 1
}

/// The number that the digit `c` stands for.
pub open spec fn digit_value(c: char) -> u8 {
    (c as int - '0' as int) as u8
}

/// The numbers that the digits of `digits` stand for.
pub open spec fn digit_values(digits: Seq<char>) -> Seq<u8> {
    Seq::new(digits.len(), |i: int| digit_value(digits[i]))
}

/// The value of the numeric literal that lies from `start` to `end`.
pub open spec fn number_literal(s: Seq<char>, start: int, end: int) -> LiteralView {
    let point = run_end(s, start, Run::Digits);
    if point < end {
        LiteralView::Number {
            digits: digit_values(s.subrange(start, point) + s.subrange(point + 1, end)),
            scale: (end - point - 1) as nat,
        }
    } else {
        LiteralView::Number { digits: digit_values(s.subrange(start, end)), scale: 0 }
    }
}

/// The decoded value of the token that a segment becomes.
pub open spec fn literal_of(s: Seq<char>, segment: Segment) -> LiteralView {
    match segment.piece {
        Piece::Lexeme(TokenType::String) => LiteralView::Text(
            s.subrange(segment.start + 1, segment.end - 1),
        ),
        Piece::Lexeme(TokenType::Number) => number_literal(s, segment.start, segment.end),
        _ => LiteralView::Nil,
    }
}

/// The token that a lexeme of category `token_type` becomes.
pub open spec fn token_of(s: Seq<char>, segment: Segment, token_type: TokenType) -> TokenView {
    TokenView {
        token_type,
        lexeme: s.subrange(segment.start, segment.end),
        literal: literal_of(s, segment),
        line: line_at(s, segment.start),
    }
}

/// The marker that closes the tokens of `s`: it has no text and stands on
/// the last line.
pub open spec fn end_marker(s: Seq<char>) -> TokenView {
    TokenView {
        token_type: TokenType::EndOfInput,
        lexeme: Seq::empty(),
        literal: LiteralView::Nil,
        line: line_at(s, s.len() as int),
    }
}

/// What a segment adds to the tokens: one token where it is a lexeme,
/// nothing where it is not.
pub open spec fn emitted(s: Seq<char>, segment: Segment) -> Seq<TokenView> {
    match segment.piece {
        Piece::Lexeme(token_type) => seq![token_of(s, segment, token_type)],
        _ => Seq::empty(),
    }
}

/// The tokens that the lexemes among `segments` become, in order.
pub open spec fn tokens_of(s: Seq<char>, segments: Seq<Segment>) -> Seq<TokenView>
    decreases segments.len(),
{
    if segments.len() == 0 {
        Seq::empty()
    } else {
        tokens_of(s, segments.drop_last()) + emitted(s, segments.last())
    }
}

/// The complaint about a character that begins nothing.
pub open spec fn unexpected_message(c: char) -> Seq<char> {
    "unexpected character: "@.push(c)
}

/// The complaint about a string literal that is never closed.
pub open spec fn unterminated_message() -> Seq<char> {
    "unterminated string"@
}

/// What a segment adds to the reports: one line where it is malformed,
/// nothing where it is not. A character that begins nothing is reported on
/// its own line, a string that is never closed on the line where the source
/// ends.
pub open spec fn reported(s: Seq<char>, segment: Segment) -> Seq<Seq<char>> {
    match segment.piece {
        Piece::Unexpected => seq![
            report_line(
                line_at(s, segment.start),
                Seq::empty(),
                unexpected_message(s[segment.start]),
            ),
        ],
        Piece::Unterminated => seq![
            report_line(line_at(s, segment.end), Seq::empty(), unterminated_message()),
        ],
        _ => Seq::empty(),
    }
}

/// The reports on the malformed segments among `segments`, in order.
pub open spec fn reports_of(s: Seq<char>, segments: Seq<Segment>) -> Seq<Seq<char>>
    decreases segments.len(),
{
    if segments.len() == 0 {
        Seq::empty()
    } else {
        reports_of(s, segments.drop_last()) + reported(s, segments.last())
    }
}

/// The tokens of `s`: its lexemes in order, then the end-of-input marker.
pub open spec fn scan(s: Seq<char>) -> Seq<TokenView> {
    tokens_of(s, segments(s)).push(end_marker(s))
}

/// The reports that scanning `s` gives rise to.
pub open spec fn scan_reports(s: Seq<char>) -> Seq<Seq<char>> {
    reports_of(s, segments(s))
}

/// A stretch begins no earlier than where it is asked for, ends within the
/// text, holds only admitted characters, and stops only at one that is not.
pub proof fn lemma_run_end(s: Seq<char>, i: int, run: Run)
    requires
        0 <= i <= s.len(),
    ensures
        i <= run_end(s, i, run) <= s.len(),
        forall|k: int| i <= k < run_end(s, i, run) ==> run.admits(#[trigger] s[k]),
        run_end(s, i, run) < s.len() ==> !run.admits(s[run_end(s, i, run)]),
    decreases s.len() - i,
{
    if i < s.len() && run.admits(s[i]) {
        lemma_run_end(s, i + 1, run);
    }
}

/// Every segment is non-empty and lies within the text.
pub proof fn lemma_segment_bounds(s: Seq<char>, i: int)
    requires
        0 <= i < s.len(),
    ensures
        segment_at(s, i).start == i,
        i < segment_at(s, i).end <= s.len(),
{
    lemma_run_end(s, i, Run::Digits);
    lemma_run_end(s, i + 1, Run::Word);
    lemma_run_end(s, i + 1, Run::Quoted);
    if i + 2 <= s.len() {
        lemma_run_end(s, i + 2, Run::Comment);
    }
    let whole = run_end(s, i, Run::Digits);
    if whole + 2 <= s.len() {
        lemma_run_end(s, whole + 2, Run::Digits);
    }
}

/// The line number grows by one over a newline and stays over anything else.
pub proof fn lemma_line_step(s: Seq<char>, i: int)
    requires
        0 <= i < s.len(),
    ensures
        line_at(s, i + 1) == line_at(s, i) + if s[i] == '\n' { 1nat } else { 0nat },
{
}

/// No position is on a line beyond the number of characters before it, plus
/// one.
pub proof fn lemma_line_bound(s: Seq<char>, i: int)
    requires
        0 <= i <= s.len(),
    ensures
        line_at(s, i) <= i + 1,
    decreases i,
{
    if i > 0 {
        lemma_line_bound(s, i - 1);
    }
}

/// The tokens of two rows of segments, one after the other, are the tokens
/// of the first followed by the tokens of the second.
pub proof fn lemma_tokens_of_concat(s: Seq<char>, a: Seq<Segment>, b: Seq<Segment>)
    ensures
        tokens_of(s, a + b) == tokens_of(s, a) + tokens_of(s, b),
    decreases b.len(),
{
    if b.len() == 0 {
        assert(a + b =~= a);
        assert(tokens_of(s, a) + tokens_of(s, b) =~= tokens_of(s, a));
    } else {
        lemma_tokens_of_concat(s, a, b.drop_last());
        assert((a + b).drop_last() =~= a + b.drop_last());
        assert((a + b).last() == b.last());
        assert(tokens_of(s, a + b) =~= tokens_of(s, a) + tokens_of(s, b));
    }
}

/// The reports of two rows of segments, one after the other, are the
/// reports of the first followed by the reports of the second.
pub proof fn lemma_reports_of_concat(s: Seq<char>, a: Seq<Segment>, b: Seq<Segment>)
    ensures
        reports_of(s, a + b) == reports_of(s, a) + reports_of(s, b),
    decreases b.len(),
{
    if b.len() == 0 {
        assert(a + b =~= a);
        assert(reports_of(s, a) + reports_of(s, b) =~= reports_of(s, a));
    } else {
        lemma_reports_of_concat(s, a, b.drop_last());
        assert((a + b).drop_last() =~= a + b.drop_last());
        assert((a + b).last() == b.last());
        assert(reports_of(s, a + b) =~= reports_of(s, a) + reports_of(s, b));
    }
}

/// From a position inside the text, the tokens and reports are those of the
/// segment that begins there, followed by those of the rest.
pub proof fn lemma_scan_step(s: Seq<char>, i: int)
    requires
        0 <= i < s.len(),
    ensures
        tokens_of(s, segments_from(s, i)) == emitted(s, segment_at(s, i)) + tokens_of(
            s,
            segments_from(s, segment_at(s, i).end),
        ),
        reports_of(s, segments_from(s, i)) == reported(s, segment_at(s, i)) + reports_of(
            s,
            segments_from(s, segment_at(s, i).end),
        ),
{
    lemma_segment_bounds(s, i);
    let head = seq![segment_at(s, i)];
    let rest = segments_from(s, segment_at(s, i).end);
    lemma_tokens_of_concat(s, head, rest);
    lemma_reports_of_concat(s, head, rest);
    reveal_with_fuel(tokens_of, 2);
    reveal_with_fuel(reports_of, 2);
    assert(head.drop_last() =~= Seq::<Segment>::empty());
    assert(tokens_of(s, head) =~= emitted(s, segment_at(s, i)));
    assert(reports_of(s, head) =~= reported(s, segment_at(s, i)));
}

} // verus!
