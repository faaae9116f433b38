//! The scanner: one pass over the source, from text to tokens.

use crate::grammar::{
    digit_value, digit_values, emitted, end_marker, fraction_at, holds, is_alpha, is_alphanumeric,
    is_digit, lemma_line_bound, lemma_line_step, lemma_run_end, lemma_scan_step,
    lemma_segment_bounds, line_at, newlines_before, number_end, number_literal, reported,
    reports_of, run_end, scan, scan_reports, segment_at, segments, segments_from, tokens_of,
    word_type, Run, Segment,
};
use crate::lox::{error, State};
use crate::token::{Decimal, LiteralType, LiteralView, Token, TokenType, TokenView};
use vstd::prelude::*;
use vstd::string::{StrSliceExecFns, StringExecFns};

verus! {

/// A scanner over one source text.
///
/// It keeps the text as characters, where the token under way begins
/// (`start`), the next character to read (`current`), the line that `start`
/// is on, and the tokens found so far.
pub struct Scanner {
    chars: Vec<char>,
    start: usize,
    current: usize,
    line: usize,
    result: Vec<Token>,
}

/// What a `Scanner` stands for.
pub struct ScannerView {
    /// The text that is scanned.
    pub source: Seq<char>,
    /// How many characters have been read.
    pub current: nat,
    /// The number of the line that scanning has come to.
    pub line: nat,
    /// The tokens found so far.
    pub result: Seq<TokenView>,
}

impl View for Scanner {
    type V = ScannerView;

    closed spec fn view(&self) -> ScannerView {
        ScannerView {
            source: self.chars@,
            current: self.current as nat,
            line: self.line as nat,
            result: self.result.deep_view(),
        }
    }
}

impl Scanner {
    /// The scanner is between two segments of its text: its line counter is
    /// that of its position, and the tokens found so far, followed by the
    /// tokens of what is still to read, are the tokens of the text. The text
    /// is short enough for every line number to fit the counter.
    pub closed spec fn wf(&self) -> bool {
        &&& self.settled()
        &&& self.result.deep_view() + tokens_of(
            self.chars@,
            segments_from(self.chars@, self.current as int),
        ) == tokens_of(self.chars@, segments(self.chars@))
    }

    /// Nothing has been read yet.
    pub open spec fn is_fresh(&self) -> bool {
        self@.current == 0
    }

    /// The position lies within the text, and the line counter is that of
    /// the position.
    spec fn settled(&self) -> bool {
        &&& self.in_bounds()
        &&& self.line == line_at(self.chars@, self.current as int)
    }

    spec fn in_bounds(&self) -> bool {
        self.start <= self.current <= self.chars.len() < usize::MAX
    }

    /// Within a segment: the text, the beginning of the segment and the line
    /// counter are as they were in `old`.
    spec fn within(&self, old: &Scanner) -> bool {
        &&& self.chars@ == old.chars@
        &&& self.start == old.start
        &&& self.line == old.line
        &&& self.in_bounds()
    }

    /// Within a segment, and no token has been added since `old`.
    spec fn inside(&self, old: &Scanner) -> bool {
        &&& self.within(old)
        &&& self.result == old.result
    }

    /// A scanner at the beginning of `input`.
    pub fn new(input: &str) -> (scanner: Scanner)
        requires
            input@.len() < usize::MAX,
        ensures
            scanner@ == (ScannerView {
                source: input@,
                current: 0,
                line: 1,
                result: Seq::empty(),
            }),
            scanner.wf(),
    {
        let mut chars: Vec<char> = Vec::new();
        for c in it: input.chars()
            invariant
                chars@ == it.seq().take(it.index() as int),
                it.seq() == input@,
        {
            chars.push(c);
        }
        let scanner = Scanner { chars, start: 0, current: 0, line: 1, result: Vec::new() };
        proof {
            assert(chars@ =~= input@);
            assert(scanner.result.deep_view() =~= Seq::<TokenView>::empty());
        }
        scanner
    }

    /// Scans the rest of the text and returns the tokens of the whole text,
    /// closed by the end-of-input marker.
    ///
    /// Malformed text never stops the scan: it is reported to `state`, one
    /// line for each character that begins nothing and for a string literal
    /// that is never closed, and passed over. The flag of `state` is set if
    /// anything was reported and is otherwise left as it was.
    pub fn scan_tokens(&mut self, state: &mut State) -> (tokens: Vec<Token>)
        requires
            old(self).wf(),
        ensures
            tokens.deep_view() == scan(old(self)@.source),
            final(self).wf(),
            final(self)@.source == old(self)@.source,
            final(self)@.current == old(self)@.source.len(),
            final(self)@.line == line_at(old(self)@.source, old(self)@.source.len() as int),
            final(self)@.result == tokens_of(old(self)@.source, segments(old(self)@.source)),
            final(state)@.output == old(state)@.output + reports_of(
                old(self)@.source,
                segments_from(old(self)@.source, old(self)@.current as int),
            ),
            old(self).is_fresh() ==> final(state)@.output == old(state)@.output + scan_reports(
                old(self)@.source,
            ),
            final(state)@.has_error == (old(state)@.has_error || final(state)@.output.len() > old(
                state,
            )@.output.len()),
    {
        let ghost s = self.chars@;
        let ghost all_reports = state@.output + reports_of(
            s,
            segments_from(s, self.current as int),
        );
        while !self.at_end()
            invariant
                self.wf(),
                self.chars@ == s,
                state@.output + reports_of(s, segments_from(s, self.current as int))
                    == all_reports,
                state@.output.len() >= old(state)@.output.len(),
                state@.has_error == (old(state)@.has_error || state@.output.len() > old(
                    state,
                )@.output.len()),
            decreases self.chars.len() - self.current,
        {
            let ghost segment = segment_at(s, self.current as int);
            let ghost tokens_before = self.result.deep_view();
            proof {
                lemma_segment_bounds(s, self.current as int);
                lemma_scan_step(s, self.current as int);
            }
            self.start = self.current;
            self.scan_token(state);
            proof {
                let rest_tokens = tokens_of(s, segments_from(s, segment.end));
                assert(self.result.deep_view() + rest_tokens =~= tokens_before + (emitted(
                    s,
                    segment,
                ) + rest_tokens));
            }
        }
        let mut tokens = self.all_tokens();
        tokens.push(
            Token {
                token_type: TokenType::EndOfInput,
                lexeme: String::new(),
                literal: LiteralType::Nil,
                line: self.line,
            },
        );
        tokens
    }

    /// Reads the segment that begins at `start`, where the cursor stands:
    /// adds its token, or reports it, or passes over it.
    fn scan_token(&mut self, state: &mut State)
        requires
            old(self).in_bounds(),
            old(self).start == old(self).current,
            old(self).current < old(self).chars.len(),
            old(self).line == line_at(old(self).chars@, old(self).start as int),
        ensures
            final(self).settled(),
            final(self).chars@ == old(self).chars@,
            final(self).current == segment_at(old(self).chars@, old(self).start as int).end,
            final(self).result.deep_view() == old(self).result.deep_view() + emitted(
                old(self).chars@,
                segment_at(old(self).chars@, old(self).start as int),
            ),
            final(state)@.output == old(state)@.output + reported(
                old(self).chars@,
                segment_at(old(self).chars@, old(self).start as int),
            ),
            final(state)@.has_error == (old(state)@.has_error || reported(
                old(self).chars@,
                segment_at(old(self).chars@, old(self).start as int),
            ).len() > 0),
    {
        let ghost s = self.chars@;
        let ghost i = self.start as int;
        proof {
            lemma_line_bound(s, i);
            lemma_line_step(s, i);
        }
        let c = self.advance();
        match c {
            '(' => self.append_token(TokenType::LeftParen),
            ')' => self.append_token(TokenType::RightParen),
            '{' => self.append_token(TokenType::LeftBrace),
            '}' => self.append_token(TokenType::RightBrace),
            ',' => self.append_token(TokenType::Comma),
            '.' => self.append_token(TokenType::Dot),
            '-' => self.append_token(TokenType::Minus),
            '+' => self.append_token(TokenType::Plus),
            ';' => self.append_token(TokenType::Semicolon),
            '*' => self.append_token(TokenType::Star),
            '!' => {
                if self.next_is('=') {
                    self.append_token(TokenType::BangEqual);
                } else {
                    self.append_token(TokenType::Bang);
                }
            },
            '=' => {
                if self.next_is('=') {
                    self.append_token(TokenType::EqualEqual);
                } else {
                    self.append_token(TokenType::Equal);
                }
            },
            '<' => {
                if self.next_is('=') {
                    self.append_token(TokenType::LessEqual);
                } else {
                    self.append_token(TokenType::Less);
                }
            },
            '>' => {
                if self.next_is('=') {
                    self.append_token(TokenType::GreaterEqual);
                } else {
                    self.append_token(TokenType::Greater);
                }
            },
            '/' => {
                if self.next_is('/') {
                    self.skip_comment();
                } else {
                    self.append_token(TokenType::Slash);
                }
            },
            '"' => self.consume_string(state),
            '\n' => {
                self.line += 1;
            },
            ' ' | '\r' | '\t' => {},
            _ => {
                if self.is_digit(c) {
                    self.consume_number();
                } else if self.is_alpha(c) {
                    self.consume_identifier();
                } else {
                    let mut message = String::from_str("unexpected character: ");
                    message.push(c);
                    error(state, self.line, message.as_str());
                }
            },
        }
    }

    /// Consumes the next character if it is `c`, and says whether it did.
    fn next_is(&mut self, c: char) -> (matched: bool)
        requires
            old(self).in_bounds(),
        ensures
            matched == holds(old(self).chars@, old(self).current as int, c),
            final(self).inside(old(self)),
            final(self).current == old(self).current + if matched { 1int } else { 0int },
    {
        if self.at_end() || self.chars[self.current] != c {
            false
        } else {
            self.current += 1;
            true
        }
    }

    /// The next character, or the null character at the end of the text.
    fn peek(&self) -> (c: char)
        requires
            self.in_bounds(),
        ensures
            c == if self.current < self.chars.len() {
                self.chars@[self.current as int]
            } else {
                '\0'
            },
    {
        if self.at_end() {
            '\0'
        } else {
            self.chars[self.current]
        }
    }

    /// The character after the next, or the null character where the text
    /// ends before it.
    fn peek_next(&self) -> (c: char)
        requires
            self.in_bounds(),
        ensures
            c == if self.current + 1 < self.chars.len() {
                self.chars@[self.current + 1]
            } else {
                '\0'
            },
    {
        if self.current + 1 >= self.chars.len() {
            return '\0';
        }
        return self.chars[self.current + 1];
    }

    /// Consumes the next character and returns it.
    fn advance(&mut self) -> (c: char)
        requires
            old(self).in_bounds(),
            old(self).current < old(self).chars.len(),
        ensures
            c == old(self).chars@[old(self).current as int],
            final(self).inside(old(self)),
            final(self).current == old(self).current + 1,
    {
        let result = self.chars[self.current];
        self.current += 1;
        result
    }

    /// Whether the whole text has been read.
    fn at_end(&self) -> (end: bool)
        ensures
            end == (self.current >= self.chars.len()),
    {
        self.current >= self.chars.len()
    }

    /// Passes over the rest of a comment, up to but not including the
    /// newline that ends it.
    fn skip_comment(&mut self)
        requires
            old(self).in_bounds(),
            old(self).current == old(self).start + 2,
        ensures
            final(self).inside(old(self)),
            final(self).current == run_end(
                old(self).chars@,
                old(self).start + 2,
                Run::Comment,
            ),
            newlines_before(old(self).chars@, final(self).current as int) == newlines_before(
                old(self).chars@,
                old(self).current as int,
            ),
    {
        while self.peek() != '\n' && !self.at_end()
            invariant
                self.inside(old(self)),
                old(self).current <= self.current,
                run_end(self.chars@, self.current as int, Run::Comment) == run_end(
                    self.chars@,
                    old(self).start + 2,
                    Run::Comment,
                ),
                newlines_before(self.chars@, self.current as int) == newlines_before(
                    self.chars@,
                    old(self).current as int,
                ),
            decreases self.chars.len() - self.current,
        {
            self.advance();
        }
    }

    /// Reads the rest of a string literal, whose opening quote has just been
    /// consumed. Where the closing quote is there, the token is added, with
    /// the text between the quotes as its value; where it is not, that is
    /// reported for the line on which the text ends.
    fn consume_string(&mut self, state: &mut State)
        requires
            old(self).in_bounds(),
            old(self).current == old(self).start + 1,
            old(self).chars@[old(self).start as int] == '"',
            old(self).line == line_at(old(self).chars@, old(self).start as int),
        ensures
            final(self).settled(),
            final(self).chars@ == old(self).chars@,
            final(self).current == segment_at(old(self).chars@, old(self).start as int).end,
            final(self).result.deep_view() == old(self).result.deep_view() + emitted(
                old(self).chars@,
                segment_at(old(self).chars@, old(self).start as int),
            ),
            final(state)@.output == old(state)@.output + reported(
                old(self).chars@,
                segment_at(old(self).chars@, old(self).start as int),
            ),
            final(state)@.has_error == (old(state)@.has_error || reported(
                old(self).chars@,
                segment_at(old(self).chars@, old(self).start as int),
            ).len() > 0),
    {
        let ghost s = self.chars@;
        let ghost i = self.start as int;
        let mut newlines: usize = 0;
        while self.peek() != '"' && !self.at_end()
            invariant
                self.inside(old(self)),
                old(self).current <= self.current,
                run_end(s, self.current as int, Run::Quoted) == run_end(s, i + 1, Run::Quoted),
                newlines_before(s, i) + newlines == newlines_before(s, self.current as int),
                s == old(self).chars@,
                i == old(self).start,
            decreases self.chars.len() - self.current,
        {
            proof {
                lemma_line_bound(s, self.current + 1);
            }
            if self.peek() == '\n' {
                newlines += 1;
            }
            self.advance();
        }
        proof {
            lemma_line_bound(s, self.current as int);
        }
        if self.at_end() {
            self.line += newlines;
            error(state, self.line, "unterminated string");
            return ;
        }
        self.advance();
        let value = self.text(self.start + 1, self.current - 1);
        self.append_token_literal(TokenType::String, LiteralType::StringLiteral(value));
        self.line += newlines;
    }

    /// Reads the rest of a numeric literal, whose first digit has just been
    /// consumed, and adds its token. A point belongs to the number only
    /// where a digit follows it.
    fn consume_number(&mut self)
        requires
            old(self).in_bounds(),
            old(self).current == old(self).start + 1,
            is_digit(old(self).chars@[old(self).start as int]),
        ensures
            final(self).within(old(self)),
            final(self).current == number_end(old(self).chars@, old(self).start as int),
            newlines_before(old(self).chars@, final(self).current as int) == newlines_before(
                old(self).chars@,
                old(self).start as int,
            ),
            final(self).result.deep_view() == old(self).result.deep_view().push(
                TokenView {
                    token_type: TokenType::Number,
                    lexeme: old(self).chars@.subrange(
                        old(self).start as int,
                        final(self).current as int,
                    ),
                    literal: number_literal(
                        old(self).chars@,
                        old(self).start as int,
                        final(self).current as int,
                    ),
                    line: old(self).line as nat,
                },
            ),
    {
        let ghost s = self.chars@;
        self.skip_digits();
        let point = self.current;
        if self.peek() == '.' && self.is_digit(self.peek_next()) {
            // Consume the point.
            self.advance();
            self.skip_digits();
        }
        proof {
            if fraction_at(s, point as int) {
                lemma_run_end(s, point + 2, Run::Digits);
            }
        }
        let number = self.decode(point);
        self.append_token_literal(TokenType::Number, LiteralType::NumberLiteral(number));
    }

    /// Passes over the digits that follow.
    fn skip_digits(&mut self)
        requires
            old(self).in_bounds(),
        ensures
            final(self).inside(old(self)),
            final(self).current == run_end(
                old(self).chars@,
                old(self).current as int,
                Run::Digits,
            ),
            newlines_before(old(self).chars@, final(self).current as int) == newlines_before(
                old(self).chars@,
                old(self).current as int,
            ),
    {
        while self.is_digit(self.peek())
            invariant
                self.inside(old(self)),
                old(self).current <= self.current,
                run_end(self.chars@, self.current as int, Run::Digits) == run_end(
                    self.chars@,
                    old(self).current as int,
                    Run::Digits,
                ),
                newlines_before(self.chars@, self.current as int) == newlines_before(
                    self.chars@,
                    old(self).current as int,
                ),
            decreases self.chars.len() - self.current,
        {
            self.advance();
        }
    }

    /// The value of the numeric literal that lies from `start` to the
    /// cursor, with its point at `point` if it has one and `point` at the
    /// cursor if it has none.
    fn decode(&self, point: usize) -> (number: Decimal)
        requires
            self.in_bounds(),
            self.start <= point <= self.current,
            point == run_end(self.chars@, self.start as int, Run::Digits),
            forall|k: int| point < k < self.current ==> is_digit(#[trigger] self.chars@[k]),
        ensures
            LiteralType::NumberLiteral(number)@ == number_literal(
                self.chars@,
                self.start as int,
                self.current as int,
            ),
    {
        let ghost s = self.chars@;
        proof {
            lemma_run_end(s, self.start as int, Run::Digits);
        }
        let mut digits: Vec<u8> = Vec::new();
        let mut k = self.start;
        while k < point
            invariant
                self.start <= k <= point <= self.current <= self.chars.len(),
                s == self.chars@,
                forall|j: int| self.start <= j < point ==> is_digit(#[trigger] s[j]),
                digits@ == digit_values(s.subrange(self.start as int, k as int)),
            decreases point - k,
        {
            digits.push(Self::digit(self.chars[k]));
            k += 1;
        }
        if point == self.current {
            return Decimal { digits, scale: 0 };
        }
        let ghost whole = s.subrange(self.start as int, point as int);
        let mut k = point + 1;
        while k < self.current
            invariant
                point < k <= self.current <= self.chars.len(),
                s == self.chars@,
                whole == s.subrange(self.start as int, point as int),
                forall|j: int| point < j < self.current ==> is_digit(#[trigger] s[j]),
                digits@ == digit_values(whole + s.subrange(point + 1, k as int)),
            decreases self.current - k,
        {
            digits.push(Self::digit(self.chars[k]));
            k += 1;
        }
        Decimal { digits, scale: self.current - point - 1 }
    }

    /// The number that the digit `c` stands for.
    fn digit(c: char) -> (d: u8)
        requires
            is_digit(c),
        ensures
            d == digit_value(c),
    {
        ((c as u32) - ('0' as u32)) as u8
    }

    /// Reads the rest of a word, whose first character has just been
    /// consumed, and adds its token: that of the keyword which it spells, or
    /// else an identifier.
    fn consume_identifier(&mut self)
        requires
            old(self).in_bounds(),
            old(self).current == old(self).start + 1,
        ensures
            final(self).within(old(self)),
            final(self).current == run_end(old(self).chars@, old(self).start + 1, Run::Word),
            newlines_before(old(self).chars@, final(self).current as int) == newlines_before(
                old(self).chars@,
                old(self).current as int,
            ),
            final(self).result.deep_view() == old(self).result.deep_view().push(
                TokenView {
                    token_type: word_type(
                        old(self).chars@.subrange(
                            old(self).start as int,
                            final(self).current as int,
                        ),
                    ),
                    lexeme: old(self).chars@.subrange(
                        old(self).start as int,
                        final(self).current as int,
                    ),
                    literal: LiteralView::Nil,
                    line: old(self).line as nat,
                },
            ),
    {
        while self.is_alphanumeric(self.peek())
            invariant
                self.inside(old(self)),
                old(self).current <= self.current,
                run_end(self.chars@, self.current as int, Run::Word) == run_end(
                    self.chars@,
                    old(self).start + 1,
                    Run::Word,
                ),
                newlines_before(self.chars@, self.current as int) == newlines_before(
                    self.chars@,
                    old(self).current as int,
                ),
            decreases self.chars.len() - self.current,
        {
            self.advance();
        }
        let token_type = self.word_type();
        self.append_token(token_type);
    }

    /// The category of the word that lies from `start` to the cursor.
    fn word_type(&self) -> (token_type: TokenType)
        requires
            self.in_bounds(),
        ensures
            token_type == word_type(
                self.chars@.subrange(self.start as int, self.current as int),
            ),
    {
        if self.spells("and") {
            TokenType::And
        } else if self.spells("class") {
            TokenType::Class
        } else if self.spells("else") {
            TokenType::Else
        } else if self.spells("false") {
            TokenType::False
        } else if self.spells("fun") {
            TokenType::Fun
        } else if self.spells("for") {
            TokenType::For
        } else if self.spells("if") {
            TokenType::If
        } else if self.spells("nil") {
            TokenType::Nil
        } else if self.spells("or") {
            TokenType::Or
        } else if self.spells("print") {
            TokenType::Print
        } else if self.spells("return") {
            TokenType::Return
        } else if self.spells("super") {
            TokenType::Super
        } else if self.spells("this") {
            TokenType::This
        } else if self.spells("true") {
            TokenType::True
        } else if self.spells("var") {
            TokenType::Var
        } else if self.spells("while") {
            TokenType::While
        } else {
            TokenType::Identifier
        }
    }

    /// Whether the text from `start` to the cursor is exactly `word`.
    fn spells(&self, word: &str) -> (same: bool)
        requires
            self.in_bounds(),
        ensures
            same == (self.chars@.subrange(self.start as int, self.current as int) == word@),
    {
        let ghost lexeme = self.chars@.subrange(self.start as int, self.current as int);
        let length = word.unicode_len();
        if self.current - self.start != length {
            return false;
        }
        let mut k: usize = 0;
        while k < length
            invariant
                self.in_bounds(),
                self.current - self.start == length == word@.len(),
                k <= length,
                lexeme == self.chars@.subrange(self.start as int, self.current as int),
                forall|j: int| 0 <= j < k ==> lexeme[j] == word@[j],
            decreases length - k,
        {
            if self.chars[self.start + k] != word.get_char(k) {
                return false;
            }
            k += 1;
        }
        proof {
            assert(lexeme =~= word@);
        }
        true
    }

    fn is_digit(&self, c: char) -> (digit: bool)
        ensures
            digit == is_digit(c),
    {
        '0' <= c && c <= '9'
    }

    fn is_alpha(&self, c: char) -> (alpha: bool)
        ensures
            alpha == is_alpha(c),
    {
        ('a' <= c && c <= 'z') || ('A' <= c && c <= 'Z') || c == '_'
    }

    fn is_alphanumeric(&self, c: char) -> (alphanumeric: bool)
        ensures
            alphanumeric == is_alphanumeric(c),
    {
        self.is_alpha(c) || self.is_digit(c)
    }

    /// The text from `from` up to but not including `to`.
    fn text(&self, from: usize, to: usize) -> (text: String)
        requires
            from <= to <= self.chars.len(),
        ensures
            text@ == self.chars@.subrange(from as int, to as int),
    {
        let mut text = String::new();
        let mut k = from;
        while k < to
            invariant
                from <= k <= to <= self.chars.len(),
                text@ == self.chars@.subrange(from as int, k as int),
            decreases to - k,
        {
            text.push(self.chars[k]);
            k += 1;
        }
        text
    }

    /// Adds a token without a value for the text from `start` to the cursor.
    fn append_token(&mut self, token_type: TokenType)
        requires
            old(self).in_bounds(),
        ensures
            final(self).chars@ == old(self).chars@,
            final(self).start == old(self).start,
            final(self).current == old(self).current,
            final(self).line == old(self).line,
            final(self).result.deep_view() == old(self).result.deep_view().push(
                TokenView {
                    token_type,
                    lexeme: old(self).chars@.subrange(
                        old(self).start as int,
                        old(self).current as int,
                    ),
                    literal: LiteralView::Nil,
                    line: old(self).line as nat,
                },
            ),
    {
        self.append_token_literal(token_type, LiteralType::Nil);
    }

    /// Adds a token with the given value for the text from `start` to the
    /// cursor, on the line of `start`.
    fn append_token_literal(&mut self, token_type: TokenType, literal: LiteralType)
        requires
            old(self).in_bounds(),
        ensures
            final(self).chars@ == old(self).chars@,
            final(self).start == old(self).start,
            final(self).current == old(self).current,
            final(self).line == old(self).line,
            final(self).result.deep_view() == old(self).result.deep_view().push(
                TokenView {
                    token_type,
                    lexeme: old(self).chars@.subrange(
                        old(self).start as int,
                        old(self).current as int,
                    ),
                    literal: literal@,
                    line: old(self).line as nat,
                },
            ),
    {
        let token = Token {
            token_type,
            lexeme: self.text(self.start, self.current),
            literal,
            line: self.line,
        };
        self.result.push(token);
    }

    /// A copy of the tokens found so far.
    fn all_tokens(&self) -> (tokens: Vec<Token>)
        ensures
            tokens.deep_view() == self.result.deep_view(),
    {
        let mut tokens: Vec<Token> = Vec::new();
        let mut k: usize = 0;
        while k < self.result.len()
            invariant
                k <= self.result.len(),
                tokens.len() == k,
                forall|j: int| 0 <= j < k ==> tokens@[j]@ == self.result@[j]@,
            decreases self.result.len() - k,
        {
            tokens.push(self.result[k].duplicate());
            k += 1;
        }
        tokens
    }
}

} // verus!
