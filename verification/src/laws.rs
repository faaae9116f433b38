//! What holds of every scan, proved from the grammar.
//!
//! The executable scanner returns exactly `scan(source)`, so each statement
//! here holds of the tokens that it returns.

use crate::grammar::{
    emitted, end_marker, fraction_at, is_digit, lemma_run_end, lemma_segment_bounds, line_at,
    newlines_before, run_end, scan, segment_at, segments, segments_from, token_of, tokens_of, Run,
    Segment,
};
use crate::token::{LiteralView, TokenType, TokenView};
use vstd::prelude::*;

verus! {

/// The segments follow one another from `from` to `to` without gap or
/// overlap, and none is empty: the last one ends at `to`, and those before it
/// tile the text from `from` up to where the last one begins.
pub open spec fn tiles(segments: Seq<Segment>, from: int, to: int) -> bool
    decreases segments.len(),
{
    if segments.len() == 0 {
        from == to
    } else {
        &&& segments.last().start < segments.last().end
        &&& segments.last().end == to
        &&& tiles(segments.drop_last(), from, segments.last().start)
    }
}

/// The segments among `segments` that are lexemes, in order.
pub open spec fn lexemes(segments: Seq<Segment>) -> Seq<Segment>
    decreases segments.len(),
{
    if segments.len() == 0 {
        Seq::empty()
    } else if segments.last().piece is Lexeme {
        lexemes(segments.drop_last()).push(segments.last())
    } else {
        lexemes(segments.drop_last())
    }
}

/// The text put together again: for each lexeme among `segments` the text of
/// the next of `tokens`, and for each other segment the text of `s` that was
/// passed over there.
pub open spec fn reassembled(s: Seq<char>, segments: Seq<Segment>, tokens: Seq<TokenView>) -> Seq<
    char,
>
    decreases segments.len(),
{
    if segments.len() == 0 {
        Seq::empty()
    } else if segments.last().piece is Lexeme {
        reassembled(s, segments.drop_last(), tokens.drop_last()) + tokens.last().lexeme
    } else {
        reassembled(s, segments.drop_last(), tokens) + s.subrange(
            segments.last().start,
            segments.last().end,
        )
    }
}

/// The value of the token goes with its category. A string literal has the
/// text between its two quotes, which holds no quote itself. A numeric
/// literal has its digits, each from 0 to 9, in the order in which they are
/// written, at least one of them before the point; it is written with a point
/// exactly if digits stand behind it. Any other token has no value.
pub open spec fn literal_fits(token: TokenView) -> bool {
    match token.token_type {
        TokenType::String => {
            &&& token.literal matches LiteralView::Text(text)
            &&& token.lexeme == seq!['"'] + text + seq!['"']
            &&& !text.contains('"')
        },
        TokenType::Number => {
            &&& token.literal matches LiteralView::Number { digits, scale }
            &&& scale < digits.len()
            &&& token.lexeme.len() == digits.len() + if scale > 0 { 1nat } else { 0nat }
            &&& forall|k: int| 0 <= k < digits.len() ==> #[trigger] digits[k] <= 9
        },
        _ => token.literal == LiteralView::Nil,
    }
}

/// The number of newlines before a position grows with the position.
pub proof fn lemma_newlines_grow(s: Seq<char>, i: int, j: int)
    requires
        0 <= i <= j <= s.len(),
    ensures
        newlines_before(s, i) <= newlines_before(s, j),
    decreases j - i,
{
    if i < j {
        lemma_newlines_grow(s, i, j - 1);
    }
}

/// No tiling runs backwards, and one that has a segment covers some text.
pub proof fn lemma_tiles_extent(segments: Seq<Segment>, from: int, to: int)
    requires
        tiles(segments, from, to),
    ensures
        from <= to,
        segments.len() > 0 ==> from < to,
    decreases segments.len(),
{
    if segments.len() > 0 {
        lemma_tiles_extent(segments.drop_last(), from, segments.last().start);
    }
}

/// A segment put before a tiling that begins where it ends gives a tiling
/// that begins where it begins.
pub proof fn lemma_tiles_prepend(head: Segment, rest: Seq<Segment>, to: int)
    requires
        head.start < head.end,
        tiles(rest, head.end, to),
    ensures
        tiles(seq![head] + rest, head.start, to),
    decreases rest.len(),
{
    let all = seq![head] + rest;
    if rest.len() == 0 {
        assert(all.drop_last() =~= Seq::<Segment>::empty());
        assert(all.last() == head);
        assert(tiles(all.drop_last(), head.start, head.start));
    } else {
        lemma_tiles_prepend(head, rest.drop_last(), rest.last().start);
        assert(all.drop_last() =~= seq![head] + rest.drop_last());
        assert(all.last() == rest.last());
    }
}

/// From any position, the segments tile the rest of the text, and each is
/// the segment that the grammar puts at its beginning.
pub proof fn lemma_segments_from_tile(s: Seq<char>, i: int)
    requires
        0 <= i <= s.len(),
    ensures
        tiles(segments_from(s, i), i, s.len() as int),
        forall|k: int|
            0 <= k < segments_from(s, i).len() ==> {
                &&& i <= (#[trigger] segments_from(s, i)[k]).start < s.len()
                &&& segments_from(s, i)[k] == segment_at(s, segments_from(s, i)[k].start)
            },
    decreases s.len() - i,
{
    if i < s.len() {
        let head = segment_at(s, i);
        lemma_segment_bounds(s, i);
        lemma_segments_from_tile(s, head.end);
        let rest = segments_from(s, head.end);
        let all = segments_from(s, i);
        assert(all =~= seq![head] + rest);
        lemma_tiles_prepend(head, rest, s.len() as int);
        assert forall|k: int| 0 <= k < all.len() implies {
            &&& i <= (#[trigger] all[k]).start < s.len()
            &&& all[k] == segment_at(s, all[k].start)
        } by {
            if k > 0 {
                assert(all[k] == rest[k - 1]);
            }
        }
    }
}

/// Of a tiling of a stretch of `s`: its tokens are its lexemes, one for one
/// and in order; the lexemes lie within the stretch, each behind the one
/// before it; and the lines of the tokens lie between the lines of the two
/// ends of the stretch and never fall.
pub proof fn lemma_tokens_of_tiling(s: Seq<char>, segments: Seq<Segment>, from: int, to: int)
    requires
        tiles(segments, from, to),
        0 <= from,
        to <= s.len(),
    ensures
        tokens_of(s, segments).len() == lexemes(segments).len(),
        forall|k: int|
            0 <= k < lexemes(segments).len() ==> {
                &&& (#[trigger] lexemes(segments)[k]).piece is Lexeme
                &&& from <= lexemes(segments)[k].start < lexemes(segments)[k].end <= to
                &&& tokens_of(s, segments)[k] == token_of(
                    s,
                    lexemes(segments)[k],
                    lexemes(segments)[k].piece->Lexeme_0,
                )
            },
        forall|j: int, k: int|
            0 <= j < k < lexemes(segments).len() ==> (#[trigger] lexemes(segments)[j]).end <= (
            #[trigger] lexemes(segments)[k]).start,
        forall|k: int|
            0 <= k < tokens_of(s, segments).len() ==> line_at(s, from) <= (#[trigger] tokens_of(
                s,
                segments,
            )[k]).line <= line_at(s, to),
        forall|j: int, k: int|
            0 <= j <= k < tokens_of(s, segments).len() ==> (#[trigger] tokens_of(
                s,
                segments,
            )[j]).line <= (#[trigger] tokens_of(s, segments)[k]).line,
    decreases segments.len(),
{
    if segments.len() > 0 {
        let last = segments.last();
        let shorter = segments.drop_last();
        lemma_tiles_extent(shorter, from, last.start);
        lemma_tokens_of_tiling(s, shorter, from, last.start);
        lemma_newlines_grow(s, from, last.start);
        lemma_newlines_grow(s, last.start, to);
        let tokens = tokens_of(s, segments);
        let found = lexemes(segments);
        assert(tokens =~= tokens_of(s, shorter) + emitted(s, last));
        assert forall|k: int| 0 <= k < found.len() implies {
            &&& (#[trigger] found[k]).piece is Lexeme
            &&& from <= found[k].start < found[k].end <= to
            &&& tokens[k] == token_of(s, found[k], found[k].piece->Lexeme_0)
        } by {
            if k < lexemes(shorter).len() {
                assert(found[k] == lexemes(shorter)[k]);
                assert(tokens[k] == tokens_of(s, shorter)[k]);
            }
        }
        assert forall|j: int, k: int| 0 <= j < k < found.len() implies (#[trigger] found[j]).end
            <= (#[trigger] found[k]).start by {
            assert(found[j] == lexemes(shorter)[j]);
            if k < lexemes(shorter).len() {
                assert(found[k] == lexemes(shorter)[k]);
            }
        }
        assert forall|k: int| 0 <= k < tokens.len() implies line_at(s, from) <= (
        #[trigger] tokens[k]).line <= line_at(s, to) by {
            if k < tokens_of(s, shorter).len() {
                assert(tokens[k] == tokens_of(s, shorter)[k]);
            }
        }
        assert forall|j: int, k: int| 0 <= j <= k < tokens.len() implies (#[trigger] tokens[j]).line
            <= (#[trigger] tokens[k]).line by {
            if j < tokens_of(s, shorter).len() {
                assert(tokens[j] == tokens_of(s, shorter)[j]);
            }
            if k < tokens_of(s, shorter).len() {
                assert(tokens[k] == tokens_of(s, shorter)[k]);
            }
        }
    }
}

/// Of a tiling of a stretch of `s`: the texts of its tokens, with the text
/// passed over between them put back, make up the stretch.
pub proof fn lemma_reassembled_tiling(s: Seq<char>, segments: Seq<Segment>, from: int, to: int)
    requires
        tiles(segments, from, to),
        0 <= from,
        to <= s.len(),
    ensures
        from <= to,
        reassembled(s, segments, tokens_of(s, segments)) == s.subrange(from, to),
    decreases segments.len(),
{
    if segments.len() == 0 {
        assert(s.subrange(from, to) =~= Seq::<char>::empty());
    } else {
        let last = segments.last();
        let shorter = segments.drop_last();
        lemma_tiles_extent(shorter, from, last.start);
        lemma_reassembled_tiling(s, shorter, from, last.start);
        let tokens = tokens_of(s, segments);
        assert(tokens =~= tokens_of(s, shorter) + emitted(s, last));
        if last.piece is Lexeme {
            assert(tokens.drop_last() =~= tokens_of(s, shorter));
        } else {
            assert(tokens =~= tokens_of(s, shorter));
        }
        assert(s.subrange(from, last.start) + s.subrange(last.start, last.end) =~= s.subrange(
            from,
            to,
        ));
    }
}

/// The grammar cuts every text into segments that tile it from its first
/// character to its last, each being the segment that the grammar puts at
/// its beginning.
pub proof fn law_segments_tile(s: Seq<char>)
    ensures
        tiles(segments(s), 0, s.len() as int),
        forall|k: int|
            0 <= k < segments(s).len() ==> {
                &&& 0 <= (#[trigger] segments(s)[k]).start < s.len()
                &&& segments(s)[k] == segment_at(s, segments(s)[k].start)
            },
{
    lemma_segments_from_tile(s, 0);
}

/// The tokens of a text are its lexemes, one for one and in order, followed
/// by the end-of-input marker: each token has the category of its lexeme,
/// the text of its lexeme, and the line on which its lexeme begins.
pub proof fn law_tokens_are_lexemes(s: Seq<char>)
    ensures
        scan(s).len() == lexemes(segments(s)).len() + 1,
        scan(s).last() == end_marker(s),
        forall|k: int|
            0 <= k < lexemes(segments(s)).len() ==> {
                &&& (#[trigger] lexemes(segments(s))[k]).piece is Lexeme
                &&& scan(s)[k] == token_of(
                    s,
                    lexemes(segments(s))[k],
                    lexemes(segments(s))[k].piece->Lexeme_0,
                )
            },
        forall|j: int, k: int|
            0 <= j < k < lexemes(segments(s)).len() ==> (#[trigger] lexemes(segments(s))[j]).end
                <= (#[trigger] lexemes(segments(s))[k]).start,
{
    lemma_segments_from_tile(s, 0);
    lemma_tokens_of_tiling(s, segments(s), 0, s.len() as int);
    assert forall|k: int| 0 <= k < lexemes(segments(s)).len() implies scan(s)[k] == tokens_of(
        s,
        segments(s),
    )[k] by {}
}

/// The last token of every scan is the end-of-input marker, and no other
/// token is.
pub proof fn law_end_marker(s: Seq<char>)
    ensures
        scan(s).len() >= 1,
        scan(s).last().token_type == TokenType::EndOfInput,
        forall|k: int|
            0 <= k < scan(s).len() - 1 ==> (#[trigger] scan(s)[k]).token_type
                != TokenType::EndOfInput,
{
    lemma_segments_from_tile(s, 0);
    lemma_tokens_of_tiling(s, segments(s), 0, s.len() as int);
    let found = lexemes(segments(s));
    assert forall|k: int| 0 <= k < scan(s).len() - 1 implies (#[trigger] scan(s)[k]).token_type
        != TokenType::EndOfInput by {
        assert(scan(s)[k] == tokens_of(s, segments(s))[k]);
        lemma_lexemes_are_segments(segments(s), k);
        let n = choose|n: int| 0 <= n < segments(s).len() && segments(s)[n] == found[k];
        assert(segments(s)[n] == segment_at(s, segments(s)[n].start));
    }
}

/// Every lexeme among `segments` is one of `segments`.
pub proof fn lemma_lexemes_are_segments(segments: Seq<Segment>, k: int)
    requires
        0 <= k < lexemes(segments).len(),
    ensures
        exists|n: int| 0 <= n < segments.len() && segments[n] == lexemes(segments)[k],
    decreases segments.len(),
{
    let shorter = segments.drop_last();
    if segments.last().piece is Lexeme && k == lexemes(shorter).len() {
        assert(segments[segments.len() - 1] == lexemes(segments)[k]);
    } else {
        lemma_lexemes_are_segments(shorter, k);
        let n = choose|n: int| 0 <= n < shorter.len() && shorter[n] == lexemes(shorter)[k];
        assert(segments[n] == lexemes(segments)[k]);
    }
}

/// The token of every lexeme that the grammar cuts has the value that goes
/// with its category.
pub proof fn lemma_literal_fits(s: Seq<char>, i: int)
    requires
        0 <= i < s.len(),
        segment_at(s, i).piece is Lexeme,
    ensures
        literal_fits(token_of(s, segment_at(s, i), segment_at(s, i).piece->Lexeme_0)),
{
    let segment = segment_at(s, i);
    let token = token_of(s, segment, segment.piece->Lexeme_0);
    lemma_segment_bounds(s, i);
    if s[i] == '"' {
        lemma_run_end(s, i + 1, Run::Quoted);
        let text = s.subrange(i + 1, segment.end - 1);
        assert(token.lexeme =~= seq!['"'] + text + seq!['"']);
        assert forall|k: int| 0 <= k < text.len() implies text[k] != '"' by {
            assert(Run::Quoted.admits(s[i + 1 + k]));
        }
    } else if is_digit(s[i]) {
        let point = run_end(s, i, Run::Digits);
        lemma_run_end(s, i, Run::Digits);
        if fraction_at(s, point) {
            lemma_run_end(s, point + 2, Run::Digits);
        }
        let digits = token.literal->digits;
        assert forall|k: int| 0 <= k < digits.len() implies #[trigger] digits[k] <= 9 by {
            if k < point - i {
                assert(Run::Digits.admits(s[i + k]));
            } else if k > point - i {
                assert(Run::Digits.admits(s[k + 1 + i]));
            }
        }
    }
}

/// Every token of a scan has the value that goes with its category.
pub proof fn law_literals(s: Seq<char>)
    ensures
        forall|k: int| 0 <= k < scan(s).len() ==> literal_fits(#[trigger] scan(s)[k]),
{
    lemma_segments_from_tile(s, 0);
    lemma_tokens_of_tiling(s, segments(s), 0, s.len() as int);
    let found = lexemes(segments(s));
    assert forall|k: int| 0 <= k < scan(s).len() implies literal_fits(#[trigger] scan(s)[k]) by {
        if k < found.len() {
            assert(scan(s)[k] == tokens_of(s, segments(s))[k]);
            lemma_lexemes_are_segments(segments(s), k);
            let n = choose|n: int| 0 <= n < segments(s).len() && segments(s)[n] == found[k];
            assert(segments(s)[n] == segment_at(s, segments(s)[n].start));
            lemma_literal_fits(s, found[k].start);
        }
    }
}

/// Nothing of the text is lost: the texts of the tokens before the marker,
/// in order, with the text passed over between them put back, are the
/// source itself.
pub proof fn law_lossless(s: Seq<char>)
    ensures
        reassembled(s, segments(s), scan(s).drop_last()) == s,
{
    lemma_segments_from_tile(s, 0);
    lemma_reassembled_tiling(s, segments(s), 0, s.len() as int);
    assert(scan(s).drop_last() =~= tokens_of(s, segments(s)));
    assert(s.subrange(0, s.len() as int) =~= s);
}

/// The line of every token is one more than the number of newlines before
/// its lexeme, wherever those newlines stand; the line of the marker is one
/// more than the number of newlines in the text; and from one token to the
/// next the line never falls.
pub proof fn law_lines(s: Seq<char>)
    ensures
        forall|k: int|
            0 <= k < lexemes(segments(s)).len() ==> (#[trigger] scan(s)[k]).line
                == newlines_before(s, lexemes(segments(s))[k].start) + 1,
        scan(s).last().line == newlines_before(s, s.len() as int) + 1,
        forall|j: int, k: int|
            0 <= j <= k < scan(s).len() ==> (#[trigger] scan(s)[j]).line <= (#[trigger] scan(
                s,
            )[k]).line,
{
    law_tokens_are_lexemes(s);
    lemma_segments_from_tile(s, 0);
    lemma_tokens_of_tiling(s, segments(s), 0, s.len() as int);
    let tokens = tokens_of(s, segments(s));
    assert forall|j: int, k: int| 0 <= j <= k < scan(s).len() implies (#[trigger] scan(s)[j]).line
        <= (#[trigger] scan(s)[k]).line by {
        if j < tokens.len() {
            assert(scan(s)[j] == tokens[j]);
        }
        if k < tokens.len() {
            assert(scan(s)[k] == tokens[k]);
        }
    }
}

} // verus!
