//! What holds of the token sequence of every text.

use vstd::prelude::*;
use vstd::utf8::encode_utf8;
use vstd::utf8::is_ascii_chars;

use crate::diags::diagbag::illegal_char_report;
use crate::lexer::scan::all_numeric;
use crate::lexer::scan::all_whitespace;
use crate::lexer::scan::end_token;
use crate::lexer::scan::illegal_reports;
use crate::lexer::scan::illegal_tokens;
use crate::lexer::scan::kind_at;
use crate::lexer::scan::lemma_numeric_run_bounded;
use crate::lexer::scan::lemma_tokens_from_step;
use crate::lexer::scan::lemma_whitespace_run_bounded;
use crate::lexer::scan::literals;
use crate::lexer::scan::numerics_are_not_whitespace;
use crate::lexer::scan::offset_of;
use crate::lexer::scan::starts_from;
use crate::lexer::scan::starts_of;
use crate::lexer::scan::token_at;
use crate::lexer::scan::token_chars;
use crate::lexer::scan::tokens_from;
use crate::lexer::scan::tokens_of;
use crate::lexer::scan::whitespace_run;
use crate::lexer::scan::without_whitespace;
use crate::lexer::token::TokenKind;
use crate::lexer::token::TokenModel;
use crate::parser::grammar::all_covering;
use crate::parser::grammar::parseable;
use crate::text::char_is_numeric;
use crate::text::char_is_whitespace;
use crate::text::lemma_encode_subrange;
use crate::text::lemma_utf8_len_ascii;
use crate::text::lemma_utf8_len_at_least_chars;
use crate::text::lemma_utf8_len_prefix;
use crate::text::utf8_len;

verus! {

/// The ends of a scan from cursor `i`: one start per token; nothing but
/// whitespace before the first start; and the end marker, which starts at
/// the length of the text, closes the sequence.
proof fn lemma_scan_ends(s: Seq<char>, i: int)
    requires
        0 <= i <= s.len(),
    ensures
        tokens_from(s, i).len() == starts_from(s, i).len(),
        tokens_from(s, i).len() >= 1,
        tokens_from(s, i).last() == end_token(s),
        starts_from(s, i).last() == s.len(),
        i <= starts_from(s, i)[0] <= s.len(),
        all_whitespace(s, i, starts_from(s, i)[0]),
    decreases s.len() - i,
{
    let j = i + whitespace_run(s, i);
    lemma_tokens_from_step(s, i);
    lemma_whitespace_run_bounded(s, i);
    if j < s.len() {
        let next = j + token_chars(s, j);
        lemma_scan_ends(s, next);
        assert(tokens_from(s, i) =~= seq![token_at(s, j)] + tokens_from(s, next));
        assert(starts_from(s, i) =~= seq![j] + starts_from(s, next));
    }
}

/// The token of index `k` in a scan from cursor `i`, the end marker aside:
/// it is cut from the text at its start, which is no whitespace, and
/// nothing but whitespace lies between it and the next start.
proof fn lemma_scan_token(s: Seq<char>, i: int, k: int)
    requires
        0 <= i <= s.len(),
        0 <= k < tokens_from(s, i).len() - 1,
    ensures
        i <= starts_from(s, i)[k] < s.len(),
        !char_is_whitespace(s[starts_from(s, i)[k]]),
        tokens_from(s, i)[k] == token_at(s, starts_from(s, i)[k]),
        starts_from(s, i)[k] + token_chars(s, starts_from(s, i)[k]) <= starts_from(s, i)[k + 1],
        starts_from(s, i)[k + 1] <= s.len(),
        all_whitespace(
            s,
            starts_from(s, i)[k] + token_chars(s, starts_from(s, i)[k]),
            starts_from(s, i)[k + 1],
        ),
    decreases k,
{
    let j = i + whitespace_run(s, i);
    lemma_tokens_from_step(s, i);
    lemma_whitespace_run_bounded(s, i);
    let next = j + token_chars(s, j);
    lemma_scan_ends(s, next);
    assert(tokens_from(s, i) =~= seq![token_at(s, j)] + tokens_from(s, next));
    assert(starts_from(s, i) =~= seq![j] + starts_from(s, next));
    if k > 0 {
        lemma_scan_token(s, next, k - 1);
    }
}

/// Every token of a scan, the end marker too, starts at the byte offset of
/// its start.
proof fn lemma_scan_start(s: Seq<char>, i: int, k: int)
    requires
        0 <= i <= s.len(),
        0 <= k < tokens_from(s, i).len(),
    ensures
        k < starts_from(s, i).len(),
        i <= starts_from(s, i)[k] <= s.len(),
        tokens_from(s, i)[k].pos == offset_of(s, starts_from(s, i)[k]),
    decreases k,
{
    lemma_scan_ends(s, i);
    if k < tokens_from(s, i).len() - 1 {
        lemma_scan_token(s, i, k);
    } else {
        assert(s.take(s.len() as int) =~= s);
    }
}

/// A later token starts no earlier than an earlier one ends.
proof fn lemma_starts_increase(s: Seq<char>, i: int, k: int, m: int)
    requires
        0 <= i <= s.len(),
        0 <= k < m < tokens_from(s, i).len(),
    ensures
        starts_from(s, i)[k] + token_chars(s, starts_from(s, i)[k]) <= starts_from(s, i)[m],
    decreases m - k,
{
    lemma_scan_ends(s, i);
    lemma_scan_token(s, i, k);
    if k + 1 < m {
        lemma_starts_increase(s, i, k + 1, m);
    }
}

/// Byte offsets grow with character indices, by the bytes of the stretch in
/// between.
proof fn lemma_offset_monotonic(s: Seq<char>, a: int, b: int)
    requires
        0 <= a <= b <= s.len(),
    ensures
        offset_of(s, a) <= offset_of(s, b) <= utf8_len(s),
        offset_of(s, a) + utf8_len(s.subrange(a, b)) == offset_of(s, b),
{
    lemma_utf8_len_prefix(s, a, b);
}

/// In a scan from cursor `i`, the token of index `k` ends no later than the
/// token of the later index `m` starts.
proof fn lemma_scan_spans(s: Seq<char>, i: int, k: int, m: int)
    requires
        0 <= i <= s.len(),
        0 <= k < m < tokens_from(s, i).len(),
    ensures
        tokens_from(s, i)[k].pos + tokens_from(s, i)[k].len <= tokens_from(s, i)[m].pos,
        tokens_from(s, i)[m].pos <= utf8_len(s),
{
    lemma_scan_ends(s, i);
    lemma_scan_token(s, i, k);
    lemma_scan_start(s, i, k);
    lemma_scan_start(s, i, m);
    lemma_starts_increase(s, i, k, m);
    let a = starts_from(s, i)[k];
    let b = a + token_chars(s, a);
    let c = starts_from(s, i)[m];
    lemma_offset_monotonic(s, a, b);
    lemma_offset_monotonic(s, b, c);
}

/// A stretch of whitespace leaves nothing behind.
proof fn lemma_whitespace_filters_out(s: Seq<char>)
    requires
        all_whitespace(s, 0, s.len() as int),
    ensures
        without_whitespace(s) == Seq::<char>::empty(),
    decreases s.len(),
{
    reveal(Seq::filter);
    if s.len() > 0 {
        lemma_whitespace_filters_out(s.drop_last());
    }
}

/// A stretch without whitespace stays as it is.
proof fn lemma_no_whitespace_filters_whole(s: Seq<char>)
    requires
        forall|k: int| 0 <= k < s.len() ==> !char_is_whitespace(#[trigger] s[k]),
    ensures
        without_whitespace(s) == s,
    decreases s.len(),
{
    reveal(Seq::filter);
    if s.len() > 0 {
        lemma_no_whitespace_filters_whole(s.drop_last());
        assert(s.drop_last().push(s.last()) =~= s);
    }
}

/// Leaving out whitespace goes through concatenation.
proof fn lemma_without_whitespace_concat(a: Seq<char>, b: Seq<char>)
    ensures
        without_whitespace(a + b) == without_whitespace(a) + without_whitespace(b),
{
    Seq::filter_distributes_over_add(a, b, |c: char| !char_is_whitespace(c));
}

/// The literals of a scan from cursor `i`, the end marker aside, against
/// the text from `i` on.
proof fn lemma_scan_literals(s: Seq<char>, i: int)
    requires
        0 <= i <= s.len(),
    ensures
        without_whitespace(literals(tokens_from(s, i).drop_last())) == without_whitespace(
            s.skip(i),
        ),
        numerics_are_not_whitespace(s) ==> literals(tokens_from(s, i).drop_last())
            == without_whitespace(s.skip(i)),
    decreases s.len() - i,
{
    let j = i + whitespace_run(s, i);
    lemma_tokens_from_step(s, i);
    lemma_whitespace_run_bounded(s, i);
    let gap = s.subrange(i, j);
    assert(all_whitespace(gap, 0, gap.len() as int));
    lemma_whitespace_filters_out(gap);
    if j < s.len() {
        let next = j + token_chars(s, j);
        lemma_numeric_run_bounded(s, j + 1);
        lemma_scan_literals(s, next);
        lemma_tokens_from_step(s, next);
        let t = tokens_from(s, i);
        let rt = tokens_from(s, next);
        let tok = token_at(s, j);
        let lit = s.subrange(j, next);
        let body = t.drop_last();
        let rest = rt.drop_last();
        assert(t =~= seq![tok] + rt);
        assert(body =~= seq![tok] + rest);
        assert(body.drop_first() =~= rest);
        assert(literals(body) == lit + literals(rest));
        assert(s.skip(i) =~= gap + (lit + s.skip(next)));
        lemma_without_whitespace_concat(gap, lit + s.skip(next));
        lemma_without_whitespace_concat(lit, s.skip(next));
        lemma_without_whitespace_concat(lit, literals(rest));
        assert(Seq::<char>::empty() + (without_whitespace(lit) + without_whitespace(s.skip(next)))
            =~= without_whitespace(lit) + without_whitespace(s.skip(next)));
        if numerics_are_not_whitespace(s) {
            assert forall|k: int| 0 <= k < lit.len() implies !char_is_whitespace(
                #[trigger] lit[k],
            ) by {
                if k > 0 {
                    assert(char_is_numeric(s[j + k]));
                }
            }
            lemma_no_whitespace_filters_whole(lit);
        }
    } else {
        assert(tokens_from(s, i).drop_last() =~= Seq::<TokenModel>::empty());
        assert(s.skip(i) =~= gap);
    }
}

/// The token sequence of every text ends in the end marker, which stands
/// one past the last byte of the text. The empty text has the end marker
/// alone, at offset 0.
pub proof fn law_ends_with_end_marker(s: Seq<char>)
    ensures
        tokens_of(s).len() >= 1,
        tokens_of(s).last() == end_token(s),
        tokens_of(s).last().kind == TokenKind::EOF,
        tokens_of(s).last().pos == utf8_len(s),
        tokens_of(s).last().len == 1,
{
    lemma_scan_ends(s, 0);
}

/// The token of index `k` starts within the text, and unless it is the end
/// marker it also ends within it.
pub proof fn law_spans_lie_within_text(s: Seq<char>, k: int)
    requires
        0 <= k < tokens_of(s).len(),
    ensures
        tokens_of(s)[k].pos <= utf8_len(s),
        k < tokens_of(s).len() - 1 ==> tokens_of(s)[k].pos + tokens_of(s)[k].len <= utf8_len(s),
{
    lemma_scan_ends(s, 0);
    lemma_scan_start(s, 0, k);
    lemma_offset_monotonic(s, 0, starts_from(s, 0)[k]);
    if k < tokens_of(s).len() - 1 {
        lemma_scan_spans(s, 0, k, tokens_of(s).len() - 1);
    }
}

/// Tokens come in source order and do not overlap: the token of index `k`
/// ends no later than the token of the later index `m` starts.
pub proof fn law_tokens_do_not_overlap(s: Seq<char>, k: int, m: int)
    requires
        0 <= k < m < tokens_of(s).len(),
    ensures
        tokens_of(s)[k].pos + tokens_of(s)[k].len <= tokens_of(s)[m].pos,
{
    lemma_scan_spans(s, 0, k, m);
}

/// The token sequence of every text is what a parser asks for: in source
/// order, and closed by an end marker.
pub proof fn law_token_sequence_is_parseable(s: Seq<char>)
    ensures
        parseable(tokens_of(s)),
{
    law_ends_with_end_marker(s);
    let t = tokens_of(s);
    assert forall|k: int, m: int| 0 <= k <= m < t.len() implies (#[trigger] t[k]).pos <= (
    #[trigger] t[m]).pos by {
        if k < m {
            law_tokens_do_not_overlap(s, k, m);
        }
    }
}

/// Joining the literals of all tokens but the end marker gives back the
/// text, whitespace aside: no other character is lost, added or moved. If
/// no numeric character of the text is whitespace, the joined literals hold
/// no whitespace either, and are exactly the text without its whitespace.
pub proof fn law_literals_reproduce_text(s: Seq<char>)
    ensures
        without_whitespace(literals(tokens_of(s).drop_last())) == without_whitespace(s),
        numerics_are_not_whitespace(s) ==> literals(tokens_of(s).drop_last())
            == without_whitespace(s),
{
    lemma_scan_literals(s, 0);
    assert(s.skip(0) =~= s);
}

/// The token of index `k`, unless it is the end marker, is cut from the
/// text: it starts at a character that is no whitespace, its literal is
/// the exact stretch of characters it was made of, and between it and the
/// next token lies nothing but whitespace.
pub proof fn law_tokens_are_cut_from_text(s: Seq<char>, k: int)
    requires
        0 <= k < tokens_of(s).len() - 1,
    ensures
        starts_of(s).len() == tokens_of(s).len(),
        ({
            let a = starts_of(s)[k];
            let b = a + token_chars(s, a);
            &&& 0 <= a < b <= starts_of(s)[k + 1] <= s.len()
            &&& !char_is_whitespace(s[a])
            &&& tokens_of(s)[k] == token_at(s, a)
            &&& tokens_of(s)[k].literal == s.subrange(a, b)
            &&& tokens_of(s)[k].pos == offset_of(s, a)
            &&& tokens_of(s)[k].len == utf8_len(s.subrange(a, b))
            &&& all_whitespace(s, b, starts_of(s)[k + 1])
        }),
        all_whitespace(s, 0, starts_of(s)[0]),
{
    lemma_scan_ends(s, 0);
    lemma_scan_token(s, 0, k);
}

/// Every token covers text: none has length 0. (The end marker counts for
/// one byte.)
pub proof fn law_every_token_covers_text(s: Seq<char>)
    ensures
        all_covering(tokens_of(s)),
{
    let t = tokens_of(s);
    assert forall|k: int| 0 <= k < t.len() implies (#[trigger] t[k]).len > 0 by {
        lemma_scan_ends(s, 0);
        if k < t.len() - 1 {
            lemma_scan_token(s, 0, k);
            lemma_utf8_len_at_least_chars(t[k].literal);
        }
    }
}

/// An end marker stands before the end of the text only where the text
/// holds a null character: the token of index `k`, which is not the last,
/// is an end marker exactly if the character it starts at is the null
/// character. So a text without null characters has exactly one end
/// marker, the one that closes its token sequence.
pub proof fn law_end_marker_is_last_or_null(s: Seq<char>, k: int)
    requires
        0 <= k < tokens_of(s).len() - 1,
    ensures
        0 <= starts_of(s)[k] < s.len(),
        tokens_of(s)[k].kind == TokenKind::EOF <==> s[starts_of(s)[k]] == '\0',
{
    law_tokens_are_cut_from_text(s, k);
}

/// The literal of a token is the text at the token's span, byte for byte:
/// the span of the token of index `k`, which is not the end marker, lies
/// within the encoded text, and the bytes there are the encoding of the
/// literal.
pub proof fn law_literal_is_the_text_at_its_span(s: Seq<char>, k: int)
    requires
        0 <= k < tokens_of(s).len() - 1,
    ensures
        tokens_of(s)[k].pos + tokens_of(s)[k].len <= encode_utf8(s).len(),
        encode_utf8(tokens_of(s)[k].literal) == encode_utf8(s).subrange(
            tokens_of(s)[k].start(),
            tokens_of(s)[k].end(),
        ),
{
    law_tokens_are_cut_from_text(s, k);
    let a = starts_of(s)[k];
    let b = a + token_chars(s, a);
    lemma_encode_subrange(s, a, b);
    lemma_utf8_len_prefix(s, a, b);
}

/// In a text of the ASCII range, byte offsets are character indices: the
/// token of index `k`, which is not the end marker, starts at the index
/// that is its `pos`, has as many characters as its `len` says, and its
/// literal is the text between the two.
pub proof fn law_ascii_spans_are_character_ranges(s: Seq<char>, k: int)
    requires
        is_ascii_chars(s),
        0 <= k < tokens_of(s).len() - 1,
    ensures
        tokens_of(s)[k].pos == starts_of(s)[k],
        tokens_of(s)[k].len == token_chars(s, starts_of(s)[k]),
        tokens_of(s)[k].len >= 1,
        tokens_of(s)[k].pos + tokens_of(s)[k].len <= s.len(),
        tokens_of(s)[k].literal == s.subrange(tokens_of(s)[k].start(), tokens_of(s)[k].end()),
{
    law_tokens_are_cut_from_text(s, k);
    let a = starts_of(s)[k];
    let b = a + token_chars(s, a);
    lemma_utf8_len_ascii(s.take(a));
    lemma_utf8_len_ascii(s.subrange(a, b));
}

/// In a text of the ASCII range, a number token covers a whole run of
/// numeric characters: every character between its `pos` and the end of
/// its span is numeric, and the character at the end of its span, if there
/// is one, is not.
pub proof fn law_ascii_number_covers_whole_run(s: Seq<char>, k: int)
    requires
        is_ascii_chars(s),
        0 <= k < tokens_of(s).len() - 1,
        tokens_of(s)[k].kind == TokenKind::Number,
    ensures
        tokens_of(s)[k].len >= 1,
        tokens_of(s)[k].pos + tokens_of(s)[k].len <= s.len(),
        all_numeric(s, tokens_of(s)[k].start(), tokens_of(s)[k].end()),
        tokens_of(s)[k].end() < s.len() ==> !char_is_numeric(s[tokens_of(s)[k].end()]),
{
    law_ascii_spans_are_character_ranges(s, k);
    law_tokens_are_cut_from_text(s, k);
    law_number_takes_whole_run(s, starts_of(s)[k]);
}

/// A number token is a whole run of numeric characters: every character of
/// it is numeric, and the character after it, if there is one, is not. So
/// a run is never split in two, and two numbers are never joined.
pub proof fn law_number_takes_whole_run(s: Seq<char>, a: int)
    requires
        0 <= a < s.len(),
        kind_at(s, a) == TokenKind::Number,
    ensures
        a + token_chars(s, a) <= s.len(),
        token_at(s, a).literal == s.subrange(a, a + token_chars(s, a)),
        all_numeric(s, a, a + token_chars(s, a)),
        a + token_chars(s, a) < s.len() ==> !char_is_numeric(s[a + token_chars(s, a)]),
{
    lemma_numeric_run_bounded(s, a + 1);
}

/// Between two number tokens that follow each other lies at least one
/// whitespace character.
pub proof fn law_numbers_are_kept_apart(s: Seq<char>, k: int)
    requires
        0 <= k,
        k + 1 < tokens_of(s).len() - 1,
        tokens_of(s)[k].kind == TokenKind::Number,
        tokens_of(s)[k + 1].kind == TokenKind::Number,
    ensures
        starts_of(s)[k] + token_chars(s, starts_of(s)[k]) < starts_of(s)[k + 1],
        char_is_whitespace(s[starts_of(s)[k] + token_chars(s, starts_of(s)[k])]),
{
    law_tokens_are_cut_from_text(s, k);
    law_tokens_are_cut_from_text(s, k + 1);
    law_number_takes_whole_run(s, starts_of(s)[k]);
}

/// Emitting tokens leaves exactly one diagnostic for each illegal
/// character, in the order of the tokens, each covering one position at the
/// offset of its character; no other token leaves any.
pub proof fn law_one_report_per_illegal_token(tokens: Seq<TokenModel>)
    ensures
        illegal_reports(tokens).len() == illegal_tokens(tokens).len(),
        forall|n: int|
            0 <= n < illegal_tokens(tokens).len() ==> #[trigger] illegal_reports(tokens)[n]
                == illegal_char_report(
                illegal_tokens(tokens)[n].pos,
                illegal_tokens(tokens)[n].literal[0],
            ),
    decreases tokens.len(),
{
    reveal(Seq::filter);
    if tokens.len() > 0 {
        law_one_report_per_illegal_token(tokens.drop_last());
    }
}

/// Diagnostics pile up in arrival order: those of a sequence of tokens are
/// those of its first part followed by those of the rest.
pub proof fn law_reports_keep_arrival_order(first: Seq<TokenModel>, rest: Seq<TokenModel>)
    ensures
        illegal_reports(first + rest) == illegal_reports(first) + illegal_reports(rest),
    decreases rest.len(),
{
    if rest.len() == 0 {
        assert(first + rest =~= first);
        assert(illegal_reports(first) + illegal_reports(rest) =~= illegal_reports(first));
    } else {
        law_reports_keep_arrival_order(first, rest.drop_last());
        assert((first + rest).drop_last() =~= first + rest.drop_last());
        assert(illegal_reports(first + rest) =~= illegal_reports(first) + illegal_reports(rest));
    }
}

} // verus!
