//! The scanner's laws, stated and proved over the model.
//!
//! Together with `scan`'s contract — which pins its output to `scan_tokens`
//! and `scan_diags` — each law here transfers directly to the executable
//! scanner.

use vstd::prelude::*;
use crate::token::{TokenKind, TokenModel};
use crate::model::{
    token_at, scan_tokens, scan_diags, cat_lexemes, eof_model, pos_at,
    lemma_scan_lossless_from, lemma_scan_ends_eof_from, lemma_token_at_bounds,
    lemma_off_at_monotone, lemma_line_at_monotone,
};

verus! {

/// Losslessness: concatenating the lexemes of every emitted token, trivia
/// included, in order, reconstructs the input exactly.
pub proof fn lemma_scan_lossless(s: Seq<char>)
    ensures
        cat_lexemes(scan_tokens(s, 0)) == s,
{
    lemma_scan_lossless_from(s, 0);
    assert(s.subrange(0, s.len() as int) =~= s);
}

/// Termination and the closing token: the scan of any finite input, the
/// empty input included, emits finitely many tokens, and the last one is
/// `EndOfFile` with a zero-length span at the end of input.
pub proof fn lemma_scan_ends_eof(s: Seq<char>)
    ensures
        1 <= scan_tokens(s, 0).len() <= s.len() + 1,
        scan_tokens(s, 0).last() == eof_model(s),
        scan_tokens(s, 0).last().kind == TokenKind::EndOfFile,
        scan_tokens(s, 0).last().lexeme.len() == 0,
        scan_tokens(s, 0).last().start == scan_tokens(s, 0).last().end,
{
    lemma_scan_ends_eof_from(s, 0);
    lemma_scan_count_from(s, 0);
}

/// The scan emits at most one token per input character, plus the closing
/// `EndOfFile` token: its cost is linear in the input length.
proof fn lemma_scan_count_from(s: Seq<char>, i: int)
    requires
        0 <= i <= s.len(),
    ensures
        1 <= scan_tokens(s, i).len() <= s.len() - i + 1,
    decreases s.len() - i,
{
    if i < s.len() {
        lemma_token_at_bounds(s, i);
        lemma_scan_count_from(s, token_at(s, i).end);
    }
}

/// Each token's span ends where the next one starts.
pub open spec fn spans_chained(ts: Seq<TokenModel>) -> bool {
    forall|k: int| 0 <= k < ts.len() - 1 ==> (#[trigger] ts[k]).end == ts[k + 1].start
}

/// Each token's span is half-open and runs forward: its start does not come
/// after its end, in byte offset or in line number.
pub open spec fn spans_ordered(ts: Seq<TokenModel>) -> bool {
    forall|k: int|
        0 <= k < ts.len() ==> (#[trigger] ts[k]).start.offset <= ts[k].end.offset
            && ts[k].start.line <= ts[k].end.line
}

#[verifier::rlimit(50)]
proof fn lemma_scan_spans_from(s: Seq<char>, i: int)
    requires
        0 <= i <= s.len(),
    ensures
        scan_tokens(s, i).len() >= 1,
        scan_tokens(s, i)[0].start == pos_at(s, i),
        spans_chained(scan_tokens(s, i)),
        spans_ordered(scan_tokens(s, i)),
    decreases s.len() - i,
{
    let ts = scan_tokens(s, i);
    if i >= s.len() {
        assert(ts == seq![eof_model(s)]);
    } else {
        lemma_token_at_bounds(s, i);
        let end = token_at(s, i).end;
        lemma_scan_spans_from(s, end);
        let rest = scan_tokens(s, end);
        assert(ts == seq![crate::model::step_token_model(s, i)] + rest);
        assert(ts[0].end == pos_at(s, end));
        assert(rest[0].start == pos_at(s, end));
        lemma_off_at_monotone(s, i, end);
        lemma_line_at_monotone(s, i, end);
        assert forall|k: int| 0 <= k < ts.len() - 1 implies (#[trigger] ts[k]).end
            == ts[k + 1].start by {
            if k >= 1 {
                assert(ts[k] == rest[k - 1] && ts[k + 1] == rest[k]);
            }
        }
        assert forall|k: int| 0 <= k < ts.len() implies (#[trigger] ts[k]).start.offset
            <= ts[k].end.offset && ts[k].start.line <= ts[k].end.line by {
            if k >= 1 {
                assert(ts[k] == rest[k - 1]);
            }
        }
    }
}

/// Span integrity: the scan starts at line 1, column 1, offset 0; each
/// token's span ends exactly where the next one starts; and every span runs
/// forward.  Together with losslessness, the spans tile the whole input.
pub proof fn lemma_scan_spans(s: Seq<char>)
    ensures
        scan_tokens(s, 0)[0].start.line == 1,
        scan_tokens(s, 0)[0].start.col == 1,
        scan_tokens(s, 0)[0].start.offset == 0,
        spans_chained(scan_tokens(s, 0)),
        spans_ordered(scan_tokens(s, 0)),
{
    lemma_scan_spans_from(s, 0);
}

proof fn lemma_scan_progress_from(s: Seq<char>, i: int)
    requires
        0 <= i <= s.len(),
    ensures
        forall|k: int|
            0 <= k < scan_tokens(s, i).len() - 1 ==> (#[trigger] scan_tokens(s, i)[k]).lexeme.len()
                >= 1,
    decreases s.len() - i,
{
    let ts = scan_tokens(s, i);
    if i < s.len() {
        lemma_token_at_bounds(s, i);
        let end = token_at(s, i).end;
        lemma_scan_progress_from(s, end);
        let rest = scan_tokens(s, end);
        assert(ts == seq![crate::model::step_token_model(s, i)] + rest);
        assert forall|k: int| 0 <= k < ts.len() - 1 implies (#[trigger] ts[k]).lexeme.len()
            >= 1 by {
            if k >= 1 {
                assert(ts[k] == rest[k - 1]);
            }
        }
    }
}

/// Recovery always advances: every token before the closing `EndOfFile`
/// consumes at least one character, malformed input included, so the scan
/// makes progress at every position and cannot stall.
pub proof fn lemma_scan_progress(s: Seq<char>)
    ensures
        forall|k: int|
            0 <= k < scan_tokens(s, 0).len() - 1 ==> (#[trigger] scan_tokens(s, 0)[k]).lexeme.len()
                >= 1,
{
    lemma_scan_progress_from(s, 0);
}

/// Determinism: identical input always yields an identical token sequence
/// and an identical diagnostic list.
pub proof fn lemma_scan_deterministic(s1: Seq<char>, s2: Seq<char>)
    requires
        s1 == s2,
    ensures
        scan_tokens(s1, 0) == scan_tokens(s2, 0),
        scan_diags(s1, 0) == scan_diags(s2, 0),
{
}

/// Longest match: wherever `-` is immediately followed by `>`, the rule that
/// fires consumes both characters as one `Arrow` token — never `Minus` and
/// then `GreaterThan`.
pub proof fn lemma_arrow_longest_match(s: Seq<char>, i: int)
    requires
        0 <= i,
        i + 1 < s.len(),
        s[i] == '-',
        s[i + 1] == '>',
    ensures
        token_at(s, i).kind == TokenKind::Arrow,
        token_at(s, i).end == i + 2,
        token_at(s, i).diag is None,
{
}

/// Longest match: wherever `=` is immediately followed by `=`, the rule that
/// fires consumes both characters as one `EqEq` token — never two `Equals`.
pub proof fn lemma_eqeq_longest_match(s: Seq<char>, i: int)
    requires
        0 <= i,
        i + 1 < s.len(),
        s[i] == '=',
        s[i + 1] == '=',
    ensures
        token_at(s, i).kind == TokenKind::EqEq,
        token_at(s, i).end == i + 2,
        token_at(s, i).diag is None,
{
}

} // verus!
