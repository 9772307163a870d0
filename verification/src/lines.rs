//! Logical lines: what a token stream is once it has been cut at its
//! `NewLine` tokens.
//!
//! A logical line is a non-empty run of tokens without a `NewLine`. Only a
//! `NewLine` closes a line: tokens behind the last `NewLine` belong to no
//! line, and a `NewLine` that follows another, or opens the stream, closes
//! nothing.

use vstd::prelude::*;
use crate::lexer::{Token, TokenView, tokens_view};

verus! {

/// The values of a sequence of logical lines, in order.
pub open spec fn lines_view(lines: Seq<Vec<Token>>) -> Seq<Seq<TokenView>> {
    Seq::new(lines.len(), |i: int| tokens_view(lines[i]@))
}

/// Line `pos` of `lines`, and the line without tokens where there is none.
pub open spec fn line_at(lines: Seq<Seq<TokenView>>, pos: int) -> Seq<TokenView> {
    if 0 <= pos < lines.len() {
        lines[pos]
    } else {
        Seq::empty()
    }
}

/// The number of tokens before the first `NewLine`; all of them where
/// `tokens` holds none.
pub open spec fn line_len(tokens: Seq<TokenView>) -> nat
    decreases tokens.len(),
{
    if tokens.len() == 0 || tokens[0] is NewLine {
        0
    } else {
        1 + line_len(tokens.drop_first())
    }
}

/// The logical lines of a token stream.
///
/// The tokens before the first `NewLine` are a line unless there are none;
/// the lines of what follows that `NewLine` come after it. A stream
/// without a `NewLine` has no lines.
pub open spec fn split_lines(tokens: Seq<TokenView>) -> Seq<Seq<TokenView>>
    decreases tokens.len(),
{
    let n = line_len(tokens) as int;
    if n >= tokens.len() {
        Seq::empty()
    } else {
        let rest = split_lines(tokens.subrange(n + 1, tokens.len() as int));
        if n == 0 {
            rest
        } else {
            seq![tokens.subrange(0, n)] + rest
        }
    }
}

/// Whether `line` is a logical line: it holds a token, and no `NewLine`.
pub open spec fn is_logical_line(line: Seq<TokenView>) -> bool {
    line.len() > 0 && forall|j: int| 0 <= j < line.len() ==> !(#[trigger] line[j] is NewLine)
}

/// Whether each of `lines` is a logical line.
pub open spec fn are_logical_lines(lines: Seq<Seq<TokenView>>) -> bool {
    forall|i: int| 0 <= i < lines.len() ==> is_logical_line(#[trigger] lines[i])
}

/// The token stream that `lines` came from, blank lines apart: each line
/// in order, with a `NewLine` behind it.
pub open spec fn join_lines(lines: Seq<Seq<TokenView>>) -> Seq<TokenView>
    decreases lines.len(),
{
    if lines.len() == 0 {
        Seq::empty()
    } else {
        lines[0] + seq![TokenView::NewLine] + join_lines(lines.drop_first())
    }
}

/// Whether a line that is not blank ends at index `i`: a `NewLine` stands
/// there, behind a token that is none.
pub open spec fn ends_line(tokens: Seq<TokenView>, i: int) -> bool {
    0 < i < tokens.len() && tokens[i] is NewLine && !(tokens[i - 1] is NewLine)
}

/// How many lines that are not blank end among the first `n` tokens.
pub open spec fn count_lines(tokens: Seq<TokenView>, n: nat) -> nat
    decreases n,
{
    if n == 0 {
        0
    } else {
        count_lines(tokens, (n - 1) as nat) + if ends_line(tokens, n - 1) {
            1nat
        } else {
            0nat
        }
    }
}

/// `line_len` is the one index before which no `NewLine` stands and at
/// which one does, or the stream ends.
pub proof fn lemma_line_len(tokens: Seq<TokenView>, n: int)
    requires
        0 <= n <= tokens.len(),
        forall|j: int| 0 <= j < n ==> !(#[trigger] tokens[j] is NewLine),
        n == tokens.len() || tokens[n] is NewLine,
    ensures
        line_len(tokens) == n,
    decreases n,
{
    if n > 0 {
        let tail = tokens.drop_first();
        assert forall|j: int| 0 <= j < n - 1 implies !(#[trigger] tail[j] is NewLine) by {
            assert(tail[j] == tokens[j + 1]);
        }
        lemma_line_len(tail, n - 1);
    }
}

/// What `line_len` says of the stream: no `NewLine` before it, and one at
/// it unless the stream ends there.
pub proof fn lemma_line_len_bounds(tokens: Seq<TokenView>)
    ensures
        line_len(tokens) <= tokens.len(),
        forall|j: int| 0 <= j < line_len(tokens) ==> !(#[trigger] tokens[j] is NewLine),
        line_len(tokens) < tokens.len() ==> tokens[line_len(tokens) as int] is NewLine,
    decreases tokens.len(),
{
    if tokens.len() == 0 || tokens[0] is NewLine {
    } else {
        let tail = tokens.drop_first();
        lemma_line_len_bounds(tail);
        assert forall|j: int| 0 <= j < line_len(tokens) implies !(#[trigger] tokens[j]
            is NewLine) by {
            if j > 0 {
                assert(tokens[j] == tail[j - 1]);
            }
        }
        if line_len(tokens) < tokens.len() {
            assert(tokens[line_len(tokens) as int] == tail[line_len(tail) as int]);
        }
    }
}

/// Every line that `split_lines` gives holds a token and no `NewLine`.
pub proof fn lemma_split_lines_logical(tokens: Seq<TokenView>)
    ensures
        are_logical_lines(split_lines(tokens)),
    decreases tokens.len(),
{
    let n = line_len(tokens) as int;
    lemma_line_len_bounds(tokens);
    if n < tokens.len() {
        let rest = split_lines(tokens.subrange(n + 1, tokens.len() as int));
        lemma_split_lines_logical(tokens.subrange(n + 1, tokens.len() as int));
        if n > 0 {
            let head = tokens.subrange(0, n);
            assert(is_logical_line(head));
            let lines = seq![head] + rest;
            assert forall|i: int| 0 <= i < lines.len() implies is_logical_line(
                #[trigger] lines[i],
            ) by {
                if i > 0 {
                    assert(lines[i] == rest[i - 1]);
                }
            }
        }
    }
}

/// Cutting a stream that was put together from logical lines gives those
/// lines back.
pub proof fn lemma_split_join(lines: Seq<Seq<TokenView>>)
    requires
        are_logical_lines(lines),
    ensures
        split_lines(join_lines(lines)) == lines,
    decreases lines.len(),
{
    if lines.len() > 0 {
        let head = lines[0];
        let tail = lines.drop_first();
        let joined = join_lines(lines);
        assert(is_logical_line(head));
        assert forall|i: int| 0 <= i < tail.len() implies is_logical_line(#[trigger] tail[i]) by {
            assert(tail[i] == lines[i + 1]);
        }
        lemma_split_join(tail);
        assert(joined == head + seq![TokenView::NewLine] + join_lines(tail));
        assert forall|j: int| 0 <= j < head.len() implies !(#[trigger] joined[j] is NewLine) by {
            assert(joined[j] == head[j]);
        }
        assert(joined[head.len() as int] is NewLine);
        lemma_line_len(joined, head.len() as int);
        assert(joined.subrange(0, head.len() as int) =~= head);
        assert(joined.subrange(head.len() as int + 1, joined.len() as int) =~= join_lines(tail));
        assert(seq![head] + tail =~= lines);
    }
}

/// Cutting, putting together and cutting again changes nothing: the lines
/// of `join_lines(split_lines(tokens))` are those of `tokens`.
pub proof fn lemma_split_lines_idempotent(tokens: Seq<TokenView>)
    ensures
        split_lines(join_lines(split_lines(tokens))) == split_lines(tokens),
{
    lemma_split_lines_logical(tokens);
    lemma_split_join(split_lines(tokens));
}

/// Counting in a stream that starts with `prefix`, whose last token is a
/// `NewLine`, is counting in `prefix` and then in what follows it.
proof fn lemma_count_lines_shift(tokens: Seq<TokenView>, cut: int, m: nat)
    requires
        0 < cut <= tokens.len(),
        tokens[cut - 1] is NewLine,
        cut + m <= tokens.len(),
    ensures
        count_lines(tokens, (cut + m) as nat) == count_lines(tokens, cut as nat) + count_lines(
            tokens.subrange(cut, tokens.len() as int),
            m,
        ),
    decreases m,
{
    if m > 0 {
        let rest = tokens.subrange(cut, tokens.len() as int);
        lemma_count_lines_shift(tokens, cut, (m - 1) as nat);
        assert(rest[m - 1] == tokens[cut + m - 1]);
        if m > 1 {
            assert(rest[m - 2] == tokens[cut + m - 2]);
        }
        assert(ends_line(tokens, cut + m - 1) == ends_line(rest, m - 1));
    }
}

/// No line ends among tokens that hold no `NewLine`.
proof fn lemma_count_lines_none(tokens: Seq<TokenView>, n: nat)
    requires
        n <= tokens.len(),
        forall|j: int| 0 <= j < n ==> !(#[trigger] tokens[j] is NewLine),
    ensures
        count_lines(tokens, n) == 0,
    decreases n,
{
    if n > 0 {
        lemma_count_lines_none(tokens, (n - 1) as nat);
    }
}

/// A stream has as many logical lines as it has lines that are not blank
/// and end in a `NewLine`.
pub proof fn lemma_split_lines_count(tokens: Seq<TokenView>)
    ensures
        split_lines(tokens).len() == count_lines(tokens, tokens.len()),
    decreases tokens.len(),
{
    let n = line_len(tokens) as int;
    lemma_line_len_bounds(tokens);
    lemma_count_lines_none(tokens, n as nat);
    if n < tokens.len() {
        let rest = tokens.subrange(n + 1, tokens.len() as int);
        lemma_split_lines_count(rest);
        lemma_count_lines_shift(tokens, n + 1, rest.len());
        assert(count_lines(tokens, (n + 1) as nat) == count_lines(tokens, n as nat) + if ends_line(
            tokens,
            n,
        ) {
            1nat
        } else {
            0nat
        });
        assert(ends_line(tokens, n) == (n > 0));
    }
}

/// Whether a token is no `NewLine`.
pub open spec fn is_content() -> spec_fn(TokenView) -> bool {
    |t: TokenView| !(t is NewLine)
}

/// The length of the longest prefix of `tokens` that is empty or ends in a
/// `NewLine`: what lies behind it belongs to no line.
pub open spec fn closed_len(tokens: Seq<TokenView>) -> nat
    decreases tokens.len(),
{
    if tokens.len() == 0 {
        0
    } else if tokens.last() is NewLine {
        tokens.len()
    } else {
        closed_len(tokens.drop_last())
    }
}

/// Tokens that hold no `NewLine` pass the filter unchanged.
proof fn lemma_content_of_line(line: Seq<TokenView>)
    requires
        forall|j: int| 0 <= j < line.len() ==> !(#[trigger] line[j] is NewLine),
    ensures
        line.filter(is_content()) == line,
    decreases line.len(),
{
    reveal(Seq::filter);
    if line.len() > 0 {
        lemma_content_of_line(line.drop_last());
        assert(line.drop_last().push(line.last()) =~= line);
    }
}

/// The closed part is a prefix.
pub proof fn lemma_closed_len_bound(tokens: Seq<TokenView>)
    ensures
        closed_len(tokens) <= tokens.len(),
    decreases tokens.len(),
{
    if tokens.len() > 0 && !(tokens.last() is NewLine) {
        lemma_closed_len_bound(tokens.drop_last());
    }
}

/// Nothing is closed in a stream without a `NewLine`.
proof fn lemma_closed_len_none(tokens: Seq<TokenView>)
    requires
        forall|j: int| 0 <= j < tokens.len() ==> !(#[trigger] tokens[j] is NewLine),
    ensures
        closed_len(tokens) == 0,
    decreases tokens.len(),
{
    if tokens.len() > 0 {
        lemma_closed_len_none(tokens.drop_last());
    }
}

/// Behind a `NewLine` at index `n`, the closed part goes on as that of
/// the rest of the stream.
proof fn lemma_closed_len_split(tokens: Seq<TokenView>, n: int)
    requires
        0 <= n < tokens.len(),
        tokens[n] is NewLine,
    ensures
        closed_len(tokens) == n + 1 + closed_len(tokens.subrange(n + 1, tokens.len() as int)),
    decreases tokens.len(),
{
    let rest = tokens.subrange(n + 1, tokens.len() as int);
    if tokens.last() is NewLine {
        if rest.len() > 0 {
            assert(rest.last() == tokens.last());
        }
    } else {
        let front = tokens.drop_last();
        lemma_closed_len_split(front, n);
        assert(front.subrange(n + 1, front.len() as int) =~= rest.drop_last());
        assert(rest.last() == tokens.last());
    }
}

proof fn lemma_join_lines_push_front(head: Seq<TokenView>, lines: Seq<Seq<TokenView>>)
    ensures
        join_lines(seq![head] + lines) == head + seq![TokenView::NewLine] + join_lines(lines),
{
    assert((seq![head] + lines).drop_first() =~= lines);
}

/// Cutting loses no token of a closed line and keeps their order: the
/// tokens of the lines, put together, are the tokens of the stream up to
/// its last `NewLine`, the `NewLine`s themselves apart.
pub proof fn lemma_split_lines_content(tokens: Seq<TokenView>)
    ensures
        join_lines(split_lines(tokens)).filter(is_content()) == tokens.subrange(
            0,
            closed_len(tokens) as int,
        ).filter(is_content()),
    decreases tokens.len(),
{
    let n = line_len(tokens) as int;
    let keep = is_content();
    lemma_line_len_bounds(tokens);
    if n >= tokens.len() {
        lemma_closed_len_none(tokens);
        assert(tokens.subrange(0, 0) =~= join_lines(Seq::empty()));
    } else {
        let head = tokens.subrange(0, n);
        let newline = seq![TokenView::NewLine];
        let rest = tokens.subrange(n + 1, tokens.len() as int);
        let closed = rest.subrange(0, closed_len(rest) as int);
        lemma_split_lines_content(rest);
        lemma_closed_len_split(tokens, n);
        lemma_closed_len_bound(rest);
        lemma_content_of_line(head);
        assert(newline.filter(keep) =~= Seq::<TokenView>::empty()) by {
            reveal_with_fuel(Seq::filter, 2);
        }
        assert(tokens.subrange(0, closed_len(tokens) as int) =~= head + newline + closed);
        Seq::filter_distributes_over_add(head, newline, keep);
        Seq::filter_distributes_over_add(head + newline, closed, keep);
        assert(head + Seq::<TokenView>::empty() =~= head);
        if n == 0 {
            assert(head + join_lines(split_lines(rest)).filter(keep) =~= join_lines(
                split_lines(rest),
            ).filter(keep));
        } else {
            lemma_join_lines_push_front(head, split_lines(rest));
            Seq::filter_distributes_over_add(head + newline, join_lines(split_lines(rest)), keep);
        }
    }
}

/// What lies behind the last `NewLine` changes nothing: a stream has the
/// lines of its closed part.
pub proof fn lemma_split_lines_closed(tokens: Seq<TokenView>)
    ensures
        split_lines(tokens) == split_lines(tokens.subrange(0, closed_len(tokens) as int)),
    decreases tokens.len(),
{
    let n = line_len(tokens) as int;
    lemma_line_len_bounds(tokens);
    if n >= tokens.len() {
        lemma_closed_len_none(tokens);
    } else {
        let rest = tokens.subrange(n + 1, tokens.len() as int);
        let closed = tokens.subrange(0, closed_len(tokens) as int);
        lemma_split_lines_closed(rest);
        lemma_closed_len_split(tokens, n);
        lemma_closed_len_bound(rest);
        assert forall|j: int| 0 <= j < n implies !(#[trigger] closed[j] is NewLine) by {
            assert(closed[j] == tokens[j]);
        }
        assert(closed[n] == tokens[n]);
        lemma_line_len(closed, n);
        assert(closed.subrange(n + 1, closed.len() as int) =~= rest.subrange(
            0,
            closed_len(rest) as int,
        ));
        assert(closed.subrange(0, n) =~= tokens.subrange(0, n));
    }
}

/// `lines` with a `NewLine` between each two of them, and none behind the
/// last.
pub open spec fn join_separated(lines: Seq<Seq<TokenView>>) -> Seq<TokenView> {
    if lines.len() == 0 {
        Seq::empty()
    } else {
        join_lines(lines.drop_last()) + lines.last()
    }
}

/// What was put together from lines is closed as a whole.
proof fn lemma_join_lines_closed(lines: Seq<Seq<TokenView>>)
    ensures
        closed_len(join_lines(lines)) == join_lines(lines).len(),
        lines.len() > 0 ==> join_lines(lines).len() > 0 && join_lines(lines).last() is NewLine,
    decreases lines.len(),
{
    if lines.len() > 0 {
        let tail = lines.drop_first();
        lemma_join_lines_closed(tail);
        let joined = join_lines(lines);
        if tail.len() > 0 {
            assert(joined.last() == join_lines(tail).last());
        } else {
            assert(joined.last() == TokenView::NewLine);
        }
    }
}

/// Tokens without a `NewLine`, put behind a stream, add nothing to its
/// closed part.
proof fn lemma_closed_len_tail(tokens: Seq<TokenView>, tail: Seq<TokenView>)
    requires
        forall|j: int| 0 <= j < tail.len() ==> !(#[trigger] tail[j] is NewLine),
    ensures
        closed_len(tokens + tail) == closed_len(tokens),
    decreases tail.len(),
{
    if tail.len() == 0 {
        assert(tokens + tail =~= tokens);
    } else {
        let whole = tokens + tail;
        assert(whole.last() == tail.last());
        assert(whole.drop_last() =~= tokens + tail.drop_last());
        lemma_closed_len_tail(tokens, tail.drop_last());
    }
}

/// With `NewLine`s only between the lines, the last line is not closed
/// and is lost: cutting gives all lines but the last.
pub proof fn lemma_split_join_separated(lines: Seq<Seq<TokenView>>)
    requires
        are_logical_lines(lines),
        lines.len() > 0,
    ensures
        split_lines(join_separated(lines)) == lines.drop_last(),
{
    let front = lines.drop_last();
    let joined = join_lines(front);
    let whole = join_separated(lines);
    assert(is_logical_line(lines.last()));
    assert forall|i: int| 0 <= i < front.len() implies is_logical_line(#[trigger] front[i]) by {
        assert(front[i] == lines[i]);
    }
    lemma_join_lines_closed(front);
    lemma_closed_len_tail(joined, lines.last());
    lemma_split_lines_closed(whole);
    assert(whole.subrange(0, joined.len() as int) =~= joined);
    lemma_split_join(front);
}

} // verus!
