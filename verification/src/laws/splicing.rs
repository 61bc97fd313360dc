//! Lines, slices and what a suggestion makes of a line.

use vstd::prelude::*;
use vstd::string::*;
use vstd::utf8::*;

use crate::diagnostic::SuggestionView;
use crate::layout;
use crate::lines;
use crate::offsets;

verus! {

/// Pieces with newlines between them.
pub open spec fn with_newlines(pieces: Seq<Seq<char>>) -> Seq<char>
    decreases pieces.len(),
{
    if pieces.len() == 0 {
        seq![]
    } else if pieces.len() == 1 {
        pieces[0]
    } else {
        pieces[0] + seq!['\n'] + with_newlines(pieces.drop_first())
    }
}

proof fn lemma_has_pieces(s: Seq<char>)
    ensures
        lines::pieces_of(s).len() > 0,
{
}

/// The pieces of a text, put together with newlines, are the text.
pub proof fn law_pieces_make_the_text(s: Seq<char>)
    ensures
        with_newlines(lines::pieces_of(s)) == s,
    decreases s.len(),
{
    lines::lemma_first_newline(s);
    let k = lines::first_newline(s) as int;
    if k < s.len() {
        let rest = s.skip(k + 1);
        law_pieces_make_the_text(rest);
        lemma_has_pieces(rest);
        let pieces = lines::pieces_of(s);
        assert(pieces.drop_first() == lines::pieces_of(rest));
        assert(s == s.take(k) + seq!['\n'] + rest);
    }
}

/// No piece of a text holds a newline.
pub proof fn law_pieces_hold_no_newline(s: Seq<char>, i: int, j: int)
    requires
        0 <= i < lines::pieces_of(s).len(),
        0 <= j < lines::pieces_of(s)[i].len(),
    ensures
        lines::pieces_of(s)[i][j] != '\n',
    decreases s.len(),
{
    lines::lemma_first_newline(s);
    let k = lines::first_newline(s) as int;
    if k < s.len() && i > 0 {
        let rest = s.skip(k + 1);
        assert(lines::pieces_of(s)[i] == lines::pieces_of(rest)[i - 1]);
        law_pieces_hold_no_newline(rest, i - 1, j);
    }
}

/// No line of a text holds a newline.
pub proof fn law_lines_hold_no_newline(s: Seq<char>, i: int, j: int)
    requires
        0 <= i < lines::lines_of(s).len(),
        0 <= j < lines::lines_of(s)[i].len(),
    ensures
        lines::lines_of(s)[i][j] != '\n',
    decreases s.len(),
{
    lines::lemma_first_newline(s);
    let k = lines::first_newline(s) as int;
    if k < s.len() {
        if i > 0 {
            let rest = s.skip(k + 1);
            assert(lines::lines_of(s)[i] == lines::lines_of(rest)[i - 1]);
            law_lines_hold_no_newline(rest, i - 1, j);
        } else {
            assert(lines::lines_of(s)[0] == lines::without_cr(s.take(k)));
        }
    }
}

/// The two ends of a slice may be given in either order.
pub proof fn law_slice_takes_its_ends_in_any_order(s: Seq<char>, a: int, b: int)
    ensures
        offsets::snapped_slice(s, a, b) == offsets::snapped_slice(s, b, a),
{
}

/// Between character boundaries a slice is exactly the bytes that were asked for.
pub proof fn law_slice_between_boundaries_is_exact(s: Seq<char>, i: int, j: int)
    requires
        0 <= i <= j <= s.len(),
    ensures
        offsets::snapped_slice(
            s,
            offsets::byte_len(s.take(i)) as int,
            offsets::byte_len(s.take(j)) as int,
        ) == s.subrange(i, j),
{
    lemma_prefix_offset(s, i);
    lemma_prefix_offset(s, j);
}

proof fn lemma_prefix_offset(s: Seq<char>, k: int)
    requires
        0 <= k <= s.len(),
    ensures
        offsets::chars_within(s, offsets::byte_len(s.take(k)) as int) == k,
{
    if k < s.len() {
        offsets::lemma_byte_len_take_monotonic(s, k, k + 1);
    }
    offsets::lemma_chars_within_unique(s, offsets::byte_len(s.take(k)) as int, k);
}

proof fn lemma_chars_within_monotonic(s: Seq<char>, a: int, b: int)
    requires
        0 <= a <= b,
    ensures
        offsets::chars_within(s, a) <= offsets::chars_within(s, b) <= s.len(),
{
    offsets::lemma_chars_within(s, a);
    offsets::lemma_chars_within(s, b);
    let i = offsets::chars_within(s, a) as int;
    let j = offsets::chars_within(s, b) as int;
    if j < i {
        offsets::lemma_byte_len_take_monotonic(s, j + 1, i);
    }
}

/// A suggestion leaves everything of the line in place but what lies in its span.
pub proof fn law_suggestion_replaces_its_span_only(s: SuggestionView, line: Seq<char>)
    ensures
        ({
            let (start, end) = layout::replaced_bytes(s, line);
            layout::kept_prefix(s, line) + offsets::snapped_slice(line, start as int, end as int)
                + layout::kept_suffix(s, line) == line
        }),
{
    let (start, end) = layout::replaced_bytes(s, line);
    let bytes = offsets::byte_len(line) as int;
    lemma_chars_within_monotonic(line, 0, start as int);
    lemma_chars_within_monotonic(line, start as int, end as int);
    lemma_chars_within_monotonic(line, end as int, bytes);
    assert(line.take(0) == Seq::<char>::empty());
    lemma_prefix_offset(line, 0);
    assert(line.take(line.len() as int) == line);
    lemma_prefix_offset(line, line.len() as int);
}

proof fn lemma_spliced(head: Seq<char>, pieces: Seq<Seq<char>>, tail: Seq<char>)
    requires
        pieces.len() > 0,
    ensures
        with_newlines(layout::spliced(head, pieces, tail)) == head + with_newlines(pieces) + tail,
    decreases pieces.len(),
{
    let all = layout::spliced(head, pieces, tail);
    if pieces.len() == 1 {
        assert(all[0] == head + pieces[0] + tail);
    } else {
        let rest = pieces.drop_first();
        lemma_spliced(seq![], rest, tail);
        let more = layout::spliced(seq![], rest, tail);
        assert(all.drop_first() =~= more) by {
            assert forall|i: int| 0 <= i < more.len() implies #[trigger] all.drop_first()[i]
                == more[i] by {
                assert(all.drop_first()[i] == all[i + 1]);
                assert(all[i + 1] == Seq::<char>::empty() + pieces[i + 1] + (if i + 1
                    == pieces.len() - 1 {
                    tail
                } else {
                    seq![]
                }));
                assert(more[i] =~= Seq::<char>::empty() + rest[i] + (if i == rest.len() - 1 {
                    tail
                } else {
                    seq![]
                }));
            }
        }
        assert(all[0] =~= head + pieces[0]);
        assert(with_newlines(all) == all[0] + seq!['\n'] + with_newlines(more));
        assert(with_newlines(pieces) == pieces[0] + seq!['\n'] + with_newlines(rest));
        assert(all[0] + seq!['\n'] + (Seq::<char>::empty() + with_newlines(rest) + tail) =~= head + (
        pieces[0] + seq!['\n'] + with_newlines(rest)) + tail);
    }
}

/// The lines that a suggestion makes of a line are what comes of putting its replacement between
/// what is kept of the line.
pub proof fn law_suggestion_splices_its_replacement(s: SuggestionView, line: Seq<char>)
    ensures
        with_newlines(layout::rewritten(s, line)) == layout::kept_prefix(s, line) + s.replacement
            + layout::kept_suffix(s, line),
{
    lemma_has_pieces(s.replacement);
    lemma_spliced(
        layout::kept_prefix(s, line),
        lines::pieces_of(s.replacement),
        layout::kept_suffix(s, line),
    );
    law_pieces_make_the_text(s.replacement);
}

/// Whether the first `k` characters of `s`, and no more of them, lie within its first `offset`
/// bytes.
pub open spec fn fit_within(s: Seq<char>, offset: int, k: int) -> bool {
    &&& 0 <= k <= s.len()
    &&& encode_utf8(s.take(k)).len() <= offset
    &&& k < s.len() ==> offset < encode_utf8(s.take(k + 1)).len()
}

proof fn lemma_fit_within(s: Seq<char>, offset: int, k: int)
    requires
        fit_within(s, offset, k),
    ensures
        offsets::chars_within(s, offset) == k,
{
    offsets::lemma_chars_within_unique(s, offset, k);
}

/// Every offset has characters that fit within it, and a slice between two offsets holds what fits
/// within the larger and not within the smaller.
pub proof fn law_slice_holds_what_lies_between(s: Seq<char>, a: int, b: int)
    requires
        0 <= a <= b,
    ensures
        exists|i: int| #[trigger] fit_within(s, a, i),
        exists|j: int| #[trigger] fit_within(s, b, j),
        forall|i: int, j: int| #[trigger]
            fit_within(s, a, i) && #[trigger] fit_within(s, b, j) ==> i <= j
                && offsets::snapped_slice(s, a, b) == s.subrange(i, j),
{
    offsets::lemma_chars_within(s, a);
    offsets::lemma_chars_within(s, b);
    assert(fit_within(s, a, offsets::chars_within(s, a) as int));
    assert(fit_within(s, b, offsets::chars_within(s, b) as int));
    assert forall|i: int, j: int| #[trigger] fit_within(s, a, i) && #[trigger] fit_within(s, b, j)
        implies i <= j && offsets::snapped_slice(s, a, b) == s.subrange(i, j) by {
        lemma_fit_within(s, a, i);
        lemma_fit_within(s, b, j);
        lemma_chars_within_monotonic(s, a, b);
    }
}

proof fn lemma_pieces_of_joined(pieces: Seq<Seq<char>>)
    requires
        pieces.len() > 0,
        forall|i: int, j: int|
            0 <= i < pieces.len() && 0 <= j < pieces[i].len() ==> #[trigger] pieces[i][j] != '\n',
    ensures
        lines::pieces_of(with_newlines(pieces)) == pieces,
    decreases pieces.len(),
{
    let s = with_newlines(pieces);
    lines::lemma_first_newline(s);
    let k = lines::first_newline(s) as int;
    if pieces.len() == 1 {
        if k < s.len() {
            assert(pieces[0][k] == '\n');
        }
        assert(lines::pieces_of(s) == seq![pieces[0]]);
    } else {
        let first = pieces[0].len() as int;
        let rest = pieces.drop_first();
        assert(s[first] == '\n');
        if k < first {
            assert(s[k] == pieces[0][k]);
        }
        assert(k == first);
        assert forall|i: int, j: int|
            0 <= i < rest.len() && 0 <= j < rest[i].len() implies #[trigger] rest[i][j] != '\n' by {
            assert(rest[i][j] == pieces[i + 1][j]);
        }
        lemma_pieces_of_joined(rest);
        assert(s.take(k) == pieces[0]);
        assert(s.skip(k + 1) == with_newlines(rest));
        assert(seq![pieces[0]] + rest == pieces);
    }
}

proof fn lemma_rewritten_holds_no_newline(s: SuggestionView, line: Seq<char>, i: int, j: int)
    requires
        forall|k: int| 0 <= k < line.len() ==> #[trigger] line[k] != '\n',
        0 <= i < layout::rewritten(s, line).len(),
        0 <= j < layout::rewritten(s, line)[i].len(),
    ensures
        layout::rewritten(s, line)[i][j] != '\n',
{
    let pieces = lines::pieces_of(s.replacement);
    let head = if i == 0 {
        layout::kept_prefix(s, line)
    } else {
        seq![]
    };
    let (start, end) = layout::replaced_bytes(s, line);
    let bytes = offsets::byte_len(line) as int;
    lemma_chars_within_monotonic(line, 0, start as int);
    lemma_chars_within_monotonic(line, end as int, bytes);
    if j >= head.len() && j - head.len() < pieces[i].len() {
        law_pieces_hold_no_newline(s.replacement, i, j - head.len());
    }
}

/// A suggestion puts its replacement where its span is. With `bytes` the length of the line, the
/// span reaches from byte `column - 1` over `length` bytes, as far as the line goes; what fits
/// within its start stays before the replacement, and what does not fit within its end stays behind
/// it. The new lines are the lines of that.
pub proof fn law_suggestion_puts_its_replacement_at_its_span(
    s: SuggestionView,
    line: Seq<char>,
    i: int,
    j: int,
)
    requires
        forall|k: int| 0 <= k < line.len() ==> #[trigger] line[k] != '\n',
        ({
            let bytes = encode_utf8(line).len() as int;
            let from = if s.span.column == 0 {
                0
            } else {
                s.span.column - 1
            };
            let start = if from < bytes {
                from
            } else {
                bytes
            };
            let end = if start + s.span.length < bytes {
                start + s.span.length
            } else {
                bytes
            };
            fit_within(line, start, i) && fit_within(line, end, j)
        }),
    ensures
        layout::rewritten(s, line) == lines::pieces_of(
            line.take(i) + s.replacement + line.skip(j),
        ),
        with_newlines(layout::rewritten(s, line)) == line.take(i) + s.replacement + line.skip(j),
        s.span.length == 0 ==> i == j,
{
    let (start, end) = layout::replaced_bytes(s, line);
    let bytes = offsets::byte_len(line) as int;
    lemma_fit_within(line, start as int, i);
    lemma_fit_within(line, end as int, j);
    lemma_chars_within_monotonic(line, 0, start as int);
    lemma_chars_within_monotonic(line, end as int, bytes);
    assert(line.take(0) == Seq::<char>::empty());
    lemma_prefix_offset(line, 0);
    assert(line.take(line.len() as int) == line);
    lemma_prefix_offset(line, line.len() as int);
    assert(layout::kept_prefix(s, line) == line.take(i));
    assert(layout::kept_suffix(s, line) == line.skip(j));
    law_suggestion_splices_its_replacement(s, line);
    let new_lines = layout::rewritten(s, line);
    lemma_has_pieces(s.replacement);
    assert forall|x: int, y: int|
        0 <= x < new_lines.len() && 0 <= y < new_lines[x].len() implies #[trigger] new_lines[x][y]
        != '\n' by {
        lemma_rewritten_holds_no_newline(s, line, x, y);
    }
    lemma_pieces_of_joined(new_lines);
}

/// A suggestion of length 0 inserts and takes nothing away: the line is a beginning and an end, and
/// the replacement comes between them.
pub proof fn law_insertion_takes_nothing_away(s: SuggestionView, line: Seq<char>)
    requires
        s.span.length == 0,
        forall|k: int| 0 <= k < line.len() ==> #[trigger] line[k] != '\n',
    ensures
        exists|i: int|
            0 <= i <= line.len() && with_newlines(layout::rewritten(s, line)) == (
            #[trigger] line.take(i)) + s.replacement + line.skip(i),
        s.replacement.len() == 0 ==> layout::rewritten(s, line) == seq![line],
{
    let (start, end) = layout::replaced_bytes(s, line);
    law_slice_holds_what_lies_between(line, start as int, end as int);
    let i = choose|i: int| #[trigger] fit_within(line, start as int, i);
    law_suggestion_puts_its_replacement_at_its_span(s, line, i, i);
    assert(with_newlines(layout::rewritten(s, line)) == line.take(i) + s.replacement + line.skip(i));
    if s.replacement.len() == 0 {
        assert(line.take(i) + s.replacement + line.skip(i) == line);
        lines::lemma_first_newline(line);
        assert(lines::pieces_of(line) == seq![line]);
    }
}

/// The lines of a text are its pieces between newlines, without a carriage return that stands
/// before a newline. An empty piece behind the last newline is no line.
pub proof fn law_lines_are_pieces(s: Seq<char>)
    ensures
        ({
            let pieces = lines::pieces_of(s);
            let all = lines::lines_of(s);
            let n = if pieces.last().len() == 0 {
                pieces.len() - 1
            } else {
                pieces.len() as int
            };
            &&& pieces.len() > 0
            &&& all.len() == n
            &&& forall|i: int|
                0 <= i < n ==> #[trigger] all[i] == if i < pieces.len() - 1 && pieces[i].len() > 0
                    && pieces[i].last() == '\r' {
                    pieces[i].drop_last()
                } else {
                    pieces[i]
                }
        }),
    decreases s.len(),
{
    lines::lemma_first_newline(s);
    let k = lines::first_newline(s) as int;
    let pieces = lines::pieces_of(s);
    let all = lines::lines_of(s);
    if k >= s.len() {
        assert(pieces == seq![s]);
    } else {
        let rest = s.skip(k + 1);
        law_lines_are_pieces(rest);
        let later_pieces = lines::pieces_of(rest);
        let later = lines::lines_of(rest);
        assert(pieces.last() == later_pieces.last());
        assert(all == seq![lines::without_cr(s.take(k))] + later);
        assert forall|i: int| 0 <= i < all.len() implies #[trigger] all[i] == if i < pieces.len()
            - 1 && pieces[i].len() > 0 && pieces[i].last() == '\r' {
            pieces[i].drop_last()
        } else {
            pieces[i]
        } by {
            if i > 0 {
                assert(all[i] == later[i - 1]);
                assert(pieces[i] == later_pieces[i - 1]);
            }
        }
    }
}

} // verus!
