//! Mapping byte offsets of a source text to line numbers.

use vstd::prelude::*;
use vstd::string::*;

verus! {

/// The line feed byte, which ends a line.
pub const LINE_FEED: u8 = 10;

/// Index of the first line feed in `bytes`, or `bytes.len()` if there is none.
pub open spec fn first_line_feed(bytes: Seq<u8>) -> nat
    decreases bytes.len(),
{
    if bytes.len() == 0 || bytes[0] == LINE_FEED {
        0
    } else {
        1 + first_line_feed(bytes.drop_first())
    }
}

/// The byte lengths of the lines of a text. A line ends at a line feed and
/// holds every byte before it, a carriage return too; the line feed itself
/// is the line's terminator and is not part of the line. Text after the last
/// line feed is a line of its own unless it is empty.
pub open spec fn line_lengths(bytes: Seq<u8>) -> Seq<nat>
    decreases bytes.len(),
{
    if bytes.len() == 0 {
        Seq::empty()
    } else {
        let feed = first_line_feed(bytes);
        if feed >= bytes.len() {
            seq![bytes.len()]
        } else {
            seq![feed] + line_lengths(bytes.skip(feed as int + 1))
        }
    }
}

/// The 1-indexed number of the first line whose cumulative end exceeds
/// `offset`, where every line takes its length and one more for its
/// terminator; the number of lines if no line reaches that far.
pub open spec fn line_at(lengths: Seq<nat>, offset: int) -> nat
    decreases lengths.len(),
{
    if lengths.len() == 0 {
        0
    } else if offset < lengths[0] + 1 {
        1
    } else {
        1 + line_at(lengths.drop_first(), offset - (lengths[0] + 1))
    }
}

/// The line number of byte `offset` in a text given by its bytes.
pub open spec fn line_number(bytes: Seq<u8>, offset: int) -> nat {
    line_at(line_lengths(bytes), offset)
}

/// In a text without line feed before `n`, and with one at `n` or ending
/// there, the first line feed is found at `n`.
pub proof fn lemma_first_line_feed(bytes: Seq<u8>, n: int)
    requires
        0 <= n <= bytes.len(),
        forall|i: int| 0 <= i < n ==> bytes[i] != LINE_FEED,
        n < bytes.len() ==> bytes[n] == LINE_FEED,
    ensures
        first_line_feed(bytes) == n,
    decreases n,
{
    if n > 0 {
        let rest = bytes.drop_first();
        assert forall|i: int| 0 <= i < n - 1 implies rest[i] != LINE_FEED by {
            assert(rest[i] == bytes[i + 1]);
        }
        lemma_first_line_feed(rest, n - 1);
    }
}

/// A line number never exceeds the number of lines, and is at least 1
/// where there is a line.
pub proof fn lemma_line_at_bounded(lengths: Seq<nat>, offset: int)
    ensures
        line_at(lengths, offset) <= lengths.len(),
        lengths.len() > 0 ==> line_at(lengths, offset) >= 1,
    decreases lengths.len(),
{
    if lengths.len() > 0 && offset >= lengths[0] + 1 {
        lemma_line_at_bounded(lengths.drop_first(), offset - (lengths[0] + 1));
    }
}

/// Every offset of a text that is not empty lies on one of its lines: the
/// line number is at least 1 and at most the number of lines.
pub proof fn lemma_line_number_in_range(bytes: Seq<u8>, offset: int)
    requires
        bytes.len() > 0,
    ensures
        1 <= line_number(bytes, offset) <= line_lengths(bytes).len(),
{
    lemma_line_at_bounded(line_lengths(bytes), offset);
}

/// The number of line feeds among some bytes.
pub open spec fn count_line_feeds(bytes: Seq<u8>) -> nat
    decreases bytes.len(),
{
    if bytes.len() == 0 {
        0
    } else {
        let last: nat = if bytes.last() == LINE_FEED {
            1
        } else {
            0
        };
        count_line_feeds(bytes.drop_last()) + last
    }
}

/// The line feeds of two rows of bytes, one after the other.
proof fn lemma_count_line_feeds_add(a: Seq<u8>, b: Seq<u8>)
    ensures
        count_line_feeds(a + b) == count_line_feeds(a) + count_line_feeds(b),
    decreases b.len(),
{
    if b.len() == 0 {
        assert(a + b =~= a);
    } else {
        assert((a + b).drop_last() =~= a + b.drop_last());
        assert((a + b).last() == b.last());
        lemma_count_line_feeds_add(a, b.drop_last());
    }
}

/// Bytes without a line feed count none.
proof fn lemma_count_line_feeds_none(bytes: Seq<u8>)
    requires
        forall|i: int| 0 <= i < bytes.len() ==> bytes[i] != LINE_FEED,
    ensures
        count_line_feeds(bytes) == 0,
    decreases bytes.len(),
{
    if bytes.len() > 0 {
        let shorter = bytes.drop_last();
        assert forall|i: int| 0 <= i < shorter.len() implies shorter[i] != LINE_FEED by {
            assert(shorter[i] == bytes[i]);
        }
        lemma_count_line_feeds_none(shorter);
    }
}

/// The first line feed lies within the text or at its end, no line feed
/// comes before it, and it is a line feed if it lies within.
proof fn lemma_first_line_feed_is_first(bytes: Seq<u8>)
    ensures
        first_line_feed(bytes) <= bytes.len(),
        forall|i: int| 0 <= i < first_line_feed(bytes) ==> bytes[i] != LINE_FEED,
        first_line_feed(bytes) < bytes.len() ==> bytes[first_line_feed(bytes) as int] == LINE_FEED,
    decreases bytes.len(),
{
    if bytes.len() > 0 && bytes[0] != LINE_FEED {
        let rest = bytes.drop_first();
        lemma_first_line_feed_is_first(rest);
        assert forall|i: int| 0 <= i < first_line_feed(bytes) implies bytes[i] != LINE_FEED by {
            if i > 0 {
                assert(bytes[i] == rest[i - 1]);
            }
        }
        if first_line_feed(bytes) < bytes.len() {
            assert(bytes[first_line_feed(bytes) as int] == rest[first_line_feed(rest) as int]);
        }
    }
}

/// The line of an offset within a text is one more than the number of line
/// feeds before the offset.
pub proof fn lemma_line_number_counts_line_feeds(bytes: Seq<u8>, offset: int)
    requires
        0 <= offset < bytes.len(),
    ensures
        line_number(bytes, offset) == 1 + count_line_feeds(bytes.take(offset)),
    decreases bytes.len(),
{
    let feed = first_line_feed(bytes) as int;
    lemma_first_line_feed_is_first(bytes);
    let before = bytes.take(offset);
    if offset <= feed {
        assert forall|i: int| 0 <= i < before.len() implies before[i] != LINE_FEED by {
            assert(before[i] == bytes[i]);
        }
        lemma_count_line_feeds_none(before);
    } else {
        let rest = bytes.skip(feed + 1);
        let lengths = line_lengths(bytes);
        assert(lengths.drop_first() =~= line_lengths(rest));
        lemma_line_number_counts_line_feeds(rest, offset - feed - 1);
        let first_line = bytes.take(feed);
        assert forall|i: int| 0 <= i < first_line.len() implies first_line[i] != LINE_FEED by {
            assert(first_line[i] == bytes[i]);
        }
        lemma_count_line_feeds_none(first_line);
        let ended = first_line + seq![LINE_FEED];
        assert(ended.drop_last() =~= first_line);
        assert(before =~= ended + rest.take(offset - feed - 1));
        lemma_count_line_feeds_add(ended, rest.take(offset - feed - 1));
    }
}

/// An offset at or past the end of a text gives the last line.
pub proof fn lemma_line_number_past_end(bytes: Seq<u8>, offset: int)
    requires
        offset >= bytes.len(),
    ensures
        line_number(bytes, offset) == line_lengths(bytes).len(),
    decreases bytes.len(),
{
    if bytes.len() > 0 {
        let feed = first_line_feed(bytes) as int;
        lemma_first_line_feed_is_first(bytes);
        let lengths = line_lengths(bytes);
        if feed < bytes.len() {
            let rest = bytes.skip(feed + 1);
            assert(lengths.drop_first() =~= line_lengths(rest));
            lemma_line_number_past_end(rest, offset - feed - 1);
        } else {
            assert(lengths.drop_first().len() == 0);
            assert(line_at(lengths.drop_first(), offset - (lengths[0] + 1)) == 0);
        }
    }
}

/// Maps a byte offset in `source_text` to the 1-indexed number of the line
/// that holds it: the first line whose bytes, terminator included, reach
/// past the offset. Offsets past the end of the text give the last line; the
/// empty text has no line and gives 0.
pub fn get_line_number(source_text: &str, offset: usize) -> (line: usize)
    ensures
        line == line_number(source_text.spec_bytes(), offset as int),
{
    let bytes = source_text.as_bytes();
    let len = bytes.len();
    let mut start: usize = 0;
    let mut count: usize = 0;
    let mut pos: usize = 0;
    assert(bytes@.skip(0) =~= bytes@);
    while pos < len
        invariant
            bytes@ == source_text.spec_bytes(),
            len == bytes@.len(),
            start <= pos <= len,
            count <= start,
            start <= offset,
            forall|i: int| start <= i < pos ==> bytes@[i] != LINE_FEED,
            line_number(bytes@, offset as int) == count + line_at(
                line_lengths(bytes@.skip(start as int)),
                offset - start,
            ),
        decreases len - pos,
    {
        if bytes[pos] == LINE_FEED {
            proof {
                let rest = bytes@.skip(start as int);
                let feed = pos - start;
                assert forall|i: int| 0 <= i < feed implies rest[i] != LINE_FEED by {
                    assert(rest[i] == bytes@[start + i]);
                }
                lemma_first_line_feed(rest, feed);
                assert(rest.skip(feed + 1) =~= bytes@.skip(pos + 1));
                let lengths = line_lengths(rest);
                assert(lengths.drop_first() =~= line_lengths(bytes@.skip(pos + 1)));
            }
            if offset <= pos {
                return count + 1;
            }
            count = count + 1;
            start = pos + 1;
        }
        pos = pos + 1;
    }
    proof {
        let rest = bytes@.skip(start as int);
        if start < len {
            assert forall|i: int| 0 <= i < rest.len() implies rest[i] != LINE_FEED by {
                assert(rest[i] == bytes@[start + i]);
            }
            lemma_first_line_feed(rest, rest.len() as int);
            let lengths = line_lengths(rest);
            assert(lengths =~= seq![rest.len()]);
            assert(lengths.drop_first().len() == 0);
            assert(line_at(lengths.drop_first(), offset - start - (lengths[0] + 1)) == 0);
            assert(line_at(lengths, offset - start) == 1);
        } else {
            assert(rest.len() == 0);
            assert(line_lengths(rest).len() == 0);
        }
    }
    if start < len {
        count + 1
    } else {
        count
    }
}

} // verus!
