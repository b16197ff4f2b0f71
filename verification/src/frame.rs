//! Framing: a message is a line of text, ended by a line feed.
//!
//! The network hands bytes on in pieces of any size. [`LineBuffer`] collects
//! them and cuts out the lines that are complete.

use vstd::prelude::*;
use vstd::utf8::{decode_utf8, encode_utf8, valid_utf8};
use crate::text::concat2;

verus! {

/// The byte that ends a line.
pub const LINE_FEED: u8 = 10;

/// What is sent for a line.
pub open spec fn framed(line: Seq<char>) -> Seq<char> {
    line + "\n"@
}

/// What is sent for a line.
pub fn frame(line: &str) -> (text: String)
    ensures
        text@ == framed(line@),
{
    concat2(line, "\n")
}

/// The index of the first line feed, or the number of bytes if there is none.
pub open spec fn feed_index(bytes: Seq<u8>) -> int
    decreases bytes.len(),
{
    if bytes.len() == 0 || bytes[0] == LINE_FEED {
        0
    } else {
        1 + feed_index(bytes.drop_first())
    }
}

/// What is found is in range, with no line feed before it.
pub proof fn lemma_feed_index(bytes: Seq<u8>)
    ensures
        0 <= feed_index(bytes) <= bytes.len(),
        forall|k: int| 0 <= k < feed_index(bytes) ==> #[trigger] bytes[k] != LINE_FEED,
        feed_index(bytes) < bytes.len() ==> bytes[feed_index(bytes)] == LINE_FEED,
    decreases bytes.len(),
{
    if bytes.len() > 0 && bytes[0] != LINE_FEED {
        let t = bytes.drop_first();
        lemma_feed_index(t);
        assert forall|k: int| 0 <= k < feed_index(bytes) implies #[trigger] bytes[k]
            != LINE_FEED by {
            if k > 0 {
                assert(bytes[k] == t[k - 1]);
            }
        }
    }
}

/// An index with no line feed before it, and one at it or nothing at all, is
/// the one that is found.
proof fn lemma_feed_index_is(bytes: Seq<u8>, i: int)
    requires
        0 <= i <= bytes.len(),
        forall|k: int| 0 <= k < i ==> #[trigger] bytes[k] != LINE_FEED,
        i < bytes.len() ==> bytes[i] == LINE_FEED,
    ensures
        feed_index(bytes) == i,
{
    lemma_feed_index(bytes);
    let j = feed_index(bytes);
    if j < i {
        assert(bytes[j] == LINE_FEED);
    } else if i < j {
        assert(bytes[i] != LINE_FEED);
    }
}

/// The lines that are complete in a stream of bytes, without their ends.
pub open spec fn complete_lines(bytes: Seq<u8>) -> Seq<Seq<u8>>
    decreases bytes.len(),
{
    let i = feed_index(bytes);
    if i < bytes.len() {
        proof {
            lemma_feed_index(bytes);
        }
        seq![bytes.take(i)] + complete_lines(bytes.skip(i + 1))
    } else {
        seq![]
    }
}

/// The start of a line that is not complete yet, at the end of a stream.
pub open spec fn unfinished(bytes: Seq<u8>) -> Seq<u8>
    decreases bytes.len(),
{
    let i = feed_index(bytes);
    if i < bytes.len() {
        proof {
            lemma_feed_index(bytes);
        }
        unfinished(bytes.skip(i + 1))
    } else {
        bytes
    }
}

/// The bytes of each line.
pub open spec fn raw_lines(lines: Seq<Vec<u8>>) -> Seq<Seq<u8>> {
    lines.map_values(|line: Vec<u8>| line@)
}

/// The bytes of a line that is not complete yet.
pub struct LineBuffer {
    pending: Vec<u8>,
}

impl LineBuffer {
    /// What is kept of the bytes so far.
    pub closed spec fn view(&self) -> Seq<u8> {
        self.pending@
    }

    /// A buffer at the start of a stream.
    pub fn new() -> (buffer: LineBuffer)
        ensures
            buffer@ == Seq::<u8>::empty(),
    {
        LineBuffer { pending: Vec::new() }
    }

    /// Takes the next bytes of the stream, and gives the lines that they
    /// complete.
    pub fn feed(&mut self, chunk: &[u8]) -> (lines: Vec<Vec<u8>>)
        ensures
            raw_lines(lines@) == complete_lines(old(self)@ + chunk@),
            final(self)@ == unfinished(old(self)@ + chunk@),
    {
        let mut all: Vec<u8> = Vec::new();
        let mut k: usize = 0;
        while k < self.pending.len()
            invariant
                k <= self.pending.len(),
                all@ == self.pending@.take(k as int),
            decreases self.pending.len() - k,
        {
            all.push(self.pending[k]);
            assert(self.pending@.take(k + 1) == self.pending@.take(k as int).push(
                self.pending@[k as int],
            ));
            k = k + 1;
        }
        assert(self.pending@.take(k as int) == self.pending@);
        k = 0;
        while k < chunk.len()
            invariant
                k <= chunk.len(),
                all@ == self.pending@ + chunk@.take(k as int),
            decreases chunk.len() - k,
        {
            all.push(chunk[k]);
            assert(chunk@.take(k + 1) == chunk@.take(k as int).push(chunk@[k as int]));
            k = k + 1;
        }
        assert(chunk@.take(k as int) == chunk@);
        let ghost stream = all@;
        let mut lines: Vec<Vec<u8>> = Vec::new();
        let mut line: Vec<u8> = Vec::new();
        let mut i: usize = 0;
        assert(raw_lines(lines@) == Seq::<Seq<u8>>::empty());
        assert(stream.skip(0) == stream);
        while i < all.len()
            invariant
                i <= all.len(),
                stream == all@,
                line.len() <= i,
                line@ == stream.subrange(i - line.len(), i as int),
                forall|j: int| 0 <= j < line.len() ==> #[trigger] line@[j] != LINE_FEED,
                complete_lines(stream) == raw_lines(lines@) + complete_lines(
                    stream.skip(i - line.len()),
                ),
                unfinished(stream) == unfinished(stream.skip(i - line.len())),
            decreases all.len() - i,
        {
            let byte: u8 = all[i];
            if byte == LINE_FEED {
                proof {
                    let rest = stream.skip(i - line.len());
                    let n = line.len() as int;
                    assert forall|j: int| 0 <= j < n implies #[trigger] rest[j] != LINE_FEED by {
                        assert(rest[j] == line@[j]);
                    }
                    lemma_feed_index_is(rest, n);
                    assert(rest.take(n) == line@);
                    assert(rest.skip(n + 1) == stream.skip(i + 1));
                    assert(raw_lines(lines@.push(line)) == raw_lines(lines@).push(line@));
                    assert(raw_lines(lines@) + (seq![line@] + complete_lines(stream.skip(i + 1)))
                        =~= raw_lines(lines@).push(line@) + complete_lines(stream.skip(i + 1)));
                }
                lines.push(line);
                line = Vec::new();
            } else {
                line.push(byte);
                assert(line@ =~= stream.subrange(i + 1 - line.len(), i + 1));
            }
            i = i + 1;
        }
        proof {
            let rest = stream.skip(i - line.len());
            assert(rest == line@);
            lemma_feed_index_is(rest, line.len() as int);
            assert(raw_lines(lines@) + Seq::<Seq<u8>>::empty() =~= raw_lines(lines@));
        }
        self.pending = line;
        lines
    }
}

/// `std::str::from_utf8`: a string for bytes that are valid UTF-8, namely the
/// one that they encode, and for no others.
#[verifier::external_body]
pub(crate) fn text_of(bytes: &[u8]) -> (text: Option<String>)
    ensures
        text is Some <==> valid_utf8(bytes@),
        text matches Some(text) ==> text@ == decode_utf8(bytes@),
{
    std::str::from_utf8(bytes).ok().map(str::to_owned)
}

// ---------------------------------------------------------------------------
// Laws

/// How a stream is cut into pieces does not matter: the lines that two pieces
/// complete, one after the other, are those of both together, and so is what
/// is left.
pub proof fn law_pieces_do_not_matter(a: Seq<u8>, b: Seq<u8>)
    ensures
        complete_lines(a + b) == complete_lines(a) + complete_lines(unfinished(a) + b),
        unfinished(a + b) == unfinished(unfinished(a) + b),
    decreases a.len(),
{
    lemma_feed_index(a);
    let i = feed_index(a);
    if i < a.len() {
        assert forall|k: int| 0 <= k < i implies #[trigger] (a + b)[k] != LINE_FEED by {
            assert((a + b)[k] == a[k]);
        }
        lemma_feed_index_is(a + b, i);
        assert((a + b).take(i) == a.take(i));
        assert((a + b).skip(i + 1) == a.skip(i + 1) + b);
        law_pieces_do_not_matter(a.skip(i + 1), b);
        let tail = complete_lines(unfinished(a) + b);
        assert(seq![a.take(i)] + (complete_lines(a.skip(i + 1)) + tail) =~= (seq![a.take(i)]
            + complete_lines(a.skip(i + 1))) + tail);
    } else {
        assert(complete_lines(a) + complete_lines(a + b) =~= complete_lines(a + b));
    }
}

/// The bytes of two strings, one behind the other.
pub proof fn lemma_encode_concat(a: Seq<char>, b: Seq<char>)
    ensures
        encode_utf8(a + b) == encode_utf8(a) + encode_utf8(b),
    decreases a.len(),
{
    if a.len() == 0 {
        assert(a + b == b);
        assert(encode_utf8(a) + encode_utf8(b) =~= encode_utf8(b));
    } else {
        assert((a + b).drop_first() == a.drop_first() + b);
        assert((a + b)[0] == a[0]);
        lemma_encode_concat(a.drop_first(), b);
        let head = vstd::utf8::encode_scalar(a[0] as u32);
        assert(head + (encode_utf8(a.drop_first()) + encode_utf8(b)) =~= (head + encode_utf8(
            a.drop_first(),
        )) + encode_utf8(b));
    }
}

/// No byte of a character other than the line feed is the line feed.
proof fn lemma_scalar_has_no_feed(c: u32)
    by (bit_vector)
    requires
        c != 10,
        c <= 0x10ffff,
    ensures
        c <= 0x7f ==> vstd::utf8::leading_byte_width_1(c) != 10,
        c > 0x7f ==> vstd::utf8::leading_byte_width_2(c) != 10,
        c > 0x7f ==> vstd::utf8::leading_byte_width_3(c) != 10,
        c > 0x7f ==> vstd::utf8::leading_byte_width_4(c) != 10,
        vstd::utf8::last_continuation_byte(c) != 10,
        vstd::utf8::second_last_continuation_byte(c) != 10,
        vstd::utf8::third_last_continuation_byte(c) != 10,
{
}

/// The bytes of text without a line feed hold none.
pub proof fn lemma_no_feed_in_bytes(text: Seq<char>)
    requires
        !text.contains('\n'),
    ensures
        !encode_utf8(text).contains(LINE_FEED),
    decreases text.len(),
{
    if text.len() > 0 {
        let c = text[0];
        assert(text.contains(c));
        vstd::utf8::char_is_scalar(c);
        vstd::utf8::char_u32_cast(c, c as u32);
        assert(10u32 as char == '\n');
        lemma_scalar_has_no_feed(c as u32);
        let rest = text.drop_first();
        assert(!rest.contains('\n')) by {
            if rest.contains('\n') {
                let k = choose|k: int| 0 <= k < rest.len() && rest[k] == '\n';
                assert(text[k + 1] == '\n');
            }
        }
        lemma_no_feed_in_bytes(rest);
        let head = vstd::utf8::encode_scalar(c as u32);
        assert forall|k: int| 0 <= k < encode_utf8(text).len() implies #[trigger] encode_utf8(
            text,
        )[k] != LINE_FEED by {
            if k < head.len() {
                assert(encode_utf8(text)[k] == head[k]);
            } else {
                assert(encode_utf8(text)[k] == encode_utf8(rest)[k - head.len()]);
                assert(encode_utf8(rest).contains(encode_utf8(rest)[k - head.len()]));
            }
        }
    }
}

/// A line that is sent is received as it is, whatever follows it.
pub proof fn law_line_is_received(line: Seq<char>, more: Seq<u8>)
    requires
        !line.contains('\n'),
    ensures
        complete_lines(encode_utf8(framed(line)) + more) == seq![encode_utf8(line)]
            + complete_lines(more),
        unfinished(encode_utf8(framed(line)) + more) == unfinished(more),
        valid_utf8(encode_utf8(line)),
        decode_utf8(encode_utf8(line)) == line,
{
    reveal_strlit("\n");
    let feed = "\n"@;
    lemma_encode_concat(line, feed);
    let end = encode_utf8(feed);
    assert(feed.drop_first() =~= Seq::<char>::empty());
    assert(encode_utf8(feed.drop_first()) =~= Seq::<u8>::empty());
    assert(vstd::utf8::leading_byte_width_1(10u32) == 10u8) by (bit_vector);
    assert(end =~= seq![LINE_FEED]);
    lemma_no_feed_in_bytes(line);
    let body = encode_utf8(line);
    let stream = encode_utf8(framed(line)) + more;
    let n = body.len() as int;
    assert forall|k: int| 0 <= k < n implies #[trigger] stream[k] != LINE_FEED by {
        assert(stream[k] == body[k]);
        assert(body.contains(body[k]));
    }
    assert(stream[n] == LINE_FEED);
    lemma_feed_index_is(stream, n);
    assert(stream.take(n) =~= body);
    assert(stream.skip(n + 1) =~= more);
    vstd::utf8::encode_utf8_valid_utf8(line);
    vstd::utf8::encode_utf8_decode_utf8(line);
}

/// What is sent for several lines, one after the other.
pub open spec fn all_framed(lines: Seq<Seq<char>>) -> Seq<u8>
    decreases lines.len(),
{
    if lines.len() == 0 {
        seq![]
    } else {
        encode_utf8(framed(lines[0])) + all_framed(lines.drop_first())
    }
}

/// Lines that are sent one after the other are received as they are, in
/// order, and nothing is left.
pub proof fn law_lines_are_received(lines: Seq<Seq<char>>)
    requires
        forall|i: int| 0 <= i < lines.len() ==> !(#[trigger] lines[i]).contains('\n'),
    ensures
        complete_lines(all_framed(lines)) == lines.map_values(|line: Seq<char>| encode_utf8(line)),
        unfinished(all_framed(lines)) == Seq::<u8>::empty(),
    decreases lines.len(),
{
    let encoded = lines.map_values(|line: Seq<char>| encode_utf8(line));
    if lines.len() > 0 {
        let rest = lines.drop_first();
        assert forall|i: int| 0 <= i < rest.len() implies !(#[trigger] rest[i]).contains('\n') by {
            assert(rest[i] == lines[i + 1]);
        }
        assert(!lines[0].contains('\n'));
        law_lines_are_received(rest);
        law_line_is_received(lines[0], all_framed(rest));
        assert(seq![encode_utf8(lines[0])] + rest.map_values(|line: Seq<char>| encode_utf8(line))
            =~= encoded);
    } else {
        assert(encoded =~= Seq::<Seq<u8>>::empty());
    }
}

/// Bytes are cut at each line feed and nowhere else: what stands before the
/// first is a line, whatever it holds, and what stands behind the last waits.
pub proof fn law_bytes_are_cut_at_line_feeds(line: Seq<u8>, more: Seq<u8>)
    requires
        !line.contains(10),
    ensures
        complete_lines(line.push(10) + more) == seq![line] + complete_lines(more),
        unfinished(line.push(10) + more) == unfinished(more),
        complete_lines(line) == Seq::<Seq<u8>>::empty(),
        unfinished(line) == line,
{
    let stream = line.push(10) + more;
    let n = line.len() as int;
    assert forall|k: int| 0 <= k < n implies #[trigger] stream[k] != LINE_FEED by {
        assert(stream[k] == line[k]);
        assert(line.contains(line[k]));
    }
    lemma_feed_index_is(stream, n);
    assert(stream.take(n) =~= line);
    assert(stream.skip(n + 1) =~= more);
    assert forall|k: int| 0 <= k < n implies #[trigger] line[k] != LINE_FEED by {
        assert(line.contains(line[k]));
    }
    lemma_feed_index_is(line, n);
}

} // verus!
