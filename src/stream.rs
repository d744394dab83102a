//! The streamed reply reader: it frames a byte stream into lines, picks out
//! the `data: ` events, and gathers the text fragments that the decoded
//! events carry, in the order they arrive.

use vstd::prelude::*;
use vstd::seq_lib::lemma_flatten_concat;
use crate::model::{opt_text, ResponseEnvelope};

verus! {

/// The line feed that ends each line of the event stream.
pub const LINE_FEED: u8 = 10;

/// A carriage return, dropped where it ends a line.
pub const CARRIAGE_RETURN: u8 = 13;

/// What `String::from_utf8_lossy` makes of a byte sequence.
pub uninterp spec fn utf8_lossy(b: Seq<u8>) -> Seq<char>;

/// Relies on `String::from_utf8_lossy`: the text depends on the bytes alone;
/// invalid sequences are replaced, never refused.
#[verifier::external_body]
fn decode_lossy(b: &[u8]) -> (r: String)
    ensures
        r@ == utf8_lossy(b@),
{
    String::from_utf8_lossy(b).into_owned()
}

/// The bytes of the `data: ` prefix that marks an event line.
pub open spec fn data_prefix() -> Seq<u8> {
    seq![100u8, 97u8, 116u8, 97u8, 58u8, 32u8]
}

/// A line without the carriage return that may end it.
pub open spec fn trim_cr(line: Seq<u8>) -> Seq<u8> {
    if line.len() > 0 && line.last() == CARRIAGE_RETURN {
        line.drop_last()
    } else {
        line
    }
}

/// Whether a line (its carriage return dropped) is an event line.
pub open spec fn is_data_line(line: Seq<u8>) -> bool {
    let l = trim_cr(line);
    l.len() >= data_prefix().len() && l.subrange(0, data_prefix().len() as int) == data_prefix()
}

/// The text after `data: ` on an event line; nothing for any other line.
pub open spec fn payload_of(line: Seq<u8>) -> Option<Seq<char>> {
    if is_data_line(line) {
        let l = trim_cr(line);
        Some(utf8_lossy(l.subrange(data_prefix().len() as int, l.len() as int)))
    } else {
        None
    }
}

/// The complete lines of `s`, each without its line feed, and the bytes after
/// the last line feed, read one byte at a time from the front.
pub open spec fn split_lines(s: Seq<u8>) -> (Seq<Seq<u8>>, Seq<u8>)
    decreases s.len(),
{
    if s.len() == 0 {
        (Seq::empty(), Seq::empty())
    } else {
        let prev = split_lines(s.drop_last());
        if s.last() == LINE_FEED {
            (prev.0.push(prev.1), Seq::empty())
        } else {
            (prev.0, prev.1.push(s.last()))
        }
    }
}

/// The payloads of the event lines among `lines`, in order.
pub open spec fn payloads(lines: Seq<Seq<u8>>) -> Seq<Seq<char>>
    decreases lines.len(),
{
    if lines.len() == 0 {
        Seq::empty()
    } else {
        let prev = payloads(lines.drop_last());
        match payload_of(lines.last()) {
            Some(p) => prev.push(p),
            None => prev,
        }
    }
}

/// The texts of a sequence of strings.
pub open spec fn texts(v: Seq<String>) -> Seq<Seq<char>> {
    v.map_values(|s: String| s@)
}

/// Bytes with no line feed among them are one unfinished line.
pub proof fn lemma_split_without_line_feed(s: Seq<u8>)
    requires
        !s.contains(LINE_FEED),
    ensures
        split_lines(s) == (Seq::<Seq<u8>>::empty(), s),
    decreases s.len(),
{
    if s.len() > 0 {
        assert(!s.drop_last().contains(LINE_FEED)) by {
            if s.drop_last().contains(LINE_FEED) {
                let k = choose|k: int| 0 <= k < s.drop_last().len() && s.drop_last()[k] == LINE_FEED;
                assert(s[k] == LINE_FEED);
            }
        }
        lemma_split_without_line_feed(s.drop_last());
        assert(s.last() != LINE_FEED) by {
            assert(s[s.len() - 1] == s.last());
        }
        assert(s.drop_last().push(s.last()) == s);
    }
}

/// What is left after the last line feed holds no line feed.
pub proof fn lemma_split_rest_has_no_line_feed(s: Seq<u8>)
    ensures
        !split_lines(s).1.contains(LINE_FEED),
    decreases s.len(),
{
    if s.len() > 0 {
        lemma_split_rest_has_no_line_feed(s.drop_last());
        let prev = split_lines(s.drop_last());
        if s.last() != LINE_FEED {
            assert forall|k: int| 0 <= k < prev.1.push(s.last()).len() implies prev.1.push(
                s.last(),
            )[k] != LINE_FEED by {
                if k < prev.1.len() {
                    assert(prev.1.push(s.last())[k] == prev.1[k]);
                    assert(!prev.1.contains(LINE_FEED));
                }
            }
        }
    }
}

/// The payloads of two runs of lines, one after the other, are those of
/// the first run followed by those of the second.
pub proof fn lemma_payloads_concat(a: Seq<Seq<u8>>, b: Seq<Seq<u8>>)
    ensures
        payloads(a + b) == payloads(a) + payloads(b),
    decreases b.len(),
{
    if b.len() == 0 {
        assert(a + b == a);
        assert(payloads(a) + payloads(b) == payloads(a));
    } else {
        lemma_payloads_concat(a, b.drop_last());
        assert((a + b).drop_last() == a + b.drop_last());
        assert((a + b).last() == b.last());
    }
}

/// A line that is not an event line (a blank line, a comment) gives no
/// payload: the lines around it give what they give without it.
pub proof fn lemma_other_line_ignored(a: Seq<Seq<u8>>, line: Seq<u8>, b: Seq<Seq<u8>>)
    requires
        !is_data_line(line),
    ensures
        payloads(a + seq![line] + b) == payloads(a) + payloads(b),
{
    lemma_payloads_concat(a + seq![line], b);
    assert((a + seq![line]).drop_last() == a);
}

/// Splitting the input anywhere changes nothing: the lines completed by the
/// first part, then those that the rest completes after what the first part
/// left pending, are the lines of the whole, and what stays pending is the
/// same. So a line cut across two chunks is read once, whole.
pub proof fn lemma_split_anywhere(a: Seq<u8>, b: Seq<u8>)
    ensures
        split_lines(a + b) == (
            split_lines(a).0 + split_lines(split_lines(a).1 + b).0,
            split_lines(split_lines(a).1 + b).1,
        ),
    decreases b.len(),
{
    let rest = split_lines(a).1;
    if b.len() == 0 {
        assert(a + b == a);
        assert(rest + b == rest);
        lemma_split_rest_has_no_line_feed(a);
        lemma_split_without_line_feed(rest);
        assert(split_lines(a).0 + Seq::<Seq<u8>>::empty() == split_lines(a).0);
    } else {
        lemma_split_anywhere(a, b.drop_last());
        assert((a + b).drop_last() == a + b.drop_last());
        assert((a + b).last() == b.last());
        assert((rest + b).drop_last() == rest + b.drop_last());
        assert((rest + b).last() == b.last());
        let inner = split_lines(rest + b.drop_last());
        assert(split_lines(a).0 + inner.0.push(inner.1) == (split_lines(a).0 + inner.0).push(
            inner.1,
        ));
    }
}

/// Feeding the stream in two chunks hands out the same payloads as feeding it
/// in one, and leaves the same bytes pending.
pub proof fn lemma_chunking_invisible(pending: Seq<u8>, a: Seq<u8>, b: Seq<u8>)
    requires
        !pending.contains(LINE_FEED),
    ensures
        payloads(split_lines(pending + a + b).0) == payloads(split_lines(pending + a).0)
            + payloads(split_lines(split_lines(pending + a).1 + b).0),
        split_lines(pending + a + b).1 == split_lines(split_lines(pending + a).1 + b).1,
{
    lemma_split_anywhere(pending + a, b);
    lemma_payloads_concat(split_lines(pending + a).0, split_lines(split_lines(pending + a).1 + b).0);
}

/// Reads one line of the event stream (without its line feed): the text
/// after `data: ` on an event line, nothing on any other line.
pub fn frame_payload(line: &[u8]) -> (r: Option<String>)
    ensures
        opt_text(r) == payload_of(line@),
{
    let mut end: usize = line.len();
    if end > 0 && line[end - 1] == CARRIAGE_RETURN {
        end = end - 1;
    }
    let prefix: [u8; 6] = [100u8, 97u8, 116u8, 97u8, 58u8, 32u8];
    let ghost l = trim_cr(line@);
    assert(l == line@.subrange(0, end as int));
    if end < 6 {
        return None;
    }
    let mut i: usize = 0;
    while i < 6
        invariant
            i <= 6 <= end <= line@.len(),
            prefix@ == data_prefix(),
            l == line@.subrange(0, end as int),
            forall|k: int| 0 <= k < i ==> line@[k] == data_prefix()[k],
        decreases 6 - i,
    {
        if line[i] != prefix[i] {
            assert(l[i as int] != data_prefix()[i as int]);
            assert(l.subrange(0, 6)[i as int] != data_prefix()[i as int]);
            return None;
        }
        i = i + 1;
    }
    assert(l.subrange(0, 6) == data_prefix());
    let rest = &line[6..end];
    assert(rest@ == l.subrange(6, l.len() as int));
    Some(decode_lossy(rest))
}

/// The text fragment that one streamed reply object carries: the content of
/// the delta of its last choice, where there is one.
pub open spec fn fragment_of(env: ResponseEnvelope) -> Option<Seq<char>> {
    if env.choices@.len() == 0 {
        None
    } else {
        match env.choices@.last().delta {
            Some(d) => match d.content {
                Some(c) => Some(c@),
                None => None,
            },
            None => None,
        }
    }
}

/// The fragment of one event: a decoded reply object, or `None` where the
/// event's payload could not be decoded.
pub open spec fn event_fragment(event: Option<ResponseEnvelope>) -> Option<Seq<char>> {
    match event {
        Some(env) => fragment_of(env),
        None => None,
    }
}

/// The fragments of a sequence of events, in order.
pub open spec fn event_fragments(events: Seq<Option<ResponseEnvelope>>) -> Seq<Seq<char>>
    decreases events.len(),
{
    if events.len() == 0 {
        Seq::empty()
    } else {
        let prev = event_fragments(events.drop_last());
        match event_fragment(events.last()) {
            Some(f) => prev.push(f),
            None => prev,
        }
    }
}

/// The text that a sequence of events spells: its fragments joined with no
/// separator.
pub open spec fn stream_text(events: Seq<Option<ResponseEnvelope>>) -> Seq<char> {
    event_fragments(events).flatten()
}

/// The fragments of two runs of events, one after the other, are those of
/// the first run followed by those of the second.
pub proof fn lemma_fragments_concat(a: Seq<Option<ResponseEnvelope>>, b: Seq<Option<ResponseEnvelope>>)
    ensures
        event_fragments(a + b) == event_fragments(a) + event_fragments(b),
    decreases b.len(),
{
    if b.len() == 0 {
        assert(a + b == a);
        assert(event_fragments(a) + event_fragments(b) == event_fragments(a));
    } else {
        lemma_fragments_concat(a, b.drop_last());
        assert((a + b).drop_last() == a + b.drop_last());
        assert((a + b).last() == b.last());
    }
}

/// The text is kept in order and joined with no separator: the text of two
/// runs of events is the text of the first followed by that of the second.
pub proof fn lemma_text_concat(a: Seq<Option<ResponseEnvelope>>, b: Seq<Option<ResponseEnvelope>>)
    ensures
        stream_text(a + b) == stream_text(a) + stream_text(b),
{
    lemma_fragments_concat(a, b);
    lemma_flatten_concat(event_fragments(a), event_fragments(b));
}

/// An event whose payload could not be decoded is passed over: the events
/// after it still give their fragments.
pub proof fn lemma_undecodable_event_skipped(
    a: Seq<Option<ResponseEnvelope>>,
    b: Seq<Option<ResponseEnvelope>>,
)
    ensures
        event_fragments(a + seq![None] + b) == event_fragments(a) + event_fragments(b),
        stream_text(a + seq![None] + b) == stream_text(a) + stream_text(b),
{
    lemma_fragments_concat(a + seq![None], b);
    assert((a + seq![None]).drop_last() == a);
    lemma_flatten_concat(event_fragments(a), event_fragments(b));
}

/// An event whose last choice has neither a message nor a delta gives
/// nothing, and the events around it give what they give without it.
pub proof fn lemma_bare_choice_skipped(
    a: Seq<Option<ResponseEnvelope>>,
    env: ResponseEnvelope,
    b: Seq<Option<ResponseEnvelope>>,
)
    requires
        env.choices@.len() > 0,
        env.choices@.last().message is None,
        env.choices@.last().delta is None,
    ensures
        event_fragments(a + seq![Some(env)] + b) == event_fragments(a) + event_fragments(b),
        stream_text(a + seq![Some(env)] + b) == stream_text(a) + stream_text(b),
{
    lemma_fragments_concat(a + seq![Some(env)], b);
    assert((a + seq![Some(env)]).drop_last() == a);
    lemma_flatten_concat(event_fragments(a), event_fragments(b));
}

/// Takes the fragment out of one streamed reply object.
pub fn delta_fragment(env: ResponseEnvelope) -> (r: Option<String>)
    ensures
        opt_text(r) == fragment_of(env),
{
    let mut env = env;
    let ghost choices = env.choices@;
    match env.choices.pop() {
        Some(choice) => {
            assert(choice == choices.last());
            match choice.delta {
                Some(d) => d.content,
                None => None,
            }
        },
        None => None,
    }
}

/// The state of one streamed read: the bytes of the line not finished yet,
/// and the fragments gathered so far from the events taken.
pub struct SseReader {
    pending: Vec<u8>,
    parts: Vec<String>,
    taken: Ghost<Seq<Option<ResponseEnvelope>>>,
}

impl SseReader {
    /// The bytes received after the last line feed.
    pub closed spec fn pending(&self) -> Seq<u8> {
        self.pending@
    }

    /// The fragments gathered so far, in order of arrival.
    pub closed spec fn fragments(&self) -> Seq<Seq<char>> {
        texts(self.parts@)
    }

    /// The events taken so far, in order.
    pub closed spec fn events(&self) -> Seq<Option<ResponseEnvelope>> {
        self.taken@
    }

    /// The unfinished line holds no line feed, and the fragments gathered are
    /// those of the events taken.
    pub open spec fn wf(&self) -> bool {
        &&& !self.pending().contains(LINE_FEED)
        &&& self.fragments() == event_fragments(self.events())
    }

    /// A reader that has received nothing.
    pub fn new() -> (r: SseReader)
        ensures
            r.wf(),
            r.pending() == Seq::<u8>::empty(),
            r.fragments() == Seq::<Seq<char>>::empty(),
            r.events() == Seq::<Option<ResponseEnvelope>>::empty(),
    {
        let r = SseReader { pending: Vec::new(), parts: Vec::new(), taken: Ghost(Seq::empty()) };
        assert(texts(r.parts@) == Seq::<Seq<char>>::empty());
        r
    }

    /// Takes the next chunk of the stream, wherever its boundaries fall, and
    /// hands back the payloads of the event lines that it completes, in
    /// order. The bytes after the last line feed wait for the next chunk.
    pub fn push_chunk(&mut self, chunk: &[u8]) -> (r: Vec<String>)
        requires
            old(self).wf(),
        ensures
            final(self).wf(),
            final(self).pending() == split_lines(old(self).pending() + chunk@).1,
            final(self).fragments() == old(self).fragments(),
            final(self).events() == old(self).events(),
            texts(r@) == payloads(split_lines(old(self).pending() + chunk@).0),
    {
        let ghost start = self.pending@;
        let mut out: Vec<String> = Vec::new();
        let mut i: usize = 0;
        proof {
            lemma_split_without_line_feed(start);
            assert(start + chunk@.subrange(0, 0) == start);
            assert(texts(out@) == Seq::<Seq<char>>::empty());
        }
        while i < chunk.len()
            invariant
                i <= chunk@.len(),
                split_lines(start + chunk@.subrange(0, i as int)).1 == self.pending@,
                texts(out@) == payloads(split_lines(start + chunk@.subrange(0, i as int)).0),
                self.parts == old(self).parts,
                self.taken == old(self).taken,
                start == old(self).pending@,
            decreases chunk.len() - i,
        {
            let b = chunk[i];
            let ghost before = start + chunk@.subrange(0, i as int);
            let ghost after = start + chunk@.subrange(0, i + 1);
            assert(after == before.push(b));
            assert(after.drop_last() == before);
            if b == LINE_FEED {
                let mut line: Vec<u8> = Vec::new();
                core::mem::swap(&mut self.pending, &mut line);
                let ghost lines = split_lines(before).0;
                assert(lines.push(line@).drop_last() == lines);
                match frame_payload(line.as_slice()) {
                    Some(p) => {
                        out.push(p);
                        assert(texts(out@) == texts(out@.drop_last()).push(p@));
                    },
                    None => {},
                }
            } else {
                self.pending.push(b);
            }
            i = i + 1;
        }
        proof {
            assert(chunk@.subrange(0, chunk@.len() as int) == chunk@);
            lemma_split_rest_has_no_line_feed(start + chunk@);
        }
        out
    }

    /// At the end of the stream: the payload of the last line, where it was
    /// not ended by a line feed. Nothing is left pending afterwards.
    pub fn finish_line(&mut self) -> (r: Option<String>)
        requires
            old(self).wf(),
        ensures
            final(self).wf(),
            final(self).pending() == Seq::<u8>::empty(),
            final(self).fragments() == old(self).fragments(),
            final(self).events() == old(self).events(),
            opt_text(r) == payload_of(old(self).pending()),
    {
        let mut line: Vec<u8> = Vec::new();
        core::mem::swap(&mut self.pending, &mut line);
        frame_payload(line.as_slice())
    }

    /// Takes one event: a decoded reply object, or `None` where its payload
    /// could not be decoded. Its fragment, if any, is added to those gathered
    /// and handed back for display; anything else is passed over.
    pub fn accept(&mut self, event: Option<ResponseEnvelope>) -> (r: Option<String>)
        requires
            old(self).wf(),
        ensures
            final(self).wf(),
            final(self).pending() == old(self).pending(),
            final(self).events() == old(self).events().push(event),
            opt_text(r) == event_fragment(event),
            final(self).fragments() == match event_fragment(event) {
                Some(f) => old(self).fragments().push(f),
                None => old(self).fragments(),
            },
    {
        let ghost taken = self.taken@;
        self.taken = Ghost(taken.push(event));
        assert(taken.push(event).drop_last() == taken);
        let fragment = match event {
            Some(env) => delta_fragment(env),
            None => None,
        };
        match fragment {
            Some(f) => {
                let shown = f.clone();
                self.parts.push(f);
                assert(texts(self.parts@) == texts(old(self).parts@).push(shown@));
                Some(shown)
            },
            None => None,
        }
    }

    /// The message so far: the fragments joined with no separator.
    pub fn text(&self) -> (r: String)
        requires
            self.wf(),
        ensures
            r@ == self.fragments().flatten(),
            r@ == stream_text(self.events()),
    {
        let mut acc = String::new();
        let mut i: usize = 0;
        while i < self.parts.len()
            invariant
                i <= self.parts@.len(),
                acc@ == texts(self.parts@.subrange(0, i as int)).flatten(),
            decreases self.parts.len() - i,
        {
            let ghost done = texts(self.parts@.subrange(0, i as int));
            assert(texts(self.parts@.subrange(0, i + 1)) == done.push(self.parts@[i as int]@));
            proof {
                done.lemma_flatten_push(self.parts@[i as int]@);
            }
            acc.append(self.parts[i].as_str());
            i = i + 1;
        }
        assert(self.parts@.subrange(0, self.parts@.len() as int) == self.parts@);
        acc
    }
}

} // verus!
