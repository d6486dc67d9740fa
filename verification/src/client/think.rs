//! Separating a model's reasoning, written between `<think>` and `</think>`, from its
//! answer while the output streams in.

use vstd::prelude::*;

use crate::client::stream::{spec_think_tag_prefix_len, think_open_tag, think_tag_prefix_len_chars};
use crate::text::{
    char_len_utf8, char_utf8_len, extend_chars, find, find_chars, string_of, trim, trim_chars,
};

verus! {

/// The tag that ends a reasoning block.
pub open spec fn think_close_tag() -> Seq<char> {
    seq!['<', '/', 't', 'h', 'i', 'n', 'k', '>']
}

/// One piece of what is shown while a response streams in.
pub enum Piece {
    /// Part of the answer, shown as is.
    Text(Seq<char>),
    /// Part of the model's reasoning, shown dimmed.
    Thought(Seq<char>),
    /// The dimmed line `---` that closes a reasoning block, on a line of its own.
    Separator,
    /// A line break.
    LineBreak,
}

/// One piece of output to show; `Text` in the terminal's normal style, `Thought` dimmed
/// and cyan, `Separator` as a line break followed by a dimmed cyan `---`.
#[derive(Debug, PartialEq, Eq)]
pub enum StreamOutput {
    Text(String),
    Thought(String),
    Separator,
    LineBreak,
}

impl View for StreamOutput {
    type V = Piece;

    open spec fn view(&self) -> Piece {
        match self {
            StreamOutput::Text(s) => Piece::Text(s@),
            StreamOutput::Thought(s) => Piece::Thought(s@),
            StreamOutput::Separator => Piece::Separator,
            StreamOutput::LineBreak => Piece::LineBreak,
        }
    }
}

/// The pieces that a list of outputs shows.
pub open spec fn pieces(outs: Seq<StreamOutput>) -> Seq<Piece> {
    outs.map_values(|o: StreamOutput| o@)
}

/// The answer text among `ps`: the `Text` pieces, concatenated.
pub open spec fn answer_text(ps: Seq<Piece>) -> Seq<char>
    decreases ps.len(),
{
    if ps.len() == 0 {
        Seq::empty()
    } else {
        answer_text(ps.drop_last()) + match ps.last() {
            Piece::Text(t) => t,
            _ => Seq::empty(),
        }
    }
}

/// The reasoning text among `ps`: the `Thought` pieces, concatenated.
pub open spec fn thought_text(ps: Seq<Piece>) -> Seq<char>
    decreases ps.len(),
{
    if ps.len() == 0 {
        Seq::empty()
    } else {
        thought_text(ps.drop_last()) + match ps.last() {
            Piece::Thought(t) => t,
            _ => Seq::empty(),
        }
    }
}

/// The state of the filter: inside a reasoning block or not, content received but not
/// yet shown, the answer shown so far, and whether a reasoning block has been closed.
pub struct ThinkState {
    pub in_think: bool,
    pub buffer: Seq<char>,
    pub response: Seq<char>,
    pub closed_block: bool,
}

/// Start of the shortest suffix of `s` that takes at least `need` bytes in UTF-8, or 0
/// when all of `s` takes fewer.
pub open spec fn shortest_suffix_start(s: Seq<char>, need: int) -> int
    decreases s.len(),
{
    if need <= 0 {
        s.len() as int
    } else if s.len() == 0 {
        0
    } else {
        shortest_suffix_start(s.drop_last(), need - char_utf8_len(s.last()))
    }
}

/// First stage of a step: outside a block, an opening tag in the buffer ends the answer
/// text before it and enters a block.
pub open spec fn open_stage(st: ThinkState, buf: Seq<char>) -> (ThinkState, Seq<Piece>) {
    if !st.in_think && find(buf, think_open_tag()) is Some {
        let p = find(buf, think_open_tag())->0;
        (
            ThinkState {
                in_think: true,
                buffer: buf.skip(p + 7),
                response: st.response + buf.take(p),
                closed_block: st.closed_block,
            },
            seq![Piece::Text(buf.take(p))],
        )
    } else {
        (
            ThinkState {
                in_think: st.in_think,
                buffer: buf,
                response: st.response,
                closed_block: st.closed_block,
            },
            Seq::empty(),
        )
    }
}

/// Second stage of a step. Inside a block: a closing tag ends the block, shows the
/// reasoning before it and the separator; without one, all but the shortest tail of at
/// least 8 bytes (room for a `</think>` still arriving) is shown as reasoning. Outside a
/// block: the buffer is shown as answer, except a tail that could begin a `<think>` tag.
pub open spec fn body_stage(st: ThinkState) -> (ThinkState, Seq<Piece>) {
    let buf = st.buffer;
    if st.in_think {
        if find(buf, think_close_tag()) is Some {
            let q = find(buf, think_close_tag())->0;
            (
                ThinkState {
                    in_think: false,
                    buffer: buf.skip(q + 8),
                    response: st.response,
                    closed_block: true,
                },
                seq![Piece::Thought(buf.take(q)), Piece::Separator],
            )
        } else {
            let j = shortest_suffix_start(buf, 8);
            if j > 0 {
                (ThinkState { buffer: buf.skip(j), ..st }, seq![Piece::Thought(buf.take(j))])
            } else {
                (st, Seq::empty())
            }
        }
    } else {
        let n = spec_think_tag_prefix_len(buf);
        let f = buf.len() - n;
        if n == 0 || f > 0 {
            (
                ThinkState { buffer: buf.skip(f), response: st.response + buf.take(f), ..st },
                seq![Piece::Text(buf.take(f))],
            )
        } else {
            (st, Seq::empty())
        }
    }
}

/// The state and the pieces shown after `content` arrives in state `st`.
pub open spec fn think_push(st: ThinkState, content: Seq<char>) -> (ThinkState, Seq<Piece>) {
    let (st1, out1) = open_stage(st, st.buffer + content);
    let (st2, out2) = body_stage(st1);
    (st2, out1 + out2)
}

/// The pieces shown when the stream ends in state `st`: what is still buffered, as
/// reasoning inside a block and as answer otherwise, then a line break.
pub open spec fn think_finish(st: ThinkState) -> (ThinkState, Seq<Piece>) {
    if st.buffer.len() == 0 {
        (st, seq![Piece::LineBreak])
    } else if st.in_think {
        (
            ThinkState { buffer: Seq::empty(), ..st },
            seq![Piece::Thought(st.buffer), Piece::LineBreak],
        )
    } else {
        (
            ThinkState { buffer: Seq::empty(), response: st.response + st.buffer, ..st },
            seq![Piece::Text(st.buffer), Piece::LineBreak],
        )
    }
}

/// The streaming filter that hides a model's `<think>` reasoning from its answer.
pub struct ThinkFilter {
    in_think: bool,
    buffer: Vec<char>,
    response: Vec<char>,
    closed_block: bool,
}

impl View for ThinkFilter {
    type V = ThinkState;

    closed spec fn view(&self) -> ThinkState {
        ThinkState {
            in_think: self.in_think,
            buffer: self.buffer@,
            response: self.response@,
            closed_block: self.closed_block,
        }
    }
}

} // verus!

verus! {

/// The answer text among the pieces of `a + b` is that of `a` followed by that of `b`;
/// likewise the reasoning text.
pub proof fn lemma_texts_concat(a: Seq<Piece>, b: Seq<Piece>)
    ensures
        answer_text(a + b) == answer_text(a) + answer_text(b),
        thought_text(a + b) == thought_text(a) + thought_text(b),
    decreases b.len(),
{
    if b.len() == 0 {
        assert(a + b =~= a);
        assert(answer_text(b) =~= Seq::<char>::empty());
        assert(thought_text(b) =~= Seq::<char>::empty());
        assert(answer_text(a) + answer_text(b) =~= answer_text(a));
        assert(thought_text(a) + thought_text(b) =~= thought_text(a));
    } else {
        lemma_texts_concat(a, b.drop_last());
        assert((a + b).drop_last() =~= a + b.drop_last());
        assert((a + b).last() == b.last());
        assert(answer_text(a + b) =~= answer_text(a) + answer_text(b));
        assert(thought_text(a + b) =~= thought_text(a) + thought_text(b));
    }
}

/// Sends a piece of output: appends it to `outs`.
pub fn emit(outs: &mut Vec<StreamOutput>, o: StreamOutput)
    ensures
        pieces(final(outs)@) == pieces(old(outs)@).push(o@),
{
    outs.push(o);
    assert(pieces(outs@) =~= pieces(old(outs)@).push(o@));
}

impl ThinkFilter {
    /// A filter at the start of a response: outside any reasoning block, nothing buffered.
    pub fn new() -> (f: Self)
        ensures
            f@ == (ThinkState {
                in_think: false,
                buffer: Seq::empty(),
                response: Seq::empty(),
                closed_block: false,
            }),
    {
        ThinkFilter { in_think: false, buffer: Vec::new(), response: Vec::new(), closed_block: false }
    }

    /// Whether the filter is inside a reasoning block.
    pub fn in_think(&self) -> (b: bool)
        ensures
            b == self@.in_think,
    {
        self.in_think
    }

    /// Whether a reasoning block has been closed with `</think>`.
    pub fn closed_block(&self) -> (b: bool)
        ensures
            b == self@.closed_block,
    {
        self.closed_block
    }

    /// Takes the next piece of streamed content and returns what to show now.
    /// The answer text shown is exactly what is added to the response.
    pub fn push_content(&mut self, content: &str) -> (outs: Vec<StreamOutput>)
        ensures
            (final(self)@, pieces(outs@)) == think_push(old(self)@, content@),
            final(self)@.response == old(self)@.response + answer_text(pieces(outs@)),
    {
        let content_chars = crate::text::chars_of(content);
        extend_chars(&mut self.buffer, content_chars.as_slice());
        let ghost st0 = old(self)@;
        let ghost buf = st0.buffer + content@;
        assert(self.buffer@ == buf);
        let mut outs: Vec<StreamOutput> = Vec::new();
        let open_tag: Vec<char> = vec!['<', 't', 'h', 'i', 'n', 'k', '>'];
        let close_tag: Vec<char> = vec!['<', '/', 't', 'h', 'i', 'n', 'k', '>'];
        assert(open_tag@ == think_open_tag());
        assert(close_tag@ == think_close_tag());
        if !self.in_think {
            match find_chars(self.buffer.as_slice(), open_tag.as_slice()) {
                Some(p) => {
                    proof {
                        crate::text::lemma_find(buf, think_open_tag());
                    }
                    let blen = self.buffer.len();
                    assert(p + 7 <= blen);
                    self.in_think = true;
                    let tail = self.buffer.split_off(p + 7);
                    self.buffer.truncate(p);
                    assert(self.buffer@ =~= buf.take(p as int));
                    assert(tail@ =~= buf.skip(p + 7));
                    extend_chars(&mut self.response, self.buffer.as_slice());
                    let pre = string_of(self.buffer.as_slice());
                    emit(&mut outs, StreamOutput::Text(pre));
                    self.buffer = tail;
                    assert(pieces(outs@) =~= seq![Piece::Text(buf.take(p as int))]);
                },
                None => {},
            }
        }
        assert(pieces(Seq::<StreamOutput>::empty()) =~= Seq::<Piece>::empty());
        let ghost st1 = open_stage(st0, buf).0;
        let ghost out1 = open_stage(st0, buf).1;
        assert(self@ == st1);
        assert(pieces(outs@) == out1);
        let ghost b1 = self.buffer@;
        if self.in_think {
            match find_chars(self.buffer.as_slice(), close_tag.as_slice()) {
                Some(q) => {
                    proof {
                        crate::text::lemma_find(b1, think_close_tag());
                    }
                    let blen = self.buffer.len();
                    assert(q + 8 <= blen);
                    let tail = self.buffer.split_off(q + 8);
                    self.buffer.truncate(q);
                    assert(self.buffer@ =~= b1.take(q as int));
                    assert(tail@ =~= b1.skip(q + 8));
                    let thought = string_of(self.buffer.as_slice());
                    emit(&mut outs, StreamOutput::Thought(thought));
                    emit(&mut outs, StreamOutput::Separator);
                    self.in_think = false;
                    self.closed_block = true;
                    self.buffer = tail;
                    assert(pieces(outs@) =~= out1 + body_stage(st1).1);
                    assert(self@ == body_stage(st1).0);
                },
                None => {
                    let j = Self::window_start(self.buffer.as_slice());
                    if j > 0 {
                        let tail = self.buffer.split_off(j);
                        assert(self.buffer@ =~= b1.take(j as int));
                        let thought = string_of(self.buffer.as_slice());
                        emit(&mut outs, StreamOutput::Thought(thought));
                        self.buffer = tail;
                        assert(pieces(outs@) =~= out1 + body_stage(st1).1);
                        assert(self@ == body_stage(st1).0);
                    } else {
                        assert(pieces(outs@) =~= out1 + body_stage(st1).1);
                    }
                },
            }
        } else {
            let n = think_tag_prefix_len_chars(self.buffer.as_slice());
            let f = self.buffer.len() - n;
            if n == 0 || f > 0 {
                let tail = self.buffer.split_off(f);
                assert(self.buffer@ =~= b1.take(f as int));
                extend_chars(&mut self.response, self.buffer.as_slice());
                let text = string_of(self.buffer.as_slice());
                emit(&mut outs, StreamOutput::Text(text));
                self.buffer = tail;
                assert(pieces(outs@) =~= out1 + body_stage(st1).1);
                assert(self@ == body_stage(st1).0);
            } else {
                assert(pieces(outs@) =~= out1 + body_stage(st1).1);
            }
        }
        proof {
            let out2 = body_stage(st1).1;
            assert(pieces(outs@) =~= out1 + out2);
            lemma_texts_concat(out1, out2);
            reveal_with_fuel(answer_text, 3);
        }
        outs
    }

    /// Start of the shortest tail of `s` that takes at least 8 bytes in UTF-8 (0 when all
    /// of `s` is shorter).
    fn window_start(s: &[char]) -> (j: usize)
        ensures
            j == shortest_suffix_start(s@, 8),
            j <= s@.len(),
    {
        let mut j: usize = s.len();
        let mut acc: usize = 0;
        assert(s@.take(j as int) =~= s@);
        while j > 0 && acc < 8
            invariant
                j <= s@.len(),
                s@.len() == s.len(),
                acc <= 11,
                shortest_suffix_start(s@, 8) == shortest_suffix_start(
                    s@.take(j as int),
                    8 - acc,
                ),
            decreases j,
        {
            assert(s@.take(j as int).drop_last() =~= s@.take(j - 1));
            assert(s@.take(j as int).last() == s@[j - 1]);
            acc = acc + char_len_utf8(s[j - 1]);
            j = j - 1;
        }
        j
    }

    /// Ends the stream: shows what is still buffered and a final line break, and returns
    /// the answer without leading or trailing whitespace.
    pub fn finish(&mut self) -> (r: (Vec<StreamOutput>, String))
        ensures
            (final(self)@, pieces(r.0@)) == think_finish(old(self)@),
            final(self)@.response == old(self)@.response + answer_text(pieces(r.0@)),
            r.1@ == trim(final(self)@.response),
    {
        let mut outs: Vec<StreamOutput> = Vec::new();
        if self.buffer.len() > 0 {
            let rest = string_of(self.buffer.as_slice());
            if self.in_think {
                emit(&mut outs, StreamOutput::Thought(rest));
            } else {
                extend_chars(&mut self.response, self.buffer.as_slice());
                emit(&mut outs, StreamOutput::Text(rest));
            }
            self.buffer = Vec::new();
        }
        emit(&mut outs, StreamOutput::LineBreak);
        proof {
            reveal_with_fuel(answer_text, 3);
            assert(self.buffer@ =~= Seq::<char>::empty());
        }
        let t = trim_chars(self.response.as_slice());
        (outs, string_of(t.as_slice()))
    }
}

} // verus!

verus! {

/// `c` does not occur in `s`.
pub open spec fn lacks_char(s: Seq<char>, c: char) -> bool {
    forall|i: int| 0 <= i < s.len() ==> s[i] != c
}

/// Law: content without any `<` is answer text and passes straight through. Outside a
/// reasoning block, with nothing held back that contains `<`, the buffered and the new
/// content are shown at once as answer, nothing stays buffered, and the response grows
/// by exactly that text.
pub proof fn lemma_plain_content_passes_through(st: ThinkState, content: Seq<char>)
    requires
        !st.in_think,
        lacks_char(st.buffer, '<'),
        lacks_char(content, '<'),
    ensures
        think_push(st, content) == (
            ThinkState {
                in_think: false,
                buffer: Seq::empty(),
                response: st.response + st.buffer + content,
                closed_block: st.closed_block,
            },
            seq![Piece::Text(st.buffer + content)],
        ),
{
    let buf = st.buffer + content;
    assert(lacks_char(buf, '<'));
    crate::text::lemma_find(buf, think_open_tag());
    if find(buf, think_open_tag()) is Some {
        let k = find(buf, think_open_tag())->0;
        assert(buf.subrange(k, k + 7)[0] == '<');
    }
    assert forall|k: int| 1 <= k <= 6 implies !crate::text::ends_with(buf, #[trigger] think_open_tag().take(k)) by {
        if crate::text::ends_with(buf, think_open_tag().take(k)) {
            assert(buf.subrange(buf.len() - k, buf.len() as int)[0] == '<');
        }
    }
    assert(spec_think_tag_prefix_len(buf) == 0);
    assert(buf.take(buf.len() as int) =~= buf);
    assert(buf.skip(buf.len() as int) =~= Seq::<char>::empty());
    assert(st.response + buf =~= st.response + st.buffer + content);
}

} // verus!

verus! {

/// Appends outputs to a list of outputs.
pub fn append_outputs(outs: &mut Vec<StreamOutput>, more: Vec<StreamOutput>)
    ensures
        pieces(final(outs)@) == pieces(old(outs)@) + pieces(more@),
{
    let mut more = more;
    let ghost m = more@;
    outs.append(&mut more);
    assert(pieces(outs@) =~= pieces(old(outs)@) + pieces(m));
}

} // verus!
