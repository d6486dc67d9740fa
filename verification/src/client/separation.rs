//! Why the reasoning filter separates a model's reasoning from its answer however the
//! response is cut into chunks while it streams in.

use vstd::prelude::*;

use crate::client::stream::{spec_think_tag_prefix_len, think_open_tag};
use crate::client::think::{
    answer_text, body_stage, lemma_texts_concat, open_stage, shortest_suffix_start,
    think_close_tag, think_finish, think_push, thought_text, Piece, ThinkState,
};
use crate::text::{char_utf8_len, ends_with, find, lemma_find_first, lemma_find_none, occurs_at};

verus! {

/// `pat` occurs nowhere in `s`.
pub open spec fn lacks(s: Seq<char>, pat: Seq<char>) -> bool {
    forall|j: int| !occurs_at(s, pat, j)
}

/// The state of the filter at the start of a response.
pub open spec fn think_start() -> ThinkState {
    ThinkState { in_think: false, buffer: Seq::empty(), response: Seq::empty(), closed_block: false }
}

/// The text of a stream that arrives in `chunks`.
pub open spec fn joined(chunks: Seq<Seq<char>>) -> Seq<char>
    decreases chunks.len(),
{
    if chunks.len() == 0 {
        Seq::empty()
    } else {
        joined(chunks.drop_last()) + chunks.last()
    }
}

/// The state of the filter and the pieces shown after `chunks` arrive, in order, in
/// state `st`.
pub open spec fn think_run(st: ThinkState, chunks: Seq<Seq<char>>) -> (ThinkState, Seq<Piece>)
    decreases chunks.len(),
{
    if chunks.len() == 0 {
        (st, Seq::empty())
    } else {
        let (s1, p1) = think_run(st, chunks.drop_last());
        let (s2, p2) = think_push(s1, chunks.last());
        (s2, p1 + p2)
    }
}

/// The final state and all the pieces shown for a whole response that arrives in
/// `chunks`, its end included.
pub open spec fn think_shown(chunks: Seq<Seq<char>>) -> (ThinkState, Seq<Piece>) {
    let (s1, p1) = think_run(think_start(), chunks);
    let (s2, p2) = think_finish(s1);
    (s2, p1 + p2)
}

/// The first character of `pat` occurs nowhere else in it, as with `<think>` and
/// `</think>`.
pub open spec fn first_char_unique(pat: Seq<char>) -> bool {
    pat.len() >= 1 && forall|j: int| 1 <= j < pat.len() ==> #[trigger] pat[j] != pat[0]
}

proof fn lemma_tags_first_char_unique()
    ensures
        first_char_unique(think_open_tag()),
        first_char_unique(think_close_tag()),
        think_open_tag().len() == 7,
        think_close_tag().len() == 8,
        forall|i: int| 0 <= i < 8 ==> char_utf8_len(#[trigger] think_close_tag()[i]) == 1,
{
    assert forall|i: int| 0 <= i < 8 implies char_utf8_len(#[trigger] think_close_tag()[i]) == 1 by {
        let c = think_close_tag()[i];
        assert(c == '<' || c == '/' || c == 't' || c == 'h' || c == 'i' || c == 'n' || c == 'k'
            || c == '>');
        assert(('<' as u32) < 0x80);
        assert(('/' as u32) < 0x80);
        assert(('t' as u32) < 0x80);
        assert(('h' as u32) < 0x80);
        assert(('i' as u32) < 0x80);
        assert(('n' as u32) < 0x80);
        assert(('k' as u32) < 0x80);
        assert(('>' as u32) < 0x80);
    }
}

/// A piece of a text without `pat` is without `pat`.
proof fn lemma_lacks_subrange(x: Seq<char>, pat: Seq<char>, i: int, l: int)
    requires
        lacks(x, pat),
        0 <= i <= l <= x.len(),
    ensures
        lacks(x.subrange(i, l), pat),
{
    let y = x.subrange(i, l);
    assert forall|j: int| !occurs_at(y, pat, j) by {
        if occurs_at(y, pat, j) {
            assert(y.subrange(j, j + pat.len()) =~= x.subrange(i + j, i + j + pat.len()));
            assert(occurs_at(x, pat, i + j));
        }
    }
}

/// A text without `pat`, followed by a proper prefix of `pat`, is still without `pat`.
proof fn lemma_lacks_with_partial(x: Seq<char>, pat: Seq<char>, k: int)
    requires
        lacks(x, pat),
        first_char_unique(pat),
        0 <= k < pat.len(),
    ensures
        lacks(x + pat.take(k), pat),
{
    let y = x + pat.take(k);
    assert forall|j: int| !occurs_at(y, pat, j) by {
        if occurs_at(y, pat, j) {
            if j + pat.len() <= x.len() {
                assert(y.subrange(j, j + pat.len()) =~= x.subrange(j, j + pat.len()));
                assert(occurs_at(x, pat, j));
            } else {
                let d = x.len() - j;
                assert(y[x.len() as int] == pat[0]);
                assert(y.subrange(j, j + pat.len())[d] == y[j + d]);
                assert(pat[d] == pat[0]);
            }
        }
    }
}

/// In a text without `pat` followed by `pat`, the first occurrence of `pat` after any
/// position of the first text is the one that follows it.
proof fn lemma_first_occurrence(x: Seq<char>, pat: Seq<char>, rest: Seq<char>, i: int)
    requires
        lacks(x, pat),
        first_char_unique(pat),
        0 <= i <= x.len(),
    ensures
        find((x + pat + rest).skip(i), pat) == Some(x.len() - i),
{
    let z = (x + pat + rest).skip(i);
    let w = x + pat.take(pat.len() - 1);
    assert(z.subrange(x.len() - i, x.len() - i + pat.len()) =~= pat);
    lemma_lacks_with_partial(x, pat, pat.len() - 1);
    assert forall|j: int| 0 <= j < x.len() - i implies !occurs_at(z, pat, j) by {
        if occurs_at(z, pat, j) {
            assert(z.subrange(j, j + pat.len()) =~= w.subrange(i + j, i + j + pat.len()));
            assert(occurs_at(w, pat, i + j));
        }
    }
    lemma_find_first(z, pat, x.len() - i);
}

/// A text ending with the first `k` characters of `<think>` holds back at least `k`.
proof fn lemma_held_tag(buf: Seq<char>, k: int)
    requires
        1 <= k <= 6,
        ends_with(buf, think_open_tag().take(k)),
    ensures
        spec_think_tag_prefix_len(buf) >= k,
{
}

/// The window start is a position of the text.
proof fn lemma_window_bounds(s: Seq<char>, need: int)
    ensures
        0 <= shortest_suffix_start(s, need) <= s.len(),
    decreases s.len(),
{
    if need <= 0 {
    } else if s.len() == 0 {
    } else {
        lemma_window_bounds(s.drop_last(), need - char_utf8_len(s.last()));
    }
}

/// When the last `k` characters of a text take one byte each and fewer bytes than
/// `need`, the window of at least `need` bytes keeps all of them.
proof fn lemma_window_keeps_tail(s: Seq<char>, need: int, k: int)
    requires
        0 <= k <= s.len(),
        k < need,
        forall|i: int| s.len() - k <= i < s.len() ==> char_utf8_len(#[trigger] s[i]) == 1,
    ensures
        0 <= shortest_suffix_start(s, need) <= s.len() - k,
    decreases s.len(),
{
    if s.len() == 0 {
    } else if k == 0 {
        lemma_window_bounds(s, need);
    } else {
        assert(char_utf8_len(s[s.len() - 1]) == 1);
        let t = s.drop_last();
        assert forall|i: int| t.len() - (k - 1) <= i < t.len() implies char_utf8_len(
            #[trigger] t[i],
        ) == 1 by {
            assert(t[i] == s[i]);
        }
        lemma_window_keeps_tail(t, need - 1, k - 1);
    }
}

/// Each step adds to the kept response exactly the answer text it shows.
pub proof fn lemma_push_response(st: ThinkState, content: Seq<char>)
    ensures
        think_push(st, content).0.response == st.response + answer_text(think_push(st, content).1),
{
    let buf = st.buffer + content;
    let (st1, out1) = open_stage(st, buf);
    let (st2, out2) = body_stage(st1);
    reveal_with_fuel(answer_text, 3);
    lemma_texts_concat(out1, out2);
    assert(answer_text(Seq::<Piece>::empty()) =~= Seq::<char>::empty());
    assert(st1.response == st.response + answer_text(out1));
    assert(st2.response == st1.response + answer_text(out2));
}

/// The shown pieces of one step outside a reasoning block, when the buffered and the new
/// content hold no `<think>`: the step stays outside, moves answer text from the buffer
/// to the response, and shows no reasoning.
proof fn lemma_outside_step(st: ThinkState, content: Seq<char>)
    requires
        !st.in_think,
        lacks(st.buffer + content, think_open_tag()),
    ensures
        ({
            let (st2, out) = think_push(st, content);
            let buf = st.buffer + content;
            &&& !st2.in_think
            &&& st2.response + st2.buffer == st.response + buf
            &&& st.response.len() <= st2.response.len()
            &&& st2.response.len() <= st.response.len() + buf.len() - spec_think_tag_prefix_len(buf)
            &&& thought_text(out) == Seq::<char>::empty()
        }),
{
    let buf = st.buffer + content;
    lemma_find_none(buf, think_open_tag());
    let (st1, out1) = open_stage(st, buf);
    assert(out1 =~= Seq::<Piece>::empty());
    let (st2, out2) = body_stage(st1);
    let n = spec_think_tag_prefix_len(buf);
    let f = buf.len() - n;
    reveal_with_fuel(thought_text, 2);
    lemma_texts_concat(out1, out2);
    assert(thought_text(Seq::<Piece>::empty()) =~= Seq::<char>::empty());
    if n == 0 || f > 0 {
        assert(buf.take(f) + buf.skip(f) =~= buf);
        assert(st.response + buf.take(f) + buf.skip(f) =~= st.response + buf);
    }
}

/// Where the filter stands while a response `pre <think>thought</think> post` streams in,
/// once `c` of it has arrived, with `th` the reasoning shown so far: before the complete
/// opening tag it holds back at most the text from where the tag starts; inside the block
/// it has shown all of `pre` and holds back the reasoning not yet shown; after the
/// closing tag it has shown all the reasoning and holds back only text after the block.
pub open spec fn block_phase(
    pre: Seq<char>,
    thought: Seq<char>,
    c: Seq<char>,
    st: ThinkState,
    th: Seq<char>,
) -> bool {
    let a = pre.len() as int;
    let e = a + 7 + thought.len() + 8;
    if c.len() < a + 7 {
        &&& !st.in_think
        &&& th.len() == 0
        &&& st.response + st.buffer == c
        &&& st.response.len() <= a
    } else if c.len() < e {
        &&& st.in_think
        &&& st.response == pre
        &&& th + st.buffer == c.skip(a + 7)
        &&& th.len() <= thought.len()
    } else {
        &&& !st.in_think
        &&& th == thought
        &&& st.response + st.buffer == pre + c.skip(e)
        &&& st.response.len() >= a
    }
}

/// The response with one reasoning block.
pub open spec fn with_block(pre: Seq<char>, thought: Seq<char>, post: Seq<char>) -> Seq<char> {
    pre + think_open_tag() + thought + think_close_tag() + post
}

/// Inside the block, before the closing tag is complete: the step shows reasoning only
/// up to the end of the block's text.
proof fn lemma_inside_before_close(
    thought: Seq<char>,
    st1: ThinkState,
    th: Seq<char>,
    d: Seq<char>,
)
    requires
        st1.in_think,
        lacks(thought, think_close_tag()),
        d.len() < thought.len() + 8,
        d == (thought + think_close_tag()).take(d.len() as int),
        th + st1.buffer == d,
        th.len() <= thought.len(),
    ensures
        ({
            let (st2, out2) = body_stage(st1);
            &&& st2.in_think
            &&& st2.response == st1.response
            &&& th + thought_text(out2) + st2.buffer == d
            &&& (th + thought_text(out2)).len() <= thought.len()
            &&& answer_text(out2) == Seq::<char>::empty()
        }),
{
    lemma_tags_first_char_unique();
    let ct = think_close_tag();
    let buf = st1.buffer;
    let m = d.len() as int;
    let w = if m <= thought.len() {
        thought
    } else {
        thought + ct.take(m - thought.len())
    };
    if m > thought.len() {
        lemma_lacks_with_partial(thought, ct, m - thought.len());
    }
    assert(d =~= w.subrange(0, m));
    lemma_lacks_subrange(w, ct, 0, m);
    assert(buf =~= d.subrange(th.len() as int, m));
    lemma_lacks_subrange(d, ct, th.len() as int, m);
    lemma_find_none(buf, ct);
    let j = shortest_suffix_start(buf, 8);
    if m > thought.len() {
        let k = m - thought.len();
        assert forall|i: int| buf.len() - k <= i < buf.len() implies char_utf8_len(
            #[trigger] buf[i],
        ) == 1 by {
            assert(buf[i] == d[th.len() + i]);
            assert(d[th.len() + i] == ct[th.len() + i - thought.len()]);
        }
        lemma_window_keeps_tail(buf, 8, k);
    } else {
        lemma_window_bounds(buf, 8);
    }
    reveal_with_fuel(thought_text, 2);
    reveal_with_fuel(answer_text, 2);
    if j > 0 {
        assert(th + buf.take(j) + buf.skip(j) =~= d);
    } else {
        assert(thought_text(Seq::<Piece>::empty()) =~= Seq::<char>::empty());
        assert(th + Seq::<char>::empty() =~= th);
    }
}

/// Inside the block, once the closing tag is complete: the step shows the rest of the
/// reasoning and the separator, and leaves the block holding the text after it.
proof fn lemma_inside_at_close(
    thought: Seq<char>,
    st1: ThinkState,
    th: Seq<char>,
    rest: Seq<char>,
)
    requires
        st1.in_think,
        lacks(thought, think_close_tag()),
        th + st1.buffer == thought + think_close_tag() + rest,
        th.len() <= thought.len(),
    ensures
        ({
            let (st2, out2) = body_stage(st1);
            &&& !st2.in_think
            &&& st2.response == st1.response
            &&& th + thought_text(out2) == thought
            &&& st2.buffer == rest
            &&& answer_text(out2) == Seq::<char>::empty()
        }),
{
    lemma_tags_first_char_unique();
    let ct = think_close_tag();
    let i = th.len() as int;
    let buf = st1.buffer;
    assert(buf =~= (thought + ct + rest).skip(i));
    lemma_first_occurrence(thought, ct, rest, i);
    let q = thought.len() - i;
    reveal_with_fuel(thought_text, 3);
    reveal_with_fuel(answer_text, 3);
    assert(buf.take(q) =~= thought.skip(i));
    assert((th + buf).subrange(0, i) =~= th);
    assert((thought + ct + rest).subrange(0, i) =~= thought.take(i));
    assert(th =~= thought.take(i));
    assert(th + buf.take(q) =~= thought);
    assert(buf.skip(q + 8) =~= rest);
}

/// The requirements of one step of a response with one reasoning block.
pub open spec fn block_step_ready(
    pre: Seq<char>,
    thought: Seq<char>,
    post: Seq<char>,
    c: Seq<char>,
    chunk: Seq<char>,
    st: ThinkState,
    th: Seq<char>,
) -> bool {
    &&& lacks(pre, think_open_tag())
    &&& lacks(thought, think_close_tag())
    &&& lacks(post, think_open_tag())
    &&& (c + chunk).len() <= with_block(pre, thought, post).len()
    &&& c + chunk == with_block(pre, thought, post).take((c + chunk).len() as int)
    &&& block_phase(pre, thought, c, st, th)
}

/// What one step of a response with one reasoning block keeps.
pub open spec fn block_step_done(
    pre: Seq<char>,
    thought: Seq<char>,
    c: Seq<char>,
    chunk: Seq<char>,
    st: ThinkState,
    th: Seq<char>,
) -> bool {
    block_phase(
        pre,
        thought,
        c + chunk,
        think_push(st, chunk).0,
        th + thought_text(think_push(st, chunk).1),
    )
}

/// The common facts of a step that starts before the opening tag is complete.
proof fn lemma_before_facts(
    pre: Seq<char>,
    thought: Seq<char>,
    post: Seq<char>,
    c: Seq<char>,
    chunk: Seq<char>,
    st: ThinkState,
    th: Seq<char>,
)
    requires
        block_step_ready(pre, thought, post, c, chunk, st, th),
        c.len() < pre.len() + 7,
    ensures
        with_block(pre, thought, post) =~= pre + (think_open_tag() + (thought + (
            think_close_tag() + post))),
        c + chunk =~= with_block(pre, thought, post).take((c + chunk).len() as int),
        st.response + (st.buffer + chunk) =~= c + chunk,
        !st.in_think,
        th.len() == 0,
        st.response.len() <= pre.len(),
{
    assert(st.response + (st.buffer + chunk) =~= (st.response + st.buffer) + chunk);
}

/// A step that ends before the opening tag is complete.
proof fn lemma_block_step_still_before(
    pre: Seq<char>,
    thought: Seq<char>,
    post: Seq<char>,
    c: Seq<char>,
    chunk: Seq<char>,
    st: ThinkState,
    th: Seq<char>,
)
    requires
        block_step_ready(pre, thought, post, c, chunk, st, th),
        (c + chunk).len() < pre.len() + 7,
    ensures
        block_step_done(pre, thought, c, chunk, st, th),
{
    lemma_tags_first_char_unique();
    lemma_before_facts(pre, thought, post, c, chunk, st, th);
    let ot = think_open_tag();
    let c2 = c + chunk;
    let a = pre.len() as int;
    let buf = st.buffer + chunk;
    let out = think_push(st, chunk).1;
    let r = st.response.len() as int;
    if c2.len() <= a {
        assert(c2 =~= pre.subrange(0, c2.len() as int));
        lemma_lacks_subrange(pre, ot, 0, c2.len() as int);
    } else {
        assert(c2 =~= pre + ot.take(c2.len() - a));
        lemma_lacks_with_partial(pre, ot, c2.len() - a);
    }
    assert(buf =~= c2.subrange(r, c2.len() as int));
    lemma_lacks_subrange(c2, ot, r, c2.len() as int);
    lemma_outside_step(st, chunk);
    if c2.len() > a {
        let k = c2.len() - a;
        assert(buf.subrange(buf.len() - k, buf.len() as int) =~= ot.take(k));
        lemma_held_tag(buf, k);
    }
    assert(th =~= Seq::<char>::empty());
    assert(th + thought_text(out) =~= th);
}

/// A step in which the opening tag becomes complete.
proof fn lemma_block_step_opens(
    pre: Seq<char>,
    thought: Seq<char>,
    post: Seq<char>,
    c: Seq<char>,
    chunk: Seq<char>,
    st: ThinkState,
    th: Seq<char>,
)
    requires
        block_step_ready(pre, thought, post, c, chunk, st, th),
        c.len() < pre.len() + 7 <= (c + chunk).len(),
    ensures
        block_step_done(pre, thought, c, chunk, st, th),
{
    lemma_tags_first_char_unique();
    lemma_before_facts(pre, thought, post, c, chunk, st, th);
    let ot = think_open_tag();
    let ct = think_close_tag();
    let c2 = c + chunk;
    let a = pre.len() as int;
    let e = a + 7 + thought.len() + 8;
    let buf = st.buffer + chunk;
    let (st1, out1) = open_stage(st, buf);
    let (st2, out2) = body_stage(st1);
    let out = think_push(st, chunk).1;
    assert(out == out1 + out2);
    lemma_texts_concat(out1, out2);
    reveal_with_fuel(thought_text, 2);
    let r = st.response.len() as int;
    let rest = c2.skip(a + 7);
    assert(c2 =~= pre + ot + rest);
    assert(buf =~= (pre + ot + rest).skip(r));
    lemma_first_occurrence(pre, ot, rest, r);
    assert(buf.take(a - r) =~= pre.skip(r));
    assert((st.response + buf).subrange(0, r) =~= st.response);
    assert((pre + ot + rest).subrange(0, r) =~= pre.take(r));
    assert(st.response =~= pre.take(r));
    assert(st.response + pre.skip(r) =~= pre);
    assert(buf.skip(a - r + 7) =~= rest);
    assert(st1.in_think && st1.response == pre && st1.buffer == rest);
    assert(thought_text(out1) =~= Seq::<char>::empty());
    assert(Seq::<char>::empty() + st1.buffer =~= rest);
    assert(th =~= Seq::<char>::empty());
    assert(Seq::<char>::empty() + thought_text(out2) =~= thought_text(out2));
    assert(th + thought_text(out) =~= thought_text(out2));
    if c2.len() < e {
        assert(rest =~= (thought + ct).take(rest.len() as int));
        lemma_inside_before_close(thought, st1, Seq::<char>::empty(), rest);
    } else {
        assert(rest =~= thought + ct + c2.skip(e));
        lemma_inside_at_close(thought, st1, Seq::<char>::empty(), c2.skip(e));
        assert(pre + c2.skip(e) =~= st2.response + st2.buffer);
    }
}

/// A step that starts inside the reasoning block.
proof fn lemma_block_step_inside(
    pre: Seq<char>,
    thought: Seq<char>,
    post: Seq<char>,
    c: Seq<char>,
    chunk: Seq<char>,
    st: ThinkState,
    th: Seq<char>,
)
    requires
        block_step_ready(pre, thought, post, c, chunk, st, th),
        pre.len() + 7 <= c.len() < pre.len() + 7 + thought.len() + 8,
    ensures
        block_step_done(pre, thought, c, chunk, st, th),
{
    lemma_tags_first_char_unique();
    let ot = think_open_tag();
    let ct = think_close_tag();
    let s = with_block(pre, thought, post);
    let c2 = c + chunk;
    let a = pre.len() as int;
    let e = a + 7 + thought.len() + 8;
    let buf = st.buffer + chunk;
    let (st1, out1) = open_stage(st, buf);
    let (st2, out2) = body_stage(st1);
    let out = think_push(st, chunk).1;
    assert(out == out1 + out2);
    lemma_texts_concat(out1, out2);
    assert(s =~= pre + (ot + (thought + (ct + post))));
    assert(c2 =~= s.take(c2.len() as int));
    assert(st1 == ThinkState { buffer: buf, ..st });
    assert(out1 =~= Seq::<Piece>::empty());
    assert(thought_text(Seq::<Piece>::empty()) =~= Seq::<char>::empty());
    assert(out =~= out2);
    let d = c2.skip(a + 7);
    assert(d =~= c.skip(a + 7) + chunk);
    assert(th + buf =~= (th + st.buffer) + chunk);
    assert(th + buf =~= d);
    if c2.len() < e {
        assert(d =~= (thought + ct).take(d.len() as int));
        lemma_inside_before_close(thought, st1, th, d);
    } else {
        assert(d =~= thought + ct + c2.skip(e));
        lemma_inside_at_close(thought, st1, th, c2.skip(e));
        assert(pre + c2.skip(e) =~= st2.response + st2.buffer);
    }
}

/// A step that starts after the reasoning block.
proof fn lemma_block_step_after(
    pre: Seq<char>,
    thought: Seq<char>,
    post: Seq<char>,
    c: Seq<char>,
    chunk: Seq<char>,
    st: ThinkState,
    th: Seq<char>,
)
    requires
        block_step_ready(pre, thought, post, c, chunk, st, th),
        pre.len() + 7 + thought.len() + 8 <= c.len(),
    ensures
        block_step_done(pre, thought, c, chunk, st, th),
{
    lemma_tags_first_char_unique();
    let ot = think_open_tag();
    let ct = think_close_tag();
    let s = with_block(pre, thought, post);
    let c2 = c + chunk;
    let a = pre.len() as int;
    let e = a + 7 + thought.len() + 8;
    let buf = st.buffer + chunk;
    let out = think_push(st, chunk).1;
    assert(s =~= pre + (ot + (thought + (ct + post))));
    assert(c2 =~= s.take(c2.len() as int));
    let r = st.response.len() as int;
    let p2 = c2.skip(e);
    assert(p2 =~= c.skip(e) + chunk);
    assert(p2 =~= post.subrange(0, p2.len() as int));
    lemma_lacks_subrange(post, ot, 0, p2.len() as int);
    assert(st.response + buf =~= (st.response + st.buffer) + chunk);
    assert((pre + c.skip(e)) + chunk =~= pre + p2);
    assert(st.response + buf =~= pre + p2);
    assert((st.response + buf).skip(r) =~= buf);
    assert((pre + p2).skip(r) =~= p2.subrange(r - a, p2.len() as int));
    assert(buf =~= p2.subrange(r - a, p2.len() as int));
    lemma_lacks_subrange(p2, ot, r - a, p2.len() as int);
    lemma_outside_step(st, chunk);
    assert(th + thought_text(out) =~= th);
}

/// One step of a response with one reasoning block keeps `block_phase`, and adds to the
/// kept response the answer text it shows.
proof fn lemma_block_step(
    pre: Seq<char>,
    thought: Seq<char>,
    post: Seq<char>,
    c: Seq<char>,
    chunk: Seq<char>,
    st: ThinkState,
    th: Seq<char>,
)
    requires
        block_step_ready(pre, thought, post, c, chunk, st, th),
    ensures
        block_step_done(pre, thought, c, chunk, st, th),
        think_push(st, chunk).0.response == st.response + answer_text(think_push(st, chunk).1),
{
    lemma_push_response(st, chunk);
    if (c + chunk).len() < pre.len() + 7 {
        lemma_block_step_still_before(pre, thought, post, c, chunk, st, th);
    } else if c.len() < pre.len() + 7 {
        lemma_block_step_opens(pre, thought, post, c, chunk, st, th);
    } else if c.len() < pre.len() + 7 + thought.len() + 8 {
        lemma_block_step_inside(pre, thought, post, c, chunk, st, th);
    } else {
        lemma_block_step_after(pre, thought, post, c, chunk, st, th);
    }
}

/// The text joined from the chunks but the last is the text joined from all of them
/// without the last chunk's characters.
proof fn lemma_joined_prefix(chunks: Seq<Seq<char>>, s: Seq<char>)
    requires
        chunks.len() > 0,
        joined(chunks).len() <= s.len(),
        joined(chunks) == s.take(joined(chunks).len() as int),
    ensures
        joined(chunks.drop_last()).len() <= s.len(),
        joined(chunks.drop_last()) == s.take(joined(chunks.drop_last()).len() as int),
        joined(chunks) == joined(chunks.drop_last()) + chunks.last(),
{
    let init = joined(chunks.drop_last());
    assert(joined(chunks).take(init.len() as int) =~= init);
    assert(s.take(joined(chunks).len() as int).take(init.len() as int) =~= s.take(
        init.len() as int,
    ));
}

/// While a response with one reasoning block streams in, the filter stays in
/// `block_phase`, and the response it keeps is the answer text it has shown.
proof fn lemma_block_run(
    pre: Seq<char>,
    thought: Seq<char>,
    post: Seq<char>,
    chunks: Seq<Seq<char>>,
)
    requires
        lacks(pre, think_open_tag()),
        lacks(thought, think_close_tag()),
        lacks(post, think_open_tag()),
        joined(chunks).len() <= with_block(pre, thought, post).len(),
        joined(chunks) == with_block(pre, thought, post).take(joined(chunks).len() as int),
    ensures
        block_phase(
            pre,
            thought,
            joined(chunks),
            think_run(think_start(), chunks).0,
            thought_text(think_run(think_start(), chunks).1),
        ),
        think_run(think_start(), chunks).0.response == answer_text(
            think_run(think_start(), chunks).1,
        ),
    decreases chunks.len(),
{
    if chunks.len() == 0 {
        assert(thought_text(Seq::<Piece>::empty()) =~= Seq::<char>::empty());
        assert(answer_text(Seq::<Piece>::empty()) =~= Seq::<char>::empty());
        assert(Seq::<char>::empty() + Seq::<char>::empty() =~= joined(chunks));
    } else {
        let init = chunks.drop_last();
        lemma_joined_prefix(chunks, with_block(pre, thought, post));
        lemma_block_run(pre, thought, post, init);
        let (s1, p1) = think_run(think_start(), init);
        lemma_block_step(pre, thought, post, joined(init), chunks.last(), s1, thought_text(p1));
        let p2 = think_push(s1, chunks.last()).1;
        lemma_texts_concat(p1, p2);
    }
}

/// Law: a response made of answer text `pre`, a reasoning block `<think>thought</think>`
/// and answer text `post` is separated exactly, however it is cut into chunks: the
/// answer shown is `pre` followed by `post`, the reasoning shown is `thought`, and the
/// response kept is the answer. It holds when `pre` and `post` hold no `<think>` and
/// `thought` holds no `</think>`.
pub proof fn lemma_reasoning_block_separated(
    chunks: Seq<Seq<char>>,
    pre: Seq<char>,
    thought: Seq<char>,
    post: Seq<char>,
)
    requires
        joined(chunks) == pre + think_open_tag() + thought + think_close_tag() + post,
        lacks(pre, think_open_tag()),
        lacks(thought, think_close_tag()),
        lacks(post, think_open_tag()),
    ensures
        answer_text(think_shown(chunks).1) == pre + post,
        thought_text(think_shown(chunks).1) == thought,
        think_shown(chunks).0.response == pre + post,
{
    let s = with_block(pre, thought, post);
    assert(s.take(s.len() as int) =~= s);
    lemma_block_run(pre, thought, post, chunks);
    let (s1, p1) = think_run(think_start(), chunks);
    let (s2, p2) = think_finish(s1);
    let e = pre.len() + 7 + thought.len() + 8;
    assert(s.skip(e as int) =~= post);
    lemma_texts_concat(p1, p2);
    reveal_with_fuel(answer_text, 3);
    reveal_with_fuel(thought_text, 3);
    if s1.buffer.len() == 0 {
        assert(s1.response + s1.buffer =~= s1.response);
    }
}

/// Law: a response without `<think>` is shown whole as answer, however it is cut into
/// chunks: no reasoning is shown and the response kept is the whole text.
pub proof fn lemma_plain_response_shown_whole(chunks: Seq<Seq<char>>)
    requires
        lacks(joined(chunks), think_open_tag()),
    ensures
        answer_text(think_shown(chunks).1) == joined(chunks),
        thought_text(think_shown(chunks).1) == Seq::<char>::empty(),
        think_shown(chunks).0.response == joined(chunks),
{
    lemma_plain_run(chunks);
    let (s1, p1) = think_run(think_start(), chunks);
    let (s2, p2) = think_finish(s1);
    lemma_texts_concat(p1, p2);
    reveal_with_fuel(answer_text, 3);
    reveal_with_fuel(thought_text, 3);
    if s1.buffer.len() == 0 {
        assert(s1.response + s1.buffer =~= s1.response);
    }
}

/// While a response without `<think>` streams in, the filter stays outside any block,
/// holds back only what it has not shown, and shows no reasoning.
proof fn lemma_plain_run(chunks: Seq<Seq<char>>)
    requires
        lacks(joined(chunks), think_open_tag()),
    ensures
        !think_run(think_start(), chunks).0.in_think,
        think_run(think_start(), chunks).0.response + think_run(think_start(), chunks).0.buffer
            == joined(chunks),
        think_run(think_start(), chunks).0.response == answer_text(
            think_run(think_start(), chunks).1,
        ),
        thought_text(think_run(think_start(), chunks).1) == Seq::<char>::empty(),
    decreases chunks.len(),
{
    if chunks.len() == 0 {
        assert(thought_text(Seq::<Piece>::empty()) =~= Seq::<char>::empty());
        assert(answer_text(Seq::<Piece>::empty()) =~= Seq::<char>::empty());
        assert(Seq::<char>::empty() + Seq::<char>::empty() =~= joined(chunks));
    } else {
        let init = chunks.drop_last();
        let all = joined(chunks);
        let c = joined(init);
        assert(all =~= c + chunks.last());
        lemma_lacks_subrange(all, think_open_tag(), 0, c.len() as int);
        assert(all.subrange(0, c.len() as int) =~= c);
        lemma_plain_run(init);
        let (s1, p1) = think_run(think_start(), init);
        let buf = s1.buffer + chunks.last();
        let r = s1.response.len() as int;
        assert(s1.response + buf =~= (s1.response + s1.buffer) + chunks.last());
        assert(buf =~= all.subrange(r, all.len() as int));
        lemma_lacks_subrange(all, think_open_tag(), r, all.len() as int);
        lemma_outside_step(s1, chunks.last());
        lemma_push_response(s1, chunks.last());
        let p2 = think_push(s1, chunks.last()).1;
        lemma_texts_concat(p1, p2);
        assert(Seq::<char>::empty() + Seq::<char>::empty() =~= Seq::<char>::empty());
    }
}

} // verus!
