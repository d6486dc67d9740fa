//! Streaming helpers: incremental UTF-8 decoding and think-tag detection.

use vstd::prelude::*;

use vstd::slice::slice_subrange;
use vstd::utf8::*;

use crate::text::{chars_end_with, chars_of, decimal, decimal_string, ends_with};

verus! {

/// The opening tag that starts a reasoning block in a model's output.
pub open spec fn think_open_tag() -> Seq<char> {
    seq!['<', 't', 'h', 'i', 'n', 'k', '>']
}

/// The length of the longest proper, non-empty prefix of `<think>` that `s` ends with,
/// or 0 when there is none.
pub open spec fn spec_think_tag_prefix_len(s: Seq<char>) -> nat {
    if ends_with(s, think_open_tag().take(6)) { 6 }
    else if ends_with(s, think_open_tag().take(5)) { 5 }
    else if ends_with(s, think_open_tag().take(4)) { 4 }
    else if ends_with(s, think_open_tag().take(3)) { 3 }
    else if ends_with(s, think_open_tag().take(2)) { 2 }
    else if ends_with(s, think_open_tag().take(1)) { 1 }
    else { 0 }
}

} // verus!

verus! {

/// Detects whether the end of `s` could be the start of a `<think>` tag that is still
/// arriving: returns the length of the longest proper prefix of `<think>` (from 6 down
/// to 1 characters) that `s` ends with, or 0 when no prefix matches. A complete tag at
/// the end of `s` is not a prefix and gives 0 unless it also ends with a shorter prefix.
pub fn think_tag_prefix_len(s: &str) -> (n: usize)
    ensures
        n == spec_think_tag_prefix_len(s@),
        n <= 6,
        n > 0 ==> ends_with(s@, think_open_tag().take(n as int)),
        forall|k: int| n < k <= 6 ==> !ends_with(s@, #[trigger] think_open_tag().take(k)),
{
    let chars = chars_of(s);
    think_tag_prefix_len_chars(chars.as_slice())
}

/// `think_tag_prefix_len` on characters.
pub fn think_tag_prefix_len_chars(s: &[char]) -> (n: usize)
    ensures
        n == spec_think_tag_prefix_len(s@),
        n <= 6,
        n > 0 ==> ends_with(s@, think_open_tag().take(n as int)),
        forall|k: int| n < k <= 6 ==> !ends_with(s@, #[trigger] think_open_tag().take(k)),
{
    let tag: Vec<char> = vec!['<', 't', 'h', 'i', 'n', 'k', '>'];
    assert(tag@ == think_open_tag());
    let mut len: usize = 6;
    while len >= 1
        invariant
            len <= 6,
            tag@ == think_open_tag(),
            forall|k: int| len < k <= 6 ==> !ends_with(s@, #[trigger] think_open_tag().take(k)),
        decreases len,
    {
        let prefix = slice_subrange(tag.as_slice(), 0, len);
        assert(prefix@ == think_open_tag().take(len as int));
        if chars_end_with(s, prefix) {
            return len;
        }
        len = len - 1;
    }
    0
}

} // verus!

verus! {

/// Why a byte sequence is not valid UTF-8, in the terms of `std::str::Utf8Error`:
/// the length of the longest valid prefix, and the length of the invalid sequence that
/// follows it (`None` when the input merely ends in the middle of a character).
#[derive(Debug, Clone, Copy, PartialEq, Eq)]
pub struct Utf8DecodeError {
    pub valid_up_to: usize,
    pub error_len: Option<usize>,
}

/// Some bytes may follow `bytes` so that the whole is valid UTF-8.
pub open spec fn can_extend_to_valid_utf8(bytes: Seq<u8>) -> bool {
    exists|ext: Seq<u8>| valid_utf8(#[trigger] (bytes + ext))
}

/// `k` is the length of the longest prefix of `bytes` that is valid UTF-8.
pub open spec fn is_longest_valid_prefix(bytes: Seq<u8>, k: int) -> bool {
    &&& 0 <= k <= bytes.len()
    &&& valid_utf8(bytes.take(k))
    &&& forall|i: int| k < i <= bytes.len() ==> !valid_utf8(#[trigger] bytes.take(i))
}

/// The length of the longest prefix of `bytes` that is valid UTF-8.
pub open spec fn longest_valid_prefix_len(bytes: Seq<u8>) -> int {
    choose|k: int| is_longest_valid_prefix(bytes, k)
}

/// The length of the invalid sequence that `std::str::Utf8Error::error_len` reports for
/// bytes that are not valid UTF-8 (`None` when they merely end inside a character).
pub uninterp spec fn utf8_error_length(bytes: Seq<u8>) -> Option<usize>;

/// `std::str::from_utf8`, with the error turned into plain values.
/// The contract restates the documentation: the call succeeds exactly on valid UTF-8 and
/// then yields the decoded characters; otherwise `valid_up_to` is the longest valid
/// prefix, and `error_len` is `Some` when an unexpected byte rules out every
/// continuation of the input, `None` when the input ends 1 to 3 bytes into a character
/// that further bytes could complete. The exact length of an invalid sequence is the one
/// named by `utf8_error_length`.
#[verifier::external_body]
fn str_from_utf8(bytes: &[u8]) -> (r: Result<String, Utf8DecodeError>)
    ensures
        r is Ok <==> valid_utf8(bytes@),
        r matches Ok(s) ==> s@ == decode_utf8(bytes@),
        r matches Err(e) ==> is_longest_valid_prefix(bytes@, e.valid_up_to as int),
        r matches Err(e) ==> e.error_len == utf8_error_length(bytes@),
        r matches Err(e) ==> (e.error_len matches Some(n) ==> 1 <= n <= 3 && e.valid_up_to + n
            <= bytes@.len() && forall|ext: Seq<u8>| !valid_utf8(#[trigger] (bytes@ + ext))),
        r matches Err(e) ==> (e.error_len is None ==> 1 <= bytes@.len() - e.valid_up_to <= 3
            && can_extend_to_valid_utf8(bytes@)),
{
    match std::str::from_utf8(bytes) {
        Ok(s) => Ok(s.to_string()),
        Err(e) => Err(Utf8DecodeError { valid_up_to: e.valid_up_to(), error_len: e.error_len() }),
    }
}

/// Splitting valid UTF-8 after a valid prefix leaves valid UTF-8, and decoding
/// distributes over the split.
pub proof fn lemma_valid_utf8_suffix(a: Seq<u8>, b: Seq<u8>)
    requires
        valid_utf8(a),
        valid_utf8(a + b),
    ensures
        valid_utf8(b),
        decode_utf8(a + b) == decode_utf8(a) + decode_utf8(b),
    decreases a.len(),
{
    if a.len() == 0 {
        assert(a + b =~= b);
    } else {
        let ab = a + b;
        assert(forall|i: int| 0 <= i < a.len() ==> ab[i] == a[i]);
        assert(valid_first_scalar(a));
        assert(valid_leading_and_continuation_bytes_first_codepoint(a));
        assert(length_of_first_scalar(ab) == length_of_first_scalar(a));
        assert(decode_first_scalar(ab) == decode_first_scalar(a));
        assert(pop_first_scalar(ab) =~= pop_first_scalar(a) + b);
        lemma_valid_utf8_suffix(pop_first_scalar(a), b);
        assert(decode_utf8(ab) =~= seq![decode_first_scalar(a) as char] + decode_utf8(
            pop_first_scalar(a),
        ) + decode_utf8(b));
    }
}

/// A prefix length satisfying `is_longest_valid_prefix` is the one that
/// `longest_valid_prefix_len` names.
pub proof fn lemma_longest_valid_prefix_unique(bytes: Seq<u8>, k: int)
    requires
        is_longest_valid_prefix(bytes, k),
    ensures
        longest_valid_prefix_len(bytes) == k,
{
    let c = longest_valid_prefix_len(bytes);
    assert(is_longest_valid_prefix(bytes, c));
    if c < k {
        assert(!valid_utf8(bytes.take(k)));
    } else if k < c {
        assert(!valid_utf8(bytes.take(c)));
    }
}

/// Decoding one chunk keeps the rest of a valid stream decodable: if the buffered bytes
/// followed by `rest` are valid UTF-8, so are the bytes left over after the longest valid
/// prefix followed by `rest`, and the decoded text splits accordingly.
pub proof fn lemma_chunk_split_keeps_stream(bytes: Seq<u8>, rest: Seq<u8>)
    requires
        valid_utf8(bytes + rest),
    ensures
        is_longest_valid_prefix(bytes, longest_valid_prefix_len(bytes)),
        valid_utf8(bytes.skip(longest_valid_prefix_len(bytes)) + rest),
        decode_utf8(bytes + rest) == decode_utf8(bytes.take(longest_valid_prefix_len(bytes)))
            + decode_utf8(bytes.skip(longest_valid_prefix_len(bytes)) + rest),
{
    lemma_longest_valid_prefix_exists(bytes);
    let k = longest_valid_prefix_len(bytes);
    assert(bytes + rest =~= bytes.take(k) + (bytes.skip(k) + rest));
    lemma_valid_utf8_suffix(bytes.take(k), bytes.skip(k) + rest);
}

/// Every byte sequence has a longest valid UTF-8 prefix.
pub proof fn lemma_longest_valid_prefix_exists(bytes: Seq<u8>)
    ensures
        is_longest_valid_prefix(bytes, longest_valid_prefix_len(bytes)),
{
    assert(bytes.take(0) =~= Seq::<u8>::empty());
    lemma_longest_from(bytes, 0);
}

proof fn lemma_longest_from(bytes: Seq<u8>, k: int)
    requires
        0 <= k <= bytes.len(),
        valid_utf8(bytes.take(k)),
    ensures
        is_longest_valid_prefix(bytes, longest_valid_prefix_len(bytes)),
    decreases bytes.len() - k,
{
    if is_longest_valid_prefix(bytes, k) {
    } else {
        let i = choose|i: int| k < i <= bytes.len() && valid_utf8(#[trigger] bytes.take(i));
        lemma_longest_from(bytes, i);
    }
}

/// Decodes incoming streaming bytes into a UTF-8 string buffer, retaining an incomplete
/// multi-byte character at the end in `raw_buffer` until the next chunk completes it.
///
/// The pending bytes and the new chunk are decoded up to their longest valid prefix,
/// which is appended to `str_buffer`; the rest stays in `raw_buffer`. The call fails
/// exactly when no continuation could make the bytes valid; the error then describes the
/// invalid sequence at the start of `raw_buffer`.
pub fn decode_utf8_chunk(raw_buffer: &mut Vec<u8>, chunk: &[u8], str_buffer: &mut String) -> (r:
    Result<(), Utf8DecodeError>)
    ensures
        ({
            let bytes = old(raw_buffer)@ + chunk@;
            let k = longest_valid_prefix_len(bytes);
            &&& is_longest_valid_prefix(bytes, k)
            &&& final(raw_buffer)@ == bytes.skip(k)
            &&& final(str_buffer)@ == old(str_buffer)@ + decode_utf8(bytes.take(k))
            &&& (r is Ok <==> can_extend_to_valid_utf8(bytes))
            &&& (r is Ok ==> final(raw_buffer)@.len() <= 3)
            &&& (r matches Err(e) ==> e.valid_up_to == 0 && e.error_len == utf8_error_length(
                final(raw_buffer)@) && (e.error_len matches Some(n) && 1 <= n <= 3 && n <= final(
                raw_buffer)@.len()))
        }),
{
    let ghost bytes = old(raw_buffer)@ + chunk@;
    let mut i: usize = 0;
    while i < chunk.len()
        invariant
            i <= chunk@.len(),
            raw_buffer@ == old(raw_buffer)@ + chunk@.take(i as int),
        decreases chunk@.len() - i,
    {
        raw_buffer.push(chunk[i]);
        i = i + 1;
        assert(raw_buffer@ =~= old(raw_buffer)@ + chunk@.take(i as int));
    }
    assert(chunk@.take(chunk@.len() as int) =~= chunk@);
    assert(raw_buffer@ == bytes);
    match str_from_utf8(raw_buffer.as_slice()) {
        Ok(valid_str) => {
            str_buffer.append(valid_str.as_str());
            raw_buffer.clear();
            proof {
                assert(bytes.take(bytes.len() as int) =~= bytes);
                assert(is_longest_valid_prefix(bytes, bytes.len() as int));
                lemma_longest_valid_prefix_unique(bytes, bytes.len() as int);
                assert(bytes + Seq::<u8>::empty() =~= bytes);
                assert(bytes.skip(bytes.len() as int) =~= Seq::<u8>::empty());
            }
            Ok(())
        },
        Err(e) => {
            let valid = e.valid_up_to;
            proof {
                lemma_longest_valid_prefix_unique(bytes, valid as int);
            }
            if valid > 0 {
                let prefix = slice_subrange(raw_buffer.as_slice(), 0, valid);
                assert(prefix@ =~= bytes.take(valid as int));
                match str_from_utf8(prefix) {
                    Ok(valid_str) => {
                        str_buffer.append(valid_str.as_str());
                    },
                    Err(_) => {
                        assert(false);
                    },
                }
                let rest = raw_buffer.split_off(valid);
                *raw_buffer = rest;
            } else {
                assert(bytes.take(0) =~= Seq::<u8>::empty());
                assert(decode_utf8(Seq::<u8>::empty()) =~= Seq::<char>::empty());
                assert(bytes.skip(0) =~= bytes);
            }
            assert(raw_buffer@ =~= bytes.skip(valid as int));
            if e.error_len.is_some() {
                let ghost tail = bytes.skip(valid as int);
                proof {
                    assert(bytes =~= bytes.take(valid as int) + tail);
                    if valid_utf8(tail) {
                        valid_utf8_concat(bytes.take(valid as int), tail);
                    }
                }
                match str_from_utf8(raw_buffer.as_slice()) {
                    Ok(_) => {
                        assert(false);
                        Ok(())
                    },
                    Err(e2) => {
                        proof {
                            if e2.valid_up_to > 0 {
                                let v2 = e2.valid_up_to as int;
                                assert(bytes.take(valid + v2) =~= bytes.take(valid as int)
                                    + tail.take(v2));
                                valid_utf8_concat(bytes.take(valid as int), tail.take(v2));
                                assert(!valid_utf8(bytes.take(valid + v2)));
                            }
                            if e2.error_len is None {
                                let ext = choose|ext: Seq<u8>| valid_utf8(#[trigger] (tail + ext));
                                assert(bytes + ext =~= bytes.take(valid as int) + (tail + ext));
                                valid_utf8_concat(bytes.take(valid as int), tail + ext);
                                assert(!valid_utf8(bytes + ext));
                            }
                        }
                        Err(e2)
                    },
                }
            } else {
                Ok(())
            }
        },
    }
}

} // verus!

verus! {

/// Pending bytes and decoded text after `decode_utf8_chunk` has been called on each of
/// `chunks` in turn, starting from pending bytes `raw` and text `text`.
pub open spec fn chunks_decoded(raw: Seq<u8>, text: Seq<char>, chunks: Seq<Seq<u8>>) -> (Seq<
    u8,
>, Seq<char>)
    decreases chunks.len(),
{
    if chunks.len() == 0 {
        (raw, text)
    } else {
        let bytes = raw + chunks[0];
        let k = longest_valid_prefix_len(bytes);
        chunks_decoded(bytes.skip(k), text + decode_utf8(bytes.take(k)), chunks.drop_first())
    }
}

/// Every call of `decode_utf8_chunk` on `chunks` in turn, starting from pending bytes
/// `raw`, succeeds.
pub open spec fn chunks_all_accepted(raw: Seq<u8>, chunks: Seq<Seq<u8>>) -> bool
    decreases chunks.len(),
{
    if chunks.len() == 0 {
        true
    } else {
        let bytes = raw + chunks[0];
        &&& can_extend_to_valid_utf8(bytes)
        &&& chunks_all_accepted(bytes.skip(longest_valid_prefix_len(bytes)), chunks.drop_first())
    }
}

/// Law of incremental decoding: however a valid UTF-8 stream is cut into chunks (even in
/// the middle of a character), feeding the chunks in order to `decode_utf8_chunk`
/// succeeds every time, yields exactly the decoded stream, and leaves no bytes pending.
pub proof fn lemma_chunked_decoding_is_exact(chunks: Seq<Seq<u8>>)
    requires
        chunks.len() > 0,
        valid_utf8(chunks.flatten()),
    ensures
        chunks_all_accepted(Seq::empty(), chunks),
        chunks_decoded(Seq::empty(), Seq::empty(), chunks) == (
            Seq::<u8>::empty(),
            decode_utf8(chunks.flatten()),
        ),
{
    assert(Seq::<u8>::empty() + chunks.flatten() =~= chunks.flatten());
    assert(Seq::<char>::empty() + decode_utf8(chunks.flatten()) =~= decode_utf8(
        chunks.flatten(),
    ));
    lemma_chunked_decoding_from(Seq::empty(), Seq::empty(), chunks);
}

proof fn lemma_chunked_decoding_from(raw: Seq<u8>, text: Seq<char>, chunks: Seq<Seq<u8>>)
    requires
        chunks.len() > 0,
        valid_utf8(raw + chunks.flatten()),
    ensures
        chunks_all_accepted(raw, chunks),
        chunks_decoded(raw, text, chunks) == (
            Seq::<u8>::empty(),
            text + decode_utf8(raw + chunks.flatten()),
        ),
    decreases chunks.len(),
{
    let bytes = raw + chunks[0];
    let rest = chunks.drop_first().flatten();
    assert(chunks.flatten() == chunks[0] + rest);
    assert(raw + chunks.flatten() =~= bytes + rest);
    lemma_chunk_split_keeps_stream(bytes, rest);
    let k = longest_valid_prefix_len(bytes);
    assert(can_extend_to_valid_utf8(bytes));
    if chunks.len() == 1 {
        reveal_with_fuel(chunks_decoded, 2);
        reveal_with_fuel(chunks_all_accepted, 2);
        assert(rest =~= Seq::<u8>::empty());
        assert(bytes + rest =~= bytes);
        assert(bytes.take(bytes.len() as int) =~= bytes);
        lemma_longest_valid_prefix_unique(bytes, bytes.len() as int);
        assert(bytes.skip(k) =~= Seq::<u8>::empty());
        assert(bytes.skip(k) + rest =~= Seq::<u8>::empty());
        assert(decode_utf8(Seq::<u8>::empty()) =~= Seq::<char>::empty());
        assert(chunks.drop_first().len() == 0);
        assert(text + decode_utf8(bytes.take(k)) =~= text + decode_utf8(raw + chunks.flatten()));
    } else {
        lemma_chunked_decoding_from(
            bytes.skip(k),
            text + decode_utf8(bytes.take(k)),
            chunks.drop_first(),
        );
        assert(text + decode_utf8(bytes.take(k)) + decode_utf8(bytes.skip(k) + rest) =~= text
            + decode_utf8(raw + chunks.flatten()));
    }
}

} // verus!

verus! {

/// The description of a UTF-8 decoding error, as `std::str::Utf8Error` displays it.
pub open spec fn utf8_error_text(e: Utf8DecodeError) -> Seq<char> {
    match e.error_len {
        Some(n) => "invalid utf-8 sequence of "@ + decimal(n as nat) + " bytes from index "@
            + decimal(e.valid_up_to as nat),
        None => "incomplete utf-8 byte sequence from index "@ + decimal(e.valid_up_to as nat),
    }
}

impl Utf8DecodeError {
    /// The description of the error.
    pub fn message(&self) -> (s: String)
        ensures
            s@ == utf8_error_text(*self),
    {
        match self.error_len {
            Some(n) => {
                let mut s = String::from_str("invalid utf-8 sequence of ");
                s.append(decimal_string(n as u64).as_str());
                s.append(" bytes from index ");
                s.append(decimal_string(self.valid_up_to as u64).as_str());
                s
            },
            None => {
                let mut s = String::from_str("incomplete utf-8 byte sequence from index ");
                s.append(decimal_string(self.valid_up_to as u64).as_str());
                s
            },
        }
    }
}

} // verus!
