//! Encoding of texts and lists of texts inside a message.
//!
//! A text is the length of its UTF-8 encoding, as four bytes in big-endian
//! order, followed by the encoding. A list of texts is the number of its
//! texts, written the same way, followed by the texts in order.

use crate::frame::MAX_FRAME_LEN;
use crate::wire::{
    be32, be32_value, lemma_be32_value_of_be32, lemma_be32_value_prefix, push_all, push_be32,
    read_be32, LEN_BYTES,
};
use vstd::prelude::*;
use vstd::slice::slice_subrange;
use vstd::utf8::{
    decode_utf8, encode_utf8, encode_utf8_decode_utf8, encode_utf8_valid_utf8, valid_utf8,
};

verus! {

broadcast use crate::wire::lemma_be32_len;

/// A value whose own decoding may fail without failing the message around
/// it: where it could not be decoded there is none.
#[derive(Clone, Debug, PartialEq, Eq)]
pub struct FailableDeserialization<T>(pub Option<T>);

/// The texts of a list of strings.
pub open spec fn texts_of(list: Seq<String>) -> Seq<Seq<char>> {
    Seq::new(list.len(), |i: int| list[i]@)
}

impl View for FailableDeserialization<Vec<String>> {
    type V = Option<Seq<Seq<char>>>;

    open spec fn view(&self) -> Option<Seq<Seq<char>>> {
        match self.0 {
            Some(list) => Some(texts_of(list@)),
            None => None,
        }
    }
}

/// The bytes of a text.
pub open spec fn text_bytes(text: Seq<char>) -> Seq<u8> {
    be32(encode_utf8(text).len()) + encode_utf8(text)
}

/// Reads a text off the front of `bytes`: the text and what follows it, or
/// nothing where the length runs past the end or the bytes are not UTF-8.
pub open spec fn parse_text(bytes: Seq<u8>) -> Option<(Seq<char>, Seq<u8>)> {
    if bytes.len() < LEN_BYTES || bytes.len() - LEN_BYTES < be32_value(bytes) {
        None
    } else {
        let body = bytes.subrange(LEN_BYTES as int, LEN_BYTES + be32_value(bytes));
        if valid_utf8(body) {
            Some((decode_utf8(body), bytes.skip(LEN_BYTES + be32_value(bytes))))
        } else {
            None
        }
    }
}

/// The bytes of the texts of a list, one after the other, without the count.
pub open spec fn concat_texts(list: Seq<Seq<char>>) -> Seq<u8>
    decreases list.len(),
{
    if list.len() == 0 {
        Seq::empty()
    } else {
        concat_texts(list.drop_last()) + text_bytes(list.last())
    }
}

/// Reads `n` texts off the front of `bytes`.
pub open spec fn parse_n_texts(bytes: Seq<u8>, n: nat) -> Option<(Seq<Seq<char>>, Seq<u8>)>
    decreases n,
{
    if n == 0 {
        Some((Seq::empty(), bytes))
    } else {
        match parse_n_texts(bytes, (n - 1) as nat) {
            Some((texts, rest)) => match parse_text(rest) {
                Some((text, after)) => Some((texts.push(text), after)),
                None => None,
            },
            None => None,
        }
    }
}

/// The bytes of a list of texts.
pub open spec fn texts_bytes(list: Seq<Seq<char>>) -> Seq<u8> {
    be32(list.len()) + concat_texts(list)
}

/// Reads a list of texts off the front of `bytes`.
pub open spec fn parse_texts(bytes: Seq<u8>) -> Option<(Seq<Seq<char>>, Seq<u8>)> {
    if bytes.len() < LEN_BYTES {
        None
    } else {
        parse_n_texts(bytes.skip(LEN_BYTES as int), be32_value(bytes))
    }
}

/// Decodes a list of texts that must fill `bytes` to the end.
pub open spec fn decode_texts(bytes: Seq<u8>) -> Option<Seq<Seq<char>>> {
    match parse_texts(bytes) {
        Some((list, rest)) => if rest.len() == 0 {
            Some(list)
        } else {
            None
        },
        None => None,
    }
}

/// The bytes of a list of texts that may be absent: the length of what
/// follows, then the list, or nothing where it is absent.
pub open spec fn failable_texts_bytes(list: Option<Seq<Seq<char>>>) -> Seq<u8> {
    match list {
        Some(list) => be32(texts_bytes(list).len()) + texts_bytes(list),
        None => be32(0),
    }
}

/// Reads a list of texts that may be absent off the front of `bytes`. Only a length that
/// runs past the end fails; where the bytes within that length are no list
/// of texts, the list is absent.
pub open spec fn parse_failable_texts(bytes: Seq<u8>) -> Option<(Option<Seq<Seq<char>>>, Seq<u8>)> {
    if bytes.len() < LEN_BYTES || bytes.len() - LEN_BYTES < be32_value(bytes) {
        None
    } else {
        Some(
            (
                decode_texts(bytes.subrange(LEN_BYTES as int, LEN_BYTES + be32_value(bytes))),
                bytes.skip(LEN_BYTES + be32_value(bytes)),
            ),
        )
    }
}

/// A text that was written is read back, with what follows it.
pub proof fn lemma_parse_text(text: Seq<char>, tail: Seq<u8>)
    requires
        encode_utf8(text).len() <= u32::MAX,
    ensures
        parse_text(text_bytes(text) + tail) == Some((text, tail)),
{
    let body = encode_utf8(text);
    let bytes = text_bytes(text) + tail;
    lemma_be32_value_of_be32(body.len());
    lemma_be32_value_prefix(be32(body.len()), body + tail);
    assert(bytes =~= be32(body.len()) + (body + tail));
    assert(bytes.subrange(LEN_BYTES as int, LEN_BYTES + body.len()) =~= body);
    assert(bytes.skip(LEN_BYTES + body.len()) =~= tail);
    encode_utf8_valid_utf8(text);
    encode_utf8_decode_utf8(text);
}

/// Once reading texts has failed, reading more of them fails too.
pub proof fn lemma_parse_n_texts_fails(bytes: Seq<u8>, n: nat, more: nat)
    requires
        parse_n_texts(bytes, n) is None,
        n <= more,
    ensures
        parse_n_texts(bytes, more) is None,
    decreases more,
{
    if n < more {
        lemma_parse_n_texts_fails(bytes, n, (more - 1) as nat);
    }
}

/// Each text takes at least the four bytes of its length, and no text is
/// longer than the list it stands in.
pub proof fn lemma_concat_texts_len(list: Seq<Seq<char>>)
    ensures
        concat_texts(list).len() >= LEN_BYTES * list.len(),
        forall|i: int|
            0 <= i < list.len() ==> (#[trigger] text_bytes(list[i])).len() <= concat_texts(
                list,
            ).len(),
    decreases list.len(),
{
    if list.len() > 0 {
        lemma_concat_texts_len(list.drop_last());
        assert forall|i: int| 0 <= i < list.len() implies (#[trigger] text_bytes(list[i])).len()
            <= concat_texts(list).len() by {
            if i < list.len() - 1 {
                assert(list[i] == list.drop_last()[i]);
            }
        }
    }
}

/// Texts that were written one after the other are read back in order.
pub proof fn lemma_parse_n_texts(list: Seq<Seq<char>>, tail: Seq<u8>)
    requires
        concat_texts(list).len() <= u32::MAX,
    ensures
        parse_n_texts(concat_texts(list) + tail, list.len()) == Some((list, tail)),
    decreases list.len(),
{
    if list.len() == 0 {
        assert(concat_texts(list) + tail =~= tail);
        assert(list =~= Seq::<Seq<char>>::empty());
    } else {
        let front = list.drop_last();
        let last = text_bytes(list.last());
        assert(concat_texts(list) + tail =~= concat_texts(front) + (last + tail));
        lemma_parse_n_texts(front, last + tail);
        lemma_parse_text(list.last(), tail);
        assert(front.push(list.last()) =~= list);
    }
}

/// A list of texts that was written is read back, with what follows it.
pub proof fn lemma_parse_texts(list: Seq<Seq<char>>, tail: Seq<u8>)
    requires
        texts_bytes(list).len() <= u32::MAX,
    ensures
        parse_texts(texts_bytes(list) + tail) == Some((list, tail)),
{
    let bytes = texts_bytes(list) + tail;
    lemma_concat_texts_len(list);
    lemma_be32_value_of_be32(list.len());
    lemma_be32_value_prefix(be32(list.len()), concat_texts(list) + tail);
    assert(bytes =~= be32(list.len()) + (concat_texts(list) + tail));
    assert(bytes.skip(LEN_BYTES as int) =~= concat_texts(list) + tail);
    lemma_parse_n_texts(list, tail);
}

/// A list of texts that may be absent is read back as it was written, with
/// what follows it.
pub proof fn lemma_parse_failable_texts(list: Option<Seq<Seq<char>>>, tail: Seq<u8>)
    requires
        failable_texts_bytes(list).len() <= u32::MAX,
    ensures
        parse_failable_texts(failable_texts_bytes(list) + tail) == Some((list, tail)),
{
    let inner = match list {
        Some(texts) => texts_bytes(texts),
        None => Seq::empty(),
    };
    let bytes = failable_texts_bytes(list) + tail;
    lemma_be32_value_of_be32(inner.len());
    lemma_be32_value_prefix(be32(inner.len()), inner + tail);
    assert(failable_texts_bytes(list) =~= be32(inner.len()) + inner);
    assert(bytes =~= be32(inner.len()) + (inner + tail));
    assert(bytes.subrange(LEN_BYTES as int, LEN_BYTES + inner.len()) =~= inner);
    assert(bytes.skip(LEN_BYTES + inner.len()) =~= tail);
    match list {
        Some(texts) => {
            lemma_parse_texts(texts, Seq::empty());
            assert(inner + Seq::<u8>::empty() =~= inner);
        },
        None => {},
    }
}

/// Checks that `bytes` are UTF-8 and borrows them as a string.
///
/// Calls `std::str::from_utf8`. Trusted: the call succeeds exactly on valid
/// UTF-8, and the string then holds the characters that the bytes encode.
#[verifier::external_body]
fn str_from_utf8(bytes: &[u8]) -> (text: Option<&str>)
    ensures
        text is Some <==> valid_utf8(bytes@),
        text matches Some(s) ==> s@ == decode_utf8(bytes@),
{
    std::str::from_utf8(bytes).ok()
}

/// Appends the bytes of `text` to `out`, unless `out` would then hold more
/// than a frame may carry.
pub fn push_text(out: &mut Vec<u8>, text: &str) -> (ok: bool)
    requires
        old(out)@.len() <= MAX_FRAME_LEN,
    ensures
        ok <==> old(out)@.len() + text_bytes(text@).len() <= MAX_FRAME_LEN,
        ok ==> final(out)@ == old(out)@ + text_bytes(text@),
        !ok ==> final(out)@ == old(out)@,
{
    let body = text.as_bytes();
    let room: usize = MAX_FRAME_LEN - out.len();
    if room < LEN_BYTES || room - LEN_BYTES < body.len() {
        return false;
    }
    push_be32(out, body.len() as u32);
    push_all(out, body);
    assert(out@ =~= old(out)@ + text_bytes(text@));
    true
}

/// Reads the text that stands in `buf` at position `at`, and the position
/// after it.
pub fn read_text(buf: &[u8], at: usize) -> (found: Option<(String, usize)>)
    requires
        at <= buf@.len(),
    ensures
        match parse_text(buf@.skip(at as int)) {
            Some((text, rest)) => found matches Some((s, next)) && s@ == text && at <= next
                <= buf@.len() && rest == buf@.skip(next as int),
            None => found is None,
        },
{
    let ghost tail = buf@.skip(at as int);
    let left: usize = buf.len() - at;
    if left < LEN_BYTES {
        return None;
    }
    let len: u32 = read_be32(buf, at);
    if left - LEN_BYTES < len as usize {
        return None;
    }
    let start: usize = at + LEN_BYTES;
    let end: usize = start + len as usize;
    let body = slice_subrange(buf, start, end);
    proof {
        assert(tail.subrange(LEN_BYTES as int, LEN_BYTES + len) =~= body@);
        assert(tail.skip(LEN_BYTES + len) =~= buf@.skip(end as int));
    }
    match str_from_utf8(body) {
        Some(s) => Some((s.to_owned(), end)),
        None => None,
    }
}

/// Appends the bytes of a list of texts to `out`, unless `out` would then
/// hold more than a frame may carry: then `out` is left as it was.
pub fn push_texts(out: &mut Vec<u8>, list: &Vec<String>) -> (ok: bool)
    requires
        old(out)@.len() <= MAX_FRAME_LEN,
    ensures
        ok <==> old(out)@.len() + texts_bytes(texts_of(list@)).len() <= MAX_FRAME_LEN,
        ok ==> final(out)@ == old(out)@ + texts_bytes(texts_of(list@)),
        !ok ==> final(out)@ == old(out)@,
{
    let ghost texts = texts_of(list@);
    proof {
        lemma_concat_texts_len(texts);
    }
    let start: usize = out.len();
    if MAX_FRAME_LEN - start < LEN_BYTES || list.len() > MAX_FRAME_LEN {
        return false;
    }
    push_be32(out, list.len() as u32);
    let mut i: usize = 0;
    while i < list.len()
        invariant
            i <= list@.len(),
            texts == texts_of(list@),
            start == old(out)@.len(),
            out@.len() <= MAX_FRAME_LEN,
            out@ == old(out)@ + be32(texts.len()) + concat_texts(texts.take(i as int)),
        decreases list@.len() - i,
    {
        proof {
            assert(texts.take(i + 1).drop_last() =~= texts.take(i as int));
            assert(texts.take(i + 1).last() == list@[i as int]@);
        }
        if !push_text(out, list[i].as_str()) {
            proof {
                lemma_concat_texts_tail(texts, i + 1);
            }
            out.truncate(start);
            assert(out@ =~= old(out)@);
            return false;
        }
        proof {
            assert(out@ =~= old(out)@ + be32(texts.len()) + concat_texts(texts.take(i + 1)));
        }
        i = i + 1;
    }
    proof {
        assert(texts.take(i as int) =~= texts);
    }
    true
}

/// The first texts of a list take no more bytes than the whole list.
pub proof fn lemma_concat_texts_tail(list: Seq<Seq<char>>, n: int)
    requires
        0 <= n <= list.len(),
    ensures
        concat_texts(list.take(n)).len() <= concat_texts(list).len(),
    decreases list.len() - n,
{
    if n < list.len() {
        lemma_concat_texts_tail(list, n + 1);
        assert(list.take(n + 1).drop_last() =~= list.take(n));
    } else {
        assert(list.take(n) =~= list);
    }
}

/// Reads the list of texts that stands in `buf` at position `at`, and the
/// position after it.
pub fn read_texts(buf: &[u8], at: usize) -> (found: Option<(Vec<String>, usize)>)
    requires
        at <= buf@.len(),
    ensures
        match parse_texts(buf@.skip(at as int)) {
            Some((texts, rest)) => found matches Some((list, next)) && texts_of(list@) == texts
                && at <= next <= buf@.len() && rest == buf@.skip(next as int),
            None => found is None,
        },
{
    let ghost tail = buf@.skip(at as int);
    if buf.len() - at < LEN_BYTES {
        return None;
    }
    let count: u32 = read_be32(buf, at);
    let ghost body = tail.skip(LEN_BYTES as int);
    let mut list: Vec<String> = Vec::new();
    let mut pos: usize = at + LEN_BYTES;
    let mut i: u32 = 0;
    proof {
        assert(body =~= buf@.skip(pos as int));
        assert(texts_of(list@) =~= Seq::<Seq<char>>::empty());
    }
    while i < count
        invariant
            i <= count,
            at <= pos <= buf@.len(),
            buf@.len() - at >= LEN_BYTES,
            count == be32_value(buf@.skip(at as int)),
            body == buf@.skip(at as int).skip(LEN_BYTES as int),
            parse_n_texts(body, i as nat) == Some((texts_of(list@), buf@.skip(pos as int))),
        decreases count - i,
    {
        let ghost texts = texts_of(list@);
        match read_text(buf, pos) {
            Some((text, next)) => {
                list.push(text);
                pos = next;
                proof {
                    assert(texts_of(list@) =~= texts.push(text@));
                }
            },
            None => {
                proof {
                    lemma_parse_n_texts_fails(body, (i + 1) as nat, count as nat);
                }
                return None;
            },
        }
        i = i + 1;
    }
    Some((list, pos))
}

} // verus!
