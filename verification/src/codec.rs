//! The length-prefixed binary format of byte strings and of lists of byte
//! strings, in both directions.
//!
//! A byte string is written as itself where it is one byte below `0x80`,
//! and behind a header otherwise. A list is written as a header and, behind
//! it, its items one after the other. A header is one byte for a payload of
//! at most 55 bytes, and one byte and the minimal big-endian form of the
//! length for a longer one.

use vstd::prelude::*;
use vstd::slice::slice_subrange;
use crate::error::DecoderError;
use crate::uint::{
    be_value, lemma_minimal_len, lemma_minimal_of_value, lemma_pow256_widths,
    lemma_value_of_minimal, minimal_be, minimal_be_u64, u64_from_minimal_be,
};

verus! {

/// The first header byte of the shortest byte string.
pub const STRING_OFFSET: u8 = 0x80;

/// The first header byte of the shortest list.
pub const LIST_OFFSET: u8 = 0xc0;

/// The header of a payload of `len` bytes.
pub open spec fn header(offset: u8, len: nat) -> Seq<u8> {
    if len <= 55 {
        seq![(offset + len) as u8]
    } else {
        seq![(offset + 55 + minimal_be(len).len()) as u8] + minimal_be(len)
    }
}

/// The encoding of a byte string.
pub open spec fn encoded_string(data: Seq<u8>) -> Seq<u8> {
    if data.len() == 1 && data[0] < 0x80 {
        data
    } else {
        header(STRING_OFFSET, data.len()) + data
    }
}

/// The encodings of byte strings, one after the other.
pub open spec fn encoded_strings(items: Seq<Seq<u8>>) -> Seq<u8>
    decreases items.len(),
{
    if items.len() == 0 {
        Seq::empty()
    } else {
        encoded_string(items.first()) + encoded_strings(items.drop_first())
    }
}

/// The encoding of a list of byte strings.
pub open spec fn encoded_list(items: Seq<Seq<u8>>) -> Seq<u8> {
    header(LIST_OFFSET, encoded_strings(items).len()) + encoded_strings(items)
}

/// The byte strings that a sequence of vectors holds.
pub open spec fn views(items: Seq<Vec<u8>>) -> Seq<Seq<u8>> {
    Seq::new(items.len(), |i: int| items[i]@)
}

/// Where the payload behind a header starts and how long it is, for input
/// whose first byte lies in the 64 values from `offset` on.
pub open spec fn span_outcome(bytes: Seq<u8>, offset: u8) -> Result<(nat, nat), DecoderError> {
    let first = bytes[0];
    if first <= offset + 55 {
        let len = (first - offset) as nat;
        if bytes.len() < 1 + len {
            Err(DecoderError::RlpIsTooShort)
        } else {
            Ok((1, len))
        }
    } else {
        let k = (first - offset - 55) as nat;
        if bytes.len() < 1 + k {
            Err(DecoderError::RlpIsTooShort)
        } else {
            let digits = bytes.subrange(1, (1 + k) as int);
            if digits[0] == 0 {
                Err(DecoderError::RlpDataLenWithZeroPrefix)
            } else if be_value(digits) <= 55 {
                Err(DecoderError::RlpInvalidIndirection)
            } else if bytes.len() < 1 + k + be_value(digits) {
                Err(DecoderError::RlpIsTooShort)
            } else {
                Ok((1 + k, be_value(digits)))
            }
        }
    }
}

/// What reading one byte string from the front of the input gives: the
/// string and the number of bytes that its encoding takes.
pub open spec fn string_outcome(bytes: Seq<u8>) -> Result<(Seq<u8>, nat), DecoderError> {
    if bytes.len() == 0 {
        Err(DecoderError::RlpIsTooShort)
    } else if bytes[0] < STRING_OFFSET {
        Ok((seq![bytes[0]], 1))
    } else if bytes[0] >= LIST_OFFSET {
        Err(DecoderError::RlpExpectedToBeData)
    } else {
        match span_outcome(bytes, STRING_OFFSET) {
            Err(e) => Err(e),
            Ok((start, len)) => {
                let data = bytes.subrange(start as int, (start + len) as int);
                if len == 1 && data[0] < 0x80 {
                    Err(DecoderError::RlpInvalidIndirection)
                } else {
                    Ok((data, start + len))
                }
            },
        }
    }
}

/// What reading byte strings from the input, until nothing is left, gives.
pub open spec fn strings_outcome(bytes: Seq<u8>) -> Result<Seq<Seq<u8>>, DecoderError>
    decreases bytes.len(),
{
    if bytes.len() == 0 {
        Ok(Seq::empty())
    } else {
        match string_outcome(bytes) {
            Err(e) => Err(e),
            Ok((data, used)) => {
                if 0 < used <= bytes.len() {
                    match strings_outcome(bytes.skip(used as int)) {
                        Err(e) => Err(e),
                        Ok(rest) => Ok(seq![data] + rest),
                    }
                } else {
                    Err(DecoderError::RlpIsTooShort)
                }
            },
        }
    }
}

/// What reading a list of byte strings from the whole input gives.
pub open spec fn list_outcome(bytes: Seq<u8>) -> Result<Seq<Seq<u8>>, DecoderError> {
    if bytes.len() == 0 {
        Err(DecoderError::RlpIsTooShort)
    } else if bytes[0] < LIST_OFFSET {
        Err(DecoderError::RlpExpectedToBeList)
    } else {
        match span_outcome(bytes, LIST_OFFSET) {
            Err(e) => Err(e),
            Ok((start, len)) => {
                if bytes.len() > start + len {
                    Err(DecoderError::RlpInconsistentLengthAndData)
                } else {
                    strings_outcome(bytes.subrange(start as int, (start + len) as int))
                }
            },
        }
    }
}

/// A header is at most nine bytes long, and its first byte tells its form.
pub proof fn lemma_header_shape(offset: u8, len: nat)
    requires
        offset == STRING_OFFSET || offset == LIST_OFFSET,
        len <= u64::MAX,
    ensures
        1 <= header(offset, len).len() <= 9,
        offset <= header(offset, len)[0] <= offset + 63,
        len <= 55 ==> header(offset, len) == seq![(offset + len) as u8],
        len > 55 ==> header(offset, len).len() == 1 + minimal_be(len).len(),
{
    if len > 55 {
        lemma_pow256_widths();
        lemma_minimal_len(len, 8);
        lemma_value_of_minimal(len);
    }
}

/// Reading a header that was written gives the place and the length of the
/// payload behind it.
pub proof fn lemma_span_of_header(offset: u8, len: nat, rest: Seq<u8>)
    requires
        offset == STRING_OFFSET || offset == LIST_OFFSET,
        len <= u64::MAX,
        rest.len() >= len,
    ensures
        span_outcome(header(offset, len) + rest, offset) == Ok::<(nat, nat), DecoderError>(
            (header(offset, len).len(), len),
        ),
{
    let bytes = header(offset, len) + rest;
    lemma_header_shape(offset, len);
    if len > 55 {
        let digits = minimal_be(len);
        lemma_value_of_minimal(len);
        let k = digits.len();
        assert(bytes[0] == (offset + 55 + k) as u8);
        assert(bytes.subrange(1, (1 + k) as int) =~= digits);
    } else {
        assert(bytes[0] == (offset + len) as u8);
    }
}

/// A header that was read is the header that is written for the length it
/// announces.
pub proof fn lemma_header_of_span(bytes: Seq<u8>, offset: u8)
    requires
        offset == STRING_OFFSET || offset == LIST_OFFSET,
        bytes.len() > 0,
        offset <= bytes[0] <= offset + 63,
        span_outcome(bytes, offset) is Ok,
    ensures
        ({
            let (start, len) = span_outcome(bytes, offset)->Ok_0;
            &&& start + len <= bytes.len()
            &&& 1 <= start <= 9
            &&& bytes.subrange(0, start as int) == header(offset, len)
        }),
{
    let (start, len) = span_outcome(bytes, offset)->Ok_0;
    let first = bytes[0];
    if first <= offset + 55 {
        assert(bytes.subrange(0, 1) =~= seq![first]);
    } else {
        let k = (first - offset - 55) as nat;
        let digits = bytes.subrange(1, (1 + k) as int);
        lemma_minimal_of_value(digits);
        assert(bytes.subrange(0, (1 + k) as int) =~= seq![first] + digits);
    }
}

/// Reading a byte string that was written gives the string back, whatever
/// follows it.
pub proof fn lemma_string_round_trip(data: Seq<u8>, rest: Seq<u8>)
    requires
        data.len() <= u64::MAX,
    ensures
        string_outcome(encoded_string(data) + rest) == Ok::<(Seq<u8>, nat), DecoderError>(
            (data, encoded_string(data).len()),
        ),
        encoded_string(data).len() > 0,
{
    let bytes = encoded_string(data) + rest;
    if data.len() == 1 && data[0] < 0x80 {
        assert(seq![bytes[0]] =~= data);
    } else {
        let head = header(STRING_OFFSET, data.len());
        lemma_header_shape(STRING_OFFSET, data.len());
        assert(bytes =~= head + (data + rest));
        lemma_span_of_header(STRING_OFFSET, data.len(), data + rest);
        assert(bytes[0] == head[0]);
        assert(bytes.subrange(head.len() as int, (head.len() + data.len()) as int) =~= data);
    }
}

/// What was read as a byte string is the canonical encoding of that
/// string.
pub proof fn lemma_string_canonical(bytes: Seq<u8>)
    requires
        string_outcome(bytes) is Ok,
    ensures
        ({
            let (data, used) = string_outcome(bytes)->Ok_0;
            &&& 0 < used <= bytes.len()
            &&& bytes.subrange(0, used as int) == encoded_string(data)
        }),
{
    let (data, used) = string_outcome(bytes)->Ok_0;
    if bytes[0] < STRING_OFFSET {
        assert(bytes.subrange(0, 1) =~= seq![bytes[0]]);
    } else {
        lemma_header_of_span(bytes, STRING_OFFSET);
        let (start, len) = span_outcome(bytes, STRING_OFFSET)->Ok_0;
        assert(bytes.subrange(0, used as int) =~= bytes.subrange(0, start as int) + data);
    }
}

/// The encodings of two sequences of byte strings, one after the other,
/// are the encodings of the joined sequence.
pub proof fn lemma_encoded_strings_push(items: Seq<Seq<u8>>, last: Seq<u8>)
    ensures
        encoded_strings(items.push(last)) == encoded_strings(items) + encoded_string(last),
    decreases items.len(),
{
    if items.len() == 0 {
        let one = items.push(last);
        assert(one.first() == last);
        assert(one.drop_first() =~= Seq::<Seq<u8>>::empty());
        assert(encoded_strings(one.drop_first()) =~= Seq::<u8>::empty());
        assert(encoded_strings(items) =~= Seq::<u8>::empty());
        assert(encoded_strings(one) =~= encoded_string(last));
        assert(encoded_strings(items) + encoded_string(last) =~= encoded_string(last));
    } else {
        lemma_encoded_strings_push(items.drop_first(), last);
        assert(items.push(last).drop_first() =~= items.drop_first().push(last));
        assert(items.push(last).first() == items.first());
        assert(encoded_strings(items.push(last)) =~= encoded_strings(items) + encoded_string(
            last,
        ));
    }
}

/// The encodings of byte strings, one after the other, are at least as
/// long as each of the strings.
pub proof fn lemma_encoded_strings_cover(items: Seq<Seq<u8>>, i: int)
    requires
        0 <= i < items.len(),
    ensures
        items[i].len() <= encoded_strings(items).len(),
    decreases items.len(),
{
    if i > 0 {
        lemma_encoded_strings_cover(items.drop_first(), i - 1);
    }
}

/// Reading the byte strings that were written gives them back.
pub proof fn lemma_strings_round_trip(items: Seq<Seq<u8>>)
    requires
        forall|i: int| 0 <= i < items.len() ==> (#[trigger] items[i]).len() <= u64::MAX,
    ensures
        strings_outcome(encoded_strings(items)) == Ok::<Seq<Seq<u8>>, DecoderError>(items),
    decreases items.len(),
{
    if items.len() > 0 {
        let first = items.first();
        let tail = items.drop_first();
        let bytes = encoded_strings(items);
        assert(forall|i: int| 0 <= i < tail.len() ==> #[trigger] tail[i] == items[i + 1]);
        lemma_string_round_trip(first, encoded_strings(tail));
        lemma_strings_round_trip(tail);
        let used = encoded_string(first).len();
        assert(bytes == encoded_string(first) + encoded_strings(tail));
        assert(bytes.skip(used as int) =~= encoded_strings(tail));
        assert(seq![first] + tail =~= items);
        assert(string_outcome(bytes) == Ok::<(Seq<u8>, nat), DecoderError>((first, used)));
        assert(strings_outcome(bytes.skip(used as int)) == Ok::<Seq<Seq<u8>>, DecoderError>(
            tail,
        ));
    } else {
        assert(items =~= Seq::<Seq<u8>>::empty());
        assert(encoded_strings(items) =~= Seq::<u8>::empty());
    }
}

/// What was read as byte strings is the canonical encoding of those
/// strings.
pub proof fn lemma_strings_canonical(bytes: Seq<u8>)
    requires
        strings_outcome(bytes) is Ok,
    ensures
        encoded_strings(strings_outcome(bytes)->Ok_0) == bytes,
    decreases bytes.len(),
{
    if bytes.len() > 0 {
        let (data, used) = string_outcome(bytes)->Ok_0;
        lemma_string_canonical(bytes);
        let tail = bytes.skip(used as int);
        lemma_strings_canonical(tail);
        let rest = strings_outcome(tail)->Ok_0;
        let items = seq![data] + rest;
        assert(items.first() == data);
        assert(items.drop_first() =~= rest);
        assert(bytes =~= bytes.subrange(0, used as int) + tail);
    } else {
        assert(bytes =~= Seq::<u8>::empty());
    }
}

/// Reading a list that was written gives its items back.
pub proof fn lemma_list_round_trip(items: Seq<Seq<u8>>)
    requires
        forall|i: int| 0 <= i < items.len() ==> (#[trigger] items[i]).len() <= u64::MAX,
        encoded_strings(items).len() <= u64::MAX,
    ensures
        list_outcome(encoded_list(items)) == Ok::<Seq<Seq<u8>>, DecoderError>(items),
{
    let payload = encoded_strings(items);
    let head = header(LIST_OFFSET, payload.len());
    let bytes = encoded_list(items);
    lemma_header_shape(LIST_OFFSET, payload.len());
    lemma_span_of_header(LIST_OFFSET, payload.len(), payload);
    lemma_strings_round_trip(items);
    assert(bytes[0] == head[0]);
    assert(bytes.subrange(head.len() as int, (head.len() + payload.len()) as int) =~= payload);
}

/// What was read as a list is the canonical encoding of its items.
pub proof fn lemma_list_canonical(bytes: Seq<u8>)
    requires
        list_outcome(bytes) is Ok,
    ensures
        encoded_list(list_outcome(bytes)->Ok_0) == bytes,
{
    lemma_header_of_span(bytes, LIST_OFFSET);
    let (start, len) = span_outcome(bytes, LIST_OFFSET)->Ok_0;
    let payload = bytes.subrange(start as int, (start + len) as int);
    lemma_strings_canonical(payload);
    assert(bytes =~= bytes.subrange(0, start as int) + payload);
}

/// Appends bytes to a buffer.
pub fn append_bytes(out: &mut Vec<u8>, data: &[u8])
    ensures
        final(out)@ == old(out)@ + data@,
{
    let mut i: usize = 0;
    while i < data.len()
        invariant
            i <= data.len(),
            out@ == old(out)@ + data@.take(i as int),
        decreases data.len() - i,
    {
        out.push(data[i]);
        proof {
            assert(data@.take(i + 1) =~= data@.take(i as int).push(data@[i as int]));
        }
        i = i + 1;
    }
    proof {
        assert(data@.take(data.len() as int) =~= data@);
    }
}

/// Appends the header of a payload of `len` bytes.
pub(crate) fn write_header(out: &mut Vec<u8>, offset: u8, len: usize)
    requires
        offset == STRING_OFFSET || offset == LIST_OFFSET,
    ensures
        final(out)@ == old(out)@ + header(offset, len as nat),
{
    if len <= 55 {
        out.push(offset + len as u8);
        proof {
            assert(out@ =~= old(out)@ + header(offset, len as nat));
        }
    } else {
        let digits = minimal_be_u64(len as u64);
        out.push(offset + 55 + digits.len() as u8);
        append_bytes(out, digits.as_slice());
        proof {
            assert(out@ =~= old(out)@ + header(offset, len as nat));
        }
    }
}

/// Appends the encoding of a byte string.
pub fn write_string(out: &mut Vec<u8>, data: &[u8])
    ensures
        final(out)@ == old(out)@ + encoded_string(data@),
{
    if data.len() == 1 && data[0] < 0x80 {
        out.push(data[0]);
        proof {
            assert(out@ =~= old(out)@ + encoded_string(data@));
        }
    } else {
        write_header(out, STRING_OFFSET, data.len());
        append_bytes(out, data);
        proof {
            assert(out@ =~= old(out)@ + encoded_string(data@));
        }
    }
}

/// Encodes a list of byte strings.
pub fn encode_list(items: &Vec<Vec<u8>>) -> (out: Vec<u8>)
    ensures
        out@ == encoded_list(views(items@)),
{
    let mut payload: Vec<u8> = Vec::new();
    let mut i: usize = 0;
    proof {
        assert(views(items@).take(0) =~= Seq::<Seq<u8>>::empty());
    }
    while i < items.len()
        invariant
            i <= items.len(),
            payload@ == encoded_strings(views(items@).take(i as int)),
        decreases items.len() - i,
    {
        write_string(&mut payload, items[i].as_slice());
        proof {
            let all = views(items@);
            lemma_encoded_strings_push(all.take(i as int), all[i as int]);
            assert(all.take(i + 1) =~= all.take(i as int).push(all[i as int]));
        }
        i = i + 1;
    }
    proof {
        assert(views(items@).take(items.len() as int) =~= views(items@));
    }
    let mut out: Vec<u8> = Vec::new();
    write_header(&mut out, LIST_OFFSET, payload.len());
    append_bytes(&mut out, payload.as_slice());
    out
}

/// Reads the header at the front of the input: where the payload starts
/// and how long it is.
pub(crate) fn read_span(bytes: &[u8], offset: u8) -> (r: Result<(usize, usize), DecoderError>)
    requires
        offset == STRING_OFFSET || offset == LIST_OFFSET,
        bytes@.len() > 0,
        offset <= bytes@[0] <= offset + 63,
    ensures
        match r {
            Ok((start, len)) => span_outcome(bytes@, offset) == Ok::<(nat, nat), DecoderError>(
                (start as nat, len as nat),
            ),
            Err(e) => span_outcome(bytes@, offset) == Err::<(nat, nat), DecoderError>(e),
        },
{
    let first = bytes[0];
    if first <= offset + 55 {
        let len: usize = (first - offset) as usize;
        if bytes.len() - 1 < len {
            Err(DecoderError::RlpIsTooShort)
        } else {
            Ok((1, len))
        }
    } else {
        let k: usize = (first - offset - 55) as usize;
        if bytes.len() - 1 < k {
            return Err(DecoderError::RlpIsTooShort);
        }
        let digits = slice_subrange(bytes, 1, 1 + k);
        if digits[0] == 0 {
            return Err(DecoderError::RlpDataLenWithZeroPrefix);
        }
        let len = match u64_from_minimal_be(digits) {
            Ok(len) => len,
            Err(e) => {
                return Err(e);
            },
        };
        if len <= 55 {
            return Err(DecoderError::RlpInvalidIndirection);
        }
        let room: usize = bytes.len() - 1 - k;
        if (room as u64) < len {
            return Err(DecoderError::RlpIsTooShort);
        }
        Ok((1 + k, len as usize))
    }
}

/// Reads one byte string from the front of the input. Gives the string and
/// the number of bytes that its encoding takes.
pub fn decode_string(bytes: &[u8]) -> (r: Result<(Vec<u8>, usize), DecoderError>)
    ensures
        match r {
            Ok((data, used)) => string_outcome(bytes@) == Ok::<(Seq<u8>, nat), DecoderError>(
                (data@, used as nat),
            ),
            Err(e) => string_outcome(bytes@) == Err::<(Seq<u8>, nat), DecoderError>(e),
        },
{
    if bytes.len() == 0 {
        return Err(DecoderError::RlpIsTooShort);
    }
    let first = bytes[0];
    if first < STRING_OFFSET {
        let mut data: Vec<u8> = Vec::new();
        data.push(first);
        proof {
            assert(data@ =~= seq![bytes@[0]]);
        }
        return Ok((data, 1));
    }
    if first >= LIST_OFFSET {
        return Err(DecoderError::RlpExpectedToBeData);
    }
    match read_span(bytes, STRING_OFFSET) {
        Err(e) => Err(e),
        Ok((start, len)) => {
            proof {
                lemma_header_of_span(bytes@, STRING_OFFSET);
            }
            let payload = slice_subrange(bytes, start, start + len);
            if len == 1 && payload[0] < 0x80 {
                Err(DecoderError::RlpInvalidIndirection)
            } else {
                let mut data: Vec<u8> = Vec::new();
                append_bytes(&mut data, payload);
                proof {
                    assert(data@ =~= payload@);
                }
                Ok((data, start + len))
            }
        },
    }
}

/// Reads a list of byte strings from the whole input.
pub fn decode_list(bytes: &[u8]) -> (r: Result<Vec<Vec<u8>>, DecoderError>)
    ensures
        match r {
            Ok(items) => list_outcome(bytes@) == Ok::<Seq<Seq<u8>>, DecoderError>(views(items@)),
            Err(e) => list_outcome(bytes@) == Err::<Seq<Seq<u8>>, DecoderError>(e),
        },
{
    if bytes.len() == 0 {
        return Err(DecoderError::RlpIsTooShort);
    }
    if bytes[0] < LIST_OFFSET {
        return Err(DecoderError::RlpExpectedToBeList);
    }
    let (start, len) = match read_span(bytes, LIST_OFFSET) {
        Ok(span) => span,
        Err(e) => {
            return Err(e);
        },
    };
    proof {
        lemma_header_of_span(bytes@, LIST_OFFSET);
    }
    if bytes.len() - start > len {
        return Err(DecoderError::RlpInconsistentLengthAndData);
    }
    let payload = slice_subrange(bytes, start, start + len);
    let mut items: Vec<Vec<u8>> = Vec::new();
    let mut at: usize = 0;
    proof {
        assert(payload@.skip(0) =~= payload@);
        assert(views(items@) =~= Seq::<Seq<u8>>::empty());
        assert(Seq::<Seq<u8>>::empty() + strings_outcome(payload@)->Ok_0 =~= strings_outcome(
            payload@,
        )->Ok_0);
    }
    while at < payload.len()
        invariant
            at <= payload.len(),
            list_outcome(bytes@) == strings_outcome(payload@),
            strings_outcome(payload@) == match strings_outcome(payload@.skip(at as int)) {
                Ok(rest) => Ok::<Seq<Seq<u8>>, DecoderError>(views(items@) + rest),
                Err(e) => Err::<Seq<Seq<u8>>, DecoderError>(e),
            },
        decreases payload.len() - at,
    {
        let tail = slice_subrange(payload, at, payload.len());
        proof {
            assert(tail@ =~= payload@.skip(at as int));
        }
        match decode_string(tail) {
            Err(e) => {
                return Err(e);
            },
            Ok((data, used)) => {
                proof {
                    lemma_string_canonical(tail@);
                    let done = views(items@);
                    let next = views(items@.push(data));
                    assert(next =~= done.push(data@));
                    assert(tail@.skip(used as int) =~= payload@.skip(at + used));
                    match strings_outcome(payload@.skip(at + used)) {
                        Ok(rest) => {
                            assert(done + (seq![data@] + rest) =~= next + rest);
                        },
                        Err(e) => {},
                    }
                }
                items.push(data);
                at = at + used;
            },
        }
    }
    proof {
        assert(payload@.skip(at as int) =~= Seq::<u8>::empty());
        assert(views(items@) + Seq::<Seq<u8>>::empty() =~= views(items@));
    }
    Ok(items)
}

/// A copy of a byte string.
pub fn copy_bytes(data: &[u8]) -> (out: Vec<u8>)
    ensures
        out@ == data@,
{
    let mut out: Vec<u8> = Vec::new();
    append_bytes(&mut out, data);
    proof {
        assert(out@ =~= data@);
    }
    out
}

} // verus!
