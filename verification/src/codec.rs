//! The wire format: what the `rlp` crate writes and reads.
//!
//! Everything that goes over the network or into a block's seal is RLP. The spec functions here
//! say which bytes the crate writes, and what it reads as a byte string or a number. What it finds
//! in a list, and behind the prefix of an item of any kind, goes by a name, and the writers say of
//! those names that what was written is read back. Which error a reader gives can depend on the
//! number of bits of a `usize`, in which it keeps lengths.

use crate::error::{DecodeError, RlpError};
use crate::primitives::{copy_bytes, h256_of, h520_of, strings_of, H256, H520};
use rlp::{DecoderError, RlpStream, UntrustedRlp};
use vstd::prelude::*;

verus! {

/// The largest length that the length prefix of an item can hold.
pub const MAX_LENGTH: usize = 0xffff_ffff;

/// The big-endian bytes of `n`, without leading zero bytes.
pub open spec fn be_bytes(n: nat) -> Seq<u8>
    decreases n,
{
    if n == 0 {
        seq![]
    } else {
        be_bytes(n / 256).push((n % 256) as u8)
    }
}

/// The bytes that announce `len` bytes of content: a short form up to 55, and beyond it the
/// number of length bytes and then the length, of which four bytes are kept.
pub open spec fn length_prefix(short_form: nat, len: nat) -> Seq<u8> {
    if len <= 55 {
        seq![(short_form + len) as u8]
    } else {
        let size = be_bytes(len % 0x1_0000_0000);
        seq![(short_form + 55 + size.len()) as u8] + size
    }
}

/// The encoding of a byte string.
pub open spec fn rlp_data(bytes: Seq<u8>) -> Seq<u8> {
    if bytes.len() == 1 && bytes[0] < 0x80 {
        bytes
    } else {
        length_prefix(0x80, bytes.len()) + bytes
    }
}

/// The encodings of byte strings.
pub open spec fn rlp_datas(strings: Seq<Seq<u8>>) -> Seq<Seq<u8>> {
    strings.map_values(|bytes: Seq<u8>| rlp_data(bytes))
}

/// The encoding of a number: its big-endian bytes as a byte string.
pub open spec fn rlp_uint(n: nat) -> Seq<u8> {
    rlp_data(be_bytes(n))
}

/// The encoding of a list whose items are already encoded.
pub open spec fn rlp_list(items: Seq<Seq<u8>>) -> Seq<u8> {
    length_prefix(0xc0, items.flatten().len()) + items.flatten()
}

/// `item` is the encoding of one byte string or of one list, of a length that its prefix can
/// hold.
pub open spec fn is_item(item: Seq<u8>) -> bool {
    ||| exists|bytes: Seq<u8>| item == #[trigger] rlp_data(bytes) && bytes.len() <= MAX_LENGTH
    ||| exists|items: Seq<Seq<u8>>| item == #[trigger] rlp_list(items) && items.flatten().len() <= MAX_LENGTH
}

/// A list of these items can be taken apart again.
pub open spec fn is_readable_list(items: Seq<Seq<u8>>) -> bool {
    &&& forall|i: int| 0 <= i < items.len() ==> is_item(#[trigger] items[i])
    &&& items.flatten().len() <= MAX_LENGTH
}

/// Taking `list` apart gives exactly `items`.
pub open spec fn list_reads(list: Seq<u8>, items: Seq<Seq<u8>>) -> bool {
    &&& forall|i: int| 0 <= i < items.len() ==> #[trigger] read_item(list, i) == Ok::<_, RlpError>(items[i])
    &&& read_item(list, items.len() as int) is Err
}

/// The number with the given big-endian bytes.
pub open spec fn be_value(bytes: Seq<u8>) -> nat
    decreases bytes.len(),
{
    if bytes.len() == 0 {
        0
    } else {
        be_value(bytes.drop_last()) * 256 + bytes.last() as nat
    }
}

/// The byte string that `rlp` begins with, as `UntrustedRlp::as_val` finds it: a byte of its own,
/// a string with a short prefix, or one whose prefix holds the length of its length. Bytes behind
/// it are not looked at.
pub open spec fn read_bytes(rlp: Seq<u8>) -> Result<Seq<u8>, RlpError> {
    if rlp.len() == 0 {
        Err(RlpError::IsTooShort)
    } else if rlp[0] < 0x80 {
        Ok(seq![rlp[0]])
    } else if rlp[0] <= 0xb7 {
        let end = 1 + rlp[0] - 0x80;
        if rlp.len() < end {
            Err(RlpError::InconsistentLengthAndData)
        } else if rlp[0] == 0x81 && rlp[1] < 0x80 {
            Err(RlpError::InvalidIndirection)
        } else {
            Ok(rlp.subrange(1, end))
        }
    } else if rlp[0] <= 0xbf {
        let start = 1 + rlp[0] - 0xb7;
        let end = start + be_value(rlp.subrange(1, start));
        if rlp.len() < start {
            Err(RlpError::InconsistentLengthAndData)
        } else if (start - 1) * 8 > usize::BITS {
            Err(RlpError::IsTooBig)
        } else if rlp[1] == 0 {
            Err(RlpError::InvalidIndirection)
        } else if end > usize::MAX {
            Err(RlpError::InvalidLength)
        } else if rlp.len() < end {
            Err(RlpError::InconsistentLengthAndData)
        } else {
            Ok(rlp.subrange(start, end))
        }
    } else {
        Err(RlpError::ExpectedToBeData)
    }
}

/// The number that `rlp` begins with, where it takes up to `size` bytes. Zero has no bytes, and no
/// number begins with a zero byte.
pub open spec fn read_number(rlp: Seq<u8>, size: nat) -> Result<nat, RlpError> {
    match read_bytes(rlp) {
        Ok(bytes) => if bytes.len() > size {
            Err(RlpError::IsTooBig)
        } else if bytes.len() > 0 && bytes[0] == 0 {
            Err(RlpError::InvalidIndirection)
        } else {
            Ok(be_value(bytes))
        },
        Err(e) => Err(e),
    }
}

/// What `UntrustedRlp::as_val` reads as a `u8`.
pub open spec fn read_u8(rlp: Seq<u8>) -> Result<u8, RlpError> {
    match read_number(rlp, 1) {
        Ok(n) => Ok(n as u8),
        Err(e) => Err(e),
    }
}

/// What `UntrustedRlp::as_val` reads as a `u64`.
pub open spec fn read_u64(rlp: Seq<u8>) -> Result<u64, RlpError> {
    match read_number(rlp, 8) {
        Ok(n) => Ok(n as u64),
        Err(e) => Err(e),
    }
}

/// What `UntrustedRlp::data` reads, where a `usize` has so many bits: the content behind the
/// prefix of the first item.
pub uninterp spec fn data_result(rlp: Seq<u8>, usize_bits: u32) -> Result<Seq<u8>, RlpError>;

/// What `UntrustedRlp::at` finds, where a `usize` has so many bits: the encoding of the item at an
/// index of a list.
pub uninterp spec fn item_result(rlp: Seq<u8>, index: int, usize_bits: u32) -> Result<Seq<u8>, RlpError>;

/// The content behind the prefix of the first item.
pub open spec fn read_data(rlp: Seq<u8>) -> Result<Seq<u8>, RlpError> {
    data_result(rlp, usize::BITS)
}

/// The encoding of the item at an index of a list.
pub open spec fn read_item(rlp: Seq<u8>, index: int) -> Result<Seq<u8>, RlpError> {
    item_result(rlp, index, usize::BITS)
}

/// The bytes that an `RlpStream` holds. Each open list has one byte before its content, which is
/// replaced when it is closed.
pub uninterp spec fn stream_buffer(stream: RlpStream) -> Seq<u8>;

/// The open lists of an `RlpStream`, the outermost first: where in the buffer the content begins,
/// how many items have been counted, and for how many the list was opened, if that is known.
pub uninterp spec fn stream_lists(stream: RlpStream) -> Seq<(nat, nat, Option<nat>)>;

/// `buffer` after the list whose content begins at `position` has been closed: its length is put
/// in place of the byte before it.
pub open spec fn closed_list(buffer: Seq<u8>, position: nat) -> Seq<u8> {
    buffer.take(position - 1) + length_prefix(0xc0, (buffer.len() - position) as nat) + buffer.skip(position as int)
}

/// The stream is in one list, which lacks items.
pub open spec fn lacks_items(stream: RlpStream) -> bool {
    &&& stream_lists(stream).len() == 1
    &&& stream_lists(stream)[0].2 matches Some(size)
    &&& stream_lists(stream)[0].1 < size
}

/// The stream is in one list, which lacks one item.
pub open spec fn lacks_one_item(stream: RlpStream) -> bool {
    lacks_items(stream) && stream_lists(stream)[0].2 == Some((stream_lists(stream)[0].1 + 1) as nat)
}

/// The writer of the `rlp` crate.
#[verifier::external_type_specification]
#[verifier::external_body]
pub struct ExRlpStream(rlp::RlpStream);

/// The bytes behind the success value of a result.
pub open spec fn bytes_of<E>(r: Result<&[u8], E>) -> Result<Seq<u8>, E> {
    match r {
        Ok(v) => Ok(v@),
        Err(e) => Err(e),
    }
}

/// Bytes were read.
pub open spec fn found(bytes: Seq<u8>) -> Result<Seq<u8>, RlpError> {
    Ok(bytes)
}

/// No bytes were read.
pub open spec fn failed_with(e: RlpError) -> Result<Seq<u8>, RlpError> {
    Err(e)
}

/// The bytes behind the success value of a result.
pub open spec fn vec_of<E>(r: Result<Vec<u8>, E>) -> Result<Seq<u8>, E> {
    match r {
        Ok(v) => Ok(v@),
        Err(e) => Err(e),
    }
}

/// `UntrustedRlp::as_val` for `u8`: the number that the bytes begin with, and each error as it comes.
#[verifier::external_body]
fn as_u8(rlp: &[u8]) -> (r: Result<u8, RlpError>)
    ensures
        r == read_u8(rlp@),
{
    UntrustedRlp::new(rlp).as_val().map_err(|e| match e {
        DecoderError::RlpIsTooBig => RlpError::IsTooBig,
        DecoderError::RlpIsTooShort => RlpError::IsTooShort,
        DecoderError::RlpExpectedToBeList => RlpError::ExpectedToBeList,
        DecoderError::RlpExpectedToBeData => RlpError::ExpectedToBeData,
        DecoderError::RlpIncorrectListLen => RlpError::IncorrectListLen,
        DecoderError::RlpDataLenWithZeroPrefix => RlpError::DataLenWithZeroPrefix,
        DecoderError::RlpListLenWithZeroPrefix => RlpError::ListLenWithZeroPrefix,
        DecoderError::RlpInvalidIndirection => RlpError::InvalidIndirection,
        DecoderError::RlpInconsistentLengthAndData => RlpError::InconsistentLengthAndData,
        DecoderError::RlpInvalidLength => RlpError::InvalidLength,
        DecoderError::Custom(reason) => RlpError::Custom(reason),
    })
}

/// `UntrustedRlp::as_val` for `u64`: the number that the bytes begin with, and each error as it
/// comes.
#[verifier::external_body]
fn as_u64(rlp: &[u8]) -> (r: Result<u64, RlpError>)
    ensures
        r == read_u64(rlp@),
{
    UntrustedRlp::new(rlp).as_val().map_err(|e| match e {
        DecoderError::RlpIsTooBig => RlpError::IsTooBig,
        DecoderError::RlpIsTooShort => RlpError::IsTooShort,
        DecoderError::RlpExpectedToBeList => RlpError::ExpectedToBeList,
        DecoderError::RlpExpectedToBeData => RlpError::ExpectedToBeData,
        DecoderError::RlpIncorrectListLen => RlpError::IncorrectListLen,
        DecoderError::RlpDataLenWithZeroPrefix => RlpError::DataLenWithZeroPrefix,
        DecoderError::RlpListLenWithZeroPrefix => RlpError::ListLenWithZeroPrefix,
        DecoderError::RlpInvalidIndirection => RlpError::InvalidIndirection,
        DecoderError::RlpInconsistentLengthAndData => RlpError::InconsistentLengthAndData,
        DecoderError::RlpInvalidLength => RlpError::InvalidLength,
        DecoderError::Custom(reason) => RlpError::Custom(reason),
    })
}

/// `UntrustedRlp::as_val` for `Vec<u8>`: the byte string that the bytes begin with, and each error
/// as it comes.
#[verifier::external_body]
fn as_vec(rlp: &[u8]) -> (r: Result<Vec<u8>, RlpError>)
    ensures
        vec_of(r) == read_bytes(rlp@),
{
    UntrustedRlp::new(rlp).as_val().map_err(|e| match e {
        DecoderError::RlpIsTooBig => RlpError::IsTooBig,
        DecoderError::RlpIsTooShort => RlpError::IsTooShort,
        DecoderError::RlpExpectedToBeList => RlpError::ExpectedToBeList,
        DecoderError::RlpExpectedToBeData => RlpError::ExpectedToBeData,
        DecoderError::RlpIncorrectListLen => RlpError::IncorrectListLen,
        DecoderError::RlpDataLenWithZeroPrefix => RlpError::DataLenWithZeroPrefix,
        DecoderError::RlpListLenWithZeroPrefix => RlpError::ListLenWithZeroPrefix,
        DecoderError::RlpInvalidIndirection => RlpError::InvalidIndirection,
        DecoderError::RlpInconsistentLengthAndData => RlpError::InconsistentLengthAndData,
        DecoderError::RlpInvalidLength => RlpError::InvalidLength,
        DecoderError::Custom(reason) => RlpError::Custom(reason),
    })
}

/// `UntrustedRlp::data`. Its result is a function of the bytes and the number of bits of a `usize`;
/// of no bytes it reads nothing.
#[verifier::external_body]
fn as_data(rlp: &[u8]) -> (r: Result<&[u8], RlpError>)
    ensures
        bytes_of(r) == data_result(rlp@, usize::BITS),
        rlp@.len() == 0 ==> bytes_of(r) == failed_with(RlpError::IsTooShort),
{
    UntrustedRlp::new(rlp).data().map_err(|e| match e {
        DecoderError::RlpIsTooBig => RlpError::IsTooBig,
        DecoderError::RlpIsTooShort => RlpError::IsTooShort,
        DecoderError::RlpExpectedToBeList => RlpError::ExpectedToBeList,
        DecoderError::RlpExpectedToBeData => RlpError::ExpectedToBeData,
        DecoderError::RlpIncorrectListLen => RlpError::IncorrectListLen,
        DecoderError::RlpDataLenWithZeroPrefix => RlpError::DataLenWithZeroPrefix,
        DecoderError::RlpListLenWithZeroPrefix => RlpError::ListLenWithZeroPrefix,
        DecoderError::RlpInvalidIndirection => RlpError::InvalidIndirection,
        DecoderError::RlpInconsistentLengthAndData => RlpError::InconsistentLengthAndData,
        DecoderError::RlpInvalidLength => RlpError::InvalidLength,
        DecoderError::Custom(reason) => RlpError::Custom(reason),
    })
}

/// `UntrustedRlp::at` on a fresh reader, and `as_raw` of what it finds. Its result is a function
/// of the bytes, the index and the number of bits of a `usize`; what does not begin as a list is
/// none. The largest index is the reader's own mark for "none yet".
#[verifier::external_body]
fn item_at(rlp: &[u8], index: usize) -> (r: Result<&[u8], RlpError>)
    requires
        index < usize::MAX,
    ensures
        bytes_of(r) == item_result(rlp@, index as int, usize::BITS),
        rlp@.len() == 0 || rlp@[0] < 0xc0 ==> bytes_of(r) == failed_with(RlpError::ExpectedToBeList),
{
    UntrustedRlp::new(rlp).at(index).map(|item| item.as_raw()).map_err(|e| match e {
        DecoderError::RlpIsTooBig => RlpError::IsTooBig,
        DecoderError::RlpIsTooShort => RlpError::IsTooShort,
        DecoderError::RlpExpectedToBeList => RlpError::ExpectedToBeList,
        DecoderError::RlpExpectedToBeData => RlpError::ExpectedToBeData,
        DecoderError::RlpIncorrectListLen => RlpError::IncorrectListLen,
        DecoderError::RlpDataLenWithZeroPrefix => RlpError::DataLenWithZeroPrefix,
        DecoderError::RlpListLenWithZeroPrefix => RlpError::ListLenWithZeroPrefix,
        DecoderError::RlpInvalidIndirection => RlpError::InvalidIndirection,
        DecoderError::RlpInconsistentLengthAndData => RlpError::InconsistentLengthAndData,
        DecoderError::RlpInvalidLength => RlpError::InvalidLength,
        DecoderError::Custom(reason) => RlpError::Custom(reason),
    })
}

/// `rlp::encode` of a `u64`: the encoding of the number.
#[verifier::external_body]
pub(crate) fn encode_u64(n: u64) -> (r: Vec<u8>)
    ensures
        r@ == rlp_uint(n as nat),
{
    rlp::encode(&n).into_vec()
}

/// `rlp::encode` of a `u8`: the encoding of the number.
#[verifier::external_body]
pub(crate) fn encode_u8(n: u8) -> (r: Vec<u8>)
    ensures
        r@ == rlp_uint(n as nat),
{
    rlp::encode(&n).into_vec()
}

/// `rlp::encode` of a byte string: its encoding. Where the prefix can hold the length, the string
/// is the content behind it.
#[verifier::external_body]
pub(crate) fn encode_bytes(bytes: &[u8]) -> (r: Vec<u8>)
    ensures
        r@ == rlp_data(bytes@),
        bytes@.len() <= MAX_LENGTH ==> read_data(r@) == found(bytes@),
{
    rlp::encode(&bytes).into_vec()
}

/// `rlp::encode_list` of byte strings: the list of their encodings. Where the prefixes can hold
/// the lengths, the list can be taken apart again.
#[verifier::external_body]
pub(crate) fn encode_byte_strings(strings: &Vec<Vec<u8>>) -> (r: Vec<u8>)
    ensures
        r@ == rlp_list(rlp_datas(strings_of(strings@))),
        is_readable_list(rlp_datas(strings_of(strings@))) ==> list_reads(r@, rlp_datas(strings_of(strings@))),
{
    rlp::encode_list::<Vec<u8>, Vec<u8>>(strings).into_vec()
}

/// The constant `rlp::NULL_RLP`: the encoding of the empty byte string.
#[verifier::external_body]
pub(crate) fn null_rlp() -> (r: Vec<u8>)
    ensures
        r@ == seq![0x80u8],
{
    rlp::NULL_RLP.to_vec()
}

/// The constant `rlp::EMPTY_LIST_RLP`: the encoding of the empty list, in which nothing is found.
#[verifier::external_body]
pub(crate) fn empty_list_rlp() -> (r: Vec<u8>)
    ensures
        r@ == seq![0xc0u8],
        read_item(r@, 0) is Err,
{
    rlp::EMPTY_LIST_RLP.to_vec()
}

/// `RlpStream::new_list`: a stream in a list of `size` items. A list of none would be closed at
/// once.
#[verifier::external_body]
pub(crate) fn new_list(size: usize) -> (r: RlpStream)
    requires
        size > 0,
    ensures
        stream_buffer(r) == seq![0u8],
        stream_lists(r) == seq![(1nat, 0nat, Some(size as nat))],
{
    RlpStream::new_list(size)
}

/// `RlpStream::append_internal` of a `u8`: writes the encoding of the number and counts nothing.
#[verifier::external_body]
pub(crate) fn append_internal_u8(stream: &mut RlpStream, n: u8)
    ensures
        stream_buffer(*final(stream)) == stream_buffer(*old(stream)) + rlp_uint(n as nat),
        stream_lists(*final(stream)) == stream_lists(*old(stream)),
{
    stream.append_internal(&n);
}

/// `RlpStream::append_raw` with one item, in a single list that lacks items: writes the bytes and
/// counts an item. With the last item the list is closed. One item more than the list was opened
/// for would panic.
#[verifier::external_body]
pub(crate) fn append_item(stream: &mut RlpStream, item: &[u8])
    requires
        lacks_items(*old(stream)),
    ensures
        lacks_one_item(*old(stream)) ==> stream_buffer(*final(stream)) == closed_list(
            stream_buffer(*old(stream)) + item@,
            stream_lists(*old(stream))[0].0,
        ),
        lacks_one_item(*old(stream)) ==> stream_lists(*final(stream)).len() == 0,
        !lacks_one_item(*old(stream)) ==> stream_buffer(*final(stream)) == stream_buffer(*old(stream)) + item@,
        !lacks_one_item(*old(stream)) ==> stream_lists(*final(stream)) == seq![
            (
                stream_lists(*old(stream))[0].0,
                stream_lists(*old(stream))[0].1 + 1,
                stream_lists(*old(stream))[0].2,
            ),
        ],
{
    stream.append_raw(item, 1);
}

/// `RlpStream::out`: what the stream holds. Where that is a list of items of which each is one, it
/// can be taken apart again. A list that lacks items would panic.
#[verifier::external_body]
pub(crate) fn finish_list(stream: RlpStream) -> (r: Vec<u8>)
    requires
        stream_lists(stream).len() == 0,
    ensures
        r@ == stream_buffer(stream),
        forall|items: Seq<Seq<u8>>|
            r@ == #[trigger] rlp_list(items) && is_readable_list(items) ==> list_reads(r@, items),
{
    stream.out()
}

/// Writes a list of two items, which can be taken apart again where each item is one and the list
/// has room for them.
pub(crate) fn encode_pair(a: &[u8], b: &[u8]) -> (r: Vec<u8>)
    ensures
        r@ == rlp_list(seq![a@, b@]),
        is_item(a@) && is_item(b@) && a@.len() + b@.len() <= MAX_LENGTH ==> {
            &&& read_item(r@, 0) == found(a@)
            &&& read_item(r@, 1) == found(b@)
        },
{
    let mut s = new_list(2);
    append_item(&mut s, a);
    append_item(&mut s, b);
    proof {
        lemma_list_of_two(a@, b@);
        lemma_two_items(a@, b@);
    }
    let r = finish_list(s);
    proof {
        let items = seq![a@, b@];
        if is_item(a@) && is_item(b@) && a@.len() + b@.len() <= MAX_LENGTH {
            assert(is_readable_list(items));
            assert(read_item(r@, 0) == Ok::<_, RlpError>(items[0]));
            assert(read_item(r@, 1) == Ok::<_, RlpError>(items[1]));
        }
    }
    r
}

/// The number that `rlp` encodes.
pub open spec fn number_of(rlp: Seq<u8>) -> Result<u64, DecodeError> {
    match read_u64(rlp) {
        Ok(n) => Ok(n),
        Err(e) => Err(DecodeError::Rlp(e)),
    }
}

/// The hash that `rlp` encodes.
pub open spec fn hash_of(rlp: Seq<u8>) -> Result<H256, DecodeError> {
    match read_bytes(rlp) {
        Ok(b) => if b.len() == 32 {
            Ok(h256_of(b))
        } else {
            Err(DecodeError::WrongLength { expected: 32, found: b.len() as usize })
        },
        Err(e) => Err(DecodeError::Rlp(e)),
    }
}

/// The signature that `rlp` encodes.
pub open spec fn signature_of(rlp: Seq<u8>) -> Result<H520, DecodeError> {
    match read_bytes(rlp) {
        Ok(b) => if b.len() == 65 {
            Ok(h520_of(b))
        } else {
            Err(DecodeError::WrongLength { expected: 65, found: b.len() as usize })
        },
        Err(e) => Err(DecodeError::Rlp(e)),
    }
}

/// The small number that `rlp` encodes.
pub open spec fn small_number_of(rlp: Seq<u8>) -> Result<u8, DecodeError> {
    match read_u8(rlp) {
        Ok(n) => Ok(n),
        Err(e) => Err(DecodeError::Rlp(e)),
    }
}

/// The content of the first item of `rlp`, whatever it is.
pub open spec fn data_of(rlp: Seq<u8>) -> Result<Seq<u8>, DecodeError> {
    match read_data(rlp) {
        Ok(data) => Ok(data),
        Err(e) => Err(DecodeError::Rlp(e)),
    }
}

/// The item at an index of a list.
pub open spec fn item_of(rlp: Seq<u8>, index: int) -> Result<Seq<u8>, DecodeError> {
    match read_item(rlp, index) {
        Ok(item) => Ok(item),
        Err(e) => Err(DecodeError::Rlp(e)),
    }
}

/// Reads a small number.
pub(crate) fn decode_u8(rlp: &[u8]) -> (r: Result<u8, DecodeError>)
    ensures
        r == small_number_of(rlp@),
{
    match as_u8(rlp) {
        Ok(n) => Ok(n),
        Err(e) => Err(DecodeError::Rlp(e)),
    }
}

/// Reads a number.
pub(crate) fn decode_u64(rlp: &[u8]) -> (r: Result<u64, DecodeError>)
    ensures
        r == number_of(rlp@),
{
    match as_u64(rlp) {
        Ok(n) => Ok(n),
        Err(e) => Err(DecodeError::Rlp(e)),
    }
}

/// Reads a hash.
pub(crate) fn decode_h256(rlp: &[u8]) -> (r: Result<H256, DecodeError>)
    ensures
        r == hash_of(rlp@),
{
    match as_vec(rlp) {
        Ok(bytes) => if bytes.len() == 32 {
            Ok(H256::from_bytes(&bytes))
        } else {
            Err(DecodeError::WrongLength { expected: 32, found: bytes.len() })
        },
        Err(e) => Err(DecodeError::Rlp(e)),
    }
}

/// Reads a signature.
pub(crate) fn decode_h520(rlp: &[u8]) -> (r: Result<H520, DecodeError>)
    ensures
        r == signature_of(rlp@),
{
    match as_vec(rlp) {
        Ok(bytes) => if bytes.len() == 65 {
            Ok(H520::from_bytes(&bytes))
        } else {
            Err(DecodeError::WrongLength { expected: 65, found: bytes.len() })
        },
        Err(e) => Err(DecodeError::Rlp(e)),
    }
}

/// Reads the content of an item, whatever it is.
pub(crate) fn decode_data(rlp: &[u8]) -> (r: Result<&[u8], DecodeError>)
    ensures
        bytes_of(r) == data_of(rlp@),
{
    match as_data(rlp) {
        Ok(data) => Ok(data),
        Err(e) => Err(DecodeError::Rlp(e)),
    }
}

/// Finds an item of a list.
pub(crate) fn decode_item(rlp: &[u8], index: usize) -> (r: Result<&[u8], DecodeError>)
    requires
        index < usize::MAX,
    ensures
        bytes_of(r) == item_of(rlp@, index as int),
        rlp@.len() == 0 || rlp@[0] < 0xc0 ==> item_of(rlp@, index as int) == Err::<Seq<u8>, DecodeError>(
            DecodeError::Rlp(RlpError::ExpectedToBeList),
        ),
{
    match item_at(rlp, index) {
        Ok(item) => Ok(item),
        Err(e) => Err(DecodeError::Rlp(e)),
    }
}

/// The items of a list from an index on. Every item takes a byte at least, so that there are no
/// more items than bytes.
pub open spec fn items_from(list: Seq<u8>, index: int) -> Seq<Seq<u8>>
    decreases list.len() - index,
{
    if 0 <= index < list.len() && read_item(list, index) is Ok {
        seq![read_item(list, index)->Ok_0] + items_from(list, index + 1)
    } else {
        seq![]
    }
}

/// The items of a list.
pub open spec fn items_of(list: Seq<u8>) -> Seq<Seq<u8>> {
    items_from(list, 0)
}

/// Takes a list apart, up to the first item that is none.
pub(crate) fn split_list(list: &[u8]) -> (r: Vec<Vec<u8>>)
    ensures
        strings_of(r@) == items_of(list@),
{
    let mut r: Vec<Vec<u8>> = Vec::new();
    let mut i: usize = 0;
    assert(strings_of(r@) + items_from(list@, 0) =~= items_of(list@));
    while i < list.len()
        invariant
            i <= list@.len(),
            strings_of(r@) + items_from(list@, i as int) == items_of(list@),
        decreases list@.len() - i,
    {
        let ghost before = strings_of(r@);
        match decode_item(list, i) {
            Ok(item) => {
                let bytes = copy_bytes(item);
                r.push(bytes);
                assert(strings_of(r@) =~= before.push(bytes@));
                assert(strings_of(r@) + items_from(list@, i + 1) =~= before + items_from(list@, i as int));
            },
            Err(_) => {
                assert(before + items_from(list@, i as int) =~= before);
                return r;
            },
        }
        i = i + 1;
    }
    assert(strings_of(r@) + items_from(list@, i as int) =~= strings_of(r@));
    r
}

/// A list that reads as `items` is taken apart into them.
pub proof fn lemma_items_of(list: Seq<u8>, items: Seq<Seq<u8>>)
    requires
        list_reads(list, items),
        items.len() <= list.len(),
    ensures
        items_of(list) == items,
{
    lemma_items_from(list, items, 0);
    assert(items.skip(0) =~= items);
}

proof fn lemma_items_from(list: Seq<u8>, items: Seq<Seq<u8>>, index: int)
    requires
        list_reads(list, items),
        0 <= index <= items.len() <= list.len(),
    ensures
        items_from(list, index) == items.skip(index),
    decreases items.len() - index,
{
    if index < items.len() {
        lemma_items_from(list, items, index + 1);
        assert(read_item(list, index) == Ok::<_, RlpError>(items[index]));
        assert(seq![items[index]] + items.skip(index + 1) =~= items.skip(index));
    } else {
        assert(items.skip(index) =~= Seq::<Seq<u8>>::empty());
    }
}

/// The big-endian bytes of a number are those of no other.
pub proof fn lemma_be_value(n: nat)
    ensures
        be_value(be_bytes(n)) == n,
        n > 0 ==> be_bytes(n).len() > 0 && be_bytes(n)[0] != 0,
        n < 0x1_0000_0000 ==> be_bytes(n).len() <= 4,
        n <= u64::MAX ==> be_bytes(n).len() <= 8,
    decreases n,
{
    if n > 0 {
        lemma_be_value(n / 256);
        let front = be_bytes(n / 256);
        assert(be_bytes(n).drop_last() =~= front);
        if n / 256 == 0 {
            assert(front.len() == 0);
        }
        lemma_be_bytes_len(n);
    }
}

/// How many bytes a number takes.
proof fn lemma_be_bytes_len(n: nat)
    ensures
        n < 0x1_0000_0000 ==> be_bytes(n).len() <= 4,
        n <= u64::MAX ==> be_bytes(n).len() <= 8,
{
    reveal_with_fuel(be_bytes, 9);
}

/// A byte string is read back from its encoding, whatever follows it, where the prefix can hold
/// its length and the whole is no longer than memory can be.
pub proof fn lemma_bytes_read_from(bytes: Seq<u8>, rest: Seq<u8>)
    requires
        bytes.len() <= MAX_LENGTH,
        rlp_data(bytes).len() <= usize::MAX,
    ensures
        read_bytes(rlp_data(bytes) + rest) == Ok::<_, RlpError>(bytes),
{
    let rlp = rlp_data(bytes) + rest;
    if bytes.len() == 1 && bytes[0] < 0x80 {
        assert(seq![rlp[0]] =~= bytes);
    } else if bytes.len() <= 55 {
        assert(rlp.subrange(1, 1 + bytes.len() as int) =~= bytes);
    } else {
        let size = be_bytes(bytes.len());
        lemma_be_value(bytes.len());
        assert(bytes.len() % 0x1_0000_0000 == bytes.len());
        assert(rlp.subrange(1, 1 + size.len() as int) =~= size);
        assert(rlp[1] == size[0]);
        assert(rlp.subrange(1 + size.len() as int, rlp_data(bytes).len() as int) =~= bytes);
    }
}

/// A byte string is read back from its encoding.
pub proof fn lemma_bytes_read_back(bytes: Seq<u8>)
    requires
        bytes.len() <= MAX_LENGTH,
        rlp_data(bytes).len() <= usize::MAX,
    ensures
        read_bytes(rlp_data(bytes)) == Ok::<_, RlpError>(bytes),
{
    lemma_bytes_read_from(bytes, seq![]);
    assert(rlp_data(bytes) + seq![] =~= rlp_data(bytes));
}

/// The encoding of a byte string shows where the string ends: whatever follows, it is no other's.
pub proof fn lemma_data_told_apart(a: Seq<u8>, x: Seq<u8>, b: Seq<u8>, y: Seq<u8>)
    requires
        rlp_data(a) + x == rlp_data(b) + y,
        rlp_data(a).len() <= MAX_LENGTH,
        rlp_data(b).len() <= MAX_LENGTH,
    ensures
        a == b,
        x == y,
{
    lemma_data_is_longer(a);
    lemma_data_is_longer(b);
    lemma_bytes_read_from(a, x);
    lemma_bytes_read_from(b, y);
    let n = rlp_data(a).len() as int;
    assert((rlp_data(a) + x).skip(n) =~= x);
    assert((rlp_data(b) + y).skip(n) =~= y);
}

proof fn lemma_data_is_longer(a: Seq<u8>)
    ensures
        a.len() <= rlp_data(a).len(),
{
}

/// The encodings of two numbers, whatever follows.
pub proof fn lemma_uint_told_apart(m: nat, x: Seq<u8>, n: nat, y: Seq<u8>)
    requires
        rlp_uint(m) + x == rlp_uint(n) + y,
        m <= u64::MAX,
        n <= u64::MAX,
    ensures
        m == n,
        x == y,
{
    lemma_be_value(m);
    lemma_be_value(n);
    lemma_data_told_apart(be_bytes(m), x, be_bytes(n), y);
}

/// Lists with the same encoding have the same contents.
pub proof fn lemma_lists_told_apart(a: Seq<Seq<u8>>, b: Seq<Seq<u8>>)
    requires
        rlp_list(a) == rlp_list(b),
        a.flatten().len() <= MAX_LENGTH,
        b.flatten().len() <= MAX_LENGTH,
    ensures
        a.flatten() == b.flatten(),
{
    let x = a.flatten();
    let y = b.flatten();
    lemma_be_value(x.len());
    lemma_be_value(y.len());
    let p = length_prefix(0xc0, x.len());
    let q = length_prefix(0xc0, y.len());
    assert(rlp_list(a)[0] == p[0] && rlp_list(b)[0] == q[0]);
    assert(x.len() % 0x1_0000_0000 == x.len() && y.len() % 0x1_0000_0000 == y.len());
    assert(p.len() == q.len());
    assert(p =~= rlp_list(a).take(p.len() as int));
    assert(q =~= rlp_list(b).take(p.len() as int));
    assert(x =~= rlp_list(a).skip(p.len() as int));
    assert(y =~= rlp_list(b).skip(p.len() as int));
}

/// A number is read back from its encoding.
pub proof fn lemma_uint_read_back(n: nat)
    ensures
        n <= u8::MAX ==> read_u8(rlp_uint(n)) == Ok::<_, RlpError>(n as u8),
        n <= u64::MAX ==> read_u64(rlp_uint(n)) == Ok::<_, RlpError>(n as u64),
{
    if n <= u64::MAX {
        lemma_be_value(n);
        lemma_bytes_read_back(be_bytes(n));
        if n <= u8::MAX {
            reveal_with_fuel(be_bytes, 3);
        }
    }
}

/// A list is itself an item, not much longer than its contents.
pub proof fn lemma_list_item(items: Seq<Seq<u8>>)
    requires
        items.flatten().len() <= MAX_LENGTH,
    ensures
        is_item(rlp_list(items)),
        rlp_list(items).len() <= items.flatten().len() + 5,
{
    lemma_be_value(items.flatten().len());
}

/// The contents of a list of two items are the two items.
pub proof fn lemma_two_items(a: Seq<u8>, b: Seq<u8>)
    ensures
        seq![a, b].flatten() == a + b,
{
    let one = seq![a];
    one.lemma_flatten_one_element();
    one.lemma_flatten_push(b);
    assert(one.push(b) =~= seq![a, b]);
}

/// What a stream holds once the two items of a list have been written.
proof fn lemma_list_of_two(a: Seq<u8>, b: Seq<u8>)
    ensures
        closed_list(seq![0u8] + a + b, 1) == rlp_list(seq![a, b]),
{
    lemma_two_items(a, b);
    lemma_closed_list(seq![a, b]);
    assert(seq![0u8] + a + b =~= seq![0u8] + (a + b));
}

/// What a stream holds once the three items of a list have been written.
pub proof fn lemma_list_of_three(a: Seq<u8>, b: Seq<u8>, c: Seq<u8>)
    ensures
        closed_list(seq![0u8] + a + b + c, 1) == rlp_list(seq![a, b, c]),
        seq![a, b, c].flatten() == a + b + c,
{
    lemma_two_items(a, b);
    seq![a, b].lemma_flatten_push(c);
    assert(seq![a, b].push(c) =~= seq![a, b, c]);
    lemma_closed_list(seq![a, b, c]);
    assert(seq![0u8] + a + b + c =~= seq![0u8] + (a + b + c));
}

/// What a stream holds once the four items of a list have been written.
pub proof fn lemma_list_of_four(a: Seq<u8>, b: Seq<u8>, c: Seq<u8>, d: Seq<u8>)
    ensures
        closed_list(seq![0u8] + a + b + c + d, 1) == rlp_list(seq![a, b, c, d]),
        seq![a, b, c, d].flatten() == a + b + c + d,
{
    lemma_list_of_three(a, b, c);
    seq![a, b, c].lemma_flatten_push(d);
    assert(seq![a, b, c].push(d) =~= seq![a, b, c, d]);
    lemma_closed_list(seq![a, b, c, d]);
    assert(seq![0u8] + a + b + c + d =~= seq![0u8] + (a + b + c + d));
}

/// What a stream holds once the last item of its list has been written and the list closed.
proof fn lemma_closed_list(items: Seq<Seq<u8>>)
    ensures
        closed_list(seq![0u8] + items.flatten(), 1) == rlp_list(items),
{
    let buffer = seq![0u8] + items.flatten();
    assert(buffer.skip(1) =~= items.flatten());
    assert(buffer.take(0) =~= seq![]);
    assert(closed_list(buffer, 1) =~= rlp_list(items));
}

} // verus!
