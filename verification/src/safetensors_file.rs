//! Reading of safetensors files.

use safetensors::tensor::Metadata;
use safetensors::{SafeTensorError, SafeTensors};
use vstd::prelude::*;
use vstd::slice::slice_subrange;

use crate::decode::long_word_at;
use crate::shard::NamedTensor;
use crate::tensor::{Dtype, TensorView};
use crate::text::utf8_text;

verus! {

/// A parsed safetensors file, which borrows the bytes of the file.
#[verifier::external_type_specification]
#[verifier::external_body]
pub struct ExSafeTensors<'data>(SafeTensors<'data>);

/// The error type of the safetensors parser.
#[verifier::external_type_specification]
#[verifier::external_body]
pub struct ExSafeTensorError(SafeTensorError);

/// The tensors of a parsed file, by name.
pub uninterp spec fn file_tensors(file: SafeTensors<'_>) -> Map<
    Seq<char>,
    crate::tensor::TensorInfo,
>;

/// The tensors that the bytes of a file hold, by name, or `None` where the
/// bytes are not a valid safetensors file.
pub uninterp spec fn parsed_tensors(bytes: Seq<u8>) -> Option<
    Map<Seq<char>, crate::tensor::TensorInfo>,
>;

/// The length of the longest header that is read.
pub const HEADER_LIMIT: u64 = 100_000_000;

/// The header of a file: a text whose length stands before it, in the first
/// eight bytes. `None` where there is none that is read.
pub open spec fn header_text(bytes: Seq<u8>) -> Option<Seq<char>> {
    let n = crate::decode::le_u64(bytes, 0);
    if bytes.len() < 8 || n > HEADER_LIMIT || 8 + n > bytes.len() {
        None
    } else {
        crate::text::utf8_decoded(bytes.subrange(8, 8 + n))
    }
}

/// The number of bytes of all tensors that a header declares, or `None` where
/// the header is not valid.
pub uninterp spec fn declared_len(header: Seq<char>) -> Option<usize>;

/// The size of the file that the header declares, with the header and its
/// length, is a `usize`.
pub open spec fn declared_size_fits(bytes: Seq<u8>) -> bool {
    header_text(bytes) matches Some(header) ==> declared_len(header) matches Some(n) ==> 8
        + crate::decode::le_u64(bytes, 0) + n <= usize::MAX
}

/// A file is exactly as long as its header declares.
pub open spec fn declared_size_met(bytes: Seq<u8>) -> bool {
    &&& header_text(bytes) is Some
    &&& declared_len(header_text(bytes)->0) matches Some(n) && 8 + crate::decode::le_u64(bytes, 0)
        + n == bytes.len()
}

/// Reads how many bytes of tensors a header declares.
///
/// This is `serde_json::from_str` for a `Metadata`, and `Metadata::data_len`.
/// Claimed is that the text of the header alone decides the result.
#[verifier::external_body]
fn read_declared_len(header: &str) -> (r: Option<usize>)
    ensures
        r == declared_len(header@),
{
    match serde_json::from_str::<Metadata>(header) {
        Ok(metadata) => Some(metadata.data_len()),
        Err(_) => None,
    }
}

/// Tells whether the size of the file that the header declares is a `usize`.
pub(crate) fn has_fitting_size(bytes: &[u8]) -> (r: bool)
    ensures
        r == declared_size_fits(bytes@),
{
    if bytes.len() < 8 {
        return true;
    }
    let n = long_word_at(bytes, 0);
    if n > HEADER_LIMIT || n > (bytes.len() - 8) as u64 {
        return true;
    }
    let end = 8 + n as usize;
    match utf8_text(slice_subrange(bytes, 8, end)) {
        Some(header) => match read_declared_len(header) {
            Some(len) => len <= usize::MAX - end,
            None => true,
        },
        None => true,
    }
}

/// `SafeTensors::deserialize` parses the bytes of a file. Claimed is that the
/// bytes alone decide whether it succeeds and which tensors it finds; and, of
/// a file that it accepts, what it has checked: that the file is exactly as
/// long as its header declares, and that each tensor has as many bytes as its
/// shape and element type call for, and bits that can be counted.
///
/// Of an error nothing is claimed: which of two faulty tensors it names
/// depends on the order of a hash map. Left out are files whose header
/// declares a size that is no `usize`: the parser adds it up unchecked.
pub assume_specification<'data>[ SafeTensors::<'data>::deserialize ](
    buffer: &'data [u8],
) -> (r: Result<SafeTensors<'data>, SafeTensorError>)
    requires
        declared_size_fits(buffer@),
    ensures
        match r {
            Ok(file) => {
                &&& parsed_tensors(buffer@) == Some(file_tensors(file))
                &&& crate::shard::tensors_wf(file_tensors(file))
                &&& declared_size_met(buffer@)
            },
            Err(_) => parsed_tensors(buffer@) is None,
        },
;

/// `SafeTensors::names` lists the names of a file. Claimed is that each is
/// listed once; their order is that of a hash map.
#[verifier::external_body]
fn tensor_names<'a>(file: &'a SafeTensors<'_>) -> (r: Vec<&'a str>)
    ensures
        r@.map_values(|n: &str| n@).no_duplicates(),
        forall|n: Seq<char>|
            r@.map_values(|n: &str| n@).contains(n) <==> #[trigger] file_tensors(
                *file,
            ).dom().contains(n),
{
    file.names()
}

/// `SafeTensors::tensor` looks a tensor up. Claimed is that it finds the one
/// that the file holds under the name, and fails where there is none.
#[verifier::external_body]
fn tensor_named<'data>(file: &SafeTensors<'data>, name: &str) -> (r: Result<
    TensorView<'data>,
    SafeTensorError,
>)
    ensures
        match r {
            Ok(view) => {
                &&& file_tensors(*file).dom().contains(name@)
                &&& view@ == file_tensors(*file)[name@]
            },
            Err(_) => !file_tensors(*file).dom().contains(name@),
        },
{
    let found = file.tensor(name)?;
    let dtype = match found.dtype() {
        safetensors::Dtype::BF16 => Dtype::BF16,
        safetensors::Dtype::F16 => Dtype::F16,
        safetensors::Dtype::F32 => Dtype::F32,
        safetensors::Dtype::I64 => Dtype::I64,
        safetensors::Dtype::I32 => Dtype::I32,
        safetensors::Dtype::U32 => Dtype::U32,
        other => Dtype::Other(format!("{:?}", other)),
    };
    Ok(TensorView { dtype, shape: found.shape().to_vec(), data: found.data() })
}

/// Reads the tensors of a parsed file, in the order in which it lists them.
pub(crate) fn read_tensors<'data>(file: &SafeTensors<'data>) -> (r: Vec<NamedTensor<'data>>)
    requires
        crate::shard::tensors_wf(file_tensors(*file)),
    ensures
        crate::shard::shard_wf(r@),
        crate::shard::stored(r@) == file_tensors(*file),
{
    let names = tensor_names(file);
    let ghost listed = names@.map_values(|n: &str| n@);
    let mut tensors: Vec<NamedTensor<'data>> = Vec::new();
    for i in 0..names.len()
        invariant
            crate::shard::tensors_wf(file_tensors(*file)),
            listed == names@.map_values(|n: &str| n@),
            forall|n: Seq<char>|
                listed.contains(n) <==> #[trigger] file_tensors(*file).dom().contains(n),
            tensors@.len() == i,
            forall|j: int|
                0 <= j < i ==> {
                    &&& (#[trigger] tensors@[j]).name@ == listed[j]
                    &&& tensors@[j].view@ == file_tensors(*file)[listed[j]]
                    &&& tensors@[j].view@.wf()
                },
    {
        proof {
            assert(listed[i as int] == names@[i as int]@);
        }
        match tensor_named(file, names[i]) {
            Ok(view) => {
                tensors.push(NamedTensor { name: names[i].to_owned(), view });
            },
            Err(_) => {
                // Every listed name is found.
                assert(false);
            },
        }
    }
    proof {
        assert(crate::shard::names(tensors@) =~= listed);
        assert(crate::shard::stored(tensors@) =~= file_tensors(*file)) by {
            assert forall|n: Seq<char>|
                file_tensors(*file).dom().contains(n) implies crate::shard::stored(tensors@)[n]
                == file_tensors(*file)[n] by {
                assert(listed[listed.index_of(n)] == n);
            }
        }
    }
    tensors
}

/// A file that starts with the length of a text in eight bytes, and with the
/// text behind them, has that text as its header, unless it is too long.
pub proof fn law_header_read(text: Seq<char>, rest: Seq<u8>)
    requires
        vstd::utf8::encode_utf8(text).len() <= 100_000_000,
    ensures
        header_text(
            crate::decode::le_bytes(vstd::utf8::encode_utf8(text).len(), 8)
                + vstd::utf8::encode_utf8(text) + rest,
        ) == Some(text),
{
    let encoded = vstd::utf8::encode_utf8(text);
    let n = encoded.len();
    let front = crate::decode::le_bytes(n, 8);
    let bytes = front + encoded + rest;
    crate::decode::lemma_le_bytes_len(n, 8);
    assert(bytes.subrange(0, 8) =~= front);
    crate::decode::lemma_le_u64(bytes, 0, n);
    assert(bytes.subrange(8, 8 + n as int) =~= encoded);
    crate::text::law_utf8(encoded, text);
}

/// A file has a header only where it starts with the length of a text that is
/// not too long, and holds all of it.
pub proof fn law_header_present(bytes: Seq<u8>, text: Seq<char>)
    requires
        header_text(bytes) == Some(text),
    ensures
        ({
            let n = crate::decode::le_u64(bytes, 0);
            &&& n <= 100_000_000
            &&& 8 + n <= bytes.len()
            &&& bytes.subrange(8, 8 + n) == vstd::utf8::encode_utf8(text)
        }),
{
    let n = crate::decode::le_u64(bytes, 0);
    crate::text::law_utf8(bytes.subrange(8, 8 + n), text);
}

/// The declared size of a file is too large only where the header declares so
/// many bytes that they cannot be counted with the header and its length.
pub proof fn law_declared_size(bytes: Seq<u8>)
    ensures
        !declared_size_fits(bytes) <==> exists|text: Seq<char>|
            #![trigger declared_len(text)]
            header_text(bytes) == Some(text) && declared_len(text) is Some && 8
                + crate::decode::le_u64(bytes, 0) + declared_len(text)->0 > usize::MAX,
{
    if !declared_size_fits(bytes) {
        assert(declared_len(header_text(bytes)->0) is Some);
    }
}

} // verus!
