//! Errors of the loader, with their messages.

use vstd::prelude::*;
use vstd::string::*;

use crate::text::{decimal_text, signed_list_text, size_list_text};

verus! {

/// Why a load failed.
#[derive(Debug, PartialEq, Eq)]
pub enum VoxtralError {
    /// The checkpoint is missing, or not laid out as the loader expects.
    ModelLoad(String),
    /// A file is not a valid safetensors file.
    Safetensors(String),
    /// A file could not be read.
    Io(String),
}

/// An error with its message as a sequence of characters.
pub enum ErrorView {
    ModelLoad(Seq<char>),
    Safetensors(Seq<char>),
    Io(Seq<char>),
}

impl View for VoxtralError {
    type V = ErrorView;

    open spec fn view(&self) -> ErrorView {
        match *self {
            VoxtralError::ModelLoad(s) => ErrorView::ModelLoad(s@),
            VoxtralError::Safetensors(s) => ErrorView::Safetensors(s@),
            VoxtralError::Io(s) => ErrorView::Io(s@),
        }
    }
}

/// No file was handed to the loader.
pub open spec fn no_files_error(model_dir: Seq<char>) -> ErrorView {
    ErrorView::ModelLoad("No safetensors files found in "@ + model_dir)
}

/// The model directory holds no checkpoint file.
pub open spec fn no_candidates_error(model_dir: Seq<char>) -> ErrorView {
    ErrorView::ModelLoad(
        "No safetensors files found in "@ + model_dir
            + ". Expected consolidated.safetensors or sharded model-*.safetensors"@,
    )
}

/// A file is not valid, for the reason that the parser gave.
pub open spec fn parse_error(path: Seq<char>, reason: Seq<char>) -> ErrorView {
    ErrorView::Safetensors("Failed to parse "@ + path + ": "@ + reason)
}

/// Scales stand beside a `.qweight` tensor and no `.weight` tensor.
pub open spec fn qweight_error(prefix: Seq<char>, path: Seq<char>) -> ErrorView {
    ErrorView::ModelLoad(
        "Unsupported quantized tensor format for "@ + prefix + " in "@ + path
            + ". Found a .qweight tensor suffix instead of .weight. This loader only supports the packed "@
            + prefix + ".weight + .scales [+ .biases] layout"@,
    )
}

/// A tensor has elements of a type that is not loaded.
pub open spec fn dtype_error(dtype: Seq<char>, shape: Seq<i64>) -> ErrorView {
    ErrorView::ModelLoad(
        "Unsupported tensor dtype "@ + dtype + " for "@ + crate::text::signed_list(shape),
    )
}

/// A packed weight is not a matrix.
pub open spec fn weight_rank_error(shape: Seq<usize>) -> ErrorView {
    ErrorView::ModelLoad("Quantized weight must be rank-2, got "@ + crate::text::size_list(shape))
}

/// Scales are not a matrix.
pub open spec fn scales_rank_error(shape: Seq<usize>) -> ErrorView {
    ErrorView::ModelLoad("Quantization scales must be rank-2, got "@ + crate::text::size_list(shape))
}

/// The rows of a packed weight do not have the length that the scales call for.
pub open spec fn packed_shape_error(
    shape: Seq<usize>,
    bits: nat,
    group_size: nat,
    expected: nat,
) -> ErrorView {
    ErrorView::ModelLoad(
        "Packed weight shape "@ + crate::text::size_list(shape) + " is incompatible with bits="@
            + crate::text::decimal(bits) + " and group_size="@ + crate::text::decimal(group_size)
            + " (expected packed input dim "@ + crate::text::decimal(expected) + ")"@,
    )
}

/// There is not one row of scales for each row of the weight.
pub open spec fn scales_shape_error(shape: Seq<usize>, out_features: nat) -> ErrorView {
    ErrorView::ModelLoad(
        "Quantization scales shape "@ + crate::text::size_list(shape)
            + " does not match weight output dim "@ + crate::text::decimal(out_features),
    )
}

/// Biases are shaped otherwise than the scales.
pub open spec fn biases_shape_error(biases: Seq<usize>, scales: Seq<usize>) -> ErrorView {
    ErrorView::ModelLoad(
        "Quantization biases shape "@ + crate::text::size_list(biases)
            + " does not match scales shape "@ + crate::text::size_list(scales),
    )
}

/// Packed values have a width that is not supported.
pub open spec fn bits_error(bits: nat) -> ErrorView {
    ErrorView::ModelLoad(
        "Unsupported quantization bits "@ + crate::text::decimal(bits)
            + ". Only 4-bit and 6-bit checkpoints are supported"@,
    )
}

/// There is not one scale and one bias for each group.
pub open spec fn group_count_error() -> ErrorView {
    ErrorView::ModelLoad("Invalid quantization scales/biases length"@)
}

/// Scales or biases are not floating-point numbers that can be widened.
pub open spec fn floating_dtype_error(dtype: Seq<char>) -> ErrorView {
    ErrorView::ModelLoad("Unsupported floating tensor dtype "@ + dtype)
}

/// The bytes of a tensor do not divide into elements.
pub open spec fn alignment_error(width: nat) -> ErrorView {
    ErrorView::ModelLoad(
        "Tensor byte length is not aligned to "@ + crate::text::decimal(width) + " bytes"@,
    )
}

/// The bytes of a packed tensor do not divide into words.
pub open spec fn packed_alignment_error() -> ErrorView {
    ErrorView::ModelLoad("Quantized tensor byte length is not aligned to 4 bytes"@)
}

/// A packed tensor is stored as signed words.
pub open spec fn signed_storage_error() -> ErrorView {
    ErrorView::ModelLoad(
        "Found signed I32 storage for a packed quantized tensor. Packed weights must use unsigned U32 to prevent sign extension from corrupting unpacked bit-level values"@,
    )
}

/// A packed tensor is stored as anything but 32-bit words.
pub open spec fn packed_dtype_error(dtype: Seq<char>) -> ErrorView {
    ErrorView::ModelLoad("Unsupported packed quantized tensor dtype "@ + dtype)
}

/// An error says that bytes do not divide into elements.
pub open spec fn is_alignment_error(e: ErrorView) -> bool {
    ||| e == packed_alignment_error()
    ||| exists|width: nat| e == #[trigger] alignment_error(width)
}

/// The messages of errors about alignment start like no others.
proof fn lemma_alignment_start(e: ErrorView)
    requires
        is_alignment_error(e),
    ensures
        e matches ErrorView::ModelLoad(s) && s.len() > 10 && (s[0] == 'T' || (s[0] == 'Q' && s[7]
            == 'e' && s[10] == 't')),
{
    reveal_strlit("Tensor byte length is not aligned to ");
    reveal_strlit("Quantized tensor byte length is not aligned to 4 bytes");
    if e != packed_alignment_error() {
        let width = choose|width: nat| e == #[trigger] alignment_error(width);
        assert(e->ModelLoad_0[0] == "Tensor byte length is not aligned to "@[0]);
    }
}

/// No error about types, shapes, widths or layouts is one about alignment.
pub(crate) proof fn lemma_other_errors(
    a: Seq<char>,
    b: Seq<char>,
    s: Seq<usize>,
    t: Seq<usize>,
    signed: Seq<i64>,
    k: nat,
    m: nat,
    n: nat,
)
    ensures
        !is_alignment_error(qweight_error(a, b)),
        !is_alignment_error(dtype_error(a, signed)),
        !is_alignment_error(weight_rank_error(s)),
        !is_alignment_error(scales_rank_error(s)),
        !is_alignment_error(packed_shape_error(s, k, m, n)),
        !is_alignment_error(scales_shape_error(s, n)),
        !is_alignment_error(biases_shape_error(s, t)),
        !is_alignment_error(bits_error(n)),
        !is_alignment_error(floating_dtype_error(a)),
        !is_alignment_error(signed_storage_error()),
        !is_alignment_error(packed_dtype_error(a)),
{
    reveal_strlit("Unsupported quantized tensor format for ");
    reveal_strlit("Unsupported tensor dtype ");
    reveal_strlit("Quantized weight must be rank-2, got ");
    reveal_strlit("Quantization scales must be rank-2, got ");
    reveal_strlit("Packed weight shape ");
    reveal_strlit("Quantization scales shape ");
    reveal_strlit("Quantization biases shape ");
    reveal_strlit("Unsupported quantization bits ");
    reveal_strlit("Unsupported floating tensor dtype ");
    reveal_strlit(
        "Found signed I32 storage for a packed quantized tensor. Packed weights must use unsigned U32 to prevent sign extension from corrupting unpacked bit-level values",
    );
    reveal_strlit("Unsupported packed quantized tensor dtype ");
    assert forall|e: ErrorView| #[trigger] is_alignment_error(e) implies e matches
        ErrorView::ModelLoad(s) && s.len() > 10 && (s[0] == 'T' || (s[0] == 'Q' && s[7] == 'e'
        && s[10] == 't')) by {
        lemma_alignment_start(e);
    }
    assert(qweight_error(a, b)->ModelLoad_0[0] == 'U');
    assert(dtype_error(a, signed)->ModelLoad_0[0] == 'U');
    assert(weight_rank_error(s)->ModelLoad_0[10] == 'w');
    assert(scales_rank_error(s)->ModelLoad_0[7] == 'a');
    assert(packed_shape_error(s, k, m, n)->ModelLoad_0[0] == 'P');
    assert(scales_shape_error(s, n)->ModelLoad_0[7] == 'a');
    assert(biases_shape_error(s, t)->ModelLoad_0[7] == 'a');
    assert(bits_error(n)->ModelLoad_0[0] == 'U');
    assert(floating_dtype_error(a)->ModelLoad_0[0] == 'U');
    assert(signed_storage_error()->ModelLoad_0[0] == 'F');
    assert(packed_dtype_error(a)->ModelLoad_0[0] == 'U');
}

impl VoxtralError {
    pub(crate) fn no_files(model_dir: &str) -> (e: VoxtralError)
        ensures
            e@ == no_files_error(model_dir@),
    {
        let mut s = "No safetensors files found in ".to_owned();
        s.append(model_dir);
        VoxtralError::ModelLoad(s)
    }

    pub(crate) fn no_candidates(model_dir: &str) -> (e: VoxtralError)
        ensures
            e@ == no_candidates_error(model_dir@),
    {
        let mut s = "No safetensors files found in ".to_owned();
        s.append(model_dir);
        s.append(". Expected consolidated.safetensors or sharded model-*.safetensors");
        VoxtralError::ModelLoad(s)
    }

    pub(crate) fn parse(path: &str, reason: &str) -> (e: VoxtralError)
        ensures
            e@ == parse_error(path@, reason@),
    {
        let mut s = "Failed to parse ".to_owned();
        s.append(path);
        s.append(": ");
        s.append(reason);
        VoxtralError::Safetensors(s)
    }

    pub(crate) fn qweight(prefix: &str, path: &str) -> (e: VoxtralError)
        ensures
            e@ == qweight_error(prefix@, path@),
    {
        let mut s = "Unsupported quantized tensor format for ".to_owned();
        s.append(prefix);
        s.append(" in ");
        s.append(path);
        s.append(
            ". Found a .qweight tensor suffix instead of .weight. This loader only supports the packed ",
        );
        s.append(prefix);
        s.append(".weight + .scales [+ .biases] layout");
        VoxtralError::ModelLoad(s)
    }

    pub(crate) fn dtype(dtype: &str, shape: &[i64]) -> (e: VoxtralError)
        ensures
            e@ == dtype_error(dtype@, shape@),
    {
        let mut s = "Unsupported tensor dtype ".to_owned();
        s.append(dtype);
        s.append(" for ");
        s.append(signed_list_text(shape).as_str());
        VoxtralError::ModelLoad(s)
    }

    pub(crate) fn weight_rank(shape: &[usize]) -> (e: VoxtralError)
        ensures
            e@ == weight_rank_error(shape@),
    {
        let mut s = "Quantized weight must be rank-2, got ".to_owned();
        s.append(size_list_text(shape).as_str());
        VoxtralError::ModelLoad(s)
    }

    pub(crate) fn scales_rank(shape: &[usize]) -> (e: VoxtralError)
        ensures
            e@ == scales_rank_error(shape@),
    {
        let mut s = "Quantization scales must be rank-2, got ".to_owned();
        s.append(size_list_text(shape).as_str());
        VoxtralError::ModelLoad(s)
    }

    pub(crate) fn packed_shape(
        shape: &[usize],
        bits: usize,
        group_size: usize,
        expected: usize,
    ) -> (e: VoxtralError)
        ensures
            e@ == packed_shape_error(shape@, bits as nat, group_size as nat, expected as nat),
    {
        let mut s = "Packed weight shape ".to_owned();
        s.append(size_list_text(shape).as_str());
        s.append(" is incompatible with bits=");
        s.append(decimal_text(bits as u64).as_str());
        s.append(" and group_size=");
        s.append(decimal_text(group_size as u64).as_str());
        s.append(" (expected packed input dim ");
        s.append(decimal_text(expected as u64).as_str());
        s.append(")");
        VoxtralError::ModelLoad(s)
    }

    pub(crate) fn scales_shape(shape: &[usize], out_features: usize) -> (e: VoxtralError)
        ensures
            e@ == scales_shape_error(shape@, out_features as nat),
    {
        let mut s = "Quantization scales shape ".to_owned();
        s.append(size_list_text(shape).as_str());
        s.append(" does not match weight output dim ");
        s.append(decimal_text(out_features as u64).as_str());
        VoxtralError::ModelLoad(s)
    }

    pub(crate) fn biases_shape(biases: &[usize], scales: &[usize]) -> (e: VoxtralError)
        ensures
            e@ == biases_shape_error(biases@, scales@),
    {
        let mut s = "Quantization biases shape ".to_owned();
        s.append(size_list_text(biases).as_str());
        s.append(" does not match scales shape ");
        s.append(size_list_text(scales).as_str());
        VoxtralError::ModelLoad(s)
    }

    pub(crate) fn bits(bits: usize) -> (e: VoxtralError)
        ensures
            e@ == bits_error(bits as nat),
    {
        let mut s = "Unsupported quantization bits ".to_owned();
        s.append(decimal_text(bits as u64).as_str());
        s.append(". Only 4-bit and 6-bit checkpoints are supported");
        VoxtralError::ModelLoad(s)
    }

    pub(crate) fn group_count() -> (e: VoxtralError)
        ensures
            e@ == group_count_error(),
    {
        VoxtralError::ModelLoad("Invalid quantization scales/biases length".to_owned())
    }

    pub(crate) fn floating_dtype(dtype: &str) -> (e: VoxtralError)
        ensures
            e@ == floating_dtype_error(dtype@),
    {
        let mut s = "Unsupported floating tensor dtype ".to_owned();
        s.append(dtype);
        VoxtralError::ModelLoad(s)
    }

    pub(crate) fn alignment(width: usize) -> (e: VoxtralError)
        ensures
            e@ == alignment_error(width as nat),
    {
        let mut s = "Tensor byte length is not aligned to ".to_owned();
        s.append(decimal_text(width as u64).as_str());
        s.append(" bytes");
        VoxtralError::ModelLoad(s)
    }

    pub(crate) fn packed_alignment() -> (e: VoxtralError)
        ensures
            e@ == packed_alignment_error(),
    {
        VoxtralError::ModelLoad(
            "Quantized tensor byte length is not aligned to 4 bytes".to_owned(),
        )
    }

    pub(crate) fn signed_storage() -> (e: VoxtralError)
        ensures
            e@ == signed_storage_error(),
    {
        VoxtralError::ModelLoad(
            "Found signed I32 storage for a packed quantized tensor. Packed weights must use unsigned U32 to prevent sign extension from corrupting unpacked bit-level values".to_owned(),
        )
    }

    pub(crate) fn packed_dtype(dtype: &str) -> (e: VoxtralError)
        ensures
            e@ == packed_dtype_error(dtype@),
    {
        let mut s = "Unsupported packed quantized tensor dtype ".to_owned();
        s.append(dtype);
        VoxtralError::ModelLoad(s)
    }
}

/// The view of an error keeps its kind and its message.
pub proof fn law_error_view(e: VoxtralError)
    ensures
        e matches VoxtralError::ModelLoad(s) ==> e@ == ErrorView::ModelLoad(s@),
        e matches VoxtralError::Safetensors(s) ==> e@ == ErrorView::Safetensors(s@),
        e matches VoxtralError::Io(s) ==> e@ == ErrorView::Io(s@),
{
}

/// What the messages about files, formats and element types say, whatever the
/// paths and names in them.
pub proof fn law_file_messages(dir: Seq<char>, path: Seq<char>, reason: Seq<char>, p: Seq<char>)
    ensures
        no_files_error(dir) == ErrorView::ModelLoad("No safetensors files found in "@ + dir),
        no_candidates_error(dir) == ErrorView::ModelLoad(
            "No safetensors files found in "@ + dir
                + ". Expected consolidated.safetensors or sharded model-*.safetensors"@,
        ),
        parse_error(path, reason) == ErrorView::Safetensors(
            "Failed to parse "@ + path + ": "@ + reason,
        ),
        qweight_error(p, path) == ErrorView::ModelLoad(
            "Unsupported quantized tensor format for "@ + p + " in "@ + path
                + ". Found a .qweight tensor suffix instead of .weight. This loader only supports the packed "@
                + p + ".weight + .scales [+ .biases] layout"@,
        ),
        floating_dtype_error(p) == ErrorView::ModelLoad("Unsupported floating tensor dtype "@ + p),
        packed_dtype_error(p) == ErrorView::ModelLoad(
            "Unsupported packed quantized tensor dtype "@ + p,
        ),
        signed_storage_error() == ErrorView::ModelLoad(
            "Found signed I32 storage for a packed quantized tensor. Packed weights must use unsigned U32 to prevent sign extension from corrupting unpacked bit-level values"@,
        ),
        packed_alignment_error() == ErrorView::ModelLoad(
            "Quantized tensor byte length is not aligned to 4 bytes"@,
        ),
        group_count_error() == ErrorView::ModelLoad("Invalid quantization scales/biases length"@),
{
}

/// What the messages about shapes and sizes say, whatever the numbers in them.
pub proof fn law_shape_messages(
    dtype: Seq<char>,
    signed: Seq<i64>,
    s: Seq<usize>,
    t: Seq<usize>,
    bits: nat,
    group_size: nat,
    n: nat,
)
    ensures
        dtype_error(dtype, signed) == ErrorView::ModelLoad(
            "Unsupported tensor dtype "@ + dtype + " for "@ + crate::text::signed_list(signed),
        ),
        weight_rank_error(s) == ErrorView::ModelLoad(
            "Quantized weight must be rank-2, got "@ + crate::text::size_list(s),
        ),
        scales_rank_error(s) == ErrorView::ModelLoad(
            "Quantization scales must be rank-2, got "@ + crate::text::size_list(s),
        ),
        packed_shape_error(s, bits, group_size, n) == ErrorView::ModelLoad(
            "Packed weight shape "@ + crate::text::size_list(s) + " is incompatible with bits="@
                + crate::text::decimal(bits) + " and group_size="@ + crate::text::decimal(
                group_size,
            ) + " (expected packed input dim "@ + crate::text::decimal(n) + ")"@,
        ),
        scales_shape_error(s, n) == ErrorView::ModelLoad(
            "Quantization scales shape "@ + crate::text::size_list(s)
                + " does not match weight output dim "@ + crate::text::decimal(n),
        ),
        biases_shape_error(s, t) == ErrorView::ModelLoad(
            "Quantization biases shape "@ + crate::text::size_list(s)
                + " does not match scales shape "@ + crate::text::size_list(t),
        ),
        bits_error(bits) == ErrorView::ModelLoad(
            "Unsupported quantization bits "@ + crate::text::decimal(bits)
                + ". Only 4-bit and 6-bit checkpoints are supported"@,
        ),
        alignment_error(n) == ErrorView::ModelLoad(
            "Tensor byte length is not aligned to "@ + crate::text::decimal(n) + " bytes"@,
        ),
{
}

} // verus!
