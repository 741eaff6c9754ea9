//! Tensors: as they stand in a file, and as they are handed to the model.

use vstd::prelude::*;
use vstd::string::*;

verus! {

/// The type of the elements of a stored tensor.
#[derive(Debug, PartialEq, Eq)]
pub enum Dtype {
    BF16,
    F16,
    F32,
    I64,
    I32,
    U32,
    /// A type that is never loaded, with its name.
    Other(String),
}

/// A [`Dtype`] with the name as a sequence of characters.
pub enum DtypeView {
    BF16,
    F16,
    F32,
    I64,
    I32,
    U32,
    Other(Seq<char>),
}

impl View for Dtype {
    type V = DtypeView;

    open spec fn view(&self) -> DtypeView {
        match *self {
            Dtype::BF16 => DtypeView::BF16,
            Dtype::F16 => DtypeView::F16,
            Dtype::F32 => DtypeView::F32,
            Dtype::I64 => DtypeView::I64,
            Dtype::I32 => DtypeView::I32,
            Dtype::U32 => DtypeView::U32,
            Dtype::Other(name) => DtypeView::Other(name@),
        }
    }
}

impl DtypeView {
    /// The name that messages use.
    pub open spec fn name(self) -> Seq<char> {
        match self {
            DtypeView::BF16 => "BF16"@,
            DtypeView::F16 => "F16"@,
            DtypeView::F32 => "F32"@,
            DtypeView::I64 => "I64"@,
            DtypeView::I32 => "I32"@,
            DtypeView::U32 => "U32"@,
            DtypeView::Other(name) => name,
        }
    }

    /// The bytes of one element, for a type that can be loaded.
    pub open spec fn width(self) -> Option<nat> {
        match self {
            DtypeView::BF16 | DtypeView::F16 => Some(2),
            DtypeView::F32 | DtypeView::I32 | DtypeView::U32 => Some(4),
            DtypeView::I64 => Some(8),
            DtypeView::Other(_) => None,
        }
    }
}

impl Dtype {
    /// The name that messages use.
    pub fn name(&self) -> (r: &str)
        ensures
            r@ == self@.name(),
    {
        match self {
            Dtype::BF16 => "BF16",
            Dtype::F16 => "F16",
            Dtype::F32 => "F32",
            Dtype::I64 => "I64",
            Dtype::I32 => "I32",
            Dtype::U32 => "U32",
            Dtype::Other(name) => name.as_str(),
        }
    }
}

/// The number of elements of a tensor of the given shape.
pub open spec fn element_count(shape: Seq<usize>) -> nat
    decreases shape.len(),
{
    if shape.len() == 0 {
        1
    } else {
        element_count(shape.drop_last()) * shape.last() as nat
    }
}

/// A tensor of a file: element type, shape and raw little-endian bytes.
#[verifier::ext_equal]
pub struct TensorInfo {
    pub dtype: DtypeView,
    pub shape: Seq<usize>,
    pub data: Seq<u8>,
}

impl TensorInfo {
    /// The bytes are those of the elements, and the number of their bits is a
    /// `usize`; of a type that is never loaded nothing is asked.
    pub open spec fn wf(self) -> bool {
        self.dtype.width() matches Some(width) ==> {
            &&& element_count(self.shape) * width == self.data.len()
            &&& self.data.len() * 8 <= usize::MAX
        }
    }
}

/// A borrowed tensor of a file.
#[derive(Debug)]
pub struct TensorView<'a> {
    pub dtype: Dtype,
    pub shape: Vec<usize>,
    pub data: &'a [u8],
}

impl<'a> View for TensorView<'a> {
    type V = TensorInfo;

    open spec fn view(&self) -> TensorInfo {
        TensorInfo { dtype: self.dtype@, shape: self.shape@, data: self.data@ }
    }
}

/// The elements of a tensor. Floating-point numbers are held as bit patterns.
#[derive(Debug, PartialEq, Eq)]
pub enum TensorValues {
    BF16(Vec<u16>),
    F16(Vec<u16>),
    F32(Vec<u32>),
    I64(Vec<i64>),
    I32(Vec<i32>),
}

/// [`TensorValues`] as sequences.
#[verifier::ext_equal]
pub enum ValuesView {
    BF16(Seq<u16>),
    F16(Seq<u16>),
    F32(Seq<u32>),
    I64(Seq<i64>),
    I32(Seq<i32>),
}

impl View for TensorValues {
    type V = ValuesView;

    open spec fn view(&self) -> ValuesView {
        match *self {
            TensorValues::BF16(v) => ValuesView::BF16(v@),
            TensorValues::F16(v) => ValuesView::F16(v@),
            TensorValues::F32(v) => ValuesView::F32(v@),
            TensorValues::I64(v) => ValuesView::I64(v@),
            TensorValues::I32(v) => ValuesView::I32(v@),
        }
    }
}

impl ValuesView {
    /// The number of elements.
    pub open spec fn len(self) -> nat {
        match self {
            ValuesView::BF16(v) => v.len(),
            ValuesView::F16(v) => v.len(),
            ValuesView::F32(v) => v.len(),
            ValuesView::I64(v) => v.len(),
            ValuesView::I32(v) => v.len(),
        }
    }
}

/// A decoded tensor: its elements in row-major order, and its shape.
#[derive(Debug, PartialEq, Eq)]
pub struct Tensor {
    pub values: TensorValues,
    pub shape: Vec<i64>,
}

/// A [`Tensor`] as sequences.
#[verifier::ext_equal]
pub struct TensorContents {
    pub values: ValuesView,
    pub shape: Seq<i64>,
}

impl View for Tensor {
    type V = TensorContents;

    open spec fn view(&self) -> TensorContents {
        TensorContents { values: self.values@, shape: self.shape@ }
    }
}

/// A tensor's view holds its elements, of the same type, and its shape.
pub proof fn law_tensor_view(tensor: Tensor)
    ensures
        tensor@.shape == tensor.shape@,
        tensor.values matches TensorValues::BF16(v) ==> tensor@.values == ValuesView::BF16(v@),
        tensor.values matches TensorValues::F16(v) ==> tensor@.values == ValuesView::F16(v@),
        tensor.values matches TensorValues::F32(v) ==> tensor@.values == ValuesView::F32(v@),
        tensor.values matches TensorValues::I64(v) ==> tensor@.values == ValuesView::I64(v@),
        tensor.values matches TensorValues::I32(v) ==> tensor@.values == ValuesView::I32(v@),
{
}

/// The view of a stored tensor holds its element type, its shape and its bytes.
pub proof fn law_stored_view(view: TensorView<'_>)
    ensures
        view@.dtype == view.dtype@,
        view@.shape == view.shape@,
        view@.data == view.data@,
{
}

/// The view of an element type tells the types apart, and keeps the name of one
/// that is never loaded.
pub proof fn law_dtype_view(dtype: Dtype)
    ensures
        dtype is BF16 <==> dtype@ is BF16,
        dtype is F16 <==> dtype@ is F16,
        dtype is F32 <==> dtype@ is F32,
        dtype is I64 <==> dtype@ is I64,
        dtype is I32 <==> dtype@ is I32,
        dtype is U32 <==> dtype@ is U32,
        dtype matches Dtype::Other(name) ==> dtype@ == DtypeView::Other(name@),
{
}

/// Messages name each element type, and one that is never loaded by its own
/// name.
pub proof fn law_dtype_names(name: Seq<char>)
    ensures
        DtypeView::BF16.name() == "BF16"@,
        DtypeView::F16.name() == "F16"@,
        DtypeView::F32.name() == "F32"@,
        DtypeView::I64.name() == "I64"@,
        DtypeView::I32.name() == "I32"@,
        DtypeView::U32.name() == "U32"@,
        DtypeView::Other(name).name() == name,
{
}

/// The number of elements of a shape is the product over any two parts of it.
pub proof fn law_element_count_splits(a: Seq<usize>, b: Seq<usize>, d: usize)
    ensures
        element_count(Seq::empty()) == 1,
        element_count(seq![d]) == d,
        element_count(a + b) == element_count(a) * element_count(b),
    decreases b.len(),
{
    reveal_with_fuel(element_count, 2);
    assert(seq![d].drop_last() =~= Seq::empty());
    assert(1 * d == d);
    if b.len() == 0 {
        assert(a + b =~= a);
        assert(element_count(a) * 1 == element_count(a));
    } else {
        law_element_count_splits(a, b.drop_last(), d);
        assert((a + b).drop_last() =~= a + b.drop_last());
        let x = element_count(a);
        let y = element_count(b.drop_last());
        let z = b.last() as nat;
        assert((x * y) * z == x * (y * z)) by (nonlinear_arith);
    }
}

/// A well-formed tensor has two bytes for each 16-bit element, four for each
/// 32-bit element and eight for each 64-bit element.
pub proof fn law_wf_bytes(info: TensorInfo)
    requires
        info.wf(),
    ensures
        info.dtype is BF16 || info.dtype is F16 ==> info.data.len() == 2 * element_count(
            info.shape,
        ),
        info.dtype is F32 || info.dtype is I32 || info.dtype is U32 ==> info.data.len() == 4
            * element_count(info.shape),
        info.dtype is I64 ==> info.data.len() == 8 * element_count(info.shape),
{
    let n = element_count(info.shape);
    match info.dtype {
        DtypeView::BF16 | DtypeView::F16 => {
            assert(info.data.len() == n * 2);
        },
        DtypeView::F32 | DtypeView::I32 | DtypeView::U32 => {
            assert(info.data.len() == n * 4);
        },
        DtypeView::I64 => {
            assert(info.data.len() == n * 8);
        },
        DtypeView::Other(_) => {},
    }
}

} // verus!
