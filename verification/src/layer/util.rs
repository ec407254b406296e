//! Zero padding.
//!
//! `add_padding` reads a tensor as depth, height and width, and pads the
//! last two axes. The layers read a tensor as height, width and channels;
//! they pad through `pad_plane`, which pads the first two axes. Either way
//! the data keeps its indices and the zeros lie behind it.

use crate::tensor::{can_allocate, inside, shape_fits, Tensor, TensorView};
use vstd::prelude::*;

verus! {

/// The shape of a tensor of shape `dims` after padding: the second axis
/// grows by `padding.0` and the third by `padding.1`; the first axis, the
/// depth in the reading of this module, is never padded.
pub open spec fn padded_dims(dims: (usize, usize, usize), padding: (usize, usize)) -> (usize, usize, usize) {
    (dims.0, (dims.1 + padding.0) as usize, (dims.2 + padding.1) as usize)
}

/// Whether a tensor of shape `dims` can be padded: the padded axis lengths
/// are representable and the padded shape can be allocated.
pub open spec fn can_pad(dims: (usize, usize, usize), padding: (usize, usize)) -> bool {
    &&& dims.1 + padding.0 <= usize::MAX
    &&& dims.2 + padding.1 <= usize::MAX
    &&& shape_fits(padded_dims(dims, padding))
}

/// A tensor of shape `dims` that holds the scalars of `t` at their own
/// indices and zero at every index that `t` does not have. The data starts
/// at index `(0, 0, 0)`, so that all the zeros lie behind it.
pub open spec fn extended(t: TensorView, dims: (usize, usize, usize)) -> TensorView {
    TensorView {
        dims,
        cells: Map::new(
            |idx: (int, int, int)| inside(dims, idx.0, idx.1, idx.2),
            |idx: (int, int, int)|
                if inside(t.dims, idx.0, idx.1, idx.2) {
                    t.cells[idx]
                } else {
                    0u32
                },
        ),
    }
}

/// The padded tensor: the scalars of `t` at their own indices, and zero at
/// every index that `t` does not have. All padding lies behind the data.
pub open spec fn padded(t: TensorView, padding: (usize, usize)) -> TensorView {
    extended(t, padded_dims(t.dims, padding))
}

/// The shape of a tensor of shape `dims` after padding as the layers pad:
/// the height, which is the first axis, grows by `padding.0` and the width,
/// which is the second, by `padding.1`; the third axis holds the channels
/// and is never padded.
pub open spec fn plane_padded_dims(dims: (usize, usize, usize), padding: (usize, usize)) -> (usize, usize, usize) {
    ((dims.0 + padding.0) as usize, (dims.1 + padding.1) as usize, dims.2)
}

/// Whether a tensor of shape `dims` can be padded as the layers pad: the
/// padded axis lengths are representable and the padded shape can be
/// allocated.
pub open spec fn can_pad_plane(dims: (usize, usize, usize), padding: (usize, usize)) -> bool {
    &&& dims.0 + padding.0 <= usize::MAX
    &&& dims.1 + padding.1 <= usize::MAX
    &&& shape_fits(plane_padded_dims(dims, padding))
}

/// The tensor padded as the layers pad: the scalars of `t` at their own
/// indices, and zero behind them along height and width.
pub open spec fn plane_padded(t: TensorView, padding: (usize, usize)) -> TensorView {
    extended(t, plane_padded_dims(t.dims, padding))
}

/// Whether a shape can be allocated, and the shape itself where it can.
fn allocatable(dims: (usize, usize, usize)) -> (r: Option<(usize, usize, usize)>)
    ensures
        r is Some <==> shape_fits(dims),
        r is Some ==> r->Some_0 == dims,
{
    if can_allocate(dims) {
        Some(dims)
    } else {
        None
    }
}

/// A tensor of shape `dims` with the scalars of `input` at their own
/// indices and zero everywhere else. The copy starts at index `(0, 0, 0)`.
fn extend(input: &Tensor, dims: (usize, usize, usize)) -> (r: Tensor)
    requires
        shape_fits(dims),
        input@.dims.0 <= dims.0,
        input@.dims.1 <= dims.1,
        input@.dims.2 <= dims.2,
    ensures
        r@ == extended(input@, dims),
{
    let mut output = Tensor::filled_with_zero(dims);
    output.overlay((0, 0, 0), input.dim(), input);
    assert(output@.cells =~= extended(input@, dims).cells);
    output
}

/// The shape after padding, where a tensor of shape `dims` can be padded.
pub fn padded_shape(dims: (usize, usize, usize), padding: &(usize, usize)) -> (r: Option<(usize, usize, usize)>)
    ensures
        r is Some <==> can_pad(dims, *padding),
        r is Some ==> r->Some_0 == padded_dims(dims, *padding),
        r is Some ==> shape_fits(r->Some_0),
{
    match dims.1.checked_add(padding.0) {
        None => None,
        Some(height) => match dims.2.checked_add(padding.1) {
            None => None,
            Some(width) => allocatable((dims.0, height, width)),
        },
    }
}

/// A tensor enlarged by `padding.0` along its second axis and by `padding.1`
/// along its third, with the scalars of `input` at their own indices and
/// zero everywhere else.
pub fn add_padding(input: &Tensor, padding: &(usize, usize)) -> (r: Tensor)
    requires
        can_pad(input@.dims, *padding),
    ensures
        r@ == padded(input@, *padding),
{
    let (depth, height, width) = input.dim();
    extend(input, (depth, height + padding.0, width + padding.1))
}

/// The shape after padding as the layers pad, where a tensor of shape
/// `dims` can be padded so.
pub fn plane_padded_shape(dims: (usize, usize, usize), padding: &(usize, usize)) -> (r: Option<(usize, usize, usize)>)
    ensures
        r is Some <==> can_pad_plane(dims, *padding),
        r is Some ==> r->Some_0 == plane_padded_dims(dims, *padding),
        r is Some ==> shape_fits(r->Some_0),
{
    match dims.0.checked_add(padding.0) {
        None => None,
        Some(height) => match dims.1.checked_add(padding.1) {
            None => None,
            Some(width) => allocatable((height, width, dims.2)),
        },
    }
}

/// A tensor enlarged by `padding.0` along its height and by `padding.1`
/// along its width, with the scalars of `input` at their own indices and
/// zero everywhere else. The channels stay as they are.
pub fn pad_plane(input: &Tensor, padding: &(usize, usize)) -> (r: Tensor)
    requires
        can_pad_plane(input@.dims, *padding),
    ensures
        r@ == plane_padded(input@, *padding),
{
    let (height, width, channels) = input.dim();
    extend(input, (height + padding.0, width + padding.1, channels))
}

/// Padding by nothing changes nothing, whichever axes are padded.
pub proof fn lemma_padding_by_nothing(t: TensorView)
    requires
        t.well_formed(),
    ensures
        padded(t, (0usize, 0usize)) == t,
        plane_padded(t, (0usize, 0usize)) == t,
{
    let p = extended(t, t.dims);
    assert forall|idx: (int, int, int)| p.cells.dom().contains(idx) <==> t.cells.dom().contains(
        idx,
    ) by {
        assert(t.cells.dom().contains((idx.0, idx.1, idx.2)) <==> inside(
            t.dims,
            idx.0,
            idx.1,
            idx.2,
        ));
    }
    assert(p.cells =~= t.cells);
}

} // verus!
