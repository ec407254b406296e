//! The sequential pipeline: layers applied one after another.

use crate::arithmetic::{deterministic, total, Operation};
use crate::layer::{
    incorrect_dimensions, lemma_outcome_follows_shape, lemma_outcome_is_unique, outcome_of, Layer,
    LayerError,
};
use crate::tensor::{can_allocate, shape_fits, Tensor, TensorView};
use vstd::prelude::*;

verus! {

/// `steps` records a run of the first `n` of `layers` on `input`: it starts
/// with `input`, and every one of those layers succeeds on the tensor
/// before it and returns the tensor after it.
pub open spec fn is_run<F: Fn(Operation) -> u32>(
    layers: Seq<Layer>,
    eval: &F,
    input: TensorView,
    n: int,
    steps: Seq<TensorView>,
) -> bool {
    &&& 0 <= n <= layers.len()
    &&& steps.len() == n + 1
    &&& steps[0] == input
    &&& forall|i: int|
        0 <= i < n ==> (#[trigger] layers[i]).outcome(eval, steps[i], Ok(steps[i + 1]))
}

/// What a forward pass through `layers` may return.
///
/// A tensor is returned at the end of a run of all layers, in which every
/// layer has succeeded in turn on what the one before it returned. An error
/// is the error of the first layer that failed, at the end of a run of the
/// layers before it, handed on as it is; no layer behind that one has any
/// part in the result.
pub open spec fn pipeline_outcome<F: Fn(Operation) -> u32>(
    layers: Seq<Layer>,
    eval: &F,
    input: TensorView,
    result: Result<TensorView, LayerError>,
) -> bool {
    match result {
        Ok(t) => exists|steps: Seq<TensorView>| #[trigger]
            is_run(layers, eval, input, layers.len() as int, steps) && steps.last() == t,
        Err(e) => exists|n: int, steps: Seq<TensorView>|
            n < layers.len() && #[trigger] is_run(layers, eval, input, n, steps)
                && layers[n].outcome(eval, steps.last(), Err(e)),
    }
}

/// The shape of the tensor that the first `n` of `layers` hand on when they
/// are given an input of shape `dims` and none of them fails.
pub open spec fn shape_after(layers: Seq<Layer>, dims: (usize, usize, usize), n: int) -> (usize, usize, usize)
    decreases n,
{
    if n <= 0 {
        dims
    } else {
        layers[n - 1].output_shape(shape_after(layers, dims, n - 1))
    }
}

/// In a run, every tensor has the shape that the layers before it give to
/// an input of the shape of `input`, and every layer has taken the shape
/// that it was handed.
pub proof fn lemma_run_follows_shapes<F: Fn(Operation) -> u32>(
    layers: Seq<Layer>,
    eval: &F,
    input: TensorView,
    n: int,
    steps: Seq<TensorView>,
)
    requires
        is_run(layers, eval, input, n, steps),
    ensures
        forall|i: int| 0 <= i <= n ==> (#[trigger] steps[i]).dims == shape_after(layers, input.dims, i),
        forall|i: int|
            0 <= i < n ==> (#[trigger] layers[i]).accepts(shape_after(layers, input.dims, i)),
    decreases n,
{
    if n > 0 {
        let shorter = steps.drop_last();
        assert(is_run(layers, eval, input, n - 1, shorter)) by {
            assert forall|i: int| 0 <= i < n - 1 implies (#[trigger] layers[i]).outcome(
                eval,
                shorter[i],
                Ok(shorter[i + 1]),
            ) by {
                assert(layers[i].outcome(eval, steps[i], Ok(steps[i + 1])));
            }
        }
        lemma_run_follows_shapes(layers, eval, input, n - 1, shorter);
        assert(layers[n - 1].outcome(eval, steps[n - 1], Ok(steps[n])));
        lemma_outcome_follows_shape(layers[n - 1], eval, steps[n - 1], Ok(steps[n]));
        assert(steps[n - 1] == shorter[n - 1]);
        assert forall|i: int| 0 <= i <= n implies (#[trigger] steps[i]).dims == shape_after(
            layers,
            input.dims,
            i,
        ) by {
            if i < n {
                assert(steps[i] == shorter[i]);
            }
        }
    }
}

/// A pass that returns a tensor has handed every layer a shape that the
/// layer takes, and the tensor has the shape that all layers together give
/// to the shape of the input.
pub proof fn lemma_success_follows_shapes<F: Fn(Operation) -> u32>(
    layers: Seq<Layer>,
    eval: &F,
    input: TensorView,
    output: TensorView,
)
    requires
        pipeline_outcome(layers, eval, input, Ok(output)),
    ensures
        output.dims == shape_after(layers, input.dims, layers.len() as int),
        forall|i: int|
            0 <= i < layers.len() ==> (#[trigger] layers[i]).accepts(
                shape_after(layers, input.dims, i),
            ),
{
    let steps = choose|steps: Seq<TensorView>| #[trigger]
        is_run(layers, eval, input, layers.len() as int, steps) && steps.last() == output;
    lemma_run_follows_shapes(layers, eval, input, layers.len() as int, steps);
}

/// A pass fails fast. Where layer `n` does not take the shape that the
/// layers before it hand on, every pass fails; the error is that of layer
/// `n` or of a layer before it, so that no layer behind `n` has any part in
/// it. Where no layer before `n` is a pooling layer, the error is
/// `IncorrectDimensions` and names the shape that one of those layers
/// expects.
pub proof fn lemma_rejected_shape_fails<F: Fn(Operation) -> u32>(
    layers: Seq<Layer>,
    eval: &F,
    input: TensorView,
    n: int,
    result: Result<TensorView, LayerError>,
)
    requires
        0 <= n < layers.len(),
        !layers[n].accepts(shape_after(layers, input.dims, n)),
        pipeline_outcome(layers, eval, input, result),
    ensures
        result is Err,
        exists|m: int, steps: Seq<TensorView>|
            0 <= m <= n && #[trigger] is_run(layers, eval, input, m, steps) && layers[m].outcome(
                eval,
                steps.last(),
                Err(result->Err_0),
            ),
        (forall|m: int| 0 <= m < n ==> !((#[trigger] layers[m]) is MaxPool2d)) ==> exists|m: int|
            0 <= m <= n && result->Err_0 == incorrect_dimensions(
                (#[trigger] layers[m]).expected_input(),
            ),
{
    match result {
        Ok(output) => {
            lemma_success_follows_shapes(layers, eval, input, output);
            assert(layers[n].accepts(shape_after(layers, input.dims, n)));
        },
        Err(e) => {
            let (m, steps) = choose|m: int, steps: Seq<TensorView>|
                m < layers.len() && #[trigger] is_run(layers, eval, input, m, steps)
                    && layers[m].outcome(eval, steps.last(), Err(e));
            lemma_run_follows_shapes(layers, eval, input, m, steps);
            if m > n {
                assert(layers[n].accepts(shape_after(layers, input.dims, n)));
            }
            lemma_outcome_follows_shape(layers[m], eval, steps.last(), Err(e));
            assert(steps.last() == steps[m]);
            if forall|k: int| 0 <= k < n ==> !((#[trigger] layers[k]) is MaxPool2d) {
                if e is UndefinedOrder {
                    assert(layers[m] is MaxPool2d);
                    assert(layers[m].accepts(shape_after(layers, input.dims, m)));
                    assert(m < n);
                }
            }
        },
    }
}

/// With an arithmetic function that is a function, two runs on one input
/// agree on every tensor that both of them hold.
pub proof fn lemma_runs_agree<F: Fn(Operation) -> u32>(
    layers: Seq<Layer>,
    eval: &F,
    input: TensorView,
    m: int,
    first: Seq<TensorView>,
    n: int,
    second: Seq<TensorView>,
    i: int,
)
    requires
        deterministic(eval),
        is_run(layers, eval, input, m, first),
        is_run(layers, eval, input, n, second),
        0 <= i <= m,
        i <= n,
    ensures
        first[i] == second[i],
    decreases i,
{
    if i > 0 {
        lemma_runs_agree(layers, eval, input, m, first, n, second, i - 1);
        assert(layers[i - 1].outcome(eval, first[i - 1], Ok(first[i])));
        assert(layers[i - 1].outcome(eval, second[i - 1], Ok(second[i])));
        lemma_outcome_is_unique(layers[i - 1], eval, first[i - 1], Ok(first[i]), Ok(second[i]));
    }
}

/// With an arithmetic function that is a function, a forward pass through a
/// pipeline has one result: the contract of the pass leaves nothing open.
pub proof fn lemma_pipeline_is_unique<F: Fn(Operation) -> u32>(
    layers: Seq<Layer>,
    eval: &F,
    input: TensorView,
    first: Result<TensorView, LayerError>,
    second: Result<TensorView, LayerError>,
)
    requires
        deterministic(eval),
        pipeline_outcome(layers, eval, input, first),
        pipeline_outcome(layers, eval, input, second),
    ensures
        first == second,
{
    let len = layers.len() as int;
    match (first, second) {
        (Ok(a), Ok(b)) => {
            let p = choose|steps: Seq<TensorView>| #[trigger]
                is_run(layers, eval, input, len, steps) && steps.last() == a;
            let q = choose|steps: Seq<TensorView>| #[trigger]
                is_run(layers, eval, input, len, steps) && steps.last() == b;
            lemma_runs_agree(layers, eval, input, len, p, len, q, len);
        },
        (Ok(a), Err(e)) => {
            let p = choose|steps: Seq<TensorView>| #[trigger]
                is_run(layers, eval, input, len, steps) && steps.last() == a;
            let (n, q) = choose|n: int, steps: Seq<TensorView>|
                n < layers.len() && #[trigger] is_run(layers, eval, input, n, steps)
                    && layers[n].outcome(eval, steps.last(), Err(e));
            lemma_runs_agree(layers, eval, input, len, p, n, q, n);
            assert(layers[n].outcome(eval, p[n], Ok(p[n + 1])));
            lemma_outcome_is_unique(layers[n], eval, p[n], Ok(p[n + 1]), Err(e));
        },
        (Err(e), Ok(b)) => {
            let q = choose|steps: Seq<TensorView>| #[trigger]
                is_run(layers, eval, input, len, steps) && steps.last() == b;
            let (m, p) = choose|m: int, steps: Seq<TensorView>|
                m < layers.len() && #[trigger] is_run(layers, eval, input, m, steps)
                    && layers[m].outcome(eval, steps.last(), Err(e));
            lemma_runs_agree(layers, eval, input, len, q, m, p, m);
            assert(layers[m].outcome(eval, q[m], Ok(q[m + 1])));
            lemma_outcome_is_unique(layers[m], eval, q[m], Ok(q[m + 1]), Err(e));
        },
        (Err(e), Err(f)) => {
            let (m, p) = choose|m: int, steps: Seq<TensorView>|
                m < layers.len() && #[trigger] is_run(layers, eval, input, m, steps)
                    && layers[m].outcome(eval, steps.last(), Err(e));
            let (n, q) = choose|n: int, steps: Seq<TensorView>|
                n < layers.len() && #[trigger] is_run(layers, eval, input, n, steps)
                    && layers[n].outcome(eval, steps.last(), Err(f));
            if m < n {
                lemma_runs_agree(layers, eval, input, m, p, n, q, m);
                assert(layers[m].outcome(eval, q[m], Ok(q[m + 1])));
                lemma_outcome_is_unique(layers[m], eval, q[m], Ok(q[m + 1]), Err(e));
            } else if n < m {
                lemma_runs_agree(layers, eval, input, m, p, n, q, n);
                assert(layers[n].outcome(eval, p[n], Ok(p[n + 1])));
                lemma_outcome_is_unique(layers[n], eval, p[n], Ok(p[n + 1]), Err(f));
            } else {
                lemma_runs_agree(layers, eval, input, m, p, n, q, m);
                lemma_outcome_is_unique(layers[m], eval, p[m], Err(e), Err(f));
            }
        },
    }
}

/// An ordered list of named layers.
pub struct SequentialModel {
    layers: Vec<Layer>,
    layer_names: Vec<String>,
}

impl SequentialModel {
    /// The layers, in the order in which they were pushed.
    pub closed spec fn layers(self) -> Seq<Layer> {
        self.layers@
    }

    /// The names of the layers, in the order in which they were pushed.
    pub closed spec fn layer_names(self) -> Seq<String> {
        self.layer_names@
    }

    /// A pipeline without layers. `layers_size` is the number of layers that
    /// the caller means to push; the pipeline takes any number.
    pub fn new(layers_size: usize) -> (r: Self)
        ensures
            r.layers() == Seq::<Layer>::empty(),
            r.layer_names() == Seq::<String>::empty(),
    {
        SequentialModel { layers: Vec::new(), layer_names: Vec::new() }
    }

    /// Appends a layer and its name. The layer is not checked against the
    /// layers before it: a mismatch shows when a forward pass is made.
    pub fn push_layer(&mut self, layer_name: String, layer: Layer)
        ensures
            final(self).layers() == old(self).layers().push(layer),
            final(self).layer_names() == old(self).layer_names().push(layer_name),
    {
        self.layers.push(layer);
        self.layer_names.push(layer_name);
    }

    /// The shape of what the pipeline makes of an input of shape
    /// `input_dim`, where there can be an input of that shape and every
    /// layer takes the shape that the layers before it hand on.
    pub fn output_dim(&self, input_dim: (usize, usize, usize)) -> (r: Option<(usize, usize, usize)>)
        ensures
            r is Some <==> shape_fits(input_dim) && forall|i: int|
                0 <= i < self.layers().len() ==> (#[trigger] self.layers()[i]).accepts(
                    shape_after(self.layers(), input_dim, i),
                ),
            r is Some ==> r->Some_0 == shape_after(
                self.layers(),
                input_dim,
                self.layers().len() as int,
            ),
    {
        if !can_allocate(input_dim) {
            return None;
        }
        let mut shape = input_dim;
        let mut n: usize = 0;
        while n < self.layers.len()
            invariant
                n <= self.layers.len(),
                shape_fits(input_dim),
                shape_fits(shape),
                shape == shape_after(self.layers@, input_dim, n as int),
                forall|i: int|
                    0 <= i < n ==> (#[trigger] self.layers@[i]).accepts(
                        shape_after(self.layers@, input_dim, i),
                    ),
            decreases self.layers.len() - n,
        {
            match self.layers[n].output_dim(shape) {
                Some(next) => {
                    shape = next;
                },
                None => {
                    assert(!self.layers()[n as int].accepts(
                        shape_after(self.layers(), input_dim, n as int),
                    ));
                    return None;
                },
            }
            n += 1;
        }
        Some(shape)
    }

    /// A forward pass through all layers in order. The same as `forward`.
    pub fn predict<F: Fn(Operation) -> u32>(&self, input: &Tensor, eval: &F) -> (r: Result<Tensor, LayerError>)
        requires
            total(eval),
        ensures
            pipeline_outcome(self.layers(), eval, input@, outcome_of(r)),
    {
        self.forward(input, eval)
    }

    /// A forward pass through all layers in order: every layer takes what
    /// the layer before it returned, and the first error ends the pass.
    pub fn forward<F: Fn(Operation) -> u32>(&self, input: &Tensor, eval: &F) -> (r: Result<Tensor, LayerError>)
        requires
            total(eval),
        ensures
            pipeline_outcome(self.layers(), eval, input@, outcome_of(r)),
    {
        let mut result = input.duplicate();
        let ghost mut steps = seq![input@];
        let mut n: usize = 0;
        while n < self.layers.len()
            invariant
                total(eval),
                n <= self.layers.len(),
                is_run(self.layers@, eval, input@, n as int, steps),
                steps.last() == result@,
            decreases self.layers.len() - n,
        {
            match self.layers[n].forward(&result, eval) {
                Ok(next) => {
                    proof {
                        steps = steps.push(next@);
                    }
                    result = next;
                },
                Err(e) => {
                    return Err(e);
                },
            }
            n += 1;
        }
        Ok(result)
    }
}

} // verus!
