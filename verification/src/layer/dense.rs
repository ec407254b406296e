//! The fully connected layer.

use crate::activation::{
    activate, is_activated, is_softmax, lemma_activated_is_unique, lemma_softmax_is_unique, softmax,
    ActivationFunctionType,
};
use crate::arithmetic::{
    deterministic, dot, is_dot_product, lemma_dot_product_is_unique, same_operation, total, yields,
    Operation,
};
use crate::layer::{incorrect_dimensions, outcome_of, LayerError};
use crate::tensor::{lemma_from_flat_of_flat, Tensor, TensorView};
use vstd::pervasive::unreached;
use vstd::prelude::*;

verus! {

/// The decimal digit of a number below ten.
pub open spec fn digit(d: nat) -> char {
    if d == 0 {
        '0'
    } else if d == 1 {
        '1'
    } else if d == 2 {
        '2'
    } else if d == 3 {
        '3'
    } else if d == 4 {
        '4'
    } else if d == 5 {
        '5'
    } else if d == 6 {
        '6'
    } else if d == 7 {
        '7'
    } else if d == 8 {
        '8'
    } else {
        '9'
    }
}

/// The decimal digits of a number, the most significant first, without
/// leading zeros.
pub open spec fn decimal(n: nat) -> Seq<char>
    decreases n,
{
    if n < 10 {
        seq![digit(n)]
    } else {
        decimal(n / 10).push(digit(n % 10))
    }
}

/// A shape as text: its three axis lengths in decimal, in parentheses,
/// with a comma and a space between them.
pub open spec fn shape_text(dims: (usize, usize, usize)) -> Seq<char> {
    seq!['('] + decimal(dims.0 as nat) + seq![',', ' '] + decimal(dims.1 as nat) + seq![',', ' ']
        + decimal(dims.2 as nat) + seq![')']
}

/// Appends the decimal digits of `n` to `text`.
fn push_decimal(text: &mut String, n: usize)
    ensures
        final(text)@ == old(text)@ + decimal(n as nat),
    decreases n,
{
    if n >= 10 {
        push_decimal(text, n / 10);
    }
    let last = n % 10;
    proof {
        reveal_strlit("0");
        reveal_strlit("1");
        reveal_strlit("2");
        reveal_strlit("3");
        reveal_strlit("4");
        reveal_strlit("5");
        reveal_strlit("6");
        reveal_strlit("7");
        reveal_strlit("8");
        reveal_strlit("9");
    }
    let digits = if last == 0 {
        "0"
    } else if last == 1 {
        "1"
    } else if last == 2 {
        "2"
    } else if last == 3 {
        "3"
    } else if last == 4 {
        "4"
    } else if last == 5 {
        "5"
    } else if last == 6 {
        "6"
    } else if last == 7 {
        "7"
    } else if last == 8 {
        "8"
    } else {
        "9"
    };
    assert(digits@ =~= seq![digit(last as nat)]);
    text.append(digits);
    assert(text@ =~= old(text)@ + decimal(n as nat));
}

/// The input of a layer does not have the dimensions that the layer needs.
#[derive(Debug, PartialEq, Eq, Copy, Clone)]
pub struct InvalidDimensionsError {
    /// The shape of the input that the layer expects.
    pub expected: (usize, usize, usize),
}

impl InvalidDimensionsError {
    /// The text of `message`: what went wrong, and the expected shape.
    pub open spec fn text(self) -> Seq<char> {
        "Dimensions should match for forwarding: expected "@ + shape_text(self.expected)
    }

    /// The text that describes the error. It ends with the shape that the
    /// layer expects.
    pub fn message(&self) -> (r: String)
        ensures
            r@ == self.text(),
    {
        let mut text = "Dimensions should match for forwarding: expected ".to_owned();
        proof {
            reveal_strlit("(");
            reveal_strlit(", ");
            reveal_strlit(")");
        }
        text.append("(");
        push_decimal(&mut text, self.expected.0);
        text.append(", ");
        push_decimal(&mut text, self.expected.1);
        text.append(", ");
        push_decimal(&mut text, self.expected.2);
        text.append(")");
        assert(text@ =~= self.text());
        text
    }
}

/// A fully connected layer: `weights · input + bias`, followed by an
/// activation.
///
/// The input is a vector of `input_size` scalars along the second axis of a
/// tensor of shape `(1, input_size, n)`, at index 0 of the third axis. The
/// weights have the shape `(input_size, output_size, 1)` and the bias the
/// shape `(1, output_size, 1)`.
pub struct DenseLayer {
    pub input_size: usize,
    pub output_size: usize,
    pub weights: Tensor,
    pub bias: Tensor,
    pub activation_function: ActivationFunctionType,
}

impl DenseLayer {
    /// Whether the layer can be applied to an input of shape `dims`: the
    /// input holds a vector of `input_size` scalars, and weights and bias
    /// have their shapes.
    pub open spec fn accepts(self, dims: (usize, usize, usize)) -> bool {
        &&& dims.0 == 1
        &&& dims.1 == self.input_size
        &&& dims.2 >= 1
        &&& self.weights@.dims == (self.input_size, self.output_size, 1usize)
        &&& self.bias@.dims == (1usize, self.output_size, 1usize)
    }

    /// The shape of input that the layer expects: one vector of `input_size`
    /// scalars.
    pub open spec fn expected_input(self) -> (usize, usize, usize) {
        (1usize, self.input_size, 1usize)
    }

    /// The vector that the layer reads from `input`.
    pub open spec fn input_vector(self, input: TensorView) -> Seq<u32> {
        Seq::new(self.input_size as nat, |i: int| input.at(0, i, 0))
    }

    /// The weights that lead to output `j`.
    pub open spec fn weight_column(self, j: int) -> Seq<u32> {
        Seq::new(self.input_size as nat, |i: int| self.weights@.at(i, j, 0))
    }

    /// `raw` is output `j` before the activation: the dot product of the
    /// input vector with the weights of `j`, plus the bias of `j`.
    pub open spec fn is_affine<F: Fn(Operation) -> u32>(
        self,
        eval: &F,
        input: TensorView,
        j: int,
        raw: u32,
    ) -> bool {
        exists|d: u32| #[trigger]
            is_dot_product(eval, self.input_vector(input), self.weight_column(j), d) && yields(
                eval,
                Operation::Add(d, self.bias@.at(0, j, 0)),
                raw,
            )
    }

    /// `partial` holds every output before the activation.
    pub open spec fn is_partial<F: Fn(Operation) -> u32>(
        self,
        eval: &F,
        input: TensorView,
        partial: Seq<u32>,
    ) -> bool {
        &&& partial.len() == self.output_size
        &&& forall|j: int|
            0 <= j < self.output_size ==> self.is_affine(eval, input, j, #[trigger] partial[j])
    }

    /// `out` is what the activation of the layer makes of `partial`: the
    /// softmax of all of it, or else the activation of each scalar.
    pub open spec fn is_output<F: Fn(Operation) -> u32>(
        self,
        eval: &F,
        partial: Seq<u32>,
        out: Seq<u32>,
    ) -> bool {
        if self.activation_function == ActivationFunctionType::Softmax {
            is_softmax(eval, partial, out)
        } else {
            &&& out.len() == partial.len()
            &&& forall|j: int|
                0 <= j < partial.len() ==> is_activated(
                    eval,
                    self.activation_function,
                    partial[j],
                    #[trigger] out[j],
                )
        }
    }

    /// What a forward pass on `input` may return.
    ///
    /// It fails, with `IncorrectDimensions`, exactly when the layer does not
    /// accept the shape of `input`; the error names the shape
    /// `(1, input_size, 1)` as expected. Otherwise the output has the shape
    /// `(1, output_size, 1)` and holds the activation of
    /// `weights · input + bias`.
    pub open spec fn outcome<F: Fn(Operation) -> u32>(
        self,
        eval: &F,
        input: TensorView,
        result: Result<TensorView, LayerError>,
    ) -> bool {
        match result {
            Err(e) => e == incorrect_dimensions(self.expected_input()) && !self.accepts(input.dims),
            Ok(out) => {
                &&& self.accepts(input.dims)
                &&& out.dims == (1usize, self.output_size, 1usize)
                &&& out.well_formed()
                &&& exists|partial: Seq<u32>| #[trigger]
                    self.is_partial(eval, input, partial) && self.is_output(
                        eval,
                        partial,
                        out.flat(),
                    )
            },
        }
    }

    /// A layer from `input_size` scalars to `output_size` scalars with the
    /// given weights and bias. The activation defaults to the identity.
    pub fn new(
        input_size: usize,
        output_size: usize,
        activation_function: Option<ActivationFunctionType>,
        weights: Tensor,
        bias: Tensor,
    ) -> (r: Self)
        ensures
            r.input_size == input_size,
            r.output_size == output_size,
            r.weights == weights,
            r.bias == bias,
            r.activation_function == match activation_function {
                Some(a) => a,
                None => ActivationFunctionType::Identity,
            },
    {
        DenseLayer {
            input_size,
            output_size,
            weights,
            bias,
            activation_function: match activation_function {
                Some(a) => a,
                None => ActivationFunctionType::Identity,
            },
        }
    }

    /// The activation that the layer applies to `weights · input + bias`.
    pub fn activation_function(&self) -> (r: ActivationFunctionType)
        ensures
            r == self.activation_function,
    {
        self.activation_function
    }

    /// Whether the layer can be applied to an input of shape `dims`.
    pub fn can_take(&self, dims: (usize, usize, usize)) -> (r: bool)
        ensures
            r == self.accepts(dims),
    {
        let (w0, w1, w2) = self.weights.dim();
        let (b0, b1, b2) = self.bias.dim();
        dims.0 == 1 && dims.1 == self.input_size && dims.2 >= 1 && w0 == self.input_size && w1
            == self.output_size && w2 == 1 && b0 == 1 && b1 == self.output_size && b2 == 1
    }

    /// `weights · input + bias`, output by output.
    fn affine<F: Fn(Operation) -> u32>(&self, input: &Tensor, eval: &F) -> (r: Vec<u32>)
        requires
            total(eval),
            self.accepts(input@.dims),
        ensures
            self.is_partial(eval, input@, r@),
    {
        let mut vector: Vec<u32> = Vec::new();
        let mut i: usize = 0;
        while i < self.input_size
            invariant
                self.accepts(input@.dims),
                i <= self.input_size,
                vector.len() == i,
                forall|m: int| 0 <= m < i ==> #[trigger] vector[m] == input@.at(0, m, 0),
            decreases self.input_size - i,
        {
            vector.push(input.get(0, i, 0));
            i += 1;
        }
        assert(vector@ =~= self.input_vector(input@));
        let mut partial: Vec<u32> = Vec::new();
        let mut j: usize = 0;
        while j < self.output_size
            invariant
                total(eval),
                self.accepts(input@.dims),
                vector@ == self.input_vector(input@),
                j <= self.output_size,
                partial.len() == j,
                forall|m: int| 0 <= m < j ==> self.is_affine(eval, input@, m, #[trigger] partial[m]),
            decreases self.output_size - j,
        {
            let mut column: Vec<u32> = Vec::new();
            let mut i: usize = 0;
            while i < self.input_size
                invariant
                    self.accepts(input@.dims),
                    j < self.output_size,
                    i <= self.input_size,
                    column.len() == i,
                    forall|m: int|
                        0 <= m < i ==> #[trigger] column[m] == self.weights@.at(m, j as int, 0),
                decreases self.input_size - i,
            {
                column.push(self.weights.get(i, j, 0));
                i += 1;
            }
            assert(column@ =~= self.weight_column(j as int));
            let d = dot(&vector, &column, eval);
            let raw = eval(Operation::Add(d, self.bias.get(0, j, 0)));
            assert(self.is_affine(eval, input@, j as int, raw));
            partial.push(raw);
            j += 1;
        }
        partial
    }

    /// Computes `weights · input + bias` and applies the activation: the
    /// softmax to the whole result, any other to each scalar of it.
    pub fn forward<F: Fn(Operation) -> u32>(&self, input: &Tensor, eval: &F) -> (r: Result<Tensor, LayerError>)
        requires
            total(eval),
        ensures
            self.outcome(eval, input@, outcome_of(r)),
    {
        if !self.can_take(input.dim()) {
            return Err(
                LayerError::IncorrectDimensions(
                    InvalidDimensionsError { expected: (1, self.input_size, 1) },
                ),
            );
        }
        let bias_shape = self.bias.dim();
        let partial_result = self.affine(input, eval);
        let ghost partial = partial_result@;
        let shape = bias_shape;
        assert(1 * self.output_size * 1 == self.output_size) by (nonlinear_arith);
        match self.activation_function {
            ActivationFunctionType::Softmax => {
                let scores = match Tensor::from_shape_vec(shape, partial_result) {
                    Some(scores) => scores,
                    None => unreached(),
                };
                let result = softmax(&scores, eval);
                assert(self.is_output(eval, partial, result@.flat()));
                Ok(result)
            },
            _ => {
                let mut out: Vec<u32> = Vec::new();
                let mut j: usize = 0;
                while j < partial_result.len()
                    invariant
                        total(eval),
                        self.activation_function != ActivationFunctionType::Softmax,
                        j <= partial_result.len(),
                        out.len() == j,
                        forall|m: int|
                            0 <= m < j ==> is_activated(
                                eval,
                                self.activation_function,
                                partial_result[m],
                                #[trigger] out[m],
                            ),
                    decreases partial_result.len() - j,
                {
                    out.push(activate(self.activation_function, partial_result[j], eval));
                    j += 1;
                }
                assert(self.is_output(eval, partial, out@));
                match Tensor::from_shape_vec(shape, out) {
                    Some(result) => Ok(result),
                    None => unreached(),
                }
            },
        }
    }
}

/// With an arithmetic function that is a function, a forward pass of a
/// dense layer has one result.
pub proof fn lemma_dense_is_unique<F: Fn(Operation) -> u32>(
    layer: DenseLayer,
    eval: &F,
    input: TensorView,
    first: Result<TensorView, LayerError>,
    second: Result<TensorView, LayerError>,
)
    requires
        deterministic(eval),
        layer.outcome(eval, input, first),
        layer.outcome(eval, input, second),
    ensures
        first == second,
{
    if first is Ok && second is Ok {
        let a = first->Ok_0;
        let b = second->Ok_0;
        let p = choose|partial: Seq<u32>| #[trigger]
            layer.is_partial(eval, input, partial) && layer.is_output(eval, partial, a.flat());
        let q = choose|partial: Seq<u32>| #[trigger]
            layer.is_partial(eval, input, partial) && layer.is_output(eval, partial, b.flat());
        assert forall|j: int| 0 <= j < p.len() implies p[j] == q[j] by {
            assert(layer.is_affine(eval, input, j, p[j]));
            assert(layer.is_affine(eval, input, j, q[j]));
            let vector = layer.input_vector(input);
            let column = layer.weight_column(j);
            let bias = layer.bias@.at(0, j, 0);
            let d = choose|d: u32| #[trigger]
                is_dot_product(eval, vector, column, d) && yields(
                    eval,
                    Operation::Add(d, bias),
                    p[j],
                );
            let e = choose|d: u32| #[trigger]
                is_dot_product(eval, vector, column, d) && yields(
                    eval,
                    Operation::Add(d, bias),
                    q[j],
                );
            lemma_dot_product_is_unique(eval, vector, column, d, e);
            assert(same_operation(Operation::Add(d, bias), Operation::Add(e, bias)));
        }
        assert(p =~= q);
        if layer.activation_function == ActivationFunctionType::Softmax {
            lemma_softmax_is_unique(eval, p, a.flat(), b.flat());
        } else {
            assert forall|j: int| 0 <= j < p.len() implies a.flat()[j] == b.flat()[j] by {
                lemma_activated_is_unique(
                    eval,
                    layer.activation_function,
                    p[j],
                    a.flat()[j],
                    b.flat()[j],
                );
            }
            assert(a.flat() =~= b.flat());
        }
        lemma_from_flat_of_flat(a);
        lemma_from_flat_of_flat(b);
    }
}

} // verus!
