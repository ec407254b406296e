//! Activation functions.
//!
//! What this module proves of an activation is which scalar operations it
//! asks of the arithmetic function, on which operands, in which order.

use crate::arithmetic::{
    deterministic, lemma_sum_is_unique, same_operation, sum, sums_to, total, yields, Operation,
    DEFAULT_LEAK, ONE, ZERO,
};
use crate::scalar::{is_nan, lemma_key_names_the_number, order_key};
use crate::tensor::{lemma_flat_of_from_flat, Tensor};
use vstd::pervasive::unreached;
use vstd::prelude::*;

verus! {

/// The activation that a layer applies to its raw output.
#[derive(Debug, PartialEq, Eq, Structural, Copy, Clone)]
pub enum ActivationFunctionType {
    Identity,
    Sigmoid,
    Relu,
    LeakyRelu,
    Tanh,
    Softmax,
}

/// `r` is `1 / (1 + exp(-x))`, evaluated from the inside out.
pub open spec fn is_sigmoid<F: Fn(Operation) -> u32>(eval: &F, x: u32, r: u32) -> bool {
    exists|n: u32, e: u32, d: u32|
        #![trigger yields(eval, Operation::Exp(n), e), yields(eval, Operation::Add(ONE, e), d)]
        yields(eval, Operation::Neg(x), n) && yields(eval, Operation::Exp(n), e) && yields(
            eval,
            Operation::Add(ONE, e),
            d,
        ) && yields(eval, Operation::Div(ONE, d), r)
}

/// `r` is the larger of `x` and zero.
pub open spec fn is_relu<F: Fn(Operation) -> u32>(eval: &F, x: u32, r: u32) -> bool {
    yields(eval, Operation::Max(x, ZERO), r)
}

/// `r` is the larger of `x` and `alpha * x`.
pub open spec fn is_leaky_relu<F: Fn(Operation) -> u32>(
    eval: &F,
    x: u32,
    alpha: u32,
    r: u32,
) -> bool {
    exists|leak: u32| #[trigger]
        yields(eval, Operation::Mul(alpha, x), leak) && yields(eval, Operation::Max(x, leak), r)
}

/// `r` is the hyperbolic tangent of `x`.
pub open spec fn is_tanh<F: Fn(Operation) -> u32>(eval: &F, x: u32, r: u32) -> bool {
    yields(eval, Operation::Tanh(x), r)
}

/// `exps` holds the exponential of every scalar of `x`, `total` is the sum of
/// all of `exps`, and `out` holds every scalar of `exps` divided by that one
/// `total`.
pub open spec fn softmax_steps<F: Fn(Operation) -> u32>(
    eval: &F,
    x: Seq<u32>,
    exps: Seq<u32>,
    total: u32,
    out: Seq<u32>,
) -> bool {
    &&& exps.len() == x.len()
    &&& out.len() == x.len()
    &&& forall|i: int| 0 <= i < x.len() ==> yields(eval, Operation::Exp(x[i]), #[trigger] exps[i])
    &&& sums_to(eval, exps, total)
    &&& forall|i: int|
        0 <= i < x.len() ==> yields(eval, Operation::Div(exps[i], total), #[trigger] out[i])
}

/// `out` is the softmax of `x`: the exponentials of all scalars, each divided
/// by the sum of them all.
pub open spec fn is_softmax<F: Fn(Operation) -> u32>(eval: &F, x: Seq<u32>, out: Seq<u32>) -> bool {
    exists|exps: Seq<u32>, total: u32| #[trigger] softmax_steps(eval, x, exps, total, out)
}

/// `r` is what the activation `kind` makes of the single scalar `x`. Softmax
/// is no function of a single scalar; as one it leaves the scalar as it is,
/// as the identity does.
pub open spec fn is_activated<F: Fn(Operation) -> u32>(
    eval: &F,
    kind: ActivationFunctionType,
    x: u32,
    r: u32,
) -> bool {
    match kind {
        ActivationFunctionType::Relu => is_relu(eval, x, r),
        ActivationFunctionType::Sigmoid => is_sigmoid(eval, x, r),
        ActivationFunctionType::LeakyRelu => is_leaky_relu(eval, x, DEFAULT_LEAK, r),
        ActivationFunctionType::Tanh => is_tanh(eval, x, r),
        ActivationFunctionType::Softmax => r == x,
        ActivationFunctionType::Identity => r == x,
    }
}

/// The arithmetic function gives, as the larger of two numbers, one of the
/// two that is no smaller than the other.
pub open spec fn max_is_the_larger<F: Fn(Operation) -> u32>(eval: &F) -> bool {
    forall|a: u32, b: u32, r: u32|
        !is_nan(a) && !is_nan(b) && #[trigger] yields(eval, Operation::Max(a, b), r) ==> (r == a
            || r == b) && order_key(r) >= order_key(a) && order_key(r) >= order_key(b)
}

/// With an arithmetic function whose larger of two numbers is the larger of
/// the two, the rectifier of a number is the larger of the number and zero:
/// a number above zero is returned as it is, a number below zero gives
/// zero, and a zero gives a zero.
pub proof fn lemma_relu_is_the_larger_of_x_and_zero<F: Fn(Operation) -> u32>(
    eval: &F,
    x: u32,
    r: u32,
)
    requires
        max_is_the_larger(eval),
        !is_nan(x),
        is_relu(eval, x, r),
    ensures
        order_key(x) > 0 ==> r == x,
        order_key(x) < 0 ==> r == ZERO,
        order_key(x) == 0 ==> order_key(r) == 0,
        order_key(r) == if order_key(x) > 0 {
            order_key(x)
        } else {
            0
        },
{
    assert(!is_nan(ZERO) && order_key(ZERO) == 0);
    assert(yields(eval, Operation::Max(x, ZERO), r));
}

/// The arithmetic function multiplies a number by `alpha` as a slope
/// between zero and one does: the product is a number, and it lies between
/// zero and the number.
pub open spec fn slope_shrinks<F: Fn(Operation) -> u32>(eval: &F, alpha: u32) -> bool {
    forall|x: u32, p: u32|
        !is_nan(x) && #[trigger] yields(eval, Operation::Mul(alpha, x), p) ==> {
            &&& !is_nan(p)
            &&& order_key(x) >= 0 ==> 0 <= order_key(p) <= order_key(x)
            &&& order_key(x) <= 0 ==> order_key(x) <= order_key(p) <= 0
        }
}

/// With an arithmetic function whose larger of two numbers is the larger of
/// the two and whose product with `alpha` lies between zero and the other
/// factor, the leaky rectifier returns a number above zero as it is, makes a
/// zero of a zero, and of a number below zero makes its product with
/// `alpha`, which is not above zero: nothing is cut off at zero.
pub proof fn lemma_leaky_relu_keeps_or_scales<F: Fn(Operation) -> u32>(
    eval: &F,
    x: u32,
    alpha: u32,
    r: u32,
)
    requires
        max_is_the_larger(eval),
        slope_shrinks(eval, alpha),
        !is_nan(x),
        is_leaky_relu(eval, x, alpha, r),
    ensures
        !is_nan(r),
        order_key(x) > 0 ==> r == x,
        order_key(x) == 0 ==> order_key(r) == 0,
        order_key(x) < 0 ==> yields(eval, Operation::Mul(alpha, x), r) && order_key(x) <= order_key(r)
            <= 0,
{
    let leak = choose|leak: u32| #[trigger]
        yields(eval, Operation::Mul(alpha, x), leak) && yields(eval, Operation::Max(x, leak), r);
    assert(yields(eval, Operation::Mul(alpha, x), leak));
    assert(yields(eval, Operation::Max(x, leak), r));
    if order_key(x) > 0 && r != x {
        lemma_key_names_the_number(x, leak);
    }
    if order_key(x) < 0 && r != leak {
        lemma_key_names_the_number(x, leak);
    }
}

/// For a number that is not below zero, the leaky rectifier and the
/// rectifier agree, under the same premises: both return a number above
/// zero as it is, and both make a zero of a zero.
pub proof fn lemma_leaky_relu_is_relu_from_zero_on<F: Fn(Operation) -> u32>(
    eval: &F,
    x: u32,
    alpha: u32,
    leaky: u32,
    plain: u32,
)
    requires
        max_is_the_larger(eval),
        slope_shrinks(eval, alpha),
        !is_nan(x),
        order_key(x) >= 0,
        is_leaky_relu(eval, x, alpha, leaky),
        is_relu(eval, x, plain),
    ensures
        order_key(leaky) == order_key(plain),
        order_key(x) > 0 ==> leaky == plain,
{
    lemma_leaky_relu_keeps_or_scales(eval, x, alpha, leaky);
    lemma_relu_is_the_larger_of_x_and_zero(eval, x, plain);
}

/// The arithmetic function rounds in order, as far as the logistic function
/// needs it: negation turns the order of two numbers round; the exponential
/// of a number is a number that is not below zero, and grows with the
/// number; one plus a number that is not below zero is a number that is not
/// below one, and grows with the number; and one divided by a number that
/// is not below one is a number that shrinks as the divisor grows.
pub open spec fn rounds_in_order<F: Fn(Operation) -> u32>(eval: &F) -> bool {
    &&& forall|a: u32, b: u32, r: u32, s: u32|
        !is_nan(a) && !is_nan(b) && order_key(a) <= order_key(b) && #[trigger] yields(
            eval,
            Operation::Neg(a),
            r,
        ) && #[trigger] yields(eval, Operation::Neg(b), s) ==> !is_nan(r) && !is_nan(s)
            && order_key(s) <= order_key(r)
    &&& forall|a: u32, b: u32, r: u32, s: u32|
        !is_nan(a) && !is_nan(b) && order_key(a) <= order_key(b) && #[trigger] yields(
            eval,
            Operation::Exp(a),
            r,
        ) && #[trigger] yields(eval, Operation::Exp(b), s) ==> !is_nan(r) && !is_nan(s) && 0
            <= order_key(r) <= order_key(s)
    &&& forall|a: u32, b: u32, r: u32, s: u32|
        !is_nan(a) && !is_nan(b) && 0 <= order_key(a) <= order_key(b) && #[trigger] yields(
            eval,
            Operation::Add(ONE, a),
            r,
        ) && #[trigger] yields(eval, Operation::Add(ONE, b), s) ==> !is_nan(r) && !is_nan(s)
            && order_key(ONE) <= order_key(r) <= order_key(s)
    &&& forall|a: u32, b: u32, r: u32, s: u32|
        !is_nan(a) && !is_nan(b) && order_key(ONE) <= order_key(a) <= order_key(b)
            && #[trigger] yields(eval, Operation::Div(ONE, a), r) && #[trigger] yields(
            eval,
            Operation::Div(ONE, b),
            s,
        ) ==> !is_nan(r) && !is_nan(s) && order_key(s) <= order_key(r)
}

/// With an arithmetic function that rounds in order, the logistic function
/// grows with its argument: of two numbers, the one that is not larger has
/// the value that is not larger.
pub proof fn lemma_sigmoid_is_increasing<F: Fn(Operation) -> u32>(
    eval: &F,
    x: u32,
    y: u32,
    r: u32,
    s: u32,
)
    requires
        rounds_in_order(eval),
        !is_nan(x),
        !is_nan(y),
        order_key(x) <= order_key(y),
        is_sigmoid(eval, x, r),
        is_sigmoid(eval, y, s),
    ensures
        !is_nan(r),
        !is_nan(s),
        order_key(r) <= order_key(s),
{
    let (n1, e1, d1) = choose|n: u32, e: u32, d: u32|
        #![trigger yields(eval, Operation::Exp(n), e), yields(eval, Operation::Add(ONE, e), d)]
        yields(eval, Operation::Neg(x), n) && yields(eval, Operation::Exp(n), e) && yields(
            eval,
            Operation::Add(ONE, e),
            d,
        ) && yields(eval, Operation::Div(ONE, d), r);
    let (n2, e2, d2) = choose|n: u32, e: u32, d: u32|
        #![trigger yields(eval, Operation::Exp(n), e), yields(eval, Operation::Add(ONE, e), d)]
        yields(eval, Operation::Neg(y), n) && yields(eval, Operation::Exp(n), e) && yields(
            eval,
            Operation::Add(ONE, e),
            d,
        ) && yields(eval, Operation::Div(ONE, d), s);
    assert(yields(eval, Operation::Neg(x), n1) && yields(eval, Operation::Neg(y), n2));
    assert(!is_nan(n1) && !is_nan(n2) && order_key(n2) <= order_key(n1));
    assert(yields(eval, Operation::Exp(n2), e2) && yields(eval, Operation::Exp(n1), e1));
    assert(!is_nan(e1) && !is_nan(e2) && 0 <= order_key(e2) <= order_key(e1));
    assert(yields(eval, Operation::Add(ONE, e2), d2) && yields(eval, Operation::Add(ONE, e1), d1));
    assert(!is_nan(d1) && !is_nan(d2) && order_key(ONE) <= order_key(d2) <= order_key(d1));
    assert(yields(eval, Operation::Div(ONE, d2), s) && yields(eval, Operation::Div(ONE, d1), r));
}

/// With an arithmetic function that is a function, the activation of a
/// scalar has one value.
pub proof fn lemma_activated_is_unique<F: Fn(Operation) -> u32>(
    eval: &F,
    kind: ActivationFunctionType,
    x: u32,
    r: u32,
    s: u32,
)
    requires
        deterministic(eval),
        is_activated(eval, kind, x, r),
        is_activated(eval, kind, x, s),
    ensures
        r == s,
{
    match kind {
        ActivationFunctionType::Relu => {
            assert(same_operation(Operation::Max(x, ZERO), Operation::Max(x, ZERO)));
        },
        ActivationFunctionType::Sigmoid => {
            let (n1, e1, d1) = choose|n: u32, e: u32, d: u32|
                #![trigger yields(eval, Operation::Exp(n), e), yields(eval, Operation::Add(ONE, e), d)]
                yields(eval, Operation::Neg(x), n) && yields(eval, Operation::Exp(n), e) && yields(
                    eval,
                    Operation::Add(ONE, e),
                    d,
                ) && yields(eval, Operation::Div(ONE, d), r);
            let (n2, e2, d2) = choose|n: u32, e: u32, d: u32|
                #![trigger yields(eval, Operation::Exp(n), e), yields(eval, Operation::Add(ONE, e), d)]
                yields(eval, Operation::Neg(x), n) && yields(eval, Operation::Exp(n), e) && yields(
                    eval,
                    Operation::Add(ONE, e),
                    d,
                ) && yields(eval, Operation::Div(ONE, d), s);
            assert(same_operation(Operation::Neg(x), Operation::Neg(x)));
            assert(n1 == n2);
            assert(same_operation(Operation::Exp(n1), Operation::Exp(n2)));
            assert(e1 == e2);
            assert(same_operation(Operation::Add(ONE, e1), Operation::Add(ONE, e2)));
            assert(d1 == d2);
            assert(same_operation(Operation::Div(ONE, d1), Operation::Div(ONE, d2)));
        },
        ActivationFunctionType::LeakyRelu => {
            let l1 = choose|leak: u32| #[trigger]
                yields(eval, Operation::Mul(DEFAULT_LEAK, x), leak) && yields(
                    eval,
                    Operation::Max(x, leak),
                    r,
                );
            let l2 = choose|leak: u32| #[trigger]
                yields(eval, Operation::Mul(DEFAULT_LEAK, x), leak) && yields(
                    eval,
                    Operation::Max(x, leak),
                    s,
                );
            assert(same_operation(Operation::Mul(DEFAULT_LEAK, x), Operation::Mul(DEFAULT_LEAK, x)));
            assert(l1 == l2);
            assert(same_operation(Operation::Max(x, l1), Operation::Max(x, l2)));
        },
        ActivationFunctionType::Tanh => {
            assert(same_operation(Operation::Tanh(x), Operation::Tanh(x)));
        },
        ActivationFunctionType::Softmax => {},
        ActivationFunctionType::Identity => {},
    }
}

/// With an arithmetic function that is a function, the softmax of a tensor
/// has one value.
pub proof fn lemma_softmax_is_unique<F: Fn(Operation) -> u32>(
    eval: &F,
    x: Seq<u32>,
    first: Seq<u32>,
    second: Seq<u32>,
)
    requires
        deterministic(eval),
        is_softmax(eval, x, first),
        is_softmax(eval, x, second),
    ensures
        first == second,
{
    let (e1, t1) = choose|exps: Seq<u32>, total: u32| #[trigger]
        softmax_steps(eval, x, exps, total, first);
    let (e2, t2) = choose|exps: Seq<u32>, total: u32| #[trigger]
        softmax_steps(eval, x, exps, total, second);
    assert forall|i: int| 0 <= i < x.len() implies e1[i] == e2[i] by {
        let op = Operation::Exp(x[i]);
        assert(same_operation(op, op));
        assert(yields(eval, op, e1[i]) && yields(eval, op, e2[i]));
    }
    assert(e1 =~= e2);
    lemma_sum_is_unique(eval, e1, t1, t2);
    assert forall|i: int| 0 <= i < x.len() implies first[i] == second[i] by {
        let op = Operation::Div(e1[i], t1);
        assert(same_operation(op, op));
        assert(yields(eval, op, first[i]) && yields(eval, op, second[i]));
    }
    assert(first =~= second);
}

/// The logistic function `1 / (1 + exp(-x))`.
pub fn sigmoid<F: Fn(Operation) -> u32>(x: &u32, eval: &F) -> (r: u32)
    requires
        total(eval),
    ensures
        is_sigmoid(eval, *x, r),
{
    let minus_x = eval(Operation::Neg(*x));
    let e = eval(Operation::Exp(minus_x));
    let d = eval(Operation::Add(ONE, e));
    let r = eval(Operation::Div(ONE, d));
    assert(yields(eval, Operation::Exp(minus_x), e) && yields(eval, Operation::Add(ONE, e), d));
    r
}

/// The rectifier `max(x, 0)`.
pub fn relu<F: Fn(Operation) -> u32>(x: &u32, eval: &F) -> (r: u32)
    requires
        total(eval),
    ensures
        is_relu(eval, *x, r),
{
    eval(Operation::Max(*x, ZERO))
}

/// The leaky rectifier `max(x, alpha * x)`, with a slope of one tenth where
/// `alpha` is `None`.
pub fn leaky_relu<F: Fn(Operation) -> u32>(x: &u32, alpha: Option<u32>, eval: &F) -> (r: u32)
    requires
        total(eval),
    ensures
        is_leaky_relu(
            eval,
            *x,
            match alpha {
                Some(a) => a,
                None => DEFAULT_LEAK,
            },
            r,
        ),
{
    let slope = match alpha {
        Some(a) => a,
        None => DEFAULT_LEAK,
    };
    let leak = eval(Operation::Mul(slope, *x));
    let r = eval(Operation::Max(*x, leak));
    assert(yields(eval, Operation::Mul(slope, *x), leak));
    r
}

/// The hyperbolic tangent.
pub fn tanh<F: Fn(Operation) -> u32>(x: &u32, eval: &F) -> (r: u32)
    requires
        total(eval),
    ensures
        is_tanh(eval, *x, r),
{
    eval(Operation::Tanh(*x))
}

/// The activation `kind` applied to the single scalar `x`.
pub fn activate<F: Fn(Operation) -> u32>(kind: ActivationFunctionType, x: u32, eval: &F) -> (r: u32)
    requires
        total(eval),
    ensures
        is_activated(eval, kind, x, r),
{
    match kind {
        ActivationFunctionType::Relu => relu(&x, eval),
        ActivationFunctionType::Sigmoid => sigmoid(&x, eval),
        ActivationFunctionType::LeakyRelu => leaky_relu(&x, None, eval),
        ActivationFunctionType::Tanh => tanh(&x, eval),
        _ => x,
    }
}

/// The softmax of a whole tensor: the exponential of every scalar, divided by
/// the sum of the exponentials of all scalars of the tensor, whatever its
/// shape.
pub fn softmax<F: Fn(Operation) -> u32>(x: &Tensor, eval: &F) -> (r: Tensor)
    requires
        total(eval),
    ensures
        r@.dims == x@.dims,
        r@.well_formed(),
        is_softmax(eval, x@.flat(), r@.flat()),
{
    let dims = x.dim();
    let scores = x.to_vec();
    let n = scores.len();
    let mut exp_scores: Vec<u32> = Vec::new();
    let mut i: usize = 0;
    while i < n
        invariant
            total(eval),
            n == scores.len(),
            i <= n,
            exp_scores.len() == i,
            forall|m: int|
                0 <= m < i ==> yields(eval, Operation::Exp(scores[m]), #[trigger] exp_scores[m]),
        decreases n - i,
    {
        let e = eval(Operation::Exp(scores[i]));
        exp_scores.push(e);
        i += 1;
    }
    let terms = exp_scores.clone();
    assert(terms@ =~= exp_scores@);
    let sum = sum(terms, eval);
    let mut out: Vec<u32> = Vec::new();
    let mut j: usize = 0;
    while j < n
        invariant
            total(eval),
            n == exp_scores.len(),
            j <= n,
            out.len() == j,
            forall|m: int|
                0 <= m < j ==> yields(eval, Operation::Div(exp_scores[m], sum), #[trigger] out[m]),
        decreases n - j,
    {
        let q = eval(Operation::Div(exp_scores[j], sum));
        out.push(q);
        j += 1;
    }
    proof {
        assert(softmax_steps(eval, scores@, exp_scores@, sum, out@));
        lemma_flat_of_from_flat(dims, out@);
    }
    match Tensor::from_shape_vec(dims, out) {
        Some(t) => t,
        None => unreached(),
    }
}

} // verus!
