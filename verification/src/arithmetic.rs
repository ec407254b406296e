//! The scalar operations that the engine asks of its caller.
//!
//! The engine never computes on a scalar itself. Every pass that needs
//! arithmetic takes an arithmetic function, which carries out one
//! `Operation` at a time on bit patterns of IEEE 754 binary32 numbers. The
//! engine decides which operations are asked for, on which operands, in
//! which order; its contracts say so through what the arithmetic function
//! promises of its results.

use vstd::prelude::*;

verus! {

/// One request to the arithmetic function. All operands and results are bit
/// patterns of binary32 numbers.
pub enum Operation {
    /// The negation of the operand.
    Neg(u32),
    /// The exponential of the operand.
    Exp(u32),
    /// The hyperbolic tangent of the operand.
    Tanh(u32),
    /// The first operand plus the second.
    Add(u32, u32),
    /// The first operand times the second.
    Mul(u32, u32),
    /// The first operand divided by the second.
    Div(u32, u32),
    /// The larger of the two operands.
    Max(u32, u32),
    /// The sum of all the operands.
    Sum(Vec<u32>),
}

/// The bit pattern of zero.
pub const ZERO: u32 = 0;

/// The bit pattern of one.
pub const ONE: u32 = 0x3F80_0000;

/// The bit pattern of the binary32 number nearest to one tenth, the slope
/// that `leaky_relu` uses where none is given.
pub const DEFAULT_LEAK: u32 = 0x3DCC_CCCD;

/// The arithmetic function accepts every operation.
pub open spec fn total<F: Fn(Operation) -> u32>(eval: &F) -> bool {
    forall|op: Operation| call_requires(eval, (op,))
}

/// `r` is a result that the arithmetic function may give for `op`.
pub open spec fn yields<F: Fn(Operation) -> u32>(eval: &F, op: Operation, r: u32) -> bool {
    call_ensures(eval, (op,), r)
}

/// `r` is a result that the arithmetic function may give for the sum of
/// `terms`.
pub open spec fn sums_to<F: Fn(Operation) -> u32>(eval: &F, terms: Seq<u32>, r: u32) -> bool {
    exists|v: Vec<u32>| v@ == terms && #[trigger] yields(eval, Operation::Sum(v), r)
}

/// `products` holds the product of every scalar of `left` with the scalar of
/// `right` at the same position, and `r` is the sum of all of `products`.
pub open spec fn dot_steps<F: Fn(Operation) -> u32>(
    eval: &F,
    left: Seq<u32>,
    right: Seq<u32>,
    products: Seq<u32>,
    r: u32,
) -> bool {
    &&& products.len() == left.len()
    &&& forall|i: int|
        0 <= i < left.len() ==> yields(eval, Operation::Mul(left[i], right[i]), #[trigger] products[i])
    &&& sums_to(eval, products, r)
}

/// `r` is the dot product of `left` and `right`: the sum of the products of
/// their scalars, position by position.
pub open spec fn is_dot_product<F: Fn(Operation) -> u32>(
    eval: &F,
    left: Seq<u32>,
    right: Seq<u32>,
    r: u32,
) -> bool {
    exists|products: Seq<u32>| #[trigger] dot_steps(eval, left, right, products, r)
}

/// Two operations ask for the same: they are of one kind and have the same
/// operands.
pub open spec fn same_operation(a: Operation, b: Operation) -> bool {
    match (a, b) {
        (Operation::Sum(u), Operation::Sum(v)) => u@ == v@,
        _ => a == b,
    }
}

/// The arithmetic function is a function: what it gives for an operation is
/// decided by the operation.
pub open spec fn deterministic<F: Fn(Operation) -> u32>(eval: &F) -> bool {
    forall|a: Operation, b: Operation, r: u32, s: u32|
        same_operation(a, b) && #[trigger] yields(eval, a, r) && #[trigger] yields(eval, b, s) ==> r
            == s
}

/// With an arithmetic function that is a function, a sum has one value.
pub proof fn lemma_sum_is_unique<F: Fn(Operation) -> u32>(eval: &F, terms: Seq<u32>, r: u32, s: u32)
    requires
        deterministic(eval),
        sums_to(eval, terms, r),
        sums_to(eval, terms, s),
    ensures
        r == s,
{
    let u = choose|v: Vec<u32>| v@ == terms && #[trigger] yields(eval, Operation::Sum(v), r);
    let v = choose|v: Vec<u32>| v@ == terms && #[trigger] yields(eval, Operation::Sum(v), s);
    assert(same_operation(Operation::Sum(u), Operation::Sum(v)));
}

/// With an arithmetic function that is a function, a dot product has one
/// value.
pub proof fn lemma_dot_product_is_unique<F: Fn(Operation) -> u32>(
    eval: &F,
    left: Seq<u32>,
    right: Seq<u32>,
    r: u32,
    s: u32,
)
    requires
        deterministic(eval),
        is_dot_product(eval, left, right, r),
        is_dot_product(eval, left, right, s),
    ensures
        r == s,
{
    let p = choose|products: Seq<u32>| #[trigger] dot_steps(eval, left, right, products, r);
    let q = choose|products: Seq<u32>| #[trigger] dot_steps(eval, left, right, products, s);
    assert forall|i: int| 0 <= i < p.len() implies p[i] == q[i] by {
        let op = Operation::Mul(left[i], right[i]);
        assert(same_operation(op, op));
        assert(yields(eval, op, p[i]) && yields(eval, op, q[i]));
    }
    assert(p =~= q);
    lemma_sum_is_unique(eval, p, r, s);
}

/// The sum of `terms`.
pub fn sum<F: Fn(Operation) -> u32>(terms: Vec<u32>, eval: &F) -> (r: u32)
    requires
        total(eval),
    ensures
        sums_to(eval, terms@, r),
{
    let ghost witness = terms;
    let r = eval(Operation::Sum(terms));
    assert(yields(eval, Operation::Sum(witness), r));
    r
}

/// The dot product of two vectors of one length.
pub fn dot<F: Fn(Operation) -> u32>(left: &Vec<u32>, right: &Vec<u32>, eval: &F) -> (r: u32)
    requires
        total(eval),
        left@.len() == right@.len(),
    ensures
        is_dot_product(eval, left@, right@, r),
{
    let n = left.len();
    let mut products: Vec<u32> = Vec::new();
    let mut i: usize = 0;
    while i < n
        invariant
            total(eval),
            n == left.len(),
            n == right.len(),
            i <= n,
            products.len() == i,
            forall|m: int|
                0 <= m < i ==> yields(
                    eval,
                    Operation::Mul(left[m], right[m]),
                    #[trigger] products[m],
                ),
        decreases n - i,
    {
        let p = eval(Operation::Mul(left[i], right[i]));
        products.push(p);
        i += 1;
    }
    let ghost all = products@;
    let r = sum(products, eval);
    assert(dot_steps(eval, left@, right@, all, r));
    r
}

} // verus!
