use carnaval_rust::activation::ActivationFunctionType;
use carnaval_rust::arithmetic::Operation;
use carnaval_rust::layer::conv2d::Conv2dLayer;
use carnaval_rust::layer::dense::DenseLayer;
use carnaval_rust::layer::flatten::FlattenLayer;
use carnaval_rust::layer::maxpool2d::MaxPool2dLayer;
use carnaval_rust::tensor::Tensor;
use ndarray::{Array, Array1, Array3, Axis, Slice};
use ndarray_rand::RandomExt;
use ndarray_stats::QuantileExt;
use rand::distributions::Uniform;
use std::ops::Mul;

fn float(bits: u32) -> f32 {
    f32::from_bits(bits)
}

fn arithmetic(op: Operation) -> u32 {
    let r = match op {
        Operation::Neg(a) => -float(a),
        Operation::Exp(a) => float(a).exp(),
        Operation::Tanh(a) => float(a).tanh(),
        Operation::Add(a, b) => float(a) + float(b),
        Operation::Mul(a, b) => float(a) * float(b),
        Operation::Div(a, b) => float(a) / float(b),
        Operation::Max(a, b) => float(a).max(float(b)),
        Operation::Sum(terms) => Array1::from_iter(terms.iter().map(|t| float(*t))).sum(),
    };
    r.to_bits()
}

fn tensor_of(array: &Array3<f32>) -> Tensor {
    Tensor::from_shape_vec(array.dim(), array.iter().map(|v| v.to_bits()).collect()).unwrap()
}

fn array_of(tensor: &Tensor) -> Array3<f32> {
    Array::from_shape_vec(tensor.dim(), tensor.to_vec().into_iter().map(float).collect()).unwrap()
}

#[test]
fn tensors_and_arrays_agree_on_every_index() {
    let array: Array3<f32> = Array3::random((3, 4, 5), Uniform::new(-1.0, 1.0));
    let tensor = tensor_of(&array);
    assert_eq!(tensor.dim(), array.dim());
    for ((i, j, k), value) in array.indexed_iter() {
        assert_eq!(float(tensor.get(i, j, k)), *value);
    }
    assert_eq!(array_of(&tensor), array);
}

#[test]
fn pooling_agrees_with_the_maximum_of_each_slice() {
    let input: Array3<f32> = Array3::random((7, 9, 3), Uniform::new(-5.0, 5.0));
    let nn = MaxPool2dLayer::new((2, 3), None, None);
    let result = array_of(&nn.forward(&tensor_of(&input)).unwrap());
    assert_eq!(result.dim(), (3, 3, 3));
    for output_row in 0..3 {
        for output_col in 0..3 {
            for feature in 0..3 {
                let row = output_row * 2;
                let col = output_col * 3;
                let rows = input.slice_axis(Axis(0), Slice::from(row..row + 2));
                let columns = rows.slice_axis(Axis(1), Slice::from(col..col + 3));
                let input_slice = columns.slice_axis(Axis(2), Slice::from(feature..feature + 1));
                let expected = *input_slice.index_axis(Axis(2), 0).max().unwrap();
                assert_eq!(result[[output_row, output_col, feature]], expected);
            }
        }
    }
}

#[test]
fn pooling_keeps_the_first_of_equal_scalars() {
    let first = Tensor::from_shape_vec((1, 2, 1), vec![(-0.0_f32).to_bits(), 0.0_f32.to_bits()])
        .unwrap();
    let nn = MaxPool2dLayer::new((1, 2), None, None);
    assert_eq!(nn.forward(&first).unwrap().to_vec(), vec![(-0.0_f32).to_bits()]);
    let second = Tensor::from_shape_vec((1, 2, 1), vec![0.0_f32.to_bits(), (-0.0_f32).to_bits()])
        .unwrap();
    assert_eq!(nn.forward(&second).unwrap().to_vec(), vec![0.0_f32.to_bits()]);
    let array = Array::from_shape_vec((1, 2), vec![-0.0_f32, 0.0]).unwrap();
    assert_eq!(array.max().unwrap().to_bits(), (-0.0_f32).to_bits());
}

#[test]
fn convolution_agrees_with_the_sum_of_the_product_of_kernel_and_slice() {
    let input: Array3<f32> = Array3::random((8, 7, 3), Uniform::new(-1.0, 1.0));
    let kernels: Vec<Array3<f32>> =
        (0..4).map(|_| Array3::random((3, 3, 3), Uniform::new(-1.0, 1.0))).collect();
    let nn = Conv2dLayer::new(
        4,
        3,
        (8, 7, 3),
        None,
        None,
        None,
        None,
        kernels.iter().map(tensor_of).collect(),
    )
    .unwrap();
    let result = array_of(&nn.forward(&tensor_of(&input), &arithmetic).unwrap());
    assert_eq!(result.dim(), (6, 5, 4));
    for ((row, col, feature), value) in result.indexed_iter() {
        let rows = input.slice_axis(Axis(0), Slice::from(row..row + 3));
        let input_slice = rows.slice_axis(Axis(1), Slice::from(col..col + 3));
        let kernel = &kernels[feature];
        let output_cel = kernel.mul(&input_slice).sum();
        assert_eq!(*value, output_cel);
    }
}

#[test]
fn dense_agrees_with_the_matrix_product() {
    let weights: Array3<f32> = Array3::random((6, 4, 1), Uniform::new(-1.0, 1.0));
    let bias: Array3<f32> = Array3::random((1, 4, 1), Uniform::new(-10.0, 10.0));
    let input: Array3<f32> = Array3::random((1, 6, 1), Uniform::new(-1.0, 1.0));
    let nn = DenseLayer::new(
        6,
        4,
        Some(ActivationFunctionType::Identity),
        tensor_of(&weights),
        tensor_of(&bias),
    );
    let result = array_of(&nn.forward(&tensor_of(&input), &arithmetic).unwrap());
    let product = input.index_axis(Axis(2), 0).dot(&weights.index_axis(Axis(2), 0));
    let expected = &product.to_shape((1, 4, 1)).unwrap() + &bias;
    assert_eq!(result.dim(), expected.dim());
    for (value, wanted) in result.iter().zip(expected.iter()) {
        assert!((value - wanted).abs() <= 1e-5 * (1.0 + wanted.abs()));
    }
}

#[test]
fn flattening_agrees_with_the_order_of_iteration() {
    let input: Array3<f32> = Array3::random((3, 5, 2), Uniform::new(-1.0, 1.0));
    let result = array_of(&FlattenLayer::new().forward(&tensor_of(&input)).unwrap());
    let flatten_input = Array::from_iter(input.iter().copied());
    let expected = flatten_input.to_shape((1, 30, 1)).unwrap().to_owned();
    assert_eq!(result, expected);
}
