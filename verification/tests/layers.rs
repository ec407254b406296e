use carnaval_rust::activation::ActivationFunctionType;
use carnaval_rust::arithmetic::Operation;
use carnaval_rust::layer::conv2d::{
    get_output_dim, output_dim_is_defined, Conv2dError, Conv2dLayer,
};
use carnaval_rust::layer::dense::{DenseLayer, InvalidDimensionsError};
use carnaval_rust::layer::flatten::FlattenLayer;
use carnaval_rust::layer::maxpool2d::{window_maximum, MaxPool2dLayer};
use carnaval_rust::layer::util::{add_padding, pad_plane, padded_shape, plane_padded_shape};
use carnaval_rust::layer::{Layer, LayerError};
use carnaval_rust::tensor::Tensor;
use ndarray::{Array1, Array3};
use ndarray_rand::RandomExt;
use rand::distributions::Uniform;

fn float(bits: u32) -> f32 {
    f32::from_bits(bits)
}

fn arithmetic(op: Operation) -> u32 {
    let r = match op {
        Operation::Neg(a) => -float(a),
        Operation::Exp(a) => float(a).exp(),
        Operation::Tanh(a) => float(a).tanh(),
        Operation::Add(a, b) => float(a) + float(b),
        Operation::Mul(a, b) => float(a) * float(b),
        Operation::Div(a, b) => float(a) / float(b),
        Operation::Max(a, b) => float(a).max(float(b)),
        Operation::Sum(terms) => Array1::from_iter(terms.iter().map(|t| float(*t))).sum(),
    };
    r.to_bits()
}

fn tensor(dims: (usize, usize, usize), values: &[f32]) -> Tensor {
    Tensor::from_shape_vec(dims, values.iter().map(|v| v.to_bits()).collect()).unwrap()
}

fn tensor_of(array: &Array3<f32>) -> Tensor {
    Tensor::from_shape_vec(array.dim(), array.iter().map(|v| v.to_bits()).collect()).unwrap()
}

fn floats(t: &Tensor) -> Vec<f32> {
    t.to_vec().into_iter().map(float).collect()
}

fn counting(rows: usize, columns: usize, layers: usize) -> Tensor {
    let values: Vec<f32> = (0..rows * columns * layers).map(|v| v as f32).collect();
    tensor((rows, columns, layers), &values)
}

fn random_dense(
    input_size: usize,
    output_size: usize,
    activation_function: Option<ActivationFunctionType>,
) -> DenseLayer {
    let layers: Array3<f32> = Array3::random((input_size, output_size, 1), Uniform::new(-1.0, 1.0));
    let bias: Array3<f32> = Array3::random((1, output_size, 1), Uniform::new(-10.0, 10.0));
    DenseLayer::new(
        input_size,
        output_size,
        activation_function,
        tensor_of(&layers),
        tensor_of(&bias),
    )
}

fn random_kernels(kernel_size: usize, filters: usize, channels: usize) -> Vec<Tensor> {
    let mut kernels = Vec::new();
    for _ in 0..filters {
        let kernel: Array3<f32> =
            Array3::random((kernel_size, kernel_size, channels), Uniform::new(-1.0, 1.0));
        kernels.push(tensor_of(&kernel));
    }
    kernels
}

#[test]
fn dense_works() {
    let nn = random_dense(2, 1, None);
    assert_eq!(nn.activation_function(), ActivationFunctionType::Identity);
    for weight in floats(&nn.weights).iter() {
        assert!(weight <= &1.0_f32);
        assert!(weight >= &-1.0_f32);
    }
}

#[test]
fn dense_forward() {
    let nn = random_dense(2, 2, None);
    for weight in floats(&nn.weights) {
        println!("weight: {weight}");
    }
    let inference_result = &nn.forward(&tensor((1, 2, 1), &[1., 1.]), &arithmetic);

    assert!(inference_result.is_ok());
    if inference_result.is_ok() {
        let weights = floats(&nn.weights);
        let bias = floats(&nn.bias);
        for (row, value) in floats(inference_result.as_ref().unwrap()).iter().enumerate() {
            println!["value multiplied by 1.0 + bias({:?}): {value}", bias[row]];
            let expected = Array1::from_vec(vec![weights[row] * 1., weights[2 + row] * 1.]).sum()
                + bias[row];
            assert_eq!(*value, expected);
        }
    }
}

#[test]
fn dense_plot() {
    let nn = random_dense(5, 5, Some(ActivationFunctionType::Relu));
    for weight in floats(&nn.weights) {
        println!("weight: {weight}");
    }

    let x = tensor((1, 5, 1), &[2.0, 4.0, 6.0, 8.0, 10.0]);
    let y_result = &nn.forward(&x, &arithmetic);
    let y = match y_result {
        Ok(result) => result,
        _ => panic!["Forward returned error"],
    };

    assert_eq!(y.dim(), (1, 5, 1));
    assert_eq!(floats(&x).len(), floats(y).len());
    for value in floats(y) {
        assert!(value >= 0.0);
    }
}

#[test]
fn conv2d_basic_test() {
    let input = counting(4, 6, 1);

    let input_shape = input.dim();
    println!("{:?}", input_shape);

    let nn = Conv2dLayer::new(
        1,
        3,
        (input_shape.0, input_shape.1, input_shape.2),
        None,
        None,
        None,
        None,
        random_kernels(3, 1, input_shape.2),
    )
    .unwrap();

    let result = nn.forward(&input, &arithmetic).unwrap();
    println!("{:?}", floats(&result));
    assert_eq!(result.dim(), (2, 4, 1));
    let kernel = floats(&nn.kernels[0]);
    let source = floats(&input);
    for row in 0..2 {
        for col in 0..4 {
            let mut products = Vec::new();
            for a in 0..3 {
                for b in 0..3 {
                    products.push(kernel[a * 3 + b] * source[(row + a) * 6 + col + b]);
                }
            }
            let expected = Array1::from_vec(products).sum();
            assert_eq!(float(result.get(row, col, 0)), expected);
        }
    }
}

#[test]
fn maxpool2d_basic_test() {
    let input = counting(4, 6, 1);

    let nn = MaxPool2dLayer::new((2, 2), None, None);

    let result = nn.forward(&input).unwrap();
    assert_eq!(result.dim(), (2, 3, 1));
    assert_eq!(floats(&result), vec![7.0, 9.0, 11., 19.0, 21.0, 23.]);
}

#[test]
fn flatten_basic_test() {
    let input = counting(1, 4, 6);

    let nn = FlattenLayer::new();

    let result = nn.forward(&input).unwrap();

    assert_eq!(result.dim(), (1_usize, 24_usize, 1_usize));
    assert_eq!(float(result.get(0, 23, 0)), 23.);
}

#[test]
fn flatten_keeps_every_scalar_in_its_place() {
    let input = counting(2, 3, 4);
    let result = FlattenLayer::new().forward(&input).unwrap();
    assert_eq!(result.dim(), (1, 24, 1));
    assert_eq!(result.to_vec(), input.to_vec());
    for i in 0..2 {
        for j in 0..3 {
            for k in 0..4 {
                assert_eq!(result.get(0, (i * 3 + j) * 4 + k, 0), input.get(i, j, k));
            }
        }
    }
}

#[test]
fn flatten_of_an_empty_tensor_is_empty() {
    let input = tensor((0, 3, 4), &[]);
    let result = FlattenLayer::new().forward(&input).unwrap();
    assert_eq!(result.dim(), (1, 0, 1));
    assert!(result.to_vec().is_empty());
}

#[test]
fn flatten_and_pooling_have_no_activation() {
    assert_eq!(FlattenLayer::new().activation_function(), ActivationFunctionType::Identity);
    assert_eq!(FlattenLayer::default().activation_function(), ActivationFunctionType::Identity);
    let pool = MaxPool2dLayer::new((2, 2), None, None);
    assert_eq!(pool.activation_function(), ActivationFunctionType::Identity);
}

#[test]
fn maxpool_defaults_and_output_shape() {
    let nn = MaxPool2dLayer::new((2, 3), None, None);
    assert_eq!(nn.pool_size, (2, 3));
    assert_eq!(nn.strides, (1, 1));
    assert_eq!(nn.padding, (0, 0));
    assert_eq!(nn.output_dim((4, 6, 1)), (2, 2, 1));
    assert_eq!(nn.output_dim((5, 7, 3)), (2, 2, 3));
    assert_eq!(nn.output_dim((1, 2, 3)), (0, 0, 3));
    let set = MaxPool2dLayer::new((2, 2), Some((2, 2)), Some((1, 0)));
    assert_eq!(set.strides, (2, 2));
    assert_eq!(set.padding, (1, 0));
}

#[test]
fn maxpool_pools_each_feature_on_its_own() {
    let input = tensor(
        (2, 2, 2),
        &[1.0, -8.0, 2.0, -7.0, 3.0, -6.0, 4.0, -5.0],
    );
    let result = MaxPool2dLayer::new((2, 2), None, None).forward(&input).unwrap();
    assert_eq!(result.dim(), (1, 1, 2));
    assert_eq!(floats(&result), vec![4.0, -5.0]);
}

#[test]
fn maxpool_ignores_what_no_window_covers() {
    let input = counting(5, 7, 1);
    let result = MaxPool2dLayer::new((2, 3), None, None).forward(&input).unwrap();
    assert_eq!(result.dim(), (2, 2, 1));
    assert_eq!(floats(&result), vec![9.0, 12.0, 23.0, 26.0]);
}

#[test]
fn maxpool_orders_negative_numbers_and_infinities() {
    let input = tensor((2, 2, 1), &[-1.0, -3.5, f32::NEG_INFINITY, -0.25]);
    let result = MaxPool2dLayer::new((2, 2), None, None).forward(&input).unwrap();
    assert_eq!(floats(&result), vec![-0.25]);
    let input = tensor((1, 3, 1), &[1.0e30, f32::INFINITY, -2.0]);
    let result = MaxPool2dLayer::new((1, 3), None, None).forward(&input).unwrap();
    assert_eq!(floats(&result), vec![f32::INFINITY]);
    let input = tensor((1, 2, 1), &[-0.0, -1.0e-40]);
    let result = MaxPool2dLayer::new((1, 2), None, None).forward(&input).unwrap();
    assert_eq!(floats(&result), vec![0.0]);
}

#[test]
fn maxpool_fails_where_a_window_holds_no_number() {
    let input = tensor((2, 2, 1), &[1.0, f32::NAN, 3.0, 4.0]);
    let result = MaxPool2dLayer::new((2, 2), None, None).forward(&input);
    assert!(matches!(result, Err(LayerError::UndefinedOrder)));
    let input = tensor((3, 2, 1), &[1.0, 2.0, 3.0, 4.0, f32::NAN, 6.0]);
    let result = MaxPool2dLayer::new((2, 2), None, None).forward(&input).unwrap();
    assert_eq!(floats(&result), vec![4.0]);
}

#[test]
fn maxpool_refuses_a_window_without_extent() {
    let input = counting(4, 6, 1);
    let result = MaxPool2dLayer::new((0, 2), None, None).forward(&input);
    assert_eq!(
        result.err(),
        Some(LayerError::IncorrectDimensions(InvalidDimensionsError { expected: (0, 2, 1) }))
    );
}

#[test]
fn maxpool_pads_behind_height_and_width() {
    let input = tensor((2, 1, 1), &[-1.0, -2.0]);
    let result = MaxPool2dLayer::new((2, 2), None, Some((1, 1))).forward(&input).unwrap();
    assert_eq!(result.dim(), (1, 1, 1));
    assert_eq!(floats(&result), vec![0.0]);
    let input = tensor((3, 3, 2), &[-1.0; 18]);
    let result = MaxPool2dLayer::new((2, 2), None, Some((1, 1))).forward(&input).unwrap();
    assert_eq!(result.dim(), (2, 2, 2));
    assert_eq!(floats(&result), vec![-1.0, -1.0, 0.0, 0.0, 0.0, 0.0, 0.0, 0.0]);
}

#[test]
fn conv2d_pads_behind_height_and_width() {
    let input = counting(3, 3, 2);
    let kernel = tensor((3, 3, 2), &[1.0; 18]);
    let nn = Conv2dLayer::new(1, 3, (3, 3, 2), Some((1, 1)), Some((3, 3)), None, None, vec![kernel])
        .unwrap();
    assert_eq!(nn.output_dim, (1, 1, 1));
    assert!(nn.can_take((3, 3, 2)));
    let result = nn.forward(&input, &arithmetic).unwrap();
    assert_eq!(floats(&result), vec![153.0]);
    let wide = Conv2dLayer::new(
        1,
        3,
        (2, 2, 1),
        Some((1, 1)),
        Some((3, 3)),
        None,
        None,
        vec![tensor((3, 3, 1), &[1.0; 9])],
    )
    .unwrap();
    let result = wide.forward(&counting(2, 2, 1), &arithmetic).unwrap();
    assert_eq!(result.dim(), (1, 1, 1));
    assert_eq!(floats(&result), vec![0.0 + 1.0 + 2.0 + 3.0]);
}

#[test]
fn maxpool_of_an_input_smaller_than_the_window_is_empty() {
    let input = counting(1, 6, 1);
    let result = MaxPool2dLayer::new((2, 2), None, None).forward(&input).unwrap();
    assert_eq!(result.dim(), (0, 3, 1));
    assert!(result.to_vec().is_empty());
}

#[test]
fn window_maximum_is_the_largest_number() {
    let bits = |values: &[f32]| -> Vec<u32> { values.iter().map(|v| v.to_bits()).collect() };
    assert_eq!(window_maximum(&bits(&[1.0, 5.0, -2.0])), Some(5.0_f32.to_bits()));
    assert_eq!(window_maximum(&bits(&[-3.0])), Some((-3.0_f32).to_bits()));
    assert_eq!(window_maximum(&bits(&[1.0, f32::NAN])), None);
    assert_eq!(window_maximum(&bits(&[f32::NAN, 9.0])), None);
}

#[test]
fn padding_adds_zeros_behind_the_data() {
    let input = counting(2, 2, 2);
    let padded = add_padding(&input, &(1, 2));
    assert_eq!(padded.dim(), (2, 3, 4));
    for i in 0..2 {
        for j in 0..3 {
            for k in 0..4 {
                let expected = if j < 2 && k < 2 { input.get(i, j, k) } else { 0 };
                assert_eq!(padded.get(i, j, k), expected);
            }
        }
    }
    assert_eq!(float(padded.get(1, 1, 1)), 7.0);
    assert_eq!(float(padded.get(1, 2, 1)), 0.0);
}

#[test]
fn padding_by_nothing_changes_nothing() {
    let input = counting(3, 2, 4);
    let padded = add_padding(&input, &(0, 0));
    assert_eq!(padded.dim(), (3, 2, 4));
    assert_eq!(padded.to_vec(), input.to_vec());
}

#[test]
fn padded_shape_is_none_where_it_cannot_be_had() {
    assert_eq!(padded_shape((2, 3, 4), &(1, 2)), Some((2, 4, 6)));
    assert_eq!(padded_shape((2, 3, 4), &(usize::MAX, 0)), None);
    assert_eq!(padded_shape((2, 3, 4), &(0, usize::MAX - 3)), None);
    assert_eq!(padded_shape((0, 3, 4), &(usize::MAX - 3, 5)), None);
}

#[test]
fn conv2d_output_shape_formula() {
    assert_eq!(get_output_dim((6, 6, 3), (0, 0), 3, (1, 1), (1, 1), 1), (4, 4, 1));
    assert_eq!(get_output_dim((4, 6, 1), (0, 0), 3, (1, 1), (1, 1), 1), (2, 4, 1));
    assert_eq!(get_output_dim((224, 224, 3), (0, 0), 3, (1, 1), (1, 1), 32), (222, 222, 32));
    assert_eq!(get_output_dim((7, 9, 2), (1, 2), 3, (1, 1), (2, 3), 5), (4, 4, 5));
    assert_eq!(get_output_dim((9, 9, 1), (0, 0), 3, (2, 3), (1, 1), 2), (5, 3, 2));
    assert_eq!(get_output_dim((3, 3, 1), (0, 0), 3, (1, 1), (1, 1), 4), (1, 1, 4));
}

#[test]
fn conv2d_output_shape_is_defined_where_the_kernel_fits() {
    assert!(output_dim_is_defined((6, 6, 3), (0, 0), 3, (1, 1), (1, 1)));
    assert!(output_dim_is_defined((3, 3, 1), (0, 0), 3, (1, 1), (1, 1)));
    assert!(!output_dim_is_defined((2, 6, 1), (0, 0), 3, (1, 1), (1, 1)));
    assert!(output_dim_is_defined((2, 6, 1), (1, 0), 3, (1, 1), (1, 1)));
    assert!(!output_dim_is_defined((6, 6, 1), (0, 0), 3, (1, 1), (0, 1)));
    assert!(!output_dim_is_defined((6, 6, 1), (0, 0), 3, (1, 0), (1, 1)));
    assert!(!output_dim_is_defined((6, 6, 1), (0, 0), 0, (1, 1), (1, 1)));
    assert!(!output_dim_is_defined((6, 6, 1), (0, 0), 3, (3, 1), (1, 1)));
    assert!(!output_dim_is_defined((6, 6, 1), (usize::MAX, 0), 3, (1, 1), (1, 1)));
    assert!(!output_dim_is_defined((6, 6, 1), (0, 0), 3, (usize::MAX, 1), (1, 1)));
}

#[test]
fn conv2d_new_sets_defaults_and_output_shape() {
    let nn = Conv2dLayer::new(1, 3, (6, 6, 3), None, None, None, None, random_kernels(3, 1, 3))
        .unwrap();
    assert_eq!(nn.output_dim, (4, 4, 1));
    assert_eq!(nn.filters, 1);
    assert_eq!(nn.kernel_size, 3);
    assert_eq!(nn.padding, (0, 0));
    assert_eq!(nn.strides, (1, 1));
    assert_eq!(nn.dilatation_rate, (1, 1));
    assert_eq!(nn.input_dim, (6, 6, 3));
    assert_eq!(nn.activation_function(), ActivationFunctionType::Identity);
    let nn = Conv2dLayer::new(
        2,
        2,
        (5, 5, 1),
        Some((1, 0)),
        Some((2, 1)),
        Some((1, 1)),
        Some(ActivationFunctionType::Tanh),
        random_kernels(2, 2, 1),
    )
    .unwrap();
    assert_eq!(nn.output_dim, (3, 4, 2));
    assert_eq!(nn.activation_function(), ActivationFunctionType::Tanh);
}

#[test]
fn conv2d_new_refuses_what_it_cannot_use() {
    let refused = |r: Result<Conv2dLayer, Conv2dError>| r.err().unwrap();
    assert_eq!(
        refused(Conv2dLayer::new(1, 0, (6, 6, 3), None, None, None, None, random_kernels(0, 1, 3))),
        Conv2dError::KernelSizeError
    );
    assert_eq!(
        refused(Conv2dLayer::new(1, 7, (6, 6, 3), None, None, None, None, random_kernels(7, 1, 3))),
        Conv2dError::OutputShapeError
    );
    assert_eq!(
        refused(Conv2dLayer::new(
            1,
            3,
            (6, 6, 3),
            None,
            Some((0, 1)),
            None,
            None,
            random_kernels(3, 1, 3)
        )),
        Conv2dError::OutputShapeError
    );
    assert_eq!(
        refused(Conv2dLayer::new(2, 3, (6, 6, 3), None, None, None, None, random_kernels(3, 1, 3))),
        Conv2dError::KernelShapeError
    );
    assert_eq!(
        refused(Conv2dLayer::new(1, 3, (6, 6, 3), None, None, None, None, random_kernels(3, 1, 2))),
        Conv2dError::KernelShapeError
    );
    assert_eq!(
        refused(Conv2dLayer::new(1, 3, (6, 6, 3), None, None, None, None, random_kernels(2, 1, 3))),
        Conv2dError::KernelShapeError
    );
}

#[test]
fn error_messages() {
    assert_eq!(Conv2dError::KernelSizeError.message(), "invalid kernel size");
    assert_eq!(Conv2dError::OutputShapeError.message(), "invalid output shape");
    assert_eq!(Conv2dError::KernelShapeError.message(), "invalid kernel shape");
    assert_eq!(
        InvalidDimensionsError { expected: (1, 2, 1) }.message(),
        "Dimensions should match for forwarding: expected (1, 2, 1)"
    );
    assert_eq!(
        InvalidDimensionsError { expected: (0, 10, 4096) }.message(),
        "Dimensions should match for forwarding: expected (0, 10, 4096)"
    );
    assert_eq!(
        InvalidDimensionsError { expected: (usize::MAX, 909, 1234567890) }.message(),
        format!(
            "Dimensions should match for forwarding: expected ({}, 909, 1234567890)",
            usize::MAX
        )
    );
}

#[test]
fn conv2d_computes_dot_products_of_kernel_and_window() {
    let input = counting(3, 4, 2);
    let first = tensor((2, 2, 2), &[1.0, 0.0, 0.0, 0.0, 0.0, 0.0, 0.0, 1.0]);
    let second = tensor((2, 2, 2), &[-1.0; 8]);
    let nn = Conv2dLayer::new(
        2,
        2,
        (3, 4, 2),
        None,
        None,
        None,
        Some(ActivationFunctionType::Relu),
        vec![first, second],
    )
    .unwrap();
    let result = nn.forward(&input, &arithmetic).unwrap();
    assert_eq!(result.dim(), (2, 3, 2));
    for row in 0..2 {
        for col in 0..3 {
            let top_left = float(input.get(row, col, 0));
            let bottom_right = float(input.get(row + 1, col + 1, 1));
            assert_eq!(float(result.get(row, col, 0)), top_left + bottom_right);
            assert_eq!(float(result.get(row, col, 1)), 0.0);
        }
    }
    assert_eq!(float(result.get(0, 0, 0)), 0.0 + 11.0);
    assert_eq!(float(result.get(1, 2, 0)), 12.0 + 23.0);
}

#[test]
fn conv2d_window_advances_by_one_whatever_the_stride() {
    let input = counting(5, 5, 1);
    let kernel = tensor((1, 1, 1), &[1.0]);
    let nn = Conv2dLayer::new(1, 1, (5, 5, 1), None, Some((2, 2)), None, None, vec![kernel])
        .unwrap();
    assert_eq!(nn.output_dim, (3, 3, 1));
    let result = nn.forward(&input, &arithmetic).unwrap();
    assert_eq!(floats(&result), vec![0.0, 1.0, 2.0, 5.0, 6.0, 7.0, 10.0, 11.0, 12.0]);
}

#[test]
fn conv2d_window_covers_adjacent_scalars_whatever_the_dilation() {
    let input = counting(5, 5, 1);
    let kernel = tensor((2, 2, 1), &[1.0, 1.0, 1.0, 1.0]);
    let nn = Conv2dLayer::new(1, 2, (5, 5, 1), None, None, Some((2, 2)), None, vec![kernel])
        .unwrap();
    assert_eq!(nn.output_dim, (3, 3, 1));
    let result = nn.forward(&input, &arithmetic).unwrap();
    assert_eq!(float(result.get(0, 0, 0)), 0.0 + 1.0 + 5.0 + 6.0);
    assert_eq!(float(result.get(2, 2, 0)), 12.0 + 13.0 + 17.0 + 18.0);
}

#[test]
fn conv2d_refuses_an_input_that_its_windows_leave() {
    let nn = Conv2dLayer::new(1, 3, (6, 6, 1), None, None, None, None, random_kernels(3, 1, 1))
        .unwrap();
    let expected = LayerError::IncorrectDimensions(InvalidDimensionsError { expected: (6, 6, 1) });
    let result = nn.forward(&counting(4, 6, 1), &arithmetic);
    assert_eq!(result.err(), Some(expected));
    let result = nn.forward(&counting(6, 6, 2), &arithmetic);
    assert_eq!(result.err(), Some(expected));
    let larger = nn.forward(&counting(7, 8, 1), &arithmetic).unwrap();
    assert_eq!(larger.dim(), (4, 4, 1));
}

#[test]
fn conv2d_treats_softmax_as_the_identity() {
    let input = counting(2, 2, 1);
    let kernel = tensor((1, 1, 1), &[2.0]);
    let nn = Conv2dLayer::new(
        1,
        1,
        (2, 2, 1),
        None,
        None,
        None,
        Some(ActivationFunctionType::Softmax),
        vec![kernel],
    )
    .unwrap();
    let result = nn.forward(&input, &arithmetic).unwrap();
    assert_eq!(floats(&result), vec![0.0, 2.0, 4.0, 6.0]);
}

#[test]
fn dense_is_weights_times_input_plus_bias() {
    let weights = tensor((2, 1, 1), &[0.5, -2.0]);
    let bias = tensor((1, 1, 1), &[0.25]);
    let nn = DenseLayer::new(2, 1, None, weights, bias);
    let result = nn.forward(&tensor((1, 2, 1), &[3.0, 1.5]), &arithmetic).unwrap();
    assert_eq!(result.dim(), (1, 1, 1));
    assert_eq!(floats(&result), vec![0.5 * 3.0 + -2.0 * 1.5 + 0.25]);
    assert_eq!(floats(&result), vec![-1.25]);
}

#[test]
fn dense_is_a_matrix_vector_product() {
    let weights = tensor((2, 3, 1), &[1.0, 2.0, 3.0, 4.0, 5.0, 6.0]);
    let bias = tensor((1, 3, 1), &[0.5, -0.5, 10.0]);
    let nn = DenseLayer::new(2, 3, None, weights, bias);
    let result = nn.forward(&tensor((1, 2, 1), &[1.0, -1.0]), &arithmetic).unwrap();
    assert_eq!(result.dim(), (1, 3, 1));
    assert_eq!(floats(&result), vec![1.0 - 4.0 + 0.5, 2.0 - 5.0 - 0.5, 3.0 - 6.0 + 10.0]);
}

#[test]
fn dense_applies_its_activation() {
    let layer = |kind: ActivationFunctionType| {
        DenseLayer::new(
            1,
            2,
            Some(kind),
            tensor((1, 2, 1), &[1.0, -1.0]),
            tensor((1, 2, 1), &[0.0, 0.0]),
        )
    };
    let input = tensor((1, 1, 1), &[2.0]);
    let relu = layer(ActivationFunctionType::Relu).forward(&input, &arithmetic).unwrap();
    assert_eq!(floats(&relu), vec![2.0, 0.0]);
    let leaky = layer(ActivationFunctionType::LeakyRelu).forward(&input, &arithmetic).unwrap();
    assert_eq!(floats(&leaky), vec![2.0, 0.1 * -2.0]);
    let tanh = layer(ActivationFunctionType::Tanh).forward(&input, &arithmetic).unwrap();
    assert_eq!(floats(&tanh), vec![2.0_f32.tanh(), (-2.0_f32).tanh()]);
    let sigmoid = layer(ActivationFunctionType::Sigmoid).forward(&input, &arithmetic).unwrap();
    assert_eq!(
        floats(&sigmoid),
        vec![1.0 / (1.0 + (-2.0_f32).exp()), 1.0 / (1.0 + 2.0_f32.exp())]
    );
    let softmax = layer(ActivationFunctionType::Softmax).forward(&input, &arithmetic).unwrap();
    let total: f32 = floats(&softmax).iter().sum();
    assert!((total - 1.0).abs() < 1e-6);
    assert!(floats(&softmax)[0] > floats(&softmax)[1]);
}

#[test]
fn dense_reads_the_first_index_of_the_third_axis() {
    let nn = DenseLayer::new(
        2,
        1,
        None,
        tensor((2, 1, 1), &[1.0, 1.0]),
        tensor((1, 1, 1), &[0.0]),
    );
    let result = nn.forward(&tensor((1, 2, 2), &[1.0, 100.0, 2.0, 200.0]), &arithmetic).unwrap();
    assert_eq!(floats(&result), vec![3.0]);
}

#[test]
fn dense_refuses_an_input_of_other_dimensions() {
    let nn = DenseLayer::new(
        2,
        1,
        None,
        tensor((2, 1, 1), &[1.0, 1.0]),
        tensor((1, 1, 1), &[0.0]),
    );
    let refused = |input: Tensor| {
        nn.forward(&input, &arithmetic).err()
            == Some(LayerError::IncorrectDimensions(InvalidDimensionsError { expected: (1, 2, 1) }))
    };
    assert!(refused(counting(2, 2, 2)));
    assert!(refused(counting(1, 3, 1)));
    assert!(refused(counting(2, 2, 1)));
    assert!(refused(counting(1, 2, 0)));
    assert!(!refused(counting(1, 2, 1)));
}

#[test]
fn dense_refuses_weights_of_other_dimensions() {
    let nn = DenseLayer::new(
        2,
        1,
        None,
        tensor((1, 2, 1), &[1.0, 1.0]),
        tensor((1, 1, 1), &[0.0]),
    );
    assert!(nn.forward(&counting(1, 2, 1), &arithmetic).is_err());
    let nn = DenseLayer::new(
        2,
        1,
        None,
        tensor((2, 1, 1), &[1.0, 1.0]),
        tensor((1, 2, 1), &[0.0, 0.0]),
    );
    assert!(nn.forward(&counting(1, 2, 1), &arithmetic).is_err());
}

#[test]
fn layer_dispatches_to_its_kind() {
    let flatten = Layer::Flatten(FlattenLayer::new());
    assert_eq!(flatten.activation_function(), ActivationFunctionType::Identity);
    let flat = flatten.forward(&counting(2, 2, 1), &arithmetic).unwrap();
    assert_eq!(flat.dim(), (1, 4, 1));
    let pool = Layer::MaxPool2d(MaxPool2dLayer::new((2, 2), None, None));
    assert_eq!(pool.activation_function(), ActivationFunctionType::Identity);
    assert_eq!(floats(&pool.forward(&counting(2, 2, 1), &arithmetic).unwrap()), vec![3.0]);
    let dense = Layer::Dense(DenseLayer::new(
        1,
        1,
        Some(ActivationFunctionType::Relu),
        tensor((1, 1, 1), &[-1.0]),
        tensor((1, 1, 1), &[0.5]),
    ));
    assert_eq!(dense.activation_function(), ActivationFunctionType::Relu);
    assert_eq!(floats(&dense.forward(&tensor((1, 1, 1), &[2.0]), &arithmetic).unwrap()), vec![0.0]);
    let conv = Layer::Conv2d(
        Conv2dLayer::new(
            1,
            1,
            (1, 1, 1),
            None,
            None,
            None,
            Some(ActivationFunctionType::Sigmoid),
            vec![tensor((1, 1, 1), &[0.0])],
        )
        .unwrap(),
    );
    assert_eq!(conv.activation_function(), ActivationFunctionType::Sigmoid);
    assert_eq!(floats(&conv.forward(&tensor((1, 1, 1), &[2.0]), &arithmetic).unwrap()), vec![0.5]);
}

#[test]
fn layers_say_which_shapes_they_take() {
    let pool = MaxPool2dLayer::new((2, 2), None, None);
    assert!(pool.can_take((4, 6, 1)));
    assert!(pool.can_take((1, 1, 1)));
    assert!(!MaxPool2dLayer::new((2, 0), None, None).can_take((4, 6, 1)));
    assert!(!MaxPool2dLayer::new((2, 2), None, Some((usize::MAX, 0))).can_take((4, 6, 1)));
    let full = DenseLayer::new(
        2,
        1,
        None,
        tensor((2, 1, 1), &[1.0, 1.0]),
        tensor((1, 1, 1), &[0.0]),
    );
    assert!(full.can_take((1, 2, 1)));
    assert!(full.can_take((1, 2, 3)));
    assert!(!full.can_take((1, 2, 0)));
    assert!(!full.can_take((1, 3, 1)));
    assert!(!full.can_take((2, 2, 1)));
    let mut conv =
        Conv2dLayer::new(2, 3, (6, 6, 1), None, None, None, None, random_kernels(3, 2, 1)).unwrap();
    assert!(conv.can_take((6, 6, 1)));
    assert!(conv.can_take((7, 9, 1)));
    assert!(!conv.can_take((5, 6, 1)));
    assert!(!conv.can_take((6, 5, 1)));
    assert!(!conv.can_take((6, 6, 2)));
    conv.output_dim = (4, 4, 3);
    assert!(!conv.can_take((6, 6, 1)));
    conv.output_dim = (0, 4, 3);
    assert!(conv.can_take((1, 1, 5)));
    assert_eq!(conv.forward(&counting(1, 1, 5), &arithmetic).unwrap().dim(), (0, 4, 3));
    conv.output_dim = (usize::MAX, 2, 1);
    assert!(!conv.can_take((6, 6, 1)));
}

#[test]
fn layers_pad_height_and_width_and_leave_the_channels() {
    let input = counting(2, 2, 2);
    let padded = pad_plane(&input, &(1, 2));
    assert_eq!(padded.dim(), (3, 4, 2));
    for i in 0..3 {
        for j in 0..4 {
            for k in 0..2 {
                let expected = if i < 2 && j < 2 { input.get(i, j, k) } else { 0 };
                assert_eq!(padded.get(i, j, k), expected);
            }
        }
    }
    assert_eq!(float(padded.get(1, 1, 1)), 7.0);
    assert_eq!(float(padded.get(2, 1, 1)), 0.0);
    assert_eq!(pad_plane(&input, &(0, 0)).to_vec(), input.to_vec());
    assert_eq!(plane_padded_shape((2, 3, 4), &(1, 2)), Some((3, 5, 4)));
    assert_eq!(plane_padded_shape((2, 3, 4), &(usize::MAX, 0)), None);
    assert_eq!(plane_padded_shape((2, 3, 4), &(0, usize::MAX - 2)), None);
    assert_eq!(plane_padded_shape((2, 3, 0), &(usize::MAX - 2, 5)), None);
}
