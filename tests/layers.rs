use digit_cnn::{argmax, Conv2D, Flatten, FullyConnected, MaxPooling2D, ModelError, ReLU, ONE};

fn fx(v: f32) -> i32 {
    (v * ONE as f32) as i32
}

fn fx3(t: Vec<Vec<Vec<f32>>>) -> Vec<Vec<Vec<i32>>> {
    t.into_iter()
        .map(|p| p.into_iter().map(|r| r.into_iter().map(fx).collect()).collect())
        .collect()
}

fn fx4(t: Vec<Vec<Vec<Vec<f32>>>>) -> Vec<Vec<Vec<Vec<i32>>>> {
    t.into_iter().map(fx3).collect()
}

fn fx1(t: Vec<f32>) -> Vec<i32> {
    t.into_iter().map(fx).collect()
}

fn fx2(t: Vec<Vec<f32>>) -> Vec<Vec<i32>> {
    t.into_iter().map(fx1).collect()
}

#[test]
fn conv2d_test() {
    let input_size = 1;
    let output_size = 4;
    let filter = vec![
        vec![vec![vec![1.0, 0.5], vec![0.5, 1.0]]],
        vec![vec![vec![1.0, 0.5], vec![0.5, 1.0]]],
        vec![vec![vec![0.0, 0.5], vec![0.5, 0.0]]],
        vec![vec![vec![0.0, 0.5], vec![0.0, 1.0]]],
    ];
    let bias = vec![0.0, 1.0, 1.0, 0.0];
    let conv2d = Conv2D::new(input_size, output_size, fx4(filter), fx1(bias)).unwrap();
    let input = vec![vec![
        vec![1.0, 1.0, 1.0, 1.0],
        vec![1.0, 1.0, 1.0, 1.0],
        vec![1.0, 1.0, 1.0, 1.0],
        vec![1.0, 1.0, 1.0, 1.0],
    ]];
    let output = conv2d.forward(&fx3(input)).unwrap();
    assert_eq!(
        output,
        fx3(vec![
            vec![vec![3.0, 3.0, 3.0], vec![3.0, 3.0, 3.0], vec![3.0, 3.0, 3.0]],
            vec![vec![4.0, 4.0, 4.0], vec![4.0, 4.0, 4.0], vec![4.0, 4.0, 4.0]],
            vec![vec![2.0, 2.0, 2.0], vec![2.0, 2.0, 2.0], vec![2.0, 2.0, 2.0]],
            vec![vec![1.5, 1.5, 1.5], vec![1.5, 1.5, 1.5], vec![1.5, 1.5, 1.5]],
        ]),
        "Sample: {:?}",
        output
    );
}

#[test]
fn max_pooling_2d_test() {
    let pool_size = 2;
    let maxpooling2d = MaxPooling2D::new(pool_size);
    let input = vec![vec![
        vec![1.0, 2.0, 3.0, 4.0],
        vec![5.0, 6.0, 7.0, 8.0],
        vec![9.0, 10.0, 11.0, 12.0],
        vec![13.0, 14.0, 15.0, 16.0],
    ]];
    let output = maxpooling2d.forward(&fx3(input)).unwrap();
    assert_eq!(output, fx3(vec![vec![vec![6.0, 8.0], vec![14.0, 16.0]]]), "Sample: {:?}", output);

    let input = vec![vec![
        vec![1.0, 2.0, 3.0, 4.0, 5.0],
        vec![6.0, 7.0, 8.0, 9.0, 10.0],
        vec![11.0, 12.0, 13.0, 14.0, 15.0],
        vec![16.0, 17.0, 18.0, 19.0, 20.0],
        vec![21.0, 22.0, 23.0, 24.0, 25.0],
    ]];
    let output = maxpooling2d.forward(&fx3(input)).unwrap();
    assert_eq!(output, fx3(vec![vec![vec![7.0, 9.0], vec![17.0, 19.0]]]), "Sample: {:?}", output);
}

#[test]
fn flatten_test() {
    let input = vec![vec![vec![1.0, 2.0, 3.0], vec![4.0, 5.0, 6.0], vec![7.0, 8.0, 9.0]]];
    let output = Flatten::forward(&fx3(input));
    assert_eq!(
        output,
        fx1(vec![1.0, 2.0, 3.0, 4.0, 5.0, 6.0, 7.0, 8.0, 9.0]),
        "Sample: {:?}",
        output
    );
}

#[test]
fn relu_test() {
    let input = vec![
        vec![vec![1.0, -2.0, 3.0], vec![-4.0, 5.0, -6.0], vec![7.0, -8.0, 9.0]],
        vec![vec![-1.0, 2.0, -3.0], vec![4.0, -5.0, 6.0], vec![-7.0, 8.0, -9.0]],
    ];
    let output = ReLU::forward(&fx3(input));
    assert_eq!(
        output,
        fx3(vec![
            vec![vec![1.0, 0.0, 3.0], vec![0.0, 5.0, 0.0], vec![7.0, 0.0, 9.0]],
            vec![vec![0.0, 2.0, 0.0], vec![4.0, 0.0, 6.0], vec![0.0, 8.0, 0.0]],
        ]),
        "Sample: {:?}",
        output
    );
}

#[test]
fn fully_connected_test() {
    let input_size = 5;
    let output_size = 2;
    let weights = vec![vec![1.0, 2.0, 3.0, 4.0, 5.0], vec![6.0, 7.0, 8.0, 9.0, 10.0]];
    let bias = vec![1.0, 2.0];
    let fully_connected =
        FullyConnected::new(input_size, output_size, fx2(weights), fx1(bias)).unwrap();
    let input = vec![1.0, 2.0, 3.0, 4.0, 5.0];
    let output = fully_connected.forward(&fx1(input)).unwrap();
    assert_eq!(output, fx1(vec![56.0, 132.0]), "Sample: {:?}", output);
}

#[test]
fn model_test() {
    let x = fx3(vec![vec![
        vec![1.0, 1.0, 1.0, 1.0, 1.0],
        vec![1.0, 1.0, 1.0, 1.0, 1.0],
        vec![1.0, 1.0, 1.0, 1.0, 1.0],
        vec![1.0, 1.0, 1.0, 1.0, 1.0],
        vec![1.0, 1.0, 1.0, 1.0, 1.0],
    ]]);
    let conv2d1 = Conv2D::new(
        1,
        2,
        fx4(vec![
            vec![vec![vec![1.0, 0.5], vec![0.5, 1.0]]],
            vec![vec![vec![1.0, 0.5], vec![0.5, 1.0]]],
        ]),
        fx1(vec![0.0, 1.0]),
    )
    .unwrap();
    let x = conv2d1.forward(&x).unwrap();
    println!("Conv2D: {:?}", x);
    assert_eq!(x, fx3(vec![vec![vec![3.0; 4]; 4], vec![vec![4.0; 4]; 4]]));

    let maxpooling2d1 = MaxPooling2D::new(2);
    let x = maxpooling2d1.forward(&x).unwrap();
    println!("MaxPooling2D: {:?}", x);
    assert_eq!(x, fx3(vec![vec![vec![3.0; 2]; 2], vec![vec![4.0; 2]; 2]]));
}

#[test]
fn conv_bias_added_once_per_cell() {
    // Two input channels: a bias added per input channel would give 2·b.
    let conv = Conv2D::new(
        2,
        1,
        fx4(vec![vec![vec![vec![1.0]], vec![vec![1.0]]]]),
        fx1(vec![5.0]),
    )
    .unwrap();
    let input = fx3(vec![vec![vec![1.0, 2.0]], vec![vec![3.0, 4.0]]]);
    assert_eq!(conv.forward(&input).unwrap(), fx3(vec![vec![vec![9.0, 11.0]]]));
}

#[test]
fn conv_output_shape_non_square() {
    let conv = Conv2D::new(1, 3, vec![vec![vec![vec![0; 3]; 2]]; 3], vec![0; 3]).unwrap();
    let input = vec![vec![vec![7; 6]; 5]];
    let out = conv.forward(&input).unwrap();
    assert_eq!(out.len(), 3);
    for plane in &out {
        assert_eq!(plane.len(), 5 - 2 + 1);
        for row in plane {
            assert_eq!(row.len(), 6 - 3 + 1);
        }
    }
}

#[test]
fn conv_zero_parameters_give_zero() {
    let conv = Conv2D::new(2, 2, vec![vec![vec![vec![0; 2]; 2]; 2]; 2], vec![0, 0]).unwrap();
    let input = vec![vec![vec![12345, -999, 4], vec![-7, 8, 65536]], vec![vec![1, 2, 3], vec![4, 5, 6]]];
    assert_eq!(conv.forward(&input).unwrap(), vec![vec![vec![0, 0]]; 2]);
}

#[test]
fn conv_rounds_down_to_grid() {
    // 0.5 · 2^-16 rounds down to 0; -0.5 · 2^-16 rounds down to -2^-16.
    let conv = Conv2D::new(1, 1, vec![vec![vec![vec![ONE / 2]]]], vec![0]).unwrap();
    assert_eq!(conv.forward(&vec![vec![vec![1, -1, 4]]]).unwrap(), vec![vec![vec![0, -1, 2]]]);
}

#[test]
fn conv_rejects_bad_input_shapes() {
    let conv = Conv2D::new(1, 1, vec![vec![vec![vec![1; 2]; 2]]], vec![0]).unwrap();
    // Wrong channel count.
    assert_eq!(conv.forward(&vec![vec![vec![1; 3]; 3]; 2]), Err(ModelError::ShapeMismatch));
    // Smaller than the kernel.
    assert_eq!(conv.forward(&vec![vec![vec![1; 1]; 3]]), Err(ModelError::ShapeMismatch));
    // Ragged rows.
    assert_eq!(
        conv.forward(&vec![vec![vec![1, 1, 1], vec![1, 1], vec![1, 1, 1]]]),
        Err(ModelError::ShapeMismatch)
    );
}

#[test]
fn conv_reports_out_of_range_result() {
    let conv = Conv2D::new(1, 1, vec![vec![vec![vec![i32::MAX; 2]; 2]]], vec![0]).unwrap();
    assert_eq!(conv.forward(&vec![vec![vec![i32::MAX; 2]; 2]]), Err(ModelError::NumericError));
}

#[test]
fn conv_new_rejects_inconsistent_parameters() {
    // Bias length differs from the output channel count.
    assert_eq!(
        Conv2D::new(1, 2, vec![vec![vec![vec![1]]]; 2], vec![0]).unwrap_err(),
        ModelError::ShapeMismatch
    );
    // Filter slab of another kernel size.
    assert_eq!(
        Conv2D::new(1, 2, vec![vec![vec![vec![1]]], vec![vec![vec![1, 1]]]], vec![0, 0]).unwrap_err(),
        ModelError::ShapeMismatch
    );
    // Declared input channels disagree with the filter bank.
    assert_eq!(
        Conv2D::new(2, 1, vec![vec![vec![vec![1]]]], vec![0]).unwrap_err(),
        ModelError::ShapeMismatch
    );
    // Empty kernel.
    assert_eq!(
        Conv2D::new(1, 1, vec![vec![vec![]]], vec![0]).unwrap_err(),
        ModelError::ShapeMismatch
    );
}

#[test]
fn max_pool_all_negative_window() {
    let pool = MaxPooling2D::new(2);
    let input = fx3(vec![vec![vec![-3.0, -1.5], vec![-2.0, -4.0]]]);
    assert_eq!(pool.forward(&input).unwrap(), fx3(vec![vec![vec![-1.5]]]));
}

#[test]
fn max_pool_within_window_bounds() {
    let pool = MaxPooling2D::new(3);
    let input = vec![vec![
        vec![0, 5, 2, 9, 9, 9],
        vec![1, 0, 3, 1, 1, 1],
        vec![4, 0, 0, 0, 2, 0],
    ]];
    let out = pool.forward(&input).unwrap();
    assert_eq!(out, vec![vec![vec![5, 9]]]);
    let global = 9;
    for p in &out {
        for r in p {
            for v in r {
                assert!(*v <= global);
            }
        }
    }
}

#[test]
fn max_pool_smaller_than_window_is_empty() {
    let pool = MaxPooling2D::new(3);
    let out = pool.forward(&vec![vec![vec![1, 2], vec![3, 4]]; 2]).unwrap();
    assert_eq!(out, vec![Vec::<Vec<i32>>::new(); 2]);
}

#[test]
fn max_pool_rejects_ragged_input() {
    let pool = MaxPooling2D::new(2);
    assert_eq!(
        pool.forward(&vec![vec![vec![1, 2], vec![3]]]),
        Err(ModelError::ShapeMismatch)
    );
}

#[test]
fn relu_twice_equals_once() {
    let input = vec![vec![vec![-5, 0, 7], vec![i32::MIN, i32::MAX, -1]]];
    let once = ReLU::forward(&input);
    assert_eq!(ReLU::forward(&once), once);
    assert_eq!(once, vec![vec![vec![0, 0, 7], vec![0, i32::MAX, 0]]]);
}

#[test]
fn flatten_multi_channel_length_and_order() {
    let input = vec![vec![vec![1, 2], vec![3, 4], vec![5, 6]], vec![vec![7, 8], vec![9, 10], vec![11, 12]]];
    let out = Flatten::forward(&input);
    assert_eq!(out.len(), 2 * 3 * 2);
    assert_eq!(out, (1..=12).collect::<Vec<i32>>());
}

#[test]
fn fully_connected_rejects_wrong_length() {
    let fc = FullyConnected::new(2, 1, vec![vec![1, 1]], vec![0]).unwrap();
    assert_eq!(fc.forward(&vec![1, 2, 3]), Err(ModelError::ShapeMismatch));
    assert_eq!(
        FullyConnected::new(3, 1, vec![vec![1, 1]], vec![0]).unwrap_err(),
        ModelError::ShapeMismatch
    );
    assert_eq!(
        FullyConnected::new(2, 1, vec![vec![1, 1]], vec![0, 0]).unwrap_err(),
        ModelError::ShapeMismatch
    );
}

#[test]
fn fully_connected_fractional_weights() {
    let fc = FullyConnected::new(2, 1, vec![vec![fx(0.25), fx(-0.5)]], vec![fx(0.125)]).unwrap();
    // 0.125 + 2 · 0.25 − 1 · 0.5 = 0.125
    assert_eq!(fc.forward(&vec![fx(2.0), fx(1.0)]).unwrap(), vec![fx(0.125)]);
}

#[test]
fn fully_connected_reports_out_of_range_result() {
    let fc = FullyConnected::new(1, 1, vec![vec![i32::MAX]], vec![0]).unwrap();
    assert_eq!(fc.forward(&vec![i32::MAX]), Err(ModelError::NumericError));
}

#[test]
fn argmax_all_negative() {
    assert_eq!(argmax(&vec![-5, -3, -9, -4]), 1);
}

#[test]
fn argmax_ties_take_lowest_index() {
    assert_eq!(argmax(&vec![1, 7, 3, 7]), 1);
    assert_eq!(argmax(&vec![42]), 0);
}
