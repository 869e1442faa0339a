use digit_cnn::{
    generate_conv2d, generate_fully_connected, load_model, Conv2D, FullyConnected, ModelError,
    ParamValue, CNN, ONE,
};

fn num(v: i32) -> ParamValue {
    ParamValue::Number(v)
}

fn arr(items: Vec<ParamValue>) -> ParamValue {
    ParamValue::Array(items)
}

fn vec1(v: &[i32]) -> ParamValue {
    arr(v.iter().map(|x| num(*x)).collect())
}

fn vec2(v: &[&[i32]]) -> ParamValue {
    arr(v.iter().map(|r| vec1(r)).collect())
}

fn identity_conv() -> ParamValue {
    // [1, 1, 1, 1] filter bank holding 1.0.
    arr(vec![arr(vec![vec2(&[&[ONE]])])])
}

fn ramp_image() -> Vec<Vec<Vec<i32>>> {
    vec![(0..4).map(|r| (0..4).map(|c| (r * 4 + c + 1) * ONE).collect()).collect()]
}

fn small_doc(fc_weights: &[&[i32]]) -> Vec<(String, ParamValue)> {
    vec![
        ("conv1.weight".to_string(), identity_conv()),
        ("conv1.bias".to_string(), vec1(&[0])),
        ("conv2.weight".to_string(), identity_conv()),
        ("conv2.bias".to_string(), vec1(&[0])),
        ("fc1.weight".to_string(), vec2(fc_weights)),
        ("fc1.bias".to_string(), vec1(&vec![0; fc_weights.len()])),
    ]
}

#[test]
fn cnn_predicts_largest_logit() {
    let conv1 = Conv2D::new(1, 1, vec![vec![vec![vec![ONE]]]], vec![0]).unwrap();
    let conv2 = Conv2D::new(1, 1, vec![vec![vec![vec![ONE]]]], vec![0]).unwrap();
    let fc = FullyConnected::new(1, 3, vec![vec![ONE], vec![-ONE], vec![2 * ONE]], vec![0; 3]).unwrap();
    let cnn = CNN::new(1, 3, conv1, conv2, fc);
    // Two 2×2 poolings of 1..16 leave 16; logits are [16, −16, 32].
    assert_eq!(cnn.logits(&ramp_image()), Ok(vec![16 * ONE, -16 * ONE, 32 * ONE]));
    assert_eq!(cnn.forward(&ramp_image()), Ok(2));
}

#[test]
fn cnn_without_classes_is_refused() {
    let conv1 = Conv2D::new(1, 1, vec![vec![vec![vec![ONE]]]], vec![0]).unwrap();
    let conv2 = Conv2D::new(1, 1, vec![vec![vec![vec![ONE]]]], vec![0]).unwrap();
    let fc = FullyConnected::new(1, 0, vec![], vec![]).unwrap();
    let cnn = CNN::new(1, 0, conv1, conv2, fc);
    assert_eq!(cnn.forward(&ramp_image()), Err(ModelError::ShapeMismatch));
}

#[test]
fn cnn_rejects_wrong_input_channels() {
    let cnn = load_model(&small_doc(&[&[ONE]])).unwrap();
    let two_channels = vec![ramp_image()[0].clone(), ramp_image()[0].clone()];
    assert_eq!(cnn.forward(&two_channels), Err(ModelError::ShapeMismatch));
}

#[test]
fn load_model_and_classify() {
    let cnn = load_model(&small_doc(&[&[ONE], &[3 * ONE], &[3 * ONE]])).unwrap();
    // Logits [16, 48, 48]: the tie goes to the lower index.
    assert_eq!(cnn.forward(&ramp_image()), Ok(1));
}

#[test]
fn load_model_missing_key() {
    let mut doc = small_doc(&[&[ONE]]);
    doc.retain(|(k, _)| k != "conv2.bias");
    assert_eq!(load_model(&doc).unwrap_err(), ModelError::SchemaError);
}

#[test]
fn load_model_ragged_weights() {
    let mut doc = small_doc(&[&[ONE]]);
    doc[4].1 = vec2(&[&[1, 2], &[3]]);
    assert_eq!(load_model(&doc).unwrap_err(), ModelError::SchemaError);
}

#[test]
fn load_model_non_array_value() {
    let mut doc = small_doc(&[&[ONE]]);
    doc[1].1 = ParamValue::Other;
    assert_eq!(load_model(&doc).unwrap_err(), ModelError::SchemaError);
    let mut doc = small_doc(&[&[ONE]]);
    doc[0].1 = num(3);
    assert_eq!(load_model(&doc).unwrap_err(), ModelError::SchemaError);
}

#[test]
fn load_model_weight_bias_disagree() {
    let mut doc = small_doc(&[&[ONE]]);
    doc[3].1 = vec1(&[0, 0]);
    assert_eq!(load_model(&doc).unwrap_err(), ModelError::ShapeMismatch);
}

#[test]
fn generate_conv2d_reads_named_layer() {
    let doc = vec![
        ("other.weight".to_string(), num(1)),
        ("c.weight".to_string(), arr(vec![
            arr(vec![vec2(&[&[1, 2], &[3, 4]])]),
            arr(vec![vec2(&[&[1, 2], &[3, 4]])]),
        ])),
        ("c.bias".to_string(), vec1(&[10, 20])),
    ];
    let conv = generate_conv2d(&doc, "c").unwrap();
    // One input channel, two output channels, 2×2 kernels.
    let out = conv.forward(&vec![vec![vec![ONE; 2]; 2]]).unwrap();
    assert_eq!(out, vec![vec![vec![10 + 10]], vec![vec![20 + 10]]]);
    assert_eq!(generate_conv2d(&doc, "d").unwrap_err(), ModelError::SchemaError);
}

#[test]
fn generate_fully_connected_first_entry_wins() {
    let doc = vec![
        ("fc.weight".to_string(), vec2(&[&[ONE, ONE]])),
        ("fc.bias".to_string(), vec1(&[5])),
        ("fc.weight".to_string(), vec2(&[&[2 * ONE, 2 * ONE]])),
    ];
    let fc = generate_fully_connected(&doc, "fc").unwrap();
    assert_eq!(fc.forward(&vec![1, 2]).unwrap(), vec![8]);
}
