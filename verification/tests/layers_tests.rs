use cognitora::layers::{check_range_fits, split_layers, validate_coverage, LayerRange, ModelParts};
use cognitora::error::Error;

#[test]
fn parses_layer_range() {
    let r = LayerRange::parse("0:16").unwrap();
    assert_eq!((r.start, r.end, r.len()), (0, 16, 16));
    assert_eq!(LayerRange::parse("16:32").unwrap().len(), 16);
    assert!(LayerRange::parse("16").is_err());
    assert!(LayerRange::parse("8:8").is_err());
    assert!(LayerRange::parse("9:8").is_err());
    assert!(LayerRange::parse("a:b").is_err());
}

#[test]
fn splits_layers_evenly() {
    let r = split_layers(32, 2).unwrap();
    assert_eq!(r, vec![LayerRange { start: 0, end: 16 }, LayerRange { start: 16, end: 32 }]);
}

#[test]
fn splits_layers_with_remainder_front_loaded() {
    let r = split_layers(10, 3).unwrap();
    assert_eq!(
        r,
        vec![
            LayerRange { start: 0, end: 4 },
            LayerRange { start: 4, end: 7 },
            LayerRange { start: 7, end: 10 },
        ]
    );
    validate_coverage(10, &r).unwrap();
}

#[test]
fn split_rejects_degenerate_inputs() {
    assert!(split_layers(4, 0).is_err());
    assert!(split_layers(4, 5).is_err());
}

#[test]
fn coverage_validation() {
    let ok = vec![LayerRange { start: 0, end: 3 }, LayerRange { start: 3, end: 8 }];
    validate_coverage(8, &ok).unwrap();

    let gap = vec![LayerRange { start: 0, end: 3 }, LayerRange { start: 4, end: 8 }];
    assert!(validate_coverage(8, &gap).is_err());

    let short = vec![LayerRange { start: 0, end: 3 }];
    assert!(validate_coverage(8, &short).is_err());

    let over = vec![LayerRange { start: 0, end: 9 }];
    assert!(validate_coverage(8, &over).is_err());
}

#[test]
fn coverage_messages_name_the_problem() {
    let gap = vec![LayerRange { start: 0, end: 3 }, LayerRange { start: 4, end: 8 }];
    let e = validate_coverage(8, &gap).unwrap_err();
    assert_eq!(
        e.message().as_str(),
        "pipeline layer ranges must be contiguous: expected a range starting at 3, got 4:8"
    );
    let short = vec![LayerRange { start: 0, end: 3 }];
    let e = validate_coverage(8, &short).unwrap_err();
    assert_eq!(e.message().as_str(), "pipeline layer ranges cover [0, 3) but the model has 8 layers");
}

#[test]
fn empty_range_is_rejected_with_its_text() {
    let e = LayerRange::new(5, 5).unwrap_err();
    assert_eq!(e.message().as_str(), "layer range 5:5 is empty");
    let r = LayerRange::new(2, 7).unwrap();
    assert_eq!(r.to_text(), "2:7");
    assert!(!r.is_empty());
}

#[test]
fn split_is_balanced_and_tiles() {
    let r = split_layers(7, 7).unwrap();
    assert_eq!(r.len(), 7);
    assert!(r.iter().all(|x| x.len() == 1));
    validate_coverage(7, &r).unwrap();
}

#[test]
fn model_parts_choose_the_ends() {
    assert_eq!(ModelParts::full(), ModelParts { embedding: true, output: true });
    assert_eq!(ModelParts::middle(), ModelParts { embedding: false, output: false });
}

#[test]
fn backward_chain_does_not_tile() {
    let back = vec![
        LayerRange { start: 0, end: 5 },
        LayerRange { start: 5, end: 2 },
        LayerRange { start: 2, end: 8 },
    ];
    match validate_coverage(8, &back) {
        Err(Error::InvalidArgument(m)) => assert_eq!(m, "pipeline layer range 5:2 runs backwards"),
        other => panic!("unexpected {other:?}"),
    }
}

#[test]
fn range_must_fit_the_model() {
    let r = LayerRange::new(16, 32).unwrap();
    assert!(check_range_fits(&r, 32).is_ok());
    match check_range_fits(&r, 30) {
        Err(Error::InvalidArgument(m)) => assert_eq!(m, "layer range 16:32 exceeds model layer count 30"),
        other => panic!("unexpected {:?}", other),
    }
}
