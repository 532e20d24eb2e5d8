use minisvg::transform::{parse_transform_ops, TransformKind, TransformParser};

#[test]
fn transform_functions_take_their_numbers() {
    let ops = parse_transform_ops(b"translate(10 20) scale(2), rotate(45 1,2) skewX(3) foo(1 2) matrix(1 2 3)");
    let kinds: Vec<TransformKind> = ops.iter().map(|o| o.kind).collect();
    assert_eq!(
        kinds,
        vec![
            TransformKind::Translate,
            TransformKind::Scale,
            TransformKind::Rotate,
            TransformKind::SkewX,
            TransformKind::Other,
            TransformKind::Matrix,
        ]
    );
    assert_eq!(ops[0].args, vec![Some(&b"10"[..]), Some(&b"20"[..])]);
    assert_eq!(ops[1].args, vec![Some(&b"2"[..]), None]);
    assert_eq!(ops[2].args, vec![Some(&b"45"[..]), Some(&b"1"[..]), Some(&b"2"[..])]);
    assert_eq!(ops[3].args, vec![Some(&b"3"[..])]);
    assert!(ops[4].args.is_empty());
    assert_eq!(
        ops[5].args,
        vec![Some(&b"1"[..]), Some(&b"2"[..]), Some(&b"3"[..]), None, None, None]
    );
}

#[test]
fn no_function_name_means_no_transform() {
    assert!(parse_transform_ops(b"").is_empty());
    assert!(parse_transform_ops(b"  (1 2)").is_empty());
}

#[test]
fn command_names_are_letter_runs() {
    let mut p = TransformParser::new(b" ,skewY(1)");
    assert_eq!(p.next_command(), Some(&b"skewY"[..]));
    assert_eq!(p.pos, 7);
    assert_eq!(p.next_command(), None);
}
