use mlir_pipeline_utils::infer::{infer_pass_pipeline, InferError, Pass, Pipeline};
use mlir_pipeline_utils::marker::LogKind;
use mlir_pipeline_utils::namer::ArtifactName;
use mlir_pipeline_utils::splitter::process_log_stream;

fn name(sequence: usize, kind: LogKind, pass: &str) -> ArtifactName {
    ArtifactName { sequence, kind, pass_name: pass.to_string() }
}

fn preorder(p: &Pipeline, out: &mut Vec<String>) {
    for pass in &p.passes {
        match pass {
            Pass::Single(s) => out.push(s.pass_name.clone()),
            Pass::Nested { parent, pipeline } => {
                out.push(parent.pass_name.clone());
                preorder(pipeline, out);
            }
        }
    }
}

#[test]
fn nested_pair_gives_parent_and_leaf() {
    let entries = vec![
        name(1, LogKind::Before, "Foo"),
        name(2, LogKind::Before, "Bar"),
        name(2, LogKind::After, "Bar"),
        name(1, LogKind::After, "Foo"),
    ];
    let pipeline = infer_pass_pipeline(&entries).unwrap();
    assert_eq!(pipeline.passes.len(), 1);
    match &pipeline.passes[0] {
        Pass::Nested { parent, pipeline } => {
            assert_eq!(parent.pass_name, "Foo");
            assert_eq!((parent.before, parent.after), (0, 3));
            assert_eq!(pipeline.passes.len(), 1);
            match &pipeline.passes[0] {
                Pass::Single(s) => {
                    assert_eq!(s.pass_name, "Bar");
                    assert_eq!((s.before, s.after), (1, 2));
                }
                other => panic!("expected a leaf, got {other:?}"),
            }
        }
        other => panic!("expected a nested pass, got {other:?}"),
    }
}

#[test]
fn lone_before_exhausts_the_input() {
    let entries = vec![name(1, LogKind::Before, "Foo")];
    match infer_pass_pipeline(&entries) {
        Err(InferError::ExhaustedInput { expected }) => assert_eq!(expected, "Foo"),
        other => panic!("expected exhausted input, got {other:?}"),
    }
}

#[test]
fn inner_before_is_named_when_input_ends() {
    let entries = vec![name(1, LogKind::Before, "Foo"), name(2, LogKind::Before, "Bar")];
    match infer_pass_pipeline(&entries) {
        Err(InferError::ExhaustedInput { expected }) => assert_eq!(expected, "Bar"),
        other => panic!("expected exhausted input, got {other:?}"),
    }
}

#[test]
fn after_of_another_pass_is_a_mismatch() {
    let entries = vec![name(1, LogKind::Before, "Foo"), name(1, LogKind::After, "Bar")];
    match infer_pass_pipeline(&entries) {
        Err(InferError::MismatchedAfter { expected, actual }) => {
            assert_eq!(expected, "Foo");
            assert_eq!(actual, "Bar");
        }
        other => panic!("expected mismatched after, got {other:?}"),
    }
}

#[test]
fn unknown_kind_is_fatal() {
    let entries = vec![
        name(1, LogKind::Before, "Foo"),
        name(1, LogKind::After, "Foo"),
        name(2, LogKind::Unknown, "Bar"),
    ];
    assert!(matches!(infer_pass_pipeline(&entries), Err(InferError::UnknownKind { index: 2 })));
}

#[test]
fn unknown_kind_inside_a_pass_is_fatal() {
    let entries = vec![
        name(1, LogKind::Before, "Foo"),
        name(2, LogKind::Unknown, "Bar"),
        name(3, LogKind::After, "Foo"),
    ];
    assert!(matches!(infer_pass_pipeline(&entries), Err(InferError::UnknownKind { index: 1 })));
}

#[test]
fn empty_list_is_an_empty_pipeline() {
    let pipeline = infer_pass_pipeline(&Vec::new()).unwrap();
    assert!(pipeline.passes.is_empty());
}

#[test]
fn siblings_stay_in_order() {
    let entries = vec![
        name(1, LogKind::Before, "A"),
        name(1, LogKind::After, "A"),
        name(2, LogKind::Before, "B"),
        name(2, LogKind::After, "B"),
    ];
    let pipeline = infer_pass_pipeline(&entries).unwrap();
    assert_eq!(pipeline.passes.len(), 2);
    assert!(matches!(&pipeline.passes[0], Pass::Single(s) if s.pass_name == "A" && s.before == 0 && s.after == 1));
    assert!(matches!(&pipeline.passes[1], Pass::Single(s) if s.pass_name == "B" && s.before == 2 && s.after == 3));
}

#[test]
fn reading_stops_at_an_after_that_closes_nothing() {
    let entries = vec![
        name(1, LogKind::Before, "A"),
        name(1, LogKind::After, "A"),
        name(2, LogKind::After, "B"),
        name(3, LogKind::Before, "C"),
    ];
    let pipeline = infer_pass_pipeline(&entries).unwrap();
    assert_eq!(pipeline.passes.len(), 1);
}

#[test]
fn split_then_infer_keeps_the_order_of_the_passes() {
    let marker = |kind: &str, pass: &str| format!("// -----// IR Dump {kind} {pass} (opts) //----- //\n");
    let log: Vec<String> = vec![
        "prelude\n".to_string(),
        marker("Before", "A"),
        marker("Before", "B"),
        "body\n".to_string(),
        marker("Before", "C"),
        marker("After", "C"),
        marker("After", "B"),
        marker("Before", "D"),
        marker("After", "D"),
        marker("After", "A"),
        marker("Before", "E"),
        marker("After", "E"),
    ];
    let artifacts = process_log_stream(&log);
    let mut names: Vec<(String, ArtifactName)> = artifacts
        .into_iter()
        .filter_map(|a| a.name)
        .map(|n| (n.file_name(true), n))
        .collect();
    let chronological: Vec<ArtifactName> = names.iter().map(|(_, n)| n.clone()).collect();
    names.sort_by(|a, b| a.0.cmp(&b.0));
    let sorted: Vec<ArtifactName> = names.into_iter().map(|(_, n)| n).collect();
    assert_eq!(sorted, chronological);
    let pipeline = infer_pass_pipeline(&sorted).unwrap();
    let mut order = Vec::new();
    preorder(&pipeline, &mut order);
    assert_eq!(order, vec!["A", "B", "C", "D", "E"]);
    assert_eq!(pipeline.passes.len(), 2);
}

#[test]
fn drawing_of_a_nested_pipeline() {
    let entries = vec![
        name(1, LogKind::Before, "A"),
        name(2, LogKind::Before, "B"),
        name(3, LogKind::Before, "C"),
        name(3, LogKind::After, "C"),
        name(4, LogKind::After, "B"),
        name(5, LogKind::Before, "D"),
        name(5, LogKind::After, "D"),
        name(6, LogKind::After, "A"),
        name(7, LogKind::Before, "E"),
        name(7, LogKind::After, "E"),
    ];
    let pipeline = infer_pass_pipeline(&entries).unwrap();
    let expected = "  ┠─ A\n  ┃  ┠─ B\n  ┃  ┃  ┖─ C\n  ┃  ┖─ D\n  ┖─ E\n";
    assert_eq!(pipeline.display(), expected);
}

#[test]
fn drawing_of_an_empty_pipeline() {
    let pipeline = infer_pass_pipeline(&Vec::new()).unwrap();
    assert_eq!(pipeline.display(), "");
}

#[test]
fn drawing_of_one_pass() {
    let entries = vec![name(1, LogKind::Before, "Only"), name(1, LogKind::After, "Only")];
    let pipeline = infer_pass_pipeline(&entries).unwrap();
    assert_eq!(pipeline.display(), "  ┖─ Only\n");
}

#[test]
fn drawing_below_the_last_pass_has_no_bar() {
    let entries = vec![
        name(1, LogKind::Before, "A"),
        name(1, LogKind::After, "A"),
        name(2, LogKind::Before, "E"),
        name(3, LogKind::Before, "F"),
        name(3, LogKind::After, "F"),
        name(4, LogKind::Before, "G"),
        name(4, LogKind::After, "G"),
        name(5, LogKind::After, "E"),
    ];
    let pipeline = infer_pass_pipeline(&entries).unwrap();
    let expected = "  ┠─ A\n  ┖─ E\n     ┠─ F\n     ┖─ G\n";
    assert_eq!(pipeline.display(), expected);
}
