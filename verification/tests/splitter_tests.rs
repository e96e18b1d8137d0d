use mlir_pipeline_utils::marker::LogKind;
use mlir_pipeline_utils::namer::{ArtifactName, ArtifactNamer};
use mlir_pipeline_utils::splitter::{process_log_stream, route_line, Artifact, LineAction};

fn marker(kind: &str, pass: &str) -> String {
    format!("// -----// IR Dump {kind} {pass} ({}) //----- //\n", pass.to_lowercase())
}

fn lines(text: &[&str]) -> Vec<String> {
    text.iter().map(|l| l.to_string()).collect()
}

fn check(a: &Artifact, name: Option<(usize, LogKind, &str)>, content: &[&str]) {
    let expected = name.map(|(sequence, kind, pass)| ArtifactName {
        sequence,
        kind,
        pass_name: pass.to_string(),
    });
    assert_eq!(a.name, expected);
    assert_eq!(a.lines, lines(content));
}

#[test]
fn empty_log_gives_an_empty_prelude() {
    let out = process_log_stream(&Vec::new());
    assert_eq!(out.len(), 1);
    check(&out[0], None, &[]);
}

#[test]
fn log_without_markers_is_all_prelude() {
    let out = process_log_stream(&lines(&["a\n", "b\n", "c"]));
    assert_eq!(out.len(), 1);
    check(&out[0], None, &["a\n", "b\n", "c"]);
}

#[test]
fn marker_line_is_the_first_line_of_its_artifact() {
    let b = marker("Before", "Foo");
    let a = marker("After", "Foo");
    let out = process_log_stream(&lines(&["hello\n", &b, "x\n", "y\n", &a, "z\n"]));
    assert_eq!(out.len(), 3);
    check(&out[0], None, &["hello\n"]);
    check(&out[1], Some((1, LogKind::Before, "Foo")), &[&b, "x\n", "y\n"]);
    check(&out[2], Some((1, LogKind::After, "Foo")), &[&a, "z\n"]);
}

#[test]
fn one_artifact_per_marker_and_the_prelude() {
    let log = lines(&[
        &marker("Before", "Outer"),
        "o\n",
        &marker("Before", "Inner"),
        &marker("After", "Inner"),
        "i\n",
        &marker("After", "Outer"),
        &marker("Before", "Last"),
        &marker("After", "Last"),
    ]);
    let out = process_log_stream(&log);
    assert_eq!(out.len(), 1 + 6);
    let seqs: Vec<usize> = out.iter().skip(1).map(|a| a.name.as_ref().unwrap().sequence).collect();
    assert_eq!(seqs, vec![1, 2, 2, 3, 4, 4]);
    let total: usize = out.iter().map(|a| a.lines.len()).sum();
    assert_eq!(total, log.len());
}

#[test]
fn malformed_marker_stays_in_the_open_artifact() {
    let b = marker("Before", "Foo");
    let bad = "// -----// IR Dump After Foo //----- //\n";
    let out = process_log_stream(&lines(&[&b, "x\n", bad, "y\n"]));
    assert_eq!(out.len(), 2);
    check(&out[0], None, &[]);
    check(&out[1], Some((1, LogKind::Before, "Foo")), &[&b, "x\n", bad, "y\n"]);
}

#[test]
fn malformed_marker_in_the_prelude() {
    let bad = "// -----// IR Dump  //----- //\n";
    let out = process_log_stream(&lines(&[bad]));
    assert_eq!(out.len(), 1);
    check(&out[0], None, &[bad]);
}

#[test]
fn unknown_kind_opens_an_artifact() {
    let u = marker("During", "Foo");
    let out = process_log_stream(&lines(&["p\n", &u, "x\n"]));
    assert_eq!(out.len(), 2);
    check(&out[1], Some((1, LogKind::Unknown, "Foo")), &[&u, "x\n"]);
}

#[test]
fn routing_line_by_line() {
    let mut namer = ArtifactNamer::new();
    assert!(matches!(route_line(&mut namer, "text\n"), LineAction::Content));
    assert!(matches!(
        route_line(&mut namer, "// -----// IR Dump Before //----- //\n"),
        LineAction::Malformed
    ));
    assert_eq!(namer.counter(), 0);
    match route_line(&mut namer, &marker("Before", "Foo")) {
        LineAction::Marker { name, fresh } => {
            assert!(fresh);
            assert_eq!(name, ArtifactName { sequence: 1, kind: LogKind::Before, pass_name: "Foo".to_string() });
        }
        other => panic!("expected a marker, got {other:?}"),
    }
    match route_line(&mut namer, &marker("After", "Foo")) {
        LineAction::Marker { name, fresh } => {
            assert!(!fresh);
            assert_eq!(name, ArtifactName { sequence: 1, kind: LogKind::After, pass_name: "Foo".to_string() });
        }
        other => panic!("expected a marker, got {other:?}"),
    }
    assert_eq!(namer.counter(), 1);
}
