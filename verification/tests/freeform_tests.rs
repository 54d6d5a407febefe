use codex_plan::freeform::parse_freeform_args;
use codex_plan::freeform::reject_json_shape;
use codex_plan::freeform::JsonShape;

#[test]
fn parse_freeform_args_without_pragma() {
    let args = parse_freeform_args("console.log('ok');").expect("parse args");
    assert_eq!(args.source, "console.log('ok');");
    assert_eq!(args.timeout_ms, None);
}

#[test]
fn parse_freeform_args_with_artifact_tool_pragma() {
    let args = parse_freeform_args("// codex-artifact-tool: timeout_ms=45000\nconsole.log('ok');")
        .expect("parse args");
    assert_eq!(args.source, "console.log('ok');");
    assert_eq!(args.timeout_ms, Some(45_000));
}

#[test]
fn parse_freeform_args_rejects_json_wrapped_code() {
    let err = parse_freeform_args("{\"code\":\"console.log('ok')\"}").expect_err("expected error");
    assert!(
        err.to_string()
            .contains("artifacts is a freeform tool and expects raw JavaScript source")
    );
}

#[test]
fn parse_freeform_args_rejects_empty_input() {
    let err = parse_freeform_args("  \n\t").expect_err("expected error");
    assert!(err.to_string().starts_with("artifacts expects raw JavaScript source text (non-empty)"));
}

#[test]
fn parse_freeform_args_rejects_markdown_fence() {
    let err = parse_freeform_args("```js\nconsole.log(1);\n```").expect_err("expected error");
    assert!(err.to_string().contains("not markdown code fences"));
}

#[test]
fn parse_freeform_args_rejects_json_string() {
    let err = parse_freeform_args("\"console.log(1)\"").expect_err("expected error");
    assert!(err.to_string().contains("artifacts is a freeform tool"));
}

#[test]
fn parse_freeform_args_accepts_json_number_as_source() {
    let args = parse_freeform_args("42").expect("parse args");
    assert_eq!(args.source, "42");
}

#[test]
fn parse_freeform_args_rejects_token_without_value() {
    let err = parse_freeform_args("// codex-artifact-tool: timeout_ms\nx();").expect_err("expected error");
    assert_eq!(
        err.to_string(),
        "artifacts pragma expects space-separated key=value pairs (supported keys: timeout_ms); got `timeout_ms`"
    );
}

#[test]
fn parse_freeform_args_rejects_unknown_key() {
    let err = parse_freeform_args("// codex-artifact-tool: retries=3\nx();").expect_err("expected error");
    assert_eq!(
        err.to_string(),
        "artifacts pragma only supports timeout_ms; got `retries`"
    );
}

#[test]
fn parse_freeform_args_rejects_repeated_timeout() {
    let err = parse_freeform_args("// codex-artifact-tool: timeout_ms=1 timeout_ms=2\nx();")
        .expect_err("expected error");
    assert_eq!(
        err.to_string(),
        "artifacts pragma specifies timeout_ms more than once"
    );
}

#[test]
fn parse_freeform_args_rejects_non_integer_timeout() {
    let err = parse_freeform_args("// codex-artifact-tool: timeout_ms=soon\nx();").expect_err("expected error");
    assert_eq!(
        err.to_string(),
        "artifacts pragma timeout_ms must be an integer; got `soon`"
    );
    let err = parse_freeform_args("// codex-artifact-tool: timeout_ms=18446744073709551616\nx();")
        .expect_err("expected error");
    assert!(err.to_string().ends_with("got `18446744073709551616`"));
}

#[test]
fn parse_freeform_args_accepts_largest_timeout_and_plus_sign() {
    let args = parse_freeform_args("// codex-artifact-tool: timeout_ms=18446744073709551615\nx();")
        .expect("parse args");
    assert_eq!(args.timeout_ms, Some(u64::MAX));
    let args = parse_freeform_args("  // codex-artifact-tool:   timeout_ms=+7  \nx();\ny();")
        .expect("parse args");
    assert_eq!(args.timeout_ms, Some(7));
    assert_eq!(args.source, "x();\ny();");
}

#[test]
fn parse_freeform_args_rejects_pragma_without_source() {
    let err = parse_freeform_args("// codex-artifact-tool: timeout_ms=5\n  \n").expect_err("expected error");
    assert_eq!(
        err.to_string(),
        "artifacts pragma must be followed by JavaScript source on subsequent lines"
    );
}

#[test]
fn parse_freeform_args_accepts_empty_pragma() {
    let args = parse_freeform_args("// codex-artifact-tool:\nrun();").expect("parse args");
    assert_eq!(args.source, "run();");
    assert_eq!(args.timeout_ms, None);
}

#[test]
fn parse_freeform_args_rejects_json_after_pragma() {
    let err = parse_freeform_args("// codex-artifact-tool: timeout_ms=5\n{\"code\":\"x\"}")
        .expect_err("expected error");
    assert!(err.to_string().contains("artifacts is a freeform tool"));
}

#[test]
fn json_shape_decides_rejection() {
    assert!(reject_json_shape(JsonShape::ObjectValue).is_err());
    assert!(reject_json_shape(JsonShape::StringValue).is_err());
    assert!(reject_json_shape(JsonShape::OtherValue).is_ok());
    assert!(reject_json_shape(JsonShape::NotJson).is_ok());
}
