use openapi3_parser::open_api::{OpenApiSpec, Operation};
use openapi_yml::fill_curl::{
    body_from_media, describe_operation, extract_bdoy, extract_methods, report_from_yml,
    request_report, MediaEntry, PathOperations,
};

const SPEC: &str = "openapi: 3.0.0
paths:
  /pets:
    get:
      summary: List pets
    post:
      requestBody:
        content:
          application/json:
            example:
              name: Rex
";

#[test]
fn report_lists_each_operation() {
    let report = report_from_yml(SPEC).expect("valid document");
    assert_eq!(report.len(), 8);
    assert_eq!(report[0], "get: /pets");
    assert_eq!(report[1], "");
    assert_eq!(report[2], "[]");
    assert_eq!(report[3], "");
    assert_eq!(report[4], "post: /pets");
    assert_eq!(report[5], "Content-Type: \"application/json\"");
    assert!(report[6].starts_with("[\""));
    assert!(report[6].contains("Rex"));
    assert_eq!(report[7], "");
}

#[test]
fn report_without_paths() {
    let report = report_from_yml("openapi: 3.0.0\n").expect("valid document");
    assert_eq!(report, vec!["Keine Pfade definiert".to_string()]);
}

#[test]
fn report_of_a_parsed_document() {
    let spec: OpenApiSpec = serde_yaml::from_str(SPEC).expect("valid document");
    let report = request_report(&spec);
    assert_eq!(report.len(), 8);
    assert_eq!(report[4], "post: /pets");
}

#[test]
fn invalid_yaml_is_refused() {
    assert!(report_from_yml("paths: [unclosed").is_err());
    assert!(report_from_yml("paths: 5").is_err());
}

#[test]
fn extract_methods_keeps_method_order() {
    let op: Operation = serde_yaml::from_str("summary: x").unwrap();
    let item = PathOperations {
        get: None,
        post: Some(&op),
        put: None,
        delete: None,
        head: Some(&op),
        patch: None,
        trace: None,
        options: Some(&op),
    };
    let names: Vec<&str> = extract_methods(&item).iter().map(|(n, _)| *n).collect();
    assert_eq!(names, vec!["post", "head", "options"]);
}

#[test]
fn extract_methods_of_empty_path() {
    let item = PathOperations {
        get: None,
        post: None,
        put: None,
        delete: None,
        head: None,
        patch: None,
        trace: None,
        options: None,
    };
    assert!(extract_methods(&item).is_empty());
}

#[test]
fn body_from_media_uses_last_content_type() {
    let entries = vec![
        MediaEntry {
            content_type: "text/plain".to_string(),
            example: Some("a".to_string()),
            examples: Some(vec!["b".to_string(), "c".to_string()]),
        },
        MediaEntry {
            content_type: "application/json".to_string(),
            example: None,
            examples: None,
        },
    ];
    let (header, body) = body_from_media(&entries);
    assert_eq!(header, "Content-Type: \"application/json\"");
    assert_eq!(body, vec!["a".to_string(), "b".to_string(), "c".to_string()]);
}

#[test]
fn body_from_media_without_entries() {
    let (header, body) = body_from_media(&Vec::new());
    assert_eq!(header, "");
    assert!(body.is_empty());
}

#[test]
fn content_type_is_debug_quoted() {
    let entries = vec![MediaEntry {
        content_type: "a\"b".to_string(),
        example: None,
        examples: None,
    }];
    assert_eq!(body_from_media(&entries).0, "Content-Type: \"a\\\"b\"");
}

#[test]
fn extract_bdoy_without_request_body() {
    let op: Operation = serde_yaml::from_str("summary: x").unwrap();
    let (header, body) = extract_bdoy(&op);
    assert_eq!(header, "");
    assert!(body.is_empty());
}

#[test]
fn extract_bdoy_with_one_content_type() {
    let op: Operation =
        serde_yaml::from_str("requestBody:\n  content:\n    text/plain:\n      example: hi\n").unwrap();
    let (header, body) = extract_bdoy(&op);
    assert_eq!(header, "Content-Type: \"text/plain\"");
    assert_eq!(body.len(), 1);
    assert!(body[0].contains("hi"));
}

#[test]
fn describe_operation_lines() {
    let lines = describe_operation("get", "/x", &"H".to_string(), &vec!["a".to_string()]);
    assert_eq!(lines, vec!["get: /x".to_string(), "H".to_string(), "[\"a\"]".to_string(), String::new()]);
}

#[test]
fn extract_bdoy_with_body_but_no_content() {
    let op: Operation = serde_yaml::from_str("requestBody:\n  required: true\n").unwrap();
    let (header, body) = extract_bdoy(&op);
    assert_eq!(header, "");
    assert!(body.is_empty());
}

#[test]
fn extract_bdoy_keeps_every_named_example() {
    let op: Operation = serde_yaml::from_str(
        "requestBody:\n  content:\n    text/plain:\n      example: one\n      examples:\n        a:\n          value: two\n        b:\n          value: three\n",
    )
    .unwrap();
    let (header, body) = extract_bdoy(&op);
    assert_eq!(header, "Content-Type: \"text/plain\"");
    assert_eq!(body.len(), 3);
    assert!(body[0].contains("one"));
    assert!(body.iter().any(|b| b.contains("two")));
    assert!(body.iter().any(|b| b.contains("three")));
}

#[test]
fn report_has_a_group_per_operation_of_each_path() {
    let text = "openapi: 3.0.0
paths:
  /a:
    get:
      summary: x
    delete:
      summary: y
  /b:
    put:
      summary: z
  /c: {}
";
    let report = report_from_yml(text).expect("valid document");
    assert_eq!(report.len(), 12);
    let firsts: Vec<&String> = report.iter().step_by(4).collect();
    assert!(firsts.contains(&&"get: /a".to_string()));
    assert!(firsts.contains(&&"delete: /a".to_string()));
    assert!(firsts.contains(&&"put: /b".to_string()));
    let get = report.iter().position(|l| l == "get: /a").unwrap();
    assert_eq!(report[get + 4], "delete: /a");
    assert_eq!(report[get + 2], "[]");
}
