use tinyvector::encoder::{extract_head, extract_head_values, remove_head, Head};

#[test]
fn test_extract_head() {
    let input = r#"---subcategory: "ACM"---Other content"#;
    let head = extract_head(input);
    assert_eq!(head, Some("subcategory: \"ACM\"".to_string()));
}

#[test]
fn test_extract_head_with_no_delimiter() {
    let input = "Some text";
    let head = extract_head(input);
    assert!(head.is_none());
}

#[test]
fn test_extract_head_with_one_delimiter() {
    let input = r#"subcategory: "ACM"---Other content"#;
    let head = extract_head(input);
    assert!(head.is_none());
}

#[test]
fn test_extract_head_values() {
    let input = r#"subcategory: "ACM (Certificate Manager)"
layout: "aws"
page_title: "AWS: aws_acm_certificate"
description: |-
  Get information on a Amazon Certificate Manager (ACM) Certificate"#;

    let head = extract_head_values(input);

    assert_eq!(head.subcategory, "ACM (Certificate Manager)");
    assert_eq!(head.layout, "aws");
    assert_eq!(head.title, "AWS: aws_acm_certificate");
    assert_eq!(
        head.desc,
        "Get information on a Amazon Certificate Manager (ACM) Certificate"
    );
}

#[test]
fn test_extract_head_values_with_missing_values() {
    let input = "";

    let head = extract_head_values(input);

    assert_eq!(head.subcategory, "");
    assert_eq!(head.layout, "");
    assert_eq!(head.title, "");
    assert_eq!(head.desc, "");
}

#[test]
fn extract_head_with_three_delimiters_is_none() {
    assert!(extract_head("---a---b---c").is_none());
}

#[test]
fn extract_head_takes_empty_head_and_body() {
    assert_eq!(extract_head("------"), Some(String::new()));
    assert_eq!(remove_head("------".to_string()), "");
}

#[test]
fn extract_head_scans_without_overlap() {
    // Seven hyphens are two fences and a hyphen: the head is empty.
    assert_eq!(extract_head("-------"), Some(String::new()));
    assert_eq!(remove_head("-------".to_string()), "-");
    // Five hyphens are one fence and two hyphens.
    assert!(extract_head("-----").is_none());
    assert_eq!(remove_head("-----".to_string()), "-----");
}

#[test]
fn extract_head_keeps_text_outside_ascii() {
    let input = "é---título: \"día\"---cuerpo ñ";
    assert_eq!(extract_head(input), Some("título: \"día\"".to_string()));
    assert_eq!(remove_head(input.to_string()), "cuerpo ñ");
}

#[test]
fn extract_head_agrees_with_split() {
    let inputs = [
        "",
        "-",
        "---",
        "a---b",
        "a---b---c",
        "a---b---c---d",
        "----a-----b--",
        "x------y",
        "---\nlayout: \"aws\"\n---\n# Title\n",
    ];
    for input in inputs {
        let parts: Vec<&str> = input.split("---").collect();
        let head = if parts.len() == 3 { Some(parts[1].to_string()) } else { None };
        let body = if parts.len() == 3 { parts[2].to_string() } else { input.to_string() };
        assert_eq!(extract_head(input), head);
        assert_eq!(remove_head(input.to_string()), body);
    }
}

#[test]
fn remove_head_returns_body_after_second_delimiter() {
    let input = r#"---subcategory: "ACM"---Other content"#.to_string();
    assert_eq!(remove_head(input), "Other content");
}

#[test]
fn remove_head_without_head_returns_input() {
    assert_eq!(remove_head("Some text".to_string()), "Some text");
    assert_eq!(remove_head("a---b".to_string()), "a---b");
}

#[test]
fn head_from_captures_fills_missing_fields_with_empty_text() {
    let head = Head::from_captures(Some("s".to_string()), None, Some("t".to_string()), None);
    assert_eq!(head.subcategory, "s");
    assert_eq!(head.layout, "");
    assert_eq!(head.title, "t");
    assert_eq!(head.desc, "");
}

#[test]
fn extract_head_values_reads_only_quoted_fields() {
    let head = extract_head_values("layout: aws\nsubcategory: \"EC2\" and \"more\"");
    assert_eq!(head.layout, "");
    assert_eq!(head.subcategory, "EC2");
}
