use tinyvector::document::{context_of, payload, prepare};
use tinyvector::encoder::Head;
use tinyvector::headings::{chunks_between, split_by_headings, split_parsed, Block, SplitError};

#[test]
fn split_cuts_before_each_heading_and_drops_what_follows_the_last() {
    let text = "An introduction.\n\n# First\n\nSome words here.\n\n## Second\n\nThe end.\n";
    let chunks = split_by_headings(text).unwrap();
    assert_eq!(
        chunks,
        vec!["An introduction.\n\n".to_string(), "# First\n\nSome words here.\n\n".to_string()]
    );
}

#[test]
fn split_ignores_deep_headings_and_keeps_only_long_chunks() {
    let text = "# A\n\n# Bee\n\n#### Deep heading\n\ntext\n\n### C\n";
    // "# A\n\n" has 5 bytes and is dropped; the chunk before "### C" spans
    // the deep heading.
    let chunks = split_by_headings(text).unwrap();
    assert_eq!(chunks, vec!["# Bee\n\n#### Deep heading\n\ntext\n\n".to_string()]);
}

#[test]
fn split_of_text_without_headings_is_empty() {
    assert_eq!(split_by_headings("just a paragraph of text\n").unwrap(), Vec::<String>::new());
    assert_eq!(split_by_headings("").unwrap(), Vec::<String>::new());
}

#[test]
fn split_keeps_chunks_of_more_than_eight_bytes() {
    // Nine bytes before the heading are kept, eight are not.
    assert_eq!(split_by_headings("12345678\n# T\n").unwrap(), vec!["12345678\n".to_string()]);
    assert_eq!(split_by_headings("1234567\n# T\n").unwrap(), Vec::<String>::new());
}

#[test]
fn split_handles_text_outside_ascii() {
    let text = "ñandú y más texto\n\n# Título\n";
    assert_eq!(split_by_headings(text).unwrap(), vec!["ñandú y más texto\n\n".to_string()]);
}

#[test]
fn chunks_between_follows_the_given_blocks() {
    let text = "0123456789abcdefghij";
    let blocks = vec![
        Block::Other,
        Block::Heading { depth: 1, start: Some(10) },
        Block::Heading { depth: 4, start: Some(12) },
        Block::Heading { depth: 2, start: None },
        Block::Heading { depth: 3, start: Some(20) },
        Block::Heading { depth: 3, start: Some(20) },
    ];
    assert_eq!(
        chunks_between(text, &blocks),
        Some(vec!["0123456789".to_string(), "abcdefghij".to_string()])
    );
    assert_eq!(chunks_between(text, &Vec::new()), Some(Vec::new()));
}

#[test]
fn chunks_between_refuses_cuts_that_do_not_fit() {
    let text = "0123456789abcdefghij";
    let back = vec![Block::Heading { depth: 1, start: Some(10) }, Block::Heading { depth: 1, start: Some(9) }];
    assert_eq!(chunks_between(text, &back), None);
    let beyond = vec![Block::Heading { depth: 1, start: Some(21) }];
    assert_eq!(chunks_between(text, &beyond), None);
    let inside = vec![Block::Heading { depth: 1, start: Some(1) }];
    assert_eq!(chunks_between("ñandú", &inside), None);
    // A deep heading cuts nothing, wherever it is said to start.
    let deep = vec![Block::Heading { depth: 4, start: Some(99) }];
    assert_eq!(chunks_between(text, &deep), Some(Vec::new()));
}

#[test]
fn split_parsed_maps_each_outcome() {
    let refused = split_parsed("text", Err("no".to_string()));
    assert!(matches!(refused, Err(SplitError::Markdown(m)) if m == "no"));
    let misplaced = split_parsed("text", Ok(vec![Block::Heading { depth: 1, start: Some(9) }]));
    assert!(matches!(misplaced, Err(SplitError::Position)));
    let fine = split_parsed("0123456789", Ok(vec![Block::Heading { depth: 1, start: Some(10) }]));
    assert_eq!(fine.unwrap(), vec!["0123456789".to_string()]);
}

#[test]
fn context_and_payload() {
    let head = Head {
        subcategory: "ACM".to_string(),
        layout: "aws".to_string(),
        title: "AWS: aws_acm_certificate".to_string(),
        desc: "Get information".to_string(),
    };
    let context = context_of(&head);
    assert_eq!(context, "AWS: aws_acm_certificate Get information");
    assert_eq!(payload(&context, "# Chunk\n"), "AWS: aws_acm_certificate Get information\n# Chunk\n");
    assert_eq!(payload("", ""), "\n");
}

#[test]
fn prepare_takes_context_from_head_and_chunks_from_body() {
    let data = "---\nsubcategory: \"ACM\"\nlayout: \"aws\"\npage_title: \"AWS: acm\"\ndescription: |-\n  Get information\n---\n\n# Data Source\n\nUse this data source.\n\n## Example\n\ncode\n";
    let prepared = prepare(data.to_string()).unwrap();
    assert_eq!(prepared.context, "AWS: acm Get information");
    assert_eq!(prepared.chunks, vec!["# Data Source\n\nUse this data source.\n\n".to_string()]);
}

#[test]
fn prepare_of_document_without_head_has_blank_context() {
    let prepared = prepare("Some opening words.\n\n# Title\n".to_string()).unwrap();
    assert_eq!(prepared.context, " ");
    assert_eq!(prepared.chunks, vec!["Some opening words.\n\n".to_string()]);
}
