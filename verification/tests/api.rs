use tinyvector::api::{
    distinct, CreateSourceReq, CreateSourceResp, SearchQuery, SearchResp, ServerError,
};
use tinyvector::collection::{Retrieved, SimilarityResult};

fn strings(v: &[&str]) -> Vec<String> {
    v.iter().map(|s| s.to_string()).collect()
}

#[test]
fn distinct_keeps_first_occurrences_in_order() {
    assert_eq!(distinct(strings(&["b", "a", "b", "c", "a"])), strings(&["b", "a", "c"]));
    assert_eq!(distinct(strings(&[])), strings(&[]));
    assert_eq!(distinct(strings(&["x", "x", "x"])), strings(&["x"]));
}

#[test]
fn request_becomes_an_unstored_source() {
    let req = CreateSourceReq {
        collection_id: 5,
        owner: "o".to_string(),
        repo: "r".to_string(),
        branch: "main".to_string(),
        allowed_ext: strings(&[".md", ".md", ".txt"]),
        allowed_dirs: strings(&["docs/"]),
        ignored_dirs: strings(&[]),
    };
    let source = req.into_source();
    assert_eq!(source.id, 0);
    assert_eq!(source.collection_id, 5);
    assert_eq!(source.owner, "o");
    assert_eq!(source.repo, "r");
    assert_eq!(source.branch, "main");
    assert_eq!(source.allowed_ext, strings(&[".md", ".txt"]));
    assert_eq!(source.allowed_dirs, strings(&["docs/"]));
    assert_eq!(source.ignored_dirs, strings(&[]));
    assert_eq!(CreateSourceResp { id: source.id }, CreateSourceResp { id: 0 });
}

#[test]
fn search_answer_follows_the_results() {
    let results = vec![
        SimilarityResult {
            score: 1.0f32.to_bits(),
            embedding: Retrieved { id: "12".to_string(), blob: "first".to_string() },
        },
        SimilarityResult {
            score: 0.5f32.to_bits(),
            embedding: Retrieved { id: "7".to_string(), blob: "second".to_string() },
        },
    ];
    let answer = SearchResp::from_results(results);
    assert_eq!(answer.len(), 2);
    assert_eq!(f32::from_bits(answer[0].score), 1.0);
    assert_eq!(answer[0].path, "12");
    assert_eq!(answer[0].text, "first");
    assert_eq!(f32::from_bits(answer[1].score), 0.5);
    assert_eq!(answer[1].path, "7");
    assert_eq!(answer[1].text, "second");
    assert_eq!(SearchResp::from_results(Vec::new()).len(), 0);
    let query = SearchQuery { query: "acm".to_string() };
    assert_eq!(query.query, "acm");
}

#[test]
fn status_and_message_of_each_error() {
    let cases = [
        (ServerError::DbError("db down".to_string()), 500, "Internal error"),
        (ServerError::ValidationError("bad id".to_string()), 400, "bad id"),
        (ServerError::NoContent("Source does not exist".to_string()), 204, "Source does not exist"),
        (ServerError::GitHubAPIError("rate limit".to_string()), 500, "Internal error"),
        (ServerError::OpenAIAPIError("quota".to_string()), 500, "Internal error"),
    ];
    for (error, status, message) in cases {
        assert_eq!(error.status_code(), status);
        assert_eq!(error.public_message(), message);
    }
}
