use tinyvector::collection::{Collection, Embedding};
use tinyvector::distance::Distance;
use tinyvector::registry::Tiny;
use tinyvector::score::{bits_are_nan, negate, ranking_key, sort_key};
use tinyvector::topk::{select_top_k, ScoreIndex};

fn bits(v: &[f32]) -> Vec<u32> {
    v.iter().map(|x| x.to_bits()).collect()
}

fn euclidean(a: &[u32], b: &[f32]) -> u32 {
    let mut sum = 0.0f32;
    for (x, y) in a.iter().zip(b) {
        let d = f32::from_bits(*x) - y;
        sum += d * d;
    }
    sum.sqrt().to_bits()
}

fn dot(a: &[u32], b: &[f32]) -> u32 {
    let mut sum = 0.0f32;
    for (x, y) in a.iter().zip(b) {
        sum += f32::from_bits(*x) * y;
    }
    sum.to_bits()
}

fn normalized(v: &[f32]) -> Vec<f32> {
    let magnitude = v.iter().fold(0.0f32, |acc, x| x.mul_add(*x, acc)).sqrt();
    if magnitude > f32::EPSILON {
        v.iter().map(|x| x / magnitude).collect()
    } else {
        v.to_vec()
    }
}

#[test]
fn euclidean_query_returns_the_two_nearest_in_order() {
    let mut tiny = Tiny::new();
    tiny.create_collection_with("c".to_string(), 3, Distance::Euclidean).unwrap();
    tiny.insert_into_collection("c", "a".to_string(), bits(&[1.0, 0.0, 0.0]), "pa".to_string()).unwrap();
    tiny.insert_into_collection("c", "b".to_string(), bits(&[0.0, 1.0, 0.0]), "pb".to_string()).unwrap();
    tiny.insert_into_collection("c", "c".to_string(), bits(&[2.0, 0.0, 0.0]), "pc".to_string()).unwrap();
    let c = tiny.get_collection("c").unwrap();
    let query = [1.0f32, 0.0, 0.0];
    let scores: Vec<u32> = c.embeddings.iter().map(|e| euclidean(&e.vector, &query)).collect();
    let found = c.get_similarity(&scores, 2);
    assert_eq!(found.len(), 2);
    assert_eq!(found[0].embedding.id, "a");
    assert_eq!(f32::from_bits(found[0].score), 0.0);
    assert_eq!(found[0].embedding.blob, "pa");
    assert_eq!(found[1].embedding.id, "c");
    assert_eq!(f32::from_bits(found[1].score), 1.0);
    assert_eq!(found[1].embedding.blob, "pc");
}

#[test]
fn cosine_query_of_aligned_vector_scores_one() {
    let mut tiny = Tiny::new();
    tiny.create_collection_with("c".to_string(), 2, Distance::Cosine).unwrap();
    let stored = normalized(&[3.0, 4.0]);
    assert!((stored[0] - 0.6).abs() < 1e-6);
    assert!((stored[1] - 0.8).abs() < 1e-6);
    tiny.insert_into_collection("c", "d".to_string(), bits(&stored), "pd".to_string()).unwrap();
    let c = tiny.get_collection("c").unwrap();
    let query = [0.6f32, 0.8];
    let scores: Vec<u32> = c.embeddings.iter().map(|e| dot(&e.vector, &query)).collect();
    let found = c.get_similarity(&scores, 1);
    assert_eq!(found.len(), 1);
    assert_eq!(found[0].embedding.id, "d");
    assert!((f32::from_bits(found[0].score) - 1.0).abs() < 1e-6);
}

#[test]
fn similarity_metrics_rank_the_highest_score_first() {
    let mut c = Collection::new(1, Distance::DotProduct);
    for (i, x) in [1.0f32, 5.0, -2.0, 3.0].iter().enumerate() {
        c.embeddings.push(Embedding::new(format!("e{}", i), bits(&[*x]), String::new()));
    }
    let scores: Vec<u32> = c.embeddings.iter().map(|e| dot(&e.vector, &[2.0])).collect();
    let found = c.get_similarity(&scores, 3);
    let ids: Vec<&str> = found.iter().map(|r| r.embedding.id.as_str()).collect();
    assert_eq!(ids, vec!["e1", "e3", "e0"]);
    let values: Vec<f32> = found.iter().map(|r| f32::from_bits(r.score)).collect();
    assert_eq!(values, vec![10.0, 6.0, 2.0]);
}

#[test]
fn query_length_is_min_of_k_and_size() {
    let mut c = Collection::new(1, Distance::Euclidean);
    assert_eq!(c.get_similarity(&Vec::new(), 5).len(), 0);
    for i in 0..4 {
        c.embeddings.push(Embedding::new(format!("e{}", i), bits(&[i as f32]), String::new()));
    }
    let scores = bits(&[3.0, 1.0, 2.0, 0.5]);
    assert_eq!(c.get_similarity(&scores, 0).len(), 0);
    assert_eq!(c.get_similarity(&scores, 3).len(), 3);
    assert_eq!(c.get_similarity(&scores, 4).len(), 4);
    let all = c.get_similarity(&scores, 9);
    let ids: Vec<&str> = all.iter().map(|r| r.embedding.id.as_str()).collect();
    assert_eq!(ids, vec!["e3", "e1", "e2", "e0"]);
}

#[test]
fn query_is_repeatable() {
    let mut c = Collection::new(1, Distance::Cosine);
    for i in 0..6 {
        c.embeddings.push(Embedding::new(format!("e{}", i), bits(&[1.0]), String::new()));
    }
    let scores = bits(&[0.5, 0.25, 0.5, 1.0, 0.25, 0.5]);
    let first: Vec<(u32, String)> =
        c.get_similarity(&scores, 4).iter().map(|r| (r.score, r.embedding.id.clone())).collect();
    let second: Vec<(u32, String)> =
        c.get_similarity(&scores, 4).iter().map(|r| (r.score, r.embedding.id.clone())).collect();
    assert_eq!(first, second);
    // Equal scores come out in insertion order.
    let ids: Vec<&str> = first.iter().map(|r| r.1.as_str()).collect();
    assert_eq!(ids, vec!["e3", "e0", "e2", "e5"]);
}

#[test]
fn not_a_number_ranks_last_in_both_directions() {
    let scores = vec![f32::NAN.to_bits(), 1.0f32.to_bits(), (-f32::NAN).to_bits(), (-1.0f32).to_bits()];
    let up: Vec<usize> = select_top_k(&scores, 4, true).iter().map(|e| e.index).collect();
    assert_eq!(up, vec![3, 1, 0, 2]);
    let down: Vec<usize> = select_top_k(&scores, 4, false).iter().map(|e| e.index).collect();
    assert_eq!(down, vec![1, 3, 0, 2]);
    let best: Vec<usize> = select_top_k(&scores, 2, true).iter().map(|e| e.index).collect();
    assert_eq!(best, vec![3, 1]);
}

#[test]
fn select_top_k_agrees_with_a_full_sort() {
    let mut state: u32 = 12345;
    let mut next = || {
        state ^= state << 13;
        state ^= state >> 17;
        state ^= state << 5;
        state
    };
    for round in 0..200 {
        let n = (next() % 40) as usize;
        let k = (next() % 45) as usize;
        let lower = round % 2 == 0;
        let scores: Vec<u32> = (0..n)
            .map(|_| {
                let pick = next() % 8;
                if pick == 0 {
                    f32::NAN.to_bits()
                } else if pick == 1 {
                    0.0f32.to_bits()
                } else if pick == 2 {
                    (-0.0f32).to_bits()
                } else {
                    (((next() % 21) as f32) - 10.0).to_bits()
                }
            })
            .collect();
        let mut expected: Vec<usize> = (0..n).collect();
        expected.sort_by(|a, b| {
            let x = f32::from_bits(scores[*a]);
            let y = f32::from_bits(scores[*b]);
            let by_score = match (x.is_nan(), y.is_nan()) {
                (true, true) => std::cmp::Ordering::Equal,
                (true, false) => std::cmp::Ordering::Greater,
                (false, true) => std::cmp::Ordering::Less,
                (false, false) => {
                    if lower {
                        x.partial_cmp(&y).unwrap()
                    } else {
                        y.partial_cmp(&x).unwrap()
                    }
                }
            };
            by_score.then(a.cmp(b))
        });
        expected.truncate(k);
        let got = select_top_k(&scores, k, lower);
        let got_indexes: Vec<usize> = got.iter().map(|e| e.index).collect();
        assert_eq!(got_indexes, expected);
        for e in &got {
            assert_eq!(e.score, scores[e.index]);
        }
    }
}

#[test]
fn sort_key_orders_as_the_numbers_do() {
    let values = [
        f32::NEG_INFINITY,
        -3.0e38,
        -2.0,
        -1.0,
        -1.0e-40,
        -0.0,
        0.0,
        1.0e-45,
        1.0e-40,
        f32::MIN_POSITIVE,
        0.5,
        1.0,
        1.0000001,
        2.0,
        3.0e38,
        f32::INFINITY,
    ];
    for a in values {
        for b in values {
            let ka = sort_key(a.to_bits());
            let kb = sort_key(b.to_bits());
            assert_eq!(a < b, ka < kb);
            assert_eq!(a == b, ka == kb);
            assert_eq!(ranking_key(a.to_bits(), true) < ranking_key(b.to_bits(), true), a < b);
            assert_eq!(ranking_key(a.to_bits(), false) < ranking_key(b.to_bits(), false), a > b);
        }
        assert!(sort_key(a.to_bits()) < sort_key(f32::NAN.to_bits()));
        assert!(ranking_key(a.to_bits(), false) < ranking_key(f32::NAN.to_bits(), false));
        assert!(!bits_are_nan(a.to_bits()));
        assert_eq!(f32::from_bits(negate(a.to_bits())), -a);
    }
    assert_eq!(sort_key(1.0f32.to_bits()), 0x3f80_0000);
    assert_eq!(sort_key((-1.0f32).to_bits()), -0x3f80_0000);
    assert_eq!(sort_key(0x7fc0_0000), 0x8000_0000);
    assert_eq!(sort_key(0xffc0_0000), 0x8000_0000);
    assert_eq!(ranking_key(2.0f32.to_bits(), false), -0x4000_0000);
    assert!(bits_are_nan(f32::NAN.to_bits()));
    assert!(bits_are_nan(0xff80_0001));
    assert!(!bits_are_nan(0xff80_0000));
}

#[test]
fn precedes_breaks_ties_by_index() {
    let a = ScoreIndex { score: 1.0f32.to_bits(), index: 2 };
    let b = ScoreIndex { score: 1.0f32.to_bits(), index: 5 };
    let c = ScoreIndex { score: 2.0f32.to_bits(), index: 0 };
    assert!(a.precedes(&b, true));
    assert!(!b.precedes(&a, true));
    assert!(a.precedes(&b, false));
    assert!(a.precedes(&c, true));
    assert!(c.precedes(&a, false));
    assert!(!a.precedes(&a, true));
}

#[test]
fn results_carry_id_payload_and_score() {
    let mut c = Collection::new(2, Distance::Euclidean);
    c.embeddings.push(Embedding::new("a".to_string(), bits(&[1.0, 2.0]), "blob".to_string()));
    let found = c.get_similarity(&bits(&[0.25]), 1);
    assert_eq!(found[0].embedding.id, "a");
    assert_eq!(found[0].embedding.blob, "blob");
    assert_eq!(found[0].score, 0.25f32.to_bits());
    let copy = c.clone();
    assert_eq!(copy.dimension, 2);
    assert_eq!(copy.embeddings.len(), 1);
    assert_eq!(copy.embeddings[0].vector, bits(&[1.0, 2.0]));
}
