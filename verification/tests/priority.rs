use mission_core::double::Double;
use mission_core::priority::Criticality;
use mission_core::priority::PScoreEntry;
use mission_core::priority::PScoreWeights;
use mission_core::priority::PriorityQueue;
use mission_core::priority::ScoreTerms;
use mission_core::timestamp::Timestamp;
use std::cmp::Ordering;

fn num(x: f64) -> Double {
    Double::from_bits(x.to_bits())
}

fn val(d: Double) -> f64 {
    f64::from_bits(d.bits)
}

/// P = (Wc · C) + (Wa · T_wait) - (Ws · S_mb)
fn p_score(w: &PScoreWeights, t: ScoreTerms) -> Double {
    num((val(w.w_criticality) * val(t.criticality)) + (val(w.w_age) * t.wait_secs as f64)
        - (val(w.w_size) * val(t.size_mb)))
}

fn stamp(t: chrono::DateTime<chrono::Utc>) -> Timestamp {
    Timestamp { secs: t.timestamp(), nanos: t.timestamp_subsec_nanos() }
}

fn utc_now() -> Timestamp {
    stamp(chrono::Utc::now())
}

fn scored(id: &str, score: f64) -> PScoreEntry {
    let weights = PScoreWeights::default();
    let mut entry = PScoreEntry::new(
        id.into(),
        format!("/tmp/{id}.sealed"),
        Criticality::Routine,
        utc_now(),
        num(1.0),
        &weights,
        &p_score,
    );
    entry.cached_score = num(score);
    entry
}

#[test]
fn test_pscore_anomaly_higher_than_routine() {
    let weights = PScoreWeights::default();
    let now = utc_now();

    let anomaly = PScoreEntry::new(
        "a1".into(),
        "/tmp/a1.sealed".into(),
        Criticality::Anomaly,
        now,
        num(1.0),
        &weights,
        &p_score,
    );

    let routine = PScoreEntry::new(
        "r1".into(),
        "/tmp/r1.sealed".into(),
        Criticality::Routine,
        now,
        num(1.0),
        &weights,
        &p_score,
    );

    assert!(
        val(anomaly.score()) > val(routine.score()),
        "Anomaly P_Score ({}) should be greater than Routine ({})",
        val(anomaly.score()),
        val(routine.score())
    );
}

#[test]
fn test_pscore_aging_increases_score() {
    let weights = PScoreWeights::default();
    let old = stamp(chrono::Utc::now() - chrono::Duration::hours(1));
    let recent = utc_now();

    let old_entry = PScoreEntry::new(
        "old".into(),
        "/tmp/old.sealed".into(),
        Criticality::Routine,
        old,
        num(1.0),
        &weights,
        &p_score,
    );

    let new_entry = PScoreEntry::new(
        "new".into(),
        "/tmp/new.sealed".into(),
        Criticality::Routine,
        recent,
        num(1.0),
        &weights,
        &p_score,
    );

    assert!(
        val(old_entry.score()) > val(new_entry.score()),
        "Older entry ({}) should score higher than newer ({})",
        val(old_entry.score()),
        val(new_entry.score())
    );
}

#[test]
fn test_pscore_larger_size_decreases_score() {
    let weights = PScoreWeights::default();
    let now = utc_now();

    let small = PScoreEntry::new(
        "small".into(),
        "/tmp/small.sealed".into(),
        Criticality::Routine,
        now,
        num(0.5),
        &weights,
        &p_score,
    );

    let large = PScoreEntry::new(
        "large".into(),
        "/tmp/large.sealed".into(),
        Criticality::Routine,
        now,
        num(10.0),
        &weights,
        &p_score,
    );

    assert!(
        val(small.score()) > val(large.score()),
        "Smaller entry ({}) should score higher than larger ({})",
        val(small.score()),
        val(large.score())
    );
}

#[test]
fn test_priority_queue_ordering() {
    let weights = PScoreWeights::default();
    let now = utc_now();
    let mut pq = PriorityQueue::new(weights.clone());

    pq.push(PScoreEntry::new(
        "routine".into(),
        "/tmp/r.sealed".into(),
        Criticality::Routine,
        now,
        num(1.0),
        &weights,
        &p_score,
    ));
    pq.push(PScoreEntry::new(
        "anomaly".into(),
        "/tmp/a.sealed".into(),
        Criticality::Anomaly,
        now,
        num(1.0),
        &weights,
        &p_score,
    ));

    let top = pq.pop().expect("queue should not be empty");
    assert_eq!(top.id, "anomaly", "Anomaly should be popped first");
}

#[test]
fn default_weights_and_values_are_exact() {
    let weights = PScoreWeights::default();
    assert_eq!(val(weights.w_criticality), 1.0);
    assert_eq!(val(weights.w_age), 0.01);
    assert_eq!(val(weights.w_size), 0.5);
    assert_eq!(val(Criticality::Anomaly.value()), 1000.0);
    assert_eq!(val(Criticality::Routine.value()), 1.0);
}

#[test]
fn weights_come_from_the_environment_or_fall_back() {
    let none = PScoreWeights::from_env(None, None, None);
    assert_eq!(val(none.w_criticality), 1.0);
    assert_eq!(val(none.w_age), 0.01);
    assert_eq!(val(none.w_size), 0.5);
    let some = PScoreWeights::from_env(Some(num(2.0)), Some(num(0.25)), Some(num(3.0)));
    assert_eq!(val(some.w_criticality), 2.0);
    assert_eq!(val(some.w_age), 0.25);
    assert_eq!(val(some.w_size), 3.0);
}

#[test]
fn score_is_the_formula_at_a_given_time() {
    let weights = PScoreWeights::default();
    let mut entry = scored("x", 0.0);
    entry.criticality = Criticality::Anomaly;
    entry.size_mb = num(4.0);
    entry.ingested_at = Timestamp { secs: 1_000, nanos: 500_000_000 };
    let now = Timestamp { secs: 1_200, nanos: 499_999_999 };
    entry.recompute_score_at(now, &weights, &p_score);
    assert_eq!(val(entry.score()), 1000.0 + 0.01 * 199.0 - 2.0);
    entry.recompute_score_at(Timestamp { secs: 1_200, nanos: 500_000_000 }, &weights, &p_score);
    assert_eq!(val(entry.score()), 1000.0 + 0.01 * 200.0 - 2.0);
}

#[test]
fn wait_is_never_negative() {
    let weights = PScoreWeights::default();
    let mut entry = scored("x", 7.0);
    entry.ingested_at = Timestamp { secs: 1_000, nanos: 0 };
    entry.recompute_score_at(Timestamp { secs: 10, nanos: 0 }, &weights, &p_score);
    assert_eq!(val(entry.score()), 1.0 - 0.5);
    assert!(!entry.transmitted);
}

#[test]
fn queue_drains_from_the_highest_score_to_the_lowest() {
    let mut queue = PriorityQueue::new(PScoreWeights::default());
    let scores = [3.5, -1.0, 1000.0, 0.0, 3.5, -1e9, 42.0, f64::INFINITY, 7.25, -0.0, 1e-300];
    for (i, score) in scores.iter().enumerate() {
        queue.push(scored(&format!("e{i}"), *score));
        assert_eq!(queue.len(), i + 1);
    }
    let mut drained: Vec<f64> = Vec::new();
    while let Some(entry) = queue.pop() {
        drained.push(val(entry.score()));
    }
    let mut sorted = scores.to_vec();
    sorted.sort_by(|a, b| b.partial_cmp(a).unwrap());
    assert_eq!(drained, sorted);
    assert!(queue.is_empty());
    assert!(queue.pop().is_none());
}

#[test]
fn score_that_is_no_number_comes_last() {
    let mut queue = PriorityQueue::new(PScoreWeights::default());
    queue.push(scored("nan", f64::NAN));
    queue.push(scored("low", f64::NEG_INFINITY));
    queue.push(scored("negative-nan", -f64::NAN));
    queue.push(scored("high", 1.0));
    let order: Vec<String> = (0..2).map(|_| queue.pop().unwrap().id).collect();
    assert_eq!(order, vec!["high", "low"]);
    assert!(val(queue.pop().unwrap().score()).is_nan());
    assert!(val(queue.pop().unwrap().score()).is_nan());
}

#[test]
fn peek_leaves_the_top_entry() {
    let mut queue = PriorityQueue::new(PScoreWeights::default());
    assert!(queue.peek().is_none());
    queue.push(scored("a", 1.0));
    queue.push(scored("b", 2.0));
    assert_eq!(queue.peek().unwrap().id, "b");
    assert_eq!(queue.len(), 2);
    assert!(!queue.is_empty());
}

#[test]
fn refreshing_recomputes_every_score() {
    let weights = PScoreWeights::default();
    let mut queue = PriorityQueue::new(weights);
    let hour_ago = stamp(chrono::Utc::now() - chrono::Duration::hours(1));
    for i in 0..5 {
        let mut entry = scored(&format!("e{i}"), -1.0 * i as f64);
        entry.ingested_at = hour_ago;
        entry.size_mb = num(i as f64);
        entry.transmitted = i == 3;
        queue.push(entry);
    }
    queue.refresh_scores(&p_score);
    assert_eq!(queue.len(), 5);
    for i in 0..5 {
        let entry = queue.pop().unwrap();
        assert_eq!(entry.id, format!("e{i}"));
        let base = 1.0 + 36.0 - 0.5 * i as f64;
        let score = val(entry.score());
        assert!(score >= base && score < base + 1.0, "{score}");
        assert_eq!(entry.transmitted, i == 3);
    }
    assert_eq!(val(queue.weights().w_age), 0.01);
}

#[test]
fn new_entry_is_scored_at_a_given_time() {
    let entry = PScoreEntry::new_at(
        "x".into(),
        "x.sealed".into(),
        Criticality::Routine,
        Timestamp { secs: 100, nanos: 0 },
        num(4.0),
        Timestamp { secs: 400, nanos: 0 },
        &PScoreWeights::default(),
        &p_score,
    );
    assert_eq!(val(entry.score()), 1.0 + 0.01 * 300.0 - 2.0);
    assert!(!entry.transmitted);
}

#[test]
fn refreshing_again_at_the_same_time_changes_nothing() {
    let mut queue = PriorityQueue::new(PScoreWeights::default());
    for i in 0..6 {
        let mut entry = scored(&format!("e{i}"), 100.0 - i as f64);
        entry.ingested_at = Timestamp { secs: 1_000 - 100 * i, nanos: 0 };
        entry.size_mb = num(0.0);
        queue.push(entry);
    }
    let now = Timestamp { secs: 2_000, nanos: 0 };
    queue.refresh_scores_at(now, &p_score);
    assert_eq!(queue.peek().unwrap().id, "e5");
    queue.refresh_scores_at(now, &p_score);
    for i in (0..6).rev() {
        let entry = queue.pop().unwrap();
        assert_eq!(entry.id, format!("e{i}"));
        assert_eq!(val(entry.score()), 1.0 + 0.01 * (1_000 + 100 * i) as f64);
    }
    assert!(queue.is_empty());
}

#[test]
fn pop_gives_what_peek_showed_among_equal_scores() {
    let mut queue = PriorityQueue::new(PScoreWeights::default());
    for i in 0..10 {
        queue.push(scored(&format!("e{i}"), (i % 3) as f64));
    }
    for left in (0..10).rev() {
        let shown = queue.peek().unwrap().id.clone();
        assert_eq!(queue.pop().unwrap().id, shown);
        assert_eq!(queue.len(), left);
    }
}

#[test]
fn entries_are_equal_by_id_and_ordered_by_score() {
    let a = scored("a", 1.0);
    let b = scored("b", 2.0);
    let other_a = scored("a", 5.0);
    assert!(a == other_a);
    assert!(a != b);
    assert_eq!(a.partial_cmp(&b), Some(Ordering::Less));
    assert_eq!(b.partial_cmp(&a), Some(Ordering::Greater));
    assert_eq!(a.partial_cmp(&scored("c", 1.0)), Some(Ordering::Equal));
    assert_eq!(a.partial_cmp(&scored("n", f64::NAN)), Some(Ordering::Equal));
    assert_eq!(b.cmp(&a), Ordering::Greater);
    assert_eq!(a.cmp(&scored("n", f64::NAN)), Ordering::Equal);
    assert!(a < b);
}

#[test]
fn doubles_compare_as_floating_point_numbers() {
    let numbers = [
        0.0,
        -0.0,
        1.0,
        -1.0,
        f64::MIN_POSITIVE,
        5e-324,
        -5e-324,
        f64::MAX,
        f64::MIN,
        f64::INFINITY,
        f64::NEG_INFINITY,
        f64::NAN,
        -f64::NAN,
        0.1 + 0.2,
        0.3,
    ];
    for x in numbers {
        assert_eq!(num(x).is_nan(), x.is_nan());
        for y in numbers {
            assert_eq!(num(x).lt(&num(y)), x < y, "{x} < {y}");
            assert_eq!(num(x).le(&num(y)), x <= y, "{x} <= {y}");
            let larger = val(num(x).max(num(y)));
            let smaller = val(num(x).min(num(y)));
            assert!(larger == x.max(y) || (larger.is_nan() && x.max(y).is_nan()));
            assert!(smaller == x.min(y) || (smaller.is_nan() && x.min(y).is_nan()));
        }
    }
}
