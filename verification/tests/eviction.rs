use mission_core::double::Double;
use mission_core::eviction::is_deleted;
use mission_core::eviction::EvictionConfig;
use mission_core::eviction::EvictionCycle;
use mission_core::eviction::EvictionEngine;
use mission_core::eviction::Removal;
use mission_core::priority::Criticality;
use mission_core::priority::PScoreEntry;
use mission_core::priority::PScoreWeights;
use mission_core::priority::PriorityQueue;
use mission_core::priority::ScoreTerms;
use mission_core::timestamp::Timestamp;

fn num(x: f64) -> Double {
    Double::from_bits(x.to_bits())
}

fn val(d: Double) -> f64 {
    f64::from_bits(d.bits)
}

fn no_score(_: &PScoreWeights, _: ScoreTerms) -> Double {
    num(0.0)
}

fn reduced(util: Double, size_mb: Double) -> Double {
    num(val(util) - val(size_mb) * 0.1)
}

fn percent_text(util: Double) -> String {
    format!("{:.1}", val(util))
}

fn percent(used: u64, total: u64) -> Double {
    num((used as f64 / total as f64) * 100.0)
}

fn entry(id: &str, score: f64, transmitted: bool, size_mb: f64) -> PScoreEntry {
    let mut entry = PScoreEntry::new(
        id.into(),
        format!("{id}.sealed"),
        Criticality::Routine,
        Timestamp { secs: 100, nanos: 0 },
        num(size_mb),
        &PScoreWeights::default(),
        &no_score,
    );
    entry.cached_score = num(score);
    entry.transmitted = transmitted;
    entry
}

fn queue_of(entries: Vec<PScoreEntry>) -> PriorityQueue {
    let mut queue = PriorityQueue::new(PScoreWeights::default());
    for e in entries {
        queue.push(e);
    }
    queue
}

fn engine() -> EvictionEngine {
    EvictionEngine::new(EvictionConfig::from_env(None, None))
}

fn drained(mut queue: PriorityQueue) -> Vec<String> {
    let mut ids = Vec::new();
    while let Some(e) = queue.pop() {
        ids.push(e.id);
    }
    ids
}

fn evict_all(cycle: &mut EvictionCycle) -> Vec<String> {
    let mut ids = Vec::new();
    while let Some(e) = cycle.next() {
        ids.push(e.id.clone());
        cycle.deleted(&reduced, &percent_text);
    }
    ids
}

#[test]
fn eviction_thresholds_have_defaults() {
    let config = EvictionConfig::from_env(None, None);
    assert_eq!(val(config.trigger_percent), 85.0);
    assert_eq!(val(config.target_percent), 70.0);
    assert!(config.vault_paths.is_empty());
    let config = EvictionConfig::from_env(Some(num(60.0)), Some(num(50.5)));
    assert_eq!(val(config.trigger_percent), 60.0);
    assert_eq!(val(config.target_percent), 50.5);
}

#[test]
fn nothing_is_evicted_up_to_the_trigger() {
    for util in [0.0, 84.9, 85.0, f64::NAN] {
        let mut queue = queue_of(vec![entry("a", 1.0, true, 1.0)]);
        assert!(engine().run_eviction_cycle(&mut queue, num(util)).is_none());
        assert_eq!(drained(queue), vec!["a"]);
    }
}

#[test]
fn eviction_takes_transmitted_entries_from_the_lowest_score() {
    let mut queue = queue_of(vec![
        entry("sent-high", 50.0, true, 60.0),
        entry("unsent-low", -5.0, false, 60.0),
        entry("sent-low", 1.0, true, 60.0),
        entry("sent-mid", 20.0, true, 60.0),
        entry("unsent-high", 900.0, false, 60.0),
    ]);
    let mut cycle = engine().run_eviction_cycle(&mut queue, num(86.0)).unwrap();
    assert!(queue.is_empty());
    assert_eq!(evict_all(&mut cycle), vec!["sent-low", "sent-mid", "sent-high"]);
    let log = cycle.finish(&mut queue);
    assert_eq!(drained(queue), vec!["unsent-high", "unsent-low"]);
    assert_eq!(log.len(), 3);
    assert_eq!(log[0].evicted_id, "sent-low");
    assert_eq!(val(log[0].score), 1.0);
    assert_eq!(val(log[0].size_mb), 60.0);
    assert_eq!(log[0].criticality, Criticality::Routine);
    assert_eq!(log[0].reason, "Storage at 86.0% > 85.0% trigger");
    assert_eq!(log[1].reason, "Storage at 80.0% > 85.0% trigger");
    assert_eq!(log[2].reason, "Storage at 74.0% > 85.0% trigger");
}

#[test]
fn eviction_ends_below_the_target() {
    let mut queue = queue_of((0..6).map(|i| entry(&format!("e{i}"), i as f64, true, 100.0)).collect());
    let mut cycle = engine().run_eviction_cycle(&mut queue, num(95.0)).unwrap();
    assert_eq!(evict_all(&mut cycle), vec!["e0", "e1", "e2"]);
    cycle.finish(&mut queue);
    assert_eq!(drained(queue), vec!["e5", "e4", "e3"]);
}

#[test]
fn utilization_at_the_target_is_not_below_it() {
    let mut queue = queue_of(vec![entry("a", 1.0, true, 160.0), entry("b", 2.0, true, 10.0)]);
    let mut cycle = engine().run_eviction_cycle(&mut queue, num(86.0)).unwrap();
    assert_eq!(evict_all(&mut cycle), vec!["a", "b"]);
}

#[test]
fn entry_that_cannot_be_deleted_stays_queued() {
    let mut queue = queue_of(vec![entry("stuck", 1.0, true, 500.0), entry("gone", 2.0, true, 500.0)]);
    let mut cycle = engine().run_eviction_cycle(&mut queue, num(99.0)).unwrap();
    assert_eq!(cycle.next().unwrap().id, "stuck");
    cycle.kept();
    assert_eq!(cycle.next().unwrap().id, "gone");
    cycle.deleted(&reduced, &percent_text);
    assert!(cycle.next().is_none());
    let log = cycle.finish(&mut queue);
    assert_eq!(log.len(), 1);
    assert_eq!(drained(queue), vec!["stuck"]);
}

#[test]
fn audit_entry_bears_the_time_of_the_eviction() {
    let mut queue = queue_of(vec![entry("a", 1.0, true, 1.0)]);
    let mut cycle = engine().run_eviction_cycle(&mut queue, num(90.0)).unwrap();
    let now = Timestamp { secs: 1_700_000_000, nanos: 5 };
    cycle.deleted_at(now, &reduced, &percent_text);
    let log = cycle.finish(&mut queue);
    assert_eq!(log[0].timestamp, now);
    assert_eq!(log[0].reason, "Storage at 90.0% > 85.0% trigger");
    assert!(queue.is_empty());
}

#[test]
fn eviction_keeps_the_queue_weights() {
    let mut queue = PriorityQueue::new(PScoreWeights::from_env(Some(num(9.0)), None, None));
    let cycle = engine().run_eviction_cycle(&mut queue, num(90.0)).unwrap();
    assert!(cycle.next().is_none());
    assert!(cycle.finish(&mut queue).is_empty());
    assert_eq!(val(queue.weights().w_criticality), 9.0);
}

#[test]
fn utilization_is_the_used_share_of_all_bytes() {
    let engine = engine();
    assert_eq!(val(engine.check_utilization(1000, 250, 4096, &percent)), 75.0);
    assert_eq!(val(engine.check_utilization(8, 8, 512, &percent)), 0.0);
    assert_eq!(val(engine.check_utilization(8, 0, 512, &percent)), 100.0);
    assert_eq!(val(engine.check_utilization(0, 0, 4096, &percent)), 0.0);
    assert_eq!(val(engine.check_utilization(5, 9, 0, &percent)), 0.0);
}

#[test]
fn sealed_file_is_deleted_from_every_vault() {
    let mut config = EvictionConfig::from_env(None, None);
    config.vault_paths = vec!["/mnt/p".to_string(), "/mnt/m".to_string()];
    let engine = EvictionEngine::new(config);
    assert_eq!(engine.config().vault_paths.len(), 2);
    assert_eq!(
        engine.delete_sealed(&"/mnt/p/x.sealed".to_string()),
        vec!["/mnt/p/x.sealed".to_string(), "/mnt/m/x.sealed".to_string()],
    );
    assert_eq!(
        engine.delete_sealed(&"x.sealed".to_string()),
        vec!["x.sealed".to_string(), "/mnt/p/x.sealed".to_string(), "/mnt/m/x.sealed".to_string()],
    );
    assert_eq!(engine.delete_sealed(&"..".to_string()), vec!["..".to_string()]);
    assert_eq!(
        engine.delete_sealed(&"/mnt//m/./x.sealed".to_string()),
        vec!["/mnt//m/./x.sealed".to_string(), "/mnt/p/x.sealed".to_string()],
    );
}

#[test]
fn refused_removal_keeps_the_entry() {
    assert!(is_deleted(&vec![]));
    assert!(is_deleted(&vec![Removal::AlreadyGone, Removal::Removed, Removal::AlreadyGone]));
    assert!(!is_deleted(&vec![Removal::Removed, Removal::Refused]));
    assert!(!is_deleted(&vec![Removal::Refused, Removal::AlreadyGone]));
}
