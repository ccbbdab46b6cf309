use mission_core::double::Double;
use mission_core::dtn::SpoolManager;
use mission_core::eviction::EvictionConfig;
use mission_core::priority::Criticality;
use mission_core::priority::PScoreWeights;
use mission_core::priority::PriorityQueue;
use mission_core::priority::ScoreTerms;
use mission_core::storage::sealed_count;
use mission_core::supervisor::enqueue_sealed;
use mission_core::supervisor::enqueue_sealed_at;
use mission_core::supervisor::inference_id;
use mission_core::supervisor::inference_id_at;
use mission_core::supervisor::read_timeout_ms;
use mission_core::supervisor::socket_path;
use mission_core::supervisor::state_broadcast;
use mission_core::supervisor::triage;
use mission_core::supervisor::watching_vaults;
use mission_core::supervisor::BatterySimulator;
use mission_core::supervisor::IpcEvent;
use mission_core::supervisor::IpcPhase;
use mission_core::supervisor::PowerGovernor;
use mission_core::supervisor::PowerState;
use mission_core::supervisor::INITIAL_SOC_BITS;
use mission_core::timestamp::Timestamp;
use mission_core::vault::VaultConfig;

fn num(x: f64) -> Double {
    Double::from_bits(x.to_bits())
}

fn val(d: Double) -> f64 {
    f64::from_bits(d.bits)
}

fn drained(soc: Double, rate: Double, dt: Double) -> Double {
    num(val(soc) - val(rate) * val(dt))
}

fn charged(soc: Double, rate: Double, dt: Double) -> Double {
    num(val(soc) + val(rate) * val(dt))
}

#[test]
fn battery_rates_are_exact() {
    let battery = BatterySimulator::new(Double::from_bits(INITIAL_SOC_BITS));
    assert_eq!(val(battery.soc_percent), 75.0);
    assert_eq!(val(battery.drain_rate), 0.05);
    assert_eq!(val(battery.charge_rate), 0.08);
}

#[test]
fn battery_charges_and_drains_within_bounds() {
    let mut battery = BatterySimulator::new(num(75.0));
    battery.tick(num(5.0), false, &drained, &charged);
    assert_eq!(val(battery.soc_percent), 75.0 + 0.08 * 5.0);
    battery.tick(num(1e6), false, &drained, &charged);
    assert_eq!(val(battery.soc_percent), 100.0);
    battery.tick(num(5.0), true, &drained, &charged);
    assert_eq!(val(battery.soc_percent), 100.0 - 0.05 * 5.0);
    battery.tick(num(1e6), true, &drained, &charged);
    assert_eq!(val(battery.soc_percent), 0.0);
}

#[test]
fn power_state_follows_the_charge() {
    let cases = [
        (100.0, PowerState::Solar),
        (50.000001, PowerState::Solar),
        (50.0, PowerState::Transition),
        (30.0, PowerState::Transition),
        (29.999999, PowerState::Eclipse),
        (0.0, PowerState::Eclipse),
        (f64::NAN, PowerState::Transition),
    ];
    for (soc, state) in cases {
        assert_eq!(BatterySimulator::new(num(soc)).power_state(), state, "{soc}");
    }
}

#[test]
fn governor_changes_state_past_the_thresholds_only() {
    let mut governor = PowerGovernor::new();
    assert_eq!(governor.state(), PowerState::Solar);
    let steady = |soc: Double, _: Double, _: Double| soc;
    let mut at = |soc: f64| {
        let mut battery = BatterySimulator::new(num(soc));
        let transition = governor.tick(&mut battery, &steady, &steady);
        (transition.map(|t| (t.state, t.quota, t.property)), governor.state())
    };
    assert_eq!(at(75.0), (None, PowerState::Solar));
    assert_eq!(at(40.0), (None, PowerState::Solar));
    assert_eq!(
        at(29.0),
        (
            Some((PowerState::Eclipse, "5%".to_string(), "CPUQuota=5%".to_string())),
            PowerState::Eclipse,
        ),
    );
    assert_eq!(at(40.0), (None, PowerState::Eclipse));
    assert_eq!(at(50.0), (None, PowerState::Eclipse));
    assert_eq!(
        at(51.0),
        (
            Some((PowerState::Solar, "200%".to_string(), "CPUQuota=200%".to_string())),
            PowerState::Solar,
        ),
    );
}

#[test]
fn governor_drains_in_eclipse_and_charges_otherwise() {
    let mut governor = PowerGovernor::new();
    let mut battery = BatterySimulator::new(num(75.0));
    assert!(governor.tick(&mut battery, &drained, &charged).is_none());
    assert_eq!(val(battery.soc_percent), 75.0 + 0.08 * 5.0);
    battery.soc_percent = num(10.0);
    let transition = governor.tick(&mut battery, &drained, &charged);
    assert_eq!(transition.unwrap().state, PowerState::Eclipse);
    assert_eq!(val(battery.soc_percent), 10.0 + 0.08 * 5.0);
    let before = val(battery.soc_percent);
    assert!(governor.tick(&mut battery, &drained, &charged).is_none());
    assert_eq!(val(battery.soc_percent), before - 0.05 * 5.0);
}

#[test]
fn reads_may_take_longer_while_power_is_low() {
    assert_eq!(read_timeout_ms(PowerState::Eclipse), 20_000);
    assert_eq!(read_timeout_ms(PowerState::Solar), 2_500);
    assert_eq!(read_timeout_ms(PowerState::Transition), 2_500);
}

#[test]
fn anomalies_are_counted() {
    let mut anomalies = 4u32;
    assert_eq!(triage(999, &mut anomalies), Criticality::Routine);
    assert_eq!(anomalies, 4);
    assert_eq!(triage(1000, &mut anomalies), Criticality::Anomaly);
    assert_eq!(triage(u32::MAX, &mut anomalies), Criticality::Anomaly);
    assert_eq!(anomalies, 6);
    let mut full = u32::MAX;
    assert_eq!(triage(1, &mut full), Criticality::Routine);
    assert_eq!(full, u32::MAX);
}

#[test]
fn inference_ids_hold_the_time_and_the_criticality() {
    let now = Timestamp { secs: 1_704_110_400, nanos: 7_999_999 };
    assert_eq!(inference_id_at(now, 1000), "inf-20240101120000007-1000");
    assert_eq!(inference_id_at(now, 0), "inf-20240101120000007-0");
    let year_one = Timestamp { secs: -62_135_596_800, nanos: 0 };
    assert_eq!(inference_id_at(year_one, 7), "inf-00010101000000000-7");
    let before_zero = Timestamp { secs: -62_167_219_201, nanos: 999_000_000 };
    assert_eq!(inference_id_at(before_zero, 7), "inf--00011231235959999-7");
    let far = Timestamp { secs: 253_402_300_800, nanos: 0 };
    assert_eq!(inference_id_at(far, 7), "inf-+100000101000000000-7");
    let leap = Timestamp { secs: 1_483_228_799, nanos: 1_250_000_000 };
    assert_eq!(inference_id_at(leap, 7), "inf-20161231235960250-7");
    let id = inference_id(17);
    assert_eq!(id.len(), "inf-20240101120000007-17".len());
    assert!(id.starts_with("inf-2") && id.ends_with("-17"));
}

#[test]
fn sealed_result_is_queued() {
    let weights = PScoreWeights::from_env(Some(num(3.0)), None, None);
    let mut queue = PriorityQueue::new(weights);
    let formula = |w: &PScoreWeights, t: ScoreTerms| {
        num(val(w.w_criticality) * val(t.criticality) + t.wait_secs as f64 - val(t.size_mb))
    };
    enqueue_sealed(
        &mut queue,
        "inf-1".into(),
        "inf-1.sealed".into(),
        Criticality::Anomaly,
        num(0.25),
        &formula,
    );
    let entry = queue.pop().unwrap();
    assert_eq!(entry.id, "inf-1");
    assert_eq!(entry.sealed_path, "inf-1.sealed");
    assert_eq!(entry.criticality, Criticality::Anomaly);
    assert_eq!(val(entry.size_mb), 0.25);
    assert!(!entry.transmitted);
    assert!((chrono::Utc::now().timestamp() - entry.ingested_at.secs).abs() <= 2);
    assert!(val(entry.score()) >= 2999.75 && val(entry.score()) <= 3001.75);
}

#[test]
fn sealed_result_is_queued_at_a_given_time() {
    let mut queue = PriorityQueue::new(PScoreWeights::default());
    let now = Timestamp { secs: 77, nanos: 5 };
    let formula = |w: &PScoreWeights, t: ScoreTerms| {
        num(val(w.w_criticality) * val(t.criticality) + t.wait_secs as f64 - val(t.size_mb))
    };
    let (id, name) = ("x".to_string(), "x.sealed".to_string());
    enqueue_sealed_at(&mut queue, id, name, Criticality::Anomaly, num(2.0), now, &formula);
    let entry = queue.pop().unwrap();
    assert_eq!(entry.ingested_at, now);
    assert_eq!(val(entry.score()), 998.0);
}

#[test]
fn sealed_files_and_spooled_chunks_are_counted() {
    let names: Vec<String> = ["a.sealed", "b.pending", "c.chunk", "d.sealed", "sealed", ".chunk"]
        .iter()
        .map(|n| n.to_string())
        .collect();
    assert_eq!(sealed_count(&names), 2);
    assert_eq!(SpoolManager::new("/s".to_string()).chunks_pending(&names), 2);
    assert_eq!(sealed_count(&Vec::new()), 0);
}

#[test]
fn connection_passes_over_bad_messages() {
    let (done, failed) = (IpcEvent::Done, IpcEvent::Failed);
    let (ended, elapsed) = (IpcEvent::EndOfStream, IpcEvent::Elapsed);
    let run = |events: &[IpcEvent]| {
        events.iter().fold(IpcPhase::Reading, |phase, event| phase.after(*event))
    };
    assert_eq!(run(&[]), IpcPhase::Reading);
    assert_eq!(run(&[done]), IpcPhase::Parsing);
    assert_eq!(run(&[done, failed]), IpcPhase::Reading);
    assert_eq!(run(&[done, done]), IpcPhase::Serializing);
    assert_eq!(run(&[done, done, failed]), IpcPhase::Unserializable);
    assert_eq!(run(&[done, done, done]), IpcPhase::Ingesting);
    assert_eq!(run(&[done, done, done, failed]), IpcPhase::Reading);
    assert_eq!(run(&[done, done, done, done]), IpcPhase::Queueing);
    assert_eq!(run(&[done, done, done, done, done]), IpcPhase::Reading);
    assert_eq!(run(&[ended]), IpcPhase::Closed);
    assert_eq!(run(&[failed]), IpcPhase::Closed);
    assert_eq!(run(&[elapsed]), IpcPhase::TimedOut);
    assert_eq!(run(&[elapsed, done]), IpcPhase::TimedOut);
    assert_eq!(run(&[ended, done]), IpcPhase::Closed);
}

#[test]
fn broadcast_shows_the_state() {
    let epoch = Timestamp { secs: 5, nanos: 6 };
    let b = state_broadcast(
        epoch,
        3,
        17,
        num(41.5),
        PowerState::Eclipse,
        2,
        true,
        9,
        num(12.5),
        num(87.0),
    );
    assert_eq!(b.epoch, epoch);
    assert_eq!(b.queue_depth, 3);
    assert_eq!(val(b.soc_percent), 41.5);
    assert_eq!(b.power_state, "Eclipse");
    assert_eq!(b.active_anomalies, 2);
    assert!(b.dtn_link_active);
    assert_eq!((b.vault_sealed_count, b.chunks_pending), (17, 9));
    assert_eq!((val(b.usb_primary_util), val(b.usb_mirror_util)), (12.5, 87.0));
    for state in [PowerState::Solar, PowerState::Eclipse, PowerState::Transition] {
        assert_eq!(state.name(), format!("{state:?}"));
    }
}

#[test]
fn eviction_watches_both_vaults() {
    let vaults = VaultConfig {
        aes_key: vec![],
        ram_shield: "/r".into(),
        usb_primary: "/p".into(),
        usb_mirror: "/m".into(),
    };
    let config = watching_vaults(EvictionConfig::from_env(Some(num(1.0)), None), &vaults);
    assert_eq!(config.vault_paths, vec!["/p".to_string(), "/m".to_string()]);
    assert_eq!(val(config.trigger_percent), 1.0);
    assert_eq!(val(config.target_percent), 70.0);
}

#[test]
fn socket_path_has_a_default() {
    assert_eq!(socket_path(None), "/tmp/mission.sock");
    assert_eq!(socket_path(Some("/run/x".into())), "/run/x");
}
