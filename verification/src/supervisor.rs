//! The decisions of the root supervisor: power states, inference results and the state
//! broadcast.

use crate::double::Double;
use crate::double::ZERO_BITS;
use crate::dtn::SystemStateBroadcast;
use crate::eviction::EvictionConfig;
use crate::priority;
use crate::priority::Criticality;
use crate::priority::PScoreEntry;
use crate::priority::PScoreWeights;
use crate::priority::PriorityQueue;
use crate::priority::ScoreTerms;
use crate::text;
use crate::timestamp;
use crate::timestamp::Timestamp;
use crate::vault::VaultConfig;
use vstd::prelude::*;
use vstd::string::StringExecFns;

verus! {

/// Where the AI sandbox connects unless configured otherwise.
pub const DEFAULT_SOCKET_PATH: &'static str = "/tmp/mission.sock";

/// The criticality from which an inference result is an anomaly.
pub const ANOMALY_CRITICALITY: u32 = 1000;

/// How long to wait for a message, in milliseconds.
pub const READ_TIMEOUT_MS: u64 = 2500;

/// How long to wait for a message while power is low, in milliseconds.
pub const LOW_POWER_READ_TIMEOUT_MS: u64 = 20_000;

/// The bits of 0.05, the percentage that drains in a second of eclipse.
pub const DRAIN_RATE_BITS: u64 = 0x3FA9_9999_9999_999A;

/// The bits of 0.08, the percentage that charges in a second of sunlight.
pub const CHARGE_RATE_BITS: u64 = 0x3FB4_7AE1_47AE_147B;

/// The bits of 100.0, a full battery.
pub const FULL_BITS: u64 = 0x4059_0000_0000_0000;

/// The bits of 50.0, the charge above which all compute is available.
pub const SOLAR_ABOVE_BITS: u64 = 0x4049_0000_0000_0000;

/// The bits of 30.0, the charge below which compute is throttled.
pub const ECLIPSE_BELOW_BITS: u64 = 0x403E_0000_0000_0000;

/// The bits of 75.0, the charge that the mission starts with.
pub const INITIAL_SOC_BITS: u64 = 0x4052_C000_0000_0000;

/// The bits of 5.0, the seconds between two looks at the battery.
pub const GOVERNOR_PERIOD_BITS: u64 = 0x4014_0000_0000_0000;

/// Power states, by the battery's state of charge (SoC).
#[derive(Clone, Copy, Debug, PartialEq, Eq, Structural)]
pub enum PowerState {
    /// SoC > 50%: full AI compute.
    Solar,
    /// SoC < 30%: throttled AI compute.
    Eclipse,
    /// 30% <= SoC <= 50%: hold the current state.
    Transition,
}

impl PowerState {
    /// The name of a power state.
    pub open spec fn name_of(self) -> Seq<char> {
        match self {
            PowerState::Solar => "Solar"@,
            PowerState::Eclipse => "Eclipse"@,
            PowerState::Transition => "Transition"@,
        }
    }

    /// The name of this power state.
    pub fn name(self) -> (name: String)
        ensures
            name@ == self.name_of(),
    {
        match self {
            PowerState::Solar => "Solar".to_owned(),
            PowerState::Eclipse => "Eclipse".to_owned(),
            PowerState::Transition => "Transition".to_owned(),
        }
    }
}

/// The power state at a state of charge.
pub open spec fn power_state_at(soc_percent: Double) -> PowerState {
    if (Double { bits: SOLAR_ABOVE_BITS }).lt_spec(soc_percent) {
        PowerState::Solar
    } else if soc_percent.lt_spec(Double { bits: ECLIPSE_BELOW_BITS }) {
        PowerState::Eclipse
    } else {
        PowerState::Transition
    }
}

/// Simulated battery state.
#[derive(Clone, Copy, Debug)]
pub struct BatterySimulator {
    /// State of charge, in percent.
    pub soc_percent: Double,
    /// Percent per second during eclipse.
    pub drain_rate: Double,
    /// Percent per second in sunlight.
    pub charge_rate: Double,
}

/// Whether the battery goes from one state to another in some seconds: it drains in eclipse,
/// but not below zero, and charges otherwise, but not past full.
pub open spec fn ticked<
    D: Fn(Double, Double, Double) -> Double,
    G: Fn(Double, Double, Double) -> Double,
>(
    before: BatterySimulator,
    after: BatterySimulator,
    dt_secs: Double,
    in_eclipse: bool,
    drained: D,
    charged: G,
) -> bool {
    &&& after.drain_rate == before.drain_rate
    &&& after.charge_rate == before.charge_rate
    &&& if in_eclipse {
        exists|soc: Double| #[trigger]
            call_ensures(drained, (before.soc_percent, before.drain_rate, dt_secs), soc)
                && after.soc_percent == soc.max_spec(Double { bits: ZERO_BITS })
    } else {
        exists|soc: Double| #[trigger]
            call_ensures(charged, (before.soc_percent, before.charge_rate, dt_secs), soc)
                && after.soc_percent == soc.min_spec(Double { bits: FULL_BITS })
    }
}

impl BatterySimulator {
    /// Makes a battery with a state of charge.
    pub fn new(initial_soc: Double) -> (battery: BatterySimulator)
        ensures
            battery.soc_percent == initial_soc,
            battery.drain_rate.bits == DRAIN_RATE_BITS,
            battery.charge_rate.bits == CHARGE_RATE_BITS,
    {
        BatterySimulator {
            soc_percent: initial_soc,
            drain_rate: Double::from_bits(DRAIN_RATE_BITS),
            charge_rate: Double::from_bits(CHARGE_RATE_BITS),
        }
    }

    /// Lets some seconds pass. `drained` and `charged` compute the state of charge after that
    /// time at a rate.
    pub fn tick<
        D: Fn(Double, Double, Double) -> Double,
        G: Fn(Double, Double, Double) -> Double,
    >(&mut self, dt_secs: Double, in_eclipse: bool, drained: &D, charged: &G)
        requires
            forall|s: Double, r: Double, t: Double| call_requires(*drained, (s, r, t)),
            forall|s: Double, r: Double, t: Double| call_requires(*charged, (s, r, t)),
        ensures
            ticked(*old(self), *final(self), dt_secs, in_eclipse, *drained, *charged),
    {
        if in_eclipse {
            let soc = drained(self.soc_percent, self.drain_rate, dt_secs);
            self.soc_percent = soc.max(Double::from_bits(ZERO_BITS));
        } else {
            let soc = charged(self.soc_percent, self.charge_rate, dt_secs);
            self.soc_percent = soc.min(Double::from_bits(FULL_BITS));
        }
    }

    /// The power state that the state of charge calls for.
    pub fn power_state(&self) -> (state: PowerState)
        ensures
            state == power_state_at(self.soc_percent),
    {
        if Double::from_bits(SOLAR_ABOVE_BITS).lt(&self.soc_percent) {
            PowerState::Solar
        } else if self.soc_percent.lt(&Double::from_bits(ECLIPSE_BELOW_BITS)) {
            PowerState::Eclipse
        } else {
            PowerState::Transition
        }
    }
}

/// The CPU quota of the AI sandbox in a power state.
pub open spec fn quota_of(state: PowerState) -> Option<Seq<char>> {
    match state {
        PowerState::Solar => Some("200%"@),
        PowerState::Eclipse => Some("5%"@),
        PowerState::Transition => None,
    }
}

/// The power state to be in after the battery calls for one: between the thresholds the last
/// one holds.
pub open spec fn governed(last: PowerState, current: PowerState) -> PowerState {
    if current == PowerState::Transition {
        last
    } else {
        current
    }
}

/// A change of the power state.
#[derive(Debug)]
pub struct PowerTransition {
    /// The new power state.
    pub state: PowerState,
    /// The CPU quota of the AI sandbox in it.
    pub quota: String,
    /// The service property that sets the quota.
    pub property: String,
}

/// Decides the power state by the battery.
#[derive(Debug)]
pub struct PowerGovernor {
    last_state: PowerState,
}

impl PowerGovernor {
    /// The power state that the mission is in.
    pub closed spec fn state_spec(&self) -> PowerState {
        self.last_state
    }

    /// Starts in sunlight.
    pub fn new() -> (governor: PowerGovernor)
        ensures
            governor.state_spec() == PowerState::Solar,
    {
        PowerGovernor { last_state: PowerState::Solar }
    }

    /// The power state that the mission is in.
    pub fn state(&self) -> (state: PowerState)
        ensures
            state == self.state_spec(),
    {
        self.last_state
    }

    /// Looks at the battery once a period: lets the period pass for it, and gives out the
    /// transition to make, if the power state changes.
    pub fn tick<
        D: Fn(Double, Double, Double) -> Double,
        G: Fn(Double, Double, Double) -> Double,
    >(&mut self, battery: &mut BatterySimulator, drained: &D, charged: &G) -> (transition: Option<
        PowerTransition,
    >)
        requires
            forall|s: Double, r: Double, t: Double| call_requires(*drained, (s, r, t)),
            forall|s: Double, r: Double, t: Double| call_requires(*charged, (s, r, t)),
        ensures
            ticked(
                *old(battery),
                *final(battery),
                Double { bits: GOVERNOR_PERIOD_BITS },
                old(self).state_spec() == PowerState::Eclipse,
                *drained,
                *charged,
            ),
            final(self).state_spec() == governed(
                old(self).state_spec(),
                power_state_at(final(battery).soc_percent),
            ),
            transition is Some <==> final(self).state_spec() != old(self).state_spec(),
            transition matches Some(t) ==> {
                &&& t.state == final(self).state_spec()
                &&& quota_of(t.state) == Some(t.quota@)
                &&& t.property@ == "CPUQuota="@ + t.quota@
            },
    {
        let low = self.last_state == PowerState::Eclipse;
        battery.tick(Double::from_bits(GOVERNOR_PERIOD_BITS), low, drained, charged);
        let current = battery.power_state();
        if current == self.last_state {
            return None;
        }
        let quota = match current {
            PowerState::Solar => "200%".to_owned(),
            PowerState::Eclipse => "5%".to_owned(),
            PowerState::Transition => return None,
        };
        let mut property = "CPUQuota=".to_owned();
        property.append(quota.as_str());
        self.last_state = current;
        Some(PowerTransition { state: current, quota, property })
    }
}

/// Between the thresholds the power state holds: a charge from 30% to 50% changes nothing.
pub proof fn law_transition_band_holds_the_state(last: PowerState, soc_percent: Double)
    requires
        (Double { bits: ECLIPSE_BELOW_BITS }).le_spec(soc_percent),
        soc_percent.le_spec(Double { bits: SOLAR_ABOVE_BITS }),
    ensures
        governed(last, power_state_at(soc_percent)) == last,
{
}

/// Whether a state of charge is a percentage.
pub open spec fn is_percentage(soc_percent: Double) -> bool {
    &&& (Double { bits: ZERO_BITS }).le_spec(soc_percent)
    &&& soc_percent.le_spec(Double { bits: FULL_BITS })
}

/// The state of charge stays between 0% and 100%, as long as draining does not raise it and
/// charging does not lower it.
pub proof fn law_charge_stays_a_percentage<
    D: Fn(Double, Double, Double) -> Double,
    G: Fn(Double, Double, Double) -> Double,
>(
    before: BatterySimulator,
    after: BatterySimulator,
    dt_secs: Double,
    in_eclipse: bool,
    drained: D,
    charged: G,
)
    requires
        is_percentage(before.soc_percent),
        ticked(before, after, dt_secs, in_eclipse, drained, charged),
        forall|soc: Double| #[trigger]
            call_ensures(drained, (before.soc_percent, before.drain_rate, dt_secs), soc)
                ==> soc.le_spec(before.soc_percent),
        forall|soc: Double| #[trigger]
            call_ensures(charged, (before.soc_percent, before.charge_rate, dt_secs), soc)
                ==> before.soc_percent.le_spec(soc),
    ensures
        is_percentage(after.soc_percent),
{
}

/// How long to wait for a message from the AI sandbox in a power state, in milliseconds.
pub fn read_timeout_ms(power: PowerState) -> (ms: u64)
    ensures
        ms == if power == PowerState::Eclipse {
            LOW_POWER_READ_TIMEOUT_MS
        } else {
            READ_TIMEOUT_MS
        },
{
    if power == PowerState::Eclipse {
        LOW_POWER_READ_TIMEOUT_MS
    } else {
        READ_TIMEOUT_MS
    }
}

/// The criticality level of an inference result.
pub open spec fn level_of(criticality: u32) -> Criticality {
    if criticality >= ANOMALY_CRITICALITY {
        Criticality::Anomaly
    } else {
        Criticality::Routine
    }
}

/// Sorts an inference result into its criticality level, and counts it if it is an anomaly.
pub fn triage(criticality: u32, active_anomalies: &mut u32) -> (level: Criticality)
    requires
        criticality >= ANOMALY_CRITICALITY ==> *old(active_anomalies) < u32::MAX,
    ensures
        level == level_of(criticality),
        *final(active_anomalies) == *old(active_anomalies) + (if level == Criticality::Anomaly {
            1int
        } else {
            0int
        }),
{
    if criticality >= ANOMALY_CRITICALITY {
        *active_anomalies = *active_anomalies + 1;
        Criticality::Anomaly
    } else {
        Criticality::Routine
    }
}

/// The identifier of an inference result of a criticality, made at a time.
pub open spec fn inference_id_of(now: Timestamp, criticality: u32) -> Seq<char> {
    "inf-"@ + timestamp::compact_text(timestamp::civil_of(now)) + "-"@ + text::decimal(criticality as nat)
}

/// Makes the identifier of an inference result now.
pub fn inference_id(criticality: u32) -> (id: String)
    ensures
        exists|now: Timestamp| timestamp::is_reading(now) && id@ == #[trigger] inference_id_of(now, criticality),
{
    let now = timestamp::read_clock();
    inference_id_at(now, criticality)
}

/// Makes the identifier of an inference result at a time.
pub fn inference_id_at(now: Timestamp, criticality: u32) -> (id: String)
    requires
        now.wf(),
    ensures
        id@ == inference_id_of(now, criticality),
{
    let mut id = "inf-".to_owned();
    id.append(timestamp::format_compact(&now).as_str());
    id.append("-");
    id.append(text::write_decimal(criticality as u64).as_str());
    id
}

/// Whether a queue got an entry for an inference result that was sealed at a time.
pub open spec fn queued_at<F: Fn(&PScoreWeights, ScoreTerms) -> Double>(
    before: PriorityQueue,
    after: PriorityQueue,
    file_id: String,
    sealed_name: String,
    criticality: Criticality,
    size_mb: Double,
    now: Timestamp,
    formula: F,
) -> bool {
    &&& after.weights_spec() == before.weights_spec()
    &&& exists|entry: PScoreEntry|
        {
            &&& after.entries() == #[trigger] before.entries().insert(entry)
            &&& entry.id == file_id
            &&& entry.sealed_path == sealed_name
            &&& entry.criticality == criticality
            &&& entry.ingested_at == now
            &&& entry.size_mb == size_mb
            &&& !entry.transmitted
            &&& priority::scored_at(entry, now, before.weights_spec(), formula)
        }
}

/// Queues an inference result that was sealed now, for transmission.
pub fn enqueue_sealed<F: Fn(&PScoreWeights, ScoreTerms) -> Double>(
    queue: &mut PriorityQueue,
    file_id: String,
    sealed_name: String,
    criticality: Criticality,
    size_mb: Double,
    formula: &F,
)
    requires
        forall|w: &PScoreWeights, t: ScoreTerms| call_requires(*formula, (w, t)),
    ensures
        exists|now: Timestamp|
            timestamp::is_reading(now) && #[trigger] queued_at(
                *old(queue),
                *final(queue),
                file_id,
                sealed_name,
                criticality,
                size_mb,
                now,
                *formula,
            ),
{
    let now = timestamp::read_clock();
    enqueue_sealed_at(queue, file_id, sealed_name, criticality, size_mb, now, formula);
}

/// Queues an inference result that was sealed at a given time, for transmission.
pub fn enqueue_sealed_at<F: Fn(&PScoreWeights, ScoreTerms) -> Double>(
    queue: &mut PriorityQueue,
    file_id: String,
    sealed_name: String,
    criticality: Criticality,
    size_mb: Double,
    now: Timestamp,
    formula: &F,
)
    requires
        now.wf(),
        forall|w: &PScoreWeights, t: ScoreTerms| call_requires(*formula, (w, t)),
    ensures
        queued_at(
            *old(queue),
            *final(queue),
            file_id,
            sealed_name,
            criticality,
            size_mb,
            now,
            *formula,
        ),
{
    let entry = PScoreEntry::new_at(
        file_id,
        sealed_name,
        criticality,
        now,
        size_mb,
        now,
        queue.weights(),
        formula,
    );
    queue.push(entry);
}

/// Where the handling of an IPC connection stands.
#[derive(Clone, Copy, Debug, PartialEq, Eq, Structural)]
pub enum IpcPhase {
    /// Waiting for the next line, for as long as the power state allows.
    Reading,
    /// A line is to be parsed as an inference result.
    Parsing,
    /// The inference result is to be written out for the vault.
    Serializing,
    /// The payload is to be sealed in the vault.
    Ingesting,
    /// The sealed result is to be queued for transmission.
    Queueing,
    /// The connection is done.
    Closed,
    /// The connection is given up: no line came in time.
    TimedOut,
    /// The connection is given up: a result could not be written out.
    Unserializable,
}

/// What happened to an IPC connection.
#[derive(Clone, Copy, Debug, PartialEq, Eq, Structural)]
pub enum IpcEvent {
    /// The step that the phase calls for was done.
    Done,
    /// The step failed.
    Failed,
    /// There is no further line.
    EndOfStream,
    /// No line came in time.
    Elapsed,
}

/// The phase of a connection after an event. Only a timeout or a result that cannot be written
/// out ends it early: a line that cannot be parsed and a payload that cannot be sealed are
/// passed over.
pub open spec fn phase_after(phase: IpcPhase, event: IpcEvent) -> IpcPhase {
    match phase {
        IpcPhase::Reading => match event {
            IpcEvent::Done => IpcPhase::Parsing,
            IpcEvent::Failed => IpcPhase::Closed,
            IpcEvent::EndOfStream => IpcPhase::Closed,
            IpcEvent::Elapsed => IpcPhase::TimedOut,
        },
        IpcPhase::Parsing => if event == IpcEvent::Done {
            IpcPhase::Serializing
        } else {
            IpcPhase::Reading
        },
        IpcPhase::Serializing => if event == IpcEvent::Done {
            IpcPhase::Ingesting
        } else {
            IpcPhase::Unserializable
        },
        IpcPhase::Ingesting => if event == IpcEvent::Done {
            IpcPhase::Queueing
        } else {
            IpcPhase::Reading
        },
        IpcPhase::Queueing => IpcPhase::Reading,
        IpcPhase::Closed => IpcPhase::Closed,
        IpcPhase::TimedOut => IpcPhase::TimedOut,
        IpcPhase::Unserializable => IpcPhase::Unserializable,
    }
}

impl IpcPhase {
    /// The phase after an event.
    pub fn after(self, event: IpcEvent) -> (next: IpcPhase)
        ensures
            next == phase_after(self, event),
    {
        match self {
            IpcPhase::Reading => match event {
                IpcEvent::Done => IpcPhase::Parsing,
                IpcEvent::Failed => IpcPhase::Closed,
                IpcEvent::EndOfStream => IpcPhase::Closed,
                IpcEvent::Elapsed => IpcPhase::TimedOut,
            },
            IpcPhase::Parsing => if event == IpcEvent::Done {
                IpcPhase::Serializing
            } else {
                IpcPhase::Reading
            },
            IpcPhase::Serializing => if event == IpcEvent::Done {
                IpcPhase::Ingesting
            } else {
                IpcPhase::Unserializable
            },
            IpcPhase::Ingesting => if event == IpcEvent::Done {
                IpcPhase::Queueing
            } else {
                IpcPhase::Reading
            },
            IpcPhase::Queueing => IpcPhase::Reading,
            IpcPhase::Closed => IpcPhase::Closed,
            IpcPhase::TimedOut => IpcPhase::TimedOut,
            IpcPhase::Unserializable => IpcPhase::Unserializable,
        }
    }
}

/// The phase of a connection after events.
pub open spec fn phase_after_all(phase: IpcPhase, events: Seq<IpcEvent>) -> IpcPhase
    decreases events.len(),
{
    if events.len() == 0 {
        phase
    } else {
        phase_after(phase_after_all(phase, events.drop_last()), events.last())
    }
}

/// A result is queued only when it was sealed: the step before queueing is always an ingest
/// that was done.
pub proof fn law_only_sealed_results_are_queued(events: Seq<IpcEvent>)
    requires
        phase_after_all(IpcPhase::Reading, events) == IpcPhase::Queueing,
    ensures
        events.len() > 0,
        events.last() == IpcEvent::Done,
        phase_after_all(IpcPhase::Reading, events.drop_last()) == IpcPhase::Ingesting,
{
}

/// The state that is broadcast.
pub fn state_broadcast(
    epoch: Timestamp,
    queue_depth: usize,
    vault_sealed_count: u64,
    soc_percent: Double,
    power: PowerState,
    active_anomalies: u32,
    dtn_link_active: bool,
    chunks_pending: u64,
    usb_primary_util: Double,
    usb_mirror_util: Double,
) -> (broadcast: SystemStateBroadcast)
    ensures
        broadcast.epoch == epoch,
        broadcast.queue_depth == queue_depth,
        broadcast.vault_sealed_count == vault_sealed_count,
        broadcast.soc_percent == soc_percent,
        broadcast.power_state@ == power.name_of(),
        broadcast.active_anomalies == active_anomalies,
        broadcast.dtn_link_active == dtn_link_active,
        broadcast.chunks_pending == chunks_pending,
        broadcast.usb_primary_util == usb_primary_util,
        broadcast.usb_mirror_util == usb_mirror_util,
{
    SystemStateBroadcast {
        epoch,
        queue_depth,
        vault_sealed_count,
        soc_percent,
        power_state: power.name(),
        active_anomalies,
        dtn_link_active,
        chunks_pending,
        usb_primary_util,
        usb_mirror_util,
    }
}

/// The eviction configuration that watches the two vaults.
pub fn watching_vaults(config: EvictionConfig, vaults: &VaultConfig) -> (watching: EvictionConfig)
    ensures
        watching.trigger_percent == config.trigger_percent,
        watching.target_percent == config.target_percent,
        text::names_view(watching.vault_paths@) == seq![vaults.usb_primary@, vaults.usb_mirror@],
{
    let mut config = config;
    let mut paths: Vec<String> = Vec::new();
    paths.push(vaults.usb_primary.clone());
    paths.push(vaults.usb_mirror.clone());
    config.vault_paths = paths;
    assert(text::names_view(config.vault_paths@) =~= seq![vaults.usb_primary@, vaults.usb_mirror@]);
    config
}

/// Where to listen for the AI sandbox: the path that the environment sets, or the default.
pub fn socket_path(value: Option<String>) -> (path: String)
    ensures
        path@ == text::set_or(text::opt_view(value), DEFAULT_SOCKET_PATH@),
{
    text::value_or(value, DEFAULT_SOCKET_PATH)
}

/// The power state follows the charge: above 50 it is solar, below 30 eclipse, and between them,
/// or where the charge is no number, neither.
pub proof fn law_power_state_follows_the_charge(battery: &BatterySimulator, state: PowerState)
    requires
        call_ensures(BatterySimulator::power_state, (battery,), state),
    ensures
        state == PowerState::Solar <==> (Double { bits: 0x4049_0000_0000_0000 }).lt_spec(
            battery.soc_percent,
        ),
        state == PowerState::Eclipse <==> battery.soc_percent.lt_spec(
            Double { bits: 0x403E_0000_0000_0000 },
        ),
{
}

/// The governor follows every definite state and holds its own in the band between them. It
/// never comes into the transition state from another, and always has a quota for the state it
/// changes to.
pub proof fn law_governor_follows_definite_states(last: PowerState, current: PowerState)
    ensures
        current != PowerState::Transition ==> governed(last, current) == current,
        current == PowerState::Transition ==> governed(last, current) == last,
        last != PowerState::Transition ==> governed(last, current) != PowerState::Transition,
        quota_of(PowerState::Solar) == Some("200%"@),
        quota_of(PowerState::Eclipse) == Some("5%"@),
        governed(last, current) != last ==> quota_of(governed(last, current)) is Some,
{
}

/// A tick drains in eclipse and charges otherwise, at the battery's own rate over the time that
/// passed, and keeps the rates. The charge is what draining gives, but not below 0; what charging
/// gives, but not above 100.
pub proof fn law_tick_drains_or_charges<
    D: Fn(Double, Double, Double) -> Double,
    G: Fn(Double, Double, Double) -> Double,
>(
    before: BatterySimulator,
    after: BatterySimulator,
    dt_secs: Double,
    in_eclipse: bool,
    drained: D,
    charged: G,
)
    requires
        ticked(before, after, dt_secs, in_eclipse, drained, charged),
    ensures
        after.drain_rate == before.drain_rate,
        after.charge_rate == before.charge_rate,
        in_eclipse ==> exists|soc: Double|
            {
                let empty = Double { bits: 0 };
                &&& #[trigger] call_ensures(
                    drained,
                    (before.soc_percent, before.drain_rate, dt_secs),
                    soc,
                )
                &&& empty.le_spec(soc) ==> after.soc_percent == soc
                &&& !empty.le_spec(soc) ==> after.soc_percent == empty
            },
        !in_eclipse ==> exists|soc: Double|
            {
                let full = Double { bits: 0x4059_0000_0000_0000 };
                &&& #[trigger] call_ensures(
                    charged,
                    (before.soc_percent, before.charge_rate, dt_secs),
                    soc,
                )
                &&& soc.le_spec(full) ==> after.soc_percent == soc
                &&& !soc.le_spec(full) ==> after.soc_percent == full
            },
{
    if in_eclipse {
        let soc = choose|soc: Double| #[trigger]
            call_ensures(drained, (before.soc_percent, before.drain_rate, dt_secs), soc)
                && after.soc_percent == soc.max_spec(Double { bits: ZERO_BITS });
        assert(call_ensures(drained, (before.soc_percent, before.drain_rate, dt_secs), soc));
    } else {
        let soc = choose|soc: Double| #[trigger]
            call_ensures(charged, (before.soc_percent, before.charge_rate, dt_secs), soc)
                && after.soc_percent == soc.min_spec(Double { bits: FULL_BITS });
        assert(call_ensures(charged, (before.soc_percent, before.charge_rate, dt_secs), soc));
    }
}

/// A reading waits 20 seconds in eclipse, and 2.5 seconds in every other state.
pub proof fn law_eclipse_waits_longer(power: PowerState, ms: u64)
    requires
        call_ensures(read_timeout_ms, (power,), ms),
    ensures
        power == PowerState::Eclipse ==> ms == 20_000,
        power != PowerState::Eclipse ==> ms == 2500,
{
}

/// A result is an anomaly exactly from criticality 1000 on, so no higher criticality is less.
pub proof fn law_level_rises_with_criticality(less: u32, more: u32)
    requires
        less <= more,
    ensures
        level_of(less) == Criticality::Anomaly <==> less >= 1000,
        level_of(less) == Criticality::Anomaly ==> level_of(more) == Criticality::Anomaly,
{
}

/// An inference id tells the time and the criticality: after `inf-` comes the time to the
/// millisecond, and after a dash the criticality in decimal. Two ids of one time are the same only
/// for the same criticality.
pub proof fn law_inference_ids_tell_criticality(now: Timestamp, a: u32, b: u32)
    ensures
        text::has_prefix(
            inference_id_of(now, a),
            "inf-"@ + timestamp::compact_text(timestamp::civil_of(now)) + "-"@,
        ),
        text::digits_value(
            inference_id_of(now, a).skip(
                "inf-"@.len() as int + timestamp::compact_text(timestamp::civil_of(now)).len()
                    + "-"@.len(),
            ),
        ) == a,
        inference_id_of(now, a) == inference_id_of(now, b) ==> a == b,
{
    let head = "inf-"@ + timestamp::compact_text(timestamp::civil_of(now)) + "-"@;
    let n = head.len() as int;
    assert(inference_id_of(now, a).take(n) =~= head);
    assert(inference_id_of(now, a).skip(n) =~= text::decimal(a as nat));
    assert(inference_id_of(now, b).skip(n) =~= text::decimal(b as nat));
    text::lemma_decimal_denotes(a as nat);
    text::lemma_decimal_denotes(b as nat);
}

/// Queueing a sealed file adds one entry and changes nothing else of the queue. The entry has the
/// file's id, name, criticality and size, was ingested now, has not been transmitted, and has the
/// score that the formula gives for it under the queue's weights.
pub proof fn law_sealed_file_is_queued_once<F: Fn(&PScoreWeights, ScoreTerms) -> Double>(
    before: PriorityQueue,
    after: PriorityQueue,
    file_id: String,
    sealed_name: String,
    criticality: Criticality,
    size_mb: Double,
    now: Timestamp,
    formula: F,
)
    requires
        now.wf(),
        queued_at(before, after, file_id, sealed_name, criticality, size_mb, now, formula),
    ensures
        after.weights_spec() == before.weights_spec(),
        after.entries().len() == before.entries().len() + 1,
        exists|entry: PScoreEntry|
            {
                &&& after.entries() == #[trigger] before.entries().insert(entry)
                &&& entry.id == file_id
                &&& entry.sealed_path == sealed_name
                &&& entry.criticality == criticality
                &&& entry.ingested_at == now
                &&& entry.size_mb == size_mb
                &&& !entry.transmitted
                &&& priority::is_score_of(
                    entry,
                    entry.cached_score,
                    now,
                    before.weights_spec(),
                    formula,
                )
            },
{
    broadcast use vstd::multiset::group_multiset_axioms;

    let entry = choose|entry: PScoreEntry|
        {
            &&& after.entries() == #[trigger] before.entries().insert(entry)
            &&& entry.id == file_id
            &&& entry.sealed_path == sealed_name
            &&& entry.criticality == criticality
            &&& entry.ingested_at == now
            &&& entry.size_mb == size_mb
            &&& !entry.transmitted
            &&& priority::scored_at(entry, now, before.weights_spec(), formula)
        };
    priority::law_wait_is_the_time_since_ingest(entry, now);
    assert(call_ensures(
        formula,
        (&before.weights_spec(), entry.terms_at(now)),
        entry.cached_score,
    ));
}

/// A connection ends for three reasons and no other: reading fails or meets the end of the
/// stream, nothing comes in time, or a result cannot be written down again. A message that does
/// not parse, or a payload that is not sealed, leaves it reading; and what has ended stays ended.
pub proof fn law_connections_end_for_three_reasons(
    phase: IpcPhase,
    event: IpcEvent,
    next: IpcPhase,
)
    requires
        call_ensures(IpcPhase::after, (phase, event), next),
    ensures
        next == IpcPhase::Closed <==> phase == IpcPhase::Closed || phase == IpcPhase::Reading && (
        event == IpcEvent::Failed || event == IpcEvent::EndOfStream),
        next == IpcPhase::TimedOut <==> phase == IpcPhase::TimedOut || phase == IpcPhase::Reading
            && event == IpcEvent::Elapsed,
        next == IpcPhase::Unserializable <==> phase == IpcPhase::Unserializable || phase
            == IpcPhase::Serializing && event != IpcEvent::Done,
        next == IpcPhase::Parsing <==> phase == IpcPhase::Reading && event == IpcEvent::Done,
        next == IpcPhase::Serializing <==> phase == IpcPhase::Parsing && event == IpcEvent::Done,
        next == IpcPhase::Ingesting <==> phase == IpcPhase::Serializing && event == IpcEvent::Done,
        next == IpcPhase::Queueing <==> phase == IpcPhase::Ingesting && event == IpcEvent::Done,
{
}

/// A new battery has the charge it was given, drains 0.05 and charges 0.08 per second.
pub proof fn law_new_battery_has_its_rates(initial_soc: Double, battery: BatterySimulator)
    requires
        call_ensures(BatterySimulator::new, (initial_soc,), battery),
    ensures
        battery.soc_percent == initial_soc,
        battery.drain_rate.bits == 0x3FA9_9999_9999_999A,
        battery.charge_rate.bits == 0x3FB4_7AE1_47AE_147B,
{
}

/// The names of the power states tell them apart, each by its own word.
pub proof fn law_power_states_have_their_names(state: PowerState, name: String)
    requires
        call_ensures(PowerState::name, (state,), name),
    ensures
        state == PowerState::Solar ==> name@ == "Solar"@,
        state == PowerState::Eclipse ==> name@ == "Eclipse"@,
        state == PowerState::Transition ==> name@ == "Transition"@,
{
}

/// Triage calls a result an anomaly exactly from criticality 1000 on, and counts the anomalies,
/// one for each.
pub proof fn law_triage_counts_anomalies(
    criticality: u32,
    active_anomalies: &mut u32,
    level: Criticality,
)
    requires
        call_ensures(triage, (criticality, active_anomalies), level),
    ensures
        level == Criticality::Anomaly <==> criticality >= 1000,
        criticality >= 1000 ==> *final(active_anomalies) == *old(active_anomalies) + 1,
        criticality < 1000 ==> *final(active_anomalies) == *old(active_anomalies),
{
}

/// The governor drains the battery in eclipse and charges it otherwise, for five seconds. Then it
/// takes the state of the charge, but holds its own between 30 and 50. It announces a change
/// exactly when there is one, with the quota of the new state.
pub proof fn law_governor_follows_the_charge<
    D: Fn(Double, Double, Double) -> Double,
    G: Fn(Double, Double, Double) -> Double,
>(
    governor: &mut PowerGovernor,
    battery: &mut BatterySimulator,
    drained: &D,
    charged: &G,
    transition: Option<PowerTransition>,
)
    requires
        call_ensures(
            PowerGovernor::tick::<D, G>,
            (governor, battery, drained, charged),
            transition,
        ),
    ensures
        ({
            let soc = final(battery).soc_percent;
            let solar = (Double { bits: 0x4049_0000_0000_0000 }).lt_spec(soc);
            let eclipse = soc.lt_spec(Double { bits: 0x403E_0000_0000_0000 });
            &&& solar ==> final(governor).state_spec() == PowerState::Solar
            &&& eclipse ==> final(governor).state_spec() == PowerState::Eclipse
            &&& !solar && !eclipse ==> final(governor).state_spec() == old(governor).state_spec()
        }),
        ticked(
            *old(battery),
            *final(battery),
            Double { bits: 0x4014_0000_0000_0000 },
            old(governor).state_spec() == PowerState::Eclipse,
            *drained,
            *charged,
        ),
        transition is Some <==> final(governor).state_spec() != old(governor).state_spec(),
        transition matches Some(t) ==> {
            &&& t.state == final(governor).state_spec()
            &&& t.state == PowerState::Solar ==> t.quota@ == "200%"@
            &&& t.state == PowerState::Eclipse ==> t.quota@ == "5%"@
            &&& t.property@ == "CPUQuota="@ + t.quota@
        },
{
}

} // verus!
