//! The decisions of the TCP probing worker.
//!
//! The worker runs rounds without end. In each it reads the options,
//! stamps the round, launches one probe for each address, sleeps the
//! interval out, receives what the probes report and hands the assembled
//! round on. Reading the wall clock, launching, sleeping, receiving and
//! handing on are done by the program that drives the worker; what to do
//! next, and what a round is made of, is decided here.

use vstd::prelude::*;
use crate::data::{
    ascending, has_index, inserted, lemma_inserted_ascending, lemma_inserted_ids,
    lemma_inserted_members, same_time, DiscreteDataOnDisk, TimePackage, NAN_BITS,
};
use crate::manager::{Manager, ManagerView};
use crate::workers::AddrId;

verus! {

/// Calls `time::precise_time_ns`: the reading of a high-resolution
/// counter in nanoseconds since an unspecified epoch, on Unix that of the
/// monotonic clock. Trusted, and nothing is claimed of the value.
#[verifier::external_body]
fn precise_ns() -> (ns: u64) {
    time::precise_time_ns()
}

/// The 32-bit timestamp for a clock reading of `secs` seconds: its low
/// 32 bits.
pub open spec fn stamp(secs: i64) -> u32 {
    (secs as int % 0x1_0000_0000) as u32
}

/// Cuts a clock reading down to the 32 bits a record has room for.
pub fn timestamp_of(secs: i64) -> (t: u32)
    ensures
        t == stamp(secs),
{
    let t = #[verifier::truncate] (secs as u32);
    assert(t == (secs as int % 0x1_0000_0000) as u32) by (bit_vector)
        requires
            t == secs as u32,
    ;
    t
}

/// Time between two readings of the counter in units of 100 ns, rounded
/// down; zero where the second reading is not later than the first.
pub open spec fn ticks_between(start_ns: u64, end_ns: u64) -> u64 {
    if end_ns >= start_ns {
        ((end_ns - start_ns) / 100) as u64
    } else {
        0
    }
}

/// What a probe has measured: the time the connection took, in units of
/// 100 ns, or nothing where it could not be made.
pub open spec fn probe_outcome(start_ns: u64, end_ns: u64, connected: bool) -> Option<u64> {
    if connected {
        Some(ticks_between(start_ns, end_ns))
    } else {
        None
    }
}

/// The outcome of a probe that ran between two readings of the counter.
pub fn probe_reading(start_ns: u64, end_ns: u64, connected: bool) -> (r: Option<u64>)
    ensures
        r == probe_outcome(start_ns, end_ns, connected),
{
    if !connected {
        None
    } else if end_ns >= start_ns {
        Some((end_ns - start_ns) / 100)
    } else {
        Some(0)
    }
}

/// Stopwatch of one probe.
pub struct ProbeTimer {
    start_ns: u64,
}

impl ProbeTimer {
    /// The counter's reading when the watch was started.
    pub closed spec fn started(&self) -> u64 {
        self.start_ns
    }

    /// Starts the watch at the counter's present reading.
    pub fn start() -> ProbeTimer {
        ProbeTimer { start_ns: precise_ns() }
    }

    /// Stops the watch once the connection attempt is over and gives the
    /// probe's outcome for the counter's present reading. Whatever that
    /// reading is, a failed attempt has no measurement and one that
    /// succeeded has one.
    pub fn finish(&self, connected: bool) -> (r: Option<u64>)
        ensures
            r is Some <==> connected,
            exists|end_ns: u64| r == probe_outcome(self.started(), end_ns, connected),
    {
        let end_ns = precise_ns();
        let r = probe_reading(self.start_ns, end_ns, connected);
        assert(r == probe_outcome(self.started(), end_ns, connected));
        r
    }
}

/// One probe to launch: the id it measures and the address to connect
/// to, `None` where the index has no address for the id.
pub struct Target {
    pub addr_i: AddrId,
    pub addr: Option<String>,
}

/// A round in flight: its timestamp and the ids probed, in dispatch order.
pub struct Round {
    pub timestamp: u32,
    pub dispatched: Vec<AddrId>,
}

/// Where the worker stands in its cycle.
pub enum WorkerState {
    /// Between rounds: the next round is launched when it is due.
    FanOut,
    /// The probes are out and have the interval to come back.
    AwaitInterval(Round),
    /// The interval is over and the reports are being received.
    FanIn(Round),
    /// The assembled round is being handed on.
    Emit,
}

/// What the driving program tells the worker.
pub enum WorkerEvent {
    /// A round is due; the wall clock reads `now` seconds.
    RoundDue { now: i64 },
    /// The interval has been slept out.
    IntervalElapsed,
    /// The reports of the probes in dispatch order: the bit pattern of
    /// the measured value, or `None` where a probe never reported.
    Results(Vec<Option<u32>>),
    /// The round was handed on, or could not be.
    Forwarded(bool),
}

/// What the worker asks the driving program to do.
pub enum WorkerAction {
    /// Launch one probe for each target, then sleep `interval` milliseconds.
    Launch { interval: u64, targets: Vec<Target> },
    /// Receive the report of each of the `count` probes.
    Collect { count: usize },
    /// Hand the round on.
    Forward(TimePackage),
    /// Say that a round was lost, and go on.
    ReportLost,
    /// Go on with the next round.
    Proceed,
    /// The event does not belong to the present state: do nothing.
    Ignore,
}

/// Whether `target` is the probe for address `id` under the index `index`.
pub open spec fn resolves(target: Target, id: AddrId, index: Seq<Seq<char>>) -> bool {
    &&& target.addr_i == id
    &&& match target.addr {
        Some(addr) => id < index.len() && addr@ == index[id as int],
        None => id >= index.len(),
    }
}

/// Whether `targets` are the probes for `ids`, one for each and in
/// their order.
pub open spec fn targets_of(targets: Seq<Target>, ids: Seq<AddrId>, index: Seq<Seq<char>>) -> bool {
    &&& targets.len() == ids.len()
    &&& forall|i: int| 0 <= i < ids.len() ==> resolves(#[trigger] targets[i], ids[i], index)
}

/// The value recorded for the `i`-th probe: what it reported, or the
/// sentinel where it reported nothing.
pub open spec fn reading(results: Seq<Option<u32>>, i: int) -> u32 {
    if 0 <= i < results.len() && results[i] is Some {
        results[i]->0
    } else {
        NAN_BITS
    }
}

/// The record of the `i`-th probe of a round.
pub open spec fn record_of(timestamp: u32, ids: Seq<AddrId>, results: Seq<Option<u32>>, i: int)
    -> DiscreteDataOnDisk {
    DiscreteDataOnDisk { time: timestamp, index: ids[i], val: reading(results, i) }
}

/// The round made of the first `n` probes: their records inserted in
/// dispatch order.
pub open spec fn assembled(timestamp: u32, ids: Seq<AddrId>, results: Seq<Option<u32>>, n: int)
    -> Seq<DiscreteDataOnDisk>
    decreases n,
{
    if n <= 0 {
        Seq::empty()
    } else {
        inserted(
            assembled(timestamp, ids, results, n - 1),
            record_of(timestamp, ids, results, n - 1),
        )
    }
}

/// What the worker does on `event` in `state` under the configuration
/// that `manager` holds: `next` is its new state and `action` its request.
pub open spec fn steps_to(
    state: WorkerState,
    event: WorkerEvent,
    manager: ManagerView,
    next: WorkerState,
    action: WorkerAction,
) -> bool {
    match (state, event) {
        (WorkerState::FanOut, WorkerEvent::RoundDue { now }) => {
            &&& next matches WorkerState::AwaitInterval(round)
            &&& round.timestamp == stamp(now)
            &&& round.dispatched@ == manager.options.addrs
            &&& action matches WorkerAction::Launch { interval, targets }
            &&& interval == manager.options.interval
            &&& targets_of(targets@, manager.options.addrs, manager.index)
        },
        (WorkerState::AwaitInterval(round), WorkerEvent::IntervalElapsed) => {
            &&& next == WorkerState::FanIn(round)
            &&& action == (WorkerAction::Collect { count: round.dispatched.len() })
        },
        (WorkerState::FanIn(round), WorkerEvent::Results(results)) => {
            &&& next == WorkerState::Emit
            &&& action matches WorkerAction::Forward(package)
            &&& package@ == assembled(
                round.timestamp,
                round.dispatched@,
                results@,
                round.dispatched@.len() as int,
            )
        },
        (WorkerState::Emit, WorkerEvent::Forwarded(sent)) => {
            &&& next == WorkerState::FanOut
            &&& action == if sent {
                WorkerAction::Proceed
            } else {
                WorkerAction::ReportLost
            }
        },
        _ => next == state && action == WorkerAction::Ignore,
    }
}

/// The probes for the addresses that the options of `manager` list.
pub fn resolve_targets(manager: &Manager) -> (targets: Vec<Target>)
    ensures
        targets_of(targets@, manager@.options.addrs, manager@.index),
{
    let options = manager.options_read();
    let index = manager.index_read();
    let n = options.addrs.len();
    let mut targets: Vec<Target> = Vec::new();
    let mut i: usize = 0;
    while i < n
        invariant
            i <= n,
            n == options.addrs@.len(),
            options@ == manager@.options,
            index@ == manager@.index,
            targets@.len() == i,
            forall|j: int|
                0 <= j < i ==> resolves(#[trigger] targets@[j], options.addrs@[j], index@),
        decreases n - i,
    {
        let addr_i = options.addrs[i];
        let addr = match index.get_addr(addr_i) {
            Some(a) => Some(a.clone()),
            None => None,
        };
        targets.push(Target { addr_i, addr });
        i += 1;
    }
    targets
}

/// Makes the round of the probes dispatched in `round` from what they
/// reported: one raw record for each address, the first dispatched where
/// an address was listed twice, all with the round's timestamp.
pub fn assemble(round: &Round, results: &Vec<Option<u32>>) -> (package: TimePackage)
    ensures
        package@ == assembled(
            round.timestamp,
            round.dispatched@,
            results@,
            round.dispatched@.len() as int,
        ),
{
    let n = round.dispatched.len();
    let mut package = TimePackage::new();
    let mut i: usize = 0;
    while i < n
        invariant
            i <= n,
            n == round.dispatched@.len(),
            package@ == assembled(round.timestamp, round.dispatched@, results@, i as int),
        decreases n - i,
    {
        let val = if i < results.len() {
            match results[i] {
                Some(bits) => bits,
                None => NAN_BITS,
            }
        } else {
            NAN_BITS
        };
        package.insert(DiscreteDataOnDisk::new(round.timestamp, round.dispatched[i], val));
        i += 1;
    }
    package
}

impl WorkerState {
    /// The state a worker starts in.
    pub fn new() -> (state: WorkerState)
        ensures
            state == WorkerState::FanOut,
    {
        WorkerState::FanOut
    }

    /// Takes `event` in and says what to do. An event that the present
    /// state does not wait for changes nothing.
    pub fn step(self, event: WorkerEvent, manager: &Manager) -> (r: (WorkerState, WorkerAction))
        ensures
            steps_to(self, event, manager@, r.0, r.1),
    {
        match self {
            WorkerState::FanOut => match event {
                WorkerEvent::RoundDue { now } => {
                    let options = manager.options_read();
                    let round = Round {
                        timestamp: timestamp_of(now),
                        dispatched: options.duplicate().addrs,
                    };
                    let action = WorkerAction::Launch {
                        interval: options.interval as u64,
                        targets: resolve_targets(manager),
                    };
                    (WorkerState::AwaitInterval(round), action)
                },
                _ => (WorkerState::FanOut, WorkerAction::Ignore),
            },
            WorkerState::AwaitInterval(round) => match event {
                WorkerEvent::IntervalElapsed => {
                    let count = round.dispatched.len();
                    (WorkerState::FanIn(round), WorkerAction::Collect { count })
                },
                _ => (WorkerState::AwaitInterval(round), WorkerAction::Ignore),
            },
            WorkerState::FanIn(round) => match event {
                WorkerEvent::Results(results) => {
                    let package = assemble(&round, &results);
                    (WorkerState::Emit, WorkerAction::Forward(package))
                },
                _ => (WorkerState::FanIn(round), WorkerAction::Ignore),
            },
            WorkerState::Emit => match event {
                WorkerEvent::Forwarded(sent) => {
                    if sent {
                        (WorkerState::FanOut, WorkerAction::Proceed)
                    } else {
                        (WorkerState::FanOut, WorkerAction::ReportLost)
                    }
                },
                _ => (WorkerState::Emit, WorkerAction::Ignore),
            },
        }
    }
}

/// Whether `id` is among the first `n` ids dispatched.
pub open spec fn dispatched_in(ids: Seq<AddrId>, n: int, id: AddrId) -> bool {
    exists|j: int| 0 <= j < n && j < ids.len() && #[trigger] ids[j] == id
}

/// An assembled round is in ascending id order, carries the round's
/// timestamp in every record, and so can always be sent. It has no more
/// records than probes were dispatched.
pub proof fn lemma_assembled_round(
    timestamp: u32,
    ids: Seq<AddrId>,
    results: Seq<Option<u32>>,
    n: int,
)
    requires
        0 <= n <= ids.len(),
    ensures
        ascending(assembled(timestamp, ids, results, n)),
        same_time(assembled(timestamp, ids, results, n)),
        forall|k: int|
            0 <= k < assembled(timestamp, ids, results, n).len() ==> (#[trigger] assembled(
                timestamp,
                ids,
                results,
                n,
            )[k]).time == timestamp,
        assembled(timestamp, ids, results, n).len() <= n,
    decreases n,
{
    if n > 0 {
        let before = assembled(timestamp, ids, results, n - 1);
        let x = record_of(timestamp, ids, results, n - 1);
        let after = assembled(timestamp, ids, results, n);
        lemma_assembled_round(timestamp, ids, results, n - 1);
        lemma_inserted_ascending(before, x);
        lemma_inserted_members(before, x, x);
        assert forall|k: int| 0 <= k < after.len() implies (#[trigger] after[k]).time
            == timestamp by {
            lemma_inserted_members(before, x, after[k]);
            if before.contains(after[k]) {
                let i = choose|i: int| 0 <= i < before.len() && before[i] == after[k];
                assert(before[i].time == timestamp);
            }
        }
    }
}

/// An assembled round has a record for an address exactly when a probe
/// was dispatched for it.
pub proof fn lemma_assembled_ids(
    timestamp: u32,
    ids: Seq<AddrId>,
    results: Seq<Option<u32>>,
    n: int,
    id: AddrId,
)
    requires
        0 <= n <= ids.len(),
    ensures
        has_index(assembled(timestamp, ids, results, n), id) <==> dispatched_in(ids, n, id),
    decreases n,
{
    if n > 0 {
        let before = assembled(timestamp, ids, results, n - 1);
        let x = record_of(timestamp, ids, results, n - 1);
        lemma_assembled_round(timestamp, ids, results, n - 1);
        lemma_assembled_ids(timestamp, ids, results, n - 1, id);
        lemma_inserted_ids(before, x, id);
        if dispatched_in(ids, n, id) {
            let j = choose|j: int| 0 <= j < n && j < ids.len() && #[trigger] ids[j] == id;
            if j < n - 1 {
                assert(dispatched_in(ids, n - 1, id));
            }
        }
        if dispatched_in(ids, n - 1, id) || id == x.index {
            if id == x.index {
                assert(ids[n - 1] == id);
            } else {
                let j = choose|j: int| 0 <= j < n - 1 && j < ids.len() && #[trigger] ids[j] == id;
                assert(ids[j] == id);
            }
            assert(dispatched_in(ids, n, id));
        }
    } else {
        assert(!has_index(assembled(timestamp, ids, results, n), id));
    }
}

/// Where an address is listed more than once, the round keeps the record
/// of its first probe.
pub proof fn lemma_first_dispatch_kept(
    timestamp: u32,
    ids: Seq<AddrId>,
    results: Seq<Option<u32>>,
    n: int,
    j: int,
)
    requires
        0 <= j < n <= ids.len(),
        forall|k: int| 0 <= k < j ==> ids[k] != ids[j],
    ensures
        assembled(timestamp, ids, results, n).contains(record_of(timestamp, ids, results, j)),
    decreases n,
{
    let before = assembled(timestamp, ids, results, n - 1);
    let x = record_of(timestamp, ids, results, n - 1);
    let kept = record_of(timestamp, ids, results, j);
    lemma_assembled_round(timestamp, ids, results, n - 1);
    lemma_inserted_members(before, x, kept);
    if j == n - 1 {
        lemma_assembled_ids(timestamp, ids, results, n - 1, ids[j]);
        if dispatched_in(ids, n - 1, ids[j]) {
            let k = choose|k: int| 0 <= k < n - 1 && k < ids.len() && #[trigger] ids[k] == ids[j];
            assert(false);
        }
    } else {
        lemma_first_dispatch_kept(timestamp, ids, results, n - 1, j);
    }
}

/// Where no address is listed twice, the round has exactly one record
/// for each probe dispatched.
pub proof fn lemma_one_record_each(
    timestamp: u32,
    ids: Seq<AddrId>,
    results: Seq<Option<u32>>,
    n: int,
)
    requires
        0 <= n <= ids.len(),
        forall|i: int, j: int| 0 <= i < j < n ==> ids[i] != ids[j],
    ensures
        assembled(timestamp, ids, results, n).len() == n,
    decreases n,
{
    if n > 0 {
        let before = assembled(timestamp, ids, results, n - 1);
        let x = record_of(timestamp, ids, results, n - 1);
        lemma_one_record_each(timestamp, ids, results, n - 1);
        lemma_assembled_round(timestamp, ids, results, n - 1);
        lemma_assembled_ids(timestamp, ids, results, n - 1, x.index);
        if dispatched_in(ids, n - 1, x.index) {
            let k = choose|k: int| 0 <= k < n - 1 && k < ids.len() && #[trigger] ids[k] == x.index;
            assert(ids[k] != ids[n - 1]);
        }
        lemma_inserted_members(before, x, x);
    }
}

} // verus!
