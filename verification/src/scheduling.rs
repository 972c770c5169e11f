//! Scheduling of pair arrivals, pair timeouts and dark counts.
use vstd::prelude::*;

use crate::basis::{drawn_below, lemma_drawn, random_below, Side};
use crate::error::{Error, SimError};
use crate::event::{
    DarkCountPayload, Event, EventName, EventPayload, EventTime, PairTimeoutPayload,
    ReceivePairPayload,
};
use crate::event_loop::EventLoopHandler;
use crate::node::{Detector, Link};
use crate::pair::NewEntangledPair;
use crate::pair::FULL_FIDELITY_BITS;
use crate::settings::SECONDS_TO_MILISECONDS;
use crate::state::PairKey;

verus! {

/// When a qubit sent over `link` at `current_time` arrives: one propagation delay per
/// qubit number.
pub open spec fn arrival_time(current_time: i64, link: Link, key: PairKey) -> int {
    current_time + link.delay_us * key.qubit_nr
}

/// The event of a qubit of the pair reaching the node.
pub open spec fn arrival_event(node_id: i32, side: Side, link: Link, key: PairKey, ts: i64) -> Event {
    Event {
        name: EventName::ReceivePair,
        payload: EventPayload::ReceivePair(
            ReceivePairPayload {
                node_id,
                side,
                qubit_nr: key.qubit_nr,
                process_id: key.process_id,
                link_id: link.id,
            },
        ),
        timestamp: EventTime::At(ts),
    }
}

/// When a pair times out: the later of the two arrivals plus the longer delay.
pub open spec fn timeout_time(src_link: Link, dst_link: Link, higher_timestamp: i64) -> int {
    higher_timestamp + if src_link.delay_us >= dst_link.delay_us {
        src_link.delay_us
    } else {
        dst_link.delay_us
    }
}

/// The timeout event of a pair.
pub open spec fn timeout_event(src_link: Link, dst_link: Link, key: PairKey, ts: i64) -> Event {
    Event {
        name: EventName::PairTimeout,
        payload: EventPayload::PairTimeout(
            PairTimeoutPayload { pair_key: key, src_link: src_link.id, dst_link: dst_link.id },
        ),
        timestamp: EventTime::At(ts),
    }
}

/// The dark count event of a detector.
pub open spec fn dark_count_event(detector_id: i32, ts: i64) -> Event {
    Event {
        name: EventName::DarkCount,
        payload: EventPayload::DarkCount(DarkCountPayload { detector_id }),
        timestamp: EventTime::At(ts),
    }
}

/// The freshly emitted pair of a process and qubit.
pub open spec fn fresh_pair(src_id: i32, dst_id: i32, key: PairKey, current_time: i64) -> NewEntangledPair {
    NewEntangledPair {
        src_id,
        dst_id,
        fidelity_bits: FULL_FIDELITY_BITS,
        created_at: current_time,
        src_measurement: None,
        dst_measurement: None,
        timeout_timestamp: 0,
        process_id: key.process_id,
        qubit_nr: key.qubit_nr,
        accepted: false,
    }
}

/// The later of the two arrivals of a pair.
pub open spec fn later_arrival(current_time: i64, src_link: Link, dst_link: Link, key: PairKey) -> int {
    let a = arrival_time(current_time, src_link, key);
    let b = arrival_time(current_time, dst_link, key);
    if a >= b {
        a
    } else {
        b
    }
}

/// The three events of an emitted pair: its arrival at the source node, its arrival at
/// the destination node, and its timeout after the later arrival.
pub open spec fn pair_events(
    src_node_id: i32,
    dst_node_id: i32,
    src_link: Link,
    dst_link: Link,
    key: PairKey,
    current_time: i64,
) -> Seq<Event> {
    seq![
        arrival_event(src_node_id, Side::Source, src_link, key, arrival_time(current_time, src_link, key) as i64),
        arrival_event(dst_node_id, Side::Destination, dst_link, key, arrival_time(current_time, dst_link, key) as i64),
        timeout_event(
            src_link,
            dst_link,
            key,
            timeout_time(src_link, dst_link, later_arrival(current_time, src_link, dst_link, key) as i64) as i64,
        ),
    ]
}

/// The events were handed to the channel in order until one failed with `e`: the ones
/// before it and the failing one were submitted, none after.
pub open spec fn sent_until_failure(before: Seq<Event>, after: Seq<Event>, evs: Seq<Event>, e: Error) -> bool {
    exists|k: int|
        0 <= k < evs.len() && after == before + evs.take(k + 1) && #[trigger] send_failed(e, evs[k])
}

/// The dark count events of a detector: one at each accumulated offset after `start`.
pub open spec fn dark_count_events(detector_id: i32, start: i64, offsets: Seq<i64>) -> Seq<Event> {
    Seq::new(
        offsets.len(),
        |k: int| dark_count_event(detector_id, accumulated(start as int, offsets, k + 1) as i64),
    )
}

/// The error of a failed send of `event`.
pub open spec fn send_failed(r_err: Error, event: Event) -> bool {
    r_err matches Error::Sim(SimError::ChannelSendError { source }) && source == event
}

/// The prefix sums of dark count offsets, starting from `start`.
pub open spec fn accumulated(start: int, offsets: Seq<i64>, k: int) -> int
    decreases k,
{
    if k <= 0 {
        start
    } else {
        accumulated(start, offsets, k - 1) + offsets[k - 1]
    }
}

pub open spec fn offsets_in_range(offsets: Seq<i64>) -> bool {
    forall|i: int| 0 <= i < offsets.len() ==> 0 <= #[trigger] offsets[i] < SECONDS_TO_MILISECONDS
}

/// `x` can be held in an `i64`.
pub open spec fn fits_i64(x: int) -> bool {
    i64::MIN <= x <= i64::MAX
}

/// The arrival of a qubit sent over `link` can be computed in `i64`: the delay times the
/// qubit number, and that added to the current time.
pub open spec fn arrival_fits(current_time: i64, link: Link, key: PairKey) -> bool {
    fits_i64(link.delay_us * key.qubit_nr) && fits_i64(arrival_time(current_time, link, key))
}

/// Every time of an emitted pair can be computed in `i64`: both arrivals and the timeout.
pub open spec fn pair_times_fit(current_time: i64, src_link: Link, dst_link: Link, key: PairKey) -> bool {
    &&& arrival_fits(current_time, src_link, key)
    &&& arrival_fits(current_time, dst_link, key)
    &&& fits_i64(timeout_time(src_link, dst_link, later_arrival(current_time, src_link, dst_link, key) as i64))
}

/// The latest dark count of the offsets falls within `i64`.
pub open spec fn dark_counts_fit(start: i64, offsets: Seq<i64>) -> bool {
    accumulated(start as int, offsets, offsets.len() as int) <= i64::MAX
}

/// Whether every time of an emitted pair can be computed in `i64`.
pub fn pair_times_fit_at(current_time: i64, src_link: &Link, dst_link: &Link, key: &PairKey) -> (r: bool)
    ensures
        r == pair_times_fit(current_time, *src_link, *dst_link, *key),
{
    let q = key.qubit_nr as i128;
    let ds = src_link.delay_us as i128;
    let dd = dst_link.delay_us as i128;
    proof {
        assert(-0x4000_0000_0000_0000_0000_0000 <= ds * q <= 0x4000_0000_0000_0000_0000_0000) by (nonlinear_arith)
            requires
                -0x8000_0000_0000_0000 <= ds <= 0x7fff_ffff_ffff_ffff,
                -0x8000_0000 <= q <= 0x7fff_ffff;
        assert(-0x4000_0000_0000_0000_0000_0000 <= dd * q <= 0x4000_0000_0000_0000_0000_0000) by (nonlinear_arith)
            requires
                -0x8000_0000_0000_0000 <= dd <= 0x7fff_ffff_ffff_ffff,
                -0x8000_0000 <= q <= 0x7fff_ffff;
    }
    let ps = ds * q;
    let pd = dd * q;
    let a = current_time as i128 + ps;
    let b = current_time as i128 + pd;
    let lo = i64::MIN as i128;
    let hi = i64::MAX as i128;
    if !(lo <= ps && ps <= hi && lo <= a && a <= hi && lo <= pd && pd <= hi && lo <= b && b <= hi) {
        return false;
    }
    let later = if a >= b {
        a
    } else {
        b
    };
    let longer = if ds >= dd {
        ds
    } else {
        dd
    };
    let t = later + longer;
    lo <= t && t <= hi
}

/// Dark count offsets are never negative, so their accumulated times only grow.
proof fn lemma_accumulated_grows(start: int, offsets: Seq<i64>, j: int, k: int)
    requires
        offsets_in_range(offsets),
        0 <= j <= k <= offsets.len(),
    ensures
        start <= accumulated(start, offsets, j) <= accumulated(start, offsets, k),
    decreases k,
{
    if j < k {
        lemma_accumulated_grows(start, offsets, j, k - 1);
    } else if k > 0 {
        lemma_accumulated_grows(start, offsets, k - 1, k - 1);
    }
}

/// Accumulating from `start` is accumulating from zero, shifted by `start`.
proof fn lemma_accumulated_shift(start: int, offsets: Seq<i64>, k: int)
    ensures
        accumulated(start, offsets, k) == start + accumulated(0, offsets, k),
    decreases k,
{
    if k > 0 {
        lemma_accumulated_shift(start, offsets, k - 1);
    }
}

/// Sends an event through the handle, reporting a failure as a simulation error.
fn send(handle: &mut EventLoopHandler, event: Event) -> (r: Result<(), Error>)
    ensures
        final(handle).channel() == old(handle).channel(),
        final(handle).sent() == old(handle).sent().push(event),
        r matches Err(e) ==> send_failed(e, event),
{
    match handle.push_event(event) {
        Ok(()) => Ok(()),
        Err(e) => Err(Error::Sim(e)),
    }
}

/// Schedules the arrival of one qubit of the pair at a node and returns its timestamp.
pub fn schedule_pair_event(
    node_id: i32,
    side: Side,
    epr_link: &Link,
    pair_key: &PairKey,
    current_time: i64,
    handle: &mut EventLoopHandler,
) -> (r: Result<i64, Error>)
    requires
        arrival_fits(current_time, *epr_link, *pair_key),
    ensures
        ({
            let ev = arrival_event(
                node_id,
                side,
                *epr_link,
                *pair_key,
                arrival_time(current_time, *epr_link, *pair_key) as i64,
            );
            &&& final(handle).channel() == old(handle).channel()
            &&& final(handle).sent() == old(handle).sent().push(ev)
            &&& match r {
                Ok(ts) => ts == arrival_time(current_time, *epr_link, *pair_key),
                Err(e) => send_failed(e, ev),
            }
        }),
{
    let timestamp = current_time + epr_link.propagation_delay_us() * pair_key.qubit_nr as i64;
    let event = Event::new_at(
        EventName::ReceivePair,
        EventPayload::ReceivePair(
            ReceivePairPayload {
                node_id,
                side,
                qubit_nr: pair_key.qubit_nr,
                process_id: pair_key.process_id,
                link_id: epr_link.id,
            },
        ),
        timestamp,
    );
    match send(handle, event) {
        Ok(()) => Ok(timestamp),
        Err(e) => Err(e),
    }
}

/// Schedules the timeout of a pair after the later of its two arrivals.
pub fn schedule_pair_timeout(
    src_epr_link: &Link,
    dst_epr_link: &Link,
    pair_key: PairKey,
    higher_timestamp: i64,
    handle: &mut EventLoopHandler,
) -> (r: Result<(), Error>)
    requires
        fits_i64(timeout_time(*src_epr_link, *dst_epr_link, higher_timestamp)),
    ensures
        ({
            let ev = timeout_event(
                *src_epr_link,
                *dst_epr_link,
                pair_key,
                timeout_time(*src_epr_link, *dst_epr_link, higher_timestamp) as i64,
            );
            &&& final(handle).channel() == old(handle).channel()
            &&& final(handle).sent() == old(handle).sent().push(ev)
            &&& r matches Err(e) ==> send_failed(e, ev)
        }),
{
    let a = src_epr_link.propagation_delay_us();
    let b = dst_epr_link.propagation_delay_us();
    let longer = if a >= b {
        a
    } else {
        b
    };
    let timeout_timestamp = higher_timestamp + longer;
    let event = Event::new_at(
        EventName::PairTimeout,
        EventPayload::PairTimeout(
            PairTimeoutPayload { pair_key, src_link: src_epr_link.id, dst_link: dst_epr_link.id },
        ),
        timeout_timestamp,
    );
    send(handle, event)
}

/// Creates one entangled pair and schedules its two arrivals and its timeout.
pub fn emit_pair(
    src_node_id: i32,
    dst_node_id: i32,
    src_epr_link: Link,
    dst_epr_link: Link,
    pair_key: PairKey,
    current_time: i64,
    handle: &mut EventLoopHandler,
) -> (r: Result<NewEntangledPair, Error>)
    requires
        pair_times_fit(current_time, src_epr_link, dst_epr_link, pair_key),
    ensures
        ({
            let evs = pair_events(src_node_id, dst_node_id, src_epr_link, dst_epr_link, pair_key, current_time);
            &&& final(handle).channel() == old(handle).channel()
            &&& match r {
                Ok(p) => p == fresh_pair(src_node_id, dst_node_id, pair_key, current_time)
                    && final(handle).sent() == old(handle).sent() + evs,
                Err(e) => sent_until_failure(old(handle).sent(), final(handle).sent(), evs, e),
            }
        }),
{
    let entangled_pair = match NewEntangledPair::new(
        src_node_id,
        dst_node_id,
        pair_key.process_id,
        pair_key.qubit_nr,
        false,
        current_time,
    ) {
        Ok(p) => p,
        Err(e) => {
            return Err(Error::Pair(e));
        },
    };
    let ghost evs = pair_events(src_node_id, dst_node_id, src_epr_link, dst_epr_link, pair_key, current_time);
    let ghost before = handle.sent();
    let src_ts = match schedule_pair_event(src_node_id, Side::Source, &src_epr_link, &pair_key, current_time, handle) {
        Ok(ts) => ts,
        Err(e) => {
            proof {
                assert(handle.sent() =~= before + evs.take(1));
            }
            return Err(e);
        },
    };
    let dst_ts = match schedule_pair_event(
        dst_node_id,
        Side::Destination,
        &dst_epr_link,
        &pair_key,
        current_time,
        handle,
    ) {
        Ok(ts) => ts,
        Err(e) => {
            proof {
                assert(handle.sent() =~= before + evs.take(2));
            }
            return Err(e);
        },
    };
    let later = if src_ts >= dst_ts {
        src_ts
    } else {
        dst_ts
    };
    match schedule_pair_timeout(&src_epr_link, &dst_epr_link, pair_key, later, handle) {
        Ok(()) => {},
        Err(e) => {
            proof {
                assert(handle.sent() =~= before + evs.take(3));
            }
            return Err(e);
        },
    }
    proof {
        assert(handle.sent() =~= before + evs);
    }
    Ok(entangled_pair)
}

/// Each offset is the value of its own draw from `random_below(0, SECONDS_TO_MILISECONDS)`.
pub open spec fn offsets_are_draws(o: Seq<i64>) -> bool {
    forall|i: int| 0 <= i < o.len() ==> #[trigger] drawn_below(0, SECONDS_TO_MILISECONDS as usize, o[i] as usize)
}

/// `o` could be the dark count offsets of a detector: as many as `dark_counts` may
/// answer, each drawn within one second.
pub open spec fn offsets_drawn<G: Fn() -> usize>(dark_counts: &G, o: Seq<i64>) -> bool {
    exists|n: usize| #[trigger] dark_counts.ensures((), n) && o.len() == n && offsets_in_range(o)
        && offsets_are_draws(o)
}

/// Draws the offsets, in milliseconds within one second, of the dark counts of a
/// detector: `dark_counts` tells how many occur in one second, and each offset is drawn
/// uniformly.
pub fn calculate_dark_count_time<G: Fn() -> usize>(dark_counts: &G) -> (r: Vec<i64>)
    requires
        dark_counts.requires(()),
    ensures
        offsets_drawn(dark_counts, r@),
{
    let n_dark: usize = dark_counts();
    let mut timestamps: Vec<i64> = Vec::new();
    let mut i: usize = 0;
    while i < n_dark
        invariant
            i <= n_dark,
            timestamps@.len() == i,
            offsets_in_range(timestamps@),
            offsets_are_draws(timestamps@),
        decreases n_dark - i,
    {
        let t = random_below(0, 1000);
        proof {
            lemma_drawn(0, 1000, t);
        }
        let ghost before = timestamps@;
        timestamps.push(t as i64);
        proof {
            assert forall|j: int| 0 <= j < timestamps@.len() implies #[trigger] drawn_below(
                0,
                SECONDS_TO_MILISECONDS as usize,
                timestamps@[j] as usize,
            ) by {
                if j < before.len() {
                    assert(timestamps@[j] == before[j]);
                }
            }
        }
        i = i + 1;
    }
    proof {
        assert(dark_counts.ensures((), n_dark));
    }
    timestamps
}

/// Schedules a dark count of the detector at each accumulated offset after `current_time`.
fn schedule_offsets(
    detector: &Detector,
    current_time: i64,
    offsets: &Vec<i64>,
    handle: &mut EventLoopHandler,
) -> (r: Result<(), Error>)
    requires
        offsets_in_range(offsets@),
        dark_counts_fit(current_time, offsets@),
    ensures
        ({
            let evs = dark_count_events(detector.id, current_time, offsets@);
            &&& final(handle).channel() == old(handle).channel()
            &&& match r {
                Ok(()) => final(handle).sent() == old(handle).sent() + evs,
                Err(e) => sent_until_failure(old(handle).sent(), final(handle).sent(), evs, e),
            }
        }),
{
    let ghost evs = dark_count_events(detector.id, current_time, offsets@);
    let ghost before = handle.sent();
    let mut time_accumulator = current_time;
    let mut i: usize = 0;
    while i < offsets.len()
        invariant
            i <= offsets@.len(),
            evs == dark_count_events(detector.id, current_time, offsets@),
            handle.channel() == old(handle).channel(),
            before == old(handle).sent(),
            handle.sent() == before + evs.take(i as int),
            offsets_in_range(offsets@),
            dark_counts_fit(current_time, offsets@),
            time_accumulator == accumulated(current_time as int, offsets@, i as int),
        decreases offsets@.len() - i,
    {
        proof {
            lemma_accumulated_grows(current_time as int, offsets@, i + 1, offsets@.len() as int);
        }
        time_accumulator = time_accumulator + offsets[i];
        let event = Event::new_at(
            EventName::DarkCount,
            EventPayload::DarkCount(DarkCountPayload { detector_id: detector.id }),
            time_accumulator,
        );
        match send(handle, event) {
            Ok(()) => {},
            Err(e) => {
                proof {
                    assert(evs[i as int] == event);
                    assert(handle.sent() =~= before + evs.take(i + 1));
                }
                return Err(e);
            },
        }
        proof {
            assert(evs[i as int] == event);
            assert(handle.sent() =~= before + evs.take(i + 1));
        }
        i = i + 1;
    }
    proof {
        assert(evs.take(i as int) =~= evs);
    }
    Ok(())
}

/// Schedules the dark counts of a detector for one second after `current_time`: their
/// number comes from `dark_counts`, their offsets are drawn, and each event runs at the sum
/// of the offsets so far.
pub fn schedule_dark_counts<G: Fn() -> usize>(
    detector: &Detector,
    current_time: i64,
    handle: &mut EventLoopHandler,
    dark_counts: &G,
) -> (r: Result<(), Error>)
    requires
        dark_counts.requires(()),
    ensures
        final(handle).channel() == old(handle).channel(),
        exists|o: Seq<i64>|
            #[trigger] offsets_drawn(dark_counts, o) && dark_counts_sent(
                detector.id,
                current_time,
                o,
                old(handle).sent(),
                final(handle).sent(),
                r,
            ),
{
    let offsets = calculate_dark_count_time(dark_counts);
    proof {
        assert(offsets_in_range(offsets@)) by {
            let n = choose|n: usize| #[trigger] dark_counts.ensures((), n) && offsets@.len() == n && offsets_in_range(offsets@);
        }
    }
    let mut total: i128 = 0;
    let mut i: usize = 0;
    while i < offsets.len()
        invariant
            i <= offsets@.len(),
            offsets_in_range(offsets@),
            total == accumulated(0, offsets@, i as int),
            0 <= total <= i * 1000,
        decreases offsets@.len() - i,
    {
        proof {
            assert(i * 1000 <= 0x1_0000_0000_0000_0000 * 1000) by (nonlinear_arith)
                requires
                    i <= 0x1_0000_0000_0000_0000;
        }
        total = total + offsets[i] as i128;
        i = i + 1;
    }
    proof {
        lemma_accumulated_shift(current_time as int, offsets@, offsets@.len() as int);
        assert(offsets_drawn(dark_counts, offsets@));
    }
    if (current_time as i128) + total > (i64::MAX as i128) {
        return Err(Error::Sim(SimError::NotValidInput("dark count times out of range".to_owned())));
    }
    schedule_offsets(detector, current_time, &offsets, handle)
}

/// What scheduling the dark counts at offsets `o` after `start` submits: nothing, with an
/// error, when the latest of them does not fit in `i64`; else their events in order, up to
/// a failed submission.
pub open spec fn dark_counts_sent(
    detector_id: i32,
    start: i64,
    o: Seq<i64>,
    before: Seq<Event>,
    after: Seq<Event>,
    r: Result<(), Error>,
) -> bool {
    let evs = dark_count_events(detector_id, start, o);
    if !dark_counts_fit(start, o) {
        r matches Err(Error::Sim(SimError::NotValidInput(_))) && after == before
    } else {
        match r {
            Ok(()) => after == before + evs,
            Err(e) => sent_until_failure(before, after, evs, e),
        }
    }
}

/// The time of an event scheduled at a given time.
pub open spec fn scheduled_time(e: Event) -> int {
    match e.timestamp {
        EventTime::At(t) => t as int,
        _ => 0,
    }
}

/// Dark counts follow the draws: the first falls its drawn offset after the start, each
/// next one its own drawn offset after the one before, every offset a value of the draw in
/// [0, SECONDS_TO_MILISECONDS), and every event is a dark count of the detector at a fixed time.
pub proof fn law_dark_counts_follow_the_draws<G: Fn() -> usize>(
    dark_counts: &G,
    detector_id: i32,
    start: i64,
    o: Seq<i64>,
)
    requires
        offsets_drawn(dark_counts, o),
        dark_counts_fit(start, o),
    ensures
        ({
            let evs = dark_count_events(detector_id, start, o);
            &&& evs.len() == o.len()
            &&& forall|k: int| #![trigger evs[k]] 0 <= k < evs.len() ==> {
                &&& evs[k].name == EventName::DarkCount
                &&& evs[k].payload == EventPayload::DarkCount(DarkCountPayload { detector_id })
                &&& evs[k].timestamp is At
                &&& drawn_below(0, SECONDS_TO_MILISECONDS as usize, o[k] as usize)
                &&& 0 <= o[k] < SECONDS_TO_MILISECONDS
                &&& scheduled_time(evs[k]) == (if k == 0 { start as int } else { scheduled_time(evs[k - 1]) }) + o[k]
            }
        }),
{
    let evs = dark_count_events(detector_id, start, o);
    assert forall|k: int| #![trigger evs[k]] 0 <= k < evs.len() implies scheduled_time(evs[k]) == (if k == 0 {
        start as int
    } else {
        scheduled_time(evs[k - 1])
    }) + o[k] by {
        lemma_accumulated_grows(start as int, o, k + 1, o.len() as int);
        if k > 0 {
            lemma_accumulated_grows(start as int, o, k, o.len() as int);
        }
    }
}

} // verus!
