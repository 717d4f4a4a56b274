//! The inference slot queue of a replay: each model execution holds a slot
//! lease from its request until its response. Leases on one slot never
//! overlap (`law_leases_on_a_slot_do_not_overlap`), and a request waits only
//! while every slot is busy (`law_slot_queue`).
use vstd::prelude::*;

use crate::json::{TraceRecord, spec_string_at, spec_u64_at, string_at, strs, u64_at};
use crate::text::{append_str, chars_to_string, clone_string, opt_view, str_eq, str_to_chars};
use crate::trace_events::{EventV, event_view, events_view, or_u64};
use crate::trace_fold::{first_of_type, record_of_type};
use crate::trace_model::{TraceEvent, TraceLease};
use crate::sort::{KeyView, SortKey, key_view, key_views, lemma_sorted_order_perm, stable_order, stable_sort, stably_sorted};

verus! {

/// The values of a lease.
pub struct LeaseV {
    pub id: Seq<char>,
    pub slot: nat,
    pub branch_id: Seq<char>,
    pub request_event_id: Seq<char>,
    pub response_event_id: Option<Seq<char>>,
    pub requested_at: u64,
    pub started_at: u64,
    pub ended_at: u64,
    pub context_tokens: Option<u64>,
    pub context_window: Option<u64>,
    pub context_usage: Option<(u64, u64)>,
    pub model: Option<Seq<char>>,
    pub source: Seq<char>,
}

pub open spec fn lease_view(l: TraceLease) -> LeaseV {
    LeaseV {
        id: l.id@,
        slot: l.slot as nat,
        branch_id: l.branch_id@,
        request_event_id: l.request_event_id@,
        response_event_id: opt_view(l.response_event_id),
        requested_at: l.requested_at,
        started_at: l.started_at,
        ended_at: l.ended_at,
        context_tokens: l.context_tokens,
        context_window: l.context_window,
        context_usage: l.context_usage,
        model: opt_view(l.model),
        source: l.source@,
    }
}

pub open spec fn lease_views(ls: Seq<TraceLease>) -> Seq<LeaseV> {
    ls.map_values(|l: TraceLease| lease_view(l))
}

/// A model execution whose request was recorded.
pub open spec fn is_request(e: EventV) -> bool {
    e.event_type == "model/execution"@ && first_of_type(e.records, "request/header"@) is Some
}

pub open spec fn request_of(e: EventV) -> TraceRecord {
    first_of_type(e.records, "request/header"@)->0
}

pub open spec fn request_time(e: EventV) -> u64 {
    or_u64(spec_u64_at(request_of(e).value, seq!["time"@]), 0)
}

/// The positions of the model executions with a request.
pub open spec fn request_positions(es: Seq<EventV>) -> Seq<int>
    decreases es.len(),
{
    if es.len() == 0 {
        Seq::empty()
    } else if is_request(es.last()) {
        request_positions(es.drop_last()).push(es.len() - 1)
    } else {
        request_positions(es.drop_last())
    }
}

pub open spec fn request_keys(es: Seq<EventV>, ps: Seq<int>) -> Seq<KeyView> {
    ps.map_values(|p: int| (request_time(es[p]), None::<u64>, Seq::<char>::empty()))
}

/// The requests in order of their request time, ties in event order.
pub open spec fn request_order(es: Seq<EventV>) -> Seq<int> {
    stably_sorted(request_positions(es), request_keys(es, request_positions(es)))
}

/// The first slot free at time `t`.
pub open spec fn free_slot(ends: Seq<u64>, t: u64) -> Option<nat>
    decreases ends.len(),
{
    if ends.len() == 0 {
        None
    } else if ends[0] <= t {
        Some(0)
    } else {
        match free_slot(ends.drop_first(), t) {
            Some(k) => Some(k + 1),
            None => None,
        }
    }
}

/// The first slot that frees first.
pub open spec fn earliest_slot(ends: Seq<u64>) -> nat
    decreases ends.len(),
{
    if ends.len() <= 1 {
        0
    } else {
        let k = earliest_slot(ends.drop_last());
        if ends.last() < ends[k as int] {
            (ends.len() - 1) as nat
        } else {
            k
        }
    }
}

pub open spec fn after(t: u64) -> u64 {
    if t < u64::MAX {
        (t + 1) as u64
    } else {
        t
    }
}

pub open spec fn max_u64(a: u64, b: u64) -> u64 {
    if a >= b {
        a
    } else {
        b
    }
}

/// A lease of a request on a slot, given when the slot frees.
pub open spec fn lease_of(e: EventV, slot: nat, slot_end: u64) -> LeaseV {
    let request = request_of(e);
    let response = first_of_type(e.records, "assistant/message"@);
    let requested = or_u64(spec_u64_at(request.value, seq!["time"@]), e.time);
    let started = max_u64(requested, slot_end);
    let observed = match response {
        Some(a) => or_u64(spec_u64_at(a.value, seq!["time"@]), after(started)),
        None => after(started),
    };
    LeaseV {
        id: "lease-"@ + e.id,
        slot: slot + 1,
        branch_id: e.branch_id,
        request_event_id: e.id,
        response_event_id: if response is Some {
            Some(e.id)
        } else {
            None
        },
        requested_at: requested,
        started_at: started,
        ended_at: max_u64(observed, after(started)),
        context_tokens: e.context_tokens,
        context_window: e.context_window,
        context_usage: e.context_usage,
        model: spec_string_at(request.value, seq!["data"@, "header"@, "config"@, "model"@]),
        source: "derived from request/header → assistant/message lifecycle"@,
    }
}

pub open spec fn slot_for(ends: Seq<u64>, e: EventV) -> nat {
    let requested = or_u64(spec_u64_at(request_of(e).value, seq!["time"@]), e.time);
    match free_slot(ends, requested) {
        Some(k) => k,
        None => earliest_slot(ends),
    }
}

/// The slot queue after the requests at `order`, taken in turn.
pub open spec fn lease_scan(es: Seq<EventV>, order: Seq<int>, slots: nat) -> (Seq<u64>, Seq<LeaseV>)
    decreases order.len(),
{
    if order.len() == 0 {
        (Seq::new(slots, |i: int| 0u64), Seq::empty())
    } else {
        let prev = lease_scan(es, order.drop_last(), slots);
        let e = es[order.last()];
        let k = slot_for(prev.0, e);
        let l = lease_of(e, k, prev.0[k as int]);
        (prev.0.update(k as int, l.ended_at), prev.1.push(l))
    }
}

pub open spec fn slot_count(max_slots: usize) -> nat {
    if max_slots >= 1 {
        max_slots as nat
    } else {
        1
    }
}

pub open spec fn spec_leases(es: Seq<EventV>, max_slots: usize) -> Seq<LeaseV> {
    lease_scan(es, request_order(es), slot_count(max_slots)).1
}

proof fn lemma_free_slot(ends: Seq<u64>, t: u64)
    ensures
        match free_slot(ends, t) {
            Some(k) => k < ends.len() && ends[k as int] <= t,
            None => true,
        },
    decreases ends.len(),
{
    if ends.len() > 0 {
        lemma_free_slot(ends.drop_first(), t);
    }
}

proof fn lemma_earliest_slot(ends: Seq<u64>)
    requires
        ends.len() > 0,
    ensures
        earliest_slot(ends) < ends.len(),
    decreases ends.len(),
{
    if ends.len() > 1 {
        lemma_earliest_slot(ends.drop_last());
    }
}

/// The slot queue holds one end per slot, and every lease ends no later
/// than its slot frees, on a slot that exists.
pub open spec fn queue_wf(q: (Seq<u64>, Seq<LeaseV>), slots: nat) -> bool {
    &&& q.0.len() == slots
    &&& forall|i: int|
        0 <= i < q.1.len() ==> 1 <= (#[trigger] q.1[i]).slot <= slots && q.1[i].ended_at
            <= q.0[q.1[i].slot - 1]
    &&& forall|i: int, j: int|
        0 <= i < j < q.1.len() && (#[trigger] q.1[i]).slot == (#[trigger] q.1[j]).slot
            ==> q.1[i].ended_at <= q.1[j].started_at
}

proof fn lemma_lease_scan(es: Seq<EventV>, order: Seq<int>, slots: nat)
    requires
        slots >= 1,
    ensures
        queue_wf(lease_scan(es, order, slots), slots),
        lease_scan(es, order, slots).1.len() == order.len(),
    decreases order.len(),
{
    if order.len() > 0 {
        lemma_lease_scan(es, order.drop_last(), slots);
        let prev = lease_scan(es, order.drop_last(), slots);
        let e = es[order.last()];
        let k = slot_for(prev.0, e);
        let requested = or_u64(spec_u64_at(request_of(e).value, seq!["time"@]), e.time);
        lemma_free_slot(prev.0, requested);
        lemma_earliest_slot(prev.0);
        assert(k < slots);
        let l = lease_of(e, k, prev.0[k as int]);
        let n = lease_scan(es, order, slots);
        assert(n.1 == prev.1.push(l));
        assert(n.1.last() == l);
        assert forall|i: int| 0 <= i < n.1.len() implies 1 <= (#[trigger] n.1[i]).slot <= slots
            && n.1[i].ended_at <= n.0[n.1[i].slot - 1] by {
            if i < prev.1.len() {
                assert(n.1[i] == prev.1[i]);
            }
        }
        assert forall|i: int, j: int|
            0 <= i < j < n.1.len() && (#[trigger] n.1[i]).slot == (#[trigger] n.1[j]).slot
                implies n.1[i].ended_at <= n.1[j].started_at by {
            assert(n.1[i] == prev.1[i]);
            if j < prev.1.len() {
                assert(n.1[j] == prev.1[j]);
            }
        }
    }
}

/// Leases on the same slot never overlap: a later lease starts no earlier
/// than an earlier one on that slot ends. Every lease takes one of the
/// slots, starts no earlier than its request and ends no earlier than it
/// starts.
pub proof fn law_leases_on_a_slot_do_not_overlap(es: Seq<EventV>, max_slots: usize)
    ensures
        forall|i: int, j: int|
            0 <= i < j < spec_leases(es, max_slots).len() && (#[trigger] spec_leases(
                es,
                max_slots,
            )[i]).slot == (#[trigger] spec_leases(es, max_slots)[j]).slot
                ==> spec_leases(es, max_slots)[i].ended_at <= spec_leases(es, max_slots)[j].started_at,
        forall|i: int|
            0 <= i < spec_leases(es, max_slots).len() ==> 1 <= (#[trigger] spec_leases(
                es,
                max_slots,
            )[i]).slot <= slot_count(max_slots) && spec_leases(es, max_slots)[i].requested_at
                <= spec_leases(es, max_slots)[i].started_at && spec_leases(es, max_slots)[i].started_at
                <= spec_leases(es, max_slots)[i].ended_at,
{
    lemma_lease_scan(es, request_order(es), slot_count(max_slots));
    lemma_lease_times(es, request_order(es), slot_count(max_slots));
}

proof fn lemma_lease_times(es: Seq<EventV>, order: Seq<int>, slots: nat)
    ensures
        forall|i: int|
            0 <= i < lease_scan(es, order, slots).1.len() ==> (#[trigger] lease_scan(
                es,
                order,
                slots,
            ).1[i]).requested_at <= lease_scan(es, order, slots).1[i].started_at && lease_scan(
                es,
                order,
                slots,
            ).1[i].started_at <= lease_scan(es, order, slots).1[i].ended_at,
    decreases order.len(),
{
    if order.len() > 0 {
        lemma_lease_times(es, order.drop_last(), slots);
        let prev = lease_scan(es, order.drop_last(), slots);
        let n = lease_scan(es, order, slots);
        assert forall|i: int| 0 <= i < n.1.len() implies (#[trigger] n.1[i]).requested_at
            <= n.1[i].started_at && n.1[i].started_at <= n.1[i].ended_at by {
            if i < prev.1.len() {
                assert(n.1[i] == prev.1[i]);
            }
        }
    }
}

proof fn lemma_request_positions(es: Seq<EventV>)
    ensures
        forall|k: int|
            0 <= k < request_positions(es).len() ==> 0 <= #[trigger] request_positions(es)[k] < es.len()
                && is_request(es[request_positions(es)[k]]),
    decreases es.len(),
{
    if es.len() > 0 {
        let d = es.drop_last();
        lemma_request_positions(d);
        let ps = request_positions(es);
        let pd = request_positions(d);
        assert forall|k: int| 0 <= k < ps.len() implies 0 <= #[trigger] ps[k] < es.len() && is_request(es[ps[k]]) by {
            if k < pd.len() {
                assert(ps[k] == pd[k]);
                assert(es[pd[k]] == d[pd[k]]);
            } else {
                assert(ps[k] == es.len() - 1);
            }
        }
    }
}

proof fn lemma_request_count(es: Seq<EventV>)
    ensures
        request_positions(es).len() == es.filter(|e: EventV| is_request(e)).len(),
    decreases es.len(),
{
    reveal(Seq::filter);
    if es.len() > 0 {
        lemma_request_count(es.drop_last());
    }
}

proof fn lemma_free_slot_none(ends: Seq<u64>, t: u64)
    requires
        free_slot(ends, t) is None,
    ensures
        forall|k: int| 0 <= k < ends.len() ==> #[trigger] ends[k] > t,
    decreases ends.len(),
{
    if ends.len() > 0 {
        lemma_free_slot_none(ends.drop_first(), t);
        assert forall|k: int| 0 <= k < ends.len() implies #[trigger] ends[k] > t by {
            if k > 0 {
                assert(ends[k] == ends.drop_first()[k - 1]);
            }
        }
    }
}

/// Some lease before position `j` holds slot `slot` until after `t`.
pub open spec fn slot_busy(ls: Seq<LeaseV>, j: int, slot: nat, t: u64) -> bool {
    exists|i: int| 0 <= i < j && (#[trigger] ls[i]).slot == slot && ls[i].ended_at > t
}

/// What the queue remembers of each slot: nothing, or when its last lease
/// ends.
pub open spec fn ends_known(q: (Seq<u64>, Seq<LeaseV>)) -> bool {
    forall|k: int|
        0 <= k < q.0.len() ==> #[trigger] q.0[k] == 0 || exists|i: int|
            0 <= i < q.1.len() && (#[trigger] q.1[i]).slot == k + 1 && q.1[i].ended_at == q.0[k]
}

pub open spec fn queued_only_when_busy(ls: Seq<LeaseV>, slots: nat) -> bool {
    forall|j: int|
        0 <= j < ls.len() && (#[trigger] ls[j]).started_at > ls[j].requested_at ==> forall|k: nat|
            1 <= k <= slots ==> #[trigger] slot_busy(ls, j, k, ls[j].requested_at)
}

proof fn lemma_lease_queue(es: Seq<EventV>, order: Seq<int>, slots: nat)
    requires
        slots >= 1,
    ensures
        ends_known(lease_scan(es, order, slots)),
        queued_only_when_busy(lease_scan(es, order, slots).1, slots),
    decreases order.len(),
{
    lemma_lease_scan(es, order, slots);
    if order.len() > 0 {
        lemma_lease_queue(es, order.drop_last(), slots);
        lemma_lease_scan(es, order.drop_last(), slots);
        let prev = lease_scan(es, order.drop_last(), slots);
        let e = es[order.last()];
        let k = slot_for(prev.0, e);
        let requested = or_u64(spec_u64_at(request_of(e).value, seq!["time"@]), e.time);
        lemma_free_slot(prev.0, requested);
        lemma_earliest_slot(prev.0);
        let l = lease_of(e, k, prev.0[k as int]);
        let n = lease_scan(es, order, slots);
        assert(n.1 == prev.1.push(l));
        assert(n.0 == prev.0.update(k as int, l.ended_at));
        let m = prev.1.len() as int;
        assert(n.1[m] == l);
        assert forall|q: int| 0 <= q < n.0.len() implies #[trigger] n.0[q] == 0 || exists|i: int|
            0 <= i < n.1.len() && (#[trigger] n.1[i]).slot == q + 1 && n.1[i].ended_at == n.0[q] by {
            if q == k {
                assert(n.1[m].slot == q + 1 && n.1[m].ended_at == n.0[q]);
            } else {
                assert(n.0[q] == prev.0[q]);
                if prev.0[q] != 0 {
                    let i = choose|i: int| 0 <= i < prev.1.len() && (#[trigger] prev.1[i]).slot == q + 1 && prev.1[i].ended_at == prev.0[q];
                    assert(n.1[i] == prev.1[i]);
                }
            }
        }
        assert forall|j: int|
            0 <= j < n.1.len() && (#[trigger] n.1[j]).started_at > n.1[j].requested_at implies forall|s: nat|
                1 <= s <= slots ==> #[trigger] slot_busy(n.1, j, s, n.1[j].requested_at) by {
            if j < m {
                assert(n.1[j] == prev.1[j]);
                assert forall|s: nat| 1 <= s <= slots implies #[trigger] slot_busy(n.1, j, s, n.1[j].requested_at) by {
                    assert(slot_busy(prev.1, j, s, prev.1[j].requested_at));
                    let i = choose|i: int| 0 <= i < j && (#[trigger] prev.1[i]).slot == s && prev.1[i].ended_at > prev.1[j].requested_at;
                    assert(n.1[i] == prev.1[i]);
                }
            } else {
                assert(j == m);
                assert(l.started_at > l.requested_at);
                assert(l.requested_at == requested);
                assert(free_slot(prev.0, requested) is None) by {
                    match free_slot(prev.0, requested) {
                        Some(f) => {
                            assert(k == f);
                            assert(prev.0[k as int] <= requested);
                        },
                        None => {},
                    }
                }
                lemma_free_slot_none(prev.0, requested);
                assert forall|s: nat| 1 <= s <= slots implies #[trigger] slot_busy(n.1, j, s, n.1[j].requested_at) by {
                    let q = s - 1;
                    assert(prev.0[q] > requested);
                    assert(prev.0[q] != 0);
                    let i = choose|i: int| 0 <= i < prev.1.len() && (#[trigger] prev.1[i]).slot == q + 1 && prev.1[i].ended_at == prev.0[q];
                    assert(n.1[i] == prev.1[i]);
                }
            }
        }
    }
}

proof fn lemma_lease_events(es: Seq<EventV>, order: Seq<int>, slots: nat)
    requires
        slots >= 1,
        forall|t: int| 0 <= t < order.len() ==> 0 <= #[trigger] order[t] < es.len(),
    ensures
        forall|i: int|
            0 <= i < lease_scan(es, order, slots).1.len() ==> (#[trigger] lease_scan(es, order, slots).1[i]).request_event_id
                == es[order[i]].id && (lease_scan(es, order, slots).1[i].response_event_id is Some
                <==> first_of_type(es[order[i]].records, "assistant/message"@) is Some) && (lease_scan(
                es,
                order,
                slots,
            ).1[i].started_at < u64::MAX ==> lease_scan(es, order, slots).1[i].started_at < lease_scan(
                es,
                order,
                slots,
            ).1[i].ended_at),
    decreases order.len(),
{
    if order.len() > 0 {
        let d = order.drop_last();
        assert forall|t: int| 0 <= t < d.len() implies 0 <= #[trigger] d[t] < es.len() by {
            assert(d[t] == order[t]);
        }
        lemma_lease_events(es, d, slots);
        lemma_lease_scan(es, d, slots);
        lemma_lease_scan(es, order, slots);
        let prev = lease_scan(es, d, slots);
        let n = lease_scan(es, order, slots);
        assert forall|i: int| 0 <= i < n.1.len() implies (#[trigger] n.1[i]).request_event_id == es[order[i]].id
            && (n.1[i].response_event_id is Some <==> first_of_type(es[order[i]].records, "assistant/message"@) is Some)
            && (n.1[i].started_at < u64::MAX ==> n.1[i].started_at < n.1[i].ended_at) by {
            if i < prev.1.len() {
                assert(n.1[i] == prev.1[i]);
                assert(order[i] == d[i]);
            } else {
                assert(order[i] == order.last());
            }
        }
    }
}

/// Slot queue law: there is one lease per model execution with a recorded
/// request, in request order, answered exactly when the execution holds an
/// `assistant/message` record; a lease lasts at least one tick when it can;
/// and a request waits only while every slot is held by an earlier lease
/// that has not yet ended.
pub proof fn law_slot_queue(es: Seq<EventV>, max_slots: usize)
    ensures
        spec_leases(es, max_slots).len() == request_positions(es).len(),
        spec_leases(es, max_slots).len() == es.filter(|e: EventV| is_request(e)).len(),
        forall|i: int|
            0 <= i < spec_leases(es, max_slots).len() ==> (#[trigger] spec_leases(es, max_slots)[i]).request_event_id
                == es[request_order(es)[i]].id && is_request(es[request_order(es)[i]]) && (spec_leases(
                es,
                max_slots,
            )[i].response_event_id is Some <==> first_of_type(
                es[request_order(es)[i]].records,
                "assistant/message"@,
            ) is Some) && (spec_leases(es, max_slots)[i].started_at < u64::MAX ==> spec_leases(
                es,
                max_slots,
            )[i].started_at < spec_leases(es, max_slots)[i].ended_at),
        queued_only_when_busy(spec_leases(es, max_slots), slot_count(max_slots)),
{
    let ps = request_positions(es);
    let keys = request_keys(es, ps);
    let o = stable_order(keys);
    let order = request_order(es);
    lemma_request_positions(es);
    lemma_request_count(es);
    lemma_sorted_order_perm(keys, keys.len());
    assert(order.len() == ps.len());
    assert forall|t: int| 0 <= t < order.len() implies 0 <= #[trigger] order[t] < es.len() && is_request(es[order[t]]) by {
        assert(order[t] == ps[o[t]]);
        assert(0 <= o[t] < ps.len());
    }
    lemma_lease_scan(es, order, slot_count(max_slots));
    lemma_lease_events(es, order, slot_count(max_slots));
    lemma_lease_queue(es, order, slot_count(max_slots));
}

/// Every time written in the events, and in the records they hold, is at
/// most `t`.
pub open spec fn times_at_most(es: Seq<EventV>, t: u64) -> bool {
    &&& forall|i: int| 0 <= i < es.len() ==> (#[trigger] es[i]).time <= t
    &&& forall|i: int, j: int|
        0 <= i < es.len() && 0 <= j < es[i].records.len() ==> (spec_u64_at(
            #[trigger] es[i].records[j].value,
            seq!["time"@],
        ) matches Some(x) ==> x <= t)
}

proof fn lemma_first_of_type_member(rs: Seq<TraceRecord>, ty: Seq<char>)
    ensures
        first_of_type(rs, ty) matches Some(r) ==> exists|j: int| 0 <= j < rs.len() && rs[j] == r,
    decreases rs.len(),
{
    if rs.len() > 0 {
        lemma_first_of_type_member(rs.drop_first(), ty);
        match first_of_type(rs.drop_first(), ty) {
            Some(r) => {
                if first_of_type(rs, ty) == Some(r) && rs[0] != r {
                    let j = choose|j: int| 0 <= j < rs.drop_first().len() && rs.drop_first()[j] == r;
                    assert(rs[j + 1] == r);
                }
            },
            None => {},
        }
    }
}

proof fn lemma_record_time(e: EventV, es: Seq<EventV>, i: int, t: u64, ty: Seq<char>)
    requires
        times_at_most(es, t),
        0 <= i < es.len(),
        es[i] == e,
    ensures
        first_of_type(e.records, ty) matches Some(r) ==> (spec_u64_at(r.value, seq!["time"@]) matches Some(x)
            ==> x <= t),
{
    lemma_first_of_type_member(e.records, ty);
    match first_of_type(e.records, ty) {
        Some(r) => {
            let j = choose|j: int| 0 <= j < e.records.len() && e.records[j] == r;
            assert(es[i].records[j] == r);
        },
        None => {},
    }
}

proof fn lemma_lease_bound(es: Seq<EventV>, order: Seq<int>, slots: nat, t: u64)
    requires
        slots >= 1,
        times_at_most(es, t),
        t + order.len() < u64::MAX,
        forall|k: int| 0 <= k < order.len() ==> 0 <= #[trigger] order[k] < es.len() && is_request(es[order[k]]),
    ensures
        forall|k: int| 0 <= k < lease_scan(es, order, slots).0.len() ==> #[trigger] lease_scan(es, order, slots).0[k] <= t + order.len(),
        forall|m: int| 0 <= m < lease_scan(es, order, slots).1.len() ==> (#[trigger] lease_scan(es, order, slots).1[m]).started_at <= t + m,
    decreases order.len(),
{
    lemma_lease_scan(es, order, slots);
    if order.len() > 0 {
        let d = order.drop_last();
        assert forall|k: int| 0 <= k < d.len() implies 0 <= #[trigger] d[k] < es.len() && is_request(es[d[k]]) by {
            assert(d[k] == order[k]);
        }
        lemma_lease_bound(es, d, slots, t);
        lemma_lease_scan(es, d, slots);
        let prev = lease_scan(es, d, slots);
        let n = lease_scan(es, order, slots);
        let p = order.last();
        assert(order[order.len() - 1] == p);
        let e = es[p];
        assert(is_request(es[order[order.len() - 1]]));
        let k = slot_for(prev.0, e);
        let requested = or_u64(spec_u64_at(request_of(e).value, seq!["time"@]), e.time);
        lemma_free_slot(prev.0, requested);
        lemma_earliest_slot(prev.0);
        lemma_record_time(e, es, p, t, "request/header"@);
        lemma_record_time(e, es, p, t, "assistant/message"@);
        assert(e.time <= t);
        let l = lease_of(e, k, prev.0[k as int]);
        assert(requested <= t);
        assert(prev.0[k as int] <= t + d.len());
        assert(l.started_at <= t + d.len());
        assert(l.ended_at <= t + order.len());
        assert forall|q: int| 0 <= q < n.0.len() implies #[trigger] n.0[q] <= t + order.len() by {
            if q != k {
                assert(n.0[q] == prev.0[q]);
            }
        }
        assert forall|m: int| 0 <= m < n.1.len() implies (#[trigger] n.1[m]).started_at <= t + m by {
            if m < prev.1.len() {
                assert(n.1[m] == prev.1[m]);
            } else {
                assert(n.1[m] == l);
            }
        }
    }
}

proof fn lemma_request_positions_len(es: Seq<EventV>)
    ensures
        request_positions(es).len() <= es.len(),
    decreases es.len(),
{
    if es.len() > 0 {
        lemma_request_positions_len(es.drop_last());
    }
}

/// Lease length law: when every time in the events is at most `t` and
/// `t` plus the number of events stays below `u64::MAX`, every lease ends
/// strictly after it starts.
pub proof fn law_leases_take_time(es: Seq<EventV>, max_slots: usize, t: u64)
    requires
        times_at_most(es, t),
        t + es.len() < u64::MAX,
    ensures
        forall|i: int|
            0 <= i < spec_leases(es, max_slots).len() ==> (#[trigger] spec_leases(es, max_slots)[i]).requested_at
                <= spec_leases(es, max_slots)[i].started_at && spec_leases(es, max_slots)[i].started_at
                < spec_leases(es, max_slots)[i].ended_at,
{
    let ps = request_positions(es);
    let keys = request_keys(es, ps);
    let o = stable_order(keys);
    let order = request_order(es);
    lemma_request_positions(es);
    lemma_request_positions_len(es);
    lemma_sorted_order_perm(keys, keys.len());
    assert(order.len() == ps.len());
    assert forall|k: int| 0 <= k < order.len() implies 0 <= #[trigger] order[k] < es.len() && is_request(es[order[k]]) by {
        assert(order[k] == ps[o[k]]);
        assert(0 <= o[k] < ps.len());
    }
    lemma_lease_scan(es, order, slot_count(max_slots));
    lemma_lease_bound(es, order, slot_count(max_slots), t);
    lemma_lease_events(es, order, slot_count(max_slots));
    lemma_lease_times(es, order, slot_count(max_slots));
}

fn free_slot_exec(ends: &Vec<u64>, t: u64) -> (r: Option<usize>)
    ensures
        match r {
            Some(k) => free_slot(ends@, t) == Some(k as nat),
            None => free_slot(ends@, t) is None,
        },
{
    let mut i: usize = 0;
    assert(ends@.subrange(0, ends.len() as int) =~= ends@);
    while i < ends.len()
        invariant
            i <= ends.len(),
            free_slot(ends@, t) == match free_slot(ends@.subrange(i as int, ends.len() as int), t) {
                Some(k) => Some((k + i) as nat),
                None => None::<nat>,
            },
        decreases ends.len() - i,
    {
        let ghost rest = ends@.subrange(i as int, ends.len() as int);
        assert(rest[0] == ends@[i as int]);
        if ends[i] <= t {
            return Some(i);
        }
        assert(rest.drop_first() =~= ends@.subrange(i + 1, ends.len() as int));
        i = i + 1;
    }
    assert(ends@.subrange(i as int, ends.len() as int) =~= Seq::<u64>::empty());
    None
}

fn earliest_slot_exec(ends: &Vec<u64>) -> (r: usize)
    requires
        ends@.len() > 0,
    ensures
        r == earliest_slot(ends@),
{
    let mut best: usize = 0;
    let mut i: usize = 1;
    assert(ends@.take(1).len() == 1);
    while i < ends.len()
        invariant
            1 <= i <= ends.len(),
            best < i,
            best == earliest_slot(ends@.take(i as int)),
        decreases ends.len() - i,
    {
        let ghost t = ends@.take(i + 1);
        assert(t.drop_last() =~= ends@.take(i as int));
        assert(t.last() == ends@[i as int]);
        assert(t[best as int] == ends@[best as int]);
        if ends[i] < ends[best] {
            best = i;
        }
        i = i + 1;
    }
    assert(ends@.take(ends.len() as int) =~= ends@);
    best
}

fn after_exec(t: u64) -> (r: u64)
    ensures
        r == after(t),
{
    if t < u64::MAX {
        t + 1
    } else {
        t
    }
}

fn is_request_exec(e: &TraceEvent) -> (b: bool)
    ensures
        b == is_request(event_view(*e)),
{
    str_eq(e.event_type.as_str(), "model/execution") && record_of_type(&e.raw_records, "request/header").is_some()
}

proof fn lemma_positions_bound(es: Seq<EventV>)
    ensures
        forall|k: int| 0 <= k < request_positions(es).len() ==> 0 <= #[trigger] request_positions(es)[k] < es.len()
            && is_request(es[request_positions(es)[k]]),
    decreases es.len(),
{
    if es.len() > 0 {
        lemma_positions_bound(es.drop_last());
        let p = request_positions(es.drop_last());
        assert forall|k: int| 0 <= k < request_positions(es).len() implies 0 <= #[trigger] request_positions(es)[k] < es.len()
            && is_request(es[request_positions(es)[k]]) by {
            if k < p.len() {
                assert(request_positions(es)[k] == p[k]);
                assert(es.drop_last()[p[k]] == es[p[k]]);
            }
        }
    }
}

pub open spec fn index_ints(v: Seq<usize>) -> Seq<int> {
    v.map_values(|p: usize| p as int)
}

pub proof fn lemma_ints_sorted(items: Seq<usize>, keys: Seq<KeyView>)
    requires
        items.len() == keys.len(),
    ensures
        index_ints(stably_sorted(items, keys)) == stably_sorted(index_ints(items), keys),
        stably_sorted(items, keys).len() == items.len(),
{
    lemma_sorted_order_perm(keys, keys.len());
    assert(index_ints(stably_sorted(items, keys)) =~= stably_sorted(index_ints(items), keys));
}

fn request_order_exec(events: &Vec<TraceEvent>) -> (r: Vec<usize>)
    ensures
        index_ints(r@) == request_order(events_view(events@)),
        forall|k: int| 0 <= k < r@.len() ==> (#[trigger] r@[k]) < events@.len() && is_request(
            events_view(events@)[r@[k] as int],
        ),
{
    let ghost es = events_view(events@);
    let mut positions: Vec<usize> = Vec::new();
    let mut keys: Vec<SortKey> = Vec::new();
    let p_time: &[&str] = &["time"];
    assert(strs(p_time@) =~= seq!["time"@]);
    let mut i: usize = 0;
    assert(es.take(0) =~= Seq::<EventV>::empty());
    while i < events.len()
        invariant
            i <= events.len(),
            es == events_view(events@),
            strs(p_time@) == seq!["time"@],
            index_ints(positions@) == request_positions(es.take(i as int)),
            key_views(keys@) == request_keys(es, request_positions(es.take(i as int))),
        decreases events.len() - i,
    {
        let e = &events[i];
        assert(es.take(i + 1).drop_last() =~= es.take(i as int));
        assert(es.take(i + 1).last() == event_view(*e));
        if is_request_exec(e) {
            let request = record_of_type(&e.raw_records, "request/header").unwrap();
            let time = match u64_at(&request.value, p_time) {
                Some(t) => t,
                None => 0,
            };
            let ghost pb = positions@;
            let ghost kb = keys@;
            positions.push(i);
            let k = SortKey { primary: time, secondary: None, tertiary: Vec::new() };
            keys.push(k);
            assert(index_ints(positions@) =~= index_ints(pb).push(i as int));
            assert(key_views(keys@) =~= key_views(kb).push(key_view(k)));
            assert(request_keys(es, index_ints(pb).push(i as int)) =~= request_keys(es, index_ints(pb)).push(
                (request_time(es[i as int]), None::<u64>, Seq::<char>::empty()),
            ));
        }
        i = i + 1;
    }
    assert(es.take(events.len() as int) =~= es);
    let ghost items = positions@;
    let r = stable_sort(positions, &keys);
    proof {
        lemma_ints_sorted(items, key_views(keys@));
        lemma_positions_bound(es);
        lemma_sorted_order_perm(key_views(keys@), key_views(keys@).len());
        assert forall|k: int| 0 <= k < r@.len() implies (#[trigger] r@[k]) < events@.len() && is_request(
            es[r@[k] as int],
        ) by {
            let o = stable_order(key_views(keys@));
            assert(r@[k] == items[o[k]]);
            assert(index_ints(items)[o[k]] == items[o[k]] as int);
        }
    }
    r
}

/// The slot leases of a replay's model executions (`spec_leases`).
pub fn build_leases(events: &Vec<TraceEvent>, max_slots: usize) -> (r: Vec<TraceLease>)
    ensures
        lease_views(r@) == spec_leases(events_view(events@), max_slots),
{
    let ghost es = events_view(events@);
    let order = request_order_exec(events);
    let slots: usize = if max_slots >= 1 {
        max_slots
    } else {
        1
    };
    let mut ends: Vec<u64> = Vec::new();
    while ends.len() < slots
        invariant
            ends.len() <= slots,
            forall|k: int| 0 <= k < ends@.len() ==> ends@[k] == 0u64,
        decreases slots - ends.len(),
    {
        ends.push(0);
    }
    assert(ends@ =~= Seq::new(slots as nat, |i: int| 0u64));
    let p_time: &[&str] = &["time"];
    let p_model: &[&str] = &["data", "header", "config", "model"];
    assert(strs(p_time@) =~= seq!["time"@]);
    assert(strs(p_model@) =~= seq!["data"@, "header"@, "config"@, "model"@]);
    let ghost ord = index_ints(order@);
    let mut leases: Vec<TraceLease> = Vec::new();
    let mut j: usize = 0;
    assert(ord.take(0) =~= Seq::<int>::empty());
    assert(lease_views(leases@) =~= Seq::<LeaseV>::empty());
    while j < order.len()
        invariant
            j <= order.len(),
            es == events_view(events@),
            ord == index_ints(order@),
            ord == request_order(es),
            slots as nat == slot_count(max_slots),
            strs(p_time@) == seq!["time"@],
            strs(p_model@) == seq!["data"@, "header"@, "config"@, "model"@],
            forall|k: int| 0 <= k < order@.len() ==> (#[trigger] order@[k]) < events@.len() && is_request(
                es[order@[k] as int],
            ),
            (ends@, lease_views(leases@)) == lease_scan(es, ord.take(j as int), slots as nat),
            ends@.len() == slots,
        decreases order.len() - j,
    {
        let idx = order[j];
        let e = &events[idx];
        let ghost ev = es[idx as int];
        assert(ev == event_view(*e));
        assert(ord.take(j + 1).drop_last() =~= ord.take(j as int));
        assert(ord.take(j + 1).last() == idx as int);
        proof {
            lemma_lease_scan(es, ord.take(j as int), slots as nat);
        }
        let request = record_of_type(&e.raw_records, "request/header").unwrap();
        let response = record_of_type(&e.raw_records, "assistant/message");
        let requested = match u64_at(&request.value, p_time) {
            Some(t) => t,
            None => e.time,
        };
        let k = match free_slot_exec(&ends, requested) {
            Some(k) => k,
            None => earliest_slot_exec(&ends),
        };
        proof {
            lemma_free_slot(ends@, requested);
            lemma_earliest_slot(ends@);
        }
        let slot_end = ends[k];
        let started = if requested >= slot_end {
            requested
        } else {
            slot_end
        };
        let next = after_exec(started);
        let observed = match response {
            Some(a) => match u64_at(&a.value, p_time) {
                Some(t) => t,
                None => next,
            },
            None => next,
        };
        let ended = if observed >= next {
            observed
        } else {
            next
        };
        ends.set(k, ended);
        let mut id = str_to_chars("lease-");
        append_str(&mut id, e.id.as_str());
        let lease = TraceLease {
            id: chars_to_string(&id),
            slot: k + 1,
            branch_id: clone_string(&e.branch_id),
            request_event_id: clone_string(&e.id),
            response_event_id: match response {
                Some(_) => Some(clone_string(&e.id)),
                None => None,
            },
            requested_at: requested,
            started_at: started,
            ended_at: ended,
            context_tokens: e.context_tokens,
            context_window: e.context_window,
            context_usage: e.context_usage,
            model: string_at(&request.value, p_model),
            source: String::from_str("derived from request/header → assistant/message lifecycle"),
        };
        let ghost lb = lease_views(leases@);
        leases.push(lease);
        assert(lease_views(leases@) =~= lb.push(lease_view(lease)));
        assert(lease_view(lease) == lease_of(ev, k as nat, slot_end));
        j = j + 1;
    }
    assert(ord.take(order.len() as int) =~= ord);
    leases
}

} // verus!
