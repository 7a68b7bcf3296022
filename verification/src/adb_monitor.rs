//! What the `adb` device monitor reports between two polls: the devices that
//! came, the ones whose state changed, and the ones that left.
use vstd::prelude::*;
use crate::adb::{AdbDevice, AdbDeviceState};
use crate::adb_select::copy_state;
use crate::keyed::{get_sorted, insert_sorted, lemma_lookup_index, lookup, sorted_keys};

verus! {

/// What happened to a device between two polls.
#[derive(Debug, Clone, Copy, PartialEq, Eq)]
pub enum AdbDeviceEventKind {
    Connected,
    Disconnected,
    StateChanged,
}

/// A change of the device list: the device's serial, what happened, its
/// state before and after, and the device as last seen.
#[derive(Debug)]
pub struct AdbDeviceEvent {
    pub serial: String,
    pub kind: AdbDeviceEventKind,
    pub previous_state: Option<AdbDeviceState>,
    pub current_state: Option<AdbDeviceState>,
    pub device: Option<AdbDevice>,
}

/// Whether two states are the same: the same variant, and for an unknown
/// state the same text.
pub open spec fn same_state(a: AdbDeviceState, b: AdbDeviceState) -> bool {
    match (a, b) {
        (AdbDeviceState::Unknown(x), AdbDeviceState::Unknown(y)) => x@ == y@,
        _ => a == b,
    }
}

/// Whether two devices hold the same values.
pub open spec fn same_device(a: AdbDevice, b: AdbDevice) -> bool {
    &&& a.serial == b.serial
    &&& a.state == b.state
    &&& a.product == b.product
    &&& a.model == b.model
    &&& a.device == b.device
    &&& a.transport_id == b.transport_id
    &&& a.properties@ == b.properties@
}

fn states_equal(a: &AdbDeviceState, b: &AdbDeviceState) -> (r: bool)
    ensures
        r == same_state(*a, *b),
{
    match (a, b) {
        (AdbDeviceState::Device, AdbDeviceState::Device) => true,
        (AdbDeviceState::Unauthorized, AdbDeviceState::Unauthorized) => true,
        (AdbDeviceState::Offline, AdbDeviceState::Offline) => true,
        (AdbDeviceState::Recovery, AdbDeviceState::Recovery) => true,
        (AdbDeviceState::Bootloader, AdbDeviceState::Bootloader) => true,
        (AdbDeviceState::Sideload, AdbDeviceState::Sideload) => true,
        (AdbDeviceState::Unknown(x), AdbDeviceState::Unknown(y)) => *x == *y,
        _ => false,
    }
}

fn copy_text(o: &Option<String>) -> (r: Option<String>)
    ensures
        r == *o,
{
    match o {
        Some(s) => Some(s.clone()),
        None => None,
    }
}

/// A copy of a device.
pub fn copy_device(d: &AdbDevice) -> (r: AdbDevice)
    ensures
        same_device(r, *d),
{
    let mut properties: Vec<(String, String)> = Vec::new();
    let mut i: usize = 0;
    while i < d.properties.len()
        invariant
            i <= d.properties@.len(),
            properties@ == d.properties@.take(i as int),
        decreases d.properties@.len() - i,
    {
        let k = d.properties[i].0.clone();
        let v = d.properties[i].1.clone();
        properties.push((k, v));
        assert(properties@ =~= d.properties@.take(i + 1));
        i = i + 1;
    }
    assert(d.properties@.take(d.properties@.len() as int) =~= d.properties@);
    AdbDevice {
        serial: d.serial.clone(),
        state: copy_state(&d.state),
        product: copy_text(&d.product),
        model: copy_text(&d.model),
        device: copy_text(&d.device),
        transport_id: d.transport_id,
        properties,
    }
}

/// The last of `devices` with serial `k`.
pub open spec fn latest(devices: Seq<AdbDevice>, k: Seq<char>) -> Option<AdbDevice>
    decreases devices.len(),
{
    if devices.len() == 0 {
        None
    } else if devices.last().serial@ == k {
        Some(devices.last())
    } else {
        latest(devices.drop_last(), k)
    }
}

/// Whether each entry of a keyed device list is stored under its own serial.
pub open spec fn keyed_by_serial(m: Seq<(String, AdbDevice)>) -> bool {
    forall|i: int| 0 <= i < m.len() ==> (#[trigger] m[i]).0@ == m[i].1.serial@
}

/// The listed devices keyed by serial: for each serial the last device
/// listed with it, in serial order.
pub fn device_map(devices: Vec<AdbDevice>) -> (m: Vec<(String, AdbDevice)>)
    ensures
        sorted_keys(m@),
        keyed_by_serial(m@),
        forall|k: Seq<char>| #[trigger] lookup(m@, k) == latest(devices@, k),
{
    let ghost all = devices@;
    let mut rest = devices;
    let mut m: Vec<(String, AdbDevice)> = Vec::new();
    let ghost mut taken: int = 0;
    assert(all.skip(0) =~= all);
    while rest.len() > 0
        invariant
            0 <= taken <= all.len(),
            rest@ == all.skip(taken),
            sorted_keys(m@),
            forall|k: Seq<char>| #[trigger] lookup(m@, k) == latest(all.take(taken), k),
        decreases rest@.len(),
    {
        let d = rest.remove(0);
        let key = d.serial.clone();
        let ghost before = m@;
        let ghost dv = d;
        insert_sorted(&mut m, key, d);
        proof {
            assert(all.take(taken + 1).drop_last() =~= all.take(taken));
            assert(all.take(taken + 1).last() == dv);
            assert(all.skip(taken + 1) =~= all.skip(taken).drop_first());
            assert forall|k: Seq<char>| #[trigger] lookup(m@, k) == latest(all.take(taken + 1), k) by {
                assert(lookup(before, k) == latest(all.take(taken), k));
            }
            taken = taken + 1;
        }
    }
    proof {
        assert(all.take(taken) =~= all);
        assert forall|i: int| 0 <= i < m@.len() implies (#[trigger] m@[i]).0@ == m@[i].1.serial@ by {
            lemma_lookup_index(m@, m@[i].0@);
            lemma_latest(all, m@[i].0@);
        }
    }
    m
}

proof fn lemma_latest(devices: Seq<AdbDevice>, k: Seq<char>)
    ensures
        latest(devices, k) matches Some(d) ==> d.serial@ == k,
    decreases devices.len(),
{
    if devices.len() > 0 && devices.last().serial@ != k {
        lemma_latest(devices.drop_last(), k);
    }
}

/// An event as the monitor reports it: serial, kind, state before, state after, device.
pub open spec fn planned(
    serial: Seq<char>,
    kind: AdbDeviceEventKind,
    previous_state: Option<AdbDeviceState>,
    current_state: Option<AdbDeviceState>,
    device: AdbDevice,
) -> (Seq<char>, AdbDeviceEventKind, Option<AdbDeviceState>, Option<AdbDeviceState>, AdbDevice) {
    (serial, kind, previous_state, current_state, device)
}

/// What one device of the new poll reports: it connected, when the old poll
/// lacked it; its state changed, when it differs; otherwise nothing.
pub open spec fn arrival(previous: Seq<(String, AdbDevice)>, e: (String, AdbDevice)) -> Seq<
    (Seq<char>, AdbDeviceEventKind, Option<AdbDeviceState>, Option<AdbDeviceState>, AdbDevice),
> {
    match lookup(previous, e.0@) {
        None => seq![planned(e.0@, AdbDeviceEventKind::Connected, None, Some(e.1.state), e.1)],
        Some(p) => if !same_state(p.state, e.1.state) {
            seq![planned(e.0@, AdbDeviceEventKind::StateChanged, Some(p.state), Some(e.1.state), e.1)]
        } else {
            seq![]
        },
    }
}

/// The reports of the devices of the new poll, in its order.
pub open spec fn arrivals(previous: Seq<(String, AdbDevice)>, current: Seq<(String, AdbDevice)>) -> Seq<
    (Seq<char>, AdbDeviceEventKind, Option<AdbDeviceState>, Option<AdbDeviceState>, AdbDevice),
>
    decreases current.len(),
{
    if current.len() == 0 {
        seq![]
    } else {
        arrivals(previous, current.drop_last()) + arrival(previous, current.last())
    }
}

/// What one device of the old poll reports: it disconnected, when the new
/// poll lacks it.
pub open spec fn departure(current: Seq<(String, AdbDevice)>, e: (String, AdbDevice)) -> Seq<
    (Seq<char>, AdbDeviceEventKind, Option<AdbDeviceState>, Option<AdbDeviceState>, AdbDevice),
> {
    if lookup(current, e.0@) is None {
        seq![planned(e.0@, AdbDeviceEventKind::Disconnected, Some(e.1.state), None, e.1)]
    } else {
        seq![]
    }
}

/// The reports of the devices that left, in the old poll's order.
pub open spec fn departures(previous: Seq<(String, AdbDevice)>, current: Seq<(String, AdbDevice)>) -> Seq<
    (Seq<char>, AdbDeviceEventKind, Option<AdbDeviceState>, Option<AdbDeviceState>, AdbDevice),
>
    decreases previous.len(),
{
    if previous.len() == 0 {
        seq![]
    } else {
        departures(previous.drop_last(), current) + departure(current, previous.last())
    }
}

/// Whether an event is the planned one.
pub open spec fn event_is(
    e: AdbDeviceEvent,
    p: (Seq<char>, AdbDeviceEventKind, Option<AdbDeviceState>, Option<AdbDeviceState>, AdbDevice),
) -> bool {
    &&& e.serial@ == p.0
    &&& e.kind == p.1
    &&& e.previous_state == p.2
    &&& e.current_state == p.3
    &&& e.device matches Some(d) && same_device(d, p.4)
}

fn make_event(
    serial: &String,
    kind: AdbDeviceEventKind,
    previous_state: Option<AdbDeviceState>,
    current_state: Option<AdbDeviceState>,
    device: &AdbDevice,
) -> (e: AdbDeviceEvent)
    ensures
        event_is(e, planned(serial@, kind, previous_state, current_state, *device)),
{
    AdbDeviceEvent {
        serial: serial.clone(),
        kind,
        previous_state,
        current_state,
        device: Some(copy_device(device)),
    }
}

/// The events between the poll `previous` and the poll `current`, both keyed
/// by serial: first, in the new poll's order, each device that connected or
/// changed state; then, in the old poll's order, each device that left.
pub fn device_events(previous: &Vec<(String, AdbDevice)>, current: &Vec<(String, AdbDevice)>) -> (events: Vec<
    AdbDeviceEvent,
>)
    requires
        sorted_keys(previous@),
        sorted_keys(current@),
    ensures
        events@.len() == (arrivals(previous@, current@) + departures(previous@, current@)).len(),
        forall|j: int|
            0 <= j < events@.len() ==> event_is(
                #[trigger] events@[j],
                (arrivals(previous@, current@) + departures(previous@, current@))[j],
            ),
{
    let mut events: Vec<AdbDeviceEvent> = Vec::new();
    let mut i: usize = 0;
    while i < current.len()
        invariant
            i <= current@.len(),
            sorted_keys(previous@),
            events@.len() == arrivals(previous@, current@.take(i as int)).len(),
            forall|j: int|
                0 <= j < events@.len() ==> event_is(
                    #[trigger] events@[j],
                    arrivals(previous@, current@.take(i as int))[j],
                ),
        decreases current@.len() - i,
    {
        let entry = &current[i];
        let ghost plan = arrivals(previous@, current@.take(i as int));
        let ghost step = arrival(previous@, *entry);
        proof {
            assert(current@.take(i + 1).drop_last() =~= current@.take(i as int));
            assert(current@.take(i + 1).last() == *entry);
        }
        match get_sorted(previous, &entry.0) {
            None => {
                let e = make_event(
                    &entry.0,
                    AdbDeviceEventKind::Connected,
                    None,
                    Some(copy_state(&entry.1.state)),
                    &entry.1,
                );
                events.push(e);
            },
            Some(p) => {
                if !states_equal(&p.state, &entry.1.state) {
                    let e = make_event(
                        &entry.0,
                        AdbDeviceEventKind::StateChanged,
                        Some(copy_state(&p.state)),
                        Some(copy_state(&entry.1.state)),
                        &entry.1,
                    );
                    events.push(e);
                }
            },
        }
        proof {
            assert(arrivals(previous@, current@.take(i + 1)) == plan + step);
            assert forall|j: int| 0 <= j < events@.len() implies event_is(
                #[trigger] events@[j],
                (plan + step)[j],
            ) by {
                if j < plan.len() {
                    assert((plan + step)[j] == plan[j]);
                }
            }
        }
        i = i + 1;
    }
    assert(current@.take(current@.len() as int) =~= current@);
    let ghost first = arrivals(previous@, current@);
    let mut i: usize = 0;
    while i < previous.len()
        invariant
            i <= previous@.len(),
            sorted_keys(current@),
            first == arrivals(previous@, current@),
            events@.len() == (first + departures(previous@.take(i as int), current@)).len(),
            forall|j: int|
                0 <= j < events@.len() ==> event_is(
                    #[trigger] events@[j],
                    (first + departures(previous@.take(i as int), current@))[j],
                ),
        decreases previous@.len() - i,
    {
        let entry = &previous[i];
        let ghost plan = first + departures(previous@.take(i as int), current@);
        let ghost step = departure(current@, *entry);
        proof {
            assert(previous@.take(i + 1).drop_last() =~= previous@.take(i as int));
            assert(previous@.take(i + 1).last() == *entry);
            assert(first + departures(previous@.take(i + 1), current@) =~= plan + step);
        }
        match get_sorted(current, &entry.0) {
            None => {
                let e = make_event(
                    &entry.0,
                    AdbDeviceEventKind::Disconnected,
                    Some(copy_state(&entry.1.state)),
                    None,
                    &entry.1,
                );
                events.push(e);
            },
            Some(_) => {},
        }
        proof {
            assert forall|j: int| 0 <= j < events@.len() implies event_is(
                #[trigger] events@[j],
                (plan + step)[j],
            ) by {
                if j < plan.len() {
                    assert((plan + step)[j] == plan[j]);
                }
            }
        }
        i = i + 1;
    }
    assert(previous@.take(previous@.len() as int) =~= previous@);
    events
}

proof fn lemma_arrivals_of_own_prefix(m: Seq<(String, AdbDevice)>, k: int)
    requires
        sorted_keys(m),
        0 <= k <= m.len(),
    ensures
        arrivals(m, m.take(k)).len() == 0,
    decreases k,
{
    if k > 0 {
        lemma_arrivals_of_own_prefix(m, k - 1);
        assert(m.take(k).drop_last() =~= m.take(k - 1));
        assert(m.take(k).last() == m[k - 1]);
        lemma_lookup_index(m, m[k - 1].0@);
        assert(lookup(m, m[k - 1].0@) == Some(m[k - 1].1));
    }
}

proof fn lemma_departures_of_own_prefix(m: Seq<(String, AdbDevice)>, k: int)
    requires
        sorted_keys(m),
        0 <= k <= m.len(),
    ensures
        departures(m.take(k), m).len() == 0,
    decreases k,
{
    if k > 0 {
        lemma_departures_of_own_prefix(m, k - 1);
        assert(m.take(k).drop_last() =~= m.take(k - 1));
        assert(m.take(k).last() == m[k - 1]);
        lemma_lookup_index(m, m[k - 1].0@);
    }
}

/// Law: two polls that list the same devices report no event.
pub proof fn lemma_unchanged_poll_reports_nothing(m: Seq<(String, AdbDevice)>)
    requires
        sorted_keys(m),
    ensures
        (arrivals(m, m) + departures(m, m)).len() == 0,
{
    lemma_arrivals_of_own_prefix(m, m.len() as int);
    lemma_departures_of_own_prefix(m, m.len() as int);
    assert(m.take(m.len() as int) =~= m);
}

} // verus!
