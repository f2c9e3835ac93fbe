use vstd::prelude::*;

use crate::device::{Action, DeviceError, InterfaceType};
use crate::event::DeviceEvent;

verus! {

/// USB first, then Wi-Fi, then whatever interface comes first; none when there
/// is none.
pub open spec fn spec_preferred_interface(s: Seq<InterfaceType>) -> Option<InterfaceType> {
    if s.contains(InterfaceType::USB) {
        Some(InterfaceType::USB)
    } else if s.contains(InterfaceType::WiFi) {
        Some(InterfaceType::WiFi)
    } else if s.len() == 0 {
        None
    } else {
        Some(s[0])
    }
}

/// The interface to poll a device through: USB is preferred, Wi-Fi is the
/// fallback.
pub fn preferred_interface(interfaces: &Vec<InterfaceType>) -> (r: Option<InterfaceType>)
    ensures
        r == spec_preferred_interface(interfaces@),
{
    let mut has_usb = false;
    let mut has_wifi = false;
    let mut i: usize = 0;
    while i < interfaces.len()
        invariant
            i <= interfaces.len(),
            has_usb <==> exists|m: int| 0 <= m < i && interfaces@[m] == InterfaceType::USB,
            has_wifi <==> exists|m: int| 0 <= m < i && interfaces@[m] == InterfaceType::WiFi,
        decreases interfaces.len() - i,
    {
        if interfaces[i] == InterfaceType::USB {
            has_usb = true;
        }
        if interfaces[i] == InterfaceType::WiFi {
            has_wifi = true;
        }
        i += 1;
    }
    if has_usb {
        Some(InterfaceType::USB)
    } else if has_wifi {
        Some(InterfaceType::WiFi)
    } else if interfaces.len() == 0 {
        None
    } else {
        Some(interfaces[0])
    }
}

/// The interfaces of a list of connections, in order.
pub open spec fn interfaces_of<T>(connections: Seq<(InterfaceType, T)>) -> Seq<InterfaceType> {
    connections.map_values(|c: (InterfaceType, T)| c.0)
}

/// The connection to poll: the first one on the preferred interface.
pub fn preferred_connection<T>(connections: &Vec<(InterfaceType, T)>) -> (r: Option<&T>)
    ensures
        r is None <==> connections@.len() == 0,
        r matches Some(t) ==> exists|i: int|
            0 <= i < connections@.len()
            && Some(connections@[i].0) == spec_preferred_interface(interfaces_of(connections@))
            && *t == connections@[i].1
            && (forall|j: int| 0 <= j < i ==> connections@[j].0 != connections@[i].0),
{
    let mut keys: Vec<InterfaceType> = Vec::new();
    let mut i: usize = 0;
    while i < connections.len()
        invariant
            i <= connections.len(),
            keys@ == interfaces_of(connections@).take(i as int),
        decreases connections.len() - i,
    {
        keys.push(connections[i].0);
        i += 1;
        assert(keys@ =~= interfaces_of(connections@).take(i as int));
    }
    assert(keys@ =~= interfaces_of(connections@));
    match preferred_interface(&keys) {
        None => None,
        Some(k) => {
            let ghost kseq = keys@;
            assert(kseq.contains(k)) by {
                if k != InterfaceType::USB && k != InterfaceType::WiFi {
                    assert(kseq[0] == k);
                }
            }
            let mut j: usize = 0;
            while j < connections.len()
                invariant
                    j <= connections.len(),
                    keys@ == interfaces_of(connections@),
                    kseq == keys@,
                    kseq.contains(k),
                    spec_preferred_interface(kseq) == Some(k),
                    forall|m: int| 0 <= m < j ==> connections@[m].0 != k,
                decreases connections.len() - j,
            {
                if connections[j].0 == k {
                    assert(Some(connections@[j as int].0) == spec_preferred_interface(interfaces_of(connections@)));
                    assert(forall|m: int| 0 <= m < j ==> connections@[m].0 != connections@[j as int].0);
                    return Some(&connections[j].1);
                }
                j += 1;
            }
            proof {
                let w = choose|m: int| 0 <= m < kseq.len() && kseq[m] == k;
                assert(connections@[w].0 == k);
            }
            None
        },
    }
}


/// What is known of a remote device: its name and the interfaces it is
/// currently attached through.
pub struct DeviceRecord {
    pub udid: String,
    pub name: String,
    pub interfaces: Vec<InterfaceType>,
}

/// The set of interfaces listed.
pub open spec fn interface_set(s: Seq<InterfaceType>) -> Set<InterfaceType> {
    Set::new(|k: InterfaceType| s.contains(k))
}

proof fn lemma_interface_set_empty(s: Seq<InterfaceType>)
    ensures
        interface_set(s).is_empty() <==> s.len() == 0,
{
    if s.len() > 0 {
        assert(s.contains(s[0]));
        assert(interface_set(s).contains(s[0]));
    } else {
        assert(interface_set(s) =~= Set::<InterfaceType>::empty());
    }
}

proof fn lemma_interface_set_push(s: Seq<InterfaceType>, x: InterfaceType)
    ensures
        interface_set(s.push(x)) == interface_set(s).insert(x),
{
    let t = s.push(x);
    assert forall|y: InterfaceType| t.contains(y) <==> (s.contains(y) || y == x) by {
        if s.contains(y) {
            let m = choose|m: int| 0 <= m < s.len() && s[m] == y;
            assert(t[m] == y);
        }
        if y == x {
            assert(t[s.len() as int] == y);
        }
        if t.contains(y) {
            let m = choose|m: int| 0 <= m < t.len() && t[m] == y;
            if m < s.len() {
                assert(s[m] == y);
            }
        }
    }
    assert(interface_set(t) =~= interface_set(s).insert(x));
}

/// A record as seen from outside: name and interface set.
pub open spec fn record_info(r: DeviceRecord) -> (Seq<char>, Set<InterfaceType>) {
    (r.name@, interface_set(r.interfaces@))
}

/// No two records share a UDID.
pub open spec fn udids_unique(s: Seq<DeviceRecord>) -> bool {
    forall|i: int, j: int| 0 <= i < s.len() && 0 <= j < s.len() && i != j ==> #[trigger] s[i].udid@ != #[trigger] s[j].udid@
}

/// The records as a map from UDID to name and interface set.
pub open spec fn records_view(s: Seq<DeviceRecord>) -> Map<Seq<char>, (Seq<char>, Set<InterfaceType>)> {
    Map::new(
        |u: Seq<char>| exists|i: int| 0 <= i < s.len() && s[i].udid@ == u,
        |u: Seq<char>| record_info(s[choose|i: int| 0 <= i < s.len() && s[i].udid@ == u]),
    )
}

proof fn lemma_records_view_at(s: Seq<DeviceRecord>, j: int)
    requires
        udids_unique(s),
        0 <= j < s.len(),
    ensures
        records_view(s).contains_key(s[j].udid@),
        records_view(s)[s[j].udid@] == record_info(s[j]),
{
    let u = s[j].udid@;
    assert(s[j].udid@ == u);
    let c = choose|i: int| 0 <= i < s.len() && s[i].udid@ == u;
    assert(c == j);
}

proof fn lemma_records_view_remove(s: Seq<DeviceRecord>, i: int)
    requires
        udids_unique(s),
        0 <= i < s.len(),
    ensures
        udids_unique(s.remove(i)),
        records_view(s.remove(i)) == records_view(s).remove(s[i].udid@),
{
    let t = s.remove(i);
    let u = s[i].udid@;
    assert forall|a: int, b: int| 0 <= a < t.len() && 0 <= b < t.len() && a != b implies #[trigger] t[a].udid@ != #[trigger] t[b].udid@ by {
        let a0 = if a < i { a } else { a + 1 };
        let b0 = if b < i { b } else { b + 1 };
        assert(t[a] == s[a0]);
        assert(t[b] == s[b0]);
    }
    let expected = records_view(s).remove(u);
    assert forall|k: Seq<char>| #[trigger] records_view(t).contains_key(k) <==> expected.contains_key(k) by {
        if records_view(t).contains_key(k) {
            let m = choose|m: int| 0 <= m < t.len() && t[m].udid@ == k;
            let m0 = if m < i { m } else { m + 1 };
            assert(t[m] == s[m0]);
            lemma_records_view_at(s, m0);
            assert(m0 != i);
        }
        if expected.contains_key(k) {
            let m0 = choose|m: int| 0 <= m < s.len() && s[m].udid@ == k;
            assert(m0 != i);
            let m = if m0 < i { m0 } else { m0 - 1 };
            assert(t[m] == s[m0]);
        }
    }
    assert forall|k: Seq<char>| #[trigger] records_view(t).contains_key(k) implies records_view(t)[k] == expected[k] by {
        let m = choose|m: int| 0 <= m < t.len() && t[m].udid@ == k;
        let m0 = if m < i { m } else { m + 1 };
        assert(t[m] == s[m0]);
        lemma_records_view_at(s, m0);
        lemma_records_view_at(t, m);
    }
    assert(records_view(t) =~= expected);
}

proof fn lemma_records_view_push(s: Seq<DeviceRecord>, r: DeviceRecord)
    requires
        udids_unique(s),
        forall|j: int| 0 <= j < s.len() ==> s[j].udid@ != r.udid@,
    ensures
        udids_unique(s.push(r)),
        records_view(s.push(r)) == records_view(s).insert(r.udid@, record_info(r)),
{
    let t = s.push(r);
    assert forall|a: int, b: int| 0 <= a < t.len() && 0 <= b < t.len() && a != b implies #[trigger] t[a].udid@ != #[trigger] t[b].udid@ by {
        if a < s.len() && b < s.len() {
            assert(t[a] == s[a] && t[b] == s[b]);
        }
    }
    let expected = records_view(s).insert(r.udid@, record_info(r));
    assert forall|k: Seq<char>| #[trigger] records_view(t).contains_key(k) <==> expected.contains_key(k) by {
        if records_view(t).contains_key(k) {
            let m = choose|m: int| 0 <= m < t.len() && t[m].udid@ == k;
            if m < s.len() {
                assert(t[m] == s[m]);
                lemma_records_view_at(s, m);
            }
        }
        if expected.contains_key(k) && k != r.udid@ {
            let m = choose|m: int| 0 <= m < s.len() && s[m].udid@ == k;
            assert(t[m] == s[m]);
        }
        if k == r.udid@ {
            assert(t[s.len() as int] == r);
        }
    }
    assert forall|k: Seq<char>| #[trigger] records_view(t).contains_key(k) implies records_view(t)[k] == expected[k] by {
        let m = choose|m: int| 0 <= m < t.len() && t[m].udid@ == k;
        lemma_records_view_at(t, m);
        if m < s.len() {
            assert(t[m] == s[m]);
            lemma_records_view_at(s, m);
        }
    }
    assert(records_view(t) =~= expected);
}

/// The name and interface set a device has after `event`, starting from what
/// was known (`known`), or from the event's name and no interface.
pub open spec fn applied_info(known: Option<(Seq<char>, Set<InterfaceType>)>, event: DeviceEvent) -> (Seq<char>, Set<InterfaceType>) {
    let (name, interfaces) = match known {
        Some(info) => info,
        None => (event.name@, Set::empty()),
    };
    match event.action {
        Action::Attached => (if event.name@.len() > 0 { event.name@ } else { name }, interfaces.insert(event.interface)),
        Action::Detached => (name, interfaces.remove(event.interface)),
        Action::Paired => (name, interfaces),
    }
}

/// An attach always leaves the device with an interface (so it is not
/// forgotten), and detaching the only interface leaves none (so it is).
pub proof fn lemma_attach_and_detach(known: Option<(Seq<char>, Set<InterfaceType>)>, event: DeviceEvent)
    ensures
        event.action == Action::Attached ==> applied_info(known, event).1.contains(event.interface)
            && !applied_info(known, event).1.is_empty(),
        event.action == Action::Detached ==> !applied_info(known, event).1.contains(event.interface),
        (event.action == Action::Detached && known is Some && (known->0).1 == set![event.interface])
            ==> applied_info(known, event).1.is_empty(),
{
    if event.action == Action::Attached {
        assert(applied_info(known, event).1.contains(event.interface));
    }
    if event.action == Action::Detached && known is Some && (known->0).1 == set![event.interface] {
        assert(applied_info(known, event).1 =~= Set::<InterfaceType>::empty());
    }
}

/// Names and live interfaces of the remote devices seen so far, by UDID.
pub struct DeviceState {
    records: Vec<DeviceRecord>,
}

impl DeviceState {
    #[verifier::type_invariant]
    spec fn unique(&self) -> bool {
        udids_unique(self.records@)
    }

    /// The known devices: UDID to name and interface set.
    pub closed spec fn view(&self) -> Map<Seq<char>, (Seq<char>, Set<InterfaceType>)> {
        records_view(self.records@)
    }

    /// No device is known yet.
    pub fn new() -> (r: Self)
        ensures
            r@ == Map::<Seq<char>, (Seq<char>, Set<InterfaceType>)>::empty(),
    {
        let r = DeviceState { records: Vec::new() };
        assert(r@ =~= Map::<Seq<char>, (Seq<char>, Set<InterfaceType>)>::empty());
        r
    }

    fn find(records: &Vec<DeviceRecord>, udid: &String) -> (r: Option<usize>)
        ensures
            r matches Some(i) ==> i < records@.len() && records@[i as int].udid@ == udid@,
            r is None ==> forall|j: int| 0 <= j < records@.len() ==> records@[j].udid@ != udid@,
    {
        let mut i: usize = 0;
        while i < records.len()
            invariant
                i <= records@.len(),
                forall|j: int| 0 <= j < i ==> records@[j].udid@ != udid@,
            decreases records.len() - i,
        {
            if records[i].udid == *udid {
                return Some(i);
            }
            i += 1;
        }
        None
    }

    /// Applies an attach or detach event: the device is recorded (with the
    /// event's name) if it was unknown; an attach adopts a non-empty name and
    /// adds the interface, a detach removes it. Returns whether the device is
    /// left without any interface, which is when it should be forgotten later.
    pub fn apply(&mut self, event: &DeviceEvent) -> (r: bool)
        ensures
            final(self)@ == old(self)@.insert(event.udid@, applied_info(
                if old(self)@.contains_key(event.udid@) { Some(old(self)@[event.udid@]) } else { None },
                *event,
            )),
            r == final(self)@[event.udid@].1.is_empty(),
    {
        proof { use_type_invariant(&*self); }
        let mut records: Vec<DeviceRecord> = Vec::new();
        std::mem::swap(&mut records, &mut self.records);
        let ghost s = records@;
        let (name, mut interfaces) = match Self::find(&records, &event.udid) {
            Some(i) => {
                proof {
                    lemma_records_view_at(s, i as int);
                    lemma_records_view_remove(s, i as int);
                }
                let rec = records.remove(i);
                (rec.name, rec.interfaces)
            },
            None => (event.name.clone(), Vec::new()),
        };
        let ghost rest = records@;
        let ghost known = if records_view(s).contains_key(event.udid@) { Some(records_view(s)[event.udid@]) } else { None };
        assert(known == if records_view(s).contains_key(event.udid@) { Some((name@, interface_set(interfaces@))) } else { None::<(Seq<char>, Set<InterfaceType>)> });
        assert(!records_view(s).contains_key(event.udid@) ==> interface_set(interfaces@) =~= Set::<InterfaceType>::empty());
        let name = match event.action {
            Action::Attached => {
                if !event.name.as_str().is_empty() { event.name.clone() } else { name }
            },
            _ => name,
        };
        let ghost ifaces0 = interfaces@;
        match event.action {
            Action::Attached => {
                if !contains_interface(&interfaces, event.interface) {
                    interfaces.push(event.interface);
                    proof { lemma_interface_set_push(ifaces0, event.interface); }
                } else {
                    assert(interface_set(ifaces0).contains(event.interface));
                    assert(interface_set(ifaces0).insert(event.interface) =~= interface_set(ifaces0));
                }
            },
            Action::Detached => {
                remove_interface(&mut interfaces, event.interface);
            },
            Action::Paired => {},
        }
        assert(interface_set(interfaces@) =~= applied_info(known, *event).1);
        let empty = interfaces.len() == 0;
        proof {
            assert(forall|j: int| 0 <= j < rest.len() ==> rest[j].udid@ != event.udid@) by {
                assert forall|j: int| 0 <= j < rest.len() implies rest[j].udid@ != event.udid@ by {
                    if records_view(rest).contains_key(rest[j].udid@) {
                        lemma_records_view_at(rest, j);
                    }
                }
            }
        }
        let rec = DeviceRecord { udid: event.udid.clone(), name, interfaces };
        proof {
            lemma_records_view_push(rest, rec);
        }
        records.push(rec);
        self.records = records;
        proof { lemma_interface_set_empty(rec.interfaces@); }
        empty
    }

    /// Forgets a device that has no interface left; otherwise nothing changes.
    pub fn cleanup(&mut self, udid: &String)
        ensures
            final(self)@ == if old(self)@.contains_key(udid@) && old(self)@[udid@].1.is_empty() {
                old(self)@.remove(udid@)
            } else {
                old(self)@
            },
    {
        proof { use_type_invariant(&*self); }
        match Self::find(&self.records, udid) {
            Some(i) => {
                proof {
                    lemma_records_view_at(self.records@, i as int);
                    lemma_interface_set_empty(self.records@[i as int].interfaces@);
                }
                if self.records[i].interfaces.len() == 0 {
                    let mut records: Vec<DeviceRecord> = Vec::new();
                    std::mem::swap(&mut records, &mut self.records);
                    proof {
                        lemma_records_view_remove(records@, i as int);
                        assert(interface_set(records@[i as int].interfaces@) =~= Set::<InterfaceType>::empty());
                    }
                    records.remove(i);
                    self.records = records;
                }
            },
            None => {
                assert(!self@.contains_key(udid@));
            },
        }
    }

    /// The name and interfaces of a device, if it is known.
    pub fn get(&self, udid: &String) -> (r: Option<(String, Vec<InterfaceType>)>)
        ensures
            r is None <==> !self@.contains_key(udid@),
            r matches Some(v) ==> (v.0@, interface_set(v.1@)) == self@[udid@],
    {
        proof { use_type_invariant(self); }
        match Self::find(&self.records, udid) {
            Some(i) => {
                proof { lemma_records_view_at(self.records@, i as int); }
                let rec = &self.records[i];
                let ifaces = copy_interfaces(&rec.interfaces);
                Some((rec.name.clone(), ifaces))
            },
            None => None,
        }
    }
}

fn copy_interfaces(v: &Vec<InterfaceType>) -> (r: Vec<InterfaceType>)
    ensures
        r@ == v@,
{
    let mut out: Vec<InterfaceType> = Vec::new();
    let mut i: usize = 0;
    while i < v.len()
        invariant
            i <= v.len(),
            out@ == v@.take(i as int),
        decreases v.len() - i,
    {
        out.push(v[i]);
        i += 1;
        assert(out@ =~= v@.take(i as int));
    }
    assert(v@.take(i as int) =~= v@);
    out
}

fn contains_interface(v: &Vec<InterfaceType>, k: InterfaceType) -> (r: bool)
    ensures
        r == v@.contains(k),
{
    let mut i: usize = 0;
    while i < v.len()
        invariant
            i <= v.len(),
            forall|j: int| 0 <= j < i ==> v@[j] != k,
        decreases v.len() - i,
    {
        if v[i] == k {
            return true;
        }
        i += 1;
    }
    false
}

fn remove_interface(v: &mut Vec<InterfaceType>, k: InterfaceType)
    ensures
        interface_set(final(v)@) == interface_set(old(v)@).remove(k),
{
    let ghost orig = v@;
    let mut out: Vec<InterfaceType> = Vec::new();
    let mut i: usize = 0;
    while i < v.len()
        invariant
            v@ == orig,
            i <= v.len(),
            forall|x: InterfaceType| #[trigger] out@.contains(x) <==> (x != k && exists|m: int| 0 <= m < i && orig[m] == x),
        decreases v.len() - i,
    {
        let ghost before = out@;
        let ghost xi = orig[i as int];
        if v[i] != k {
            out.push(v[i]);
        }
        proof {
            assert forall|x: InterfaceType| #[trigger] out@.contains(x) <==> (x != k && exists|m: int| 0 <= m < i + 1 && orig[m] == x) by {
                if exists|m: int| 0 <= m < i + 1 && orig[m] == x {
                    let m = choose|m: int| 0 <= m < i + 1 && orig[m] == x;
                    if m < i {
                        assert(exists|m: int| 0 <= m < i && orig[m] == x);
                        if x != k {
                            assert(before.contains(x));
                            let p = choose|p: int| 0 <= p < before.len() && before[p] == x;
                            assert(out@[p] == x);
                        }
                    } else if x != k {
                        assert(out@[out@.len() - 1] == x);
                    }
                }
                if out@.contains(x) {
                    let p = choose|p: int| 0 <= p < out@.len() && out@[p] == x;
                    if p < before.len() {
                        assert(before[p] == x);
                        assert(before.contains(x));
                    } else {
                        assert(orig[i as int] == x);
                    }
                }
            }
        }
        i += 1;
    }
    *v = out;
    assert forall|x: InterfaceType| interface_set(v@).contains(x) <==> interface_set(orig).remove(k).contains(x) by {
        if orig.contains(x) {
            let m = choose|m: int| 0 <= m < orig.len() && orig[m] == x;
            assert(exists|m: int| 0 <= m < i && orig[m] == x);
        }
    }
    assert(interface_set(v@) =~= interface_set(orig).remove(k));
}


#[verifier::opaque]
spec fn distinct_seq(ou: Seq<Seq<char>>) -> bool {
    forall|t1: int, t2: int| 0 <= t1 < t2 < ou.len() ==> #[trigger] ou[t1] != #[trigger] ou[t2]
}

#[verifier::opaque]
spec fn covers(ou: Seq<Seq<char>>, su: Seq<Seq<char>>, k: int) -> bool {
    forall|j: int| 0 <= j < k ==> exists|t: int| 0 <= t < ou.len() && ou[t] == #[trigger] su[j]
}

#[verifier::opaque]
spec fn sourced(ou: Seq<Seq<char>>, srcs: Seq<int>, su: Seq<Seq<char>>, k: int) -> bool {
    &&& srcs.len() == ou.len()
    &&& forall|t: int| 0 <= t < ou.len() ==> 0 <= #[trigger] srcs[t] < k && ou[t] == su[srcs[t]]
}

proof fn lemma_cover_new(ou: Seq<Seq<char>>, srcs: Seq<int>, su: Seq<Seq<char>>, k: int)
    requires
        0 <= k < su.len(),
        distinct_seq(ou),
        covers(ou, su, k),
        sourced(ou, srcs, su, k),
        forall|m: int| 0 <= m < k ==> su[m] != su[k],
    ensures
        distinct_seq(ou.push(su[k])),
        covers(ou.push(su[k]), su, k + 1),
        sourced(ou.push(su[k]), srcs.push(k), su, k + 1),
{
    reveal(distinct_seq);
    reveal(covers);
    reveal(sourced);
    let ou2 = ou.push(su[k]);
    assert forall|t: int| 0 <= t < ou.len() implies ou[t] != su[k] by {
        assert(0 <= srcs[t] < k);
    }
    assert forall|t1: int, t2: int| 0 <= t1 < t2 < ou2.len() implies #[trigger] ou2[t1] != #[trigger] ou2[t2] by {
        assert(ou2[t1] == ou[t1]);
        if t2 < ou.len() {
            assert(ou2[t2] == ou[t2]);
        }
    }
    assert forall|j: int| 0 <= j < k + 1 implies exists|t: int| 0 <= t < ou2.len() && ou2[t] == #[trigger] su[j] by {
        if j < k {
            let t = choose|t: int| 0 <= t < ou.len() && ou[t] == su[j];
            assert(ou2[t] == ou[t]);
        } else {
            assert(ou2[ou.len() as int] == su[j]);
        }
    }
    let srcs2 = srcs.push(k);
    assert forall|t: int| 0 <= t < ou2.len() implies 0 <= #[trigger] srcs2[t] < k + 1 && ou2[t] == su[srcs2[t]] by {
        if t < ou.len() {
            assert(srcs2[t] == srcs[t]);
            assert(ou2[t] == ou[t]);
        }
    }
}

proof fn lemma_cover_seen(ou: Seq<Seq<char>>, srcs: Seq<int>, su: Seq<Seq<char>>, k: int, m: int)
    requires
        0 <= m < k < su.len(),
        su[m] == su[k],
        covers(ou, su, k),
        sourced(ou, srcs, su, k),
    ensures
        covers(ou, su, k + 1),
        sourced(ou, srcs, su, k + 1),
{
    reveal(covers);
    reveal(sourced);
    assert forall|j: int| 0 <= j < k + 1 implies exists|t: int| 0 <= t < ou.len() && ou[t] == #[trigger] su[j] by {
        if j == k {
            assert(su[m] == su[j]);
            let t = choose|t: int| 0 <= t < ou.len() && ou[t] == su[m];
        }
    }
}

/// An open connection to a remote device through one interface.
pub struct RemoteConnection<T> {
    pub udid: String,
    pub interface: InterfaceType,
    pub conn: T,
}

/// No two connections share a device and an interface.
pub open spec fn keys_unique<T>(s: Seq<RemoteConnection<T>>) -> bool {
    forall|i: int, j: int| 0 <= i < s.len() && 0 <= j < s.len() && i != j
        ==> (#[trigger] s[i].udid@, s[i].interface) != (#[trigger] s[j].udid@, s[j].interface)
}

/// The connections as a map from device and interface.
pub open spec fn connections_view<T>(s: Seq<RemoteConnection<T>>) -> Map<(Seq<char>, InterfaceType), T> {
    Map::new(
        |key: (Seq<char>, InterfaceType)| exists|i: int| 0 <= i < s.len() && (s[i].udid@, s[i].interface) == key,
        |key: (Seq<char>, InterfaceType)| s[choose|i: int| 0 <= i < s.len() && (s[i].udid@, s[i].interface) == key].conn,
    )
}

/// Every connection names its device: no UDID is empty.
pub open spec fn udids_named<T>(s: Seq<RemoteConnection<T>>) -> bool {
    forall|i: int| 0 <= i < s.len() ==> (#[trigger] s[i].udid@).len() > 0
}

/// Every connection in the map is to a device with a non-empty UDID.
pub open spec fn all_named<T>(view: Map<(Seq<char>, InterfaceType), T>) -> bool {
    forall|key: (Seq<char>, InterfaceType)| #[trigger] view.contains_key(key) ==> key.0.len() > 0
}

proof fn lemma_named_view<T>(s: Seq<RemoteConnection<T>>)
    requires
        udids_named(s),
    ensures
        all_named(connections_view(s)),
{
    assert forall|key: (Seq<char>, InterfaceType)| #[trigger] connections_view(s).contains_key(key) implies key.0.len() > 0 by {
        let i = choose|i: int| 0 <= i < s.len() && (s[i].udid@, s[i].interface) == key;
        assert(s[i].udid@.len() > 0);
    }
}

proof fn lemma_connections_view_at<T>(s: Seq<RemoteConnection<T>>, j: int)
    requires
        keys_unique(s),
        0 <= j < s.len(),
    ensures
        connections_view(s).contains_key((s[j].udid@, s[j].interface)),
        connections_view(s)[(s[j].udid@, s[j].interface)] == s[j].conn,
{
    let key = (s[j].udid@, s[j].interface);
    assert((s[j].udid@, s[j].interface) == key);
    let c = choose|i: int| 0 <= i < s.len() && (s[i].udid@, s[i].interface) == key;
    assert(c == j);
}

proof fn lemma_connections_view_remove<T>(s: Seq<RemoteConnection<T>>, i: int)
    requires
        keys_unique(s),
        0 <= i < s.len(),
    ensures
        keys_unique(s.remove(i)),
        connections_view(s.remove(i)) == connections_view(s).remove((s[i].udid@, s[i].interface)),
{
    let t = s.remove(i);
    let key0 = (s[i].udid@, s[i].interface);
    assert forall|a: int, b: int| 0 <= a < t.len() && 0 <= b < t.len() && a != b
        implies (#[trigger] t[a].udid@, t[a].interface) != (#[trigger] t[b].udid@, t[b].interface) by {
        let a0 = if a < i { a } else { a + 1 };
        let b0 = if b < i { b } else { b + 1 };
        assert(t[a] == s[a0]);
        assert(t[b] == s[b0]);
    }
    let expected = connections_view(s).remove(key0);
    assert forall|k: (Seq<char>, InterfaceType)| #[trigger] connections_view(t).contains_key(k) <==> expected.contains_key(k) by {
        if connections_view(t).contains_key(k) {
            let m = choose|m: int| 0 <= m < t.len() && (t[m].udid@, t[m].interface) == k;
            let m0 = if m < i { m } else { m + 1 };
            assert(t[m] == s[m0]);
            lemma_connections_view_at(s, m0);
            assert(m0 != i);
        }
        if expected.contains_key(k) {
            let m0 = choose|m: int| 0 <= m < s.len() && (s[m].udid@, s[m].interface) == k;
            assert(m0 != i);
            let m = if m0 < i { m0 } else { m0 - 1 };
            assert(t[m] == s[m0]);
        }
    }
    assert forall|k: (Seq<char>, InterfaceType)| #[trigger] connections_view(t).contains_key(k) implies connections_view(t)[k] == expected[k] by {
        let m = choose|m: int| 0 <= m < t.len() && (t[m].udid@, t[m].interface) == k;
        let m0 = if m < i { m } else { m + 1 };
        assert(t[m] == s[m0]);
        lemma_connections_view_at(s, m0);
        lemma_connections_view_at(t, m);
    }
    assert(connections_view(t) =~= expected);
}

proof fn lemma_connections_view_push<T>(s: Seq<RemoteConnection<T>>, r: RemoteConnection<T>)
    requires
        keys_unique(s),
        forall|j: int| 0 <= j < s.len() ==> (s[j].udid@, s[j].interface) != (r.udid@, r.interface),
    ensures
        keys_unique(s.push(r)),
        connections_view(s.push(r)) == connections_view(s).insert((r.udid@, r.interface), r.conn),
{
    let t = s.push(r);
    let key0 = (r.udid@, r.interface);
    assert forall|a: int, b: int| 0 <= a < t.len() && 0 <= b < t.len() && a != b
        implies (#[trigger] t[a].udid@, t[a].interface) != (#[trigger] t[b].udid@, t[b].interface) by {
        if a < s.len() && b < s.len() {
            assert(t[a] == s[a] && t[b] == s[b]);
        }
    }
    let expected = connections_view(s).insert(key0, r.conn);
    assert forall|k: (Seq<char>, InterfaceType)| #[trigger] connections_view(t).contains_key(k) <==> expected.contains_key(k) by {
        if connections_view(t).contains_key(k) {
            let m = choose|m: int| 0 <= m < t.len() && (t[m].udid@, t[m].interface) == k;
            if m < s.len() {
                assert(t[m] == s[m]);
                lemma_connections_view_at(s, m);
            }
        }
        if expected.contains_key(k) && k != key0 {
            let m = choose|m: int| 0 <= m < s.len() && (s[m].udid@, s[m].interface) == k;
            assert(t[m] == s[m]);
        }
        if k == key0 {
            assert(t[s.len() as int] == r);
        }
    }
    assert forall|k: (Seq<char>, InterfaceType)| #[trigger] connections_view(t).contains_key(k) implies connections_view(t)[k] == expected[k] by {
        let m = choose|m: int| 0 <= m < t.len() && (t[m].udid@, t[m].interface) == k;
        lemma_connections_view_at(t, m);
        if m < s.len() {
            assert(t[m] == s[m]);
            lemma_connections_view_at(s, m);
        }
    }
    assert(connections_view(t) =~= expected);
}

/// Whether an attach notification is acted on.
#[derive(PartialEq, Eq, Structural, Debug, Clone, Copy)]
pub enum AttachDecision {
    /// The device reported no UDID.
    EmptyUdid,
    /// A connection to this device through this interface exists already.
    Duplicate,
    /// Prepare the device and connect.
    Accept,
}

/// The interfaces through which device `u` is connected.
pub open spec fn interfaces_for<T>(view: Map<(Seq<char>, InterfaceType), T>, u: Seq<char>) -> Set<InterfaceType> {
    Set::new(|k: InterfaceType| view.contains_key((u, k)))
}

/// USB over Wi-Fi over any other interface.
pub open spec fn preferred_in(set: Set<InterfaceType>) -> InterfaceType {
    if set.contains(InterfaceType::USB) {
        InterfaceType::USB
    } else if set.contains(InterfaceType::WiFi) {
        InterfaceType::WiFi
    } else {
        InterfaceType::Unknown
    }
}

/// The prepared connections to remote devices, at most one per device and
/// interface. Each poll reads every device once, through its preferred
/// interface, so a device attached over USB and Wi-Fi is not read twice.
pub struct DeviceConnections<T> {
    entries: Vec<RemoteConnection<T>>,
}

impl<T> DeviceConnections<T> {
    #[verifier::type_invariant]
    spec fn unique(&self) -> bool {
        keys_unique(self.entries@) && udids_named(self.entries@)
    }

    /// The connections by device and interface.
    pub closed spec fn view(&self) -> Map<(Seq<char>, InterfaceType), T> {
        connections_view(self.entries@)
    }

    /// No connection yet.
    pub fn new() -> (r: Self)
        ensures
            r@ == Map::<(Seq<char>, InterfaceType), T>::empty(),
            all_named(r@),
    {
        let r = DeviceConnections { entries: Vec::new() };
        assert(r@ =~= Map::<(Seq<char>, InterfaceType), T>::empty());
        r
    }

    fn find(entries: &Vec<RemoteConnection<T>>, udid: &String, interface: InterfaceType) -> (r: Option<usize>)
        ensures
            r matches Some(i) ==> i < entries@.len() && entries@[i as int].udid@ == udid@ && entries@[i as int].interface == interface,
            r is None ==> forall|j: int| 0 <= j < entries@.len() ==> (entries@[j].udid@, entries@[j].interface) != (udid@, interface),
    {
        let mut i: usize = 0;
        while i < entries.len()
            invariant
                i <= entries@.len(),
                forall|j: int| 0 <= j < i ==> (entries@[j].udid@, entries@[j].interface) != (udid@, interface),
            decreases entries.len() - i,
        {
            if entries[i].interface == interface && entries[i].udid == *udid {
                return Some(i);
            }
            i += 1;
        }
        None
    }

    /// Whether to act on an attach notification: not without a UDID, and not
    /// twice for the same device and interface.
    pub fn attach_decision(&self, udid: &String, interface: InterfaceType) -> (r: AttachDecision)
        ensures
            r == if udid@.len() == 0 {
                AttachDecision::EmptyUdid
            } else if self@.contains_key((udid@, interface)) {
                AttachDecision::Duplicate
            } else {
                AttachDecision::Accept
            },
    {
        proof { use_type_invariant(self); }
        if udid.as_str().is_empty() {
            return AttachDecision::EmptyUdid;
        }
        match Self::find(&self.entries, udid, interface) {
            Some(i) => {
                proof { lemma_connections_view_at(self.entries@, i as int); }
                AttachDecision::Duplicate
            },
            None => {
                assert(!self@.contains_key((udid@, interface)));
                AttachDecision::Accept
            },
        }
    }

    /// Records the outcome of preparing a device attached through `interface`
    /// and starting its service: the connection is kept only when the device has
    /// a UDID, is not already connected through that interface, and the
    /// preparation succeeded (`prepared` is `Ok`); otherwise nothing changes.
    /// Returns whether the connection was kept.
    pub fn attach(&mut self, udid: String, interface: InterfaceType, prepared: Result<T, DeviceError>) -> (r: bool)
        ensures
            r == (udid@.len() > 0 && !old(self)@.contains_key((udid@, interface)) && prepared is Ok),
            r ==> final(self)@ == old(self)@.insert((udid@, interface), prepared->Ok_0),
            !r ==> final(self)@ == old(self)@,
            all_named(final(self)@),
    {
        proof {
            use_type_invariant(&*self);
            lemma_named_view(self.entries@);
        }
        let decision = self.attach_decision(&udid, interface);
        match decision {
            AttachDecision::Accept => match prepared {
                Ok(conn) => {
                    self.insert(udid, interface, conn);
                    true
                },
                Err(_) => false,
            },
            _ => false,
        }
    }

    /// Records a connection to `udid` through `interface`, returning the one it
    /// replaces.
    fn insert(&mut self, udid: String, interface: InterfaceType, conn: T) -> (r: Option<T>)
        requires
            udid@.len() > 0,
        ensures
            final(self)@ == old(self)@.insert((udid@, interface), conn),
            r is Some <==> old(self)@.contains_key((udid@, interface)),
            r matches Some(v) ==> v == old(self)@[(udid@, interface)],
            all_named(final(self)@),
    {
        proof { use_type_invariant(&*self); }
        let mut entries: Vec<RemoteConnection<T>> = Vec::new();
        std::mem::swap(&mut entries, &mut self.entries);
        let ghost s = entries@;
        let previous = match Self::find(&entries, &udid, interface) {
            Some(i) => {
                proof {
                    lemma_connections_view_at(s, i as int);
                    lemma_connections_view_remove(s, i as int);
                }
                let old_entry = entries.remove(i);
                Some(old_entry.conn)
            },
            None => {
                assert(!connections_view(s).contains_key((udid@, interface)));
                None
            },
        };
        let ghost rest = entries@;
        proof {
            assert forall|j: int| 0 <= j < rest.len() implies (rest[j].udid@, rest[j].interface) != (udid@, interface) by {
                lemma_connections_view_at(rest, j);
            }
        }
        let entry = RemoteConnection { udid, interface, conn };
        proof {
            lemma_connections_view_push(rest, entry);
            assert(connections_view(s).remove((udid@, interface)).insert((udid@, interface), conn)
                =~= connections_view(s).insert((udid@, interface), conn));
            assert(connections_view(s).insert((udid@, interface), conn)
                =~= connections_view(s).insert((udid@, interface), conn));
        }
        entries.push(entry);
        proof {
            assert forall|j: int| 0 <= j < entries@.len() implies (#[trigger] entries@[j].udid@).len() > 0 by {
                if j < rest.len() {
                    assert(entries@[j] == rest[j]);
                }
            }
            lemma_named_view(entries@);
        }
        self.entries = entries;
        assert(self@ =~= old(self)@.insert((udid@, interface), conn));
        previous
    }

    fn seen_before(entries: &Vec<RemoteConnection<T>>, k: usize) -> (r: bool)
        requires
            k < entries@.len(),
        ensures
            r <==> exists|m: int| 0 <= m < k && entries@[m].udid@ == entries@[k as int].udid@,
    {
        let mut j: usize = 0;
        while j < k
            invariant
                j <= k,
                k < entries@.len(),
                forall|m: int| 0 <= m < j ==> entries@[m].udid@ != entries@[k as int].udid@,
            decreases k - j,
        {
            if entries[j].udid == entries[k].udid {
                return true;
            }
            j += 1;
        }
        false
    }

    fn pairs_for(entries: &Vec<RemoteConnection<T>>, k: usize) -> (pairs: Vec<(InterfaceType, usize)>)
        requires
            k < entries@.len(),
        ensures
            forall|p: int| 0 <= p < pairs@.len() ==> {
                &&& (#[trigger] pairs@[p]).1 < entries@.len()
                &&& entries@[pairs@[p].1 as int].udid@ == entries@[k as int].udid@
                &&& entries@[pairs@[p].1 as int].interface == pairs@[p].0
            },
            forall|q: int| 0 <= q < entries@.len() && (#[trigger] entries@[q]).udid@ == entries@[k as int].udid@ ==>
                exists|p: int| 0 <= p < pairs@.len() && pairs@[p].1 == q,
    {
        let ghost s = entries@;
        let ghost u = s[k as int].udid@;
        let n = entries.len();
        let mut pairs: Vec<(InterfaceType, usize)> = Vec::new();
        let mut m: usize = 0;
        while m < n
            invariant
                n == s.len(),
                s == entries@,
                m <= n,
                k < n,
                u == s[k as int].udid@,
                forall|p: int| 0 <= p < pairs@.len() ==> {
                    &&& (#[trigger] pairs@[p]).1 < m
                    &&& s[pairs@[p].1 as int].udid@ == u
                    &&& s[pairs@[p].1 as int].interface == pairs@[p].0
                },
                forall|q: int| 0 <= q < m && (#[trigger] s[q]).udid@ == u ==>
                    exists|p: int| 0 <= p < pairs@.len() && pairs@[p].1 == q,
            decreases n - m,
        {
            let ghost before = pairs@;
            if entries[m].udid == entries[k].udid {
                pairs.push((entries[m].interface, m));
            }
            proof {
                assert forall|q: int| 0 <= q < m + 1 && (#[trigger] s[q]).udid@ == u implies
                    exists|p: int| 0 <= p < pairs@.len() && pairs@[p].1 == q by {
                    if q < m {
                        let p = choose|p: int| 0 <= p < before.len() && before[p].1 == q;
                        assert(pairs@[p] == before[p]);
                    } else {
                        assert(pairs@[pairs@.len() - 1].1 == q);
                    }
                }
            }
            m += 1;
        }
        pairs
    }

    fn preferred_index(entries: &Vec<RemoteConnection<T>>, k: usize) -> (idx: usize)
        requires
            k < entries@.len(),
            keys_unique(entries@),
        ensures
            idx < entries@.len(),
            entries@[idx as int].udid@ == entries@[k as int].udid@,
            entries@[idx as int].interface == preferred_in(interfaces_for(connections_view(entries@), entries@[k as int].udid@)),
    {
        let ghost s = entries@;
        let ghost u = s[k as int].udid@;
        let ghost view = connections_view(s);
        let pairs = Self::pairs_for(entries, k);
        assert(s[k as int].udid@ == u);
        assert(exists|p: int| 0 <= p < pairs@.len() && pairs@[p].1 == k);
        proof {
            assert forall|x: InterfaceType| interfaces_of(pairs@).contains(x) <==> interfaces_for(view, u).contains(x) by {
                if interfaces_of(pairs@).contains(x) {
                    let p = choose|p: int| 0 <= p < interfaces_of(pairs@).len() && interfaces_of(pairs@)[p] == x;
                    assert(pairs@[p].0 == x);
                    lemma_connections_view_at(s, pairs@[p].1 as int);
                }
                if interfaces_for(view, u).contains(x) {
                    assert(view.contains_key((u, x)));
                    let q = choose|q: int| 0 <= q < s.len() && (s[q].udid@, s[q].interface) == (u, x);
                    assert(s[q].udid@ == u);
                    let p = choose|p: int| 0 <= p < pairs@.len() && pairs@[p].1 == q;
                    assert(interfaces_of(pairs@)[p] == x);
                }
            }
        }
        match preferred_connection(&pairs) {
            Some(idx_ref) => {
                let idx = *idx_ref;
                proof {
                    let i = choose|i: int|
                        0 <= i < pairs@.len()
                        && Some(pairs@[i].0) == spec_preferred_interface(interfaces_of(pairs@))
                        && idx == pairs@[i].1
                        && (forall|j: int| 0 <= j < i ==> pairs@[j].0 != pairs@[i].0);
                    let ks = interfaces_of(pairs@);
                    if !ks.contains(InterfaceType::USB) && !ks.contains(InterfaceType::WiFi) {
                        assert(ks[0] == pairs@[0].0);
                        assert(ks.contains(ks[0]));
                    }
                }
                idx
            },
            None => {
                k
            },
        }
    }

    /// The connections to poll: one per connected device, through its
    /// preferred interface (USB over Wi-Fi), and every connected device once.
    pub fn tick_targets(&self) -> (r: Vec<&RemoteConnection<T>>)
        ensures
            forall|t: int| 0 <= t < r@.len() ==> {
                &&& self@.contains_key((#[trigger] r@[t].udid@, r@[t].interface))
                &&& self@[(r@[t].udid@, r@[t].interface)] == r@[t].conn
                &&& r@[t].interface == preferred_in(interfaces_for(self@, r@[t].udid@))
            },
            forall|t1: int, t2: int| 0 <= t1 < t2 < r@.len() ==> #[trigger] r@[t1].udid@ != #[trigger] r@[t2].udid@,
            forall|key: (Seq<char>, InterfaceType)| #[trigger] self@.contains_key(key) ==>
                exists|t: int| 0 <= t < r@.len() && r@[t].udid@ == key.0,
    {
        proof { use_type_invariant(self); }
        let entries = &self.entries;
        let ghost s = entries@;
        let ghost view = connections_view(s);
        let ghost su = Seq::new(s.len(), |i: int| s[i].udid@);
        let n = entries.len();
        let mut out: Vec<&RemoteConnection<T>> = Vec::new();
        let ghost mut ou: Seq<Seq<char>> = Seq::empty();
        let ghost mut idxs: Seq<int> = Seq::empty();
        let ghost mut srcs: Seq<int> = Seq::empty();
        proof { reveal(distinct_seq); reveal(covers); reveal(sourced); }
        let mut k: usize = 0;
        while k < n
            invariant
                n == s.len(),
                s == entries@,
                su == Seq::new(s.len(), |i: int| s[i].udid@),
                view == connections_view(s),
                keys_unique(s),
                k <= n,
                idxs.len() == out@.len(),
                ou.len() == out@.len(),
                forall|t: int| 0 <= t < out@.len() ==> 0 <= #[trigger] idxs[t] < n && *out@[t] == s[idxs[t]],
                forall|t: int| 0 <= t < out@.len() ==> (#[trigger] out@[t]).udid@ == ou[t],
                forall|t: int| 0 <= t < out@.len() ==> (#[trigger] out@[t]).interface
                    == preferred_in(interfaces_for(view, out@[t].udid@)),
                distinct_seq(ou),
                covers(ou, su, k as int),
                sourced(ou, srcs, su, k as int),
            decreases n - k,
        {
            let ghost before = out@;
            if !Self::seen_before(entries, k) {
                let idx = Self::preferred_index(entries, k);
                proof {
                    assert forall|m: int| 0 <= m < k implies su[m] != su[k as int] by {
                        assert(su[m] == entries@[m].udid@);
                    }
                    lemma_cover_new(ou, srcs, su, k as int);
                }
                out.push(&entries[idx]);
                proof {
                    ou = ou.push(su[k as int]);
                    srcs = srcs.push(k as int);
                    idxs = idxs.push(idx as int);
                    assert forall|t: int| 0 <= t < out@.len() implies (#[trigger] out@[t]).interface
                        == preferred_in(interfaces_for(view, out@[t].udid@)) by {
                        if t < before.len() {
                            assert(out@[t] == before[t]);
                        }
                    }
                    assert forall|t: int| 0 <= t < out@.len() implies (#[trigger] out@[t]).udid@ == ou[t] by {
                        if t < before.len() {
                            assert(out@[t] == before[t]);
                        }
                    }
                }
            } else {
                proof {
                    let mm = choose|mm: int| 0 <= mm < k && entries@[mm].udid@ == entries@[k as int].udid@;
                    assert(su[mm] == su[k as int]);
                    lemma_cover_seen(ou, srcs, su, k as int, mm);
                }
            }
            k += 1;
        }
        proof {
            reveal(distinct_seq);
            reveal(covers);
            assert forall|t: int| 0 <= t < out@.len() implies {
                &&& self@.contains_key((#[trigger] out@[t].udid@, out@[t].interface))
                &&& self@[(out@[t].udid@, out@[t].interface)] == out@[t].conn
            } by {
                assert(0 <= idxs[t] < n);
                lemma_connections_view_at(s, idxs[t]);
            }
            assert forall|t1: int, t2: int| 0 <= t1 < t2 < out@.len() implies #[trigger] out@[t1].udid@ != #[trigger] out@[t2].udid@ by {
                assert(out@[t1].udid@ == ou[t1]);
                assert(out@[t2].udid@ == ou[t2]);
            }
            assert forall|key: (Seq<char>, InterfaceType)| #[trigger] self@.contains_key(key) implies
                exists|t: int| 0 <= t < out@.len() && out@[t].udid@ == key.0 by {
                let q = choose|q: int| 0 <= q < s.len() && (s[q].udid@, s[q].interface) == key;
                assert(su[q] == key.0);
                let t = choose|t: int| 0 <= t < ou.len() && ou[t] == su[q];
                assert(out@[t].udid@ == ou[t]);
            }
        }
        out
    }

    /// Forgets the connection to `udid` through `interface`, returning it.
    pub fn remove(&mut self, udid: &String, interface: InterfaceType) -> (r: Option<T>)
        ensures
            final(self)@ == old(self)@.remove((udid@, interface)),
            r is Some <==> old(self)@.contains_key((udid@, interface)),
            r matches Some(v) ==> v == old(self)@[(udid@, interface)],
            all_named(final(self)@),
    {
        proof {
            use_type_invariant(&*self);
            lemma_named_view(self.entries@);
        }
        match Self::find(&self.entries, udid, interface) {
            Some(i) => {
                let mut entries: Vec<RemoteConnection<T>> = Vec::new();
                std::mem::swap(&mut entries, &mut self.entries);
                proof {
                    lemma_connections_view_at(entries@, i as int);
                    lemma_connections_view_remove(entries@, i as int);
                }
                let removed = entries.remove(i);
                self.entries = entries;
                Some(removed.conn)
            },
            None => {
                assert(!self@.contains_key((udid@, interface)));
                assert(self@.remove((udid@, interface)) =~= self@);
                None
            },
        }
    }
}

} // verus!
