use vstd::prelude::*;

use crate::provider::NormalizedResource;
use crate::registry::DeviceState;
use crate::text::str_equals;

verus! {

/// Whose charging sessions are recorded.
#[derive(Debug, Clone, PartialEq, Eq, PartialOrd, Ord, Hash)]
pub enum DeviceType {
    Local,
    /// A remote device, by UDID.
    Remote(String),
}

/// One staged sample of a charging session: the discrete part of the sample,
/// which the recorder reads, and the rest of the sample (`payload`), which it
/// carries along.
pub struct ChargingHistoryStage<T> {
    pub data: NormalizedResource,
    pub payload: T,
}

/// Samples kept before the interior of a session is thinned out: 24 hours at
/// the default two-second interval.
pub const MAX_STAGED_SAMPLES: usize = 43_200;

/// Position in the original sequence of the `j`-th sample kept by compaction of
/// `n >= 3` samples: the first, every other interior sample starting at 1, and
/// the last.
pub open spec fn compact_source(n: int, j: int) -> int {
    if j == 0 {
        0
    } else if j <= (n - 1) / 2 {
        2 * j - 1
    } else {
        n - 1
    }
}

/// The samples that compaction keeps: sequences of fewer than three samples
/// are kept whole; otherwise the first, the interior samples at odd positions,
/// and the last.
pub open spec fn compacted<A>(s: Seq<A>) -> Seq<A> {
    if s.len() < 3 {
        s
    } else {
        Seq::new((((s.len() - 1) / 2) + 2) as nat, |j: int| s[compact_source(s.len() as int, j)])
    }
}

/// Compaction keeps the first and the last sample, and what it keeps is a
/// subsequence of the input in the same order.
pub proof fn lemma_compaction_keeps_ends_and_order<A>(s: Seq<A>)
    requires
        s.len() >= 3,
    ensures
        compacted(s).len() == (s.len() - 1) / 2 + 2,
        compacted(s).len() < s.len() || s.len() == 3,
        compacted(s)[0] == s[0],
        compacted(s).last() == s.last(),
        forall|j: int| 0 <= j < compacted(s).len() ==> 0 <= #[trigger] compact_source(s.len() as int, j) < s.len()
            && compacted(s)[j] == s[compact_source(s.len() as int, j)],
        forall|j1: int, j2: int|
            0 <= j1 < j2 < compacted(s).len() ==> #[trigger] compact_source(s.len() as int, j1)
                < #[trigger] compact_source(s.len() as int, j2),
{
}

fn reversed<T>(v: Vec<T>) -> (r: Vec<T>)
    ensures
        r.len() == v.len(),
        forall|k: int| 0 <= k < v.len() ==> #[trigger] r@[k] == v@[v.len() - 1 - k],
{
    let mut v = v;
    let ghost orig = v@;
    let mut r: Vec<T> = Vec::new();
    while v.len() > 0
        invariant
            r.len() <= orig.len(),
            v@ == orig.subrange(0, orig.len() - r.len()),
            forall|k: int| 0 <= k < r.len() ==> #[trigger] r@[k] == orig[orig.len() - 1 - k],
        decreases v.len(),
    {
        let x = v.pop().unwrap();
        r.push(x);
    }
    r
}

/// Thins out a session while preserving its true start and end: of three or
/// more samples, the first, every other interior sample and the last remain.
pub fn compact_stages<T>(staged: &mut Vec<ChargingHistoryStage<T>>)
    ensures
        final(staged)@ == compacted(old(staged)@),
{
    let n = staged.len();
    if n < 3 {
        return;
    }
    let mut taken: Vec<ChargingHistoryStage<T>> = Vec::new();
    std::mem::swap(staged, &mut taken);
    let ghost s = taken@;
    let mut rev = reversed(taken);
    let mut out: Vec<ChargingHistoryStage<T>> = Vec::new();
    let mut i: usize = 0;
    while i < n - 1
        invariant
            n == s.len(),
            n >= 3,
            i <= n - 1,
            rev.len() == n - i,
            forall|k: int| 0 <= k < rev.len() ==> #[trigger] rev@[k] == s[n - 1 - k],
            i == 0 ==> out.len() == 0,
            i >= 1 ==> out.len() == 1 + i / 2,
            i >= 1 ==> out@[0] == s[0],
            forall|j: int| 1 <= j < out.len() ==> #[trigger] out@[j] == s[2 * j - 1],
        decreases n - 1 - i,
    {
        let x = rev.pop().unwrap();
        if i == 0 || i % 2 == 1 {
            out.push(x);
        }
        i += 1;
    }
    let last = rev.pop().unwrap();
    out.push(last);
    assert(out@ =~= compacted(s));
    *staged = out;
}


/// The session after `stage` is appended: when the session already holds
/// `MAX_STAGED_SAMPLES` samples or more, its interior is thinned out first.
pub open spec fn pushed<A>(staged: Seq<A>, stage: A) -> Seq<A> {
    if staged.len() >= MAX_STAGED_SAMPLES {
        compacted(staged).push(stage)
    } else {
        staged.push(stage)
    }
}

/// Appends a sample to a session, compacting a session that reached
/// `MAX_STAGED_SAMPLES` first.
pub fn push_stage<T>(staged: &mut Vec<ChargingHistoryStage<T>>, stage: ChargingHistoryStage<T>)
    ensures
        final(staged)@ == pushed(old(staged)@, stage),
{
    if staged.len() >= MAX_STAGED_SAMPLES {
        compact_stages(staged);
    }
    staged.push(stage);
}

/// A sample counts as full when the pack reports full or the level reached 100%.
pub open spec fn full_charged(d: NormalizedResource) -> bool {
    d.fully_charged || d.battery_level >= 100
}

/// The sample arrived with a timestamp before the last staged one.
pub open spec fn out_of_order<T>(staged: Seq<ChargingHistoryStage<T>>, d: NormalizedResource) -> bool {
    staged.len() > 0 && d.last_update < staged.last().data.last_update
}

/// An out-of-order sample in the middle of a charge is dropped.
pub open spec fn dropped<T>(staged: Seq<ChargingHistoryStage<T>>, d: NormalizedResource) -> bool {
    out_of_order(staged, d) && d.is_charging && !full_charged(d)
}

/// The sample as staged: an out-of-order terminal sample (full or unplugged)
/// takes the timestamp of the last staged sample.
pub open spec fn admitted<T>(staged: Seq<ChargingHistoryStage<T>>, d: NormalizedResource) -> NormalizedResource {
    if out_of_order(staged, d) {
        NormalizedResource { last_update: staged.last().data.last_update, ..d }
    } else {
        d
    }
}

/// The device was charging at the last staged sample and no longer is.
pub open spec fn unplugged<T>(staged: Seq<ChargingHistoryStage<T>>, d: NormalizedResource) -> bool {
    staged.len() > 0 && staged.last().data.is_charging && !d.is_charging
}

/// A sample is staged while charging, and also when it ends a session in
/// progress (full or unplugged); a session never starts on a full sample; and a
/// sample that neither ends a session nor advances the clock is not staged.
pub open spec fn should_stage<T>(staged: Seq<ChargingHistoryStage<T>>, d: NormalizedResource) -> bool {
    let a = admitted(staged, d);
    let already = staged.len() > 0;
    let ends = full_charged(d) || unplugged(staged, d);
    &&& (d.is_charging || (already && ends))
    &&& (already || !full_charged(d))
    &&& (ends || !already || a.last_update != staged.last().data.last_update)
}

/// The session after a sample is considered, before it may be finished.
pub open spec fn after_stage<T>(staged: Seq<ChargingHistoryStage<T>>, d: NormalizedResource, payload: T) -> Seq<ChargingHistoryStage<T>> {
    if should_stage(staged, d) {
        pushed(staged, ChargingHistoryStage { data: admitted(staged, d), payload })
    } else {
        staged
    }
}

/// A session ends when the device is unplugged or when it reaches full.
pub open spec fn finishes<T>(staged: Seq<ChargingHistoryStage<T>>, d: NormalizedResource, payload: T) -> bool {
    unplugged(staged, d) || (full_charged(d) && after_stage(staged, d, payload).len() > 0)
}

/// One step of the recorder: the staged session afterwards, and the finished
/// session to summarize, if any. Finished sessions of two samples or fewer are
/// discarded.
pub open spec fn spec_record<T>(staged: Seq<ChargingHistoryStage<T>>, d: NormalizedResource, payload: T)
    -> (Seq<ChargingHistoryStage<T>>, Option<Seq<ChargingHistoryStage<T>>>)
{
    if dropped(staged, d) {
        (staged, None)
    } else if finishes(staged, d, payload) {
        let session = after_stage(staged, d, payload);
        (Seq::empty(), if session.len() > 2 { Some(session) } else { None })
    } else {
        (after_stage(staged, d, payload), None)
    }
}

/// Samples are in time order (their timestamps never decrease).
pub open spec fn in_time_order<T>(s: Seq<ChargingHistoryStage<T>>) -> bool {
    forall|i: int, j: int| 0 <= i <= j < s.len() ==> #[trigger] s[i].data.last_update <= #[trigger] s[j].data.last_update
}

/// What holds of every session the recorder keeps: samples in time order, at
/// most `MAX_STAGED_SAMPLES` of them, and a first sample that was charging and
/// not yet full.
pub open spec fn session_ok<T>(s: Seq<ChargingHistoryStage<T>>) -> bool {
    &&& in_time_order(s)
    &&& s.len() <= MAX_STAGED_SAMPLES
    &&& s.len() > 0 ==> s[0].data.is_charging && !full_charged(s[0].data)
}

proof fn lemma_compacted_session<T>(s: Seq<ChargingHistoryStage<T>>)
    requires
        session_ok(s),
        s.len() >= 3,
    ensures
        in_time_order(compacted(s)),
        compacted(s).len() < s.len() || s.len() == 3,
        compacted(s)[0] == s[0],
        compacted(s).last() == s.last(),
{
    lemma_compaction_keeps_ends_and_order(s);
    let c = compacted(s);
    let n = s.len() as int;
    assert forall|i: int, j: int| 0 <= i <= j < c.len() implies #[trigger] c[i].data.last_update <= #[trigger] c[j].data.last_update by {
        if i < j {
            assert(compact_source(n, i) < compact_source(n, j));
        }
        assert(c[i] == s[compact_source(n, i)]);
        assert(c[j] == s[compact_source(n, j)]);
    }
}

proof fn lemma_pushed_session<T>(s: Seq<ChargingHistoryStage<T>>, stage: ChargingHistoryStage<T>)
    requires
        session_ok(s),
        s.len() > 0 ==> s.last().data.last_update <= stage.data.last_update,
        s.len() == 0 ==> stage.data.is_charging && !full_charged(stage.data),
    ensures
        session_ok(pushed(s, stage)),
        pushed(s, stage).len() > 0,
        pushed(s, stage).last() == stage,
{
    if s.len() >= MAX_STAGED_SAMPLES {
        lemma_compacted_session(s);
        let c = compacted(s);
        let p = c.push(stage);
        assert forall|i: int, j: int| 0 <= i <= j < p.len() implies #[trigger] p[i].data.last_update <= #[trigger] p[j].data.last_update by {
            if j == p.len() - 1 && i < j {
                assert(c[i].data.last_update <= c.last().data.last_update);
            }
        }
    } else {
        let p = s.push(stage);
        assert forall|i: int, j: int| 0 <= i <= j < p.len() implies #[trigger] p[i].data.last_update <= #[trigger] p[j].data.last_update by {
            if j == p.len() - 1 && i < j {
                assert(s[i].data.last_update <= s.last().data.last_update);
            }
        }
    }
}

/// A charging session in progress for one device.
pub struct ChargingStages<T> {
    staged: Vec<ChargingHistoryStage<T>>,
}

impl<T> ChargingStages<T> {
    /// The staged samples.
    pub closed spec fn samples(&self) -> Seq<ChargingHistoryStage<T>> {
        self.staged@
    }

    /// The recorder's invariant.
    pub open spec fn inv(&self) -> bool {
        session_ok(self.samples())
    }

    /// An empty recorder.
    pub fn new() -> (r: Self)
        ensures
            r.samples() == Seq::<ChargingHistoryStage<T>>::empty(),
            r.inv(),
    {
        ChargingStages { staged: Vec::new() }
    }

    /// The staged samples, oldest first.
    pub fn staged(&self) -> (r: &Vec<ChargingHistoryStage<T>>)
        ensures
            r@ == self.samples(),
    {
        &self.staged
    }

    /// Considers one sample (`data`, with the rest of the sample in `payload`)
    /// and returns the session it finishes, if that session has more than two
    /// samples. Staged samples stay in time order, never exceed
    /// `MAX_STAGED_SAMPLES`, and a session never starts on a full sample.
    pub fn record(&mut self, data: NormalizedResource, payload: T) -> (r: Option<Vec<ChargingHistoryStage<T>>>)
        requires
            old(self).inv(),
        ensures
            final(self).inv(),
            final(self).samples() == spec_record(old(self).samples(), data, payload).0,
            r is None <==> spec_record(old(self).samples(), data, payload).1 is None,
            r matches Some(v) ==> spec_record(old(self).samples(), data, payload).1 == Some(v@),
            r matches Some(v) ==> v.len() > 2 && session_ok(v@) && final(self).samples().len() == 0,
    {
        let ghost s = self.staged@;
        let ghost d0 = data;
        let mut data = data;
        let full = data.fully_charged || data.battery_level >= 100;
        let n = self.staged.len();
        if n > 0 && data.last_update < self.staged[n - 1].data.last_update {
            if data.is_charging && !full {
                return None;
            }
            data.last_update = self.staged[n - 1].data.last_update;
        }
        assert(data == admitted(s, d0));
        let was_charging = n > 0 && self.staged[n - 1].data.is_charging;
        let unplugged = was_charging && !data.is_charging;
        let already_staging = n > 0;
        let stage = (data.is_charging || (already_staging && (full || unplugged)))
            && (already_staging || !full)
            && ((full || unplugged) || !already_staging || data.last_update != self.staged[n - 1].data.last_update);
        if stage {
            proof {
                lemma_pushed_session(s, ChargingHistoryStage { data, payload });
            }
            push_stage(&mut self.staged, ChargingHistoryStage { data, payload });
        }
        let reached_full = full && self.staged.len() > 0;
        if unplugged || reached_full {
            let mut taken: Vec<ChargingHistoryStage<T>> = Vec::new();
            std::mem::swap(&mut self.staged, &mut taken);
            if taken.len() <= 2 {
                return None;
            }
            return Some(taken);
        }
        None
    }
}


/// A summarized charging session. `curve` holds the session's samples in order.
pub struct ChargingHistory<T> {
    pub is_remote: bool,
    pub name: String,
    pub udid: String,
    pub from_level: i32,
    pub end_level: i32,
    /// Seconds from the first to the last sample, 0 when the clock went back.
    pub duration: i64,
    /// Timestamp of the first sample.
    pub timestamp: i64,
    pub adapter_name: String,
    pub curve: Vec<ChargingHistoryStage<T>>,
}

/// Emitted when a session was recorded.
#[derive(Debug, Clone, Copy, PartialEq, Eq, Structural)]
pub struct HistoryRecordedEvent;

/// The adapter named by the latest sample that names one.
pub open spec fn latest_adapter_name<T>(s: Seq<ChargingHistoryStage<T>>) -> Option<String>
    decreases s.len(),
{
    if s.len() == 0 {
        None
    } else {
        match s.last().data.adapter_name {
            Some(n) => Some(n),
            None => latest_adapter_name(s.drop_last()),
        }
    }
}

/// The duration of a session fits an `i64`.
pub open spec fn duration_fits<T>(s: Seq<ChargingHistoryStage<T>>) -> bool {
    s.len() > 0 ==> i64::MIN <= s.last().data.last_update - s[0].data.last_update <= i64::MAX
}

/// `h` summarizes the non-empty session `staged` of device `typ`, named
/// `name`: levels and time from its first and last samples, the duration never
/// negative, the adapter of the latest sample that names one ("Unknown" if none
/// does), "local" or the device's UDID, and the samples themselves as the curve.
pub open spec fn summary_of<T>(h: ChargingHistory<T>, staged: Seq<ChargingHistoryStage<T>>, typ: DeviceType, name: Seq<char>) -> bool {
    &&& h.is_remote == (typ is Remote)
    &&& h.name@ == name
    &&& h.udid@ == match typ {
        DeviceType::Local => "local"@,
        DeviceType::Remote(u) => u@,
    }
    &&& h.from_level == staged[0].data.battery_level
    &&& h.end_level == staged.last().data.battery_level
    &&& h.timestamp == staged[0].data.last_update
    &&& h.duration == if staged.last().data.last_update >= staged[0].data.last_update {
        staged.last().data.last_update - staged[0].data.last_update
    } else {
        0
    }
    &&& h.adapter_name@ == match latest_adapter_name(staged) {
        Some(n) => n@,
        None => "Unknown"@,
    }
    &&& h.curve@ == staged
}

/// Summarizes a session: nothing for an empty one; otherwise levels and time
/// from its first and last samples, the duration never negative, the adapter
/// of the latest sample that names one ("Unknown" if none does), "local" or the
/// device's UDID, and the samples themselves as the curve.
pub fn summarize_stages<T>(staged: Vec<ChargingHistoryStage<T>>, typ: DeviceType, name: String) -> (r: Option<ChargingHistory<T>>)
    requires
        duration_fits(staged@),
    ensures
        r is None <==> staged@.len() == 0,
        r matches Some(h) ==> h.name == name && summary_of(h, staged@, typ, name@),
{
    let n = staged.len();
    if n == 0 {
        return None;
    }
    let from_level = staged[0].data.battery_level;
    let end_level = staged[n - 1].data.battery_level;
    let timestamp = staged[0].data.last_update;
    let diff = staged[n - 1].data.last_update - timestamp;
    let duration = if diff > 0 { diff } else { 0 };
    let mut adapter: Option<String> = None;
    let mut k = n;
    assert(staged@.subrange(0, n as int) =~= staged@);
    while k > 0 && adapter.is_none()
        invariant
            k <= n,
            n == staged@.len(),
            adapter is None ==> latest_adapter_name(staged@) == latest_adapter_name(staged@.subrange(0, k as int)),
            adapter matches Some(a) ==> latest_adapter_name(staged@) == Some(a),
        decreases k,
    {
        let ghost prefix = staged@.subrange(0, k as int);
        assert(prefix.drop_last() =~= staged@.subrange(0, k - 1));
        match &staged[k - 1].data.adapter_name {
            Some(a) => {
                adapter = Some(a.clone());
            },
            None => {},
        }
        k -= 1;
    }
    proof {
        if adapter is None {
            assert(staged@.subrange(0, k as int) =~= Seq::<ChargingHistoryStage<T>>::empty());
        }
    }
    let adapter_name = match adapter {
        Some(a) => a,
        None => String::from_str("Unknown"),
    };
    let udid = match &typ {
        DeviceType::Local => String::from_str("local"),
        DeviceType::Remote(u) => u.clone(),
    };
    Some(ChargingHistory {
        is_remote: match typ {
            DeviceType::Local => false,
            DeviceType::Remote(_) => true,
        },
        name,
        udid,
        from_level,
        end_level,
        duration,
        timestamp,
        adapter_name,
        curve: staged,
    })
}


/// Summarizes a finished session under the device's name: this Mac's name as
/// given (`mac_name`, read from the system), or the name recorded for a remote
/// device; empty when unknown.
pub fn summrize_history<T>(devices: &DeviceState, mac_name: Option<String>, staged: Vec<ChargingHistoryStage<T>>, typ: DeviceType)
    -> (r: Option<ChargingHistory<T>>)
    requires
        duration_fits(staged@),
    ensures
        r is None <==> staged@.len() == 0,
        r matches Some(h) ==> summary_of(h, staged@, typ, match typ {
            DeviceType::Local => match mac_name {
                Some(n) => n@,
                None => Seq::<char>::empty(),
            },
            DeviceType::Remote(u) => if devices@.contains_key(u@) { devices@[u@].0 } else { Seq::<char>::empty() },
        }),
{
    let name = match &typ {
        DeviceType::Local => match mac_name {
            Some(n) => n,
            None => String::new(),
        },
        DeviceType::Remote(udid) => match devices.get(udid) {
            Some((n, _)) => n,
            None => String::new(),
        },
    };
    summarize_stages(staged, typ, name)
}

/// A device as a map key: `None` for this Mac, the UDID of a remote device.
pub open spec fn device_key(t: DeviceType) -> Option<Seq<char>> {
    match t {
        DeviceType::Local => None,
        DeviceType::Remote(u) => Some(u@),
    }
}

fn same_device(a: &DeviceType, b: &DeviceType) -> (r: bool)
    ensures
        r == (device_key(*a) == device_key(*b)),
{
    match (a, b) {
        (DeviceType::Local, DeviceType::Local) => true,
        (DeviceType::Remote(x), DeviceType::Remote(y)) => str_equals(x.as_str(), y.as_str()),
        _ => false,
    }
}

fn copy_device(t: &DeviceType) -> (r: DeviceType)
    ensures
        device_key(r) == device_key(*t),
{
    match t {
        DeviceType::Local => DeviceType::Local,
        DeviceType::Remote(u) => DeviceType::Remote(u.clone()),
    }
}

/// A battery health record for one day.
pub struct BatteryHealthSnapshot {
    /// The day, as `YYYY-MM-DD`.
    pub day: String,
    pub timestamp: i64,
    pub max_capacity: i64,
    pub design_capacity: i64,
    pub cycle_count: i64,
}

/// Battery health is recorded for this Mac, when both capacities are known,
/// once per day.
pub open spec fn spec_needs_health_snapshot(recorded_day: Seq<char>, typ: DeviceType, d: NormalizedResource, today: Seq<char>) -> bool {
    typ is Local && d.max_capacity > 0 && d.design_capacity > 0 && recorded_day != today
}

/// Once the snapshot of a day is recorded, no sample asks for another that day.
pub proof fn lemma_one_health_snapshot_per_day(typ: DeviceType, d: NormalizedResource, today: Seq<char>)
    ensures
        !spec_needs_health_snapshot(today, typ, d, today),
{
}

/// Sessions have no sample with a timestamp before an earlier one's: every
/// session the recorder finishes is in time order, has at least three samples,
/// and began with a sample that was charging and not full.
pub proof fn lemma_finished_sessions_are_well_formed<T>(staged: Seq<ChargingHistoryStage<T>>, d: NormalizedResource, payload: T)
    requires
        session_ok(staged),
    ensures
        session_ok(spec_record(staged, d, payload).0),
        spec_record(staged, d, payload).1 matches Some(session) ==> session_ok(session) && session.len() > 2
            && spec_record(staged, d, payload).0.len() == 0,
{
    if !dropped(staged, d) && should_stage(staged, d) {
        let a = admitted(staged, d);
        assert(staged.len() > 0 ==> staged.last().data.last_update <= a.last_update);
        lemma_pushed_session(staged, ChargingHistoryStage { data: a, payload });
    }
}

/// A full sample (flagged full, or at 100% or more) ends the session in
/// progress, whatever its charging flag: it is staged last, with its timestamp
/// raised to the previous sample's if it came late, the staged samples become
/// empty, and the session is returned when it has more than two samples. With
/// no session in progress a full sample changes nothing.
pub proof fn lemma_full_sample_ends_the_session<T>(staged: Seq<ChargingHistoryStage<T>>, d: NormalizedResource, payload: T)
    requires
        d.fully_charged || d.battery_level >= 100,
    ensures
        staged.len() == 0 ==> spec_record(staged, d, payload) == (staged, None::<Seq<ChargingHistoryStage<T>>>),
        staged.len() > 0 ==> spec_record(staged, d, payload).0.len() == 0,
        staged.len() == 1 ==> spec_record(staged, d, payload).1 is None,
        staged.len() >= 2 ==> (spec_record(staged, d, payload).1 matches Some(session) && ({
            let last = staged.last().data.last_update;
            &&& session[0] == staged[0]
            &&& session.last() == (ChargingHistoryStage {
                data: (NormalizedResource { last_update: if d.last_update < last { last } else { d.last_update }, ..d }),
                payload,
            })
            &&& (staged.len() < MAX_STAGED_SAMPLES ==> session == staged.push(session.last()))
        })),
{
    if staged.len() >= MAX_STAGED_SAMPLES {
        lemma_compaction_keeps_ends_and_order(staged);
    }
}

/// Unplugging (a sample that is not charging after a charging one) ends the
/// session the same way: the sample is staged last, the staged samples become
/// empty, and the session is returned when it has more than two samples.
pub proof fn lemma_unplugging_ends_the_session<T>(staged: Seq<ChargingHistoryStage<T>>, d: NormalizedResource, payload: T)
    requires
        staged.len() > 0,
        staged.last().data.is_charging,
        !d.is_charging,
    ensures
        spec_record(staged, d, payload).0.len() == 0,
        staged.len() == 1 ==> spec_record(staged, d, payload).1 is None,
        staged.len() >= 2 ==> (spec_record(staged, d, payload).1 matches Some(session) && ({
            let last = staged.last().data.last_update;
            &&& session[0] == staged[0]
            &&& session.last() == (ChargingHistoryStage {
                data: (NormalizedResource { last_update: if d.last_update < last { last } else { d.last_update }, ..d }),
                payload,
            })
            &&& (staged.len() < MAX_STAGED_SAMPLES ==> session == staged.push(session.last()))
        })),
{
    if staged.len() >= MAX_STAGED_SAMPLES {
        lemma_compaction_keeps_ends_and_order(staged);
    }
}

/// While charging and not full: a late sample is dropped and changes nothing;
/// a sample with a new, later timestamp is appended (the session compacted
/// first once it holds `MAX_STAGED_SAMPLES`) and nothing is finished; one with
/// the same timestamp as the last staged one is not staged again. A sample that
/// is neither charging nor ends a charge starts nothing.
pub proof fn lemma_charging_samples_are_appended_in_order<T>(staged: Seq<ChargingHistoryStage<T>>, d: NormalizedResource, payload: T)
    ensures
        d.is_charging && !d.fully_charged && d.battery_level < 100 ==> {
            &&& (staged.len() > 0 && d.last_update < staged.last().data.last_update
                ==> spec_record(staged, d, payload) == (staged, None::<Seq<ChargingHistoryStage<T>>>))
            &&& (staged.len() > 0 && d.last_update == staged.last().data.last_update
                ==> spec_record(staged, d, payload) == (staged, None::<Seq<ChargingHistoryStage<T>>>))
            &&& ((staged.len() == 0 || d.last_update > staged.last().data.last_update) && staged.len() < MAX_STAGED_SAMPLES
                ==> spec_record(staged, d, payload) == (staged.push((ChargingHistoryStage { data: d, payload })), None::<Seq<ChargingHistoryStage<T>>>))
            &&& ((staged.len() == 0 || d.last_update > staged.last().data.last_update) && staged.len() >= MAX_STAGED_SAMPLES
                ==> spec_record(staged, d, payload) == (compacted(staged).push((ChargingHistoryStage { data: d, payload })), None::<Seq<ChargingHistoryStage<T>>>))
        },
        !d.is_charging && staged.len() == 0 ==> spec_record(staged, d, payload) == (staged, None::<Seq<ChargingHistoryStage<T>>>),
{
}

/// A staged sample comes from the received sample `d` with payload `p`:
/// everything but its timestamp is `d`'s, and its timestamp is `d`'s or, for a
/// late sample, a later one.
pub open spec fn derived_from<T>(stage: ChargingHistoryStage<T>, d: NormalizedResource, p: T) -> bool {
    &&& stage.payload == p
    &&& stage.data == NormalizedResource { last_update: stage.data.last_update, ..d }
    &&& stage.data.last_update >= d.last_update
}

/// `idx` picks, in increasing order, the received samples among the first `n`
/// that the staged samples of `session` come from, all of device `key`.
pub open spec fn drawn_by<T>(
    idx: Seq<int>,
    session: Seq<ChargingHistoryStage<T>>,
    key: Option<Seq<char>>,
    inputs: Seq<(DeviceType, NormalizedResource, T)>,
    n: int,
) -> bool {
    &&& idx.len() == session.len()
    &&& forall|k: int| 0 <= k < idx.len() ==> 0 <= #[trigger] idx[k] < n
    &&& forall|k1: int, k2: int| 0 <= k1 < k2 < idx.len() ==> #[trigger] idx[k1] < #[trigger] idx[k2]
    &&& forall|k: int| 0 <= k < idx.len() ==> device_key(inputs[#[trigger] idx[k]].0) == key
        && derived_from(session[k], inputs[idx[k]].1, inputs[idx[k]].2)
}

/// `session` is an in-order subsequence of the samples of device `key` among
/// the first `n` received, each staged as `derived_from` says.
pub open spec fn drawn_from<T>(
    session: Seq<ChargingHistoryStage<T>>,
    key: Option<Seq<char>>,
    inputs: Seq<(DeviceType, NormalizedResource, T)>,
    n: int,
) -> bool {
    exists|idx: Seq<int>| drawn_by(idx, session, key, inputs, n)
}

/// The recorder after the first `n` received samples, each fed as
/// `HistoryRecorder::record` feeds it: the session in progress of each device,
/// and the finished sessions, in the order they were finished, with their
/// device.
pub open spec fn recorded_after<T>(inputs: Seq<(DeviceType, NormalizedResource, T)>, n: nat)
    -> (Map<Option<Seq<char>>, Seq<ChargingHistoryStage<T>>>, Seq<(Option<Seq<char>>, Seq<ChargingHistoryStage<T>>)>)
    decreases n,
{
    if n == 0 {
        (Map::empty(), Seq::empty())
    } else {
        let prev = recorded_after(inputs, (n - 1) as nat);
        let input = inputs[n - 1];
        let key = device_key(input.0);
        let before = if prev.0.contains_key(key) { prev.0[key] } else { Seq::empty() };
        let step = spec_record(before, input.1, input.2);
        (
            prev.0.insert(key, step.0),
            match step.1 {
                Some(session) => prev.1.push((key, session)),
                None => prev.1,
            },
        )
    }
}

proof fn lemma_drawn_grows<T>(
    session: Seq<ChargingHistoryStage<T>>,
    key: Option<Seq<char>>,
    inputs: Seq<(DeviceType, NormalizedResource, T)>,
    n: int,
)
    requires
        drawn_from(session, key, inputs, n),
    ensures
        drawn_from(session, key, inputs, n + 1),
{
    let idx = choose|idx: Seq<int>| drawn_by(idx, session, key, inputs, n);
    assert(drawn_by(idx, session, key, inputs, n + 1));
}

proof fn lemma_step_drawn<T>(
    staged: Seq<ChargingHistoryStage<T>>,
    key: Option<Seq<char>>,
    inputs: Seq<(DeviceType, NormalizedResource, T)>,
    n: int,
)
    requires
        0 <= n < inputs.len(),
        device_key(inputs[n].0) == key,
        session_ok(staged),
        drawn_from(staged, key, inputs, n),
    ensures
        drawn_from(spec_record(staged, inputs[n].1, inputs[n].2).0, key, inputs, n + 1),
        spec_record(staged, inputs[n].1, inputs[n].2).1 matches Some(session)
            ==> drawn_from(session, key, inputs, n + 1),
{
    let d = inputs[n].1;
    let p = inputs[n].2;
    let idx = choose|idx: Seq<int>| drawn_by(idx, staged, key, inputs, n);
    assert(drawn_by(Seq::<int>::empty(), Seq::<ChargingHistoryStage<T>>::empty(), key, inputs, n + 1));
    assert(drawn_by(idx, staged, key, inputs, n + 1));
    if should_stage(staged, d) {
        let stage = ChargingHistoryStage { data: admitted(staged, d), payload: p };
        assert(derived_from(stage, d, p));
        let (base, bidx) = if staged.len() >= MAX_STAGED_SAMPLES {
            lemma_compaction_keeps_ends_and_order(staged);
            let len = staged.len() as int;
            let c = compacted(staged);
            let cidx = Seq::new(c.len(), |j: int| idx[compact_source(len, j)]);
            assert forall|k1: int, k2: int| 0 <= k1 < k2 < cidx.len() implies #[trigger] cidx[k1] < #[trigger] cidx[k2] by {
                assert(compact_source(len, k1) < compact_source(len, k2));
            }
            assert forall|k: int| 0 <= k < cidx.len() implies 0 <= #[trigger] cidx[k] < n by {
                assert(0 <= compact_source(len, k) < len);
            }
            assert forall|k: int| 0 <= k < cidx.len() implies device_key(inputs[#[trigger] cidx[k]].0) == key
                && derived_from(c[k], inputs[cidx[k]].1, inputs[cidx[k]].2) by {
                assert(0 <= compact_source(len, k) < len);
                assert(c[k] == staged[compact_source(len, k)]);
            }
            (c, cidx)
        } else {
            (staged, idx)
        };
        assert(drawn_by(bidx, base, key, inputs, n));
        let pidx = bidx.push(n);
        let after = base.push(stage);
        assert(after == pushed(staged, stage));
        assert forall|k: int| 0 <= k < pidx.len() implies device_key(inputs[#[trigger] pidx[k]].0) == key
            && derived_from(after[k], inputs[pidx[k]].1, inputs[pidx[k]].2) by {
            if k < bidx.len() {
                assert(pidx[k] == bidx[k]);
                assert(after[k] == base[k]);
            }
        }
        assert forall|k1: int, k2: int| 0 <= k1 < k2 < pidx.len() implies #[trigger] pidx[k1] < #[trigger] pidx[k2] by {
            if k2 < bidx.len() {
                assert(pidx[k1] == bidx[k1] && pidx[k2] == bidx[k2]);
            } else {
                assert(pidx[k1] == bidx[k1]);
            }
        }
        assert(drawn_by(pidx, after, key, inputs, n + 1));
    }
}

/// Across any sequence of received samples, fed one by one from an empty
/// recorder: every session in progress and every finished session of a device
/// is an in-order subsequence of that device's received samples (timestamps of
/// late terminal samples raised to the previous one); each is in time order,
/// within `MAX_STAGED_SAMPLES`, and starts on a charging sample that is not
/// full; and every finished session has at least three samples.
pub proof fn lemma_recorded_sessions_are_drawn_from_samples<T>(inputs: Seq<(DeviceType, NormalizedResource, T)>, n: nat)
    requires
        n <= inputs.len(),
    ensures
        forall|key: Option<Seq<char>>| #[trigger] recorded_after(inputs, n).0.contains_key(key) ==> {
            &&& session_ok(recorded_after(inputs, n).0[key])
            &&& drawn_from(recorded_after(inputs, n).0[key], key, inputs, n as int)
        },
        forall|j: int| 0 <= j < recorded_after(inputs, n).1.len() ==> {
            let (key, session) = #[trigger] recorded_after(inputs, n).1[j];
            &&& session.len() > 2
            &&& session_ok(session)
            &&& drawn_from(session, key, inputs, n as int)
        },
    decreases n,
{
    if n > 0 {
        let m = (n - 1) as nat;
        lemma_recorded_sessions_are_drawn_from_samples(inputs, m);
        let prev = recorded_after(inputs, m);
        let input = inputs[m as int];
        let key = device_key(input.0);
        let before = if prev.0.contains_key(key) { prev.0[key] } else { Seq::empty() };
        assert(drawn_by(Seq::<int>::empty(), Seq::<ChargingHistoryStage<T>>::empty(), key, inputs, m as int));
        assert(session_ok(before) && drawn_from(before, key, inputs, m as int));
        lemma_step_drawn(before, key, inputs, m as int);
        lemma_finished_sessions_are_well_formed(before, input.1, input.2);
        let cur = recorded_after(inputs, n);
        assert forall|k: Option<Seq<char>>| #[trigger] cur.0.contains_key(k) implies
            session_ok(cur.0[k]) && drawn_from(cur.0[k], k, inputs, n as int) by {
            if k != key {
                lemma_drawn_grows(prev.0[k], k, inputs, m as int);
            }
        }
        assert forall|j: int| 0 <= j < cur.1.len() implies {
            let (k, session) = #[trigger] cur.1[j];
            &&& session.len() > 2
            &&& session_ok(session)
            &&& drawn_from(session, k, inputs, n as int)
        } by {
            if j < prev.1.len() {
                assert(cur.1[j] == prev.1[j]);
                lemma_drawn_grows(prev.1[j].1, prev.1[j].0, inputs, m as int);
            }
        }
    }
}

/// No two entries are for the same device.
pub open spec fn devices_unique<T>(s: Seq<(DeviceType, ChargingStages<T>)>) -> bool {
    forall|i: int, j: int| 0 <= i < s.len() && 0 <= j < s.len() && i != j ==> device_key(#[trigger] s[i].0) != device_key(#[trigger] s[j].0)
}

/// The sessions in progress, by device.
pub open spec fn sessions_view<T>(s: Seq<(DeviceType, ChargingStages<T>)>) -> Map<Option<Seq<char>>, Seq<ChargingHistoryStage<T>>> {
    Map::new(
        |k: Option<Seq<char>>| exists|i: int| 0 <= i < s.len() && device_key(s[i].0) == k,
        |k: Option<Seq<char>>| s[choose|i: int| 0 <= i < s.len() && device_key(s[i].0) == k].1.samples(),
    )
}

proof fn lemma_sessions_view_at<T>(s: Seq<(DeviceType, ChargingStages<T>)>, j: int)
    requires
        devices_unique(s),
        0 <= j < s.len(),
    ensures
        sessions_view(s).contains_key(device_key(s[j].0)),
        sessions_view(s)[device_key(s[j].0)] == s[j].1.samples(),
{
    let k = device_key(s[j].0);
    assert(device_key(s[j].0) == k);
    let c = choose|i: int| 0 <= i < s.len() && device_key(s[i].0) == k;
    assert(c == j);
}

proof fn lemma_sessions_replace<T>(s: Seq<(DeviceType, ChargingStages<T>)>, i: int, e: (DeviceType, ChargingStages<T>))
    requires
        devices_unique(s),
        0 <= i < s.len(),
        device_key(s[i].0) == device_key(e.0),
    ensures
        devices_unique(s.update(i, e)),
        sessions_view(s.update(i, e)) == sessions_view(s).insert(device_key(e.0), e.1.samples()),
{
    let t = s.update(i, e);
    let k0 = device_key(e.0);
    assert forall|a: int, b: int| 0 <= a < t.len() && 0 <= b < t.len() && a != b implies device_key(#[trigger] t[a].0) != device_key(#[trigger] t[b].0) by {
        assert(device_key(t[a].0) == device_key(s[a].0));
        assert(device_key(t[b].0) == device_key(s[b].0));
    }
    let expected = sessions_view(s).insert(k0, e.1.samples());
    assert forall|k: Option<Seq<char>>| #[trigger] sessions_view(t).contains_key(k) <==> expected.contains_key(k) by {
        if sessions_view(t).contains_key(k) {
            let m = choose|m: int| 0 <= m < t.len() && device_key(t[m].0) == k;
            assert(device_key(s[m].0) == k);
        }
        if expected.contains_key(k) && k != k0 {
            let m = choose|m: int| 0 <= m < s.len() && device_key(s[m].0) == k;
            assert(device_key(t[m].0) == k);
        }
        if k == k0 {
            assert(device_key(t[i].0) == k);
        }
    }
    assert forall|k: Option<Seq<char>>| #[trigger] sessions_view(t).contains_key(k) implies sessions_view(t)[k] == expected[k] by {
        let m = choose|m: int| 0 <= m < t.len() && device_key(t[m].0) == k;
        lemma_sessions_view_at(t, m);
        if m != i {
            assert(t[m] == s[m]);
            lemma_sessions_view_at(s, m);
        }
    }
    assert(sessions_view(t) =~= expected);
}

proof fn lemma_sessions_push<T>(s: Seq<(DeviceType, ChargingStages<T>)>, e: (DeviceType, ChargingStages<T>))
    requires
        devices_unique(s),
        forall|j: int| 0 <= j < s.len() ==> device_key(s[j].0) != device_key(e.0),
    ensures
        devices_unique(s.push(e)),
        sessions_view(s.push(e)) == sessions_view(s).insert(device_key(e.0), e.1.samples()),
{
    let t = s.push(e);
    let k0 = device_key(e.0);
    assert forall|a: int, b: int| 0 <= a < t.len() && 0 <= b < t.len() && a != b implies device_key(#[trigger] t[a].0) != device_key(#[trigger] t[b].0) by {
        if a < s.len() && b < s.len() {
            assert(t[a] == s[a] && t[b] == s[b]);
        }
    }
    let expected = sessions_view(s).insert(k0, e.1.samples());
    assert forall|k: Option<Seq<char>>| #[trigger] sessions_view(t).contains_key(k) <==> expected.contains_key(k) by {
        if sessions_view(t).contains_key(k) {
            let m = choose|m: int| 0 <= m < t.len() && device_key(t[m].0) == k;
            if m < s.len() {
                assert(t[m] == s[m]);
            }
        }
        if expected.contains_key(k) && k != k0 {
            let m = choose|m: int| 0 <= m < s.len() && device_key(s[m].0) == k;
            assert(t[m] == s[m]);
        }
        if k == k0 {
            assert(t[s.len() as int] == e);
        }
    }
    assert forall|k: Option<Seq<char>>| #[trigger] sessions_view(t).contains_key(k) implies sessions_view(t)[k] == expected[k] by {
        let m = choose|m: int| 0 <= m < t.len() && device_key(t[m].0) == k;
        lemma_sessions_view_at(t, m);
        if m < s.len() {
            assert(t[m] == s[m]);
            lemma_sessions_view_at(s, m);
        }
    }
    assert(sessions_view(t) =~= expected);
}

/// The charging sessions of all devices, and the day battery health was last
/// recorded.
pub struct HistoryRecorder<T> {
    sessions: Vec<(DeviceType, ChargingStages<T>)>,
    health_day: String,
}

impl<T> HistoryRecorder<T> {
    #[verifier::type_invariant]
    spec fn well_formed(&self) -> bool {
        &&& devices_unique(self.sessions@)
        &&& forall|i: int| 0 <= i < self.sessions@.len() ==> (#[trigger] self.sessions@[i]).1.inv()
    }

    /// The session in progress for each device seen.
    pub closed spec fn view(&self) -> Map<Option<Seq<char>>, Seq<ChargingHistoryStage<T>>> {
        sessions_view(self.sessions@)
    }

    /// The day of the last battery health record (empty before the first).
    pub closed spec fn health_day(&self) -> Seq<char> {
        self.health_day@
    }

    /// No session and no health record yet.
    pub fn new() -> (r: Self)
        ensures
            r@ == Map::<Option<Seq<char>>, Seq<ChargingHistoryStage<T>>>::empty(),
            r.health_day() == Seq::<char>::empty(),
    {
        let r = HistoryRecorder { sessions: Vec::new(), health_day: String::new() };
        assert(r@ =~= Map::<Option<Seq<char>>, Seq<ChargingHistoryStage<T>>>::empty());
        r
    }

    /// Whether this sample calls for a battery health record on `today`.
    pub fn needs_health_snapshot(&self, typ: &DeviceType, data: &NormalizedResource, today: &String) -> (r: bool)
        ensures
            r == spec_needs_health_snapshot(self.health_day(), *typ, *data, today@),
    {
        let local = match typ {
            DeviceType::Local => true,
            DeviceType::Remote(_) => false,
        };
        local && data.max_capacity > 0 && data.design_capacity > 0 && !str_equals(self.health_day.as_str(), today.as_str())
    }

    /// Notes that the battery health of `day` was recorded.
    pub fn health_snapshot_saved(&mut self, day: String)
        ensures
            final(self).health_day() == day@,
            final(self)@ == old(self)@,
    {
        proof { use_type_invariant(&*self); }
        self.health_day = day;
    }

    fn find(sessions: &Vec<(DeviceType, ChargingStages<T>)>, typ: &DeviceType) -> (i: usize)
        ensures
            i <= sessions@.len(),
            i < sessions@.len() ==> device_key(sessions@[i as int].0) == device_key(*typ),
            i == sessions@.len() ==> forall|j: int| 0 <= j < sessions@.len() ==> device_key(sessions@[j].0) != device_key(*typ),
    {
        let mut i: usize = 0;
        while i < sessions.len()
            invariant
                i <= sessions@.len(),
                forall|j: int| 0 <= j < i ==> device_key(sessions@[j].0) != device_key(*typ),
            decreases sessions.len() - i,
        {
            if same_device(&sessions[i].0, typ) {
                return i;
            }
            i += 1;
        }
        i
    }

    /// Feeds a sample of device `typ` to that device's session (see
    /// `ChargingStages::record`); other devices' sessions are untouched.
    pub fn record(&mut self, typ: &DeviceType, data: NormalizedResource, payload: T) -> (r: Option<Vec<ChargingHistoryStage<T>>>)
        ensures
            ({
                let before = if old(self)@.contains_key(device_key(*typ)) { old(self)@[device_key(*typ)] } else { Seq::empty() };
                &&& final(self)@ == old(self)@.insert(device_key(*typ), spec_record(before, data, payload).0)
                &&& (r is None <==> spec_record(before, data, payload).1 is None)
                &&& (r matches Some(v) ==> spec_record(before, data, payload).1 == Some(v@))
            }),
            r matches Some(v) ==> v.len() > 2 && session_ok(v@) && final(self)@[device_key(*typ)].len() == 0,
            final(self).health_day() == old(self).health_day(),
    {
        proof { use_type_invariant(&*self); }
        let mut sessions: Vec<(DeviceType, ChargingStages<T>)> = Vec::new();
        std::mem::swap(&mut sessions, &mut self.sessions);
        let ghost s = sessions@;
        let i = Self::find(&sessions, typ);
        let r;
        if i < sessions.len() {
            proof { lemma_sessions_view_at(s, i as int); }
            let (key, mut stages) = sessions.remove(i);
            assert(stages.inv());
            r = stages.record(data, payload);
            sessions.insert(i, (key, stages));
            proof {
                assert(sessions@ == s.update(i as int, sessions@[i as int]));
                lemma_sessions_replace(s, i as int, sessions@[i as int]);
                assert forall|j: int| 0 <= j < sessions@.len() implies (#[trigger] sessions@[j]).1.inv() by {
                    if j != i {
                        assert(sessions@[j] == s[j]);
                    }
                }
            }
        } else {
            let mut stages: ChargingStages<T> = ChargingStages::new();
            r = stages.record(data, payload);
            proof {
                assert(!sessions_view(s).contains_key(device_key(*typ)));
            }
            let key = copy_device(typ);
            proof {
                lemma_sessions_push(s, (key, stages));
            }
            sessions.push((key, stages));
            proof {
                assert forall|j: int| 0 <= j < sessions@.len() implies (#[trigger] sessions@[j]).1.inv() by {
                    if j < s.len() {
                        assert(sessions@[j] == s[j]);
                    }
                }
            }
        }
        self.sessions = sessions;
        r
    }
}

} // verus!
