//! The gauge registry and the refresh sweep: label-keyed families, the
//! overwrite-only update rule, and the fold that records one sweep of device
//! reports into the registry.

use vstd::prelude::*;

use crate::device::{ChildDevice, ChildKey, DeviceInfo, InfoKey, PowerKey, PowerUse};
use crate::encoding::{info_lines, power_lines, push_info_line, push_power_line, spec_encode};
use vstd::string::StringExecFns;

verus! {

/// One successful wattage reading for one child outlet.
pub struct ChildReading {
    pub child: ChildDevice,
    pub watts: u64,
}

/// Mathematical value of a `ChildReading`.
pub ghost struct ReadingView {
    pub child: ChildKey,
    pub watts: u64,
}

impl View for ChildReading {
    type V = ReadingView;

    open spec fn view(&self) -> ReadingView {
        ReadingView { child: self.child@, watts: self.watts }
    }
}

impl DeepView for ChildReading {
    type V = ReadingView;

    open spec fn deep_view(&self) -> ReadingView {
        self.view()
    }
}

/// A gauge family is a sequence of label-set/value pairs with pairwise
/// distinct label sets; the sequence order is the order in which label sets
/// were first recorded.
pub open spec fn fam_wf<K>(fam: Seq<(K, i64)>) -> bool {
    forall|i: int, j: int| 0 <= i < j < fam.len() ==> fam[i].0 != fam[j].0
}

pub open spec fn fam_has_key<K>(fam: Seq<(K, i64)>, k: K) -> bool {
    exists|i: int| 0 <= i < fam.len() && fam[i].0 == k
}

pub open spec fn fam_index_of<K>(fam: Seq<(K, i64)>, k: K) -> int {
    choose|i: int| 0 <= i < fam.len() && fam[i].0 == k
}

/// The value a family holds for a label set it contains.
pub open spec fn fam_value<K>(fam: Seq<(K, i64)>, k: K) -> i64 {
    fam[fam_index_of(fam, k)].1
}

/// Recording a value: an existing label set is overwritten in place, a new
/// one is appended. Label sets are never removed.
pub open spec fn fam_upsert<K>(fam: Seq<(K, i64)>, k: K, v: i64) -> Seq<(K, i64)> {
    if fam_has_key(fam, k) {
        fam.update(fam_index_of(fam, k), (k, v))
    } else {
        fam.push((k, v))
    }
}

pub proof fn lemma_fam_upsert_wf<K>(fam: Seq<(K, i64)>, k: K, v: i64)
    requires
        fam_wf(fam),
    ensures
        fam_wf(fam_upsert(fam, k, v)),
        fam_has_key(fam_upsert(fam, k, v), k),
        fam_value(fam_upsert(fam, k, v), k) == v,
        forall|k2: K| k2 != k ==> fam_has_key(fam_upsert(fam, k, v), k2) == fam_has_key(
            fam,
            k2,
        ),
        forall|k2: K|
            k2 != k && fam_has_key(fam, k2) ==> fam_value(fam_upsert(fam, k, v), k2) == fam_value(
                fam,
                k2,
            ),
{
    let out = fam_upsert(fam, k, v);
    if fam_has_key(fam, k) {
        let i = fam_index_of(fam, k);
        assert(0 <= i < fam.len() && fam[i].0 == k);
        assert(forall|j: int| 0 <= j < out.len() && j != i ==> out[j] == fam[j]);
        assert(out[i].0 == k && out[i].1 == v);
        let i2 = fam_index_of(out, k);
        assert(0 <= i2 < out.len() && out[i2].0 == k);
        assert(i2 == i);
        assert forall|k2: K| k2 != k && fam_has_key(fam, k2) implies fam_has_key(out, k2)
            && fam_value(out, k2) == fam_value(fam, k2) by {
            let j = fam_index_of(fam, k2);
            assert(0 <= j < fam.len() && fam[j].0 == k2);
            assert(j != i);
            assert(out[j].0 == k2);
            assert(fam_has_key(out, k2));
            let j2 = fam_index_of(out, k2);
            assert(0 <= j2 < out.len() && out[j2].0 == k2);
            assert(j2 != i);
            assert(fam[j2].0 == k2);
            assert(j2 == j);
        }
        assert forall|k2: K| k2 != k && fam_has_key(out, k2) implies fam_has_key(fam, k2) by {
            let j = fam_index_of(out, k2);
            assert(0 <= j < out.len() && out[j].0 == k2);
            assert(j != i);
            assert(fam[j].0 == k2);
        }
    } else {
        assert(forall|j: int| 0 <= j < fam.len() ==> fam[j].0 != k);
        assert(out[fam.len() as int] == (k, v));
        let i2 = fam_index_of(out, k);
        assert(0 <= i2 < out.len() && out[i2].0 == k);
        assert(i2 == fam.len());
        assert forall|k2: K| k2 != k && fam_has_key(fam, k2) implies fam_has_key(out, k2)
            && fam_value(out, k2) == fam_value(fam, k2) by {
            let j = fam_index_of(fam, k2);
            assert(0 <= j < fam.len() && fam[j].0 == k2);
            assert(out[j].0 == k2);
            assert(fam_has_key(out, k2));
            let j2 = fam_index_of(out, k2);
            assert(0 <= j2 < out.len() && out[j2].0 == k2);
            assert(j2 < fam.len());
            assert(fam[j2].0 == k2);
            assert(j2 == j);
        }
        assert forall|k2: K| k2 != k && fam_has_key(out, k2) implies fam_has_key(fam, k2) by {
            let j = fam_index_of(out, k2);
            assert(0 <= j < out.len() && out[j].0 == k2);
            assert(j != fam.len());
            assert(fam[j].0 == k2);
        }
    }
}

/// Overwriting a label set with the value it already holds leaves the family
/// unchanged.
pub proof fn lemma_fam_upsert_same<K>(fam: Seq<(K, i64)>, k: K, v: i64)
    requires
        fam_wf(fam),
        fam_has_key(fam, k),
        fam_value(fam, k) == v,
    ensures
        fam_upsert(fam, k, v) == fam,
{
    let i = fam_index_of(fam, k);
    assert(fam[i] == (k, v));
    assert(fam_upsert(fam, k, v) =~= fam);
}

/// Mathematical value of the whole registry: both gauge families.
pub ghost struct StateView {
    pub power_use: Seq<(PowerKey, i64)>,
    pub device_info: Seq<(InfoKey, i64)>,
}

/// The registry at startup, before any sweep.
pub open spec fn empty_state() -> StateView {
    StateView { power_use: Seq::empty(), device_info: Seq::empty() }
}

pub open spec fn state_wf(s: StateView) -> bool {
    fam_wf(s.power_use) && fam_wf(s.device_info)
}

/// What querying one configured device during a sweep produced. The parts
/// named here are exactly the parts the sweep had read before it stopped,
/// in query order: identity first, then one wattage per child.
pub enum DeviceReport {
    /// The identity query itself failed: nothing of this device is recorded.
    Failed { error: String },
    /// The identity was read, then the child listing or a power read failed:
    /// the identity and the readings gathered so far are still recorded.
    Interrupted { info: DeviceInfo, readings: Vec<ChildReading>, error: String },
    /// The identity and every child reading were read.
    Complete { info: DeviceInfo, readings: Vec<ChildReading> },
}

/// Mathematical value of a `DeviceReport`.
pub ghost enum ReportView {
    Failed { error: Seq<char> },
    Interrupted { info: InfoKey, readings: Seq<ReadingView>, error: Seq<char> },
    Complete { info: InfoKey, readings: Seq<ReadingView> },
}

impl View for DeviceReport {
    type V = ReportView;

    open spec fn view(&self) -> ReportView {
        match self {
            DeviceReport::Failed { error } => ReportView::Failed { error: error@ },
            DeviceReport::Interrupted { info, readings, error } => ReportView::Interrupted {
                info: info@,
                readings: readings.deep_view(),
                error: error@,
            },
            DeviceReport::Complete { info, readings } => ReportView::Complete {
                info: info@,
                readings: readings.deep_view(),
            },
        }
    }
}

impl DeepView for DeviceReport {
    type V = ReportView;

    open spec fn deep_view(&self) -> ReportView {
        self.view()
    }
}

/// The label set under which one child reading of one device is recorded.
pub open spec fn power_key_of(strip_id: Seq<char>, r: ReadingView) -> PowerKey {
    PowerKey {
        power_strip_id: strip_id,
        device_id: r.child.device_id,
        nickname: r.child.nickname,
        position: r.child.position,
    }
}

/// A wattage is stored as a signed gauge value; the cast truncates.
pub open spec fn watts_gauge(w: u64) -> i64 {
    w as i64
}

pub open spec fn record_info(s: StateView, k: InfoKey) -> StateView {
    StateView { device_info: fam_upsert(s.device_info, k, 1), ..s }
}

pub open spec fn record_reading(s: StateView, strip_id: Seq<char>, r: ReadingView) -> StateView {
    StateView { power_use: fam_upsert(s.power_use, power_key_of(strip_id, r), watts_gauge(r.watts)), ..s }
}

pub open spec fn record_readings(s: StateView, strip_id: Seq<char>, rs: Seq<ReadingView>) -> StateView
    decreases rs.len(),
{
    if rs.len() == 0 {
        s
    } else {
        record_reading(record_readings(s, strip_id, rs.drop_last()), strip_id, rs.last())
    }
}

/// What one device's report leaves in the registry: the identity gauge at 1,
/// then each reading's gauge, in report order; a report that failed before
/// its identity was read leaves the registry untouched.
pub open spec fn record_report(s: StateView, r: ReportView) -> StateView {
    match r {
        ReportView::Failed { .. } => s,
        ReportView::Interrupted { info, readings, .. } => record_readings(
            record_info(s, info),
            info.power_strip_id,
            readings,
        ),
        ReportView::Complete { info, readings } => record_readings(
            record_info(s, info),
            info.power_strip_id,
            readings,
        ),
    }
}

pub open spec fn report_error(r: ReportView) -> Option<Seq<char>> {
    match r {
        ReportView::Failed { error } => Some(error),
        ReportView::Interrupted { error, .. } => Some(error),
        ReportView::Complete { .. } => None,
    }
}

/// What one sweep leaves in the registry: reports are recorded in order up
/// to and including the first failed one; the rest are never queried.
pub open spec fn apply_sweep(s: StateView, rs: Seq<ReportView>) -> StateView
    decreases rs.len(),
{
    if rs.len() == 0 {
        s
    } else if report_error(rs[0]) is Some {
        record_report(s, rs[0])
    } else {
        apply_sweep(record_report(s, rs[0]), rs.drop_first())
    }
}

/// The error of the first failed report of a sweep, if any.
pub open spec fn sweep_error(rs: Seq<ReportView>) -> Option<Seq<char>>
    decreases rs.len(),
{
    if rs.len() == 0 {
        None
    } else if report_error(rs[0]) is Some {
        report_error(rs[0])
    } else {
        sweep_error(rs.drop_first())
    }
}

/// Mathematical value of one stored `power_use_watts` family entry.
pub open spec fn power_fam_view(v: Seq<(PowerUse, i64)>) -> Seq<(PowerKey, i64)> {
    Seq::new(v.len(), |i: int| (v[i].0@, v[i].1))
}

/// Mathematical value of one stored `device_info` family entry.
pub open spec fn info_fam_view(v: Seq<(DeviceInfo, i64)>) -> Seq<(InfoKey, i64)> {
    Seq::new(v.len(), |i: int| (v[i].0@, v[i].1))
}

fn power_key_eq(a: &PowerUse, b: &PowerUse) -> (r: bool)
    ensures
        r == (a@ == b@),
{
    a.power_strip_id == b.power_strip_id && a.device_id == b.device_id && a.nickname == b.nickname
        && a.position == b.position
}

fn info_key_eq(a: &DeviceInfo, b: &DeviceInfo) -> (r: bool)
    ensures
        r == (a@ == b@),
{
    a.power_strip_id == b.power_strip_id && a.model == b.model && a.firmware_version
        == b.firmware_version
}

fn upsert_power(fam: &mut Vec<(PowerUse, i64)>, k: PowerUse, v: i64)
    requires
        fam_wf(power_fam_view(old(fam)@)),
    ensures
        power_fam_view(final(fam)@) == fam_upsert(power_fam_view(old(fam)@), k@, v),
{
    let ghost gfam = power_fam_view(fam@);
    let n = fam.len();
    let mut i: usize = 0;
    while i < n
        invariant
            n == fam.len(),
            i <= n,
            fam@ == old(fam)@,
            gfam == power_fam_view(fam@),
            fam_wf(gfam),
            forall|j: int| 0 <= j < i ==> gfam[j].0 != k@,
        decreases n - i,
    {
        if power_key_eq(&fam[i].0, &k) {
            proof {
                assert(gfam[i as int].0 == k@);
                assert(fam_has_key(gfam, k@));
                let i2 = fam_index_of(gfam, k@);
                assert(0 <= i2 < gfam.len() && gfam[i2].0 == k@);
                assert(i2 == i) by {
                    if i2 < i {
                        assert(gfam[i2].0 != k@);
                    }
                    if i < i2 {
                        assert(gfam[i as int].0 != gfam[i2].0);
                    }
                }
            }
            let _removed = fam.remove(i);
            fam.insert(i, (k, v));
            proof {
                assert(power_fam_view(fam@) =~= fam_upsert(gfam, k@, v));
            }
            return ;
        }
        i += 1;
    }
    proof {
        assert(!fam_has_key(gfam, k@));
    }
    fam.push((k, v));
    proof {
        assert(power_fam_view(fam@) =~= fam_upsert(gfam, k@, v));
    }
}

fn upsert_info(fam: &mut Vec<(DeviceInfo, i64)>, k: DeviceInfo, v: i64)
    requires
        fam_wf(info_fam_view(old(fam)@)),
    ensures
        info_fam_view(final(fam)@) == fam_upsert(info_fam_view(old(fam)@), k@, v),
{
    let ghost gfam = info_fam_view(fam@);
    let n = fam.len();
    let mut i: usize = 0;
    while i < n
        invariant
            n == fam.len(),
            i <= n,
            fam@ == old(fam)@,
            gfam == info_fam_view(fam@),
            fam_wf(gfam),
            forall|j: int| 0 <= j < i ==> gfam[j].0 != k@,
        decreases n - i,
    {
        if info_key_eq(&fam[i].0, &k) {
            proof {
                assert(gfam[i as int].0 == k@);
                assert(fam_has_key(gfam, k@));
                let i2 = fam_index_of(gfam, k@);
                assert(0 <= i2 < gfam.len() && gfam[i2].0 == k@);
                assert(i2 == i) by {
                    if i2 < i {
                        assert(gfam[i2].0 != k@);
                    }
                    if i < i2 {
                        assert(gfam[i as int].0 != gfam[i2].0);
                    }
                }
            }
            let _removed = fam.remove(i);
            fam.insert(i, (k, v));
            proof {
                assert(info_fam_view(fam@) =~= fam_upsert(gfam, k@, v));
            }
            return ;
        }
        i += 1;
    }
    proof {
        assert(!fam_has_key(gfam, k@));
    }
    fam.push((k, v));
    proof {
        assert(info_fam_view(fam@) =~= fam_upsert(gfam, k@, v));
    }
}

/// The registry: both gauge families, owned exclusively by the holder of the
/// one scrape-wide guard.
pub struct AppState {
    power_use: Vec<(PowerUse, i64)>,
    device_info: Vec<(DeviceInfo, i64)>,
}

impl View for AppState {
    type V = StateView;

    closed spec fn view(&self) -> StateView {
        StateView {
            power_use: power_fam_view(self.power_use@),
            device_info: info_fam_view(self.device_info@),
        }
    }
}

proof fn lemma_record_readings_step(s: StateView, strip_id: Seq<char>, rs: Seq<ReadingView>, i: int)
    requires
        0 <= i < rs.len(),
    ensures
        record_readings(s, strip_id, rs.take(i + 1)) == record_reading(
            record_readings(s, strip_id, rs.take(i)),
            strip_id,
            rs[i],
        ),
{
    assert(rs.take(i + 1).drop_last() =~= rs.take(i));
    assert(rs.take(i + 1).last() == rs[i]);
}

impl AppState {
    /// A fresh registry with both families empty.
    pub fn new() -> (r: AppState)
        ensures
            r@ == empty_state(),
            state_wf(r@),
    {
        let r = AppState { power_use: Vec::new(), device_info: Vec::new() };
        proof {
            assert(r@.power_use =~= empty_state().power_use);
            assert(r@.device_info =~= empty_state().device_info);
            assert(r@ == empty_state());
        }
        r
    }

    /// Sets the identity gauge of one device to 1.
    fn record_info_now(&mut self, info: &DeviceInfo)
        requires
            state_wf(old(self)@),
        ensures
            final(self)@ == record_info(old(self)@, info@),
            state_wf(final(self)@),
    {
        let key = DeviceInfo {
            power_strip_id: info.power_strip_id.clone(),
            model: info.model.clone(),
            firmware_version: info.firmware_version.clone(),
        };
        proof {
            lemma_fam_upsert_wf(self@.device_info, key@, 1);
        }
        upsert_info(&mut self.device_info, key, 1);
    }

    /// Records one device's child readings under its strip id, in order.
    fn record_readings_now(&mut self, strip_id: &String, readings: &Vec<ChildReading>)
        requires
            state_wf(old(self)@),
        ensures
            final(self)@ == record_readings(old(self)@, strip_id@, readings.deep_view()),
            state_wf(final(self)@),
    {
        let ghost rviews = readings.deep_view();
        let n = readings.len();
        let mut i: usize = 0;
        proof {
            assert(rviews.take(0) =~= Seq::<ReadingView>::empty());
        }
        while i < n
            invariant
                state_wf(self@),
                n == readings.len(),
                i <= n,
                rviews == readings.deep_view(),
                self@ == record_readings(old(self)@, strip_id@, rviews.take(i as int)),
            decreases n - i,
        {
            let rd = &readings[i];
            let key = PowerUse {
                power_strip_id: strip_id.clone(),
                device_id: rd.child.device_id.clone(),
                nickname: rd.child.nickname.clone(),
                position: rd.child.position,
            };
            let v: i64 = #[verifier::truncate] (rd.watts as i64);
            proof {
                assert(rviews[i as int] == rd@);
                assert(key@ == power_key_of(strip_id@, rviews[i as int]));
                lemma_fam_upsert_wf(self@.power_use, key@, v);
                lemma_record_readings_step(old(self)@, strip_id@, rviews, i as int);
            }
            upsert_power(&mut self.power_use, key, v);
            i += 1;
        }
        proof {
            assert(rviews.take(n as int) =~= rviews);
        }
    }

    /// Records one device's report: the identity gauge first, then every
    /// reading the sweep got to before it stopped.
    fn record_report_now(&mut self, report: &DeviceReport)
        requires
            state_wf(old(self)@),
        ensures
            final(self)@ == record_report(old(self)@, report@),
            state_wf(final(self)@),
    {
        match report {
            DeviceReport::Failed { .. } => {
            },
            DeviceReport::Interrupted { info, readings, .. } => {
                self.record_info_now(info);
                self.record_readings_now(&info.power_strip_id, readings);
            },
            DeviceReport::Complete { info, readings } => {
                self.record_info_now(info);
                self.record_readings_now(&info.power_strip_id, readings);
            },
        }
    }

    /// One refresh sweep. Reports are folded into the registry in
    /// configuration order; the first failed report ends the sweep and its
    /// error is the sweep's error, with everything read up to that point,
    /// and nothing after it, recorded. Label sets never seen this sweep keep
    /// their last recorded value.
    pub fn update_metrics(&mut self, reports: &Vec<DeviceReport>) -> (r: Result<(), String>)
        requires
            state_wf(old(self)@),
        ensures
            final(self)@ == apply_sweep(old(self)@, reports.deep_view()),
            state_wf(final(self)@),
            r is Ok <==> sweep_error(reports.deep_view()) is None,
            r matches Err(e) ==> Some(e@) == sweep_error(reports.deep_view()),
    {
        let ghost rviews = reports.deep_view();
        let n = reports.len();
        let mut idx: usize = 0;
        proof {
            assert(rviews.skip(0) =~= rviews);
        }
        while idx < n
            invariant
                state_wf(self@),
                n == reports.len(),
                idx <= n,
                rviews == reports.deep_view(),
                apply_sweep(old(self)@, rviews) == apply_sweep(self@, rviews.skip(idx as int)),
                sweep_error(rviews) == sweep_error(rviews.skip(idx as int)),
            decreases n - idx,
        {
            let report = &reports[idx];
            let ghost rest = rviews.skip(idx as int);
            proof {
                assert(rest[0] == rviews[idx as int]);
                assert(rest.drop_first() =~= rviews.skip(idx as int + 1));
            }
            let err: Option<&String> = match report {
                DeviceReport::Failed { error } => Some(error),
                DeviceReport::Interrupted { error, .. } => Some(error),
                DeviceReport::Complete { .. } => None,
            };
            self.record_report_now(report);
            match err {
                Some(error) => {
                    return Err(error.clone());
                },
                None => {
                },
            }
            idx += 1;
        }
        proof {
            assert(rviews.skip(n as int) =~= Seq::<ReportView>::empty());
        }
        Ok(())
    }

    /// Serializes the registry as OpenMetrics text, exactly as
    /// `crate::encoding::spec_encode` lays it out.
    pub fn encode(&self) -> (r: String)
        ensures
            r@ == spec_encode(self@),
    {
        let mut out = String::new();
        out.append("# HELP power_use_watts Current power use in watts.\n");
        out.append("# TYPE power_use_watts gauge\n");
        let ghost header = out@;
        let ghost pfam = power_fam_view(self.power_use@);
        let n = self.power_use.len();
        let mut i: usize = 0;
        proof {
            assert(pfam.take(0) =~= Seq::<(PowerKey, i64)>::empty());
            assert(out@ =~= header + power_lines(pfam.take(0)));
        }
        while i < n
            invariant
                n == self.power_use.len(),
                i <= n,
                pfam == power_fam_view(self.power_use@),
                out@ == header + power_lines(pfam.take(i as int)),
            decreases n - i,
        {
            let entry = &self.power_use[i];
            push_power_line(&mut out, &entry.0, entry.1);
            proof {
                assert(pfam.take(i as int + 1).drop_last() =~= pfam.take(i as int));
                assert(pfam.take(i as int + 1).last() == (entry.0@, entry.1));
                assert(out@ =~= header + power_lines(pfam.take(i as int + 1)));
            }
            i += 1;
        }
        proof {
            assert(pfam.take(n as int) =~= pfam);
        }
        out.append("# HELP device_info Device information.\n");
        out.append("# TYPE device_info gauge\n");
        let ghost header2 = out@;
        let ghost ifam = info_fam_view(self.device_info@);
        let m = self.device_info.len();
        let mut j: usize = 0;
        proof {
            assert(ifam.take(0) =~= Seq::<(InfoKey, i64)>::empty());
            assert(out@ =~= header2 + info_lines(ifam.take(0)));
        }
        while j < m
            invariant
                m == self.device_info.len(),
                j <= m,
                ifam == info_fam_view(self.device_info@),
                header2 == header + power_lines(pfam) + "# HELP device_info Device information.\n"@
                    + "# TYPE device_info gauge\n"@,
                out@ == header2 + info_lines(ifam.take(j as int)),
            decreases m - j,
        {
            let entry = &self.device_info[j];
            push_info_line(&mut out, &entry.0, entry.1);
            proof {
                assert(ifam.take(j as int + 1).drop_last() =~= ifam.take(j as int));
                assert(ifam.take(j as int + 1).last() == (entry.0@, entry.1));
                assert(out@ =~= header2 + info_lines(ifam.take(j as int + 1)));
            }
            j += 1;
        }
        proof {
            assert(ifam.take(m as int) =~= ifam);
        }
        out.append("# EOF\n");
        proof {
            assert(out@ =~= spec_encode(self@));
        }
        out
    }
}

} // verus!
