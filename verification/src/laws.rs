//! Sweep-level laws of the registry: what a scrape from a fresh registry
//! contains, that a repeated scrape under unchanged device state changes
//! nothing, and how a strip's children fan out into series.

use vstd::prelude::*;

use crate::device::{InfoKey, PowerKey};
use crate::encoding::spec_encode;
use crate::metrics::{
    apply_sweep, empty_state, fam_has_key, fam_upsert, fam_value, fam_wf, power_key_of,
    record_info, record_reading, record_readings, record_report, report_error, state_wf,
    sweep_error, watts_gauge, ReadingView, ReportView, StateView,
};
use crate::metrics::{lemma_fam_upsert_same, lemma_fam_upsert_wf};

verus! {

/// The identity a report carries; reports that failed before their identity
/// query carry none.
pub open spec fn report_info(r: ReportView) -> InfoKey
    recommends
        !(r is Failed),
{
    match r {
        ReportView::Failed { .. } => arbitrary(),
        ReportView::Interrupted { info, .. } => info,
        ReportView::Complete { info, .. } => info,
    }
}

/// The readings a report carries.
pub open spec fn report_readings(r: ReportView) -> Seq<ReadingView> {
    match r {
        ReportView::Failed { .. } => Seq::empty(),
        ReportView::Interrupted { readings, .. } => readings,
        ReportView::Complete { readings, .. } => readings,
    }
}

/// The power-family entries one device's readings produce, in order.
pub open spec fn power_entries(strip_id: Seq<char>, rs: Seq<ReadingView>) -> Seq<(PowerKey, i64)>
    decreases rs.len(),
{
    if rs.len() == 0 {
        Seq::empty()
    } else {
        power_entries(strip_id, rs.drop_last()).push(
            (power_key_of(strip_id, rs.last()), watts_gauge(rs.last().watts)),
        )
    }
}

/// The identity-family entries a clean sweep produces, one per device.
pub open spec fn sweep_info_entries(rs: Seq<ReportView>) -> Seq<(InfoKey, i64)>
    decreases rs.len(),
{
    if rs.len() == 0 {
        Seq::empty()
    } else {
        sweep_info_entries(rs.drop_last()).push((report_info(rs.last()), 1))
    }
}

/// The power-family entries a clean sweep produces, device by device.
pub open spec fn sweep_power_entries(rs: Seq<ReportView>) -> Seq<(PowerKey, i64)>
    decreases rs.len(),
{
    if rs.len() == 0 {
        Seq::empty()
    } else {
        sweep_power_entries(rs.drop_last()) + power_entries(
            report_info(rs.last()).power_strip_id,
            report_readings(rs.last()),
        )
    }
}

/// One device's readings produce one power entry per reading, in reading
/// order, each keyed by its own child id, nickname and position under the
/// device's strip id, valued at that reading's wattage.
pub proof fn lemma_power_entries_index(strip_id: Seq<char>, rs: Seq<ReadingView>)
    ensures
        power_entries(strip_id, rs).len() == rs.len(),
        forall|i: int|
            0 <= i < rs.len() ==> power_entries(strip_id, rs)[i] == (
                power_key_of(strip_id, rs[i]),
                watts_gauge(rs[i].watts),
            ),
    decreases rs.len(),
{
    if rs.len() > 0 {
        lemma_power_entries_index(strip_id, rs.drop_last());
        assert(forall|i: int| 0 <= i < rs.len() - 1 ==> rs.drop_last()[i] == rs[i]);
    }
}

/// A clean sweep produces one identity entry per report, in sweep order,
/// each at gauge value 1.
pub proof fn lemma_info_entries_index(rs: Seq<ReportView>)
    ensures
        sweep_info_entries(rs).len() == rs.len(),
        forall|i: int|
            0 <= i < rs.len() ==> sweep_info_entries(rs)[i] == (report_info(rs[i]), 1i64),
    decreases rs.len(),
{
    if rs.len() > 0 {
        lemma_info_entries_index(rs.drop_last());
        assert(forall|i: int| 0 <= i < rs.len() - 1 ==> rs.drop_last()[i] == rs[i]);
    }
}

proof fn lemma_info_entries_cons(rs: Seq<ReportView>)
    requires
        rs.len() > 0,
    ensures
        sweep_info_entries(rs) == seq![(report_info(rs[0]), 1i64)] + sweep_info_entries(
            rs.drop_first(),
        ),
    decreases rs.len(),
{
    if rs.len() == 1 {
        assert(rs.drop_last() =~= Seq::<ReportView>::empty());
        assert(rs.drop_first() =~= Seq::<ReportView>::empty());
        assert(sweep_info_entries(rs) =~= seq![(report_info(rs[0]), 1i64)]
            + sweep_info_entries(rs.drop_first()));
    } else {
        lemma_info_entries_cons(rs.drop_last());
        assert(rs.drop_last()[0] == rs[0]);
        assert(rs.drop_last().drop_first() =~= rs.drop_first().drop_last());
        assert(rs.drop_first().last() == rs.last());
        assert(rs.drop_first().len() > 0);
        assert(sweep_info_entries(rs) =~= seq![(report_info(rs[0]), 1i64)] + sweep_info_entries(
            rs.drop_first(),
        ));
    }
}

proof fn lemma_power_entries_cons(rs: Seq<ReportView>)
    requires
        rs.len() > 0,
    ensures
        sweep_power_entries(rs) == power_entries(
            report_info(rs[0]).power_strip_id,
            report_readings(rs[0]),
        ) + sweep_power_entries(rs.drop_first()),
    decreases rs.len(),
{
    if rs.len() == 1 {
        assert(rs.drop_last() =~= Seq::<ReportView>::empty());
        assert(rs.drop_first() =~= Seq::<ReportView>::empty());
        assert(sweep_power_entries(rs) =~= power_entries(
            report_info(rs[0]).power_strip_id,
            report_readings(rs[0]),
        ) + sweep_power_entries(rs.drop_first()));
    } else {
        lemma_power_entries_cons(rs.drop_last());
        assert(rs.drop_last()[0] == rs[0]);
        assert(rs.drop_last().drop_first() =~= rs.drop_first().drop_last());
        assert(rs.drop_first().last() == rs.last());
        assert(rs.drop_first().len() > 0);
        assert(sweep_power_entries(rs) =~= power_entries(
            report_info(rs[0]).power_strip_id,
            report_readings(rs[0]),
        ) + sweep_power_entries(rs.drop_first()));
    }
}

/// A sweep whose reports are all complete has no error.
pub proof fn lemma_all_complete_no_error(rs: Seq<ReportView>)
    requires
        forall|i: int| 0 <= i < rs.len() ==> rs[i] is Complete,
    ensures
        sweep_error(rs) is None,
    decreases rs.len(),
{
    if rs.len() > 0 {
        assert(rs[0] is Complete);
        assert(forall|i: int|
            0 <= i < rs.drop_first().len() ==> rs.drop_first()[i] == rs[i + 1]);
        lemma_all_complete_no_error(rs.drop_first());
    }
}

proof fn lemma_record_readings_fresh(s: StateView, strip_id: Seq<char>, rs: Seq<ReadingView>)
    requires
        fam_wf(s.power_use + power_entries(strip_id, rs)),
    ensures
        record_readings(s, strip_id, rs).power_use == s.power_use + power_entries(strip_id, rs),
        record_readings(s, strip_id, rs).device_info == s.device_info,
    decreases rs.len(),
{
    if rs.len() == 0 {
        assert(s.power_use + power_entries(strip_id, rs) =~= s.power_use);
    } else {
        let whole = s.power_use + power_entries(strip_id, rs);
        let prefix = s.power_use + power_entries(strip_id, rs.drop_last());
        assert(prefix =~= whole.drop_last());
        assert(fam_wf(prefix)) by {
            assert(forall|i: int| 0 <= i < prefix.len() ==> prefix[i] == whole[i]);
        }
        lemma_record_readings_fresh(s, strip_id, rs.drop_last());
        let mid = record_readings(s, strip_id, rs.drop_last());
        let k = power_key_of(strip_id, rs.last());
        assert(whole.last().0 == k);
        assert(!fam_has_key(mid.power_use, k)) by {
            if fam_has_key(mid.power_use, k) {
                let i = crate::metrics::fam_index_of(mid.power_use, k);
                assert(0 <= i < mid.power_use.len() && mid.power_use[i].0 == k);
                assert(whole[i].0 == k);
                assert(whole[whole.len() - 1].0 == k);
                assert(i < whole.len() - 1);
            }
        }
        assert(record_readings(s, strip_id, rs).power_use =~= s.power_use + power_entries(
            strip_id,
            rs,
        ));
    }
}

/// One clean sweep over a registry that holds none of the sweep's label sets
/// appends exactly the sweep's entries, in order, to each family.
proof fn lemma_sweep_appends(s: StateView, rs: Seq<ReportView>)
    requires
        forall|i: int| 0 <= i < rs.len() ==> rs[i] is Complete,
        fam_wf(s.device_info + sweep_info_entries(rs)),
        fam_wf(s.power_use + sweep_power_entries(rs)),
    ensures
        apply_sweep(s, rs).device_info == s.device_info + sweep_info_entries(rs),
        apply_sweep(s, rs).power_use == s.power_use + sweep_power_entries(rs),
    decreases rs.len(),
{
    if rs.len() == 0 {
        assert(apply_sweep(s, rs).device_info =~= s.device_info + sweep_info_entries(rs));
        assert(apply_sweep(s, rs).power_use =~= s.power_use + sweep_power_entries(rs));
    } else {
        lemma_info_entries_cons(rs);
        lemma_power_entries_cons(rs);
        let r0 = rs[0];
        let info0 = report_info(r0);
        let e0 = power_entries(info0.power_strip_id, report_readings(r0));
        assert(report_error(r0) is None);
        // the identity key of the first report is fresh in s
        assert(!fam_has_key(s.device_info, info0)) by {
            if fam_has_key(s.device_info, info0) {
                let i = crate::metrics::fam_index_of(s.device_info, info0);
                let whole = s.device_info + sweep_info_entries(rs);
                assert(0 <= i < s.device_info.len() && whole[i].0 == info0);
                assert(whole[s.device_info.len() as int].0 == info0);
            }
        }
        let s1 = record_info(s, info0);
        assert(s1.device_info == s.device_info.push((info0, 1i64)));
        assert(fam_wf(s.power_use + e0)) by {
            let whole = s.power_use + sweep_power_entries(rs);
            let prefix = s.power_use + e0;
            assert(prefix =~= whole.take(prefix.len() as int));
            assert(forall|i: int| 0 <= i < prefix.len() ==> prefix[i] == whole[i]);
        }
        lemma_record_readings_fresh(s1, info0.power_strip_id, report_readings(r0));
        let s2 = record_report(s, r0);
        assert(s2.power_use == s.power_use + e0);
        assert(s2.device_info == s.device_info.push((info0, 1i64)));
        // the tail of the sweep, over the grown registry
        let rest = rs.drop_first();
        assert(forall|i: int| 0 <= i < rest.len() ==> rest[i] == rs[i + 1]);
        assert(s2.device_info + sweep_info_entries(rest) =~= s.device_info + sweep_info_entries(
            rs,
        ));
        assert(s2.power_use + sweep_power_entries(rest) =~= s.power_use + sweep_power_entries(rs));
        lemma_sweep_appends(s2, rest);
        assert(apply_sweep(s, rs) == apply_sweep(s2, rest));
    }
}

/// The registry one scrape after startup: for every fully readable device,
/// exactly one `device_info` series per device at value 1 and exactly one
/// `power_use_watts` series per child reading, in sweep order, and nothing
/// else. Device identities and child label sets are pairwise distinct, as
/// the data model has them.
pub proof fn lemma_first_scrape(rs: Seq<ReportView>)
    requires
        forall|i: int| 0 <= i < rs.len() ==> rs[i] is Complete,
        fam_wf(sweep_info_entries(rs)),
        fam_wf(sweep_power_entries(rs)),
    ensures
        sweep_error(rs) is None,
        apply_sweep(empty_state(), rs).device_info == sweep_info_entries(rs),
        apply_sweep(empty_state(), rs).power_use == sweep_power_entries(rs),
{
    lemma_all_complete_no_error(rs);
    assert(empty_state().device_info + sweep_info_entries(rs) =~= sweep_info_entries(rs));
    assert(empty_state().power_use + sweep_power_entries(rs) =~= sweep_power_entries(rs));
    lemma_sweep_appends(empty_state(), rs);
}

/// One family entry as recorded: the family has its label set, at its value.
pub open spec fn holds_entry<K>(fam: Seq<(K, i64)>, e: (K, i64)) -> bool {
    fam_has_key(fam, e.0) && fam_value(fam, e.0) == e.1
}

/// A family holds every one of the given entries.
pub open spec fn fam_holds<K>(fam: Seq<(K, i64)>, entries: Seq<(K, i64)>) -> bool {
    forall|i: int| 0 <= i < entries.len() ==> #[trigger] holds_entry(fam, entries[i])
}

proof fn lemma_record_readings_keeps_info(s: StateView, strip_id: Seq<char>, rs: Seq<ReadingView>)
    ensures
        record_readings(s, strip_id, rs).device_info == s.device_info,
    decreases rs.len(),
{
    if rs.len() > 0 {
        lemma_record_readings_keeps_info(s, strip_id, rs.drop_last());
    }
}

proof fn lemma_record_readings_wf(s: StateView, strip_id: Seq<char>, rs: Seq<ReadingView>)
    requires
        state_wf(s),
    ensures
        state_wf(record_readings(s, strip_id, rs)),
    decreases rs.len(),
{
    if rs.len() > 0 {
        lemma_record_readings_wf(s, strip_id, rs.drop_last());
        let mid = record_readings(s, strip_id, rs.drop_last());
        lemma_fam_upsert_wf(
            mid.power_use,
            power_key_of(strip_id, rs.last()),
            watts_gauge(rs.last().watts),
        );
    }
}

proof fn lemma_record_report_wf(s: StateView, r: ReportView)
    requires
        state_wf(s),
    ensures
        state_wf(record_report(s, r)),
{
    match r {
        ReportView::Failed { .. } => {
        },
        ReportView::Interrupted { info, readings, .. } => {
            lemma_fam_upsert_wf(s.device_info, info, 1i64);
            lemma_record_readings_wf(record_info(s, info), info.power_strip_id, readings);
        },
        ReportView::Complete { info, readings } => {
            lemma_fam_upsert_wf(s.device_info, info, 1i64);
            lemma_record_readings_wf(record_info(s, info), info.power_strip_id, readings);
        },
    }
}

/// A sweep leaves the registry well formed: label sets stay pairwise
/// distinct in each family.
pub proof fn lemma_apply_sweep_wf(s: StateView, rs: Seq<ReportView>)
    requires
        state_wf(s),
    ensures
        state_wf(apply_sweep(s, rs)),
    decreases rs.len(),
{
    if rs.len() > 0 {
        lemma_record_report_wf(s, rs[0]);
        if report_error(rs[0]) is None {
            lemma_apply_sweep_wf(record_report(s, rs[0]), rs.drop_first());
        }
    }
}

proof fn lemma_record_readings_frame(
    s: StateView,
    strip_id: Seq<char>,
    rs: Seq<ReadingView>,
    k: PowerKey,
)
    requires
        state_wf(s),
        forall|i: int| 0 <= i < rs.len() ==> power_key_of(strip_id, #[trigger] rs[i]) != k,
    ensures
        fam_has_key(record_readings(s, strip_id, rs).power_use, k) == fam_has_key(s.power_use, k),
        fam_has_key(s.power_use, k) ==> fam_value(record_readings(s, strip_id, rs).power_use, k)
            == fam_value(s.power_use, k),
    decreases rs.len(),
{
    if rs.len() > 0 {
        lemma_record_readings_frame(s, strip_id, rs.drop_last(), k);
        lemma_record_readings_wf(s, strip_id, rs.drop_last());
        let mid = record_readings(s, strip_id, rs.drop_last());
        let klast = power_key_of(strip_id, rs.last());
        lemma_fam_upsert_wf(mid.power_use, klast, watts_gauge(rs.last().watts));
        assert(klast != k);
    }
}

proof fn lemma_record_report_frame_power(s: StateView, r: ReportView, k: PowerKey)
    requires
        state_wf(s),
        forall|i: int|
            0 <= i < report_readings(r).len() ==> power_key_of(
                report_info(r).power_strip_id,
                #[trigger] report_readings(r)[i],
            ) != k,
    ensures
        fam_has_key(record_report(s, r).power_use, k) == fam_has_key(s.power_use, k),
        fam_has_key(s.power_use, k) ==> fam_value(record_report(s, r).power_use, k) == fam_value(
            s.power_use,
            k,
        ),
{
    if !(r is Failed) {
        let info = report_info(r);
        lemma_fam_upsert_wf(s.device_info, info, 1i64);
        lemma_record_readings_frame(record_info(s, info), info.power_strip_id, report_readings(r), k);
    }
}

proof fn lemma_record_report_frame_info(s: StateView, r: ReportView, k: InfoKey)
    requires
        state_wf(s),
        r is Failed || report_info(r) != k,
    ensures
        fam_has_key(record_report(s, r).device_info, k) == fam_has_key(s.device_info, k),
        fam_has_key(s.device_info, k) ==> fam_value(record_report(s, r).device_info, k)
            == fam_value(s.device_info, k),
{
    if !(r is Failed) {
        let info = report_info(r);
        lemma_fam_upsert_wf(s.device_info, info, 1i64);
        lemma_record_readings_keeps_info(
            record_info(s, info),
            info.power_strip_id,
            report_readings(r),
        );
    }
}

proof fn lemma_record_readings_holds(s: StateView, strip_id: Seq<char>, rs: Seq<ReadingView>)
    requires
        state_wf(s),
        fam_wf(power_entries(strip_id, rs)),
    ensures
        fam_holds(record_readings(s, strip_id, rs).power_use, power_entries(strip_id, rs)),
    decreases rs.len(),
{
    let fin = record_readings(s, strip_id, rs);
    let entries = power_entries(strip_id, rs);
    if rs.len() > 0 {
        let pre = power_entries(strip_id, rs.drop_last());
        assert(pre =~= entries.drop_last());
        assert(fam_wf(pre)) by {
            assert(forall|i: int| 0 <= i < pre.len() ==> pre[i] == entries[i]);
        }
        lemma_record_readings_holds(s, strip_id, rs.drop_last());
        lemma_record_readings_wf(s, strip_id, rs.drop_last());
        let mid = record_readings(s, strip_id, rs.drop_last());
        let klast = power_key_of(strip_id, rs.last());
        let vlast = watts_gauge(rs.last().watts);
        assert(entries.last() == (klast, vlast));
        lemma_fam_upsert_wf(mid.power_use, klast, vlast);
        assert(fin.power_use == fam_upsert(mid.power_use, klast, vlast));
        assert forall|i: int| 0 <= i < entries.len() implies #[trigger] holds_entry(
            fin.power_use,
            entries[i],
        ) by {
            if i < entries.len() - 1 {
                assert(entries[i] == pre[i]);
                assert(holds_entry(mid.power_use, entries[i]));
                assert(entries[i].0 != klast);
            } else {
                assert(entries[i] == (klast, vlast));
            }
        }
    }
}

proof fn lemma_apply_sweep_frame_power(s: StateView, rs: Seq<ReportView>, k: PowerKey)
    requires
        state_wf(s),
        forall|i: int|
            0 <= i < sweep_power_entries(rs).len() ==> (#[trigger] sweep_power_entries(rs)[i]).0
                != k,
    ensures
        fam_has_key(apply_sweep(s, rs).power_use, k) == fam_has_key(s.power_use, k),
        fam_has_key(s.power_use, k) ==> fam_value(apply_sweep(s, rs).power_use, k) == fam_value(
            s.power_use,
            k,
        ),
    decreases rs.len(),
{
    if rs.len() > 0 {
        lemma_power_entries_cons(rs);
        let r0 = rs[0];
        let e0 = power_entries(report_info(r0).power_strip_id, report_readings(r0));
        let whole = sweep_power_entries(rs);
        assert(forall|i: int| 0 <= i < e0.len() ==> e0[i] == whole[i]);
        lemma_power_entries_index(report_info(r0).power_strip_id, report_readings(r0));
        assert forall|i: int| 0 <= i < report_readings(r0).len() implies power_key_of(
            report_info(r0).power_strip_id,
            #[trigger] report_readings(r0)[i],
        ) != k by {
            assert(e0[i] == (
                power_key_of(report_info(r0).power_strip_id, report_readings(r0)[i]),
                watts_gauge(report_readings(r0)[i].watts),
            ));
            assert(whole[i].0 != k);
        }
        lemma_record_report_frame_power(s, r0, k);
        if report_error(r0) is None {
            lemma_record_report_wf(s, r0);
            let rest = rs.drop_first();
            let restp = sweep_power_entries(rest);
            assert(forall|i: int| 0 <= i < restp.len() ==> restp[i] == whole[e0.len() + i]);
            lemma_apply_sweep_frame_power(record_report(s, r0), rest, k);
        }
    }
}

proof fn lemma_apply_sweep_frame_info(s: StateView, rs: Seq<ReportView>, k: InfoKey)
    requires
        state_wf(s),
        forall|i: int|
            0 <= i < sweep_info_entries(rs).len() ==> (#[trigger] sweep_info_entries(rs)[i]).0
                != k,
    ensures
        fam_has_key(apply_sweep(s, rs).device_info, k) == fam_has_key(s.device_info, k),
        fam_has_key(s.device_info, k) ==> fam_value(apply_sweep(s, rs).device_info, k)
            == fam_value(s.device_info, k),
    decreases rs.len(),
{
    if rs.len() > 0 {
        lemma_info_entries_cons(rs);
        let r0 = rs[0];
        let whole = sweep_info_entries(rs);
        assert(whole[0] == (report_info(r0), 1i64));
        lemma_record_report_frame_info(s, r0, k);
        if report_error(r0) is None {
            lemma_record_report_wf(s, r0);
            let rest = rs.drop_first();
            let resti = sweep_info_entries(rest);
            assert(forall|i: int| 0 <= i < resti.len() ==> resti[i] == whole[1 + i]);
            lemma_apply_sweep_frame_info(record_report(s, r0), rest, k);
        }
    }
}

proof fn lemma_sweep_holds(s: StateView, rs: Seq<ReportView>)
    requires
        state_wf(s),
        forall|i: int| 0 <= i < rs.len() ==> rs[i] is Complete,
        fam_wf(sweep_power_entries(rs)),
        fam_wf(sweep_info_entries(rs)),
    ensures
        fam_holds(apply_sweep(s, rs).power_use, sweep_power_entries(rs)),
        fam_holds(apply_sweep(s, rs).device_info, sweep_info_entries(rs)),
    decreases rs.len(),
{
    if rs.len() > 0 {
        lemma_power_entries_cons(rs);
        lemma_info_entries_cons(rs);
        let r0 = rs[0];
        let info0 = report_info(r0);
        let readings0 = report_readings(r0);
        let e0 = power_entries(info0.power_strip_id, readings0);
        let wholep = sweep_power_entries(rs);
        let wholei = sweep_info_entries(rs);
        assert(forall|i: int| 0 <= i < e0.len() ==> e0[i] == wholep[i]);
        assert(wholei[0] == (info0, 1i64));
        lemma_fam_upsert_wf(s.device_info, info0, 1i64);
        let s1 = record_info(s, info0);
        assert(fam_wf(e0)) by {
            assert(forall|i: int| 0 <= i < e0.len() ==> e0[i] == wholep[i]);
        }
        lemma_record_readings_holds(s1, info0.power_strip_id, readings0);
        lemma_record_readings_keeps_info(s1, info0.power_strip_id, readings0);
        let s2 = record_report(s, r0);
        assert(s2 == record_readings(s1, info0.power_strip_id, readings0));
        assert(fam_holds(s2.power_use, e0));
        assert(holds_entry(s2.device_info, (info0, 1i64)));
        lemma_record_report_wf(s, r0);
        let rest = rs.drop_first();
        let restp = sweep_power_entries(rest);
        let resti = sweep_info_entries(rest);
        assert(forall|i: int| 0 <= i < restp.len() ==> restp[i] == wholep[e0.len() + i]);
        assert(forall|i: int| 0 <= i < resti.len() ==> resti[i] == wholei[1 + i]);
        assert(forall|i: int| 0 <= i < rest.len() ==> rest[i] == rs[i + 1]);
        assert(fam_wf(restp));
        assert(fam_wf(resti));
        lemma_sweep_holds(s2, rest);
        let fin = apply_sweep(s2, rest);
        assert(apply_sweep(s, rs) == fin);
        assert forall|i: int| 0 <= i < wholep.len() implies #[trigger] holds_entry(
            fin.power_use,
            wholep[i],
        ) by {
            if i < e0.len() {
                assert(holds_entry(s2.power_use, e0[i]));
                assert forall|l: int| 0 <= l < restp.len() implies (#[trigger] restp[l]).0
                    != e0[i].0 by {
                    assert(restp[l] == wholep[e0.len() + l]);
                }
                lemma_apply_sweep_frame_power(s2, rest, e0[i].0);
                assert(wholep[i] == e0[i]);
            } else {
                assert(wholep[i] == restp[i - e0.len()]);
                assert(holds_entry(fin.power_use, restp[i - e0.len()]));
            }
        }
        assert forall|i: int| 0 <= i < wholei.len() implies #[trigger] holds_entry(
            fin.device_info,
            wholei[i],
        ) by {
            if i == 0 {
                assert forall|l: int| 0 <= l < resti.len() implies (#[trigger] resti[l]).0
                    != info0 by {
                    assert(resti[l] == wholei[1 + l]);
                }
                lemma_apply_sweep_frame_info(s2, rest, info0);
            } else {
                assert(wholei[i] == resti[i - 1]);
                assert(holds_entry(fin.device_info, resti[i - 1]));
            }
        }
    }
}

proof fn lemma_record_readings_noop(s: StateView, strip_id: Seq<char>, rs: Seq<ReadingView>)
    requires
        state_wf(s),
        fam_holds(s.power_use, power_entries(strip_id, rs)),
    ensures
        record_readings(s, strip_id, rs) == s,
    decreases rs.len(),
{
    if rs.len() > 0 {
        let entries = power_entries(strip_id, rs);
        let pre = power_entries(strip_id, rs.drop_last());
        assert(forall|i: int| 0 <= i < pre.len() ==> pre[i] == entries[i]);
        lemma_record_readings_noop(s, strip_id, rs.drop_last());
        let klast = power_key_of(strip_id, rs.last());
        let vlast = watts_gauge(rs.last().watts);
        assert(entries.last() == (klast, vlast));
        assert(holds_entry(s.power_use, (klast, vlast)));
        lemma_fam_upsert_same(s.power_use, klast, vlast);
        assert(record_readings(s, strip_id, rs) == s);
    }
}

proof fn lemma_replay_noop(s: StateView, rs: Seq<ReportView>)
    requires
        state_wf(s),
        forall|i: int| 0 <= i < rs.len() ==> rs[i] is Complete,
        fam_holds(s.power_use, sweep_power_entries(rs)),
        fam_holds(s.device_info, sweep_info_entries(rs)),
    ensures
        apply_sweep(s, rs) == s,
    decreases rs.len(),
{
    if rs.len() > 0 {
        lemma_power_entries_cons(rs);
        lemma_info_entries_cons(rs);
        let r0 = rs[0];
        let info0 = report_info(r0);
        let readings0 = report_readings(r0);
        let e0 = power_entries(info0.power_strip_id, readings0);
        let wholep = sweep_power_entries(rs);
        let wholei = sweep_info_entries(rs);
        assert(wholei[0] == (info0, 1i64));
        assert(holds_entry(s.device_info, (info0, 1i64)));
        lemma_fam_upsert_same(s.device_info, info0, 1i64);
        assert(record_info(s, info0) == s);
        assert(forall|i: int| 0 <= i < e0.len() ==> e0[i] == wholep[i]);
        assert(fam_holds(s.power_use, e0)) by {
            assert forall|i: int| 0 <= i < e0.len() implies #[trigger] holds_entry(
                s.power_use,
                e0[i],
            ) by {
                assert(e0[i] == wholep[i]);
                assert(holds_entry(s.power_use, wholep[i]));
            }
        }
        lemma_record_readings_noop(s, info0.power_strip_id, readings0);
        assert(record_report(s, r0) == s);
        let rest = rs.drop_first();
        let restp = sweep_power_entries(rest);
        let resti = sweep_info_entries(rest);
        assert(forall|i: int| 0 <= i < restp.len() ==> restp[i] == wholep[e0.len() + i]);
        assert(forall|i: int| 0 <= i < resti.len() ==> resti[i] == wholei[1 + i]);
        assert(forall|i: int| 0 <= i < rest.len() ==> rest[i] == rs[i + 1]);
        assert(fam_holds(s.power_use, restp)) by {
            assert forall|i: int| 0 <= i < restp.len() implies #[trigger] holds_entry(
                s.power_use,
                restp[i],
            ) by {
                assert(restp[i] == wholep[e0.len() + i]);
                assert(holds_entry(s.power_use, wholep[e0.len() + i]));
            }
        }
        assert(fam_holds(s.device_info, resti)) by {
            assert forall|i: int| 0 <= i < resti.len() implies #[trigger] holds_entry(
                s.device_info,
                resti[i],
            ) by {
                assert(resti[i] == wholei[1 + i]);
                assert(holds_entry(s.device_info, wholei[1 + i]));
            }
        }
        lemma_replay_noop(s, rest);
        assert(apply_sweep(s, rs) == apply_sweep(record_report(s, r0), rest));
    }
}

/// Two consecutive successful sweeps over unchanged device state: the second
/// changes the registry not at all, so the two expositions are the same
/// text, byte for byte. Device identities and child label sets are pairwise
/// distinct within a sweep, as the data model has them.
pub proof fn lemma_scrape_idempotent(s: StateView, rs: Seq<ReportView>)
    requires
        state_wf(s),
        sweep_error(rs) is None,
        fam_wf(sweep_info_entries(rs)),
        fam_wf(sweep_power_entries(rs)),
    ensures
        apply_sweep(apply_sweep(s, rs), rs) == apply_sweep(s, rs),
        spec_encode(apply_sweep(apply_sweep(s, rs), rs)) == spec_encode(apply_sweep(s, rs)),
{
    lemma_no_error_all_complete(rs);
    lemma_apply_sweep_wf(s, rs);
    lemma_sweep_holds(s, rs);
    lemma_replay_noop(apply_sweep(s, rs), rs);
}

proof fn lemma_record_readings_keeps_key(
    s: StateView,
    strip_id: Seq<char>,
    rs: Seq<ReadingView>,
    k: PowerKey,
)
    requires
        state_wf(s),
        fam_has_key(s.power_use, k),
    ensures
        fam_has_key(record_readings(s, strip_id, rs).power_use, k),
    decreases rs.len(),
{
    if rs.len() > 0 {
        lemma_record_readings_keeps_key(s, strip_id, rs.drop_last(), k);
        lemma_record_readings_wf(s, strip_id, rs.drop_last());
        let mid = record_readings(s, strip_id, rs.drop_last());
        lemma_fam_upsert_wf(
            mid.power_use,
            power_key_of(strip_id, rs.last()),
            watts_gauge(rs.last().watts),
        );
    }
}

/// Label sets are never evicted: whatever series a family holds before a
/// sweep it still holds after it, whatever the sweep's reports say — a
/// series of a vanished device stays at its last recorded value.
pub proof fn lemma_no_eviction(s: StateView, rs: Seq<ReportView>, pk: PowerKey, ik: InfoKey)
    requires
        state_wf(s),
    ensures
        fam_has_key(s.power_use, pk) ==> fam_has_key(apply_sweep(s, rs).power_use, pk),
        fam_has_key(s.device_info, ik) ==> fam_has_key(apply_sweep(s, rs).device_info, ik),
    decreases rs.len(),
{
    if rs.len() > 0 {
        let r0 = rs[0];
        if !(r0 is Failed) {
            let info0 = report_info(r0);
            lemma_fam_upsert_wf(s.device_info, info0, 1i64);
            let s1 = record_info(s, info0);
            if fam_has_key(s.power_use, pk) {
                lemma_record_readings_keeps_key(s1, info0.power_strip_id, report_readings(r0), pk);
            }
            lemma_record_readings_keeps_info(s1, info0.power_strip_id, report_readings(r0));
        }
        if report_error(r0) is None {
            lemma_record_report_wf(s, r0);
            lemma_no_eviction(record_report(s, r0), rs.drop_first(), pk, ik);
        }
    }
}

/// The sweep of a single fully readable device.
pub open spec fn one_device_sweep(info: InfoKey, readings: Seq<ReadingView>) -> Seq<ReportView> {
    seq![ReportView::Complete { info, readings }]
}

/// Power-strip fan-out: a strip reporting its children yields, from a fresh
/// registry, exactly one `power_use_watts` series per child, in listing
/// order, each keyed by that child's own id, nickname and position, all
/// sharing the strip's id, and exactly one `device_info` series. Child label
/// sets are pairwise distinct, as the data model has them.
pub proof fn lemma_strip_fan_out(info: InfoKey, readings: Seq<ReadingView>)
    requires
        fam_wf(power_entries(info.power_strip_id, readings)),
    ensures
        apply_sweep(empty_state(), one_device_sweep(info, readings)).power_use.len()
            == readings.len(),
        forall|i: int|
            0 <= i < readings.len() ==> apply_sweep(
                empty_state(),
                one_device_sweep(info, readings),
            ).power_use[i] == (
                power_key_of(info.power_strip_id, readings[i]),
                watts_gauge(readings[i].watts),
            ),
        apply_sweep(empty_state(), one_device_sweep(info, readings)).device_info == seq![
            (info, 1i64),
        ],
{
    let rs = one_device_sweep(info, readings);
    assert(rs.drop_last() =~= Seq::<ReportView>::empty());
    assert(rs[0] == (ReportView::Complete { info, readings }));
    assert(rs.last() == rs[0]);
    assert(report_info(rs.last()) == info);
    assert(report_readings(rs.last()) == readings);
    assert(sweep_info_entries(Seq::<ReportView>::empty()) =~= Seq::<(InfoKey, i64)>::empty());
    assert(sweep_power_entries(Seq::<ReportView>::empty()) =~= Seq::<(PowerKey, i64)>::empty());
    assert(sweep_info_entries(rs) =~= seq![(info, 1i64)]);
    assert(sweep_power_entries(rs) =~= power_entries(info.power_strip_id, readings));
    assert(fam_wf(sweep_info_entries(rs)));
    lemma_first_scrape(rs);
    lemma_power_entries_index(info.power_strip_id, readings);
}

/// A sweep without error consists of complete reports only.
pub proof fn lemma_no_error_all_complete(rs: Seq<ReportView>)
    requires
        sweep_error(rs) is None,
    ensures
        forall|i: int| 0 <= i < rs.len() ==> rs[i] is Complete,
    decreases rs.len(),
{
    if rs.len() > 0 {
        assert(report_error(rs[0]) is None);
        assert(rs[0] is Complete);
        lemma_no_error_all_complete(rs.drop_first());
        assert(forall|i: int|
            1 <= i < rs.len() ==> rs[i] == rs.drop_first()[i - 1]);
    }
}

} // verus!
