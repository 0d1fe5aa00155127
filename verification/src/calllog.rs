use vstd::prelude::*;

use crate::ids::fresh_uuid;
use crate::time::Timestamp;
use crate::time::SECS_PER_MINUTE;

verus! {

/// Length of the call-log retention window, in seconds: rows older than this
/// are discarded by `startup`.
pub const RETENTION_SECS: u64 = 604800;

/// Margin added to the computed incremental-fetch lag, in minutes.
pub const LAG_MARGIN_MINUTES: u64 = 2;

/// One audit row for an invocation of an Odoo-side script: the script path,
/// its positional parameters, whether the invocation produced output, and the
/// raw response.
pub struct OdooCallLog {
    pub id: String,
    pub script: String,
    pub param1: Option<String>,
    pub param2: Option<String>,
    pub param3: Option<String>,
    pub param4: Option<String>,
    pub param5: Option<String>,
    pub param6: Option<String>,
    pub ok: bool,
    pub response: Option<String>,
    pub updated_by: String,
    pub updated_at: Timestamp,
}

/// One audit row for an HTTP call against the Hula service.
pub struct HulaCallLog {
    pub id: String,
    pub hula_id: Option<String>,
    pub odoo_id: i32,
    pub url: String,
    pub verb: String,
    pub payload: String,
    pub status: i32,
    pub response: String,
    pub updated_by: String,
    pub updated_at: Timestamp,
}

/// The text a stored optional parameter carries: an absent parameter is
/// stored as the empty string.
pub open spec fn opt_text(o: Option<String>) -> Seq<char> {
    match o {
        Some(s) => s@,
        None => Seq::empty(),
    }
}

/// Replaces an absent parameter by the empty string, as the call log stores it.
fn or_empty(o: Option<String>) -> (s: String)
    ensures
        s@ == opt_text(o),
{
    match o {
        Some(s) => s,
        None => String::new(),
    }
}

/// Builds an audit row for one script invocation. Every parameter is stored,
/// an absent one as the empty string; the row is attributed to this service.
pub fn new_odoo_call_log(
    script: String,
    param1: Option<String>,
    param2: Option<String>,
    param3: Option<String>,
    param4: Option<String>,
    param5: Option<String>,
    param6: Option<String>,
    ok: bool,
    response: Option<String>,
    now: Timestamp,
) -> (row: OdooCallLog)
    ensures
        row.script == script,
        row.param1 matches Some(p) && p@ == opt_text(param1),
        row.param2 matches Some(p) && p@ == opt_text(param2),
        row.param3 matches Some(p) && p@ == opt_text(param3),
        row.param4 matches Some(p) && p@ == opt_text(param4),
        row.param5 matches Some(p) && p@ == opt_text(param5),
        row.param6 matches Some(p) && p@ == opt_text(param6),
        row.ok == ok,
        row.response matches Some(r) && r@ == opt_text(response),
        row.updated_by@ == "hulasync"@,
        row.updated_at == now,
{
    OdooCallLog {
        id: fresh_uuid(),
        script,
        param1: Some(or_empty(param1)),
        param2: Some(or_empty(param2)),
        param3: Some(or_empty(param3)),
        param4: Some(or_empty(param4)),
        param5: Some(or_empty(param5)),
        param6: Some(or_empty(param6)),
        ok,
        response: Some(or_empty(response)),
        updated_by: "hulasync".to_owned(),
        updated_at: now,
    }
}

/// Builds an audit row for one HTTP call against Hula, attributed to this
/// service.
pub fn new_hula_call_log(
    hula_id: Option<String>,
    odoo_id: i32,
    url: String,
    verb: String,
    payload: String,
    status: i32,
    response: String,
    now: Timestamp,
) -> (row: HulaCallLog)
    ensures
        row.hula_id == hula_id,
        row.odoo_id == odoo_id,
        row.url == url,
        row.verb == verb,
        row.payload == payload,
        row.status == status,
        row.response == response,
        row.updated_by@ == "hulasync"@,
        row.updated_at == now,
{
    HulaCallLog {
        id: fresh_uuid(),
        hula_id,
        odoo_id,
        url,
        verb,
        payload,
        status,
        response,
        updated_by: "hulasync".to_owned(),
        updated_at: now,
    }
}

/// Whether a row written at `at` is still inside the retention window at `now`.
pub open spec fn row_retained(at: Timestamp, now: Timestamp) -> bool {
    at.secs + RETENTION_SECS >= now.secs
}

/// The Odoo call-log rows that survive pruning at `now`, in their original
/// order.
pub open spec fn retained_odoo(rows: Seq<OdooCallLog>, now: Timestamp) -> Seq<OdooCallLog>
    decreases rows.len(),
{
    if rows.len() == 0 {
        Seq::empty()
    } else if row_retained(rows[0].updated_at, now) {
        seq![rows[0]] + retained_odoo(rows.drop_first(), now)
    } else {
        retained_odoo(rows.drop_first(), now)
    }
}

/// The Hula call-log rows that survive pruning at `now`, in their original
/// order.
pub open spec fn retained_hula(rows: Seq<HulaCallLog>, now: Timestamp) -> Seq<HulaCallLog>
    decreases rows.len(),
{
    if rows.len() == 0 {
        Seq::empty()
    } else if row_retained(rows[0].updated_at, now) {
        seq![rows[0]] + retained_hula(rows.drop_first(), now)
    } else {
        retained_hula(rows.drop_first(), now)
    }
}

/// Pruning keeps exactly the rows inside the retention window: every kept row
/// comes from the input and is recent enough, and every recent-enough input
/// row is kept.
pub proof fn lemma_retention_odoo(rows: Seq<OdooCallLog>, now: Timestamp)
    ensures
        forall|k: int|
            #![trigger retained_odoo(rows, now)[k]]
            0 <= k < retained_odoo(rows, now).len() ==> row_retained(
                retained_odoo(rows, now)[k].updated_at,
                now,
            ) && rows.contains(retained_odoo(rows, now)[k]),
        forall|k: int|
            0 <= k < rows.len() && row_retained(#[trigger] rows[k].updated_at, now)
                ==> retained_odoo(rows, now).contains(rows[k]),
    decreases rows.len(),
{
    if rows.len() > 0 {
        lemma_retention_odoo(rows.drop_first(), now);
        let tail = rows.drop_first();
        let rest = retained_odoo(tail, now);
        let whole = retained_odoo(rows, now);
        assert forall|k: int|
            0 <= k < whole.len() implies row_retained(#[trigger] whole[k].updated_at, now)
            && rows.contains(whole[k]) by {
            let k2: int = if row_retained(rows[0].updated_at, now) {
                k - 1
            } else {
                k
            };
            if row_retained(rows[0].updated_at, now) && k == 0 {
                assert(rows[0] == whole[0]);
                assert(rows.contains(whole[k]));
            } else {
                assert(whole[k] == rest[k2]);
                assert(row_retained(rest[k2].updated_at, now) && tail.contains(rest[k2]));
                let j = choose|j: int| 0 <= j < tail.len() && tail[j] == rest[k2];
                assert(tail[j] == rows[j + 1]);
                assert(rows.contains(whole[k]));
            }
        }
        assert forall|k: int|
            0 <= k < rows.len() && row_retained(#[trigger] rows[k].updated_at, now)
            implies whole.contains(rows[k]) by {
            if k == 0 {
                assert(whole[0] == rows[0]);
                assert(whole.contains(rows[0]));
            } else {
                assert(tail[k - 1] == rows[k]);
                assert(rest.contains(tail[k - 1]));
                let j = choose|j: int| 0 <= j < rest.len() && rest[j] == rows[k];
                if row_retained(rows[0].updated_at, now) {
                    assert(whole[j + 1] == rest[j]);
                } else {
                    assert(whole[j] == rest[j]);
                }
                assert(whole.contains(rows[k]));
            }
        }
    }
}

/// As `lemma_retention_odoo`, for the Hula call log.
pub proof fn lemma_retention_hula(rows: Seq<HulaCallLog>, now: Timestamp)
    ensures
        forall|k: int|
            #![trigger retained_hula(rows, now)[k]]
            0 <= k < retained_hula(rows, now).len() ==> row_retained(
                retained_hula(rows, now)[k].updated_at,
                now,
            ) && rows.contains(retained_hula(rows, now)[k]),
        forall|k: int|
            0 <= k < rows.len() && row_retained(#[trigger] rows[k].updated_at, now)
                ==> retained_hula(rows, now).contains(rows[k]),
    decreases rows.len(),
{
    if rows.len() > 0 {
        lemma_retention_hula(rows.drop_first(), now);
        let tail = rows.drop_first();
        let rest = retained_hula(tail, now);
        let whole = retained_hula(rows, now);
        assert forall|k: int|
            0 <= k < whole.len() implies row_retained(#[trigger] whole[k].updated_at, now)
            && rows.contains(whole[k]) by {
            let k2: int = if row_retained(rows[0].updated_at, now) {
                k - 1
            } else {
                k
            };
            if row_retained(rows[0].updated_at, now) && k == 0 {
                assert(rows[0] == whole[0]);
                assert(rows.contains(whole[k]));
            } else {
                assert(whole[k] == rest[k2]);
                assert(row_retained(rest[k2].updated_at, now) && tail.contains(rest[k2]));
                let j = choose|j: int| 0 <= j < tail.len() && tail[j] == rest[k2];
                assert(tail[j] == rows[j + 1]);
                assert(rows.contains(whole[k]));
            }
        }
        assert forall|k: int|
            0 <= k < rows.len() && row_retained(#[trigger] rows[k].updated_at, now)
            implies whole.contains(rows[k]) by {
            if k == 0 {
                assert(whole[0] == rows[0]);
                assert(whole.contains(rows[0]));
            } else {
                assert(tail[k - 1] == rows[k]);
                assert(rest.contains(tail[k - 1]));
                let j = choose|j: int| 0 <= j < rest.len() && rest[j] == rows[k];
                if row_retained(rows[0].updated_at, now) {
                    assert(whole[j + 1] == rest[j]);
                } else {
                    assert(whole[j] == rest[j]);
                }
                assert(whole.contains(rows[k]));
            }
        }
    }
}

/// The point in time before which a row falls out of the retention window:
/// a valid row is retained at `now` exactly when it is not older than this.
pub fn retention_cutoff(now: Timestamp) -> (c: Timestamp)
    ensures
        now.secs >= RETENTION_SECS ==> c.secs == now.secs - RETENTION_SECS,
        now.secs < RETENTION_SECS ==> c.secs == 0,
        forall|t: Timestamp| t.valid() ==> (row_retained(t, now) <==> t.secs >= c.secs),
{
    if now.secs >= RETENTION_SECS {
        Timestamp { secs: now.secs - RETENTION_SECS }
    } else {
        Timestamp { secs: 0 }
    }
}

/// Whether all rows carry timestamps the library's arithmetic accepts.
pub open spec fn odoo_rows_valid(rows: Seq<OdooCallLog>) -> bool {
    forall|k: int| 0 <= k < rows.len() ==> (#[trigger] rows[k].updated_at).valid()
}

/// Whether all rows carry timestamps the library's arithmetic accepts.
pub open spec fn hula_rows_valid(rows: Seq<HulaCallLog>) -> bool {
    forall|k: int| 0 <= k < rows.len() ==> (#[trigger] rows[k].updated_at).valid()
}

fn prune_odoo(rows: Vec<OdooCallLog>, now: Timestamp) -> (kept: Vec<OdooCallLog>)
    requires
        odoo_rows_valid(rows@),
        now.valid(),
    ensures
        kept@ == retained_odoo(rows@, now),
{
    let mut rows = rows;
    let mut kept: Vec<OdooCallLog> = Vec::new();
    let ghost orig = rows@;
    while rows.len() > 0
        invariant
            odoo_rows_valid(rows@),
            now.valid(),
            retained_odoo(orig, now) == kept@ + retained_odoo(rows@, now),
        decreases rows@.len(),
    {
        let ghost before = rows@;
        let row = rows.remove(0);
        assert(rows@ =~= before.drop_first());
        let keep = row.updated_at.secs + RETENTION_SECS >= now.secs;
        if keep {
            kept.push(row);
        }
        proof {
            if row_retained(before[0].updated_at, now) {
                assert(retained_odoo(before, now) =~= seq![before[0]] + retained_odoo(
                    before.drop_first(),
                    now,
                ));
                assert(kept@ + retained_odoo(rows@, now) =~= retained_odoo(orig, now));
            } else {
                assert(kept@ + retained_odoo(rows@, now) =~= retained_odoo(orig, now));
            }
        }
    }
    proof {
        assert(kept@ + retained_odoo(rows@, now) =~= kept@);
    }
    kept
}

fn prune_hula(rows: Vec<HulaCallLog>, now: Timestamp) -> (kept: Vec<HulaCallLog>)
    requires
        hula_rows_valid(rows@),
        now.valid(),
    ensures
        kept@ == retained_hula(rows@, now),
{
    let mut rows = rows;
    let mut kept: Vec<HulaCallLog> = Vec::new();
    let ghost orig = rows@;
    while rows.len() > 0
        invariant
            hula_rows_valid(rows@),
            now.valid(),
            retained_hula(orig, now) == kept@ + retained_hula(rows@, now),
        decreases rows@.len(),
    {
        let ghost before = rows@;
        let row = rows.remove(0);
        assert(rows@ =~= before.drop_first());
        let keep = row.updated_at.secs + RETENTION_SECS >= now.secs;
        if keep {
            kept.push(row);
        }
        proof {
            if row_retained(before[0].updated_at, now) {
                assert(retained_hula(before, now) =~= seq![before[0]] + retained_hula(
                    before.drop_first(),
                    now,
                ));
                assert(kept@ + retained_hula(rows@, now) =~= retained_hula(orig, now));
            } else {
                assert(kept@ + retained_hula(rows@, now) =~= retained_hula(orig, now));
            }
        }
    }
    proof {
        assert(kept@ + retained_hula(rows@, now) =~= kept@);
    }
    kept
}

/// Whether a row counts for the bootstrap search: it must be successful, and,
/// when only full (non-incremental) fetches are sought, its incremental
/// marker — the fifth stored parameter — must be present and empty.
pub open spec fn row_selected(r: OdooCallLog, full_only: bool) -> bool {
    r.ok && (full_only ==> match r.param5 {
        Some(p) => p@.len() == 0,
        None => false,
    })
}

/// Whether index `i` holds the most recent selected row: selected, no
/// selected row is newer, and no earlier selected row is as new.
pub open spec fn is_latest(rows: Seq<OdooCallLog>, full_only: bool, i: int) -> bool {
    &&& 0 <= i < rows.len()
    &&& row_selected(rows[i], full_only)
    &&& forall|j: int|
        0 <= j < rows.len() && row_selected(#[trigger] rows[j], full_only)
            ==> rows[j].updated_at.secs <= rows[i].updated_at.secs
    &&& forall|j: int|
        0 <= j < i && row_selected(#[trigger] rows[j], full_only)
            ==> rows[j].updated_at.secs < rows[i].updated_at.secs
}

/// Whether no row is selected at all.
pub open spec fn none_selected(rows: Seq<OdooCallLog>, full_only: bool) -> bool {
    forall|j: int| 0 <= j < rows.len() ==> !row_selected(#[trigger] rows[j], full_only)
}

/// Finds the most recent selected row, taking the earliest on a timestamp tie.
fn latest_selected(rows: &Vec<OdooCallLog>, full_only: bool) -> (r: Option<usize>)
    ensures
        match r {
            Some(i) => is_latest(rows@, full_only, i as int),
            None => none_selected(rows@, full_only),
        },
{
    let mut best: Option<usize> = None;
    let mut k: usize = 0;
    while k < rows.len()
        invariant
            k <= rows@.len(),
            match best {
                Some(i) => i < k && is_latest(rows@.subrange(0, k as int), full_only, i as int),
                None => none_selected(rows@.subrange(0, k as int), full_only),
            },
        decreases rows@.len() - k,
    {
        let row = &rows[k];
        let selected = row.ok && (!full_only || match &row.param5 {
            Some(p) => p.as_str().is_empty(),
            None => false,
        });
        if selected {
            let replace = match best {
                Some(i) => rows[i].updated_at.secs < row.updated_at.secs,
                None => true,
            };
            if replace {
                best = Some(k);
            }
        }
        proof {
            let sub = rows@.subrange(0, k as int);
            let sub1 = rows@.subrange(0, k as int + 1);
            assert(forall|j: int| 0 <= j < sub.len() ==> sub[j] == sub1[j]);
            assert(sub1[k as int] == rows@[k as int]);
        }
        k = k + 1;
    }
    proof {
        assert(rows@.subrange(0, rows@.len() as int) =~= rows@);
    }
    best
}

/// At most one index holds the most recent selected row.
pub proof fn lemma_latest_unique(rows: Seq<OdooCallLog>, full_only: bool, i1: int, i2: int)
    requires
        is_latest(rows, full_only, i1),
        is_latest(rows, full_only, i2),
    ensures
        i1 == i2,
{
    if i1 < i2 {
        assert(rows[i1].updated_at.secs < rows[i2].updated_at.secs);
        assert(rows[i2].updated_at.secs <= rows[i1].updated_at.secs);
    }
    if i2 < i1 {
        assert(rows[i2].updated_at.secs < rows[i1].updated_at.secs);
        assert(rows[i1].updated_at.secs <= rows[i2].updated_at.secs);
    }
}

/// The incremental-fetch lag in minutes from a reference row written at
/// `row` to `now`: the elapsed whole minutes plus a fixed safety margin.
pub open spec fn lag_minutes(row: Timestamp, now: Timestamp) -> int {
    if now.secs >= row.secs {
        (now.secs - row.secs) / (SECS_PER_MINUTE as int) + LAG_MARGIN_MINUTES
    } else {
        LAG_MARGIN_MINUTES - (row.secs - now.secs) / (SECS_PER_MINUTE as int)
    }
}

fn compute_lag(row: Timestamp, now: Timestamp) -> (lag: i64)
    requires
        row.valid(),
        now.valid(),
    ensures
        lag == lag_minutes(row, now),
{
    if now.secs >= row.secs {
        let m: u64 = (now.secs - row.secs) / SECS_PER_MINUTE;
        (m + LAG_MARGIN_MINUTES) as i64
    } else {
        let m: u64 = (row.secs - now.secs) / SECS_PER_MINUTE;
        LAG_MARGIN_MINUTES as i64 - m as i64
    }
}

/// Derives the incremental-fetch lag from the call log.
///
/// The lag is measured from the most recent successful row. When a successful
/// full-fetch row (one whose incremental marker is empty) exists, that row's
/// calendar day decides whether a fetch already happened today; otherwise the
/// most recent successful row's day decides. When the deciding day is not
/// today, or no row was ever successful, no lag is returned and a full fetch
/// is due.
pub fn bootstrap_lag(rows: &Vec<OdooCallLog>, now: Timestamp) -> (lag: Option<i64>)
    requires
        odoo_rows_valid(rows@),
        now.valid(),
    ensures
        none_selected(rows@, false) ==> lag is None,
        forall|i: int, f: int|
            is_latest(rows@, false, i) && is_latest(rows@, true, f) ==> lag == (
            if rows@[f].updated_at.spec_day() == now.spec_day() {
                Some(lag_minutes(rows@[i].updated_at, now) as i64)
            } else {
                None::<i64>
            }),
        forall|i: int|
            is_latest(rows@, false, i) && none_selected(rows@, true) ==> lag == (
            if rows@[i].updated_at.spec_day() == now.spec_day() {
                Some(lag_minutes(rows@[i].updated_at, now) as i64)
            } else {
                None::<i64>
            }),
{
    let latest = latest_selected(rows, false);
    match latest {
        Some(i) => {
            let latest_full = latest_selected(rows, true);
            let reference = match latest_full {
                Some(f) => rows[f].updated_at,
                None => rows[i].updated_at,
            };
            let lag: Option<i64> = if reference.same_day(&now) {
                Some(compute_lag(rows[i].updated_at, now))
            } else {
                None
            };
            proof {
                assert forall|i2: int, f2: int|
                    is_latest(rows@, false, i2) && is_latest(rows@, true, f2) implies lag == (
                if rows@[f2].updated_at.spec_day() == now.spec_day() {
                    Some(lag_minutes(rows@[i2].updated_at, now) as i64)
                } else {
                    None::<i64>
                }) by {
                    lemma_latest_unique(rows@, false, i as int, i2);
                    if let Some(f) = latest_full {
                        lemma_latest_unique(rows@, true, f as int, f2);
                    }
                }
            }
            lag
        },
        None => None,
    }
}

/// What one bootstrap run leaves behind: both call logs pruned to the
/// retention window, and the incremental-fetch lag, `None` when a full fetch
/// is due.
pub struct StartupOutcome {
    pub odoo_log: Vec<OdooCallLog>,
    pub hula_log: Vec<HulaCallLog>,
    pub lag: Option<i64>,
}

/// Prunes both call logs and derives the incremental-fetch lag from what
/// remains of the Odoo call log.
///
/// The lag is computed from the most recent successful row. When a successful
/// full-fetch row (empty incremental marker) exists, that row's calendar day
/// decides whether a fetch already happened today; the lag itself is always
/// measured from the most recent successful row. When the deciding day is not
/// today, or the log holds no successful row, no lag is returned and a full
/// fetch is due.
pub fn startup(
    odoo_log: Vec<OdooCallLog>,
    hula_log: Vec<HulaCallLog>,
    now: Timestamp,
) -> (r: StartupOutcome)
    requires
        odoo_rows_valid(odoo_log@),
        hula_rows_valid(hula_log@),
        now.valid(),
    ensures
        r.odoo_log@ == retained_odoo(odoo_log@, now),
        r.hula_log@ == retained_hula(hula_log@, now),
        none_selected(r.odoo_log@, false) ==> r.lag is None,
        forall|i: int, f: int|
            is_latest(r.odoo_log@, false, i) && is_latest(r.odoo_log@, true, f) ==> r.lag == (
            if r.odoo_log@[f].updated_at.spec_day() == now.spec_day() {
                Some(lag_minutes(r.odoo_log@[i].updated_at, now) as i64)
            } else {
                None
            }),
        forall|i: int|
            is_latest(r.odoo_log@, false, i) && none_selected(r.odoo_log@, true) ==> r.lag == (
            if r.odoo_log@[i].updated_at.spec_day() == now.spec_day() {
                Some(lag_minutes(r.odoo_log@[i].updated_at, now) as i64)
            } else {
                None
            }),
{
    let kept_odoo = prune_odoo(odoo_log, now);
    let kept_hula = prune_hula(hula_log, now);

    assert(odoo_rows_valid(kept_odoo@)) by {
        lemma_retention_odoo(odoo_log@, now);
        assert forall|k: int|
            0 <= k < kept_odoo@.len() implies (#[trigger] kept_odoo@[k].updated_at).valid() by {
            assert(kept_odoo@[k] == retained_odoo(odoo_log@, now)[k]);
            assert(odoo_log@.contains(kept_odoo@[k]));
            let j = choose|j: int| 0 <= j < odoo_log@.len() && odoo_log@[j] == kept_odoo@[k];
            assert(odoo_log@[j].updated_at.valid());
        }
    }

    let lag = bootstrap_lag(&kept_odoo, now);

    StartupOutcome { odoo_log: kept_odoo, hula_log: kept_hula, lag }
}

} // verus!
