use vstd::prelude::*;

use crate::hula::first_project_index;
use crate::hula::project_description;
use crate::hula::project_link;
use crate::hula::project_link_view;
use crate::hula::HulaProject;
use crate::ids::fresh_uuid;

verus! {

/// What the reconcile logic reads of one Odoo deal: its Odoo id and the
/// attributes mirrored to Hula. The full deal, with its needs and skills,
/// stays with the caller; planned actions refer to deals by index.
pub struct OdooEntity {
    pub odoo_id: i32,
    pub name: String,
    pub description: String,
}

/// One sync-log row: the durable binding between an Odoo deal and the Hula
/// project created for it. At most one row exists per Odoo id.
pub struct OdooProject {
    pub id: String,
    pub hula_id: String,
    pub odoo_id: i32,
    pub name: String,
    pub updated_by: String,
}

/// What is reported back to Odoo for one reconciled deal: the deal's id, the
/// match count Hula computed, and the link to the Hula project.
pub struct ProjectMatch {
    pub id: i32,
    pub matches: i32,
    pub link: String,
}

/// Hula's answer to a project-structure insert or update.
pub struct HulaProjectStructureResponse {
    pub id: String,
    pub matches: i32,
}

/// Connection parameters handed to every Odoo-side script.
pub struct OdooConfig {
    pub odoo_url: String,
    pub odoo_db: String,
    pub odoo_uid: String,
    pub odoo_pw: String,
}

/// Whether the sync log holds a row for this Odoo id.
pub open spec fn log_has_remote(log: Seq<OdooProject>, odoo_id: i32) -> bool {
    exists|k: int| 0 <= k < log.len() && log[k].odoo_id == odoo_id
}

/// Whether no two sync-log rows share an Odoo id; the store's unique index
/// guarantees this of every loaded log.
pub open spec fn unique_remote_ids(log: Seq<OdooProject>) -> bool {
    forall|k1: int, k2: int|
        0 <= k1 < k2 < log.len() ==> (#[trigger] log[k1]).odoo_id != (#[trigger] log[k2]).odoo_id
}

/// Whether a deal's mirrored attributes agree with the Hula project's current
/// values. Agreeing pairs are skipped by the update pass.
pub open spec fn entity_matches_project(e: OdooEntity, p: HulaProject) -> bool {
    e.name@ == p.name@ && e.description@ == project_description(p)
}

/// The first index at or after `from` of a deal with this Odoo id, if any.
pub open spec fn first_entity_index(deals: Seq<OdooEntity>, odoo_id: i32, from: int) -> Option<int>
    decreases deals.len() - from,
{
    if from < 0 || from >= deals.len() {
        None
    } else if deals[from].odoo_id == odoo_id {
        Some(from)
    } else {
        first_entity_index(deals, odoo_id, from + 1)
    }
}

/// One planned update push: the sync-log row it stems from, the Hula project
/// to update, and the deal whose attributes are pushed, each by index.
#[derive(Clone, Copy, PartialEq, Eq, Structural, Debug)]
pub struct UpdateAction {
    pub log_index: usize,
    pub project_index: usize,
    pub entity_index: usize,
}

/// The update pass over the sync log, from row `from` on: for each row whose
/// Hula project still exists and whose deal is in the fetched list, an update
/// is planned exactly when the attributes differ.
pub open spec fn update_plan(
    log: Seq<OdooProject>,
    projects: Seq<HulaProject>,
    deals: Seq<OdooEntity>,
    from: int,
) -> Seq<UpdateAction>
    decreases log.len() - from,
{
    if from < 0 || from >= log.len() {
        Seq::empty()
    } else {
        let rest = update_plan(log, projects, deals, from + 1);
        match first_project_index(projects, log[from].hula_id@, 0) {
            Some(pj) => match first_entity_index(deals, log[from].odoo_id, 0) {
                Some(ej) => if !entity_matches_project(deals[ej], projects[pj]) {
                    seq![
                        UpdateAction {
                            log_index: from as usize,
                            project_index: pj as usize,
                            entity_index: ej as usize,
                        },
                    ] + rest
                } else {
                    rest
                },
                None => rest,
            },
            None => rest,
        }
    }
}

/// Finds the first project carrying this id.
fn find_project(projects: &Vec<HulaProject>, id: &String) -> (r: Option<usize>)
    ensures
        match r {
            Some(j) => j < projects@.len() && first_project_index(projects@, id@, 0) == Some(
                j as int,
            ),
            None => first_project_index(projects@, id@, 0) is None,
        },
{
    let mut j: usize = 0;
    while j < projects.len()
        invariant
            j <= projects@.len(),
            first_project_index(projects@, id@, 0) == first_project_index(projects@, id@, j as int),
        decreases projects@.len() - j,
    {
        if projects[j].id == *id {
            return Some(j);
        }
        j = j + 1;
    }
    None
}

/// Finds the first deal carrying this Odoo id.
fn find_entity(deals: &Vec<OdooEntity>, odoo_id: i32) -> (r: Option<usize>)
    ensures
        match r {
            Some(j) => j < deals@.len() && first_entity_index(deals@, odoo_id, 0) == Some(
                j as int,
            ),
            None => first_entity_index(deals@, odoo_id, 0) is None,
        },
{
    let mut j: usize = 0;
    while j < deals.len()
        invariant
            j <= deals@.len(),
            first_entity_index(deals@, odoo_id, 0) == first_entity_index(deals@, odoo_id, j as int),
        decreases deals@.len() - j,
    {
        if deals[j].odoo_id == odoo_id {
            return Some(j);
        }
        j = j + 1;
    }
    None
}

/// Whether a deal's attributes agree with the Hula project's current values.
pub fn entity_matches(e: &OdooEntity, p: &HulaProject) -> (r: bool)
    ensures
        r == entity_matches_project(*e, *p),
{
    if !(e.name == p.name) {
        return false;
    }
    match &p.description {
        Some(d) => e.description == *d,
        None => {
            let empty = e.description.as_str().is_empty();
            proof {
                if e.description@.len() == 0 {
                    assert(e.description@ =~= Seq::<char>::empty());
                }
            }
            empty
        },
    }
}

/// The update pass: walks the sync log and plans one update push for every
/// row whose Hula project and fetched deal are both found and whose
/// attributes differ. Rows whose project was deleted out-of-band, or whose
/// deal was not fetched, are skipped, as are pairs that already agree.
pub fn plan_updates(
    log: &Vec<OdooProject>,
    projects: &Vec<HulaProject>,
    deals: &Vec<OdooEntity>,
) -> (plan: Vec<UpdateAction>)
    ensures
        plan@ == update_plan(log@, projects@, deals@, 0),
{
    let mut plan: Vec<UpdateAction> = Vec::new();
    let mut i: usize = 0;
    proof {
        assert(plan@ + update_plan(log@, projects@, deals@, 0) =~= update_plan(
            log@,
            projects@,
            deals@,
            0,
        ));
    }
    while i < log.len()
        invariant
            i <= log@.len(),
            update_plan(log@, projects@, deals@, 0) == plan@ + update_plan(
                log@,
                projects@,
                deals@,
                i as int,
            ),
        decreases log@.len() - i,
    {
        let ghost plan_before = plan@;
        let row = &log[i];
        let mut pushed = false;
        let found_project = find_project(projects, &row.hula_id);
        if let Some(pj) = found_project {
            let found_entity = find_entity(deals, row.odoo_id);
            if let Some(ej) = found_entity {
                if !entity_matches(&deals[ej], &projects[pj]) {
                    plan.push(
                        UpdateAction { log_index: i, project_index: pj, entity_index: ej },
                    );
                    pushed = true;
                }
            }
        }
        proof {
            let l = log@;
            let ps = projects@;
            let ds = deals@;
            let here = update_plan(l, ps, ds, i as int);
            let rest = update_plan(l, ps, ds, i as int + 1);
            if pushed {
                assert(here =~= seq![plan@.last()] + rest);
                assert(plan@ =~= plan_before + seq![plan@.last()]);
                assert(plan_before + here =~= plan@ + rest);
            } else {
                assert(here == rest);
            }
        }
        i = i + 1;
    }
    proof {
        assert(plan@ + update_plan(log@, projects@, deals@, log@.len() as int) =~= plan@);
    }
    plan
}

/// Whether the sync log holds a row for this Odoo id.
pub fn log_contains(log: &Vec<OdooProject>, odoo_id: i32) -> (r: bool)
    ensures
        r == log_has_remote(log@, odoo_id),
{
    let mut k: usize = 0;
    while k < log.len()
        invariant
            k <= log@.len(),
            forall|t: int| 0 <= t < k ==> (#[trigger] log@[t]).odoo_id != odoo_id,
        decreases log@.len() - k,
    {
        if log[k].odoo_id == odoo_id {
            return true;
        }
        k = k + 1;
    }
    false
}

/// Whether no two rows of a loaded sync log share an Odoo id; the insert
/// pass requires this, and a log that fails it is corrupt.
pub fn check_unique_remote_ids(log: &Vec<OdooProject>) -> (r: bool)
    ensures
        r == unique_remote_ids(log@),
{
    let mut a: usize = 0;
    while a < log.len()
        invariant
            a <= log@.len(),
            forall|k1: int, k2: int|
                0 <= k1 < k2 < log@.len() && k1 < a ==> (#[trigger] log@[k1]).odoo_id != (
                #[trigger] log@[k2]).odoo_id,
        decreases log@.len() - a,
    {
        let mut b: usize = a + 1;
        while b < log.len()
            invariant
                a < b <= log@.len(),
                a < log@.len(),
                forall|k2: int| a < k2 < b ==> log@[a as int].odoo_id != (#[trigger] log@[k2]).odoo_id,
            decreases log@.len() - b,
        {
            if log[a].odoo_id == log[b].odoo_id {
                proof {
                    assert(!unique_remote_ids(log@));
                }
                return false;
            }
            b = b + 1;
        }
        a = a + 1;
    }
    true
}

/// The first index at or after `from` of a deal whose Odoo id is absent from
/// the sync log, if any: the next insert the pass must push.
pub open spec fn first_needing_insert(
    deals: Seq<OdooEntity>,
    log: Seq<OdooProject>,
    from: int,
) -> Option<int>
    decreases deals.len() - from,
{
    if from < 0 || from >= deals.len() {
        None
    } else if !log_has_remote(log, deals[from].odoo_id) {
        Some(from)
    } else {
        first_needing_insert(deals, log, from + 1)
    }
}

/// The insert pass, run step by step. The caller repeatedly asks for the
/// next deal to insert, performs the push against Hula, and reports the
/// outcome back; a successful insert grows the sync log, so later duplicates
/// of the same Odoo id are seen as already inserted. The pass records one
/// sync-log row and one match per successful insert, and nothing for a
/// failed one.
pub struct InsertPass {
    pub deals: Vec<OdooEntity>,
    pub log: Vec<OdooProject>,
    pub matches: Vec<ProjectMatch>,
    pub hula_url: String,
    pub orig_len: usize,
    pub idx: usize,
    pub pending: bool,
    pub all_ok: bool,
}

impl InsertPass {
    /// The sync-log rows the pass started from.
    pub open spec fn initial_log(self) -> Seq<OdooProject> {
        self.log@.subrange(0, self.orig_len as int)
    }

    /// The rows the pass has added so far.
    pub open spec fn new_rows(self) -> Seq<OdooProject> {
        self.log@.subrange(self.orig_len as int, self.log@.len() as int)
    }

    /// The pass's invariant: the log grows only by rows for deals already
    /// processed, stays free of duplicate Odoo ids, and is mirrored
    /// one-to-one by the recorded matches; while every outcome was a
    /// success, every processed deal is present in the log.
    pub open spec fn wf(self) -> bool {
        &&& self.orig_len <= self.log@.len()
        &&& self.idx <= self.deals@.len()
        &&& unique_remote_ids(self.log@)
        &&& (self.pending ==> self.idx < self.deals@.len() && !log_has_remote(
            self.log@,
            self.deals@[self.idx as int].odoo_id,
        ))
        &&& self.matches@.len() + self.orig_len == self.log@.len()
        &&& (forall|k: int|
            #![trigger self.log@[k]]
            self.orig_len <= k < self.log@.len() ==> {
                &&& self.matches@[k - self.orig_len].id == self.log@[k].odoo_id
                &&& self.matches@[k - self.orig_len].link@ == project_link_view(
                    self.hula_url@,
                    self.log@[k].hula_id@,
                )
                &&& self.log@[k].updated_by@ == "hulasync"@
                &&& exists|j: int|
                    0 <= j < self.idx && (#[trigger] self.deals@[j]).odoo_id == self.log@[k].odoo_id
                        && self.deals@[j].name@ == self.log@[k].name@
            })
        &&& (self.all_ok ==> forall|j: int|
            0 <= j < self.idx ==> log_has_remote(self.log@, (#[trigger] self.deals@[j]).odoo_id))
    }

    /// Starts an insert pass over the fetched deals and the loaded sync log.
    pub fn new(deals: Vec<OdooEntity>, log: Vec<OdooProject>, hula_url: String) -> (p: InsertPass)
        requires
            unique_remote_ids(log@),
        ensures
            p.wf(),
            p.deals@ == deals@,
            p.log@ == log@,
            p.initial_log() == log@,
            p.matches@ == Seq::<ProjectMatch>::empty(),
            p.hula_url == hula_url,
            p.orig_len == log@.len(),
            p.idx == 0,
            !p.pending,
            p.all_ok,
    {
        let orig_len = log.len();
        let p = InsertPass {
            deals,
            log,
            matches: Vec::new(),
            hula_url,
            orig_len,
            idx: 0,
            pending: false,
            all_ok: true,
        };
        proof {
            assert(p.initial_log() =~= p.log@);
        }
        p
    }

    /// Advances past every deal already present in the sync log and returns
    /// the index of the next deal needing an insert, or `None` when the pass
    /// is over. After `Some`, the outcome of the push must be reported
    /// through `resolve_success` or `resolve_failure` before asking again.
    pub fn next(&mut self) -> (r: Option<usize>)
        requires
            old(self).wf(),
            !old(self).pending,
        ensures
            final(self).wf(),
            final(self).deals == old(self).deals,
            final(self).log == old(self).log,
            final(self).matches == old(self).matches,
            final(self).hula_url == old(self).hula_url,
            final(self).orig_len == old(self).orig_len,
            final(self).all_ok == old(self).all_ok,
            match first_needing_insert(old(self).deals@, old(self).log@, old(self).idx as int) {
                Some(j) => r == Some(j as usize) && final(self).idx == j && final(self).pending,
                None => r is None && final(self).idx == old(self).deals@.len()
                    && !final(self).pending,
            },
    {
        while self.idx < self.deals.len()
            invariant
                self.wf(),
                !self.pending,
                self.deals == old(self).deals,
                self.log == old(self).log,
                self.matches == old(self).matches,
                self.hula_url == old(self).hula_url,
                self.orig_len == old(self).orig_len,
                self.all_ok == old(self).all_ok,
                old(self).idx <= self.idx <= self.deals@.len(),
                first_needing_insert(self.deals@, self.log@, old(self).idx as int)
                    == first_needing_insert(self.deals@, self.log@, self.idx as int),
            decreases self.deals@.len() - self.idx,
        {
            let odoo_id = self.deals[self.idx].odoo_id;
            let present = log_contains(&self.log, odoo_id);
            if !present {
                self.pending = true;
                return Some(self.idx);
            }
            self.idx = self.idx + 1;
        }
        None
    }

    /// Records a successful insert push: Hula answered with the new project's
    /// id and a match count. Appends the sync-log row binding the deal to
    /// that project and the match reported back to Odoo, and moves on.
    pub fn resolve_success(&mut self, response: HulaProjectStructureResponse)
        requires
            old(self).wf(),
            old(self).pending,
        ensures
            final(self).wf(),
            !final(self).pending,
            final(self).idx == old(self).idx + 1,
            final(self).all_ok == old(self).all_ok,
            final(self).deals == old(self).deals,
            final(self).hula_url == old(self).hula_url,
            final(self).orig_len == old(self).orig_len,
            final(self).initial_log() == old(self).initial_log(),
            final(self).log@.len() == old(self).log@.len() + 1,
            final(self).log@.drop_last() == old(self).log@,
            final(self).log@.last().odoo_id == old(self).deals@[old(self).idx as int].odoo_id,
            final(self).log@.last().hula_id@ == response.id@,
            final(self).log@.last().name@ == old(self).deals@[old(self).idx as int].name@,
            final(self).log@.last().updated_by@ == "hulasync"@,
            final(self).matches@.len() == old(self).matches@.len() + 1,
            final(self).matches@.drop_last() == old(self).matches@,
            final(self).matches@.last().id == old(self).deals@[old(self).idx as int].odoo_id,
            final(self).matches@.last().matches == response.matches,
            final(self).matches@.last().link@ == project_link_view(
                old(self).hula_url@,
                response.id@,
            ),
    {
        let deal_id = self.deals[self.idx].odoo_id;
        let name = self.deals[self.idx].name.clone();
        let link = project_link(&self.hula_url, &response.id);
        let row = OdooProject {
            id: fresh_uuid(),
            hula_id: response.id,
            odoo_id: deal_id,
            name,
            updated_by: "hulasync".to_owned(),
        };
        self.log.push(row);
        self.matches.push(ProjectMatch { id: deal_id, matches: response.matches, link });
        let total = self.deals.len();
        proof {
            assert(old(self).idx < old(self).deals@.len());
            assert(self.idx < total);
        }
        self.idx = self.idx + 1;
        self.pending = false;
        proof {
            let last = self.log@.len() - 1;
            assert(self.log@.drop_last() =~= old(self).log@);
            assert(self.matches@.drop_last() =~= old(self).matches@);
            assert(self.initial_log() =~= old(self).initial_log());
            assert(forall|k: int| 0 <= k < last ==> #[trigger] self.log@[k] == old(self).log@[k]);
            assert(forall|k: int|
                0 <= k < last - self.orig_len ==> #[trigger] self.matches@[k] == old(
                    self,
                ).matches@[k]);
            assert forall|k1: int, k2: int| 0 <= k1 < k2 < self.log@.len() implies (
            #[trigger] self.log@[k1]).odoo_id != (#[trigger] self.log@[k2]).odoo_id by {
                if k2 == last {
                    assert(!log_has_remote(old(self).log@, deal_id));
                    assert(old(self).log@[k1].odoo_id != deal_id);
                }
            }
            assert forall|k: int|
                #![trigger self.log@[k]]
                self.orig_len <= k < self.log@.len() implies {
                &&& self.matches@[k - self.orig_len].id == self.log@[k].odoo_id
                &&& self.matches@[k - self.orig_len].link@ == project_link_view(
                    self.hula_url@,
                    self.log@[k].hula_id@,
                )
                &&& self.log@[k].updated_by@ == "hulasync"@
                &&& exists|j: int|
                    0 <= j < self.idx && (#[trigger] self.deals@[j]).odoo_id == self.log@[k].odoo_id
                        && self.deals@[j].name@ == self.log@[k].name@
            } by {
                if k < last {
                    assert(old(self).log@[k] == self.log@[k]);
                    let j = choose|j: int|
                        0 <= j < old(self).idx && (#[trigger] old(self).deals@[j]).odoo_id == old(
                            self,
                        ).log@[k].odoo_id && old(self).deals@[j].name@ == old(self).log@[k].name@;
                    assert(0 <= j < self.idx && self.deals@[j].odoo_id == self.log@[k].odoo_id
                        && self.deals@[j].name@ == self.log@[k].name@);
                } else {
                    let j = old(self).idx as int;
                    assert(0 <= j < self.idx && self.deals@[j].odoo_id == self.log@[k].odoo_id
                        && self.deals@[j].name@ == self.log@[k].name@);
                }
            }
            if self.all_ok {
                assert forall|j: int| 0 <= j < self.idx implies log_has_remote(
                    self.log@,
                    (#[trigger] self.deals@[j]).odoo_id,
                ) by {
                    if j < old(self).idx {
                        assert(log_has_remote(old(self).log@, old(self).deals@[j].odoo_id));
                        let k = choose|k: int|
                            0 <= k < old(self).log@.len() && old(self).log@[k].odoo_id == old(
                                self,
                            ).deals@[j].odoo_id;
                        assert(self.log@[k].odoo_id == self.deals@[j].odoo_id);
                    } else {
                        assert(self.log@[last].odoo_id == self.deals@[j].odoo_id);
                    }
                }
            }
        }
    }

    /// Records a failed insert push: nothing is appended, the deal is
    /// skipped, and the pass is no longer all-successful.
    pub fn resolve_failure(&mut self)
        requires
            old(self).wf(),
            old(self).pending,
        ensures
            final(self).wf(),
            !final(self).pending,
            !final(self).all_ok,
            final(self).idx == old(self).idx + 1,
            final(self).deals == old(self).deals,
            final(self).log == old(self).log,
            final(self).matches == old(self).matches,
            final(self).hula_url == old(self).hula_url,
            final(self).orig_len == old(self).orig_len,
            final(self).initial_log() == old(self).initial_log(),
    {
        let total = self.deals.len();
        proof {
            assert(old(self).idx < old(self).deals@.len());
            assert(self.idx < total);
        }
        self.idx = self.idx + 1;
        self.pending = false;
        self.all_ok = false;
    }

    /// Whether the pass has considered every deal and no push is pending.
    pub fn done(&self) -> (r: bool)
        ensures
            r == (self.idx == self.deals@.len() && !self.pending),
    {
        self.idx == self.deals.len() && !self.pending
    }

    /// The row most recently added to the sync log: what a successful insert
    /// must persist.
    pub fn newest_row(&self) -> (r: &OdooProject)
        requires
            self.log@.len() > 0,
        ensures
            *r == self.log@.last(),
    {
        &self.log[self.log.len() - 1]
    }

    /// Ends the pass, handing back the grown sync log and the matches to
    /// report to Odoo.
    pub fn finish(self) -> (r: (Vec<OdooProject>, Vec<ProjectMatch>))
        ensures
            r.0@ == self.log@,
            r.1@ == self.matches@,
    {
        (self.log, self.matches)
    }
}

/// Whether an action points into its three lists as the update pass built
/// it: at the first project carrying the row's Hula id, at the first deal
/// carrying the row's Odoo id, and only where the pair's attributes differ.
pub open spec fn update_action_sound(
    a: UpdateAction,
    log: Seq<OdooProject>,
    projects: Seq<HulaProject>,
    deals: Seq<OdooEntity>,
) -> bool {
    &&& a.log_index < log.len()
    &&& a.project_index < projects.len()
    &&& a.entity_index < deals.len()
    &&& first_project_index(projects, log[a.log_index as int].hula_id@, 0) == Some(
        a.project_index as int,
    )
    &&& first_entity_index(deals, log[a.log_index as int].odoo_id, 0) == Some(
        a.entity_index as int,
    )
    &&& !entity_matches_project(deals[a.entity_index as int], projects[a.project_index as int])
}

/// A found index lies in range and carries the sought id.
proof fn lemma_first_project_index_in_range(projects: Seq<HulaProject>, id: Seq<char>, from: int)
    ensures
        match first_project_index(projects, id, from) {
            Some(j) => from <= j < projects.len() && projects[j].id@ == id,
            None => true,
        },
    decreases projects.len() - from,
{
    if 0 <= from < projects.len() && projects[from].id@ != id {
        lemma_first_project_index_in_range(projects, id, from + 1);
    }
}

/// A found index lies in range and carries the sought id.
proof fn lemma_first_entity_index_in_range(deals: Seq<OdooEntity>, odoo_id: i32, from: int)
    ensures
        match first_entity_index(deals, odoo_id, from) {
            Some(j) => from <= j < deals.len() && deals[j].odoo_id == odoo_id,
            None => true,
        },
    decreases deals.len() - from,
{
    if 0 <= from < deals.len() && deals[from].odoo_id != odoo_id {
        lemma_first_entity_index_in_range(deals, odoo_id, from + 1);
    }
}

/// Every action in the update plan is sound: it points at a matched pair
/// whose attributes differ.
pub proof fn lemma_update_plan_sound(
    log: Seq<OdooProject>,
    projects: Seq<HulaProject>,
    deals: Seq<OdooEntity>,
    from: int,
)
    requires
        log.len() <= usize::MAX,
        projects.len() <= usize::MAX,
        deals.len() <= usize::MAX,
    ensures
        forall|m: int|
            0 <= m < update_plan(log, projects, deals, from).len() ==> update_action_sound(
                #[trigger] update_plan(log, projects, deals, from)[m],
                log,
                projects,
                deals,
            ),
    decreases log.len() - from,
{
    if 0 <= from < log.len() {
        lemma_update_plan_sound(log, projects, deals, from + 1);
        let rest = update_plan(log, projects, deals, from + 1);
        let whole = update_plan(log, projects, deals, from);
        lemma_first_project_index_in_range(projects, log[from].hula_id@, 0);
        lemma_first_entity_index_in_range(deals, log[from].odoo_id, 0);
        assert forall|m: int| 0 <= m < whole.len() implies update_action_sound(
            #[trigger] whole[m],
            log,
            projects,
            deals,
        ) by {
            if whole.len() == rest.len() + 1 {
                if m > 0 {
                    assert(whole[m] == rest[m - 1]);
                }
            } else {
                assert(whole[m] == rest[m]);
            }
        }
    }
}

/// Update-skip law: when a sync-log row's Hula project and fetched deal are
/// both found and their display name and description already agree, the
/// update pass plans no push for that row.
pub proof fn lemma_update_skip(
    log: Seq<OdooProject>,
    projects: Seq<HulaProject>,
    deals: Seq<OdooEntity>,
    i: int,
    pj: int,
    ej: int,
)
    requires
        log.len() <= usize::MAX,
        projects.len() <= usize::MAX,
        deals.len() <= usize::MAX,
        0 <= i < log.len(),
        first_project_index(projects, log[i].hula_id@, 0) == Some(pj),
        first_entity_index(deals, log[i].odoo_id, 0) == Some(ej),
        0 <= pj < projects.len(),
        0 <= ej < deals.len(),
        entity_matches_project(deals[ej], projects[pj]),
    ensures
        forall|m: int|
            0 <= m < update_plan(log, projects, deals, 0).len() ==> (#[trigger] update_plan(
                log,
                projects,
                deals,
                0,
            )[m]).log_index != i,
{
    lemma_update_plan_sound(log, projects, deals, 0);
    assert forall|m: int| 0 <= m < update_plan(log, projects, deals, 0).len() implies (
    #[trigger] update_plan(log, projects, deals, 0)[m]).log_index != i by {
        let a = update_plan(log, projects, deals, 0)[m];
        if a.log_index == i {
            assert(update_action_sound(a, log, projects, deals));
            assert(a.project_index as int == pj);
            assert(a.entity_index as int == ej);
        }
    }
}

/// Insert-completeness law: after a pass in which every requested insert
/// succeeded, each deal whose Odoo id was absent from the initial sync log
/// owns exactly one new sync-log row and exactly one reported match, both
/// carrying its Odoo id.
pub proof fn lemma_insert_pass_complete(p: InsertPass, j: int)
    requires
        p.wf(),
        p.idx == p.deals@.len(),
        !p.pending,
        p.all_ok,
        0 <= j < p.deals@.len(),
        !log_has_remote(p.initial_log(), p.deals@[j].odoo_id),
    ensures
        exists|k: int|
            p.orig_len <= k < p.log@.len() && (#[trigger] p.log@[k]).odoo_id
                == p.deals@[j].odoo_id,
        forall|k1: int, k2: int|
            p.orig_len <= k1 < p.log@.len() && p.orig_len <= k2 < p.log@.len() && (
            #[trigger] p.log@[k1]).odoo_id == p.deals@[j].odoo_id && (#[trigger] p.log@[k2]).odoo_id
                == p.deals@[j].odoo_id ==> k1 == k2,
        exists|m: int|
            0 <= m < p.matches@.len() && (#[trigger] p.matches@[m]).id == p.deals@[j].odoo_id,
        forall|m1: int, m2: int|
            0 <= m1 < p.matches@.len() && 0 <= m2 < p.matches@.len() && (
            #[trigger] p.matches@[m1]).id == p.deals@[j].odoo_id && (#[trigger] p.matches@[m2]).id
                == p.deals@[j].odoo_id ==> m1 == m2,
{
    let id = p.deals@[j].odoo_id;
    assert(log_has_remote(p.log@, id));
    let k = choose|k: int| 0 <= k < p.log@.len() && p.log@[k].odoo_id == id;
    if k < p.orig_len {
        assert(p.initial_log()[k] == p.log@[k]);
        assert(log_has_remote(p.initial_log(), id));
    }
    assert(p.orig_len <= k < p.log@.len() && p.log@[k].odoo_id == id);
    assert(p.matches@[k - p.orig_len].id == p.log@[k].odoo_id);
    assert forall|m1: int, m2: int|
        0 <= m1 < p.matches@.len() && 0 <= m2 < p.matches@.len() && (#[trigger] p.matches@[m1]).id
            == id && (#[trigger] p.matches@[m2]).id == id implies m1 == m2 by {
        assert(p.matches@[m1].id == p.log@[p.orig_len + m1].odoo_id);
        assert(p.matches@[m2].id == p.log@[p.orig_len + m2].odoo_id);
    }
}

/// When every deal from `from` on is already in the sync log, no insert is
/// requested.
proof fn lemma_all_covered_no_insert(deals: Seq<OdooEntity>, log: Seq<OdooProject>, from: int)
    requires
        0 <= from <= deals.len(),
        forall|j: int|
            from <= j < deals.len() ==> log_has_remote(log, (#[trigger] deals[j]).odoo_id),
    ensures
        first_needing_insert(deals, log, from) is None,
    decreases deals.len() - from,
{
    if from < deals.len() {
        lemma_all_covered_no_insert(deals, log, from + 1);
    }
}

/// Idempotence law: after a pass in which every requested insert succeeded,
/// a second insert pass over the same deals and the grown sync log requests
/// no insert at all — every previously new deal is now in the log.
pub proof fn lemma_insert_pass_idempotent(p: InsertPass)
    requires
        p.wf(),
        p.idx == p.deals@.len(),
        !p.pending,
        p.all_ok,
    ensures
        first_needing_insert(p.deals@, p.log@, 0) is None,
{
    lemma_all_covered_no_insert(p.deals@, p.log@, 0);
}

/// What one script invocation produced, derived from its decoded standard
/// output and the collected error text.
pub struct ScriptOutcome {
    pub ok: bool,
    pub log_text: String,
    pub result: Result<String, String>,
}

/// Classifies a script invocation. An invocation counts as successful
/// exactly when its standard output could be read; the audit text is that
/// output, or else the error text, or else empty; the caller receives the
/// output, or the error text as a failure.
pub fn script_outcome(stdout: Option<String>, error: Option<String>) -> (r: ScriptOutcome)
    ensures
        r.ok == (stdout is Some),
        stdout matches Some(s) ==> r.result == Ok::<String, String>(s) && r.log_text == s,
        stdout is None ==> (error matches Some(e) ==> r.result == Err::<String, String>(e)
            && r.log_text == e),
        stdout is None && error is None ==> r.log_text@ == Seq::<char>::empty() && (
        r.result matches Err(e) && e@ == Seq::<char>::empty()),
{
    match stdout {
        Some(s) => ScriptOutcome { ok: true, log_text: s.clone(), result: Ok(s) },
        None => match error {
            Some(e) => ScriptOutcome { ok: false, log_text: e.clone(), result: Err(e) },
            None => ScriptOutcome { ok: false, log_text: String::new(), result: Err(String::new()) },
        },
    }
}

/// Builds the positional argument list every Odoo-side script receives: the
/// four connection parameters first, then the call's own parameters in
/// order.
pub fn script_args(config: &OdooConfig, additional: &Vec<String>) -> (args: Vec<String>)
    ensures
        args@.len() == 4 + additional@.len(),
        args@[0] == config.odoo_url,
        args@[1] == config.odoo_db,
        args@[2] == config.odoo_uid,
        args@[3] == config.odoo_pw,
        forall|k: int| 0 <= k < additional@.len() ==> args@[4 + k] == #[trigger] additional@[k],
{
    let mut args: Vec<String> = Vec::new();
    args.push(config.odoo_url.clone());
    args.push(config.odoo_db.clone());
    args.push(config.odoo_uid.clone());
    args.push(config.odoo_pw.clone());
    let mut k: usize = 0;
    while k < additional.len()
        invariant
            k <= additional@.len(),
            args@.len() == 4 + k,
            args@[0] == config.odoo_url,
            args@[1] == config.odoo_db,
            args@[2] == config.odoo_uid,
            args@[3] == config.odoo_pw,
            forall|t: int| 0 <= t < k ==> args@[4 + t] == #[trigger] additional@[t],
        decreases additional@.len() - k,
    {
        args.push(additional[k].clone());
        k = k + 1;
    }
    args
}

/// Records the match reported back to Odoo for one successful update push:
/// the deal's id, the match count Hula answered with, and the link to the
/// updated project.
pub fn record_update_match(
    matches: &mut Vec<ProjectMatch>,
    odoo_id: i32,
    match_count: i32,
    hula_url: &String,
    hula_id: &String,
)
    ensures
        final(matches)@.len() == old(matches)@.len() + 1,
        final(matches)@.drop_last() == old(matches)@,
        final(matches)@.last().id == odoo_id,
        final(matches)@.last().matches == match_count,
        final(matches)@.last().link@ == project_link_view(hula_url@, hula_id@),
{
    let link = project_link(hula_url, hula_id);
    matches.push(ProjectMatch { id: odoo_id, matches: match_count, link });
    proof {
        assert(matches@.drop_last() =~= old(matches)@);
    }
}

} // verus!
