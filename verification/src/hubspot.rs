use vstd::prelude::*;

use crate::digits::dec_str;
use crate::digits::u64_to_string;
use crate::hula::first_project_index;
use crate::hula::HulaProject;
use crate::ids::fresh_uuid;

verus! {

/// The name property of a Hubspot deal, as the deals API reports it.
pub struct HubspotDealName {
    pub value: String,
}

/// The deal properties the reconcile logic reads: the deal's name, and the
/// pipeline stage when the API reported one.
pub struct HubspotProperties {
    pub dealname: HubspotDealName,
    pub dealstage: Option<HubspotDealName>,
}

/// One deal from the Hubspot pipeline.
#[allow(non_snake_case)]
pub struct HubspotDeal {
    pub dealId: u64,
    pub properties: HubspotProperties,
}

/// One page of deals from the Hubspot API.
pub struct HubspotHeader {
    pub deals: Vec<HubspotDeal>,
}

/// The paging cursor sent to the Hubspot API.
pub struct HubspotLimit {
    pub after: u64,
}

/// One sync-log row: the durable binding between a Hubspot deal and the Hula
/// project created for it. At most one row exists per Hubspot id.
pub struct HubspotProject {
    pub id: String,
    pub hula_id: String,
    pub hubspot_id: String,
    pub name: String,
    pub updated_by: String,
}

/// The Hubspot id a deal is logged under: its deal number in decimal.
pub open spec fn deal_remote_id(d: HubspotDeal) -> Seq<char> {
    dec_str(d.dealId as nat)
}

/// Whether the sync log holds a row for this Hubspot id.
pub open spec fn hs_log_has_remote(log: Seq<HubspotProject>, remote_id: Seq<char>) -> bool {
    exists|k: int| 0 <= k < log.len() && log[k].hubspot_id@ == remote_id
}

/// Whether no two sync-log rows share a Hubspot id; the store's unique index
/// guarantees this of every loaded log.
pub open spec fn hs_unique_remote_ids(log: Seq<HubspotProject>) -> bool {
    forall|k1: int, k2: int|
        0 <= k1 < k2 < log.len() ==> (#[trigger] log[k1]).hubspot_id@ != (
        #[trigger] log[k2]).hubspot_id@
}

/// The pipeline stage of a deal, when the API reported one.
pub open spec fn deal_stage(d: HubspotDeal) -> Option<Seq<char>> {
    match d.properties.dealstage {
        Some(s) => Some(s.value@),
        None => None,
    }
}

/// The deals that sit in the given pipeline stage, in their original order.
pub open spec fn deals_in_stage(deals: Seq<HubspotDeal>, stage: Seq<char>) -> Seq<HubspotDeal>
    decreases deals.len(),
{
    if deals.len() == 0 {
        Seq::empty()
    } else if deal_stage(deals[0]) == Some(stage) {
        seq![deals[0]] + deals_in_stage(deals.drop_first(), stage)
    } else {
        deals_in_stage(deals.drop_first(), stage)
    }
}

/// Keeps only the deals in the given pipeline stage; a deal without a
/// reported stage is dropped.
pub fn filter_deals_by_stage(deals: Vec<HubspotDeal>, stage: &String) -> (kept: Vec<HubspotDeal>)
    ensures
        kept@ == deals_in_stage(deals@, stage@),
{
    let mut deals = deals;
    let mut kept: Vec<HubspotDeal> = Vec::new();
    let ghost orig = deals@;
    proof {
        assert(kept@ + deals_in_stage(deals@, stage@) =~= deals_in_stage(orig, stage@));
    }
    while deals.len() > 0
        invariant
            deals_in_stage(orig, stage@) == kept@ + deals_in_stage(deals@, stage@),
        decreases deals@.len(),
    {
        let ghost before = deals@;
        let deal = deals.remove(0);
        assert(deals@ =~= before.drop_first());
        let keep = match &deal.properties.dealstage {
            Some(s) => s.value == *stage,
            None => false,
        };
        proof {
            assert(keep == (deal_stage(before[0]) == Some(stage@)));
        }
        if keep {
            kept.push(deal);
        }
        proof {
            if deal_stage(before[0]) == Some(stage@) {
                assert(deals_in_stage(before, stage@) =~= seq![before[0]] + deals_in_stage(
                    before.drop_first(),
                    stage@,
                ));
            }
            assert(kept@ + deals_in_stage(deals@, stage@) =~= deals_in_stage(orig, stage@));
        }
    }
    proof {
        assert(kept@ + deals_in_stage(deals@, stage@) =~= kept@);
    }
    kept
}

/// The first index at or after `from` of a deal logged under this Hubspot
/// id, if any.
pub open spec fn first_deal_index(
    deals: Seq<HubspotDeal>,
    remote_id: Seq<char>,
    from: int,
) -> Option<int>
    decreases deals.len() - from,
{
    if from < 0 || from >= deals.len() {
        None
    } else if deal_remote_id(deals[from]) == remote_id {
        Some(from)
    } else {
        first_deal_index(deals, remote_id, from + 1)
    }
}

/// One planned update push: the sync-log row it stems from, the Hula project
/// to update, and the deal whose name is pushed, each by index.
#[derive(Clone, Copy, PartialEq, Eq, Structural, Debug)]
pub struct HubspotUpdateAction {
    pub log_index: usize,
    pub project_index: usize,
    pub entity_index: usize,
}

/// The update pass over the sync log, from row `from` on: for each row whose
/// Hula project still exists and whose deal is in the fetched list, an
/// update is planned exactly when the deal's name differs from the
/// project's.
pub open spec fn hs_update_plan(
    log: Seq<HubspotProject>,
    projects: Seq<HulaProject>,
    deals: Seq<HubspotDeal>,
    from: int,
) -> Seq<HubspotUpdateAction>
    decreases log.len() - from,
{
    if from < 0 || from >= log.len() {
        Seq::empty()
    } else {
        let rest = hs_update_plan(log, projects, deals, from + 1);
        match first_project_index(projects, log[from].hula_id@, 0) {
            Some(pj) => match first_deal_index(deals, log[from].hubspot_id@, 0) {
                Some(ej) => if deals[ej].properties.dealname.value@ != projects[pj].name@ {
                    seq![
                        HubspotUpdateAction {
                            log_index: from as usize,
                            project_index: pj as usize,
                            entity_index: ej as usize,
                        },
                    ] + rest
                } else {
                    rest
                },
                None => rest,
            },
            None => rest,
        }
    }
}

/// Finds the first project carrying this id.
fn find_project(projects: &Vec<HulaProject>, id: &String) -> (r: Option<usize>)
    ensures
        match r {
            Some(j) => j < projects@.len() && first_project_index(projects@, id@, 0) == Some(
                j as int,
            ),
            None => first_project_index(projects@, id@, 0) is None,
        },
{
    let mut j: usize = 0;
    while j < projects.len()
        invariant
            j <= projects@.len(),
            first_project_index(projects@, id@, 0) == first_project_index(projects@, id@, j as int),
        decreases projects@.len() - j,
    {
        if projects[j].id == *id {
            return Some(j);
        }
        j = j + 1;
    }
    None
}

/// Finds the first deal logged under this Hubspot id.
fn find_deal(deals: &Vec<HubspotDeal>, remote_id: &String) -> (r: Option<usize>)
    ensures
        match r {
            Some(j) => j < deals@.len() && first_deal_index(deals@, remote_id@, 0) == Some(
                j as int,
            ),
            None => first_deal_index(deals@, remote_id@, 0) is None,
        },
{
    let mut j: usize = 0;
    while j < deals.len()
        invariant
            j <= deals@.len(),
            first_deal_index(deals@, remote_id@, 0) == first_deal_index(
                deals@,
                remote_id@,
                j as int,
            ),
        decreases deals@.len() - j,
    {
        let deal_id = u64_to_string(deals[j].dealId);
        if deal_id == *remote_id {
            return Some(j);
        }
        j = j + 1;
    }
    None
}

/// The update pass: walks the sync log and plans one update push for every
/// row whose Hula project and fetched deal are both found and whose names
/// differ. Rows whose project was deleted out-of-band, or whose deal was not
/// fetched, are skipped, as are pairs whose names already agree.
pub fn plan_hubspot_updates(
    log: &Vec<HubspotProject>,
    projects: &Vec<HulaProject>,
    deals: &Vec<HubspotDeal>,
) -> (plan: Vec<HubspotUpdateAction>)
    ensures
        plan@ == hs_update_plan(log@, projects@, deals@, 0),
{
    let mut plan: Vec<HubspotUpdateAction> = Vec::new();
    let mut i: usize = 0;
    proof {
        assert(plan@ + hs_update_plan(log@, projects@, deals@, 0) =~= hs_update_plan(
            log@,
            projects@,
            deals@,
            0,
        ));
    }
    while i < log.len()
        invariant
            i <= log@.len(),
            hs_update_plan(log@, projects@, deals@, 0) == plan@ + hs_update_plan(
                log@,
                projects@,
                deals@,
                i as int,
            ),
        decreases log@.len() - i,
    {
        let ghost plan_before = plan@;
        let row = &log[i];
        let mut pushed = false;
        let found_project = find_project(projects, &row.hula_id);
        if let Some(pj) = found_project {
            let found_deal = find_deal(deals, &row.hubspot_id);
            if let Some(ej) = found_deal {
                if !(deals[ej].properties.dealname.value == projects[pj].name) {
                    plan.push(
                        HubspotUpdateAction { log_index: i, project_index: pj, entity_index: ej },
                    );
                    pushed = true;
                }
            }
        }
        proof {
            let here = hs_update_plan(log@, projects@, deals@, i as int);
            let rest = hs_update_plan(log@, projects@, deals@, i as int + 1);
            if pushed {
                assert(here =~= seq![plan@.last()] + rest);
                assert(plan@ =~= plan_before + seq![plan@.last()]);
                assert(plan_before + here =~= plan@ + rest);
            } else {
                assert(here == rest);
            }
        }
        i = i + 1;
    }
    proof {
        assert(plan@ + hs_update_plan(log@, projects@, deals@, log@.len() as int) =~= plan@);
    }
    plan
}

/// Whether the sync log holds a row for this Hubspot id.
pub fn hs_log_contains(log: &Vec<HubspotProject>, remote_id: &String) -> (r: bool)
    ensures
        r == hs_log_has_remote(log@, remote_id@),
{
    let mut k: usize = 0;
    while k < log.len()
        invariant
            k <= log@.len(),
            forall|t: int| 0 <= t < k ==> (#[trigger] log@[t]).hubspot_id@ != remote_id@,
        decreases log@.len() - k,
    {
        if log[k].hubspot_id == *remote_id {
            return true;
        }
        k = k + 1;
    }
    false
}

/// Whether no two rows of a loaded sync log share a Hubspot id; the insert
/// pass requires this, and a log that fails it is corrupt.
pub fn check_hs_unique_remote_ids(log: &Vec<HubspotProject>) -> (r: bool)
    ensures
        r == hs_unique_remote_ids(log@),
{
    let mut a: usize = 0;
    while a < log.len()
        invariant
            a <= log@.len(),
            forall|k1: int, k2: int|
                0 <= k1 < k2 < log@.len() && k1 < a ==> (#[trigger] log@[k1]).hubspot_id@ != (
                #[trigger] log@[k2]).hubspot_id@,
        decreases log@.len() - a,
    {
        let mut b: usize = a + 1;
        while b < log.len()
            invariant
                a < b <= log@.len(),
                a < log@.len(),
                forall|k2: int|
                    a < k2 < b ==> log@[a as int].hubspot_id@ != (#[trigger] log@[k2]).hubspot_id@,
            decreases log@.len() - b,
        {
            if log[a].hubspot_id == log[b].hubspot_id {
                proof {
                    assert(!hs_unique_remote_ids(log@));
                }
                return false;
            }
            b = b + 1;
        }
        a = a + 1;
    }
    true
}

/// The first index at or after `from` of a deal whose Hubspot id is absent
/// from the sync log, if any: the next insert the pass must push.
pub open spec fn hs_first_needing_insert(
    deals: Seq<HubspotDeal>,
    log: Seq<HubspotProject>,
    from: int,
) -> Option<int>
    decreases deals.len() - from,
{
    if from < 0 || from >= deals.len() {
        None
    } else if !hs_log_has_remote(log, deal_remote_id(deals[from])) {
        Some(from)
    } else {
        hs_first_needing_insert(deals, log, from + 1)
    }
}

/// The insert pass over the Hubspot deals, run step by step. The caller
/// repeatedly asks for the next deal to insert, pushes it to Hula, and
/// reports the outcome back; a successful insert grows the sync log, so
/// later duplicates of the same deal are seen as already inserted.
pub struct HubspotInsertPass {
    pub deals: Vec<HubspotDeal>,
    pub log: Vec<HubspotProject>,
    pub orig_len: usize,
    pub idx: usize,
    pub pending: bool,
    pub all_ok: bool,
}

impl HubspotInsertPass {
    /// The sync-log rows the pass started from.
    pub open spec fn initial_log(self) -> Seq<HubspotProject> {
        self.log@.subrange(0, self.orig_len as int)
    }

    /// The pass's invariant: the log grows only by rows for deals already
    /// processed and stays free of duplicate Hubspot ids; while every
    /// outcome was a success, every processed deal is present in the log.
    pub open spec fn wf(self) -> bool {
        &&& self.orig_len <= self.log@.len()
        &&& self.idx <= self.deals@.len()
        &&& hs_unique_remote_ids(self.log@)
        &&& (self.pending ==> self.idx < self.deals@.len() && !hs_log_has_remote(
            self.log@,
            deal_remote_id(self.deals@[self.idx as int]),
        ))
        &&& (forall|k: int|
            #![trigger self.log@[k]]
            self.orig_len <= k < self.log@.len() ==> {
                &&& self.log@[k].updated_by@ == "hulasync"@
                &&& exists|j: int|
                    0 <= j < self.idx && deal_remote_id(#[trigger] self.deals@[j])
                        == self.log@[k].hubspot_id@ && self.deals@[j].properties.dealname.value@
                        == self.log@[k].name@
            })
        &&& (self.all_ok ==> forall|j: int|
            0 <= j < self.idx ==> hs_log_has_remote(
                self.log@,
                deal_remote_id(#[trigger] self.deals@[j]),
            ))
    }

    /// Starts an insert pass over the fetched deals and the loaded sync log.
    pub fn new(deals: Vec<HubspotDeal>, log: Vec<HubspotProject>) -> (p: HubspotInsertPass)
        requires
            hs_unique_remote_ids(log@),
        ensures
            p.wf(),
            p.deals@ == deals@,
            p.log@ == log@,
            p.initial_log() == log@,
            p.orig_len == log@.len(),
            p.idx == 0,
            !p.pending,
            p.all_ok,
    {
        let orig_len = log.len();
        let p = HubspotInsertPass { deals, log, orig_len, idx: 0, pending: false, all_ok: true };
        proof {
            assert(p.initial_log() =~= p.log@);
        }
        p
    }

    /// Advances past every deal already present in the sync log and returns
    /// the index of the next deal needing an insert, or `None` when the pass
    /// is over. After `Some`, the outcome of the push must be reported
    /// through `resolve_success` or `resolve_failure` before asking again.
    pub fn next(&mut self) -> (r: Option<usize>)
        requires
            old(self).wf(),
            !old(self).pending,
        ensures
            final(self).wf(),
            final(self).deals == old(self).deals,
            final(self).log == old(self).log,
            final(self).orig_len == old(self).orig_len,
            final(self).all_ok == old(self).all_ok,
            match hs_first_needing_insert(old(self).deals@, old(self).log@, old(self).idx as int) {
                Some(j) => r == Some(j as usize) && final(self).idx == j && final(self).pending,
                None => r is None && final(self).idx == old(self).deals@.len()
                    && !final(self).pending,
            },
    {
        while self.idx < self.deals.len()
            invariant
                self.wf(),
                !self.pending,
                self.deals == old(self).deals,
                self.log == old(self).log,
                self.orig_len == old(self).orig_len,
                self.all_ok == old(self).all_ok,
                old(self).idx <= self.idx <= self.deals@.len(),
                hs_first_needing_insert(self.deals@, self.log@, old(self).idx as int)
                    == hs_first_needing_insert(self.deals@, self.log@, self.idx as int),
            decreases self.deals@.len() - self.idx,
        {
            let remote_id = u64_to_string(self.deals[self.idx].dealId);
            let present = hs_log_contains(&self.log, &remote_id);
            if !present {
                self.pending = true;
                return Some(self.idx);
            }
            self.idx = self.idx + 1;
        }
        None
    }

    /// Records a successful insert push: Hula answered with the new
    /// project's id. Appends the sync-log row binding the deal to that
    /// project and moves on.
    pub fn resolve_success(&mut self, new_hula_id: String)
        requires
            old(self).wf(),
            old(self).pending,
        ensures
            final(self).wf(),
            !final(self).pending,
            final(self).idx == old(self).idx + 1,
            final(self).all_ok == old(self).all_ok,
            final(self).deals == old(self).deals,
            final(self).orig_len == old(self).orig_len,
            final(self).initial_log() == old(self).initial_log(),
            final(self).log@.len() == old(self).log@.len() + 1,
            final(self).log@.drop_last() == old(self).log@,
            final(self).log@.last().hubspot_id@ == deal_remote_id(
                old(self).deals@[old(self).idx as int],
            ),
            final(self).log@.last().hula_id@ == new_hula_id@,
            final(self).log@.last().name@ == old(
                self,
            ).deals@[old(self).idx as int].properties.dealname.value@,
            final(self).log@.last().updated_by@ == "hulasync"@,
    {
        let remote_id = u64_to_string(self.deals[self.idx].dealId);
        let name = self.deals[self.idx].properties.dealname.value.clone();
        let row = HubspotProject {
            id: fresh_uuid(),
            hula_id: new_hula_id,
            hubspot_id: remote_id,
            name,
            updated_by: "hulasync".to_owned(),
        };
        self.log.push(row);
        let total = self.deals.len();
        proof {
            assert(old(self).idx < old(self).deals@.len());
            assert(self.idx < total);
        }
        self.idx = self.idx + 1;
        self.pending = false;
        proof {
            let last = self.log@.len() - 1;
            assert(self.log@.drop_last() =~= old(self).log@);
            assert(self.initial_log() =~= old(self).initial_log());
            assert(forall|k: int| 0 <= k < last ==> #[trigger] self.log@[k] == old(self).log@[k]);
            let deal_id = deal_remote_id(old(self).deals@[old(self).idx as int]);
            assert forall|k1: int, k2: int| 0 <= k1 < k2 < self.log@.len() implies (
            #[trigger] self.log@[k1]).hubspot_id@ != (#[trigger] self.log@[k2]).hubspot_id@ by {
                if k2 == last {
                    assert(!hs_log_has_remote(old(self).log@, deal_id));
                    assert(old(self).log@[k1].hubspot_id@ != deal_id);
                }
            }
            assert forall|k: int|
                #![trigger self.log@[k]]
                self.orig_len <= k < self.log@.len() implies {
                &&& self.log@[k].updated_by@ == "hulasync"@
                &&& exists|j: int|
                    0 <= j < self.idx && deal_remote_id(#[trigger] self.deals@[j])
                        == self.log@[k].hubspot_id@ && self.deals@[j].properties.dealname.value@
                        == self.log@[k].name@
            } by {
                if k < last {
                    assert(old(self).log@[k] == self.log@[k]);
                    let j = choose|j: int|
                        0 <= j < old(self).idx && deal_remote_id(#[trigger] old(self).deals@[j])
                            == old(self).log@[k].hubspot_id@ && old(
                            self,
                        ).deals@[j].properties.dealname.value@ == old(self).log@[k].name@;
                    assert(0 <= j < self.idx && deal_remote_id(self.deals@[j])
                        == self.log@[k].hubspot_id@ && self.deals@[j].properties.dealname.value@
                        == self.log@[k].name@);
                } else {
                    let j = old(self).idx as int;
                    assert(0 <= j < self.idx && deal_remote_id(self.deals@[j])
                        == self.log@[k].hubspot_id@ && self.deals@[j].properties.dealname.value@
                        == self.log@[k].name@);
                }
            }
            if self.all_ok {
                assert forall|j: int| 0 <= j < self.idx implies hs_log_has_remote(
                    self.log@,
                    deal_remote_id(#[trigger] self.deals@[j]),
                ) by {
                    if j < old(self).idx {
                        assert(hs_log_has_remote(
                            old(self).log@,
                            deal_remote_id(old(self).deals@[j]),
                        ));
                        let k = choose|k: int|
                            0 <= k < old(self).log@.len() && old(self).log@[k].hubspot_id@
                                == deal_remote_id(old(self).deals@[j]);
                        assert(self.log@[k].hubspot_id@ == deal_remote_id(self.deals@[j]));
                    } else {
                        assert(self.log@[last].hubspot_id@ == deal_remote_id(self.deals@[j]));
                    }
                }
            }
        }
    }

    /// Records a failed insert push: nothing is appended, the deal is
    /// skipped, and the pass is no longer all-successful.
    pub fn resolve_failure(&mut self)
        requires
            old(self).wf(),
            old(self).pending,
        ensures
            final(self).wf(),
            !final(self).pending,
            !final(self).all_ok,
            final(self).idx == old(self).idx + 1,
            final(self).deals == old(self).deals,
            final(self).log == old(self).log,
            final(self).orig_len == old(self).orig_len,
            final(self).initial_log() == old(self).initial_log(),
    {
        let total = self.deals.len();
        proof {
            assert(old(self).idx < old(self).deals@.len());
            assert(self.idx < total);
        }
        self.idx = self.idx + 1;
        self.pending = false;
        self.all_ok = false;
    }

    /// Whether the pass has considered every deal and no push is pending.
    pub fn done(&self) -> (r: bool)
        ensures
            r == (self.idx == self.deals@.len() && !self.pending),
    {
        self.idx == self.deals.len() && !self.pending
    }

    /// The row most recently added to the sync log: what a successful insert
    /// must persist.
    pub fn newest_row(&self) -> (r: &HubspotProject)
        requires
            self.log@.len() > 0,
        ensures
            *r == self.log@.last(),
    {
        &self.log[self.log.len() - 1]
    }

    /// Ends the pass, handing back the grown sync log.
    pub fn finish(self) -> (r: Vec<HubspotProject>)
        ensures
            r@ == self.log@,
    {
        self.log
    }
}

/// Insert-completeness law: after a pass in which every requested insert
/// succeeded, each deal whose Hubspot id was absent from the initial sync
/// log owns exactly one new sync-log row carrying its id.
pub proof fn lemma_hs_insert_pass_complete(p: HubspotInsertPass, j: int)
    requires
        p.wf(),
        p.idx == p.deals@.len(),
        !p.pending,
        p.all_ok,
        0 <= j < p.deals@.len(),
        !hs_log_has_remote(p.initial_log(), deal_remote_id(p.deals@[j])),
    ensures
        exists|k: int|
            p.orig_len <= k < p.log@.len() && (#[trigger] p.log@[k]).hubspot_id@ == deal_remote_id(
                p.deals@[j],
            ),
        forall|k1: int, k2: int|
            p.orig_len <= k1 < p.log@.len() && p.orig_len <= k2 < p.log@.len() && (
            #[trigger] p.log@[k1]).hubspot_id@ == deal_remote_id(p.deals@[j]) && (
            #[trigger] p.log@[k2]).hubspot_id@ == deal_remote_id(p.deals@[j]) ==> k1 == k2,
{
    let id = deal_remote_id(p.deals@[j]);
    assert(hs_log_has_remote(p.log@, id));
    let k = choose|k: int| 0 <= k < p.log@.len() && p.log@[k].hubspot_id@ == id;
    if k < p.orig_len {
        assert(p.initial_log()[k] == p.log@[k]);
        assert(hs_log_has_remote(p.initial_log(), id));
    }
    assert(p.orig_len <= k < p.log@.len() && p.log@[k].hubspot_id@ == id);
}

/// Every action in the update plan pairs a deal and a project whose names
/// differ: a pair whose names already agree is never pushed.
pub proof fn lemma_hs_update_plan_sound(
    log: Seq<HubspotProject>,
    projects: Seq<HulaProject>,
    deals: Seq<HubspotDeal>,
    from: int,
)
    requires
        log.len() <= usize::MAX,
        projects.len() <= usize::MAX,
        deals.len() <= usize::MAX,
    ensures
        forall|m: int|
            #![trigger hs_update_plan(log, projects, deals, from)[m]]
            0 <= m < hs_update_plan(log, projects, deals, from).len() ==> {
                let a = hs_update_plan(log, projects, deals, from)[m];
                &&& a.log_index < log.len()
                &&& a.project_index < projects.len()
                &&& a.entity_index < deals.len()
                &&& deals[a.entity_index as int].properties.dealname.value@ != projects[
                    a.project_index as int
                ].name@
            },
    decreases log.len() - from,
{
    if 0 <= from < log.len() {
        lemma_hs_update_plan_sound(log, projects, deals, from + 1);
        let rest = hs_update_plan(log, projects, deals, from + 1);
        let whole = hs_update_plan(log, projects, deals, from);
        lemma_first_hs_project_index_in_range(projects, log[from].hula_id@, 0);
        lemma_first_deal_index_in_range(deals, log[from].hubspot_id@, 0);
        assert forall|m: int| #![trigger whole[m]] 0 <= m < whole.len() implies {
            let a = whole[m];
            &&& a.log_index < log.len()
            &&& a.project_index < projects.len()
            &&& a.entity_index < deals.len()
            &&& deals[a.entity_index as int].properties.dealname.value@ != projects[
                a.project_index as int
            ].name@
        } by {
            if whole.len() == rest.len() + 1 {
                if m > 0 {
                    assert(whole[m] == rest[m - 1]);
                }
            } else {
                assert(whole[m] == rest[m]);
            }
        }
    }
}

/// A found index lies in range and carries the sought id.
proof fn lemma_first_hs_project_index_in_range(
    projects: Seq<HulaProject>,
    id: Seq<char>,
    from: int,
)
    ensures
        match first_project_index(projects, id, from) {
            Some(j) => from <= j < projects.len() && projects[j].id@ == id,
            None => true,
        },
    decreases projects.len() - from,
{
    if 0 <= from < projects.len() && projects[from].id@ != id {
        lemma_first_hs_project_index_in_range(projects, id, from + 1);
    }
}

/// A found index lies in range and carries the sought id.
proof fn lemma_first_deal_index_in_range(deals: Seq<HubspotDeal>, remote_id: Seq<char>, from: int)
    ensures
        match first_deal_index(deals, remote_id, from) {
            Some(j) => from <= j < deals.len() && deal_remote_id(deals[j]) == remote_id,
            None => true,
        },
    decreases deals.len() - from,
{
    if 0 <= from < deals.len() && deal_remote_id(deals[from]) != remote_id {
        lemma_first_deal_index_in_range(deals, remote_id, from + 1);
    }
}

/// When every deal from `from` on is already in the sync log, no insert is
/// requested.
proof fn lemma_hs_all_covered_no_insert(
    deals: Seq<HubspotDeal>,
    log: Seq<HubspotProject>,
    from: int,
)
    requires
        0 <= from <= deals.len(),
        forall|j: int|
            from <= j < deals.len() ==> hs_log_has_remote(
                log,
                deal_remote_id(#[trigger] deals[j]),
            ),
    ensures
        hs_first_needing_insert(deals, log, from) is None,
    decreases deals.len() - from,
{
    if from < deals.len() {
        lemma_hs_all_covered_no_insert(deals, log, from + 1);
    }
}

/// Idempotence law: after a pass in which every requested insert succeeded,
/// a second insert pass over the same deals and the grown sync log requests
/// no insert at all.
pub proof fn lemma_hs_insert_pass_idempotent(p: HubspotInsertPass)
    requires
        p.wf(),
        p.idx == p.deals@.len(),
        !p.pending,
        p.all_ok,
    ensures
        hs_first_needing_insert(p.deals@, p.log@, 0) is None,
{
    lemma_hs_all_covered_no_insert(p.deals@, p.log@, 0);
}

} // verus!
