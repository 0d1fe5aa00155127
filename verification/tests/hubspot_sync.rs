use hulasync::hubspot::{
    check_hs_unique_remote_ids, filter_deals_by_stage, plan_hubspot_updates, HubspotDeal,
    HubspotDealName, HubspotInsertPass, HubspotProject, HubspotProperties,
};
use hulasync::hula::HulaProject;

fn deal(deal_id: u64, name: &str, stage: Option<&str>) -> HubspotDeal {
    HubspotDeal {
        dealId: deal_id,
        properties: HubspotProperties {
            dealname: HubspotDealName { value: name.to_string() },
            dealstage: stage.map(|s| HubspotDealName { value: s.to_string() }),
        },
    }
}

fn hs_log_row(hula_id: &str, hubspot_id: &str, name: &str) -> HubspotProject {
    HubspotProject {
        id: format!("row-{}", hubspot_id),
        hula_id: hula_id.to_string(),
        hubspot_id: hubspot_id.to_string(),
        name: name.to_string(),
        updated_by: "hulasync".to_string(),
    }
}

fn project(id: &str, name: &str) -> HulaProject {
    HulaProject { id: id.to_string(), description: None, name: name.to_string() }
}

#[test]
fn stage_filter_keeps_only_matching_deals() {
    let deals = vec![
        deal(1, "One", Some("won")),
        deal(2, "Two", Some("lost")),
        deal(3, "Three", Some("won")),
        deal(4, "Four", None),
    ];
    let kept = filter_deals_by_stage(deals, &"won".to_string());
    assert_eq!(kept.len(), 2);
    assert_eq!(kept[0].dealId, 1);
    assert_eq!(kept[1].dealId, 3);
}

#[test]
fn hubspot_insert_pass_logs_new_deal() {
    let deals = vec![deal(99, "Big deal", None)];
    let mut pass = HubspotInsertPass::new(deals, Vec::new());
    assert_eq!(pass.next(), Some(0));
    pass.resolve_success("hula-99".to_string());
    assert_eq!(pass.newest_row().hubspot_id, "99");
    assert_eq!(pass.newest_row().hula_id, "hula-99");
    assert_eq!(pass.newest_row().name, "Big deal");
    assert_eq!(pass.newest_row().updated_by, "hulasync");
    assert_eq!(pass.next(), None);
    assert!(pass.done());
    let log = pass.finish();
    assert_eq!(log.len(), 1);
}

#[test]
fn hubspot_insert_pass_skips_logged_deal() {
    let deals = vec![deal(99, "Big deal", None)];
    let log = vec![hs_log_row("hula-99", "99", "Big deal")];
    let mut pass = HubspotInsertPass::new(deals, log);
    assert_eq!(pass.next(), None);
    assert_eq!(pass.finish().len(), 1);
}

#[test]
fn hubspot_insert_pass_failure_moves_on() {
    let deals = vec![deal(1, "One", None), deal(2, "Two", None)];
    let mut pass = HubspotInsertPass::new(deals, Vec::new());
    assert_eq!(pass.next(), Some(0));
    pass.resolve_failure();
    assert_eq!(pass.next(), Some(1));
    pass.resolve_success("hula-2".to_string());
    assert_eq!(pass.next(), None);
    let log = pass.finish();
    assert_eq!(log.len(), 1);
    assert_eq!(log[0].hubspot_id, "2");
}

#[test]
fn hubspot_update_plan_finds_renamed_deal() {
    let deals = vec![deal(42, "Acme Corp", None)];
    let log = vec![hs_log_row("h1", "42", "Acme")];
    let projects = vec![project("h1", "Acme")];
    let plan = plan_hubspot_updates(&log, &projects, &deals);
    assert_eq!(plan.len(), 1);
    assert_eq!(plan[0].log_index, 0);
    assert_eq!(plan[0].project_index, 0);
    assert_eq!(plan[0].entity_index, 0);
}

#[test]
fn hubspot_update_plan_skips_equal_names() {
    let deals = vec![deal(42, "Acme", None)];
    let log = vec![hs_log_row("h1", "42", "Acme")];
    let projects = vec![project("h1", "Acme")];
    let plan = plan_hubspot_updates(&log, &projects, &deals);
    assert!(plan.is_empty());
}

#[test]
fn hubspot_sync_log_uniqueness_check() {
    let unique = vec![hs_log_row("h1", "1", "One"), hs_log_row("h2", "2", "Two")];
    assert!(check_hs_unique_remote_ids(&unique));
    let duplicated = vec![hs_log_row("h1", "1", "One"), hs_log_row("h2", "1", "One again")];
    assert!(!check_hs_unique_remote_ids(&duplicated));
}
