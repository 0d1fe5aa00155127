use hulasync::hula::HulaProject;
use hulasync::odoo::{
    check_unique_remote_ids, plan_updates, HulaProjectStructureResponse, InsertPass, OdooEntity,
    OdooProject,
};

fn entity(odoo_id: i32, name: &str, description: &str) -> OdooEntity {
    OdooEntity { odoo_id, name: name.to_string(), description: description.to_string() }
}

fn log_row(hula_id: &str, odoo_id: i32, name: &str) -> OdooProject {
    OdooProject {
        id: format!("row-{}", odoo_id),
        hula_id: hula_id.to_string(),
        odoo_id,
        name: name.to_string(),
        updated_by: "hulasync".to_string(),
    }
}

fn hula_project(id: &str, name: &str, description: Option<&str>) -> HulaProject {
    HulaProject {
        id: id.to_string(),
        description: description.map(|d| d.to_string()),
        name: name.to_string(),
    }
}

#[test]
fn insert_pass_new_entity_inserts_and_logs() {
    // An entity not in the log: reconcile inserts it, the log then holds its
    // remote id, and one match is reported back.
    let deals = vec![entity(42, "Acme", "")];
    let mut pass = InsertPass::new(deals, Vec::new(), "http://hula".to_string());

    let next = pass.next();
    assert_eq!(next, Some(0));
    pass.resolve_success(HulaProjectStructureResponse {
        id: "aaaa-bbbb".to_string(),
        matches: 3,
    });
    assert_eq!(pass.newest_row().odoo_id, 42);
    assert_eq!(pass.newest_row().hula_id, "aaaa-bbbb");
    assert_eq!(pass.newest_row().name, "Acme");
    assert_eq!(pass.newest_row().updated_by, "hulasync");
    assert_eq!(pass.newest_row().id.len(), 36);

    assert_eq!(pass.next(), None);
    assert!(pass.done());
    let (log, matches) = pass.finish();
    assert_eq!(log.len(), 1);
    assert_eq!(log[0].odoo_id, 42);
    assert_eq!(matches.len(), 1);
    assert_eq!(matches[0].id, 42);
    assert_eq!(matches[0].matches, 3);
    assert_eq!(matches[0].link, "http://hula/app/project/aaaa-bbbb");
}

#[test]
fn insert_pass_known_entity_is_skipped() {
    let deals = vec![entity(42, "Acme", "")];
    let log = vec![log_row("h1", 42, "Acme")];
    let mut pass = InsertPass::new(deals, log, "http://hula".to_string());
    assert_eq!(pass.next(), None);
    let (log, matches) = pass.finish();
    assert_eq!(log.len(), 1);
    assert!(matches.is_empty());
}

#[test]
fn insert_pass_second_run_inserts_nothing() {
    // Idempotence: with the sync log updated after the first run, a second
    // run requests zero inserts.
    let mut first = InsertPass::new(
        vec![entity(1, "One", ""), entity(2, "Two", "")],
        Vec::new(),
        "u".to_string(),
    );
    while let Some(n) = first.next() {
        first.resolve_success(HulaProjectStructureResponse {
            id: format!("hula-{}", n),
            matches: 0,
        });
    }
    let (log, matches) = first.finish();
    assert_eq!(log.len(), 2);
    assert_eq!(matches.len(), 2);

    let deals = vec![entity(1, "One", ""), entity(2, "Two", "")];
    let mut second = InsertPass::new(deals, log, "u".to_string());
    assert_eq!(second.next(), None);
    let (log2, matches2) = second.finish();
    assert_eq!(log2.len(), 2);
    assert!(matches2.is_empty());
}

#[test]
fn insert_pass_duplicate_remote_id_inserted_once() {
    // A remote id appearing twice in the fetched list: once the first insert
    // succeeds, the duplicate sees the grown log and is skipped.
    let deals = vec![entity(7, "Seven", ""), entity(7, "Seven again", "")];
    let mut pass = InsertPass::new(deals, Vec::new(), "u".to_string());
    assert_eq!(pass.next(), Some(0));
    pass.resolve_success(HulaProjectStructureResponse { id: "h7".to_string(), matches: 1 });
    assert_eq!(pass.next(), None);
    let (log, matches) = pass.finish();
    assert_eq!(log.len(), 1);
    assert_eq!(matches.len(), 1);
}

#[test]
fn insert_pass_failure_skips_entity_only() {
    let deals = vec![entity(1, "One", ""), entity(2, "Two", "")];
    let mut pass = InsertPass::new(deals, Vec::new(), "u".to_string());
    assert_eq!(pass.next(), Some(0));
    pass.resolve_failure();
    assert_eq!(pass.next(), Some(1));
    pass.resolve_success(HulaProjectStructureResponse { id: "h2".to_string(), matches: 0 });
    assert_eq!(pass.next(), None);
    let (log, matches) = pass.finish();
    assert_eq!(log.len(), 1);
    assert_eq!(log[0].odoo_id, 2);
    assert_eq!(matches.len(), 1);
}

#[test]
fn update_plan_renamed_entity_updates_once() {
    // A renamed entity with an existing log row and project: exactly one
    // update is planned, for the new name.
    let deals = vec![entity(42, "Acme Corp", "")];
    let log = vec![log_row("h1", 42, "Acme")];
    let projects = vec![hula_project("h1", "Acme", None)];
    let plan = plan_updates(&log, &projects, &deals);
    assert_eq!(plan.len(), 1);
    assert_eq!(plan[0].log_index, 0);
    assert_eq!(plan[0].project_index, 0);
    assert_eq!(plan[0].entity_index, 0);
    assert_eq!(deals[plan[0].entity_index].name, "Acme Corp");
}

#[test]
fn update_plan_matching_pair_is_skipped() {
    // Update-skip: equal display name and description mean no push.
    let deals = vec![entity(42, "Acme", "About Acme")];
    let log = vec![log_row("h1", 42, "Acme")];
    let projects = vec![hula_project("h1", "Acme", Some("About Acme"))];
    let plan = plan_updates(&log, &projects, &deals);
    assert!(plan.is_empty());
}

#[test]
fn update_plan_missing_description_counts_as_empty() {
    let deals = vec![entity(42, "Acme", "")];
    let log = vec![log_row("h1", 42, "Acme")];
    let projects = vec![hula_project("h1", "Acme", None)];
    let plan = plan_updates(&log, &projects, &deals);
    assert!(plan.is_empty());
}

#[test]
fn update_plan_skips_rows_without_project_or_deal() {
    // A log row whose Hula project was deleted out-of-band, and one whose
    // deal was not fetched, are both skipped silently.
    let deals = vec![entity(1, "One", "")];
    let log = vec![log_row("gone", 1, "One"), log_row("h2", 2, "Two")];
    let projects = vec![hula_project("h2", "Two", None)];
    let plan = plan_updates(&log, &projects, &deals);
    assert!(plan.is_empty());
}

#[test]
fn update_plan_changed_description_updates() {
    let deals = vec![entity(5, "Five", "new words")];
    let log = vec![log_row("h5", 5, "Five")];
    let projects = vec![hula_project("h5", "Five", Some("old words"))];
    let plan = plan_updates(&log, &projects, &deals);
    assert_eq!(plan.len(), 1);
}

#[test]
fn sync_log_uniqueness_check() {
    let unique = vec![log_row("h1", 1, "One"), log_row("h2", 2, "Two")];
    assert!(check_unique_remote_ids(&unique));
    let duplicated = vec![log_row("h1", 1, "One"), log_row("h2", 1, "One again")];
    assert!(!check_unique_remote_ids(&duplicated));
    assert!(check_unique_remote_ids(&Vec::new()));
}
