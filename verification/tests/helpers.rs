use hulasync::digits::u64_to_string;
use hulasync::hula::{new_api_project, project_link, push_accepted};
use hulasync::odoo::{script_args, script_outcome, OdooConfig};
use hulasync::schedule::{module_kind, parse_sleep_seconds, ModuleKind};

#[test]
fn decimal_rendering_matches_std() {
    assert_eq!(u64_to_string(0), "0");
    assert_eq!(u64_to_string(7), "7");
    assert_eq!(u64_to_string(42), "42");
    assert_eq!(u64_to_string(1000), "1000");
    assert_eq!(u64_to_string(u64::MAX), u64::MAX.to_string());
}

#[test]
fn sleep_parsing_defaults_on_bad_input() {
    assert_eq!(parse_sleep_seconds("60"), 60);
    assert_eq!(parse_sleep_seconds("0"), 0);
    assert_eq!(parse_sleep_seconds("007"), 7);
    assert_eq!(parse_sleep_seconds(""), 60);
    assert_eq!(parse_sleep_seconds("abc"), 60);
    assert_eq!(parse_sleep_seconds("12x"), 60);
    assert_eq!(parse_sleep_seconds("-5"), 60);
    assert_eq!(parse_sleep_seconds("+90"), 90);
    assert_eq!(parse_sleep_seconds("+"), 60);
    assert_eq!(parse_sleep_seconds("++5"), 60);
    assert_eq!(parse_sleep_seconds("+12x"), 60);
    assert_eq!(parse_sleep_seconds("18446744073709551615"), u64::MAX);
    assert_eq!(parse_sleep_seconds("18446744073709551616"), 60);
    assert_eq!(parse_sleep_seconds("99999999999999999999999"), 60);
}

#[test]
fn module_names_select_modules() {
    assert_eq!(module_kind(&"odoo".to_string()), ModuleKind::Odoo);
    assert_eq!(module_kind(&"hubspot".to_string()), ModuleKind::Hubspot);
    assert_eq!(module_kind(&"github".to_string()), ModuleKind::Unknown);
    assert_eq!(module_kind(&"".to_string()), ModuleKind::Unknown);
}

#[test]
fn api_project_payload_is_never_hidden() {
    let p = new_api_project("Acme".to_string(), Some("About".to_string()));
    assert_eq!(p.name, "Acme");
    assert_eq!(p.description.as_deref(), Some("About"));
    assert!(!p.is_hidden);
}

#[test]
fn project_links_follow_the_app_path() {
    let link = project_link(&"http://hula".to_string(), &"abc-def".to_string());
    assert_eq!(link, "http://hula/app/project/abc-def");
}

#[test]
fn script_args_start_with_connection_parameters() {
    let config = OdooConfig {
        odoo_url: "http://odoo".to_string(),
        odoo_db: "db".to_string(),
        odoo_uid: "user".to_string(),
        odoo_pw: "pw".to_string(),
    };
    let extra = vec!["[]".to_string(), "120".to_string()];
    let args = script_args(&config, &extra);
    assert_eq!(
        args,
        vec!["http://odoo", "db", "user", "pw", "[]", "120"]
    );
}

#[test]
fn script_outcome_classifies_streams() {
    let ok = script_outcome(Some("out".to_string()), Some("warn".to_string()));
    assert!(ok.ok);
    assert_eq!(ok.log_text, "out");
    assert_eq!(ok.result, Ok("out".to_string()));

    let failed = script_outcome(None, Some("boom".to_string()));
    assert!(!failed.ok);
    assert_eq!(failed.log_text, "boom");
    assert_eq!(failed.result, Err("boom".to_string()));

    let silent = script_outcome(None, None);
    assert!(!silent.ok);
    assert_eq!(silent.log_text, "");
    assert_eq!(silent.result, Err(String::new()));
}

#[test]
fn push_statuses_above_299_are_errors() {
    assert!(push_accepted(200));
    assert!(push_accepted(204));
    assert!(push_accepted(299));
    assert!(!push_accepted(300));
    assert!(!push_accepted(404));
    assert!(!push_accepted(500));
}
