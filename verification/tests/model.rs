use greentic_dw_authoring::json::Json;
use greentic_dw_authoring::{default_iteration_budget, default_top_k, DeepWorkerSpec, GuardrailRefSpec, ShortTermSpec};

#[test]
fn deep_worker_default_block() {
    let d = DeepWorkerSpec::default();
    assert_eq!(d.iteration_budget, 8);
    assert!(!d.reflection);
    assert!(!d.delegation);
    assert!(d.planning_model.is_none());
}

#[test]
fn default_helpers_match_documented_values() {
    assert_eq!(default_top_k(), 5);
    assert_eq!(default_iteration_budget(), 8);
}

#[test]
fn guardrail_bare_id_has_null_config() {
    let g: GuardrailRefSpec = "pii".into();
    assert_eq!(g.cap_id(), "pii");
    assert_eq!(g.config(), Json::Null);
    let owned: GuardrailRefSpec = String::from("x").into();
    assert_eq!(owned.cap_id(), "x");
}

#[test]
fn guardrail_full_shape_forwards_config() {
    let cfg = Json::Object(vec![("k".to_string(), Json::Bool(true))]);
    let g = GuardrailRefSpec::Full { cap_id: "c".into(), config: cfg.clone() };
    assert_eq!(g.cap_id(), "c");
    assert_eq!(g.config(), cfg);
}

#[test]
fn short_term_from_bool() {
    assert_eq!(ShortTermSpec::from(true), ShortTermSpec::Enabled(true));
    assert_eq!(ShortTermSpec::from(false), ShortTermSpec::Enabled(false));
}
