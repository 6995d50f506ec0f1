use greentic_dw_authoring::slug::slugify;

#[test]
fn slugify_lowercases_and_dashes() {
    assert_eq!(slugify("Support Triage!"), "support-triage");
}

#[test]
fn slugify_collapses_and_trims() {
    assert_eq!(slugify("  Hello --  World  "), "hello-world");
    assert_eq!(slugify("已经"), "");
}

#[test]
fn slugify_is_idempotent_on_examples() {
    for s in ["Support Triage!", "  Hello --  World  ", "a--b", "-x-", "Ünïcode Name 42"] {
        let once = slugify(s);
        assert_eq!(slugify(&once), once);
    }
}

#[test]
fn slugify_keeps_digits_and_drops_edges() {
    assert_eq!(slugify("--Agent 007--"), "agent-007");
    assert_eq!(slugify(""), "");
    assert_eq!(slugify("!!!"), "");
}

#[test]
fn slug_ignores_ascii_case() {
    for s in ["Hello World", "Agentic Worker 2", "ß-Mixed_Case!!"] {
        assert_eq!(slugify(&s.to_ascii_uppercase()), slugify(s));
    }
}

#[test]
fn slug_joins_the_alphanumeric_runs() {
    assert_eq!(slugify("  Hello,  World!! 42 "), "hello-world-42");
    assert_eq!(slugify("--a--b--"), "a-b");
    assert_eq!(slugify("!!!"), "");
}
