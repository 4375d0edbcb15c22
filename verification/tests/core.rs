use tome::ai::{AiConfig, ChatAnswer, ChatChunk, ChatContext};
use tome::config::{Config, Settings, APP_NAME, DEFAULT_USER_AGENT, MAX_REQUESTS_PER_SECOND, WIKIPEDIA_REST_HTML_BASE};
use tome::error::TomeError;
use tome::modules::resolver::{CategoryResolver, NoopResolver};
use tome::modules::spec::{CategorySpec, ModuleSpec};
use tome::tier::{parse_tier, Tier};
use tome::title::Title;

fn sample() -> ModuleSpec {
    ModuleSpec {
        id: "science-basics".into(),
        name: "Science Basics".into(),
        description: Some("Introductory physics, chemistry, and biology.".into()),
        default_tier: Tier::Warm,
        categories: vec![
            CategorySpec { name: "Physics".into(), depth: 2 },
            CategorySpec { name: "Chemistry".into(), depth: 2 },
        ],
        explicit_titles: vec!["Scientific method".into()],
    }
}

#[test]
fn validate_rejects_empty_id() {
    let mut s = sample();
    s.id = String::new();
    assert!(s.validate().is_err());
}

#[test]
fn validate_rejects_non_kebab_id() {
    let mut s = sample();
    s.id = "Science Basics".into();
    assert!(s.validate().is_err());
}

#[test]
fn validate_rejects_module_with_no_content() {
    let mut s = sample();
    s.categories.clear();
    s.explicit_titles.clear();
    assert!(s.validate().is_err());
}

#[test]
fn validate_rejects_excessive_depth() {
    let mut s = sample();
    s.categories[0].depth = 50;
    assert!(s.validate().is_err());
}

#[test]
fn validate_accepts_well_formed() {
    let s = sample();
    s.validate().unwrap();
}

fn other_text(r: Result<(), TomeError>) -> String {
    match r {
        Err(TomeError::Other(m)) => m,
        other => panic!("unexpected {other:?}"),
    }
}

#[test]
fn validate_error_texts() {
    let mut s = sample();
    s.id = "Bad Id".into();
    assert_eq!(other_text(s.validate()), "module id 'Bad Id' must be ascii kebab-case");
    let mut s = sample();
    s.name = "   ".into();
    assert_eq!(other_text(s.validate()), "module name is empty");
    let mut s = sample();
    s.categories[1].depth = 11;
    assert_eq!(other_text(s.validate()), "category 'Chemistry' depth 11 exceeds safe limit (10)");
    let mut s = sample();
    s.categories.clear();
    s.explicit_titles.clear();
    assert_eq!(other_text(s.validate()), "module 'science-basics' defines neither categories nor explicit_titles");
    let mut s = sample();
    s.categories[0].depth = 10;
    assert!(s.validate().is_ok());
}

#[test]
fn tier_names_round_trip() {
    for t in [Tier::Hot, Tier::Warm, Tier::Cold, Tier::Evicted] {
        assert_eq!(parse_tier(t.as_str()).unwrap(), t);
    }
    match parse_tier("lukewarm").unwrap_err() {
        TomeError::Other(m) => assert_eq!(m, "unknown tier in index: lukewarm"),
        other => panic!("unexpected {other:?}"),
    }
}

#[test]
fn titles_are_canonical() {
    let t = Title::new("  United_States ");
    assert_eq!(t.as_str(), "United States");
    assert_eq!(Title::new(t.as_str()), t);
    assert_eq!(Title::new("United States").into_string(), "United States");
}

#[test]
fn config_defaults() {
    let c = Config::rooted_at("/home/u/.local/share/Tome");
    assert_eq!(c.data_dir, "/home/u/.local/share/Tome");
    assert_eq!(c.user_agent, DEFAULT_USER_AGENT);
    assert_eq!(c.requests_per_second, MAX_REQUESTS_PER_SECOND);
    assert!(!c.kill_switch);
    assert_eq!(APP_NAME, "Tome");
    assert_eq!(WIKIPEDIA_REST_HTML_BASE, "https://en.wikipedia.org/w/rest.php/v1/page");
}

#[test]
fn settings_defaults_and_file() {
    let s = Settings::default();
    assert_eq!(s.dump_path, None);
    assert!(s.recommendations_enabled);
    assert_eq!(Settings::settings_file("/data"), "/data/settings.json");
    assert_eq!(Settings::settings_file("/data/"), "/data/settings.json");
}

#[test]
fn error_messages() {
    assert_eq!(TomeError::NotFound("Photon".into()).message(), "not found: Photon");
    assert_eq!(TomeError::Dump("x".into()).message(), "dump error: x");
    assert_eq!(TomeError::KillSwitch.message(), "kill switch active: outbound traffic disabled");
    assert_eq!(TomeError::CircuitBreakerOpen.message(), "circuit breaker open: try again later");
    assert_eq!(TomeError::Other("plain".into()).message(), "plain");
}

#[test]
fn ai_is_off_by_default() {
    let c = AiConfig::default();
    assert!(!c.enabled && !c.semantic_search_enabled && !c.rag_enabled);
    let ctx = ChatContext { id: 1, page_id: 23535, title: "Photon".into(), snippet: "A photon".into() };
    let done = ChatChunk::Done(ChatAnswer { answer: "Light.".into(), citations: vec![ctx.id] });
    assert!(matches!(done, ChatChunk::Done(ref a) if a.citations == vec![1]));
}

#[test]
fn noop_resolver_finds_nothing() {
    assert!(NoopResolver.resolve("Physics", 3).unwrap().is_empty());
}
