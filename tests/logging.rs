use telelog::context::{ContextStore, Field};
use telelog::level::LogLevel;
use telelog::logger::{Config, Logger, ProfileContext};
use telelog::text::decimal_string;

fn field(k: &str, v: &str) -> Field {
    Field { key: k.to_string(), value: v.to_string() }
}

#[test]
fn warning_minimum_emits_only_warning() {
    let logger = Logger::with_config("app", &Config::new().with_min_level(LogLevel::Warning));
    let mut emitted = Vec::new();
    if let Some(r) = logger.debug("x", 1) {
        emitted.push(r);
    }
    if let Some(r) = logger.warning("y", 2) {
        emitted.push(r);
    }
    assert_eq!(emitted.len(), 1);
    assert_eq!(emitted[0].message, "y");
    assert_eq!(emitted[0].level, LogLevel::Warning);
    assert_eq!(emitted[0].timestamp, 2);
}

#[test]
fn below_minimum_makes_no_record_and_no_snapshot() {
    let mut logger = Logger::with_config("app", &Config::new().with_min_level(LogLevel::Error));
    logger.add_context("user", "42");
    let mut writes = 0;
    for r in [
        logger.debug("a", 0),
        logger.info("b", 0),
        logger.warning("c", 0),
        logger.log(LogLevel::Info, "d", &vec![field("k", "v")], 0),
    ] {
        if r.is_some() {
            writes += 1;
        }
    }
    assert_eq!(writes, 0);
    let r = logger.error("e", 5).unwrap();
    assert_eq!(r.context.len(), 1);
    assert_eq!(r.context[0].key, "user");
    assert_eq!(r.context[0].value, "42");
    assert!(logger.critical("f", 6).is_some());
}

#[test]
fn record_keeps_fields_in_order_and_context() {
    let mut logger = Logger::new("svc");
    logger.add_context("req", "7");
    let r = logger
        .log(LogLevel::Info, "done", &vec![field("b", "2"), field("a", "1"), field("b", "3")], 9)
        .unwrap();
    assert_eq!(r.logger, "svc");
    let keys: Vec<&str> = r.fields.iter().map(|f| f.key.as_str()).collect();
    assert_eq!(keys, vec!["b", "a", "b"]);
    assert_eq!(r.fields[2].value, "3");
    assert_eq!(r.context[0].key, "req");
}

#[test]
fn default_logger_filters_debug() {
    let logger = Logger::new("app");
    assert!(logger.debug("x", 0).is_none());
    assert!(logger.info("x", 0).is_some());
    assert_eq!(logger.min_level(), LogLevel::Info);
}

#[test]
fn log_with_parses_level_in_any_case() {
    let logger = Logger::with_config("app", &Config::new().with_min_level(LogLevel::Debug));
    let r = logger.log_with("WARN", "m", &vec![field("k", "v")], 3).unwrap().unwrap();
    assert_eq!(r.level, LogLevel::Warning);
    assert_eq!(r.fields[0].key, "k");
    let r = logger.log_with("Crit", "m", &vec![], 3).unwrap().unwrap();
    assert_eq!(r.level, LogLevel::Critical);
    let r = logger.log_with("debug", "m", &vec![], 3).unwrap().unwrap();
    assert_eq!(r.level, LogLevel::Debug);
}

#[test]
fn log_with_rejects_unknown_level() {
    let logger = Logger::new("app");
    let e = logger.log_with("verbose", "m", &vec![], 0).err().unwrap();
    assert_eq!(e.given, "verbose");
}

#[test]
fn level_parse_and_order() {
    assert_eq!(LogLevel::parse("ERROR").ok(), Some(LogLevel::Error));
    assert_eq!(LogLevel::parse("Info").ok(), Some(LogLevel::Info));
    assert!(LogLevel::parse("").is_err());
    assert_eq!(LogLevel::from_lowercase("warning"), Some(LogLevel::Warning));
    assert_eq!(LogLevel::from_lowercase("WARNING"), None);
    assert!(LogLevel::Critical.at_least(&LogLevel::Error));
    assert!(!LogLevel::Debug.at_least(&LogLevel::Info));
    assert!(LogLevel::Info.at_least(&LogLevel::Info));
    assert_eq!(LogLevel::Warning.as_str(), "WARNING");
}

#[test]
fn describe_names_the_logger() {
    let logger = Logger::new("core");
    assert_eq!(logger.describe(), "TelelogLogger(core)");
    assert_eq!(logger.name(), "core");
}

#[test]
fn disjoint_guard_scopes_restore_context() {
    let mut c = ContextStore::new();
    c.add("base", "1");
    let g1 = c.with("a", "x");
    let g2 = c.with("b", "y");
    let g3 = c.with("c", "z");
    assert_eq!(c.get("b"), Some("y".to_string()));
    c.release(g2);
    c.release(g1);
    c.release(g3);
    assert_eq!(c.get("a"), None);
    assert_eq!(c.get("b"), None);
    assert_eq!(c.get("c"), None);
    assert_eq!(c.get("base"), Some("1".to_string()));
    assert_eq!(c.snapshot().len(), 1);
}

#[test]
fn guard_leaves_overwritten_value() {
    let mut logger = Logger::new("app");
    let g = logger.with_context("k", "v1");
    logger.add_context("k", "v2");
    logger.release_context(g);
    let r = logger.info("m", 0).unwrap();
    assert_eq!(r.context.len(), 1);
    assert_eq!(r.context[0].value, "v2");
}

#[test]
fn nested_same_key_guards() {
    let mut c = ContextStore::new();
    let outer = c.with("k", "outer");
    let inner = c.with("k", "inner");
    c.release(outer);
    assert_eq!(c.get("k"), Some("inner".to_string()));
    c.release(inner);
    assert_eq!(c.get("k"), None);
}

#[test]
fn context_add_remove_clear() {
    let mut logger = Logger::new("app");
    logger.add_context("a", "1");
    logger.add_context("b", "2");
    logger.add_context("a", "3");
    let r = logger.info("m", 0).unwrap();
    assert_eq!(r.context.len(), 2);
    assert_eq!(r.context[0].key, "a");
    assert_eq!(r.context[0].value, "3");
    logger.remove_context("a");
    logger.remove_context("missing");
    let r = logger.info("m", 0).unwrap();
    assert_eq!(r.context.len(), 1);
    logger.clear_context();
    let r = logger.info("m", 0).unwrap();
    assert_eq!(r.context.len(), 0);
}

#[test]
fn profile_elapsed_never_decreases() {
    let logger = Logger::new("app");
    let g = logger.profile("op", 1_000);
    let a = g.elapsed(5_000);
    let b = g.elapsed(9_000);
    assert_eq!(a, 4_000);
    assert_eq!(b, 8_000);
    assert!(a <= b);
    assert_eq!(g.elapsed(500), 0);
}

#[test]
fn finished_profile_logs_operation_and_millis() {
    let logger = Logger::new("app");
    let g = logger.profile("load", 1_000_000);
    let r = logger.finish_profile(g, 13_500_000).unwrap();
    assert_eq!(r.level, LogLevel::Info);
    assert_eq!(r.message, "operation completed");
    assert_eq!(r.fields[0].key, "operation");
    assert_eq!(r.fields[0].value, "load");
    assert_eq!(r.fields[1].key, "elapsed_ms");
    assert_eq!(r.fields[1].value, "12");
}

#[test]
fn finished_profile_respects_minimum_level() {
    let logger = Logger::with_config("app", &Config::new().with_min_level(LogLevel::Warning));
    let g = logger.profile("load", 0);
    assert!(logger.finish_profile(g, 10).is_none());
}

#[test]
fn profile_context_logs_once() {
    let logger = Logger::new("app");
    let mut p = ProfileContext::new(&logger, "step", 0);
    p.enter();
    let first = p.exit(&logger, 2_000_000);
    assert_eq!(first.unwrap().fields[1].value, "2");
    assert!(p.exit(&logger, 3_000_000).is_none());
}

#[test]
fn decimal_text() {
    assert_eq!(decimal_string(0), "0");
    assert_eq!(decimal_string(7), "7");
    assert_eq!(decimal_string(1234), "1234");
    assert_eq!(decimal_string(u64::MAX), "18446744073709551615");
}

#[test]
fn request_and_session_context_then_clear() {
    let mut logger = Logger::new("basic_app");
    logger.add_context("request_id", "req_abc123");
    logger.add_context("session_id", "sess_xyz789");
    let r = logger.info("Processing request", 0).unwrap();
    assert_eq!(r.context.len(), 2);
    assert_eq!((r.context[0].key.as_str(), r.context[0].value.as_str()), ("request_id", "req_abc123"));
    assert_eq!((r.context[1].key.as_str(), r.context[1].value.as_str()), ("session_id", "sess_xyz789"));
    logger.clear_context();
    let r = logger.info("Context cleared", 1).unwrap();
    assert!(r.context.is_empty());
}

#[test]
fn released_guard_keeps_order_of_other_keys() {
    let mut logger = Logger::new("app");
    logger.add_context("a", "1");
    let g = logger.with_context("b", "2");
    logger.add_context("c", "3");
    logger.release_context(g);
    let r = logger.info("m", 0).unwrap();
    let keys: Vec<&str> = r.context.iter().map(|f| f.key.as_str()).collect();
    assert_eq!(keys, vec!["a", "c"]);
}

#[test]
fn profile_exit_record_names_operation() {
    let logger = Logger::new("svc");
    let mut p = ProfileContext::new(&logger, "fetch", 1_000_000);
    let r = p.exit(&logger, 4_000_000).unwrap();
    assert_eq!(r.level, LogLevel::Info);
    assert_eq!(r.logger, "svc");
    assert_eq!(r.fields[0].key, "operation");
    assert_eq!(r.fields[0].value, "fetch");
    assert_eq!(r.fields[1].value, "3");
    assert_eq!(r.timestamp, 4_000_000);
}

#[test]
fn outer_timer_reports_at_least_inner() {
    let logger = Logger::new("app");
    let mut outer = ProfileContext::new(&logger, "outer", 0);
    let mut inner = ProfileContext::new(&logger, "inner", 2_000_000);
    let ri = inner.exit(&logger, 5_000_000).unwrap();
    let ro = outer.exit(&logger, 7_000_000).unwrap();
    let mi: u64 = ri.fields[1].value.parse().unwrap();
    let mo: u64 = ro.fields[1].value.parse().unwrap();
    assert_eq!((mi, mo), (3, 7));
    assert!(mo >= mi);
}
