//! Sections of a conf: typed reads that say where and what went wrong.

use jeed::conf::{ConfError, Health, Section};
use jeed::toml::parse;

#[test]
fn health_defaults_have_both_guards_on() {
    // A conf without `[health]` gets the conservative values, not zero.
    let h = Health::from_section(None).unwrap();
    assert_eq!(h.heartbeat_ns, 100_000_000);
    assert_eq!(h.stale_ns, 500_000_000);
}

#[test]
fn health_reads_milliseconds_and_accepts_an_explicit_zero() {
    let t = parse("[health]\nheartbeat_ms = 250\nstale_ms = 0").unwrap();
    let s = Section::new("", &t).optional_table("health").unwrap();
    let h = Health::from_section(s).unwrap();
    assert_eq!(h.heartbeat_ns, 250_000_000);
    assert_eq!(h.stale_ns, 0, "off, because the conf said so");
}

#[test]
fn a_section_refuses_keys_it_does_not_know() {
    let t = parse("[health]\nstale_secs = 1").unwrap();
    let s = Section::new("", &t).optional_table("health").unwrap();
    let e = Health::from_section(s).unwrap_err();
    assert!(matches!(&e, ConfError::Unknown { at, key } if at == "health" && key == "stale_secs"), "{e:?}");
    assert_eq!(e.to_string(), "health: unknown key `stale_secs`");
}

#[test]
fn a_section_names_where_and_what_went_wrong() {
    let t = parse("name = 5\ncores = [1, \"two\"]\nn = -1").unwrap();
    let s = Section::new("feed[hot]", &t);

    let e = s.required_str("name").unwrap_err();
    assert_eq!(e.to_string(), "feed[hot]: `name` must be a string, found integer");

    let e = s.required_str("ring").unwrap_err();
    assert_eq!(e.to_string(), "feed[hot]: `ring` is required");

    let e = s.required_u16s("cores").unwrap_err();
    assert_eq!(e.to_string(), "feed[hot]: `cores` must be an array of integers, found string");

    let e = s.optional_u64("n").unwrap_err();
    assert_eq!(e.to_string(), "feed[hot]: `n` must not be negative");

    let root = Section::new("", &t);
    assert_eq!(root.required_str("x").unwrap_err().to_string(), "top level: `x` is required");
}

// ── beyond the cases above ──────────────────────────────────────────────

#[test]
fn a_section_reads_every_kind_it_offers() {
    let t = parse(
        "s = \"x\"\nn = 7\nb = true\nv = [\"a\", \"b\"]\nc = [80, 65535]\n[[f]]\nk = 1\n[[f]]\nk = 2\n[sub]\nz = 0",
    )
    .unwrap();
    let s = Section::new("", &t);
    assert_eq!(s.optional_str("s").unwrap(), Some("x"));
    assert_eq!(s.optional_str("absent").unwrap(), None);
    assert_eq!(s.required_u64("n").unwrap(), 7);
    assert_eq!(s.optional_bool("b").unwrap(), Some(true));
    assert_eq!(s.required_strs("v").unwrap(), ["a", "b"]);
    assert_eq!(s.required_u16s("c").unwrap(), [80, 65535]);
    assert_eq!(s.tables("f").unwrap().len(), 2);
    assert!(s.tables("absent").unwrap().is_empty());
    let sub = s.optional_table("sub").unwrap().unwrap();
    assert_eq!(sub.at, "sub");
    assert_eq!(sub.table().len(), 1);
    assert!(s.finish(&["s", "n", "b", "v", "c", "f", "sub"]).is_ok());
}

#[test]
fn a_section_names_each_wrong_kind() {
    let t = parse("c = [1, 70000]\nb = 1\nf = [1]\ns = \"x\"").unwrap();
    let s = Section::new("feed[cold]", &t);
    assert_eq!(s.required_u16s("c").unwrap_err().to_string(), "feed[cold]: `c` out of range");
    assert_eq!(s.optional_bool("b").unwrap_err().to_string(), "feed[cold]: `b` must be a boolean, found integer");
    assert_eq!(s.tables("f").unwrap_err().to_string(), "feed[cold]: `f` must be an array of tables, found integer");
    assert_eq!(s.tables("s").unwrap_err().to_string(), "feed[cold]: `s` must be an array of tables, found string");
    assert_eq!(s.optional_table("s").unwrap_err().to_string(), "feed[cold]: `s` must be a table, found string");
    assert_eq!(s.required_strs("f").unwrap_err().to_string(), "feed[cold]: `f` must be an array of strings, found integer");
    assert_eq!(s.required_u64("s").unwrap_err().to_string(), "feed[cold]: `s` must be an integer, found string");
    let e = s.finish(&["c", "b"]).unwrap_err();
    assert_eq!(e.to_string(), "feed[cold]: unknown key `f`");
}

#[test]
fn a_toml_error_names_its_file() {
    let source = parse("a =").unwrap_err();
    let e = ConfError::Toml { path: "conf/krx.toml".to_string(), source };
    assert_eq!(e.to_string(), "conf/krx.toml: line 1: expected a value");
}
