use mdlc::assets::{asset, require, Lookup};
use mdlc::prof::{count, dump, Profile, Span};

#[test]
fn spans_and_counters_add_up() {
    let mut p = Profile::new(true);
    let a = Span::new("read", Some(10));
    p.end(&a, 25);
    let b = Span::new("read", Some(30));
    p.end(&b, 40);
    count(&mut p, "files", 2);
    count(&mut p, "files", 3);
    assert_eq!(p.entries.len(), 1);
    assert_eq!((p.entries[0].total, p.entries[0].count), (25, 2));
    assert_eq!(p.counters[0].count, 5);
    let report = dump(&mut p);
    assert!(report.is_some());
    assert!(p.entries.is_empty() && p.counters.is_empty());
}

#[test]
fn nothing_is_noted_while_switched_off() {
    let mut p = Profile::new(false);
    count(&mut p, "files", 2);
    assert!(p.counters.is_empty());
    assert!(dump(&mut p).is_none());
}

#[test]
fn given_paths_come_before_the_default() {
    let found = |given: Option<&str>, given_exists: bool, default_exists: bool| Lookup {
        given: given.map(|s| s.to_string()),
        given_exists,
        default_exists,
    };
    assert_eq!(
        asset("V", "d", &found(Some("p"), true, true)),
        Ok(Some("p".to_string()))
    );
    assert_eq!(asset("V", "d", &found(None, false, true)), Ok(Some("d".to_string())));
    assert_eq!(asset("V", "d", &found(None, false, false)), Ok(None));
    assert!(asset("V", "d", &found(Some("p"), false, true)).is_err());
    let e = require("V", "d", "模型", &found(None, false, false)).unwrap_err();
    assert!(e.starts_with("找不到模型。") && e.ends_with("d"), "{e}");
    assert_eq!(require("V", "d", "模型", &found(None, false, true)), Ok("d".to_string()));
}
