use toml_edit::{DocumentMut, InlineTable, Table, Value};
use workspace_rename::deps::{
    check_for_update, rename_member, update_dependency_table, update_manifest_dependencies,
    update_section, DependencyAction,
};
use workspace_rename::manifest::DependencyEntry;
use workspace_rename::rename_map::RenameMap;
use workspace_rename::summary::UpdateSummary;

fn map_of(pairs: &[(&str, &str)]) -> RenameMap {
    let mut m = RenameMap::new();
    for (a, b) in pairs {
        m.insert(a.to_string(), b.to_string());
    }
    m
}

fn inline(text: &str) -> InlineTable {
    let v: Value = text.parse().unwrap();
    v.as_inline_table().unwrap().clone()
}

fn doc(text: &str) -> DocumentMut {
    text.parse().unwrap()
}

fn dep_package<'a>(d: &'a DocumentMut, table: &str, key: &str) -> Option<&'a str> {
    d.get(table)?.get(key)?.get("package")?.as_str()
}

#[test]
fn inline_local_dependency_gets_new_name() {
    let updates = map_of(&[("a", "alpha")]);
    let mut e = DependencyEntry::Inline(inline(r#"{ version = "1.0", path = "../a" }"#));
    let r = check_for_update(&"a".to_string(), &mut e, &updates);
    assert_eq!(r, DependencyAction::Mutated);
    match e {
        DependencyEntry::Inline(t) => {
            assert_eq!(t.get("package").and_then(|v| v.as_str()), Some("alpha"));
            assert_eq!(t.get("path").and_then(|v| v.as_str()), Some("../a"));
            assert_eq!(t.get("version").and_then(|v| v.as_str()), Some("1.0"));
            assert_eq!(t.len(), 3);
        }
        DependencyEntry::Table(_) => panic!("form changed"),
    }
}

#[test]
fn inline_existing_package_is_overwritten() {
    let updates = map_of(&[("a", "alpha")]);
    let mut e = DependencyEntry::Inline(inline(r#"{ path = "../a", package = "old" }"#));
    let r = check_for_update(&"a".to_string(), &mut e, &updates);
    assert_eq!(r, DependencyAction::Mutated);
    match e {
        DependencyEntry::Inline(t) => {
            assert_eq!(t.get("package").and_then(|v| v.as_str()), Some("alpha"));
            assert_eq!(t.len(), 2);
        }
        DependencyEntry::Table(_) => panic!("form changed"),
    }
}

#[test]
fn remote_dependency_on_renamed_name_is_untouched() {
    let updates = map_of(&[("a", "alpha")]);
    let mut e = DependencyEntry::Inline(inline(r#"{ version = "1.0", package = "x" }"#));
    let r = check_for_update(&"a".to_string(), &mut e, &updates);
    assert_eq!(r, DependencyAction::Untouched);
    match e {
        DependencyEntry::Inline(t) => {
            assert_eq!(t.get("package").and_then(|v| v.as_str()), Some("x"));
            assert_eq!(t.len(), 2);
        }
        DependencyEntry::Table(_) => panic!("form changed"),
    }
}

#[test]
fn dependency_not_renamed_is_untouched() {
    let updates = map_of(&[("a", "alpha")]);
    let mut e = DependencyEntry::Inline(inline(r#"{ path = "../b" }"#));
    assert_eq!(check_for_update(&"b".to_string(), &mut e, &updates), DependencyAction::Untouched);
    match e {
        DependencyEntry::Inline(t) => assert!(t.get("package").is_none()),
        DependencyEntry::Table(_) => panic!("form changed"),
    }
}

#[test]
fn table_form_local_dependency_gets_new_name() {
    let updates = map_of(&[("a", "alpha")]);
    let d = doc("[dependencies.a]\npath = \"../a\"\nversion = \"1\"\n");
    let t: Table = d["dependencies"]["a"].as_table().unwrap().clone();
    let mut e = DependencyEntry::Table(t);
    assert_eq!(check_for_update(&"a".to_string(), &mut e, &updates), DependencyAction::Mutated);
    match e {
        DependencyEntry::Table(t) => {
            assert_eq!(t.get("package").and_then(|i| i.as_str()), Some("alpha"));
            assert_eq!(t.get("version").and_then(|i| i.as_str()), Some("1"));
        }
        DependencyEntry::Inline(_) => panic!("form changed"),
    }
}

#[test]
fn dependency_table_counts_rewritten_entries() {
    let updates = map_of(&[("a", "alpha"), ("b", "beta"), ("r", "remote")]);
    let mut d = doc(
        "[dependencies]\na = { path = \"../a\" }\nb = { path = \"../b\" }\nr = \"1.0\"\nc = { path = \"../c\" }\n",
    );
    let t = d["dependencies"].as_table_mut().unwrap();
    assert_eq!(update_dependency_table(t, &updates), 2);
    assert_eq!(dep_package(&d, "dependencies", "a"), Some("alpha"));
    assert_eq!(dep_package(&d, "dependencies", "b"), Some("beta"));
    assert_eq!(d["dependencies"]["r"].as_str(), Some("1.0"));
    assert!(d["dependencies"]["c"].get("package").is_none());
}

#[test]
fn untouched_manifest_is_byte_identical() {
    let updates = map_of(&[("a", "alpha")]);
    let text = "[package]\nname = \"c\"   # the c crate\n\n[dependencies]\nserde = { version = \"1\",   features = [\"derive\"] }\nb = { path = \"../b\" }\n\n[dev-dependencies.a]\nversion = \"1\"\n";
    let mut d = doc(text);
    assert_eq!(update_manifest_dependencies(d.as_table_mut(), &updates), 0);
    assert_eq!(d.to_string(), text);
}

#[test]
fn all_default_tables_are_walked() {
    let updates = map_of(&[("a", "alpha")]);
    let mut d = doc(
        "[dependencies]\na = { path = \"../a\" }\n[dev-dependencies]\na = { path = \"../a\" }\n[build-dependencies.a]\npath = \"../a\"\n",
    );
    assert_eq!(update_section(d.as_table_mut(), &updates), 3);
    assert_eq!(dep_package(&d, "dependencies", "a"), Some("alpha"));
    assert_eq!(dep_package(&d, "dev-dependencies", "a"), Some("alpha"));
    assert_eq!(dep_package(&d, "build-dependencies", "a"), Some("alpha"));
}

#[test]
fn platform_tables_are_walked_and_non_tables_skipped() {
    let updates = map_of(&[("a", "alpha")]);
    let mut d = doc(
        "[package]\nname = \"b\"\n\n[target]\nodd = 5\n\n[target.'cfg(unix)'.dependencies]\na = { path = \"../a\" }\n",
    );
    assert_eq!(update_manifest_dependencies(d.as_table_mut(), &updates), 1);
    let p = d["target"]["cfg(unix)"]["dependencies"]["a"]
        .get("package")
        .and_then(|i| i.as_str());
    assert_eq!(p, Some("alpha"));
    assert_eq!(d["target"]["odd"].as_integer(), Some(5));
}

#[test]
fn rename_member_sets_the_new_name() {
    let mut d = doc("[package]\nname = \"a\"\nversion = \"0.1.0\"\n");
    let r = rename_member(d.as_table_mut(), &"a".to_string(), true, Some("alpha".to_string()));
    assert_eq!(r, Some(("a".to_string(), "alpha".to_string())));
    assert_eq!(d["package"]["name"].as_str(), Some("alpha"));
    assert_eq!(d["package"]["version"].as_str(), Some("0.1.0"));
}

#[test]
fn rename_member_skips_unselected_or_declined() {
    let text = "[package]\nname = \"a\"\n";
    let mut d = doc(text);
    assert_eq!(rename_member(d.as_table_mut(), &"a".to_string(), false, Some("x".to_string())), None);
    assert_eq!(rename_member(d.as_table_mut(), &"a".to_string(), true, None), None);
    assert_eq!(d.to_string(), text);
}

#[test]
fn rename_map_keeps_one_entry_per_renamed_member() {
    let outcomes = vec![
        Some(("a".to_string(), "alpha".to_string())),
        None,
        Some(("c".to_string(), "gamma".to_string())),
    ];
    let m = RenameMap::from_outcomes(&outcomes);
    assert_eq!(m.len(), 2);
    assert_eq!(m.get(&"a".to_string()), Some(&"alpha".to_string()));
    assert_eq!(m.get(&"c".to_string()), Some(&"gamma".to_string()));
    assert_eq!(m.get(&"b".to_string()), None);
}

#[test]
fn rename_map_last_write_wins() {
    let m = map_of(&[("a", "one"), ("a", "two")]);
    assert_eq!(m.get(&"a".to_string()), Some(&"two".to_string()));
}

#[test]
fn no_rename_means_no_propagation() {
    let outcomes: Vec<Option<(String, String)>> = vec![None, None];
    let m = RenameMap::from_outcomes(&outcomes);
    assert!(m.is_empty());
    assert_eq!(m.len(), 0);
}

#[test]
fn summary_of_counts() {
    assert_eq!(UpdateSummary::from_count(0), UpdateSummary::NoUpdates);
    assert_eq!(UpdateSummary::from_count(1), UpdateSummary::OneUpdate);
    assert_eq!(UpdateSummary::from_count(7), UpdateSummary::Updated(7));
    assert_eq!(UpdateSummary::NoUpdates.message(), "No dependency updates");
    assert_eq!(UpdateSummary::OneUpdate.message(), "One dependency updated");
    assert_eq!(UpdateSummary::Updated(12).message(), "12 dependencies updated");
}

#[test]
fn three_member_workspace() {
    let mut a = doc("[package]\nname = \"a\"\nversion = \"0.1.0\"\n");
    let mut b = doc("[package]\nname = \"b\"\n\n[dependencies]\na = { path = \"../a\" }\n");
    let c_text = "[package]\nname = \"c\"\n\n[dependencies]\nlog = \"0.4\"\n";
    let mut c = doc(c_text);
    let outcomes = vec![
        rename_member(a.as_table_mut(), &"a".to_string(), true, Some("alpha".to_string())),
        rename_member(b.as_table_mut(), &"b".to_string(), false, None),
        rename_member(c.as_table_mut(), &"c".to_string(), false, None),
    ];
    let updates = RenameMap::from_outcomes(&outcomes);
    assert!(!updates.is_empty());
    assert_eq!(a["package"]["name"].as_str(), Some("alpha"));
    let na = update_manifest_dependencies(a.as_table_mut(), &updates);
    let nb = update_manifest_dependencies(b.as_table_mut(), &updates);
    let nc = update_manifest_dependencies(c.as_table_mut(), &updates);
    assert_eq!((na, nb, nc), (0, 1, 0));
    assert_eq!(dep_package(&b, "dependencies", "a"), Some("alpha"));
    assert_eq!(c.to_string(), c_text);
    assert_eq!(UpdateSummary::from_count(nb).message(), "One dependency updated");
    assert_eq!(UpdateSummary::from_count(nc).message(), "No dependency updates");
}

#[test]
fn second_rewrite_changes_nothing() {
    let updates = map_of(&[("a", "alpha")]);
    let mut e = DependencyEntry::Inline(inline(r#"{ version = "1.0", path = "../a" }"#));
    assert_eq!(check_for_update(&"a".to_string(), &mut e, &updates), DependencyAction::Mutated);
    let once = match &e {
        DependencyEntry::Inline(t) => t.to_string(),
        DependencyEntry::Table(_) => panic!("form changed"),
    };
    assert_eq!(check_for_update(&"a".to_string(), &mut e, &updates), DependencyAction::Mutated);
    match &e {
        DependencyEntry::Inline(t) => {
            assert_eq!(t.to_string(), once);
            let keys: Vec<&str> = t.iter().map(|(k, _)| k).collect();
            assert_eq!(keys, vec!["version", "path", "package"]);
        }
        DependencyEntry::Table(_) => panic!("form changed"),
    }
}

#[test]
fn rewritten_manifest_keeps_other_bytes() {
    let updates = map_of(&[("a", "alpha")]);
    let mut d = doc("[package]\nname = \"b\"   # keep\n\n[dependencies]\nx = \"1\"\na = { path = \"../a\" }\n");
    assert_eq!(update_manifest_dependencies(d.as_table_mut(), &updates), 1);
    let text = d.to_string();
    assert!(text.starts_with("[package]\nname = \"b\"   # keep\n\n[dependencies]\nx = \"1\"\na = { path = \"../a\""));
    assert!(text.contains("package = \"alpha\""));
}

#[test]
fn table_form_package_line() {
    let updates = map_of(&[("a", "alpha")]);
    let mut d = doc("[dependencies.a]\npath = \"../a\"\n");
    assert_eq!(update_manifest_dependencies(d.as_table_mut(), &updates), 1);
    assert_eq!(d.to_string(), "[dependencies.a]\npath = \"../a\"\npackage = \"alpha\"\n");
}

#[test]
fn underscore_spellings_are_walked() {
    let updates = map_of(&[("a", "alpha")]);
    let mut d = doc("[dev_dependencies]\na = { path = \"../a\" }\n[build_dependencies]\na = { path = \"../a\" }\n");
    assert_eq!(update_manifest_dependencies(d.as_table_mut(), &updates), 2);
    assert_eq!(dep_package(&d, "dev_dependencies", "a"), Some("alpha"));
    assert_eq!(dep_package(&d, "build_dependencies", "a"), Some("alpha"));
}

#[test]
fn inline_package_table_is_renamed() {
    let mut d = doc("package = { name = \"a\", version = \"0.1.0\" }\n");
    let r = rename_member(d.as_table_mut(), &"a".to_string(), true, Some("alpha".to_string()));
    assert_eq!(r, Some(("a".to_string(), "alpha".to_string())));
    assert_eq!(d["package"]["name"].as_str(), Some("alpha"));
    assert_eq!(d["package"]["version"].as_str(), Some("0.1.0"));
}

#[test]
fn manifest_without_package_is_not_renamed() {
    let text = "[dependencies]\nx = \"1\"\n";
    let mut d = doc(text);
    assert_eq!(rename_member(d.as_table_mut(), &"a".to_string(), true, Some("b".to_string())), None);
    assert_eq!(d.to_string(), text);
}
