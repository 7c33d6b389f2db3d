//! Rewriting the dependency declarations of one manifest after packages were
//! renamed: a local dependency on a renamed package gets `package = "<new>"`.
use crate::manifest::{
    inline_contains_key, inline_insert, inline_values, item_inline, item_table, item_text, join_entry,
    package_key, path_key, put_item, split_item, string_value, table_contains_key, table_get,
    table_items, table_keys, take_item, value_item, value_text, item_as_inline, item_as_table,
    string_views, name_key, DependencyEntry, inline_inserted, inline_slots, item_of_value,
    string_value_of, table_clone, inline_clone, table_put, table_slots,
};
use crate::rename_map::RenameMap;
use toml_edit::{Item, Table, Value};
use vstd::prelude::*;

verus! {

/// What happened to one dependency entry.
#[derive(Debug, Clone, Copy, PartialEq, Eq, Structural)]
pub enum DependencyAction {
    Untouched,
    Mutated,
}

/// Whether the entry points at a directory, which makes it a local dependency.
pub open spec fn has_local_path(e: DependencyEntry) -> bool {
    match e {
        DependencyEntry::Inline(t) => inline_values(t).contains_key(path_key()),
        DependencyEntry::Table(t) => table_items(t).contains_key(path_key()),
    }
}

/// The `package` value written into an inline entry: one space on each side.
pub open spec fn inline_package_value(name: Seq<char>) -> Value {
    string_value_of(name, " "@, " "@)
}

/// The `package` item written into a table entry: one space before the value.
pub open spec fn table_package_item(name: Seq<char>) -> Item {
    item_of_value(string_value_of(name, " "@, ""@))
}

/// `after` is `before`, in the same form, with its `package` field set to
/// `name`: in place where the key was already there, else as a new last key.
/// Every other key keeps its value and its place.
pub open spec fn package_set(before: DependencyEntry, after: DependencyEntry, name: Seq<char>) -> bool {
    match (before, after) {
        (DependencyEntry::Inline(b), DependencyEntry::Inline(a)) => {
            &&& a == inline_inserted(b, package_key(), inline_package_value(name))
            &&& inline_values(a) == inline_values(b).insert(package_key(), inline_package_value(name))
            &&& value_text(inline_package_value(name)) == Some(name)
            &&& inline_slots(a) == if inline_slots(b).contains(package_key()) {
                inline_slots(b)
            } else {
                inline_slots(b).push(package_key())
            }
        },
        (DependencyEntry::Table(b), DependencyEntry::Table(a)) => {
            &&& a == table_put(b, package_key(), table_package_item(name))
            &&& table_items(a) == table_items(b).insert(package_key(), table_package_item(name))
            &&& item_text(table_package_item(name)) == Some(name)
            &&& table_slots(a) == if table_slots(b).contains(package_key()) {
                table_slots(b)
            } else {
                table_slots(b).push(package_key())
            }
        },
        _ => false,
    }
}

/// Points a local dependency declared under `name` at the package's new name,
/// if `name` is renamed; anything else is left as it is.
pub fn check_for_update(name: &String, entry: &mut DependencyEntry, updates: &RenameMap) -> (r: DependencyAction)
    ensures
        r == (if updates@.contains_key(name@) && has_local_path(*old(entry)) {
            DependencyAction::Mutated
        } else {
            DependencyAction::Untouched
        }),
        r == DependencyAction::Untouched ==> *final(entry) == *old(entry),
        r == DependencyAction::Mutated ==> package_set(*old(entry), *final(entry), updates@[name@]),
        forall|e: DependencyEntry| package_set(e, *old(entry), updates@[name@]) ==> *final(entry) == *old(entry),
{
    proof {
        reveal_strlit("path");
        reveal_strlit("package");
        assert("path"@ =~= path_key());
        assert("package"@ =~= package_key());
    }
    let new_name = match updates.get(name) {
        Some(v) => v,
        None => return DependencyAction::Untouched,
    };
    match entry {
        DependencyEntry::Inline(info) => {
            if !inline_contains_key(info, "path") {
                return DependencyAction::Untouched;
            }
            let v = string_value(new_name.as_str(), " ", " ");
            inline_insert(info, "package", v);
            DependencyAction::Mutated
        },
        DependencyEntry::Table(info) => {
            if !table_contains_key(info, "path") {
                return DependencyAction::Untouched;
            }
            let v = value_item(string_value(new_name.as_str(), " ", ""));
            put_item(info, "package", v);
            DependencyAction::Mutated
        },
    }
}

/// Whether the item is a dependency entry that points at a directory.
pub open spec fn item_is_local(i: Item) -> bool {
    match item_inline(i) {
        Some(t) => inline_values(t).contains_key(path_key()),
        None => match item_table(i) {
            Some(t) => table_items(t).contains_key(path_key()),
            None => false,
        },
    }
}

/// Whether the item under `key` is a local dependency on a renamed package.
pub open spec fn is_renamed_local(updates: Map<Seq<char>, Seq<char>>, key: Seq<char>, item: Item) -> bool {
    updates.contains_key(key) && item_is_local(item)
}

/// `after` is the dependency entry `before`, in the same form, with its
/// `package` field holding `name`.
pub open spec fn item_package_set(before: Item, after: Item, name: Seq<char>) -> bool {
    match item_inline(before) {
        Some(b) => match item_inline(after) {
            Some(a) => package_set(DependencyEntry::Inline(b), DependencyEntry::Inline(a), name),
            None => false,
        },
        None => match item_table(before) {
            Some(b) => match item_table(after) {
                Some(a) => package_set(DependencyEntry::Table(b), DependencyEntry::Table(a), name),
                None => false,
            },
            None => false,
        },
    }
}

/// What becomes of the item under `key` in a dependency table: a local
/// dependency on a renamed package points at the new name, any other item
/// stays exactly as it was.
pub open spec fn item_updated(updates: Map<Seq<char>, Seq<char>>, key: Seq<char>, before: Item, after: Item) -> bool {
    if is_renamed_local(updates, key, before) {
        item_package_set(before, after, updates[key])
    } else {
        after == before
    }
}

/// A dependency table after the renames: the same keys, each item updated.
pub open spec fn dependencies_updated(
    updates: Map<Seq<char>, Seq<char>>,
    before: Map<Seq<char>, Item>,
    after: Map<Seq<char>, Item>,
) -> bool {
    &&& after.dom() == before.dom()
    &&& forall|k: Seq<char>| #[trigger] before.contains_key(k) ==> item_updated(updates, k, before[k], after[k])
}

/// The test that picks, among the keys of a dependency table, those to rewrite.
pub open spec fn renamed_local_pred(updates: Map<Seq<char>, Seq<char>>, items: Map<Seq<char>, Item>) -> spec_fn(Seq<char>) -> bool {
    |k: Seq<char>| is_renamed_local(updates, k, items[k])
}

/// The keys of a dependency table that name local dependencies on renamed
/// packages.
pub open spec fn renamed_local_keys(updates: Map<Seq<char>, Seq<char>>, items: Map<Seq<char>, Item>) -> Set<Seq<char>> {
    items.dom().filter(renamed_local_pred(updates, items))
}

/// Counting, one key at a time, the keys that pass a test.
proof fn lemma_count_step(ks: Seq<Seq<char>>, i: int, p: spec_fn(Seq<char>) -> bool)
    requires
        0 <= i < ks.len(),
        ks.no_duplicates(),
    ensures
        ks.take(i + 1).to_set().filter(p).finite(),
        ks.take(i + 1).to_set().filter(p).len() == ks.take(i).to_set().filter(p).len() + (if p(ks[i]) {
            1int
        } else {
            0
        }),
{
    let a = ks.take(i);
    let x = ks[i];
    assert(ks.take(i + 1) =~= a + seq![x]);
    Seq::lemma_to_set_insert_commutes(a, x);
    vstd::seq_lib::seq_to_set_is_finite(a);
    a.to_set().lemma_len_filter(p);
    a.to_set().insert(x).lemma_len_filter(p);
    assert(!a.to_set().contains(x)) by {
        if a.contains(x) {
            let j = choose|j: int| 0 <= j < a.len() && a[j] == x;
            assert(ks[j] == ks[i]);
        }
    }
    if p(x) {
        assert(a.to_set().insert(x).filter(p) =~= a.to_set().filter(p).insert(x));
    } else {
        assert(a.to_set().insert(x).filter(p) =~= a.to_set().filter(p));
    }
}

/// Whether the item is a dependency entry that points at a directory.
fn is_local_entry(item: &Item) -> (r: bool)
    ensures
        r == item_is_local(*item),
{
    proof {
        reveal_strlit("path");
        assert("path"@ =~= path_key());
    }
    match item_as_inline(item) {
        Some(t) => inline_contains_key(t, "path"),
        None => match item_as_table(item) {
            Some(t) => table_contains_key(t, "path"),
            None => false,
        },
    }
}

/// Rewrites one dependency table: every local dependency declared under a
/// renamed package's old name gets the new name as its `package`; nothing else
/// changes. Returns how many entries were rewritten.
pub fn update_dependency_table(table: &mut Table, updates: &RenameMap) -> (count: usize)
    ensures
        dependencies_updated(updates@, table_items(*old(table)), table_items(*final(table))),
        count == renamed_local_keys(updates@, table_items(*old(table))).len(),
        table_slots(*final(table)) == table_slots(*old(table)),
        count == 0 ==> *final(table) == *old(table),
{
    let ghost before = table_items(*table);
    let ghost start = *table;
    let ghost p = renamed_local_pred(updates@, before);
    let keys = table_keys(table);
    let ghost ks = string_views(keys@);
    let mut count: usize = 0;
    let mut i: usize = 0;
    proof {
        assert(ks.take(0).to_set() =~= Set::<Seq<char>>::empty());
        assert(ks.take(0).to_set().filter(p) =~= Set::<Seq<char>>::empty());
    }
    while i < keys.len()
        invariant
            i <= keys.len(),
            ks == string_views(keys@),
            ks.to_set() == before.dom(),
            ks.no_duplicates(),
            p == renamed_local_pred(updates@, before),
            table_items(*table).dom() == before.dom(),
            forall|k: Seq<char>| #[trigger] before.contains_key(k) ==> if ks.take(i as int).contains(k) {
                item_updated(updates@, k, before[k], table_items(*table)[k])
            } else {
                table_items(*table)[k] == before[k]
            },
            count == ks.take(i as int).to_set().filter(p).len(),
            count <= i,
            table_slots(*table) == table_slots(start),
            count == 0 ==> *table == start,
        decreases keys.len() - i,
    {
        let key = &keys[i];
        let ghost k = key@;
        proof {
            assert(ks[i as int] == k);
            assert(ks.to_set().contains(k));
            lemma_count_step(ks, i as int, p);
            let prev = ks.take(i as int);
            let next = ks.take(i + 1);
            assert(next =~= prev.push(k));
            assert forall|j: Seq<char>| next.contains(j) <==> prev.contains(j) || j == k by {
                if next.contains(j) {
                    let m = choose|m: int| 0 <= m < next.len() && #[trigger] next[m] == j;
                    if m < i {
                        assert(prev[m] == j);
                    }
                }
                if prev.contains(j) {
                    let m = choose|m: int| 0 <= m < prev.len() && #[trigger] prev[m] == j;
                    assert(next[m] == j);
                }
                if j == k {
                    assert(next[i as int] == j);
                }
            }
            assert(!prev.contains(k)) by {
                if prev.contains(k) {
                    let m = choose|m: int| 0 <= m < prev.len() && #[trigger] prev[m] == k;
                    assert(ks[m] == ks[i as int]);
                }
            }
        }
        let renamed = updates.get(key).is_some();
        let local = renamed && match table_get(table, key.as_str()) {
            Some(item) => is_local_entry(item),
            None => false,
        };
        if local {
            let ghost mid = table_items(*table);
            let item = take_item(table, key.as_str());
            match split_item(item) {
                Ok(entry) => {
                    let mut entry = entry;
                    let action = check_for_update(key, &mut entry, updates);
                    put_item(table, key.as_str(), join_entry(entry));
                    proof {
                        assert(table_items(*table) =~= mid.insert(k, table_items(*table)[k]));
                    }
                    if action == DependencyAction::Mutated {
                        count = count + 1;
                    }
                },
                Err(item) => {
                    put_item(table, key.as_str(), item);
                },
            }
            proof {
                assert(table_items(*table).dom() =~= before.dom());
            }
        }
        i = i + 1;
    }
    proof {
        assert(ks.take(i as int) =~= ks);
    }
    count
}

/// The default dependency tables of a manifest, and of each platform table.
/// Cargo also reads the older spellings `dev_dependencies` and
/// `build_dependencies`.
pub open spec fn is_dependency_kind(k: Seq<char>) -> bool {
    ||| k == "dependencies"@
    ||| k == "dev-dependencies"@
    ||| k == "build-dependencies"@
    ||| k == "dev_dependencies"@
    ||| k == "build_dependencies"@
}

/// The names of the dependency tables differ from each other and from `target`.
proof fn lemma_kinds_distinct()
    ensures
        "dependencies"@ != "dev-dependencies"@,
        "dependencies"@ != "build-dependencies"@,
        "dependencies"@ != "dev_dependencies"@,
        "dependencies"@ != "build_dependencies"@,
        "dev-dependencies"@ != "build-dependencies"@,
        "dev-dependencies"@ != "dev_dependencies"@,
        "dev-dependencies"@ != "build_dependencies"@,
        "build-dependencies"@ != "dev_dependencies"@,
        "build-dependencies"@ != "build_dependencies"@,
        "dev_dependencies"@ != "build_dependencies"@,
        !is_dependency_kind("target"@),
{
    reveal_strlit("target");
    reveal_strlit("dependencies");
    reveal_strlit("dev-dependencies");
    reveal_strlit("build-dependencies");
    reveal_strlit("dev_dependencies");
    reveal_strlit("build_dependencies");
    assert("dev-dependencies"@[3] != "dev_dependencies"@[3]);
    assert("build-dependencies"@[5] != "build_dependencies"@[5]);
    assert("dev-dependencies"@.len() != "build-dependencies"@.len());
    assert("dev-dependencies"@.len() != "build_dependencies"@.len());
    assert("dev_dependencies"@.len() != "build-dependencies"@.len());
    assert("dev_dependencies"@.len() != "build_dependencies"@.len());
    assert("dependencies"@.len() != "dev-dependencies"@.len());
    assert("dependencies"@.len() != "build-dependencies"@.len());
    assert("dependencies"@.len() != "dev_dependencies"@.len());
    assert("dependencies"@.len() != "build_dependencies"@.len());
    assert("target"@.len() != "dependencies"@.len());
    assert("target"@.len() != "dev-dependencies"@.len());
    assert("target"@.len() != "build-dependencies"@.len());
    assert("target"@.len() != "dev_dependencies"@.len());
    assert("target"@.len() != "build_dependencies"@.len());
}

/// The number of entries rewritten in the dependency table under `kind`.
pub open spec fn kind_count(updates: Map<Seq<char>, Seq<char>>, items: Map<Seq<char>, Item>, kind: Seq<char>) -> nat {
    if items.contains_key(kind) {
        match item_table(items[kind]) {
            Some(t) => renamed_local_keys(updates, table_items(t)).len(),
            None => 0,
        }
    } else {
        0
    }
}

/// A dependency table after the renames; an item that is no table is left alone.
pub open spec fn kind_updated(updates: Map<Seq<char>, Seq<char>>, before: Item, after: Item) -> bool {
    match item_table(before) {
        Some(b) => match item_table(after) {
            Some(a) => dependencies_updated(updates, table_items(b), table_items(a)),
            None => false,
        },
        None => after == before,
    }
}

/// The number of entries rewritten in the dependency tables of a manifest, or
/// of one platform table.
pub open spec fn section_count(updates: Map<Seq<char>, Seq<char>>, items: Map<Seq<char>, Item>) -> nat {
    kind_count(updates, items, "dependencies"@) + kind_count(updates, items, "dev-dependencies"@)
        + kind_count(updates, items, "build-dependencies"@) + kind_count(updates, items, "dev_dependencies"@)
        + kind_count(updates, items, "build_dependencies"@)
}

/// A manifest, or one platform table, whose dependency tables are updated and
/// whose other items are as they were.
pub open spec fn section_updated(
    updates: Map<Seq<char>, Seq<char>>,
    before: Map<Seq<char>, Item>,
    after: Map<Seq<char>, Item>,
) -> bool {
    &&& after.dom() == before.dom()
    &&& forall|k: Seq<char>| #[trigger] before.contains_key(k) ==> if is_dependency_kind(k) {
        kind_updated(updates, before[k], after[k])
    } else {
        after[k] == before[k]
    }
}

/// A count that stops at `u64::MAX`.
pub open spec fn saturated(n: nat) -> nat {
    if n > u64::MAX {
        u64::MAX as nat
    } else {
        n
    }
}

/// Rewrites the dependency table under `kind`, if there is one.
fn update_kind(section: &mut Table, kind: &str, updates: &RenameMap) -> (count: usize)
    ensures
        table_items(*final(section)).dom() == table_items(*old(section)).dom(),
        forall|k: Seq<char>| #[trigger] table_items(*old(section)).contains_key(k) && k != kind@
            ==> table_items(*final(section))[k] == table_items(*old(section))[k],
        table_items(*old(section)).contains_key(kind@) ==> kind_updated(
            updates@,
            table_items(*old(section))[kind@],
            table_items(*final(section))[kind@],
        ),
        count == kind_count(updates@, table_items(*old(section)), kind@),
        table_slots(*final(section)) == table_slots(*old(section)),
        count == 0 ==> *final(section) == *old(section),
{
    let copy = match table_get(section, kind) {
        Some(item) => match item_as_table(item) {
            Some(t) => Some(table_clone(t)),
            None => None,
        },
        None => None,
    };
    let mut t = match copy {
        Some(t) => t,
        None => return 0,
    };
    let n = update_dependency_table(&mut t, updates);
    if n == 0 {
        return 0;
    }
    let ghost before = table_items(*section);
    let _ = take_item(section, kind);
    put_item(section, kind, join_entry(DependencyEntry::Table(t)));
    proof {
        assert(table_items(*section).dom() =~= before.dom());
    }
    n
}

/// Rewrites the default dependency tables of a manifest, or of one platform
/// table, and returns how many entries were rewritten.
pub fn update_section(section: &mut Table, updates: &RenameMap) -> (count: u64)
    ensures
        section_updated(updates@, table_items(*old(section)), table_items(*final(section))),
        count as nat == saturated(section_count(updates@, table_items(*old(section)))),
        table_slots(*final(section)) == table_slots(*old(section)),
        count == 0 ==> *final(section) == *old(section),
{
    proof {
        lemma_kinds_distinct();
    }
    let ghost before = table_items(*section);
    let a = update_kind(section, "dependencies", updates);
    let ghost s1 = table_items(*section);
    let b = update_kind(section, "dev-dependencies", updates);
    let ghost s2 = table_items(*section);
    let c = update_kind(section, "build-dependencies", updates);
    let ghost s3 = table_items(*section);
    let d = update_kind(section, "dev_dependencies", updates);
    let ghost s4 = table_items(*section);
    let e = update_kind(section, "build_dependencies", updates);
    proof {
        assert(kind_count(updates@, s1, "dev-dependencies"@) == kind_count(updates@, before, "dev-dependencies"@));
        assert(kind_count(updates@, s2, "build-dependencies"@) == kind_count(updates@, before, "build-dependencies"@));
        assert(kind_count(updates@, s3, "dev_dependencies"@) == kind_count(updates@, before, "dev_dependencies"@));
        assert(kind_count(updates@, s4, "build_dependencies"@) == kind_count(updates@, before, "build_dependencies"@));
    }
    (a as u64).saturating_add(b as u64).saturating_add(c as u64).saturating_add(d as u64).saturating_add(e as u64)
}

/// The number of entries rewritten under one platform key of `target`; an item
/// there that is no table is skipped.
pub open spec fn platform_count(updates: Map<Seq<char>, Seq<char>>, item: Item) -> nat {
    match item_table(item) {
        Some(t) => section_count(updates, table_items(t)),
        None => 0,
    }
}

pub open spec fn platform_step(updates: Map<Seq<char>, Seq<char>>, target: Map<Seq<char>, Item>) -> spec_fn(nat, Seq<char>) -> nat {
    |acc: nat, p: Seq<char>| acc + platform_count(updates, target[p])
}

/// The number of entries rewritten under all the platform keys of `target`.
pub open spec fn target_count(updates: Map<Seq<char>, Seq<char>>, target: Map<Seq<char>, Item>) -> nat {
    target.dom().fold(0nat, platform_step(updates, target))
}

/// The `target` table after the renames: each platform table updated, any
/// other item as it was.
pub open spec fn platforms_updated(
    updates: Map<Seq<char>, Seq<char>>,
    before: Map<Seq<char>, Item>,
    after: Map<Seq<char>, Item>,
) -> bool {
    &&& after.dom() == before.dom()
    &&& forall|p: Seq<char>| #[trigger] before.contains_key(p) ==> match item_table(before[p]) {
        Some(b) => match item_table(after[p]) {
            Some(a) => section_updated(updates, table_items(b), table_items(a)),
            None => false,
        },
        None => after[p] == before[p],
    }
}

/// Rewrites the dependency tables of every platform table under `target`.
fn update_platforms(target: &mut Table, updates: &RenameMap) -> (count: u64)
    ensures
        platforms_updated(updates@, table_items(*old(target)), table_items(*final(target))),
        count as nat == saturated(target_count(updates@, table_items(*old(target)))),
        table_slots(*final(target)) == table_slots(*old(target)),
        count == 0 ==> *final(target) == *old(target),
{
    let ghost before = table_items(*target);
    let ghost start = *target;
    let ghost f = platform_step(updates@, before);
    let keys = table_keys(target);
    let ghost ks = string_views(keys@);
    let mut count: u64 = 0;
    let mut i: usize = 0;
    proof {
        assert(ks.take(0).to_set() =~= Set::<Seq<char>>::empty());
        vstd::set::fold::lemma_fold_empty(0nat, f);
        assert(vstd::set::fold::is_fun_commutative(f)) by {
            assert forall|a1: Seq<char>, a2: Seq<char>, b: nat| #[trigger] f(f(b, a2), a1) == f(f(b, a1), a2) by {}
        }
    }
    while i < keys.len()
        invariant
            i <= keys.len(),
            ks == string_views(keys@),
            ks.to_set() == before.dom(),
            ks.no_duplicates(),
            f == platform_step(updates@, before),
            vstd::set::fold::is_fun_commutative(f),
            table_items(*target).dom() == before.dom(),
            forall|p: Seq<char>| #[trigger] before.contains_key(p) ==> if ks.take(i as int).contains(p) {
                match item_table(before[p]) {
                    Some(b) => match item_table(table_items(*target)[p]) {
                        Some(a) => section_updated(updates@, table_items(b), table_items(a)),
                        None => false,
                    },
                    None => table_items(*target)[p] == before[p],
                }
            } else {
                table_items(*target)[p] == before[p]
            },
            count as nat == saturated(ks.take(i as int).to_set().fold(0nat, f)),
            table_slots(*target) == table_slots(start),
            count == 0 ==> *target == start,
        decreases keys.len() - i,
    {
        let key = &keys[i];
        let ghost k = key@;
        proof {
            assert(ks[i as int] == k);
            assert(ks.to_set().contains(k));
            let prev = ks.take(i as int);
            let next = ks.take(i + 1);
            assert(next =~= prev + seq![k]);
            Seq::lemma_to_set_insert_commutes(prev, k);
            vstd::seq_lib::seq_to_set_is_finite(prev);
            assert forall|j: Seq<char>| next.contains(j) <==> prev.contains(j) || j == k by {
                if next.contains(j) {
                    let m = choose|m: int| 0 <= m < next.len() && #[trigger] next[m] == j;
                    if m < i {
                        assert(prev[m] == j);
                    }
                }
                if prev.contains(j) {
                    let m = choose|m: int| 0 <= m < prev.len() && #[trigger] prev[m] == j;
                    assert(next[m] == j);
                }
                if j == k {
                    assert(next[i as int] == j);
                }
            }
            assert(!prev.contains(k)) by {
                if prev.contains(k) {
                    let m = choose|m: int| 0 <= m < prev.len() && #[trigger] prev[m] == k;
                    assert(ks[m] == ks[i as int]);
                }
            }
            vstd::set::fold::lemma_fold_insert(prev.to_set(), 0nat, f, k);
        }
        let copy = match table_get(target, key.as_str()) {
            Some(item) => match item_as_table(item) {
                Some(t) => Some(table_clone(t)),
                None => None,
            },
            None => None,
        };
        if let Some(t) = copy {
            let mut t = t;
            let n = update_section(&mut t, updates);
            if n > 0 {
                let ghost mid = table_items(*target);
                let _ = take_item(target, key.as_str());
                put_item(target, key.as_str(), join_entry(DependencyEntry::Table(t)));
                proof {
                    assert(table_items(*target) =~= mid.insert(k, table_items(*target)[k]));
                }
                count = count.saturating_add(n);
            }
        }
        i = i + 1;
    }
    proof {
        assert(ks.take(i as int) =~= ks);
    }
    count
}

/// The number of entries rewritten in a whole manifest: its default
/// dependency tables and those of every platform under `target`.
pub open spec fn manifest_count(updates: Map<Seq<char>, Seq<char>>, root: Map<Seq<char>, Item>) -> nat {
    section_count(updates, root) + if root.contains_key("target"@) {
        match item_table(root["target"@]) {
            Some(t) => target_count(updates, table_items(t)),
            None => 0,
        }
    } else {
        0
    }
}

/// A whole manifest after the renames: its dependency tables, default and per
/// platform, are updated; every other item is as it was.
pub open spec fn manifest_updated(
    updates: Map<Seq<char>, Seq<char>>,
    before: Map<Seq<char>, Item>,
    after: Map<Seq<char>, Item>,
) -> bool {
    &&& after.dom() == before.dom()
    &&& forall|k: Seq<char>| #[trigger] before.contains_key(k) ==> if is_dependency_kind(k) {
        kind_updated(updates, before[k], after[k])
    } else if k == "target"@ {
        match item_table(before[k]) {
            Some(b) => match item_table(after[k]) {
                Some(a) => platforms_updated(updates, table_items(b), table_items(a)),
                None => false,
            },
            None => after[k] == before[k],
        }
    } else {
        after[k] == before[k]
    }
}

/// Rewrites every dependency declaration of one manifest, given as the root
/// table of its document, after the packages in `updates` were renamed.
/// Returns how many entries were rewritten.
pub fn update_manifest_dependencies(root: &mut Table, updates: &RenameMap) -> (count: u64)
    ensures
        manifest_updated(updates@, table_items(*old(root)), table_items(*final(root))),
        count as nat == saturated(manifest_count(updates@, table_items(*old(root)))),
        table_slots(*final(root)) == table_slots(*old(root)),
        count == 0 ==> *final(root) == *old(root),
{
    let ghost before = table_items(*root);
    let n = update_section(root, updates);
    let ghost mid = table_items(*root);
    proof {
        lemma_kinds_distinct();
        if before.contains_key("target"@) {
            assert(mid["target"@] == before["target"@]);
        }
    }
    let copy = match table_get(root, "target") {
        Some(item) => match item_as_table(item) {
            Some(t) => Some(table_clone(t)),
            None => None,
        },
        None => None,
    };
    let mut t = match copy {
        Some(t) => t,
        None => return n,
    };
    let m = update_platforms(&mut t, updates);
    if m == 0 {
        return n;
    }
    let _ = take_item(root, "target");
    put_item(root, "target", join_entry(DependencyEntry::Table(t)));
    proof {
        assert(table_items(*root) =~= mid.insert("target"@, table_items(*root)["target"@]));
    }
    n.saturating_add(m)
}

/// The package's name in `[package]` is `name`, written as `name = "<name>"`
/// in place of the old value; the rest of `[package]` and of the manifest is as
/// it was.
pub open spec fn name_set(before: Table, after: Table, name: Seq<char>) -> bool {
    &&& table_items(before).contains_key(package_key())
    &&& table_items(after).contains_key(package_key())
    &&& after == table_put(before, package_key(), table_items(after)[package_key()])
    &&& table_slots(after) == table_slots(before)
    &&& match item_table(table_items(before)[package_key()]) {
        Some(b) => item_table(table_items(after)[package_key()]) == Some(
            table_put(b, name_key(), item_of_value(string_value_of(name, " "@, ""@))),
        ),
        None => match item_inline(table_items(before)[package_key()]) {
            Some(b) => item_inline(table_items(after)[package_key()]) == Some(
                inline_inserted(b, name_key(), string_value_of(name, " "@, " "@)),
            ),
            None => false,
        },
    }
}

/// The first phase for one member: when it is selected and a new name was
/// proposed for it, its manifest's `[package]` gets that name and the pair
/// (old name, new name) is returned; otherwise nothing changes. A manifest
/// whose `package` is neither a table nor an inline table is not renamed.
pub fn rename_member(root: &mut Table, name: &String, selected: bool, proposed: Option<String>) -> (r: Option<(String, String)>)
    ensures
        match r {
            Some(pair) => {
                &&& selected
                &&& proposed matches Some(p) && pair.1@ == p@
                &&& pair.0@ == name@
                &&& name_set(*old(root), *final(root), pair.1@)
            },
            None => {
                &&& *final(root) == *old(root)
                &&& (selected && proposed is Some) ==> !(table_items(*old(root)).contains_key(package_key())
                    && (item_table(table_items(*old(root))[package_key()]) is Some
                    || item_inline(table_items(*old(root))[package_key()]) is Some))
            },
        },
{
    proof {
        reveal_strlit("package");
        reveal_strlit("name");
        assert("package"@ =~= package_key());
        assert("name"@ =~= name_key());
    }
    if !selected {
        return None;
    }
    let new_name = match proposed {
        Some(n) => n,
        None => return None,
    };
    let entry = match table_get(root, "package") {
        Some(item) => match item_as_table(item) {
            Some(t) => Some(DependencyEntry::Table(table_clone(t))),
            None => match item_as_inline(item) {
                Some(t) => Some(DependencyEntry::Inline(inline_clone(t))),
                None => None,
            },
        },
        None => None,
    };
    let entry = match entry {
        Some(DependencyEntry::Table(t)) => {
            let mut t = t;
            put_item(&mut t, "name", value_item(string_value(new_name.as_str(), " ", "")));
            DependencyEntry::Table(t)
        },
        Some(DependencyEntry::Inline(t)) => {
            let mut t = t;
            inline_insert(&mut t, "name", string_value(new_name.as_str(), " ", " "));
            DependencyEntry::Inline(t)
        },
        None => return None,
    };
    let ghost before = table_items(*root);
    let _ = take_item(root, "package");
    put_item(root, "package", join_entry(entry));
    Some((name.clone(), new_name))
}

/// The dependency table under `kind` of a manifest before the renames.
pub open spec fn kind_table(root: Map<Seq<char>, Item>, kind: Seq<char>) -> Option<Table> {
    if is_dependency_kind(kind) && root.contains_key(kind) {
        item_table(root[kind])
    } else {
        None
    }
}

/// A dependency declared under a name that is not renamed is left exactly as
/// it was.
pub proof fn lemma_untouched_when_not_renamed(
    updates: Map<Seq<char>, Seq<char>>,
    before: Map<Seq<char>, Item>,
    after: Map<Seq<char>, Item>,
    kind: Seq<char>,
    key: Seq<char>,
)
    requires
        manifest_updated(updates, before, after),
        kind_table(before, kind) matches Some(b) && table_items(b).contains_key(key),
        !updates.contains_key(key),
    ensures
        item_table(after[kind]) matches Some(a) && table_items(a)[key] == table_items(kind_table(before, kind)->0)[key],
{
    assert(before.contains_key(kind));
}

/// A dependency on a renamed package that does not point at a directory is
/// left exactly as it was.
pub proof fn lemma_untouched_when_not_local(
    updates: Map<Seq<char>, Seq<char>>,
    before: Map<Seq<char>, Item>,
    after: Map<Seq<char>, Item>,
    kind: Seq<char>,
    key: Seq<char>,
)
    requires
        manifest_updated(updates, before, after),
        kind_table(before, kind) matches Some(b) && table_items(b).contains_key(key)
            && !item_is_local(table_items(b)[key]),
    ensures
        item_table(after[kind]) matches Some(a) && table_items(a)[key] == table_items(kind_table(before, kind)->0)[key],
{
    assert(before.contains_key(kind));
}

/// A local dependency declared under a renamed package's old name gets the new
/// name as its `package`, keeps its form, and keeps every other field.
pub proof fn lemma_renamed_local_points_at_new_name(
    updates: Map<Seq<char>, Seq<char>>,
    before: Map<Seq<char>, Item>,
    after: Map<Seq<char>, Item>,
    kind: Seq<char>,
    key: Seq<char>,
)
    requires
        manifest_updated(updates, before, after),
        kind_table(before, kind) matches Some(b) && table_items(b).contains_key(key)
            && item_is_local(table_items(b)[key]),
        updates.contains_key(key),
    ensures
        item_table(after[kind]) matches Some(a) && item_package_set(
            table_items(kind_table(before, kind)->0)[key],
            table_items(a)[key],
            updates[key],
        ),
{
    assert(before.contains_key(kind));
}

/// The `target` table of a manifest.
pub open spec fn target_table(root: Map<Seq<char>, Item>) -> Option<Table> {
    if root.contains_key("target"@) {
        item_table(root["target"@])
    } else {
        None
    }
}

/// The dependency table under `kind` of the platform table `platform`.
pub open spec fn platform_kind_table(root: Map<Seq<char>, Item>, platform: Seq<char>, kind: Seq<char>) -> Option<Table> {
    match target_table(root) {
        Some(t) => if table_items(t).contains_key(platform) {
            match item_table(table_items(t)[platform]) {
                Some(p) => kind_table(table_items(p), kind),
                None => None,
            }
        } else {
            None
        },
        None => None,
    }
}

/// A dependency declared in a platform table under `target` follows the same
/// rule as one in a default dependency table.
pub proof fn lemma_platform_dependency(
    updates: Map<Seq<char>, Seq<char>>,
    before: Map<Seq<char>, Item>,
    after: Map<Seq<char>, Item>,
    platform: Seq<char>,
    kind: Seq<char>,
    key: Seq<char>,
)
    requires
        manifest_updated(updates, before, after),
        platform_kind_table(before, platform, kind) matches Some(b) && table_items(b).contains_key(key),
    ensures
        platform_kind_table(after, platform, kind) matches Some(a) && item_updated(
            updates,
            key,
            table_items(platform_kind_table(before, platform, kind)->0)[key],
            table_items(a)[key],
        ),
{
    lemma_kinds_distinct();
    assert(before.contains_key("target"@));
    let t = target_table(before)->0;
    assert(table_items(t).contains_key(platform));
    let p = item_table(table_items(t)[platform])->0;
    assert(table_items(p).contains_key(kind));
}

/// An item under `target` that is no table is skipped and left as it was.
pub proof fn lemma_platform_non_table_skipped(
    updates: Map<Seq<char>, Seq<char>>,
    before: Map<Seq<char>, Item>,
    after: Map<Seq<char>, Item>,
    platform: Seq<char>,
)
    requires
        manifest_updated(updates, before, after),
        target_table(before) matches Some(t) && table_items(t).contains_key(platform)
            && item_table(table_items(t)[platform]) is None,
    ensures
        target_table(after) matches Some(ta) && table_items(ta)[platform] == table_items(
            target_table(before)->0,
        )[platform],
{
    lemma_kinds_distinct();
    assert(before.contains_key("target"@));
}

} // verus!
