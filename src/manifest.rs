//! The parts of a `toml_edit` document that renaming reads and writes.
//!
//! A table is seen as a map from keys to the items they hold; an inline table
//! as a map from keys to values. Every edit below is stated over those maps.
use toml_edit::{InlineTable, Item, Table, Value};
use vstd::prelude::*;

verus! {

#[verifier::external_type_specification]
#[verifier::external_body]
pub struct ExTable(toml_edit::Table);

#[verifier::external_type_specification]
#[verifier::external_body]
pub struct ExInlineTable(toml_edit::InlineTable);

#[verifier::external_type_specification]
#[verifier::external_body]
pub struct ExItem(toml_edit::Item);

#[verifier::external_type_specification]
#[verifier::external_body]
pub struct ExValue(toml_edit::Value);

/// The items of a table by key: what `Table::get` finds.
pub uninterp spec fn table_items(t: Table) -> Map<Seq<char>, Item>;

/// The values of an inline table by key: what `InlineTable::get` finds.
pub uninterp spec fn inline_values(t: InlineTable) -> Map<Seq<char>, Value>;

/// What `Value::as_str` returns.
pub uninterp spec fn value_text(v: Value) -> Option<Seq<char>>;

/// What `Item::as_str` returns.
pub uninterp spec fn item_text(i: Item) -> Option<Seq<char>>;

/// What `Item::as_inline_table` returns.
pub uninterp spec fn item_inline(i: Item) -> Option<InlineTable>;

/// What `Item::as_table` returns.
pub uninterp spec fn item_table(i: Item) -> Option<Table>;

/// The keys of a table's slots in document order, including a slot whose item
/// was taken out: the order in which `Table` keeps its entries.
pub uninterp spec fn table_slots(t: Table) -> Seq<Seq<char>>;

/// The keys of an inline table's slots in document order.
pub uninterp spec fn inline_slots(t: InlineTable) -> Seq<Seq<char>>;

/// What `t[key] = item` (`IndexMut<&str>` for `Table`) leaves in `t`.
pub uninterp spec fn table_put(t: Table, key: Seq<char>, item: Item) -> Table;

/// What `InlineTable::insert(key, v)` leaves in `t`.
pub uninterp spec fn inline_inserted(t: InlineTable, key: Seq<char>, v: Value) -> InlineTable;

/// What `Value::from(s).decorated(prefix, suffix)` returns.
pub uninterp spec fn string_value_of(s: Seq<char>, prefix: Seq<char>, suffix: Seq<char>) -> Value;

/// What `Item::Value(v)` is.
pub uninterp spec fn item_of_value(v: Value) -> Item;

/// The key under which a dependency points at a directory of the workspace.
pub open spec fn path_key() -> Seq<char> {
    seq!['p', 'a', 't', 'h']
}

/// The key that names the package a dependency resolves to.
pub open spec fn package_key() -> Seq<char> {
    seq!['p', 'a', 'c', 'k', 'a', 'g', 'e']
}

/// The key of a package's own name inside `[package]`.
pub open spec fn name_key() -> Seq<char> {
    seq!['n', 'a', 'm', 'e']
}

/// The views of a sequence of strings.
pub open spec fn string_views(s: Seq<String>) -> Seq<Seq<char>> {
    s.map_values(|x: String| x@)
}

/// Relies on `toml_edit::Table::iter`: it yields every key that holds an item,
/// each once.
#[verifier::external_body]
pub(crate) fn table_keys(t: &Table) -> (r: Vec<String>)
    ensures
        string_views(r@).to_set() == table_items(*t).dom(),
        string_views(r@).no_duplicates(),
{
    t.iter().map(|(k, _)| k.to_owned()).collect()
}

/// Relies on `toml_edit::Table::get`.
#[verifier::external_body]
pub(crate) fn table_get<'a>(t: &'a Table, key: &str) -> (r: Option<&'a Item>)
    ensures
        match r {
            Some(i) => table_items(*t).contains_key(key@) && table_items(*t)[key@] == *i,
            None => !table_items(*t).contains_key(key@),
        },
{
    t.get(key)
}

/// Relies on `toml_edit::Table::contains_key`.
#[verifier::external_body]
pub(crate) fn table_contains_key(t: &Table, key: &str) -> (r: bool)
    ensures
        r == table_items(*t).contains_key(key@),
{
    t.contains_key(key)
}

/// Relies on `toml_edit::InlineTable::contains_key`.
#[verifier::external_body]
pub(crate) fn inline_contains_key(t: &InlineTable, key: &str) -> (r: bool)
    ensures
        r == inline_values(*t).contains_key(key@),
{
    t.contains_key(key)
}

/// Relies on `toml_edit::Item::as_inline_table`.
#[verifier::external_body]
pub(crate) fn item_as_inline(i: &Item) -> (r: Option<&InlineTable>)
    ensures
        match r {
            Some(t) => item_inline(*i) == Some(*t),
            None => item_inline(*i) is None,
        },
{
    i.as_inline_table()
}

/// Relies on `toml_edit::Item::as_table`.
#[verifier::external_body]
pub(crate) fn item_as_table(i: &Item) -> (r: Option<&Table>)
    ensures
        match r {
            Some(t) => item_table(*i) == Some(*t),
            None => item_table(*i) is None,
        },
{
    i.as_table()
}

/// Relies on `IndexMut<&str>` for `toml_edit::Table` and `Item`'s `Default`
/// (`Item::None`): the slot of `key` keeps its place and decoration but holds
/// nothing until an item is put back.
#[verifier::external_body]
pub(crate) fn take_item(t: &mut Table, key: &str) -> (r: Item)
    requires
        table_items(*old(t)).contains_key(key@),
    ensures
        r == table_items(*old(t))[key@],
        table_items(*final(t)) == table_items(*old(t)).remove(key@),
        table_slots(*final(t)) == table_slots(*old(t)),
        table_slots(*final(t)).contains(key@),
        forall|i: Item| #[trigger] table_put(*final(t), key@, i) == table_put(*old(t), key@, i),
{
    std::mem::take(&mut t[key])
}

/// Relies on `IndexMut<&str>` for `toml_edit::Table`: the item is stored under
/// `key`, in the slot the key already has, else in a new slot at the end.
/// An item that is a string, an inline table or a table is never `Item::None`.
/// Only the slot's item changes, so storing the same item again changes nothing.
#[verifier::external_body]
pub(crate) fn put_item(t: &mut Table, key: &str, item: Item)
    requires
        item_text(item) is Some || item_inline(item) is Some || item_table(item) is Some,
    ensures
        *final(t) == table_put(*old(t), key@, item),
        table_items(*final(t)) == table_items(*old(t)).insert(key@, item),
        table_slots(*final(t)) == if table_slots(*old(t)).contains(key@) {
            table_slots(*old(t))
        } else {
            table_slots(*old(t)).push(key@)
        },
        forall|s: Table| *old(t) == table_put(s, key@, item) ==> *final(t) == *old(t),
{
    t[key] = item;
}

/// Relies on `toml_edit::InlineTable::insert`: the value replaces any value
/// under `key`, and no other key changes. An existing key keeps its place and
/// loses its own spacing (`Key::fmt`), a new key goes at the end; so inserting
/// the same value a second time changes nothing.
#[verifier::external_body]
pub(crate) fn inline_insert(t: &mut InlineTable, key: &str, v: Value)
    ensures
        *final(t) == inline_inserted(*old(t), key@, v),
        inline_values(*final(t)) == inline_values(*old(t)).insert(key@, v),
        inline_slots(*final(t)) == if inline_slots(*old(t)).contains(key@) {
            inline_slots(*old(t))
        } else {
            inline_slots(*old(t)).push(key@)
        },
        forall|s: InlineTable| *old(t) == inline_inserted(s, key@, v) ==> *final(t) == *old(t),
{
    t.insert(key, v);
}

/// Relies on `From<&str>` for `toml_edit::Value` and `Value::decorated`: a
/// string value holding `s`, with the given whitespace around it.
#[verifier::external_body]
pub(crate) fn string_value(s: &str, prefix: &str, suffix: &str) -> (r: Value)
    ensures
        r == string_value_of(s@, prefix@, suffix@),
        value_text(r) == Some(s@),
{
    Value::from(s).decorated(prefix, suffix)
}

/// Relies on `toml_edit::Item::Value`: the item holding `v`, whose `as_str`
/// is that of `v`.
#[verifier::external_body]
pub(crate) fn value_item(v: Value) -> (r: Item)
    ensures
        r == item_of_value(v),
        item_text(r) == value_text(v),
{
    Item::Value(v)
}

/// Relies on the derived `Clone` of `toml_edit::Table`: a copy with the same
/// items, order and formatting.
#[verifier::external_body]
pub(crate) fn table_clone(t: &Table) -> (r: Table)
    ensures
        r == *t,
{
    t.clone()
}

/// Relies on the derived `Clone` of `toml_edit::InlineTable`: a copy with the
/// same values, order and formatting.
#[verifier::external_body]
pub(crate) fn inline_clone(t: &InlineTable) -> (r: InlineTable)
    ensures
        r == *t,
{
    t.clone()
}

/// A dependency declared either inline, `a = { path = "../a" }`, or as a
/// table of its own, `[dependencies.a]`.
pub enum DependencyEntry {
    Inline(InlineTable),
    Table(Table),
}

/// Relies on the variants of `toml_edit::Item` and `toml_edit::Value`: an inline
/// table or a table is taken out of the item, anything else is handed back.
#[verifier::external_body]
pub(crate) fn split_item(i: Item) -> (r: Result<DependencyEntry, Item>)
    ensures
        match r {
            Ok(DependencyEntry::Inline(t)) => item_inline(i) == Some(t) && item_table(i) is None,
            Ok(DependencyEntry::Table(t)) => item_table(i) == Some(t) && item_inline(i) is None,
            Err(j) => j == i && item_inline(i) is None && item_table(i) is None,
        },
{
    match i {
        Item::Value(Value::InlineTable(t)) => Ok(DependencyEntry::Inline(t)),
        Item::Table(t) => Ok(DependencyEntry::Table(t)),
        other => Err(other),
    }
}

/// Relies on the variants of `toml_edit::Item` and `toml_edit::Value`: the item
/// that holds the entry, seen again by `as_inline_table` or `as_table`.
#[verifier::external_body]
pub(crate) fn join_entry(e: DependencyEntry) -> (r: Item)
    ensures
        match e {
            DependencyEntry::Inline(t) => item_inline(r) == Some(t) && item_table(r) is None,
            DependencyEntry::Table(t) => item_table(r) == Some(t) && item_inline(r) is None,
        },
{
    match e {
        DependencyEntry::Inline(t) => Item::Value(Value::InlineTable(t)),
        DependencyEntry::Table(t) => Item::Table(t),
    }
}

} // verus!
