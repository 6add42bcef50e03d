//! What entry point detection reads of a TOML manifest (`Cargo.toml`,
//! `pyproject.toml`).
use vstd::prelude::*;

use crate::model::opt_view;

verus! {

/// A `[[bin]]` table of a Cargo manifest: its `name` and `path`, where
/// they are strings.
pub struct TomlBinTarget {
    pub name: Option<String>,
    pub path: Option<String>,
}

/// An entry of `[project.scripts]`: its key, and its value where that is a
/// string.
pub struct TomlScript {
    pub name: String,
    pub target: Option<String>,
}

/// What entry points are read from in a Cargo manifest: the `name` of
/// `[package]` where it is a string, and the `[[bin]]` tables where `bin` is
/// an array of tables.
pub struct CargoManifest {
    pub package_name: Option<String>,
    pub bins: Option<Vec<TomlBinTarget>>,
}

/// A Cargo manifest as plain values.
pub struct CargoManifestV {
    pub package_name: Option<Seq<char>>,
    pub bins: Option<Seq<(Option<Seq<char>>, Option<Seq<char>>)>>,
}

pub open spec fn bin_views(v: Seq<TomlBinTarget>) -> Seq<(Option<Seq<char>>, Option<Seq<char>>)> {
    v.map_values(|b: TomlBinTarget| (opt_view(b.name), opt_view(b.path)))
}

pub open spec fn script_views(v: Seq<TomlScript>) -> Seq<(Seq<char>, Option<Seq<char>>)> {
    v.map_values(|s: TomlScript| (s.name@, opt_view(s.target)))
}

pub open spec fn cargo_manifest_view(m: CargoManifest) -> CargoManifestV {
    CargoManifestV {
        package_name: opt_view(m.package_name),
        bins: match m.bins {
            Some(b) => Some(bin_views(b@)),
            None => None,
        },
    }
}

// ---------------------------------------------------------------------------
// A TOML document as plain data
// ---------------------------------------------------------------------------

/// A TOML item as `toml_edit` presents it: a string, another scalar, an
/// array, an inline table, a table, or an array of tables. Tables list
/// their entries in document order.
pub enum TomlItem {
    Absent,
    Str(String),
    Integer(i64),
    Float,
    Boolean(bool),
    Datetime,
    Array,
    InlineTable(Vec<TomlEntry>),
    Table(Vec<TomlEntry>),
    ArrayOfTables(Vec<Vec<TomlEntry>>),
}

/// One entry of a table.
pub struct TomlEntry {
    pub key: String,
    pub item: TomlItem,
}

#[verifier::external_type_specification]
#[verifier::external_body]
pub struct ExTomlItem(toml_edit::Item);

#[verifier::external_type_specification]
#[verifier::external_body]
pub struct ExTomlValue(toml_edit::Value);

#[verifier::external_type_specification]
#[verifier::external_body]
pub struct ExTomlTable(toml_edit::Table);

/// The entries `toml_edit::Table::iter` yields (those that are not
/// empty), each item turned into the library's form. Nothing is promised
/// of the result.
#[verifier::external_body]
fn toml_entries_from(table: &toml_edit::Table) -> Vec<TomlEntry> {
    table.iter().map(|(key, item)| TomlEntry { key: key.to_string(), item: toml_item_from(item) }).collect()
}

/// A `toml_edit::Item` in the library's form, variant by variant.
#[verifier::external_body]
fn toml_item_from(item: &toml_edit::Item) -> TomlItem {
    match item {
        toml_edit::Item::None => TomlItem::Absent,
        toml_edit::Item::Value(value) => toml_value_from(value),
        toml_edit::Item::Table(table) => TomlItem::Table(toml_entries_from(table)),
        toml_edit::Item::ArrayOfTables(tables) => TomlItem::ArrayOfTables(tables.iter().map(toml_entries_from).collect()),
    }
}

/// A `toml_edit::Value` in the library's form, variant by variant; the
/// entries of an inline table are those `InlineTable::iter` yields.
#[verifier::external_body]
fn toml_value_from(value: &toml_edit::Value) -> TomlItem {
    match value {
        toml_edit::Value::String(s) => TomlItem::Str(s.value().clone()),
        toml_edit::Value::Integer(i) => TomlItem::Integer(*i.value()),
        toml_edit::Value::Float(_) => TomlItem::Float,
        toml_edit::Value::Boolean(b) => TomlItem::Boolean(*b.value()),
        toml_edit::Value::Datetime(_) => TomlItem::Datetime,
        toml_edit::Value::Array(_) => TomlItem::Array,
        toml_edit::Value::InlineTable(t) => TomlItem::InlineTable(
            t.iter().map(|(key, v)| TomlEntry { key: key.to_string(), item: toml_value_from(v) }).collect(),
        ),
    }
}

/// The entries of the root table of a TOML text, or `None` when the text
/// does not parse.
pub uninterp spec fn toml_document_of(content: Seq<char>) -> Option<Seq<TomlEntry>>;

/// `str::parse::<toml_edit::DocumentMut>`: the contract names the parsed
/// document as a function of the text alone; which texts parse, and to
/// what, is toml_edit's.
#[verifier::external_body]
pub(crate) fn parse_toml_document(content: &str) -> (r: Option<Vec<TomlEntry>>)
    ensures
        match r {
            Some(v) => toml_document_of(content@) == Some(v@),
            None => toml_document_of(content@) is None,
        },
{
    match content.parse::<toml_edit::DocumentMut>() {
        Ok(doc) => Some(toml_entries_from(doc.as_table())),
        Err(_) => None,
    }
}

/// `Table::get(key)`: the item of the entry `key`, unless it is empty.
pub open spec fn entries_get(es: Seq<TomlEntry>, key: Seq<char>) -> Option<TomlItem>
    decreases es.len(),
{
    if es.len() == 0 {
        None
    } else if es[0].key@ == key && !(es[0].item is Absent) {
        Some(es[0].item)
    } else {
        entries_get(es.drop_first(), key)
    }
}

/// `Item::get(key)`: the entry `key` of a table or an inline table.
pub open spec fn item_get(item: Option<TomlItem>, key: Seq<char>) -> Option<TomlItem> {
    match item {
        Some(TomlItem::Table(es)) => entries_get(es@, key),
        Some(TomlItem::InlineTable(es)) => entries_get(es@, key),
        _ => None,
    }
}

/// `as_str`.
pub open spec fn item_text(item: Option<TomlItem>) -> Option<Seq<char>> {
    match item {
        Some(TomlItem::Str(s)) => Some(s@),
        _ => None,
    }
}

/// What entry points are read from in a Cargo manifest document.
pub open spec fn cargo_of_document(doc: Seq<TomlEntry>) -> CargoManifestV {
    CargoManifestV {
        package_name: item_text(item_get(entries_get(doc, "package"@), "name"@)),
        bins: match entries_get(doc, "bin"@) {
            Some(TomlItem::ArrayOfTables(ts)) => Some(
                Seq::new(
                    ts@.len(),
                    |i: int| (item_text(entries_get(ts@[i]@, "name"@)), item_text(entries_get(ts@[i]@, "path"@))),
                ),
            ),
            _ => None,
        },
    }
}

/// The Cargo manifest fields of a TOML text, or `None` when it does not
/// parse.
pub open spec fn cargo_manifest_of(content: Seq<char>) -> Option<CargoManifestV> {
    match toml_document_of(content) {
        Some(doc) => Some(cargo_of_document(doc)),
        None => None,
    }
}

/// The `[project.scripts]` entries of a document, in document order, each
/// with its value where that is a string; `None` when there is no such
/// table (an inline `scripts` table does not count).
pub open spec fn scripts_of_document(doc: Seq<TomlEntry>) -> Option<Seq<(Seq<char>, Option<Seq<char>>)>> {
    match item_get(entries_get(doc, "project"@), "scripts"@) {
        Some(TomlItem::Table(es)) => Some(Seq::new(es@.len(), |i: int| (es@[i].key@, item_text(Some(es@[i].item))))),
        _ => None,
    }
}

/// The `[project.scripts]` entries of a TOML text; `None` when the text
/// does not parse or has no such table.
pub open spec fn pyproject_scripts_of(content: Seq<char>) -> Option<Seq<(Seq<char>, Option<Seq<char>>)>> {
    match toml_document_of(content) {
        Some(doc) => scripts_of_document(doc),
        None => None,
    }
}

fn entry_get<'a>(es: &'a Vec<TomlEntry>, key: &str) -> (r: Option<&'a TomlItem>)
    ensures
        match r {
            Some(it) => entries_get(es@, key@) == Some(*it),
            None => entries_get(es@, key@) is None,
        },
{
    let mut i: usize = 0;
    assert(es@.skip(0) =~= es@);
    while i < es.len()
        invariant
            i <= es@.len(),
            entries_get(es@, key@) == entries_get(es@.skip(i as int), key@),
        decreases es@.len() - i,
    {
        assert(es@.skip(i as int)[0] == es@[i as int]);
        assert(es@.skip(i as int).drop_first() =~= es@.skip(i + 1));
        let absent = match es[i].item {
            TomlItem::Absent => true,
            _ => false,
        };
        if crate::text::str_eq(es[i].key.as_str(), key) && !absent {
            return Some(&es[i].item);
        }
        i = i + 1;
    }
    assert(es@.skip(i as int) =~= Seq::<TomlEntry>::empty());
    None
}

fn item_entry<'a>(item: Option<&'a TomlItem>, key: &str) -> (r: Option<&'a TomlItem>)
    ensures
        match r {
            Some(it) => item_get(opt_item(item), key@) == Some(*it),
            None => item_get(opt_item(item), key@) is None,
        },
{
    match item {
        Some(TomlItem::Table(es)) => entry_get(es, key),
        Some(TomlItem::InlineTable(es)) => entry_get(es, key),
        _ => None,
    }
}

pub open spec fn opt_item(item: Option<&TomlItem>) -> Option<TomlItem> {
    match item {
        Some(it) => Some(*it),
        None => None,
    }
}

fn item_string(item: Option<&TomlItem>) -> (r: Option<String>)
    ensures
        opt_view(r) == item_text(opt_item(item)),
{
    match item {
        Some(TomlItem::Str(s)) => Some(s.clone()),
        _ => None,
    }
}

/// Reads the fields entry point detection uses from a Cargo manifest
/// text: the package name and the `[[bin]]` tables.
pub(crate) fn parse_cargo_manifest(content: &str) -> (r: Option<CargoManifest>)
    ensures
        match r {
            Some(m) => cargo_manifest_of(content@) == Some(cargo_manifest_view(m)),
            None => cargo_manifest_of(content@) is None,
        },
{
    let doc = match parse_toml_document(content) {
        Some(d) => d,
        None => return None,
    };
    let package = entry_get(&doc, "package");
    let package_name = item_string(item_entry(package, "name"));
    let bins = match entry_get(&doc, "bin") {
        Some(TomlItem::ArrayOfTables(ts)) => {
            let mut out: Vec<TomlBinTarget> = Vec::new();
            let mut i: usize = 0;
            while i < ts.len()
                invariant
                    i <= ts@.len(),
                    out@.len() == i,
                    forall|k: int| 0 <= k < i ==> #[trigger] bin_views(out@)[k] == (
                        item_text(entries_get(ts@[k]@, "name"@)),
                        item_text(entries_get(ts@[k]@, "path"@)),
                    ),
                decreases ts@.len() - i,
            {
                let name = item_string(entry_get(&ts[i], "name"));
                let path = item_string(entry_get(&ts[i], "path"));
                let ghost before = out@;
                out.push(TomlBinTarget { name, path });
                assert forall|k: int| 0 <= k < i + 1 implies #[trigger] bin_views(out@)[k] == (
                    item_text(entries_get(ts@[k]@, "name"@)),
                    item_text(entries_get(ts@[k]@, "path"@)),
                ) by {
                    if k < i {
                        assert(bin_views(out@)[k] == bin_views(before)[k]);
                    }
                }
                i = i + 1;
            }
            assert(bin_views(out@) =~= Seq::new(
                ts@.len(),
                |k: int| (item_text(entries_get(ts@[k]@, "name"@)), item_text(entries_get(ts@[k]@, "path"@))),
            ));
            Some(out)
        },
        _ => None,
    };
    let m = CargoManifest { package_name, bins };
    assert(cargo_manifest_view(m) == cargo_of_document(doc@));
    Some(m)
}

/// Reads the `[project.scripts]` entries of a pyproject text.
pub(crate) fn parse_pyproject_scripts(content: &str) -> (r: Option<Vec<TomlScript>>)
    ensures
        match r {
            Some(v) => pyproject_scripts_of(content@) == Some(script_views(v@)),
            None => pyproject_scripts_of(content@) is None,
        },
{
    let doc = match parse_toml_document(content) {
        Some(d) => d,
        None => return None,
    };
    let project = entry_get(&doc, "project");
    match item_entry(project, "scripts") {
        Some(TomlItem::Table(es)) => {
            let mut out: Vec<TomlScript> = Vec::new();
            let mut i: usize = 0;
            while i < es.len()
                invariant
                    i <= es@.len(),
                    out@.len() == i,
                    forall|k: int| 0 <= k < i ==> #[trigger] script_views(out@)[k] == (
                        es@[k].key@,
                        item_text(Some(es@[k].item)),
                    ),
                decreases es@.len() - i,
            {
                let target = item_string(Some(&es[i].item));
                let ghost before = out@;
                out.push(TomlScript { name: es[i].key.clone(), target });
                assert forall|k: int| 0 <= k < i + 1 implies #[trigger] script_views(out@)[k] == (
                    es@[k].key@,
                    item_text(Some(es@[k].item)),
                ) by {
                    if k < i {
                        assert(script_views(out@)[k] == script_views(before)[k]);
                    }
                }
                i = i + 1;
            }
            assert(script_views(out@) =~= Seq::new(es@.len(), |k: int| (es@[k].key@, item_text(Some(es@[k].item)))));
            Some(out)
        },
        _ => None,
    }
}

} // verus!
