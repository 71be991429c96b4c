//! Installing the preprocessor into a book: the changes to `book.toml`
//! that register the preprocessor and the playground's script and style
//! files.
use vstd::prelude::*;
use crate::text::{append_chars, chars_of, ends_with, ends_with_chars, string_of};
use crate::lang::{fence_tags, spec_map_lang};
use toml_edit::{Array, DocumentMut, Item, Value};

verus! {

#[verifier::external_type_specification]
#[verifier::external_body]
pub struct ExDocumentMut(toml_edit::DocumentMut);

/// What stands at a place in a TOML document.
#[derive(PartialEq, Eq, Structural, Clone, Copy, Debug)]
pub enum TomlKind {
    /// Nothing.
    Missing,
    /// A table with a `[header]`.
    Table,
    /// An inline table `{ ... }`.
    InlineTable,
    /// An array value `[ ... ]`.
    Array,
    /// An array of tables `[[header]]`.
    ArrayOfTables,
    /// Any other value: a string, number, boolean or date.
    Value,
}

/// Whether no table of `doc` holds an empty placeholder entry
/// (`toml_edit::Item::None`), which the parser never makes.
pub uninterp spec fn toml_no_placeholders(doc: DocumentMut) -> bool;

/// What stands in `doc` at `path`, each key looked up in the table or inline
/// table that the path has reached so far (`toml_edit::Item::get`); `Missing`
/// where a key is absent or the path meets something else.
pub uninterp spec fn toml_kind_at(doc: DocumentMut, path: Seq<Seq<char>>) -> TomlKind;

/// The elements of the array at `path` in `doc`, each as its text where it is a
/// string and `None` otherwise; empty where no array stands there.
pub uninterp spec fn toml_strings_at(doc: DocumentMut, path: Seq<Seq<char>>) -> Seq<
    Option<Seq<char>>,
>;

/// The boolean at `path` in `doc`, where a boolean stands there.
pub uninterp spec fn toml_bool_at(doc: DocumentMut, path: Seq<Seq<char>>) -> Option<bool>;

/// The string at `path` in `doc`, where a string stands there.
pub uninterp spec fn toml_str_at(doc: DocumentMut, path: Seq<Seq<char>>) -> Option<
    Seq<char>,
>;

/// The value at `path` in `doc` as `toml_edit` writes it (`Display` of
/// `toml_edit::Value`, decoration included), where a value stands there: a
/// string, number, boolean, date, array or inline table.
pub uninterp spec fn toml_value_text_at(doc: DocumentMut, path: Seq<Seq<char>>) -> Option<
    Seq<char>,
>;

/// Whether `text` is a TOML document (`DocumentMut::from_str` succeeds).
pub uninterp spec fn toml_parses(text: Seq<char>) -> bool;

/// The document that `DocumentMut::from_str` makes of `text`.
pub uninterp spec fn toml_parsed(text: Seq<char>) -> DocumentMut;

/// The text of `doc`, as its `Display` writes it.
pub uninterp spec fn toml_text(doc: DocumentMut) -> Seq<char>;

/// One of the two paths is a prefix of the other.
pub open spec fn paths_related(p: Seq<Seq<char>>, q: Seq<Seq<char>>) -> bool {
    ||| (p.len() <= q.len() && q.take(p.len() as int) == p)
    ||| (q.len() <= p.len() && p.take(q.len() as int) == q)
}

/// `d1` and `d2` hold the same at `path`.
pub open spec fn toml_same_at(
    d1: DocumentMut,
    d2: DocumentMut,
    path: Seq<Seq<char>>,
) -> bool {
    &&& toml_kind_at(d1, path) == toml_kind_at(d2, path)
    &&& toml_strings_at(d1, path) == toml_strings_at(d2, path)
    &&& toml_bool_at(d1, path) == toml_bool_at(d2, path)
    &&& toml_str_at(d1, path) == toml_str_at(d2, path)
    &&& toml_value_text_at(d1, path) == toml_value_text_at(d2, path)
}

/// `d1` and `d2` hold the same everywhere but on the way to `target` and below it.
pub open spec fn toml_same_except(
    d1: DocumentMut,
    d2: DocumentMut,
    target: Seq<Seq<char>>,
) -> bool {
    forall|p: Seq<Seq<char>>| !paths_related(p, target) ==> #[trigger] toml_same_at(d1, d2, p)
}

/// What stands at `[a]`.
#[verifier::external_body]
fn toml_kind1(doc: &DocumentMut, a: &str) -> (res: TomlKind)
    ensures
        res == toml_kind_at(*doc, seq![a@]),
{
    match doc.get(a) {
        None | Some(Item::None) => TomlKind::Missing,
        Some(Item::Table(_)) => TomlKind::Table,
        Some(Item::ArrayOfTables(_)) => TomlKind::ArrayOfTables,
        Some(Item::Value(Value::InlineTable(_))) => TomlKind::InlineTable,
        Some(Item::Value(Value::Array(_))) => TomlKind::Array,
        Some(Item::Value(_)) => TomlKind::Value,
    }
}

/// What stands at `[a, b]`.
#[verifier::external_body]
fn toml_kind2(doc: &DocumentMut, a: &str, b: &str) -> (res: TomlKind)
    ensures
        res == toml_kind_at(*doc, seq![a@, b@]),
{
    match doc.get(a).and_then(|x| x.get(b)) {
        None | Some(Item::None) => TomlKind::Missing,
        Some(Item::Table(_)) => TomlKind::Table,
        Some(Item::ArrayOfTables(_)) => TomlKind::ArrayOfTables,
        Some(Item::Value(Value::InlineTable(_))) => TomlKind::InlineTable,
        Some(Item::Value(Value::Array(_))) => TomlKind::Array,
        Some(Item::Value(_)) => TomlKind::Value,
    }
}

/// What stands at `[a, b, c]`.
#[verifier::external_body]
fn toml_kind3(doc: &DocumentMut, a: &str, b: &str, c: &str) -> (res: TomlKind)
    ensures
        res == toml_kind_at(*doc, seq![a@, b@, c@]),
{
    match doc.get(a).and_then(|x| x.get(b)).and_then(|x| x.get(c)) {
        None | Some(Item::None) => TomlKind::Missing,
        Some(Item::Table(_)) => TomlKind::Table,
        Some(Item::ArrayOfTables(_)) => TomlKind::ArrayOfTables,
        Some(Item::Value(Value::InlineTable(_))) => TomlKind::InlineTable,
        Some(Item::Value(Value::Array(_))) => TomlKind::Array,
        Some(Item::Value(_)) => TomlKind::Value,
    }
}

/// The views of an optional list of optional strings.
pub open spec fn items_view(items: Option<Vec<Option<String>>>) -> Option<Seq<Option<Seq<char>>>> {
    match items {
        Some(v) => Some(
            v@.map_values(
                |g: Option<String>|
                    match g {
                        Some(t) => Some(t@),
                        None => None,
                    },
            ),
        ),
        None => None,
    }
}

/// The array at `[a, b, c]` reached through tables with headers, as the
/// elements' texts (`None` for an element that is not a string); `None`
/// where no such array stands there.
pub open spec fn array_view(
    doc: DocumentMut,
    a: Seq<char>,
    b: Seq<char>,
    c: Seq<char>,
) -> Option<Seq<Option<Seq<char>>>> {
    if toml_kind_at(doc, seq![a]) == TomlKind::Table && toml_kind_at(doc, seq![a, b])
        == TomlKind::Table && toml_kind_at(doc, seq![a, b, c]) == TomlKind::Array {
        Some(toml_strings_at(doc, seq![a, b, c]))
    } else {
        None
    }
}

/// Reads the array at `[a, b, c]` through tables with headers
/// (`toml_edit::Item::as_table`, `Table::get`, `Item::as_array`,
/// `Array::iter`, `Value::as_str`). The contract claims that the result is
/// the named array where the path leads through tables to an array, and
/// `None` otherwise.
#[verifier::external_body]
fn toml_array_strings(doc: &DocumentMut, a: &str, b: &str, c: &str) -> (res: Option<
    Vec<Option<String>>,
>)
    ensures
        items_view(res) == array_view(*doc, a@, b@, c@),
{
    doc.get(a).and_then(|x| x.as_table()).and_then(|t| t.get(b)).and_then(|x| x.as_table()).and_then(
        |t| t.get(c),
    ).and_then(|x| x.as_array()).map(
        |arr| arr.iter().map(|v| v.as_str().map(|s| s.to_string())).collect(),
    )
}

/// The place `[a, b, c]` can take an array: each of the first two steps is
/// missing or a table with a header, and the last is missing or an array.
pub open spec fn array_slot_ok(
    doc: DocumentMut,
    a: Seq<char>,
    b: Seq<char>,
    c: Seq<char>,
) -> bool {
    let k1 = toml_kind_at(doc, seq![a]);
    let k2 = toml_kind_at(doc, seq![a, b]);
    let k3 = toml_kind_at(doc, seq![a, b, c]);
    ||| (k1 == TomlKind::Missing && k2 == TomlKind::Missing && k3 == TomlKind::Missing)
    ||| (k1 == TomlKind::Table && k2 == TomlKind::Missing && k3 == TomlKind::Missing)
    ||| (k1 == TomlKind::Table && k2 == TomlKind::Table && (k3 == TomlKind::Missing || k3
        == TomlKind::Array))
}

/// The place `[a, b]` can take settings: `a` is missing or a table with a
/// header, and `b` is missing, a table or an inline table.
pub open spec fn table_slot_ok(doc: DocumentMut, a: Seq<char>, b: Seq<char>) -> bool {
    let k1 = toml_kind_at(doc, seq![a]);
    let k2 = toml_kind_at(doc, seq![a, b]);
    ||| (k1 == TomlKind::Missing && k2 == TomlKind::Missing)
    ||| (k1 == TomlKind::Table && (k2 == TomlKind::Missing || k2 == TomlKind::Table || k2
        == TomlKind::InlineTable))
}

/// What stands at `[a, b]` after a setting was written there.
pub open spec fn kind_after_setting(before: TomlKind) -> TomlKind {
    if before == TomlKind::Missing {
        TomlKind::Table
    } else {
        before
    }
}


/// `q` is `p` or a path below it.
pub open spec fn path_extends(q: Seq<Seq<char>>, p: Seq<Seq<char>>) -> bool {
    p.len() <= q.len() && q.take(p.len() as int) == p
}

/// Nothing stands in `doc` at `path`.
pub open spec fn toml_absent_at(doc: DocumentMut, path: Seq<Seq<char>>) -> bool {
    &&& toml_kind_at(doc, path) == TomlKind::Missing
    &&& toml_strings_at(doc, path) == Seq::<Option<Seq<char>>>::empty()
    &&& toml_bool_at(doc, path) is None
    &&& toml_str_at(doc, path) is None
    &&& toml_value_text_at(doc, path) is None
}

/// `doc` holds an empty table, or an empty array where `kind` says so, at `path`.
pub open spec fn toml_empty_at(doc: DocumentMut, path: Seq<Seq<char>>, kind: TomlKind) -> bool {
    &&& toml_kind_at(doc, path) == kind
    &&& toml_strings_at(doc, path) == Seq::<Option<Seq<char>>>::empty()
    &&& toml_bool_at(doc, path) is None
    &&& toml_str_at(doc, path) is None
}

/// `d1` and `d2` hold the same at every path but `p`.
pub open spec fn toml_same_but(d1: DocumentMut, d2: DocumentMut, p: Seq<Seq<char>>) -> bool {
    forall|q: Seq<Seq<char>>| q != p ==> #[trigger] toml_same_at(d1, d2, q)
}

/// Gets or inserts an empty table under the key `a` of the document's root
/// table (`DocumentMut::as_table_mut`, `Table::entry`, `Entry::or_insert`,
/// `toml_edit::table`). The contract claims that an entry that stands there
/// is left as it is, that a missing one becomes an empty table, and that
/// nothing else changes.
#[verifier::external_body]
fn toml_table_or_insert1(doc: &mut DocumentMut, a: &str)
    requires
        toml_no_placeholders(*old(doc)),
    ensures
        toml_no_placeholders(*final(doc)),
        toml_kind_at(*old(doc), seq![a@]) != TomlKind::Missing ==> *final(doc) == *old(doc),
        toml_kind_at(*old(doc), seq![a@]) == TomlKind::Missing ==> toml_empty_at(
            *final(doc),
            seq![a@],
            TomlKind::Table,
        ),
        toml_same_but(*old(doc), *final(doc), seq![a@]),
{
    doc.as_table_mut().entry(a).or_insert(toml_edit::table());
}

/// Gets or inserts an empty table under the key `b` of the table at `[a]`
/// (`Table::get_mut`, `Table::entry`, `Entry::or_insert`, `toml_edit::table`).
/// The contract claims what `toml_table_or_insert1` claims, one level down.
#[verifier::external_body]
fn toml_table_or_insert2(doc: &mut DocumentMut, a: &str, b: &str)
    requires
        toml_no_placeholders(*old(doc)),
        toml_kind_at(*old(doc), seq![a@]) == TomlKind::Table,
    ensures
        toml_no_placeholders(*final(doc)),
        toml_kind_at(*old(doc), seq![a@, b@]) != TomlKind::Missing ==> *final(doc) == *old(doc),
        toml_kind_at(*old(doc), seq![a@, b@]) == TomlKind::Missing ==> toml_empty_at(
            *final(doc),
            seq![a@, b@],
            TomlKind::Table,
        ),
        toml_same_but(*old(doc), *final(doc), seq![a@, b@]),
{
    if let Some(Item::Table(t)) = doc.as_table_mut().get_mut(a) {
        t.entry(b).or_insert(toml_edit::table());
    }
}

/// Gets or inserts an empty array under the key `c` of the table at `[a, b]`
/// (`Table::get_mut`, `Table::entry`, `Entry::or_insert`, `toml_edit::value`,
/// `Array::new`). The contract claims that an entry that stands there is left
/// as it is, that a missing one becomes an empty array, and that nothing else
/// changes.
#[verifier::external_body]
fn toml_array_or_insert3(doc: &mut DocumentMut, a: &str, b: &str, c: &str)
    requires
        toml_no_placeholders(*old(doc)),
        toml_kind_at(*old(doc), seq![a@]) == TomlKind::Table,
        toml_kind_at(*old(doc), seq![a@, b@]) == TomlKind::Table,
    ensures
        toml_no_placeholders(*final(doc)),
        toml_kind_at(*old(doc), seq![a@, b@, c@]) != TomlKind::Missing ==> *final(doc) == *old(
            doc,
        ),
        toml_kind_at(*old(doc), seq![a@, b@, c@]) == TomlKind::Missing ==> toml_empty_at(
            *final(doc),
            seq![a@, b@, c@],
            TomlKind::Array,
        ),
        toml_same_but(*old(doc), *final(doc), seq![a@, b@, c@]),
{
    if let Some(Item::Table(t)) = doc.as_table_mut().get_mut(a) {
        if let Some(Item::Table(u)) = t.get_mut(b) {
            u.entry(c).or_insert(toml_edit::value(Array::new()));
        }
    }
}

/// Appends the string `s` to the array at `[a, b, c]` (`Table::get_mut`,
/// `Array::push`). The contract claims that the array gained `s` at its end
/// and that nothing else changed.
#[verifier::external_body]
fn toml_array_push3(doc: &mut DocumentMut, a: &str, b: &str, c: &str, s: &str)
    requires
        toml_no_placeholders(*old(doc)),
        toml_kind_at(*old(doc), seq![a@]) == TomlKind::Table,
        toml_kind_at(*old(doc), seq![a@, b@]) == TomlKind::Table,
        toml_kind_at(*old(doc), seq![a@, b@, c@]) == TomlKind::Array,
    ensures
        toml_no_placeholders(*final(doc)),
        toml_kind_at(*final(doc), seq![a@, b@, c@]) == TomlKind::Array,
        toml_strings_at(*final(doc), seq![a@, b@, c@]) == toml_strings_at(
            *old(doc),
            seq![a@, b@, c@],
        ).push(Some(s@)),
        toml_bool_at(*final(doc), seq![a@, b@, c@]) == toml_bool_at(*old(doc), seq![a@, b@, c@]),
        toml_str_at(*final(doc), seq![a@, b@, c@]) == toml_str_at(*old(doc), seq![a@, b@, c@]),
        toml_same_but(*old(doc), *final(doc), seq![a@, b@, c@]),
{
    if let Some(Item::Table(t)) = doc.as_table_mut().get_mut(a) {
        if let Some(Item::Table(u)) = t.get_mut(b) {
            if let Some(Item::Value(Value::Array(arr))) = u.get_mut(c) {
                arr.push(s);
            }
        }
    }
}

/// Paths at `[a, b, key]` or below it.
pub open spec fn below_key(r: Seq<Seq<char>>, a: Seq<char>, b: Seq<char>, key: Seq<char>) -> bool {
    path_extends(r, seq![a, b, key])
}

/// Sets `key` to the boolean `v` in the table or inline table at `[a, b]`
/// (`Table::get_mut`, indexing an `Item`, `toml_edit::value`). The contract
/// claims that the boolean then stands at `[a, b, key]` with nothing below it,
/// that `[a, b]` stays what it was (an inline table's own text takes in the
/// new entry), and that nothing changed that is not at or below
/// `[a, b, key]`.
#[verifier::external_body]
fn toml_set_bool3(doc: &mut DocumentMut, a: &str, b: &str, key: &str, v: bool)
    requires
        toml_no_placeholders(*old(doc)),
        toml_kind_at(*old(doc), seq![a@]) == TomlKind::Table,
        toml_kind_at(*old(doc), seq![a@, b@]) == TomlKind::Table || toml_kind_at(
            *old(doc),
            seq![a@, b@],
        ) == TomlKind::InlineTable,
    ensures
        toml_no_placeholders(*final(doc)),
        toml_kind_at(*final(doc), seq![a@, b@, key@]) == TomlKind::Value,
        toml_bool_at(*final(doc), seq![a@, b@, key@]) == Some(v),
        toml_str_at(*final(doc), seq![a@, b@, key@]) is None,
        toml_value_text_at(*final(doc), seq![a@, b@, key@]) is Some,
        toml_strings_at(*final(doc), seq![a@, b@, key@]) == Seq::<Option<Seq<char>>>::empty(),
        forall|r: Seq<Seq<char>>|
            r.len() > 3 && #[trigger] below_key(r, a@, b@, key@) ==> toml_absent_at(*final(doc), r),
        toml_kind_at(*final(doc), seq![a@, b@]) == toml_kind_at(*old(doc), seq![a@, b@]),
        forall|r: Seq<Seq<char>>|
            !#[trigger] below_key(r, a@, b@, key@) && r != seq![a@, b@] ==> toml_same_at(
                *old(doc),
                *final(doc),
                r,
            ),
{
    if let Some(Item::Table(t)) = doc.as_table_mut().get_mut(a) {
        if let Some(item) = t.get_mut(b) {
            item[key] = toml_edit::value(v);
        }
    }
}

/// Sets `key` to the string `v` in the table or inline table at `[a, b]`, as
/// `toml_set_bool3` does for a boolean. The contract claims the same of the
/// string.
#[verifier::external_body]
fn toml_set_str3(doc: &mut DocumentMut, a: &str, b: &str, key: &str, v: &str)
    requires
        toml_no_placeholders(*old(doc)),
        toml_kind_at(*old(doc), seq![a@]) == TomlKind::Table,
        toml_kind_at(*old(doc), seq![a@, b@]) == TomlKind::Table || toml_kind_at(
            *old(doc),
            seq![a@, b@],
        ) == TomlKind::InlineTable,
    ensures
        toml_no_placeholders(*final(doc)),
        toml_kind_at(*final(doc), seq![a@, b@, key@]) == TomlKind::Value,
        toml_str_at(*final(doc), seq![a@, b@, key@]) == Some(v@),
        toml_bool_at(*final(doc), seq![a@, b@, key@]) is None,
        toml_value_text_at(*final(doc), seq![a@, b@, key@]) is Some,
        toml_strings_at(*final(doc), seq![a@, b@, key@]) == Seq::<Option<Seq<char>>>::empty(),
        forall|r: Seq<Seq<char>>|
            r.len() > 3 && #[trigger] below_key(r, a@, b@, key@) ==> toml_absent_at(*final(doc), r),
        toml_kind_at(*final(doc), seq![a@, b@]) == toml_kind_at(*old(doc), seq![a@, b@]),
        forall|r: Seq<Seq<char>>|
            !#[trigger] below_key(r, a@, b@, key@) && r != seq![a@, b@] ==> toml_same_at(
                *old(doc),
                *final(doc),
                r,
            ),
{
    if let Some(Item::Table(t)) = doc.as_table_mut().get_mut(a) {
        if let Some(item) = t.get_mut(b) {
            item[key] = toml_edit::value(v);
        }
    }
}
/// Parses `text` as a TOML document (`DocumentMut::from_str`). The
/// contract claims that a document comes exactly when the text is TOML, that
/// it is the named parse of the text, and that the parser leaves no
/// placeholder entries.
#[verifier::external_body]
fn toml_parse(text: &str) -> (res: Option<DocumentMut>)
    ensures
        res is Some <==> toml_parses(text@),
        res matches Some(d) ==> d == toml_parsed(text@) && toml_no_placeholders(d),
{
    text.parse::<DocumentMut>().ok()
}

/// Writes `doc` as text (`Display` of `DocumentMut`). The contract
/// claims that the text is the named text of the document.
#[verifier::external_body]
fn toml_to_string(doc: &DocumentMut) -> (res: String)
    ensures
        res@ == toml_text(*doc),
{
    doc.to_string()
}

/// The place of the preprocessor's settings: `[preprocessor.lang]`.
pub open spec fn lang_path() -> Seq<Seq<char>> {
    seq!["preprocessor"@, "lang"@]
}

/// The key under `[output.html]` of the list of additional files of `kind`.
pub open spec fn additional_key(kind: Seq<char>) -> Seq<char> {
    "additional-"@ + kind
}

/// The list of additional files of `kind` under `[output.html]`.
pub open spec fn additional_view(doc: DocumentMut, kind: Seq<char>) -> Option<Seq<Option<Seq<char>>>> {
    array_view(doc, "output"@, "html"@, additional_key(kind))
}

/// `[output.html]` can take a list of additional files of `kind`.
pub open spec fn additional_slot_ok(doc: DocumentMut, kind: Seq<char>) -> bool {
    array_slot_ok(doc, "output"@, "html"@, additional_key(kind))
}

/// The text settings that installing writes into `[preprocessor.lang]`.
pub open spec fn preprocessor_texts() -> Seq<(Seq<char>, Seq<char>)> {
    seq![("command"@, "mdbook-lang"@), ("server"@, "http://127.0.0.1:3333/api/v1/build-code"@)]
}

/// The switches that installing writes into `[preprocessor.lang]`: every
/// language and editing enabled, the restrictions of the page disabled, and
/// copying, cutting and pasting in the editor disabled.
pub open spec fn preprocessor_flags() -> Seq<(Seq<char>, bool)> {
    seq![
        ("cpp-enable"@, true),
        ("java-enable"@, true),
        ("go-enable"@, true),
        ("python-enable"@, true),
        ("javascript-enable"@, true),
        ("typescript-enable"@, true),
        ("pkl-enable"@, true),
        ("scheme-enable"@, true),
        ("editable"@, true),
        ("disable-devtool-auto"@, false),
        ("disable-menu"@, false),
        ("clear-log"@, false),
        ("disable-select"@, false),
        ("disable-copy"@, false),
        ("disable-cut"@, false),
        ("disable-paste"@, false),
        ("ace-strict"@, true),
    ]
}

/// Whether `[preprocessor.lang]` is a table with a header.
pub fn has_preprocessor(doc: &DocumentMut) -> (res: bool)
    ensures
        res == (toml_kind_at(*doc, lang_path()) == TomlKind::Table),
{
    toml_kind2(doc, "preprocessor", "lang") == TomlKind::Table
}

spec fn key_sig(s: Seq<char>) -> (int, char, char) {
    (s.len() as int, s[0], s[s.len() - 1])
}

proof fn lemma_setting_keys_distinct()
    ensures
        forall|i: int, j: int|
            0 <= i < j < preprocessor_flags().len() ==> preprocessor_flags()[i].0
                != preprocessor_flags()[j].0,
        forall|i: int, j: int|
            0 <= i < preprocessor_texts().len() && 0 <= j < preprocessor_flags().len()
                ==> preprocessor_texts()[i].0 != preprocessor_flags()[j].0,
        preprocessor_texts()[0].0 != preprocessor_texts()[1].0,
{
    reveal_strlit("command");
    reveal_strlit("server");
    reveal_strlit("cpp-enable");
    reveal_strlit("java-enable");
    reveal_strlit("go-enable");
    reveal_strlit("python-enable");
    reveal_strlit("javascript-enable");
    reveal_strlit("typescript-enable");
    reveal_strlit("scheme-enable");
    reveal_strlit("pkl-enable");
    reveal_strlit("editable");
    reveal_strlit("disable-devtool-auto");
    reveal_strlit("disable-menu");
    reveal_strlit("clear-log");
    reveal_strlit("disable-select");
    reveal_strlit("disable-copy");
    reveal_strlit("disable-cut");
    reveal_strlit("disable-paste");
    reveal_strlit("ace-strict");
    assert(key_sig(preprocessor_texts()[0].0) == (7int, 'c', 'd'));
    assert(key_sig(preprocessor_texts()[1].0) == (6int, 's', 'r'));
    assert(key_sig(preprocessor_flags()[0].0) == (10int, 'c', 'e'));
    assert(key_sig(preprocessor_flags()[1].0) == (11int, 'j', 'e'));
    assert(key_sig(preprocessor_flags()[2].0) == (9int, 'g', 'e'));
    assert(key_sig(preprocessor_flags()[3].0) == (13int, 'p', 'e'));
    assert(key_sig(preprocessor_flags()[4].0) == (17int, 'j', 'e'));
    assert(key_sig(preprocessor_flags()[5].0) == (17int, 't', 'e'));
    assert(key_sig(preprocessor_flags()[6].0) == (10int, 'p', 'e'));
    assert(key_sig(preprocessor_flags()[7].0) == (13int, 's', 'e'));
    assert(key_sig(preprocessor_flags()[8].0) == (8int, 'e', 'e'));
    assert(key_sig(preprocessor_flags()[9].0) == (20int, 'd', 'o'));
    assert(key_sig(preprocessor_flags()[10].0) == (12int, 'd', 'u'));
    assert(key_sig(preprocessor_flags()[11].0) == (9int, 'c', 'g'));
    assert(key_sig(preprocessor_flags()[12].0) == (14int, 'd', 't'));
    assert(key_sig(preprocessor_flags()[13].0) == (12int, 'd', 'y'));
    assert(key_sig(preprocessor_flags()[14].0) == (11int, 'd', 't'));
    assert(key_sig(preprocessor_flags()[15].0) == (13int, 'd', 'e'));
    assert(key_sig(preprocessor_flags()[16].0) == (10int, 'a', 't'));
    assert forall|i: int, j: int|
        0 <= i < j < preprocessor_flags().len() implies preprocessor_flags()[i].0
            != preprocessor_flags()[j].0 by {
        assert(key_sig(preprocessor_flags()[i].0) != key_sig(preprocessor_flags()[j].0));
    }
    assert forall|i: int, j: int|
        0 <= i < preprocessor_texts().len() && 0 <= j < preprocessor_flags().len()
            implies preprocessor_texts()[i].0 != preprocessor_flags()[j].0 by {
        assert(key_sig(preprocessor_texts()[i].0) != key_sig(preprocessor_flags()[j].0));
    }
}

/// The settings of `[preprocessor.lang]` in `doc` are those that installing writes.
pub open spec fn has_preprocessor_settings(doc: DocumentMut) -> bool {
    &&& forall|i: int|
        0 <= i < preprocessor_texts().len() ==> toml_str_at(
            doc,
            lang_path().push(#[trigger] preprocessor_texts()[i].0),
        ) == Some(preprocessor_texts()[i].1)
    &&& forall|i: int|
        0 <= i < preprocessor_flags().len() ==> toml_bool_at(
            doc,
            lang_path().push(#[trigger] preprocessor_flags()[i].0),
        ) == Some(preprocessor_flags()[i].1)
}

/// `k` is one of the keys that installing writes into `[preprocessor.lang]`.
pub open spec fn is_setting_key(k: Seq<char>) -> bool {
    ||| exists|i: int| 0 <= i < preprocessor_texts().len() && #[trigger] preprocessor_texts()[i].0 == k
    ||| exists|i: int| 0 <= i < preprocessor_flags().len() && #[trigger] preprocessor_flags()[i].0 == k
}

/// The paths that writing the preprocessor's settings may change: those on
/// the way to `[preprocessor.lang]`, and those at or below one of the
/// settings it writes.
pub open spec fn touched_by_settings(p: Seq<Seq<char>>) -> bool {
    ||| (p.len() <= 2 && lang_path().take(p.len() as int) == p)
    ||| (p.len() > 2 && p.take(2) == lang_path() && is_setting_key(p[2]))
}

proof fn lemma_untouched_by_setting(p: Seq<Seq<char>>, key: Seq<char>)
    requires
        !touched_by_settings(p),
        is_setting_key(key),
    ensures
        !below_key(p, "preprocessor"@, "lang"@, key),
        p != seq!["preprocessor"@, "lang"@],
{
    assert(lang_path().take(2) =~= lang_path());
    let q: Seq<Seq<char>> = seq!["preprocessor"@, "lang"@, key];
    if below_key(p, "preprocessor"@, "lang"@, key) {
        assert(p.take(3) == q);
        assert(p.take(2) =~= q.take(2));
        assert(q.take(2) =~= lang_path());
        assert(p[2] == p.take(3)[2]);
    }
}

proof fn lemma_other_setting_kept(k: Seq<char>, key: Seq<char>)
    requires
        k != key,
    ensures
        !below_key(lang_path().push(k), "preprocessor"@, "lang"@, key),
{
    let q = lang_path().push(k);
    if below_key(q, "preprocessor"@, "lang"@, key) {
        assert(q.take(3) =~= q);
        assert(q[2] == seq!["preprocessor"@, "lang"@, key][2]);
    }
}

/// Writes the preprocessor's settings into `[preprocessor.lang]`, making the
/// tables where they are missing.
pub fn add_preprocessor(doc: &mut DocumentMut)
    requires
        toml_no_placeholders(*old(doc)),
        table_slot_ok(*old(doc), "preprocessor"@, "lang"@),
    ensures
        toml_no_placeholders(*final(doc)),
        toml_kind_at(*final(doc), seq!["preprocessor"@]) == TomlKind::Table,
        toml_kind_at(*final(doc), lang_path()) == kind_after_setting(
            toml_kind_at(*old(doc), lang_path()),
        ),
        has_preprocessor_settings(*final(doc)),
        forall|p: Seq<Seq<char>>|
            !touched_by_settings(p) ==> #[trigger] toml_same_at(*old(doc), *final(doc), p),
        toml_same_except(*old(doc), *final(doc), lang_path()),
{
    proof { lemma_setting_keys_distinct(); }
    let ghost start = *doc;
    toml_table_or_insert1(doc, "preprocessor");
    let ghost d1 = *doc;
    toml_table_or_insert2(doc, "preprocessor", "lang");
    proof {
        let pre: Seq<Seq<char>> = seq!["preprocessor"@];
        assert(pre.len() == 1 && lang_path().len() == 2);
        assert(toml_same_at(start, d1, lang_path()));
        assert(toml_same_at(d1, *doc, pre));
        assert(lang_path() =~= seq!["preprocessor"@, "lang"@]);
        assert(lang_path().take(1) =~= pre);
        assert(touched_by_settings(pre));
        assert(lang_path().take(2) =~= lang_path());
        assert(touched_by_settings(lang_path()));
        assert forall|p: Seq<Seq<char>>| !touched_by_settings(p) implies #[trigger] toml_same_at(
            start,
            *doc,
            p,
        ) by {
            assert(toml_same_at(start, d1, p));
            assert(toml_same_at(d1, *doc, p));
        }
    }
    let texts: Vec<(&str, &str)> = vec![
        ("command", "mdbook-lang"),
        ("server", "http://127.0.0.1:3333/api/v1/build-code"),
    ];
    let flags: Vec<(&str, bool)> = vec![
        ("cpp-enable", true),
        ("java-enable", true),
        ("go-enable", true),
        ("python-enable", true),
        ("javascript-enable", true),
        ("typescript-enable", true),
        ("pkl-enable", true),
        ("scheme-enable", true),
        ("editable", true),
        ("disable-devtool-auto", false),
        ("disable-menu", false),
        ("clear-log", false),
        ("disable-select", false),
        ("disable-copy", false),
        ("disable-cut", false),
        ("disable-paste", false),
        ("ace-strict", true),
    ];
    assert(texts@.len() == preprocessor_texts().len());
    assert(forall|i: int| 0 <= i < texts@.len() ==> #[trigger] texts@[i].0@ == preprocessor_texts()[i].0 && texts@[i].1@ == preprocessor_texts()[i].1);
    assert(flags@.len() == preprocessor_flags().len());
    assert(forall|i: int| 0 <= i < flags@.len() ==> #[trigger] flags@[i].0@ == preprocessor_flags()[i].0 && flags@[i].1 == preprocessor_flags()[i].1);
    let mut i: usize = 0;
    while i < texts.len()
        invariant
            i <= texts@.len(),
            texts@.len() == preprocessor_texts().len(),
            forall|j: int| 0 <= j < texts@.len() ==> #[trigger] texts@[j].0@ == preprocessor_texts()[j].0 && texts@[j].1@ == preprocessor_texts()[j].1,
            preprocessor_texts()[0].0 != preprocessor_texts()[1].0,
            toml_no_placeholders(*doc),
            toml_kind_at(*doc, seq!["preprocessor"@]) == TomlKind::Table,
            toml_kind_at(*doc, lang_path()) == kind_after_setting(toml_kind_at(start, lang_path())),
            toml_kind_at(*doc, lang_path()) == TomlKind::Table || toml_kind_at(*doc, lang_path()) == TomlKind::InlineTable,
            forall|j: int| 0 <= j < i ==> toml_str_at(*doc, lang_path().push(#[trigger] preprocessor_texts()[j].0)) == Some(preprocessor_texts()[j].1),
            forall|p: Seq<Seq<char>>| !touched_by_settings(p) ==> #[trigger] toml_same_at(start, *doc, p),
        decreases texts@.len() - i,
    {
        let ghost before = *doc;
        let (key, value) = texts[i];
        assert(lang_path() =~= seq!["preprocessor"@, "lang"@]);
        assert(is_setting_key(key@));
        toml_set_str3(doc, "preprocessor", "lang", key, value);
        assert(lang_path().push(key@) =~= seq!["preprocessor"@, "lang"@, key@]);
        proof {
            assert(!below_key(seq!["preprocessor"@], "preprocessor"@, "lang"@, key@));
            assert(!below_key(lang_path(), "preprocessor"@, "lang"@, key@));
            assert forall|p: Seq<Seq<char>>| !touched_by_settings(p) implies #[trigger] toml_same_at(start, *doc, p) by {
                lemma_untouched_by_setting(p, key@);
                assert(toml_same_at(before, *doc, p));
                assert(toml_same_at(start, before, p));
            }
            assert forall|j: int| 0 <= j < i + 1 implies toml_str_at(*doc, lang_path().push(#[trigger] preprocessor_texts()[j].0)) == Some(preprocessor_texts()[j].1) by {
                if j < i {
                    lemma_other_setting_kept(preprocessor_texts()[j].0, key@);
                    assert(toml_same_at(before, *doc, lang_path().push(preprocessor_texts()[j].0)));
                }
            }
        }
        i += 1;
    }
    let mut i: usize = 0;
    while i < flags.len()
        invariant
            i <= flags@.len(),
            flags@.len() == preprocessor_flags().len(),
            forall|j: int| 0 <= j < flags@.len() ==> #[trigger] flags@[j].0@ == preprocessor_flags()[j].0 && flags@[j].1 == preprocessor_flags()[j].1,
            forall|j: int, k: int|
                0 <= j < k < preprocessor_flags().len() ==> preprocessor_flags()[j].0
                    != preprocessor_flags()[k].0,
            forall|j: int, k: int|
                0 <= j < preprocessor_texts().len() && 0 <= k < preprocessor_flags().len()
                    ==> preprocessor_texts()[j].0 != preprocessor_flags()[k].0,
            toml_no_placeholders(*doc),
            toml_kind_at(*doc, seq!["preprocessor"@]) == TomlKind::Table,
            toml_kind_at(*doc, lang_path()) == kind_after_setting(toml_kind_at(start, lang_path())),
            toml_kind_at(*doc, lang_path()) == TomlKind::Table || toml_kind_at(*doc, lang_path()) == TomlKind::InlineTable,
            forall|j: int| 0 <= j < preprocessor_texts().len() ==> toml_str_at(*doc, lang_path().push(#[trigger] preprocessor_texts()[j].0)) == Some(preprocessor_texts()[j].1),
            forall|j: int| 0 <= j < i ==> toml_bool_at(*doc, lang_path().push(#[trigger] preprocessor_flags()[j].0)) == Some(preprocessor_flags()[j].1),
            forall|p: Seq<Seq<char>>| !touched_by_settings(p) ==> #[trigger] toml_same_at(start, *doc, p),
        decreases flags@.len() - i,
    {
        let ghost before = *doc;
        let (key, value) = flags[i];
        assert(lang_path() =~= seq!["preprocessor"@, "lang"@]);
        assert(is_setting_key(key@));
        toml_set_bool3(doc, "preprocessor", "lang", key, value);
        assert(lang_path().push(key@) =~= seq!["preprocessor"@, "lang"@, key@]);
        proof {
            assert(!below_key(seq!["preprocessor"@], "preprocessor"@, "lang"@, key@));
            assert(!below_key(lang_path(), "preprocessor"@, "lang"@, key@));
            assert forall|p: Seq<Seq<char>>| !touched_by_settings(p) implies #[trigger] toml_same_at(start, *doc, p) by {
                lemma_untouched_by_setting(p, key@);
                assert(toml_same_at(before, *doc, p));
                assert(toml_same_at(start, before, p));
            }
            assert forall|j: int| 0 <= j < preprocessor_texts().len() implies toml_str_at(*doc, lang_path().push(#[trigger] preprocessor_texts()[j].0)) == Some(preprocessor_texts()[j].1) by {
                lemma_other_setting_kept(preprocessor_texts()[j].0, key@);
                assert(toml_same_at(before, *doc, lang_path().push(preprocessor_texts()[j].0)));
            }
            assert forall|j: int| 0 <= j < i + 1 implies toml_bool_at(*doc, lang_path().push(#[trigger] preprocessor_flags()[j].0)) == Some(preprocessor_flags()[j].1) by {
                if j < i {
                    lemma_other_setting_kept(preprocessor_flags()[j].0, key@);
                    assert(toml_same_at(before, *doc, lang_path().push(preprocessor_flags()[j].0)));
                }
            }
        }
        i += 1;
    }
    proof {
        assert forall|p: Seq<Seq<char>>| !paths_related(p, lang_path()) implies #[trigger] toml_same_at(start, *doc, p) by {
            assert(!touched_by_settings(p));
        }
    }
}
/// Installing enables every language that the renderer recognises: after
/// installing into a book whose `[preprocessor.lang]` was not registered
/// yet, the `<lang>-enable` setting of the canonical language of each tag of
/// the fence pattern is true.
pub proof fn lemma_install_enables_every_language(before: DocumentMut, after: DocumentMut)
    requires
        install_outcome(before, after),
        toml_kind_at(before, lang_path()) != TomlKind::Table,
    ensures
        forall|i: int|
            0 <= i < fence_tags().len() ==> toml_bool_at(
                after,
                lang_path().push(spec_map_lang(#[trigger] fence_tags()[i]) + "-enable"@),
            ) == Some(true),
{
    reveal_strlit("-enable");
    reveal_strlit("lisp");
    reveal_strlit("c++");
    reveal_strlit("c");
    reveal_strlit("py");
    reveal_strlit("ts");
    reveal_strlit("js");
    reveal_strlit("java");
    reveal_strlit("go");
    reveal_strlit("pkl");
    reveal_strlit("scheme");
    reveal_strlit("cpp");
    reveal_strlit("python");
    reveal_strlit("typescript");
    reveal_strlit("javascript");
    assert(toml_bool_at(after, lang_path().push("cpp"@ + "-enable"@)) == Some(true)) by {
        reveal_strlit("cpp");
        reveal_strlit("cpp-enable");
        assert("cpp"@ + "-enable"@ =~= preprocessor_flags()[0].0);
    }
    assert(toml_bool_at(after, lang_path().push("java"@ + "-enable"@)) == Some(true)) by {
        reveal_strlit("java");
        reveal_strlit("java-enable");
        assert("java"@ + "-enable"@ =~= preprocessor_flags()[1].0);
    }
    assert(toml_bool_at(after, lang_path().push("go"@ + "-enable"@)) == Some(true)) by {
        reveal_strlit("go");
        reveal_strlit("go-enable");
        assert("go"@ + "-enable"@ =~= preprocessor_flags()[2].0);
    }
    assert(toml_bool_at(after, lang_path().push("python"@ + "-enable"@)) == Some(true)) by {
        reveal_strlit("python");
        reveal_strlit("python-enable");
        assert("python"@ + "-enable"@ =~= preprocessor_flags()[3].0);
    }
    assert(toml_bool_at(after, lang_path().push("javascript"@ + "-enable"@)) == Some(true)) by {
        reveal_strlit("javascript");
        reveal_strlit("javascript-enable");
        assert("javascript"@ + "-enable"@ =~= preprocessor_flags()[4].0);
    }
    assert(toml_bool_at(after, lang_path().push("typescript"@ + "-enable"@)) == Some(true)) by {
        reveal_strlit("typescript");
        reveal_strlit("typescript-enable");
        assert("typescript"@ + "-enable"@ =~= preprocessor_flags()[5].0);
    }
    assert(toml_bool_at(after, lang_path().push("pkl"@ + "-enable"@)) == Some(true)) by {
        reveal_strlit("pkl");
        reveal_strlit("pkl-enable");
        assert("pkl"@ + "-enable"@ =~= preprocessor_flags()[6].0);
    }
    assert(toml_bool_at(after, lang_path().push("scheme"@ + "-enable"@)) == Some(true)) by {
        reveal_strlit("scheme");
        reveal_strlit("scheme-enable");
        assert("scheme"@ + "-enable"@ =~= preprocessor_flags()[7].0);
    }
    assert forall|i: int| 0 <= i < fence_tags().len() implies toml_bool_at(
        after,
        lang_path().push(spec_map_lang(#[trigger] fence_tags()[i]) + "-enable"@),
    ) == Some(true) by {
        crate::lang::lemma_fence_tag_language(i);
    }
}

/// Whether a list of additional files already covers `file`: some entry ends
/// with its name, or some entry is not a string.
pub open spec fn spec_has_file(items: Option<Seq<Option<Seq<char>>>>, file: Seq<char>) -> bool {
    match items {
        Some(v) => exists|i: int|
            0 <= i < v.len() && match #[trigger] v[i] {
                None => true,
                Some(t) => ends_with(t, file),
            },
        None => false,
    }
}

/// The list of additional files after `file` was added where it is not covered.
pub open spec fn add_file(items: Option<Seq<Option<Seq<char>>>>, file: Seq<char>) -> Option<
    Seq<Option<Seq<char>>>,
> {
    if spec_has_file(items, file) {
        items
    } else {
        match items {
            Some(v) => Some(v.push(Some(file))),
            None => Some(seq![Some(file)]),
        }
    }
}

/// The list of additional scripts after installing.
pub open spec fn scripts_after(js: Option<Seq<Option<Seq<char>>>>) -> Option<Seq<Option<Seq<char>>>> {
    add_file(add_file(add_file(js, "disable-devtool.js"@), "lang.js"@), "jquery.js"@)
}

/// The list of additional style sheets after installing.
pub open spec fn styles_after(css: Option<Seq<Option<Seq<char>>>>) -> Option<Seq<Option<Seq<char>>>> {
    add_file(css, "lang.css"@)
}

/// Whether installing adds a file to the lists of additional scripts `js` and
/// style sheets `css`.
pub open spec fn files_missing(
    js: Option<Seq<Option<Seq<char>>>>,
    css: Option<Seq<Option<Seq<char>>>>,
) -> bool {
    ||| !spec_has_file(js, "disable-devtool.js"@)
    ||| !spec_has_file(add_file(js, "disable-devtool.js"@), "lang.js"@)
    ||| !spec_has_file(
        add_file(add_file(js, "disable-devtool.js"@), "lang.js"@),
        "jquery.js"@,
    )
    ||| !spec_has_file(css, "lang.css"@)
}

/// The list of additional files of `kind` under `[output.html]`.
pub fn additional(doc: &DocumentMut, additional_type: &str) -> (res: Option<Vec<Option<String>>>)
    ensures
        items_view(res) == additional_view(*doc, additional_type@),
{
    let mut key = chars_of("additional-");
    let kind = chars_of(additional_type);
    append_chars(&mut key, &kind);
    let key = string_of(&key);
    toml_array_strings(doc, "output", "html", key.as_str())
}

/// Whether the list `elem` covers `file`.
pub fn has_file(elem: &Option<Vec<Option<String>>>, file: &str) -> (res: bool)
    ensures
        res == spec_has_file(items_view(*elem), file@),
{
    match elem {
        Some(items) => {
            let f = chars_of(file);
            let ghost v = items_view(*elem)->0;
            let mut i: usize = 0;
            while i < items.len()
                invariant
                    i <= items@.len(),
                    v == items_view(*elem)->0,
                    v.len() == items@.len(),
                    f@ == file@,
                    *elem == Some(*items),
                    forall|k: int|
                        0 <= k < i ==> !match #[trigger] v[k] {
                            None => true,
                            Some(t) => ends_with(t, file@),
                        },
                decreases items@.len() - i,
            {
                let covered = match &items[i] {
                    None => true,
                    Some(t) => ends_with_chars(&chars_of(t.as_str()), &f),
                };
                if covered {
                    assert(match v[i as int] {
                        None => true,
                        Some(t) => ends_with(t, file@),
                    });
                    return true;
                }
                i += 1;
            }
            false
        },
        None => false,
    }
}

/// Appends `file` to the list of additional files of `kind` under
/// `[output.html]`, making the tables and the list where they are missing.
pub fn insert_additional(doc: &mut DocumentMut, additional_type: &str, file: &str)
    requires
        toml_no_placeholders(*old(doc)),
        additional_slot_ok(*old(doc), additional_type@),
    ensures
        toml_no_placeholders(*final(doc)),
        additional_slot_ok(*final(doc), additional_type@),
        additional_view(*final(doc), additional_type@) == Some(
            match additional_view(*old(doc), additional_type@) {
                Some(v) => v,
                None => Seq::empty(),
            }.push(Some(file@)),
        ),
        toml_same_except(
            *old(doc),
            *final(doc),
            seq!["output"@, "html"@, additional_key(additional_type@)],
        ),
{
    let mut key = chars_of("additional-");
    let kind = chars_of(additional_type);
    append_chars(&mut key, &kind);
    let key = string_of(&key);
    let ghost d0 = *doc;
    let ghost p1: Seq<Seq<char>> = seq!["output"@];
    let ghost p2: Seq<Seq<char>> = seq!["output"@, "html"@];
    let ghost p3: Seq<Seq<char>> = seq!["output"@, "html"@, key@];
    toml_table_or_insert1(doc, "output");
    let ghost d1 = *doc;
    assert(p1.len() == 1 && p2.len() == 2 && p3.len() == 3);
    assert(toml_same_at(d0, d1, p2));
    assert(toml_same_at(d0, d1, p3));
    toml_table_or_insert2(doc, "output", "html");
    let ghost d2 = *doc;
    assert(toml_same_at(d1, d2, p1));
    assert(toml_same_at(d1, d2, p3));
    toml_array_or_insert3(doc, "output", "html", key.as_str());
    let ghost d3 = *doc;
    assert(toml_same_at(d2, d3, p1));
    assert(toml_same_at(d2, d3, p2));
    toml_array_push3(doc, "output", "html", key.as_str(), file);
    proof {
        assert(p3.take(1) =~= p1);
        assert(p3.take(2) =~= p2);
        assert(p3.take(3) =~= p3);
        assert(toml_same_at(d3, *doc, p1));
        assert(toml_same_at(d3, *doc, p2));
        assert forall|p: Seq<Seq<char>>| !paths_related(p, p3) implies #[trigger] toml_same_at(
            d0,
            *doc,
            p,
        ) by {
            assert(toml_same_at(d0, d1, p));
            assert(toml_same_at(d1, d2, p));
            assert(toml_same_at(d2, d3, p));
            assert(toml_same_at(d3, *doc, p));
        }
    }
}

/// The place of the list of additional files of `kind`.
pub open spec fn additional_path(kind: Seq<char>) -> Seq<Seq<char>> {
    seq!["output"@, "html"@, additional_key(kind)]
}

/// Adds `file` to the list of additional files of `kind` unless the list
/// covers it already; reports whether it did.
fn ensure_file(doc: &mut DocumentMut, additional_type: &str, file: &str) -> (res: bool)
    requires
        toml_no_placeholders(*old(doc)),
        additional_slot_ok(*old(doc), additional_type@),
    ensures
        toml_no_placeholders(*final(doc)),
        additional_slot_ok(*final(doc), additional_type@),
        res == !spec_has_file(additional_view(*old(doc), additional_type@), file@),
        additional_view(*final(doc), additional_type@) == add_file(
            additional_view(*old(doc), additional_type@),
            file@,
        ),
        !res ==> *final(doc) == *old(doc),
        res ==> toml_kind_at(*final(doc), seq!["output"@]) == TomlKind::Table && toml_kind_at(
            *final(doc),
            seq!["output"@, "html"@],
        ) == TomlKind::Table,
        toml_same_except(*old(doc), *final(doc), additional_path(additional_type@)),
{
    let items = additional(doc, additional_type);
    if has_file(&items, file) {
        assert(toml_same_except(*doc, *doc, additional_path(additional_type@)));
        false
    } else {
        insert_additional(doc, additional_type, file);
        assert(seq!["output"@, "html"@, additional_key(additional_type@)] =~= additional_path(additional_type@));
        true
    }
}

proof fn lemma_other_list_kept(d1: DocumentMut, d2: DocumentMut, kind: Seq<char>, other: Seq<char>)
    requires
        additional_slot_ok(d1, other),
        toml_same_at(d1, d2, additional_path(other)),
        d1 == d2 || (toml_kind_at(d2, seq!["output"@]) == TomlKind::Table && toml_kind_at(
            d2,
            seq!["output"@, "html"@],
        ) == TomlKind::Table),
    ensures
        additional_slot_ok(d2, other),
        additional_view(d2, other) == additional_view(d1, other),
{
    assert(additional_path(other) =~= seq!["output"@, "html"@, additional_key(other)]);
}

proof fn lemma_lists_unrelated(kind: Seq<char>, other: Seq<char>)
    requires
        kind != other,
    ensures
        !paths_related(additional_path(other), additional_path(kind)),
{
    let p = additional_path(other);
    let q = additional_path(kind);
    if paths_related(p, q) {
        assert(p.take(3) =~= p);
        assert(q.take(3) =~= q);
        assert(additional_key(other) == p[2]);
        assert(additional_key(kind) == q[2]);
        reveal_strlit("additional-");
        assert(additional_key(other).skip("additional-"@.len() as int) =~= other);
        assert(additional_key(kind).skip("additional-"@.len() as int) =~= kind);
    }
}

proof fn lemma_preprocessor_unrelated_to_lists(p: Seq<Seq<char>>, kind: Seq<char>)
    requires
        p.len() >= 1,
        p[0] == "preprocessor"@,
    ensures
        !paths_related(p, additional_path(kind)),
{
    reveal_strlit("preprocessor");
    reveal_strlit("output");
    let q = additional_path(kind);
    assert("preprocessor"@.len() != "output"@.len());
    if paths_related(p, q) {
        if p.len() <= q.len() {
            assert(q.take(p.len() as int)[0] == q[0]);
        } else {
            assert(p.take(q.len() as int)[0] == p[0]);
        }
        assert(p[0] == q[0]);
    }
}

/// `d1` and `d2` hold the same everywhere but on the way to the two lists of
/// additional files and below them.
pub open spec fn same_except_lists(d1: DocumentMut, d2: DocumentMut) -> bool {
    forall|p: Seq<Seq<char>>|
        !paths_related(p, additional_path("js"@)) && !paths_related(p, additional_path("css"@))
            ==> #[trigger] toml_same_at(d1, d2, p)
}

/// Adds the playground's scripts and style sheet to the lists of additional
/// files under `[output.html]`, each where the list does not cover it yet;
/// reports whether a file was added.
pub fn add_additional_files(doc: &mut DocumentMut) -> (res: bool)
    requires
        toml_no_placeholders(*old(doc)),
        additional_slot_ok(*old(doc), "js"@),
        additional_slot_ok(*old(doc), "css"@),
    ensures
        toml_no_placeholders(*final(doc)),
        additional_slot_ok(*final(doc), "js"@),
        additional_slot_ok(*final(doc), "css"@),
        res == files_missing(additional_view(*old(doc), "js"@), additional_view(*old(doc), "css"@)),
        additional_view(*final(doc), "js"@) == scripts_after(additional_view(*old(doc), "js"@)),
        additional_view(*final(doc), "css"@) == styles_after(additional_view(*old(doc), "css"@)),
        same_except_lists(*old(doc), *final(doc)),
        !res ==> *final(doc) == *old(doc),
{
    proof {
        reveal_strlit("js");
        reveal_strlit("css");
        assert("js"@.len() != "css"@.len());
        lemma_lists_unrelated("js"@, "css"@);
        lemma_lists_unrelated("css"@, "js"@);
    }
    let ghost d0 = *doc;
    let c1 = ensure_file(doc, "js", "disable-devtool.js");
    let ghost d1 = *doc;
    proof { lemma_other_list_kept(d0, d1, "js"@, "css"@); }
    let c2 = ensure_file(doc, "js", "lang.js");
    let ghost d2 = *doc;
    proof { lemma_other_list_kept(d1, d2, "js"@, "css"@); }
    let c3 = ensure_file(doc, "js", "jquery.js");
    let ghost d3 = *doc;
    proof { lemma_other_list_kept(d2, d3, "js"@, "css"@); }
    let c4 = ensure_file(doc, "css", "lang.css");
    let ghost d4 = *doc;
    proof {
        lemma_other_list_kept(d3, d4, "css"@, "js"@);
        assert forall|p: Seq<Seq<char>>|
            !paths_related(p, additional_path("js"@)) && !paths_related(
                p,
                additional_path("css"@),
            ) implies #[trigger] toml_same_at(d0, d4, p) by {
            assert(toml_same_at(d0, d1, p));
            assert(toml_same_at(d1, d2, p));
            assert(toml_same_at(d2, d3, p));
            assert(toml_same_at(d3, d4, p));
        }
    }
    c1 || c2 || c3 || c4
}

proof fn lemma_output_unrelated_to_lang(p: Seq<Seq<char>>)
    requires
        p.len() >= 1,
        p[0] == "output"@,
    ensures
        !paths_related(p, lang_path()),
{
    reveal_strlit("preprocessor");
    reveal_strlit("output");
    assert("preprocessor"@.len() != "output"@.len());
    let q = lang_path();
    if paths_related(p, q) {
        if p.len() <= q.len() {
            assert(q.take(p.len() as int)[0] == q[0]);
        } else {
            assert(p.take(q.len() as int)[0] == p[0]);
        }
        assert(p[0] == q[0]);
    }
}

/// `doc` can take the installation without the editing panicking:
/// `[preprocessor.lang]` is a table already or can take settings, and
/// `[output.html]` can take both lists of additional files.
pub open spec fn install_ready(doc: DocumentMut) -> bool {
    &&& toml_no_placeholders(doc)
    &&& (toml_kind_at(doc, lang_path()) == TomlKind::Table || table_slot_ok(
        doc,
        "preprocessor"@,
        "lang"@,
    ))
    &&& additional_slot_ok(doc, "js"@)
    &&& additional_slot_ok(doc, "css"@)
}

/// Whether installing changes `doc`: the preprocessor is not registered yet,
/// or a playground file is missing from the lists of additional files.
pub open spec fn install_changes(doc: DocumentMut) -> bool {
    toml_kind_at(doc, lang_path()) != TomlKind::Table || files_missing(
        additional_view(doc, "js"@),
        additional_view(doc, "css"@),
    )
}

/// `after` is `before` with the installation made: the preprocessor's
/// settings written where it was not registered yet, the playground files
/// added to the lists of additional files, and nothing else changed.
pub open spec fn install_outcome(before: DocumentMut, after: DocumentMut) -> bool {
    let registered = toml_kind_at(before, lang_path()) == TomlKind::Table;
    &&& install_ready(after)
    &&& toml_kind_at(after, lang_path()) == if registered {
        TomlKind::Table
    } else {
        kind_after_setting(toml_kind_at(before, lang_path()))
    }
    &&& !registered ==> has_preprocessor_settings(after)
    &&& additional_view(after, "js"@) == scripts_after(additional_view(before, "js"@))
    &&& additional_view(after, "css"@) == styles_after(additional_view(before, "css"@))
    &&& forall|p: Seq<Seq<char>>|
        !(!registered && touched_by_settings(p)) && !paths_related(p, additional_path("js"@))
            && !paths_related(p, additional_path("css"@)) ==> #[trigger] toml_same_at(
            before,
            after,
            p,
        )
}

proof fn lemma_views_unrelated_to_lang(d1: DocumentMut, d2: DocumentMut, kind: Seq<char>)
    requires
        toml_same_except(d1, d2, lang_path()),
    ensures
        additional_view(d2, kind) == additional_view(d1, kind),
        additional_slot_ok(d2, kind) == additional_slot_ok(d1, kind),
{
    let p1: Seq<Seq<char>> = seq!["output"@];
    let p2: Seq<Seq<char>> = seq!["output"@, "html"@];
    let p3: Seq<Seq<char>> = seq!["output"@, "html"@, additional_key(kind)];
    lemma_output_unrelated_to_lang(p1);
    lemma_output_unrelated_to_lang(p2);
    lemma_output_unrelated_to_lang(p3);
    assert(toml_same_at(d1, d2, p1));
    assert(toml_same_at(d1, d2, p2));
    assert(toml_same_at(d1, d2, p3));
}

/// Registers the preprocessor in `doc` where it is not registered yet, and
/// adds the playground files to the lists of additional files; reports
/// whether the configuration changed and must be saved.
pub fn install_config(doc: &mut DocumentMut) -> (res: bool)
    requires
        install_ready(*old(doc)),
    ensures
        res == install_changes(*old(doc)),
        install_outcome(*old(doc), *final(doc)),
{
    let ghost d0 = *doc;
    let has_pre = has_preprocessor(doc);
    if !has_pre {
        add_preprocessor(doc);
        proof {
            lemma_views_unrelated_to_lang(d0, *doc, "js"@);
            lemma_views_unrelated_to_lang(d0, *doc, "css"@);
        }
    }
    let ghost d1 = *doc;
    let added = add_additional_files(doc);
    let ghost d2 = *doc;
    proof {
        lemma_preprocessor_unrelated_to_lists(lang_path(), "js"@);
        lemma_preprocessor_unrelated_to_lists(lang_path(), "css"@);
        assert(toml_same_at(d1, d2, lang_path()));
        let pre: Seq<Seq<char>> = seq!["preprocessor"@];
        lemma_preprocessor_unrelated_to_lists(pre, "js"@);
        lemma_preprocessor_unrelated_to_lists(pre, "css"@);
        assert(toml_same_at(d1, d2, pre));
        if !has_pre {
            assert forall|i: int| 0 <= i < preprocessor_texts().len() implies toml_str_at(
                d2,
                lang_path().push(#[trigger] preprocessor_texts()[i].0),
            ) == Some(preprocessor_texts()[i].1) by {
                let q = lang_path().push(preprocessor_texts()[i].0);
                lemma_preprocessor_unrelated_to_lists(q, "js"@);
                lemma_preprocessor_unrelated_to_lists(q, "css"@);
                assert(toml_same_at(d1, d2, q));
            }
            assert forall|i: int| 0 <= i < preprocessor_flags().len() implies toml_bool_at(
                d2,
                lang_path().push(#[trigger] preprocessor_flags()[i].0),
            ) == Some(preprocessor_flags()[i].1) by {
                let q = lang_path().push(preprocessor_flags()[i].0);
                lemma_preprocessor_unrelated_to_lists(q, "js"@);
                lemma_preprocessor_unrelated_to_lists(q, "css"@);
                assert(toml_same_at(d1, d2, q));
            }
        }
        assert forall|p: Seq<Seq<char>>|
            !(!has_pre && touched_by_settings(p)) && !paths_related(p, additional_path("js"@))
                && !paths_related(p, additional_path("css"@)) implies #[trigger] toml_same_at(
            d0,
            d2,
            p,
        ) by {
            assert(toml_same_at(d0, d1, p));
            assert(toml_same_at(d1, d2, p));
        }
    }
    !has_pre || added
}

proof fn lemma_has_file_kept(items: Option<Seq<Option<Seq<char>>>>, file: Seq<char>, other: Seq<char>)
    requires
        spec_has_file(items, file),
    ensures
        spec_has_file(add_file(items, other), file),
{
    if !spec_has_file(items, other) {
        let v = items->0;
        let i = choose|i: int|
            0 <= i < v.len() && match #[trigger] v[i] {
                None => true,
                Some(t) => ends_with(t, file),
            };
        assert(v.push(Some(other))[i] == v[i]);
    }
}

proof fn lemma_add_file_covers(items: Option<Seq<Option<Seq<char>>>>, file: Seq<char>)
    ensures
        spec_has_file(add_file(items, file), file),
{
    if !spec_has_file(items, file) {
        let v = match items {
            Some(v) => v,
            None => Seq::empty(),
        };
        let w = v.push(Some(file));
        assert(w[v.len() as int] == Some(file));
        assert(file.subrange(file.len() - file.len(), file.len() as int) =~= file);
        assert(ends_with(file, file));
    }
}

/// Adding the playground files a second time adds nothing: once added, each
/// file is covered, and adding the others does not uncover it.
pub proof fn lemma_additional_files_idempotent(
    js: Option<Seq<Option<Seq<char>>>>,
    css: Option<Seq<Option<Seq<char>>>>,
)
    ensures
        !files_missing(scripts_after(js), styles_after(css)),
        scripts_after(scripts_after(js)) == scripts_after(js),
        styles_after(styles_after(css)) == styles_after(css),
{
    let j1 = add_file(js, "disable-devtool.js"@);
    let j2 = add_file(j1, "lang.js"@);
    let j3 = add_file(j2, "jquery.js"@);
    lemma_add_file_covers(js, "disable-devtool.js"@);
    lemma_add_file_covers(j1, "lang.js"@);
    lemma_add_file_covers(j2, "jquery.js"@);
    lemma_has_file_kept(j1, "disable-devtool.js"@, "lang.js"@);
    lemma_has_file_kept(j2, "disable-devtool.js"@, "jquery.js"@);
    lemma_has_file_kept(j2, "lang.js"@, "jquery.js"@);
    lemma_add_file_covers(css, "lang.css"@);
}

/// Installing into a configuration where `[preprocessor.lang]` was missing
/// or a table leaves nothing for a second installation to change.
pub proof fn lemma_install_idempotent(before: DocumentMut, after: DocumentMut)
    requires
        install_outcome(before, after),
        toml_kind_at(before, lang_path()) == TomlKind::Missing || toml_kind_at(
            before,
            lang_path(),
        ) == TomlKind::Table,
    ensures
        install_ready(after),
        !install_changes(after),
{
    lemma_additional_files_idempotent(
        additional_view(before, "js"@),
        additional_view(before, "css"@),
    );
}

/// `d1` and `d2` hold the same at every path.
pub open spec fn toml_same_contents(d1: DocumentMut, d2: DocumentMut) -> bool {
    forall|p: Seq<Seq<char>>| #[trigger] toml_same_at(d1, d2, p)
}

/// Whether installing can be done, and whether it changes anything, are
/// read from what the document holds: a placeholder-free document with the
/// same contents as an installed one (such as one read back from the text
/// that the installation wrote) leaves nothing for a further installation to
/// change either.
pub proof fn lemma_install_idempotent_on_contents(
    before: DocumentMut,
    after: DocumentMut,
    other: DocumentMut,
)
    requires
        install_outcome(before, after),
        toml_kind_at(before, lang_path()) == TomlKind::Missing || toml_kind_at(
            before,
            lang_path(),
        ) == TomlKind::Table,
        toml_same_contents(after, other),
        toml_no_placeholders(other),
    ensures
        install_ready(other),
        !install_changes(other),
{
    lemma_install_idempotent(before, after);
    assert(toml_same_at(after, other, lang_path()));
    assert(toml_same_at(after, other, seq!["preprocessor"@]));
    assert(toml_same_at(after, other, seq!["output"@]));
    assert(toml_same_at(after, other, seq!["output"@, "html"@]));
    assert(toml_same_at(after, other, seq!["output"@, "html"@, additional_key("js"@)]));
    assert(toml_same_at(after, other, seq!["output"@, "html"@, additional_key("css"@)]));
}

/// Why a `book.toml` cannot take the installation.
#[derive(PartialEq, Eq, Structural, Clone, Copy, Debug)]
pub enum InstallError {
    /// The text is not TOML.
    InvalidToml,
    /// A table that installing writes into stands where something else
    /// stands, such as an inline table or a value.
    UnsupportedLayout,
}

/// Checks what stands on the way to the list of additional files of `kind`.
fn additional_slot_check(doc: &DocumentMut, additional_type: &str) -> (res: bool)
    ensures
        res == additional_slot_ok(*doc, additional_type@),
{
    let mut key = chars_of("additional-");
    append_chars(&mut key, &chars_of(additional_type));
    let key = string_of(&key);
    let k1 = toml_kind1(doc, "output");
    let k2 = toml_kind2(doc, "output", "html");
    let k3 = toml_kind3(doc, "output", "html", key.as_str());
    (k1 == TomlKind::Missing && k2 == TomlKind::Missing && k3 == TomlKind::Missing) || (k1
        == TomlKind::Table && k2 == TomlKind::Missing && k3 == TomlKind::Missing) || (k1
        == TomlKind::Table && k2 == TomlKind::Table && (k3 == TomlKind::Missing || k3
        == TomlKind::Array))
}

/// Reads the text of a `book.toml` as a TOML document.
pub fn parse_book_toml(text: &str) -> (res: Result<DocumentMut, InstallError>)
    ensures
        res is Ok <==> toml_parses(text@),
        res matches Ok(d) ==> d == toml_parsed(text@) && toml_no_placeholders(d),
        res matches Err(e) ==> e == InstallError::InvalidToml,
{
    match toml_parse(text) {
        Some(d) => Ok(d),
        None => Err(InstallError::InvalidToml),
    }
}

/// Installs the preprocessor into the text of a `book.toml`: `Ok(Some(text))`
/// with the new text where the configuration changed, `Ok(None)` where it
/// needs no change.
pub fn install_book_toml(text: &str) -> (res: Result<Option<String>, InstallError>)
    ensures
        toml_parses(text@) ==> toml_no_placeholders(toml_parsed(text@)),
        !toml_parses(text@) ==> res == Err::<Option<String>, InstallError>(InstallError::InvalidToml),
        toml_parses(text@) && !install_ready(toml_parsed(text@)) ==> res == Err::<
            Option<String>,
            InstallError,
        >(InstallError::UnsupportedLayout),
        toml_parses(text@) && install_ready(toml_parsed(text@)) ==> {
            &&& res is Ok
            &&& (res->Ok_0 is Some <==> install_changes(toml_parsed(text@)))
            &&& res matches Ok(Some(t)) ==> exists|after: DocumentMut|
                #[trigger] install_outcome(toml_parsed(text@), after) && t@ == toml_text(after)
        },
{
    let mut doc = match parse_book_toml(text) {
        Ok(d) => d,
        Err(e) => {
            return Err(e);
        },
    };
    let lang_kind = toml_kind2(&doc, "preprocessor", "lang");
    let pre_kind = toml_kind1(&doc, "preprocessor");
    let lang_ok = lang_kind == TomlKind::Table || (pre_kind == TomlKind::Missing && lang_kind
        == TomlKind::Missing) || (pre_kind == TomlKind::Table && (lang_kind == TomlKind::Missing
        || lang_kind == TomlKind::InlineTable));
    if !lang_ok || !additional_slot_check(&doc, "js") || !additional_slot_check(&doc, "css") {
        return Err(InstallError::UnsupportedLayout);
    }
    let ghost before = doc;
    let changed = install_config(&mut doc);
    if changed {
        let t = toml_to_string(&doc);
        assert(install_outcome(before, doc));
        Ok(Some(t))
    } else {
        Ok(None)
    }
}

}
