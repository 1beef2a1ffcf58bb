//! Codex's own preferences in `config.toml`: the interface language
//! (`desktop.localeOverride`) and the standing instructions
//! (`developer_instructions`), read and written through `toml_edit` so that
//! the rest of the file keeps its form.

use vstd::prelude::*;
use vstd::string::StringExecFns;

use toml_edit::{DocumentMut, TomlError};

use crate::text::{
    chars_of, ends_with_char, is_ws, lemma_trim_drop_ws_last, string_of, trim, trim_str,
};

verus! {

#[verifier::external_type_specification]
#[verifier::external_body]
pub struct ExDocumentMut(DocumentMut);

#[verifier::external_type_specification]
#[verifier::external_body]
pub struct ExTomlError(TomlError);

/// The string values at the top level of a document, by key.
pub uninterp spec fn toml_top_strings(doc: DocumentMut) -> Map<Seq<char>, Seq<char>>;

/// The tables (standard or inline) at the top level of a document, by key,
/// each with its string values by key.
pub uninterp spec fn toml_tables(doc: DocumentMut) -> Map<Seq<char>, Map<Seq<char>, Seq<char>>>;

/// What `DocumentMut::from_str` reads from a text: its top-level strings and
/// its tables, or nothing when the text is not TOML.
pub uninterp spec fn toml_parse(text: Seq<char>) -> Option<
    (Map<Seq<char>, Seq<char>>, Map<Seq<char>, Map<Seq<char>, Seq<char>>>),
>;

/// What `DocumentMut`'s `Display` writes for a document.
pub uninterp spec fn toml_text(doc: DocumentMut) -> Seq<char>;

/// Every value of a document that is not a table, by its key path through
/// the tables above it (standard, inline, dotted or implicit; the tables of
/// an array of tables by their position, in decimal), with the text the
/// document writes for that value (its representation, without the space
/// and comments around it).
pub uninterp spec fn toml_entries(doc: DocumentMut) -> Map<Seq<Seq<char>>, Seq<char>>;

/// The entries, as [`toml_entries`] reads them, of the document that
/// `DocumentMut::from_str` reads from a text; none when the text is not TOML.
pub uninterp spec fn toml_parse_entries(text: Seq<char>) -> Map<Seq<Seq<char>>, Seq<char>>;

/// `prefix` begins the key path `p`.
pub open spec fn path_under(prefix: Seq<Seq<char>>, p: Seq<Seq<char>>) -> bool {
    prefix.len() <= p.len() && p.take(prefix.len() as int) == prefix
}

/// `a` and `b` hold the same entries at every key path outside `prefix`.
pub open spec fn same_away(
    a: Map<Seq<Seq<char>>, Seq<char>>,
    b: Map<Seq<Seq<char>>, Seq<char>>,
    prefix: Seq<Seq<char>>,
) -> bool {
    forall|p: Seq<Seq<char>>|
        #![trigger a.contains_key(p)]
        #![trigger b.contains_key(p)]
        !path_under(prefix, p) ==> (a.contains_key(p) <==> b.contains_key(p)) && (a.contains_key(p)
            ==> a[p] == b[p])
}

/// `a` holds no entry at or below `prefix`.
pub open spec fn none_under(a: Map<Seq<Seq<char>>, Seq<char>>, prefix: Seq<Seq<char>>) -> bool {
    forall|p: Seq<Seq<char>>| #[trigger] a.contains_key(p) ==> !path_under(prefix, p)
}

/// A string that `toml_edit` writes as a basic string with nothing escaped:
/// no `"`, no `\\`, no control character (tab included).
pub open spec fn plain_toml_string(v: Seq<char>) -> bool {
    forall|i: int|
        0 <= i < v.len() ==> {
            let u = #[trigger] v[i] as u32;
            &&& v[i] != '"'
            &&& v[i] != '\\'
            &&& 0x20 <= u
            &&& u != 0x7f
        }
}

/// `v` between double quotes: a TOML basic string.
pub open spec fn basic_toml_string(v: Seq<char>) -> Seq<char> {
    seq!['"'] + v + seq!['"']
}

/// `text` is TOML that holds the top-level strings `top` and, of the tables
/// `tables`, every one that has an entry (a table without entries may not
/// show in the text), each with the same entries.
pub open spec fn holds_maps(
    text: Seq<char>,
    top: Map<Seq<char>, Seq<char>>,
    tables: Map<Seq<char>, Map<Seq<char>, Seq<char>>>,
) -> bool {
    match toml_parse(text) {
        None => false,
        Some((t2, tb2)) => {
            &&& t2 == top
            &&& forall|k: Seq<char>| #[trigger]
                tb2.contains_key(k) ==> tables.contains_key(k) && tb2[k] == tables[k]
            &&& forall|k: Seq<char>| #[trigger]
                tables.contains_key(k) && tables[k] != Map::<Seq<char>, Seq<char>>::empty()
                    ==> tb2.contains_key(k)
        },
    }
}

/// The text `toml_edit` writes for `doc` reads back as what `doc` holds (an
/// empty table aside) and with the same entries, reads the same with a
/// newline appended, and is blank only when `doc` holds no string.
pub open spec fn faithful(doc: DocumentMut) -> bool {
    let text = toml_text(doc);
    &&& holds_maps(text, toml_top_strings(doc), toml_tables(doc))
    &&& toml_parse_entries(text) == toml_entries(doc)
    &&& toml_parse(text.push('\n')) == toml_parse(text)
    &&& toml_parse_entries(text.push('\n')) == toml_parse_entries(text)
    &&& trim(text).len() == 0 ==> {
        &&& toml_top_strings(doc).dom().is_empty()
        &&& forall|k: Seq<char>| #[trigger]
            toml_tables(doc).contains_key(k) ==> toml_tables(doc)[k] == Map::<
                Seq<char>,
                Seq<char>,
            >::empty()
    }
}

/// `text.parse::<DocumentMut>()`.
///
/// TOML's grammar is not restated: whether the text parses, and what the
/// document holds, are tied to the text by the name `toml_parse` alone.  The
/// document keeps the text's own form, so what it writes reads back as it
/// (`faithful`).
#[verifier::external_body]
fn parse_document(text: &str) -> (r: Result<DocumentMut, TomlError>)
    ensures
        match r {
            Ok(d) => toml_parse(text@) == Some((toml_top_strings(d), toml_tables(d)))
                && toml_parse_entries(text@) == toml_entries(d) && faithful(d),
            Err(_) => toml_parse(text@) is None,
        },
{
    text.parse::<DocumentMut>()
}

/// `DocumentMut::new()`: an empty document, written as empty text.
#[verifier::external_body]
fn new_document() -> (r: DocumentMut)
    ensures
        toml_top_strings(r).dom().is_empty(),
        toml_tables(r).dom().is_empty(),
        toml_entries(r).dom().is_empty(),
        faithful(r),
{
    DocumentMut::new()
}

/// `TomlError`'s `Display`: the parse error as text.  What it says is not
/// stated.
#[verifier::external_body]
fn toml_error_text(e: &TomlError) -> String {
    e.to_string()
}

/// `doc.get(key).and_then(Item::as_str)`: the top-level string at `key`.
#[verifier::external_body]
fn top_string(doc: &DocumentMut, key: &str) -> (r: Option<String>)
    ensures
        match r {
            Some(s) => toml_top_strings(*doc).contains_key(key@) && toml_top_strings(*doc)[key@]
                == s@,
            None => !toml_top_strings(*doc).contains_key(key@),
        },
{
    doc.get(key).and_then(toml_edit::Item::as_str).map(|s| s.to_string())
}

/// `doc.get(table).and_then(Item::as_table_like).and_then(|t| t.get(key))
/// .and_then(Item::as_str)`: the string at `key` in the top-level table
/// `table`.
#[verifier::external_body]
fn table_string(doc: &DocumentMut, table: &str, key: &str) -> (r: Option<String>)
    ensures
        match r {
            Some(s) => toml_tables(*doc).contains_key(table@) && toml_tables(
                *doc,
            )[table@].contains_key(key@) && toml_tables(*doc)[table@][key@] == s@,
            None => !toml_tables(*doc).contains_key(table@) || !toml_tables(
                *doc,
            )[table@].contains_key(key@),
        },
{
    doc.get(table)
        .and_then(toml_edit::Item::as_table_like)
        .and_then(|t| t.get(key))
        .and_then(toml_edit::Item::as_str)
        .map(|s| s.to_string())
}

/// `doc.get(key).is_some_and(Item::is_table_like)`: whether the top-level
/// item at `key` is a table.
#[verifier::external_body]
fn has_table(doc: &DocumentMut, key: &str) -> (r: bool)
    ensures
        r == toml_tables(*doc).contains_key(key@),
{
    doc.get(key).is_some_and(toml_edit::Item::is_table_like)
}

/// `doc.remove(key)`: the top-level item at `key` is gone.
///
/// A document whose text reads back as it (`faithful`) still does: the
/// encoder writes every table with entries under its header (or inline, or
/// as dotted keys, as it stands) and every string in TOML's own syntax.
/// Every other entry stays as it was.
#[verifier::external_body]
fn remove_item(doc: &mut DocumentMut, key: &str)
    ensures
        same_away(toml_entries(*final(doc)), toml_entries(*old(doc)), seq![key@]),
        none_under(toml_entries(*final(doc)), seq![key@]),
        faithful(*old(doc)) ==> faithful(*final(doc)),
        toml_top_strings(*final(doc)) == toml_top_strings(*old(doc)).remove(key@),
        toml_tables(*final(doc)) == toml_tables(*old(doc)).remove(key@),
{
    doc.remove(key);
}

/// `doc[key] = value(v)`: the top-level item at `key` is the string `v`.
///
/// A document whose text reads back as it (`faithful`) still does: the
/// encoder writes every table with entries under its header (or inline, or
/// as dotted keys, as it stands) and every string in TOML's own syntax.
/// Every other entry stays as it was.  A new string is written by
/// `toml_write`'s `as_default`, which takes the basic form (`"` ... `"`)
/// whenever it holds no `"`, no backslash and no control character, and
/// then writes the characters as they are.
#[verifier::external_body]
fn set_string(doc: &mut DocumentMut, key: &str, v: &str)
    ensures
        same_away(toml_entries(*final(doc)), toml_entries(*old(doc)), seq![key@]),
        toml_entries(*final(doc)).contains_key(seq![key@]),
        plain_toml_string(v@) ==> toml_entries(*final(doc))[seq![key@]] == basic_toml_string(v@),
        faithful(*old(doc)) ==> faithful(*final(doc)),
        toml_top_strings(*final(doc)) == toml_top_strings(*old(doc)).insert(key@, v@),
        toml_tables(*final(doc)) == toml_tables(*old(doc)).remove(key@),
{
    doc[key] = toml_edit::value(v);
}

/// `doc[key] = Item::Table(Table::new())`: the top-level item at `key` is an
/// empty table.
///
/// A document whose text reads back as it (`faithful`) still does: the
/// encoder writes every table with entries under its header (or inline, or
/// as dotted keys, as it stands) and every string in TOML's own syntax.
/// Every other entry stays as it was.
#[verifier::external_body]
fn set_empty_table(doc: &mut DocumentMut, key: &str)
    ensures
        same_away(toml_entries(*final(doc)), toml_entries(*old(doc)), seq![key@]),
        none_under(toml_entries(*final(doc)), seq![key@]),
        faithful(*old(doc)) ==> faithful(*final(doc)),
        toml_top_strings(*final(doc)) == toml_top_strings(*old(doc)).remove(key@),
        toml_tables(*final(doc)) == toml_tables(*old(doc)).insert(
            key@,
            Map::<Seq<char>, Seq<char>>::empty(),
        ),
{
    doc[key] = toml_edit::Item::Table(toml_edit::Table::new());
}

/// `doc[table].as_table_like_mut()` then `remove(key)`: the table `table`
/// loses the entry `key`.
///
/// A document whose text reads back as it (`faithful`) still does: the
/// encoder writes every table with entries under its header (or inline, or
/// as dotted keys, as it stands) and every string in TOML's own syntax.
/// Every other entry stays as it was.
#[verifier::external_body]
fn remove_in_table(doc: &mut DocumentMut, table: &str, key: &str)
    requires
        toml_tables(*old(doc)).contains_key(table@),
    ensures
        same_away(toml_entries(*final(doc)), toml_entries(*old(doc)), seq![table@, key@]),
        none_under(toml_entries(*final(doc)), seq![table@, key@]),
        faithful(*old(doc)) ==> faithful(*final(doc)),
        toml_top_strings(*final(doc)) == toml_top_strings(*old(doc)),
        toml_tables(*final(doc)) == toml_tables(*old(doc)).insert(
            table@,
            toml_tables(*old(doc))[table@].remove(key@),
        ),
{
    if let Some(t) = doc[table].as_table_like_mut() {
        t.remove(key);
    }
}

/// `doc[table][key] = value(v)`: the entry `key` of the table `table` is the
/// string `v`.  The table must exist, else `toml_edit` panics.
///
/// A document whose text reads back as it (`faithful`) still does: the
/// encoder writes every table with entries under its header (or inline, or
/// as dotted keys, as it stands) and every string in TOML's own syntax.
/// Every other entry stays as it was.  A new string is written by
/// `toml_write`'s `as_default`, which takes the basic form (`"` ... `"`)
/// whenever it holds no `"`, no backslash and no control character, and
/// then writes the characters as they are.
#[verifier::external_body]
fn set_in_table(doc: &mut DocumentMut, table: &str, key: &str, v: &str)
    requires
        toml_tables(*old(doc)).contains_key(table@),
    ensures
        same_away(toml_entries(*final(doc)), toml_entries(*old(doc)), seq![table@, key@]),
        toml_entries(*final(doc)).contains_key(seq![table@, key@]),
        plain_toml_string(v@) ==> toml_entries(*final(doc))[seq![table@, key@]]
            == basic_toml_string(v@),
        faithful(*old(doc)) ==> faithful(*final(doc)),
        toml_top_strings(*final(doc)) == toml_top_strings(*old(doc)),
        toml_tables(*final(doc)) == toml_tables(*old(doc)).insert(
            table@,
            toml_tables(*old(doc))[table@].insert(key@, v@),
        ),
{
    doc[table][key] = toml_edit::value(v);
}

/// `doc.to_string()`: the document as TOML text, in its own form.  How the
/// text is laid out is `toml_edit`'s and is not stated; it is `toml_text`.
#[verifier::external_body]
fn document_text(doc: &DocumentMut) -> (r: String)
    ensures
        r@ == toml_text(*doc),
{
    doc.to_string()
}

/// The preferences the manager edits.
#[derive(Debug)]
pub struct CodexPreferenceConfig {
    pub locale_override: String,
    pub developer_instructions: String,
}

impl Default for CodexPreferenceConfig {
    fn default() -> (r: Self)
        ensures
            r.locale_override@.len() == 0,
            r.developer_instructions@.len() == 0,
    {
        CodexPreferenceConfig { locale_override: String::new(), developer_instructions: String::new() }
    }
}

/// The preferences read or saved, and where.
#[derive(Debug)]
pub struct CodexPreferenceResult {
    pub config_path: String,
    pub backup_path: String,
    pub locale_override: String,
    pub developer_instructions: String,
}

/// Why the preferences could not be read or written.
#[derive(Debug)]
pub enum PreferenceError {
    /// `config.toml` is not TOML; the parser's message.
    InvalidToml(String),
}

/// A string of a map, or empty.
pub open spec fn string_or_empty(m: Map<Seq<char>, Seq<char>>, key: Seq<char>) -> Seq<char> {
    if m.contains_key(key) {
        m[key]
    } else {
        seq![]
    }
}

/// The preferences a document holds: the string `localeOverride` of its
/// `desktop` table and its top-level string `developer_instructions`, each
/// empty when missing.
pub open spec fn preferences_of(
    top: Map<Seq<char>, Seq<char>>,
    tables: Map<Seq<char>, Map<Seq<char>, Seq<char>>>,
) -> (Seq<char>, Seq<char>) {
    (
        if tables.contains_key("desktop"@) {
            string_or_empty(tables["desktop"@], "localeOverride"@)
        } else {
            seq![]
        },
        string_or_empty(top, "developer_instructions"@),
    )
}

/// The preferences a config holds: `desktop.localeOverride` and
/// `developer_instructions` when they are strings, else empty; a blank
/// config holds none.  `None` when the config is not TOML.
pub open spec fn spec_preferences(config: Seq<char>) -> Option<(Seq<char>, Seq<char>)> {
    if trim(config).len() == 0 {
        Some((seq![], seq![]))
    } else {
        match toml_parse(config) {
            None => None,
            Some((top, tables)) => Some(preferences_of(top, tables)),
        }
    }
}

/// Reads the preferences from the text of `config.toml`.
pub fn parse_codex_preferences(config: &str) -> (r: Result<CodexPreferenceConfig, PreferenceError>)
    ensures
        match (r, spec_preferences(config@)) {
            (Ok(p), Some((locale, instructions))) => p.locale_override@ == locale
                && p.developer_instructions@ == instructions,
            (Err(_), None) => true,
            _ => false,
        },
{
    if trim_str(config).len() == 0 {
        return Ok(CodexPreferenceConfig::default());
    }
    let doc = match parse_document(config) {
        Ok(d) => d,
        Err(e) => return Err(PreferenceError::InvalidToml(toml_error_text(&e))),
    };
    let locale_override = match table_string(&doc, "desktop", "localeOverride") {
        Some(s) => s,
        None => String::new(),
    };
    let developer_instructions = match top_string(&doc, "developer_instructions") {
        Some(s) => s,
        None => String::new(),
    };
    Ok(CodexPreferenceConfig { locale_override, developer_instructions })
}

/// The document's top-level strings after the preferences are written: the
/// instructions set, or removed when blank; a string at `desktop` gives way
/// to the new table when there was no `desktop` table.
pub open spec fn edited_top(
    top: Map<Seq<char>, Seq<char>>,
    tables: Map<Seq<char>, Map<Seq<char>, Seq<char>>>,
    instructions: Seq<char>,
) -> Map<Seq<char>, Seq<char>> {
    let base = if trim(instructions).len() == 0 {
        top.remove("developer_instructions"@)
    } else {
        top.insert("developer_instructions"@, trim(instructions))
    };
    if tables.remove("developer_instructions"@).contains_key("desktop"@) {
        base
    } else {
        base.remove("desktop"@)
    }
}

/// The document's tables after the preferences are written: a `desktop`
/// table (a new empty one when there was none) whose `localeOverride` is the
/// locale, or removed when blank.
pub open spec fn edited_tables(
    tables: Map<Seq<char>, Map<Seq<char>, Seq<char>>>,
    locale: Seq<char>,
) -> Map<Seq<char>, Map<Seq<char>, Seq<char>>> {
    let base = tables.remove("developer_instructions"@);
    let desktop = if base.contains_key("desktop"@) {
        base["desktop"@]
    } else {
        Map::empty()
    };
    base.insert(
        "desktop"@,
        if trim(locale).len() == 0 {
            desktop.remove("localeOverride"@)
        } else {
            desktop.insert("localeOverride"@, trim(locale))
        },
    )
}

/// The key path of the instructions.
pub open spec fn instructions_path() -> Seq<Seq<char>> {
    seq!["developer_instructions"@]
}

/// The key path of the locale.
pub open spec fn locale_path() -> Seq<Seq<char>> {
    seq!["desktop"@, "localeOverride"@]
}

/// Every entry of `before` but the instructions and the locale is in
/// `after` as it was, and `after` has no other; so too below `desktop`
/// unless `desktop` was not a table (then it was replaced).
pub open spec fn keeps_entries(
    before: Map<Seq<Seq<char>>, Seq<char>>,
    after: Map<Seq<Seq<char>>, Seq<char>>,
    had_desktop: bool,
) -> bool {
    forall|p: Seq<Seq<char>>|
        #![trigger before.contains_key(p)]
        #![trigger after.contains_key(p)]
        !path_under(instructions_path(), p) && !path_under(locale_path(), p) && (had_desktop
            || !path_under(seq!["desktop"@], p)) ==> (before.contains_key(p) <==> after.contains_key(
            p,
        )) && (before.contains_key(p) ==> before[p] == after[p])
}

/// The entry at `path` holds the trimmed `value`, written as a basic string
/// when nothing in it needs escaping; when `value` is blank there is none.
pub open spec fn entry_written(
    entries: Map<Seq<Seq<char>>, Seq<char>>,
    path: Seq<Seq<char>>,
    value: Seq<char>,
) -> bool {
    if trim(value).len() == 0 {
        none_under(entries, path)
    } else {
        &&& entries.contains_key(path)
        &&& plain_toml_string(trim(value)) ==> entries[path] == basic_toml_string(trim(value))
    }
}

/// Writes the preferences into a document: `developer_instructions` set to
/// the trimmed instructions or removed when blank; the `desktop` table made
/// when missing, its `localeOverride` set to the trimmed locale or removed
/// when blank.  Everything else stays.
pub fn write_preferences(doc: &mut DocumentMut, preferences: &CodexPreferenceConfig)
    ensures
        toml_top_strings(*final(doc)) == edited_top(
            toml_top_strings(*old(doc)),
            toml_tables(*old(doc)),
            preferences.developer_instructions@,
        ),
        toml_tables(*final(doc)) == edited_tables(
            toml_tables(*old(doc)),
            preferences.locale_override@,
        ),
        faithful(*old(doc)) ==> faithful(*final(doc)),
        keeps_entries(
            toml_entries(*old(doc)),
            toml_entries(*final(doc)),
            toml_tables(*old(doc)).contains_key("desktop"@),
        ),
        entry_written(
            toml_entries(*final(doc)),
            instructions_path(),
            preferences.developer_instructions@,
        ),
        entry_written(toml_entries(*final(doc)), locale_path(), preferences.locale_override@),
{
    let ghost e0 = toml_entries(*doc);
    let ghost had_desktop = toml_tables(*doc).contains_key("desktop"@);
    proof {
        reveal_strlit("desktop");
        reveal_strlit("developer_instructions");
        assert("desktop"@ != "developer_instructions"@) by {
            assert("desktop"@.len() != "developer_instructions"@.len());
        }
    }
    let locale = string_of(trim_str(preferences.locale_override.as_str()).as_slice());
    let instructions = string_of(
        trim_str(preferences.developer_instructions.as_str()).as_slice(),
    );
    if instructions.unicode_len() == 0 {
        remove_item(doc, "developer_instructions");
    } else {
        set_string(doc, "developer_instructions", instructions.as_str());
    }
    let ghost e1 = toml_entries(*doc);
    assert(entry_written(e1, instructions_path(), preferences.developer_instructions@));
    if !has_table(doc, "desktop") {
        set_empty_table(doc, "desktop");
    }
    let ghost e2 = toml_entries(*doc);
    proof {
        let ip = instructions_path();
        assert forall|p: Seq<Seq<char>>| path_under(ip, p) implies !path_under(
            seq!["desktop"@],
            p,
        ) by {
            assert(p.take(1)[0] == p[0]);
            assert(p.take(1) == ip);
            assert(p[0] == ip[0]);
        }
        if trim(preferences.developer_instructions@).len() == 0 {
            assert forall|p: Seq<Seq<char>>| #[trigger] e2.contains_key(p) implies !path_under(
                ip,
                p,
            ) by {
                if path_under(ip, p) {
                    assert(!path_under(seq!["desktop"@], p));
                    assert(e1.contains_key(p));
                }
            }
        } else {
            assert(path_under(ip, ip)) by {
                assert(ip.take(1) =~= ip);
            }
            assert(!path_under(seq!["desktop"@], ip));
            assert(e1.contains_key(ip));
        }
    }
    assert(entry_written(e2, instructions_path(), preferences.developer_instructions@));
    if locale.unicode_len() == 0 {
        remove_in_table(doc, "desktop", "localeOverride");
    } else {
        set_in_table(doc, "desktop", "localeOverride", locale.as_str());
    }
    proof {
        let e3 = toml_entries(*doc);
        let ip = instructions_path();
        assert forall|p: Seq<Seq<char>>| path_under(ip, p) implies !path_under(locale_path(), p) by {
            assert(p.take(1)[0] == p[0]);
            assert(p.take(1) == ip);
            if path_under(locale_path(), p) {
                assert(p.take(2)[0] == p[0]);
                assert(p.take(2) == locale_path());
            }
        }
        if trim(preferences.developer_instructions@).len() == 0 {
            assert forall|p: Seq<Seq<char>>| #[trigger] e3.contains_key(p) implies !path_under(
                ip,
                p,
            ) by {
                if path_under(ip, p) {
                    assert(!path_under(locale_path(), p));
                    assert(e2.contains_key(p));
                }
            }
        } else {
            assert(!path_under(locale_path(), ip)) by {
                if path_under(locale_path(), ip) {
                    assert(ip.len() >= 2);
                }
            }
            assert(e2.contains_key(ip));
        }
        assert(entry_written(e3, instructions_path(), preferences.developer_instructions@));
        assert(keeps_entries(e0, e3, had_desktop));
    }
    proof {
        assert(toml_top_strings(*doc) =~= edited_top(
            toml_top_strings(*old(doc)),
            toml_tables(*old(doc)),
            preferences.developer_instructions@,
        ));
        assert(toml_tables(*doc) =~= edited_tables(
            toml_tables(*old(doc)),
            preferences.locale_override@,
        ));
    }
}

/// The top-level strings and the tables that `current` holds: none when it
/// is blank (or, as no caller asks, not TOML).
pub open spec fn base_maps(current: Seq<char>) -> (
    Map<Seq<char>, Seq<char>>,
    Map<Seq<char>, Map<Seq<char>, Seq<char>>>,
) {
    if trim(current).len() == 0 {
        (Map::empty(), Map::empty())
    } else {
        match toml_parse(current) {
            Some(m) => m,
            None => (Map::empty(), Map::empty()),
        }
    }
}

/// The entries that `current` holds: none when it is blank.
pub open spec fn base_entries(current: Seq<char>) -> Map<Seq<Seq<char>>, Seq<char>> {
    if trim(current).len() == 0 {
        Map::empty()
    } else {
        toml_parse_entries(current)
    }
}

/// `t` is `current` with the preferences written into it: TOML holding what
/// `current` held, `developer_instructions` and `desktop.localeOverride`
/// edited as [`write_preferences`] does, every other entry kept as it was.
pub open spec fn written_config(
    current: Seq<char>,
    preferences: CodexPreferenceConfig,
    t: Seq<char>,
) -> bool {
    &&& holds_maps(
        t,
        edited_top(
            base_maps(current).0,
            base_maps(current).1,
            preferences.developer_instructions@,
        ),
        edited_tables(base_maps(current).1, preferences.locale_override@),
    )
    &&& keeps_entries(
        base_entries(current),
        toml_parse_entries(t),
        base_maps(current).1.contains_key("desktop"@),
    )
    &&& entry_written(
        toml_parse_entries(t),
        instructions_path(),
        preferences.developer_instructions@,
    )
    &&& entry_written(toml_parse_entries(t), locale_path(), preferences.locale_override@)
}

/// What `holds_maps` gives of the preferences: those of the maps it holds.
proof fn lemma_read_back(
    t: Seq<char>,
    top: Map<Seq<char>, Seq<char>>,
    tables: Map<Seq<char>, Map<Seq<char>, Seq<char>>>,
)
    requires
        holds_maps(t, top, tables),
        trim(t).len() > 0,
    ensures
        spec_preferences(t) == Some(preferences_of(top, tables)),
{
    let (t2, tb2) = toml_parse(t).unwrap();
    let d: Seq<char> = "desktop"@;
    if !tb2.contains_key(d) && tables.contains_key(d) {
        assert(tables[d] == Map::<Seq<char>, Seq<char>>::empty());
    }
}

/// `config.toml` with the preferences written into it, ended by a newline.
/// A blank config starts from an empty document; a config that is not TOML
/// is refused.  The text is TOML that holds what the config held, with the
/// trimmed instructions and locale (or neither, when blank).
pub fn build_preference_config(current: &str, preferences: &CodexPreferenceConfig) -> (r: Result<
    String,
    PreferenceError,
>)
    ensures
        r is Err <==> trim(current@).len() > 0 && toml_parse(current@) is None,
        r matches Ok(t) ==> ends_with_char(t@, '\n'),
        r matches Ok(t) ==> written_config(current@, *preferences, t@),
        r matches Ok(t) ==> spec_preferences(t@) == Some(
            (trim(preferences.locale_override@), trim(preferences.developer_instructions@)),
        ),
{
    let mut doc = if trim_str(current).len() == 0 {
        new_document()
    } else {
        match parse_document(current) {
            Ok(d) => d,
            Err(e) => return Err(PreferenceError::InvalidToml(toml_error_text(&e))),
        }
    };
    let ghost top0 = toml_top_strings(doc);
    let ghost tables0 = toml_tables(doc);
    assert(top0 == base_maps(current@).0 && tables0 == base_maps(current@).1);
    let ghost entries0 = toml_entries(doc);
    assert(entries0 =~= base_entries(current@));
    write_preferences(&mut doc, preferences);
    let ghost top1 = toml_top_strings(doc);
    let ghost tables1 = toml_tables(doc);
    proof {
        law_written_preferences_read_back(
            top0,
            tables0,
            preferences.locale_override@,
            preferences.developer_instructions@,
        );
    }
    let text = document_text(&doc);
    let mut out = chars_of(text.as_str());
    let n = out.len();
    if n == 0 || out[n - 1] != '\n' {
        out.push('\n');
        proof {
            assert(out@ =~= text@.push('\n'));
            assert(out@.drop_last() =~= text@);
            assert(is_ws('\n'));
            lemma_trim_drop_ws_last(out@);
        }
    } else {
        assert(out@ =~= text@);
    }
    proof {
        let t = out@;
        assert(toml_parse(t) == toml_parse(text@));
        assert(toml_parse_entries(t) == toml_entries(doc));
        assert(holds_maps(t, top1, tables1));
        let d: Seq<char> = "desktop"@;
        let di: Seq<char> = "developer_instructions"@;
        let lo: Seq<char> = "localeOverride"@;
        if trim(t).len() == 0 {
            assert(trim(text@).len() == 0);
            if trim(preferences.developer_instructions@).len() > 0 {
                assert(top1.contains_key(di));
            }
            assert(tables1.contains_key(d));
            if trim(preferences.locale_override@).len() > 0 {
                assert(tables1[d].contains_key(lo));
                assert(tables1[d] == Map::<Seq<char>, Seq<char>>::empty());
            }
            assert(trim(preferences.locale_override@) =~= seq![]);
            assert(trim(preferences.developer_instructions@) =~= seq![]);
        } else {
            lemma_read_back(t, top1, tables1);
        }
    }
    Ok(string_of(out.as_slice()))
}

/// The preferences read from `config.toml` at `config_path`.
pub fn read_codex_preferences(config: &str, config_path: &str) -> (r: Result<
    CodexPreferenceResult,
    PreferenceError,
>)
    ensures
        match (r, spec_preferences(config@)) {
            (Ok(p), Some((locale, instructions))) => p.locale_override@ == locale
                && p.developer_instructions@ == instructions && p.config_path@ == config_path@
                && p.backup_path@.len() == 0,
            (Err(_), None) => true,
            _ => false,
        },
{
    match parse_codex_preferences(config) {
        Ok(p) => Ok(
            CodexPreferenceResult {
                config_path: String::from_str(config_path),
                backup_path: String::new(),
                locale_override: p.locale_override,
                developer_instructions: p.developer_instructions,
            },
        ),
        Err(e) => Err(e),
    }
}

/// Saves the preferences: the new `config.toml` text, and what it holds as
/// read back from that text (the trimmed locale and instructions).  Only a
/// config that is neither blank nor TOML is refused.
pub fn save_codex_preferences(
    current: &str,
    preferences: &CodexPreferenceConfig,
    config_path: &str,
    backup_path: &str,
) -> (r: Result<(String, CodexPreferenceResult), PreferenceError>)
    ensures
        r is Err <==> trim(current@).len() > 0 && toml_parse(current@) is None,
        r matches Ok((text, p)) ==> {
            &&& ends_with_char(text@, '\n')
            &&& written_config(current@, *preferences, text@)
            &&& spec_preferences(text@) == Some((p.locale_override@, p.developer_instructions@))
            &&& p.locale_override@ == trim(preferences.locale_override@)
            &&& p.developer_instructions@ == trim(preferences.developer_instructions@)
            &&& p.config_path@ == config_path@
            &&& p.backup_path@ == backup_path@
        },
{
    let next = match build_preference_config(current, preferences) {
        Ok(t) => t,
        Err(e) => return Err(e),
    };
    let saved = match parse_codex_preferences(next.as_str()) {
        Ok(p) => p,
        Err(e) => return Err(e),
    };
    Ok(
        (
            next,
            CodexPreferenceResult {
                config_path: String::from_str(config_path),
                backup_path: String::from_str(backup_path),
                locale_override: saved.locale_override,
                developer_instructions: saved.developer_instructions,
            },
        ),
    )
}

/// What is written is what is read: after the preferences are written into
/// a document, the document holds the trimmed locale and instructions (a
/// blank one as empty).
pub proof fn law_written_preferences_read_back(
    top: Map<Seq<char>, Seq<char>>,
    tables: Map<Seq<char>, Map<Seq<char>, Seq<char>>>,
    locale: Seq<char>,
    instructions: Seq<char>,
)
    ensures
        preferences_of(edited_top(top, tables, instructions), edited_tables(tables, locale)) == (
            trim(locale),
            trim(instructions),
        ),
{
    let d: Seq<char> = "desktop"@;
    let di: Seq<char> = "developer_instructions"@;
    assert(d != di) by {
        reveal_strlit("desktop");
        reveal_strlit("developer_instructions");
        assert(d.len() != di.len());
    }
    if trim(locale).len() == 0 {
        assert(trim(locale) =~= seq![]);
    }
    if trim(instructions).len() == 0 {
        assert(trim(instructions) =~= seq![]);
    }
}

} // verus!
