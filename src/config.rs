//! How one input is to be processed: the type's name, the attributes to attach,
//! the input dialect and the capabilities to emit; and reading those settings
//! from a configuration document.

use vstd::prelude::*;
use crate::emit::Capability;
use crate::scan::Dialect;
use crate::text::same_text;

verus! {

/// Arguments for how to process an input.
#[derive(Debug)]
pub struct FileArgs {
    /// The enum name (`Name` if not given).
    pub name: Option<String>,
    /// Which traits to derive, written as they go in the attribute, e.g. `Debug, PartialEq`.
    pub derive: Option<String>,
    /// Read `#define NAME VALUE` lines instead of enum members.
    pub define: bool,
    /// Implement `Default` with the member of smallest value.
    pub default: bool,
    /// Implement `std::fmt::Display`.
    pub display: bool,
    /// Implement `num::traits::FromPrimitive`.
    pub fromprimative: bool,
    /// Implement `std::str::FromStr`.
    pub fromstr: bool,
    /// Write values in hexadecimal.
    pub hex: bool,
    /// Implement `pretty_fmt()`, which needs `Display` and `FromPrimitive` too.
    pub pretty_fmt: bool,
}

impl Default for FileArgs {
    fn default() -> (r: FileArgs)
        ensures
            r.name is None,
            r.derive is None,
            !r.define && !r.default && !r.display && !r.fromprimative && !r.fromstr && !r.hex
                && !r.pretty_fmt,
    {
        FileArgs {
            name: None,
            derive: None,
            define: false,
            default: false,
            display: false,
            fromstr: false,
            fromprimative: false,
            hex: false,
            pretty_fmt: false,
        }
    }
}

/// The input dialect that `a` selects.
pub open spec fn dialect_of(a: FileArgs) -> Dialect {
    if a.define {
        Dialect::DefineStyle
    } else {
        Dialect::EnumStyle
    }
}

/// `Display` is emitted when asked for, or when `pretty_fmt` needs it.
pub open spec fn wants_display(a: FileArgs) -> bool {
    a.display || a.pretty_fmt
}

/// `FromPrimitive` is emitted when asked for, or when `pretty_fmt` needs it.
pub open spec fn wants_fromprimative(a: FileArgs) -> bool {
    a.fromprimative || a.pretty_fmt
}

pub open spec fn opt_cap(on: bool, c: Capability) -> Seq<Capability> {
    if on {
        seq![c]
    } else {
        Seq::empty()
    }
}

/// The capabilities that `a` selects, after `pretty_fmt` has brought in the two
/// it depends on, in the order in which they are emitted.
pub open spec fn capabilities_of(a: FileArgs) -> Seq<Capability> {
    opt_cap(a.fromstr, Capability::FromStr) + opt_cap(a.default, Capability::Default) + opt_cap(
        wants_display(a),
        Capability::Display,
    ) + opt_cap(wants_fromprimative(a), Capability::FromPrimitive) + opt_cap(
        a.pretty_fmt,
        Capability::PrettyFmt,
    )
}

fn push_cap(v: &mut Vec<Capability>, on: bool, c: Capability)
    ensures
        final(v)@ == old(v)@ + opt_cap(on, c),
{
    if on {
        v.push(c);
    } else {
        assert(old(v)@ + opt_cap(on, c) =~= old(v)@);
    }
}

impl FileArgs {
    /// The input dialect these arguments select.
    pub fn dialect(&self) -> (r: Dialect)
        ensures
            r == dialect_of(*self),
    {
        if self.define {
            Dialect::DefineStyle
        } else {
            Dialect::EnumStyle
        }
    }

    /// The capabilities to emit, in order; `pretty_fmt` brings in `Display`
    /// and `FromPrimitive`.
    pub fn capabilities(&self) -> (r: Vec<Capability>)
        ensures
            r@ == capabilities_of(*self),
    {
        let mut v: Vec<Capability> = Vec::new();
        push_cap(&mut v, self.fromstr, Capability::FromStr);
        push_cap(&mut v, self.default, Capability::Default);
        push_cap(&mut v, self.display || self.pretty_fmt, Capability::Display);
        push_cap(&mut v, self.fromprimative || self.pretty_fmt, Capability::FromPrimitive);
        push_cap(&mut v, self.pretty_fmt, Capability::PrettyFmt);
        assert(v@ =~= capabilities_of(*self));
        v
    }
}

/// A value of a configuration document, as far as settings are read from it.
#[derive(Debug)]
pub enum ConfigValue {
    /// A string.
    Str(String),
    /// A boolean.
    Bool(bool),
    /// A table of keys and values.
    Table(Vec<(String, ConfigValue)>),
    /// Any other kind of value.
    Other,
}

/// Why a configuration document does not give a valid set of arguments.
#[derive(Debug, PartialEq, Eq)]
pub enum ConfigError {
    /// The document has no `rust-enum-derive` entry.
    MissingSection,
    /// The `rust-enum-derive` entry is not a table.
    SectionNotTable,
    /// The setting with this key is present but is not a string.
    NotAString(String),
    /// The setting with this key is present but is not a boolean.
    NotABool(String),
    /// The text is not a TOML document.
    Syntax,
}

/// The table of settings within a configuration document.
pub const SECTION: &'static str = "rust-enum-derive";

pub const KEY_NAME: &'static str = "name";

pub const KEY_DERIVE: &'static str = "derive";

pub const KEY_DEFINE: &'static str = "define";

pub const KEY_DEFAULT: &'static str = "default";

pub const KEY_DISPLAY: &'static str = "display";

pub const KEY_FROMSTR: &'static str = "fromstr";

pub const KEY_FROMPRIMATIVE: &'static str = "fromprimative";

pub const KEY_HEX: &'static str = "hex";

pub const KEY_PRETTY_FMT: &'static str = "pretty_fmt";

/// The value of the first entry from index `j` on whose key is `key`.
pub open spec fn lookup_from(entries: Seq<(String, ConfigValue)>, key: Seq<char>, j: int) -> Option<
    ConfigValue,
>
    decreases entries.len() - j,
{
    if j < 0 || j >= entries.len() {
        None
    } else if entries[j].0@ == key {
        Some(entries[j].1)
    } else {
        lookup_from(entries, key, j + 1)
    }
}

pub open spec fn lookup(entries: Seq<(String, ConfigValue)>, key: Seq<char>) -> Option<ConfigValue> {
    lookup_from(entries, key, 0)
}

/// The setting `key` is present and is not a string.
pub open spec fn not_a_string(sec: Seq<(String, ConfigValue)>, key: Seq<char>) -> bool {
    lookup(sec, key) matches Some(v) && !(v is Str)
}

/// The setting `key` is present and is not a boolean.
pub open spec fn not_a_bool(sec: Seq<(String, ConfigValue)>, key: Seq<char>) -> bool {
    lookup(sec, key) matches Some(v) && !(v is Bool)
}

/// The string setting `key`, if present.
pub open spec fn string_setting(sec: Seq<(String, ConfigValue)>, key: Seq<char>) -> Option<Seq<char>> {
    match lookup(sec, key) {
        Some(ConfigValue::Str(s)) => Some(s@),
        _ => None,
    }
}

/// The boolean setting `key`; false when absent.
pub open spec fn bool_setting(sec: Seq<(String, ConfigValue)>, key: Seq<char>) -> bool {
    match lookup(sec, key) {
        Some(ConfigValue::Bool(b)) => b,
        _ => false,
    }
}

/// The first setting of the wrong type, in the order `name`, `derive`,
/// `define`, `default`, `display`, `fromstr`, `fromprimative`, `hex`,
/// `pretty_fmt`; with it, whether a string was expected.
pub open spec fn first_bad_setting(sec: Seq<(String, ConfigValue)>) -> Option<(Seq<char>, bool)> {
    if not_a_string(sec, KEY_NAME@) {
        Some((KEY_NAME@, true))
    } else if not_a_string(sec, KEY_DERIVE@) {
        Some((KEY_DERIVE@, true))
    } else if not_a_bool(sec, KEY_DEFINE@) {
        Some((KEY_DEFINE@, false))
    } else if not_a_bool(sec, KEY_DEFAULT@) {
        Some((KEY_DEFAULT@, false))
    } else if not_a_bool(sec, KEY_DISPLAY@) {
        Some((KEY_DISPLAY@, false))
    } else if not_a_bool(sec, KEY_FROMSTR@) {
        Some((KEY_FROMSTR@, false))
    } else if not_a_bool(sec, KEY_FROMPRIMATIVE@) {
        Some((KEY_FROMPRIMATIVE@, false))
    } else if not_a_bool(sec, KEY_HEX@) {
        Some((KEY_HEX@, false))
    } else if not_a_bool(sec, KEY_PRETTY_FMT@) {
        Some((KEY_PRETTY_FMT@, false))
    } else {
        None
    }
}

pub open spec fn opt_view(o: Option<String>) -> Option<Seq<char>> {
    match o {
        Some(s) => Some(s@),
        None => None,
    }
}

/// `a` holds exactly the settings of the table `sec`.
pub open spec fn args_from_settings(a: FileArgs, sec: Seq<(String, ConfigValue)>) -> bool {
    &&& opt_view(a.name) == string_setting(sec, KEY_NAME@)
    &&& opt_view(a.derive) == string_setting(sec, KEY_DERIVE@)
    &&& a.define == bool_setting(sec, KEY_DEFINE@)
    &&& a.default == bool_setting(sec, KEY_DEFAULT@)
    &&& a.display == bool_setting(sec, KEY_DISPLAY@)
    &&& a.fromstr == bool_setting(sec, KEY_FROMSTR@)
    &&& a.fromprimative == bool_setting(sec, KEY_FROMPRIMATIVE@)
    &&& a.hex == bool_setting(sec, KEY_HEX@)
    &&& a.pretty_fmt == bool_setting(sec, KEY_PRETTY_FMT@)
}

fn find_entry<'a>(entries: &'a Vec<(String, ConfigValue)>, key: &str) -> (r: Option<&'a ConfigValue>)
    ensures
        match r {
            Some(v) => lookup(entries@, key@) == Some(*v),
            None => lookup(entries@, key@) is None,
        },
{
    let mut j: usize = 0;
    while j < entries.len()
        invariant
            j <= entries.len(),
            lookup_from(entries@, key@, j as int) == lookup(entries@, key@),
        decreases entries.len() - j,
    {
        if same_text(entries[j].0.as_str(), key) {
            return Some(&entries[j].1);
        }
        j = j + 1;
    }
    None
}

fn read_string(sec: &Vec<(String, ConfigValue)>, key: &str) -> (r: Result<Option<String>, ConfigError>)
    ensures
        not_a_string(sec@, key@) <==> r is Err,
        r is Err ==> (r->Err_0 matches ConfigError::NotAString(k) && k@ == key@),
        r is Ok ==> opt_view(r->Ok_0) == string_setting(sec@, key@),
{
    match find_entry(sec, key) {
        None => Ok(None),
        Some(ConfigValue::Str(s)) => Ok(Some(s.clone())),
        Some(_) => Err(ConfigError::NotAString(key.to_owned())),
    }
}

fn read_bool(sec: &Vec<(String, ConfigValue)>, key: &str) -> (r: Result<bool, ConfigError>)
    ensures
        not_a_bool(sec@, key@) <==> r is Err,
        r is Err ==> (r->Err_0 matches ConfigError::NotABool(k) && k@ == key@),
        r is Ok ==> r->Ok_0 == bool_setting(sec@, key@),
{
    match find_entry(sec, key) {
        None => Ok(false),
        Some(ConfigValue::Bool(b)) => Ok(*b),
        Some(_) => Err(ConfigError::NotABool(key.to_owned())),
    }
}

/// `r` is what the document `doc` gives: the settings of its
/// `rust-enum-derive` table, or the first reason why they cannot be read.
pub open spec fn document_outcome(doc: Seq<(String, ConfigValue)>, r: Result<FileArgs, ConfigError>) -> bool {
    match lookup(doc, SECTION@) {
        None => r == Err::<FileArgs, ConfigError>(ConfigError::MissingSection),
        Some(ConfigValue::Table(sec)) => match first_bad_setting(sec@) {
            None => r is Ok && args_from_settings(r->Ok_0, sec@),
            Some((key, true)) => r is Err && (r->Err_0 matches ConfigError::NotAString(k) && k@
                == key),
            Some((key, false)) => r is Err && (r->Err_0 matches ConfigError::NotABool(k) && k@
                == key),
        },
        Some(_) => r == Err::<FileArgs, ConfigError>(ConfigError::SectionNotTable),
    }
}

/// The arguments that the `rust-enum-derive` table of the document `doc` sets;
/// settings that are absent keep their defaults.
pub fn file_args_from_document(doc: &Vec<(String, ConfigValue)>) -> (r: Result<
    FileArgs,
    ConfigError,
>)
    ensures
        document_outcome(doc@, r),
{
    let sec = match find_entry(doc, SECTION) {
        None => {
            return Err(ConfigError::MissingSection);
        },
        Some(ConfigValue::Table(sec)) => sec,
        Some(_) => {
            return Err(ConfigError::SectionNotTable);
        },
    };
    let name = read_string(sec, KEY_NAME)?;
    let derive = read_string(sec, KEY_DERIVE)?;
    let define = read_bool(sec, KEY_DEFINE)?;
    let default = read_bool(sec, KEY_DEFAULT)?;
    let display = read_bool(sec, KEY_DISPLAY)?;
    let fromstr = read_bool(sec, KEY_FROMSTR)?;
    let fromprimative = read_bool(sec, KEY_FROMPRIMATIVE)?;
    let hex = read_bool(sec, KEY_HEX)?;
    let pretty_fmt = read_bool(sec, KEY_PRETTY_FMT)?;
    Ok(FileArgs { name, derive, define, default, display, fromprimative, fromstr, hex, pretty_fmt })
}

#[verifier::external_type_specification]
#[verifier::external_body]
pub struct ExTomlValue(toml::Value);

#[verifier::external_type_specification]
#[verifier::external_body]
#[verifier::reject_recursive_types(K)]
#[verifier::reject_recursive_types(V)]
pub struct ExTomlMap<K, V>(toml::map::Map<K, V>);

/// One entry's value of a parsed TOML table, with a nested table left parsed.
enum TomlItem {
    Str(String),
    Bool(bool),
    Table(toml::Table),
    Other,
}

/// A TOML value, as far as settings are read from it.
pub enum TomlView {
    Str(Seq<char>),
    Bool(bool),
    /// A table: its entries in the order the table gives them out.
    Table(Seq<(Seq<char>, TomlView)>),
    /// An integer, float, date-time or array.
    Other,
}

/// What toml makes of a text: the entries of the document's table, or `None`
/// when the text is no TOML document.
pub uninterp spec fn toml_document_of(text: Seq<char>) -> Option<Seq<(Seq<char>, TomlView)>>;

/// The entries of a parsed table, in the order `into_iter` gives them out.
pub uninterp spec fn table_entries_of(t: toml::Table) -> Seq<(Seq<char>, TomlView)>;

/// Relies on toml's `FromStr` for `Table`: parses a whole TOML document,
/// failing exactly when the text is none.
#[verifier::external_body]
fn parse_toml_table(text: &str) -> (r: Option<toml::Table>)
    ensures
        r is Some <==> toml_document_of(text@) is Some,
        r matches Some(t) ==> toml_document_of(text@) == Some(table_entries_of(t)),
{
    text.parse::<toml::Table>().ok()
}

/// `item` carries the value `v`; a nested table carries its entries.
spec fn item_matches(item: TomlItem, v: TomlView) -> bool {
    match (item, v) {
        (TomlItem::Str(s), TomlView::Str(x)) => s@ == x,
        (TomlItem::Bool(b), TomlView::Bool(c)) => b == c,
        (TomlItem::Table(x), TomlView::Table(w)) => table_entries_of(x) == w,
        (TomlItem::Other, TomlView::Other) => true,
        _ => false,
    }
}

/// Relies on toml's `Map::into_iter`: each entry of the table once, in its
/// order, its value told apart by the variant of `toml::Value`.
#[verifier::external_body]
fn toml_entries(t: toml::Table) -> (r: Vec<(String, TomlItem)>)
    ensures
        r@.len() == table_entries_of(t).len(),
        forall|i: int|
            0 <= i < r@.len() ==> (#[trigger] r@[i]).0@ == table_entries_of(t)[i].0
                && item_matches(r@[i].1, table_entries_of(t)[i].1),
{
    t.into_iter().map(|(k, v)| (k, match v {
        toml::Value::String(s) => TomlItem::Str(s),
        toml::Value::Boolean(b) => TomlItem::Bool(b),
        toml::Value::Table(x) => TomlItem::Table(x),
        _ => TomlItem::Other,
    })).collect()
}

/// `c` is what a document holds for the value `v`, tables nested deeper than
/// `depth` read as `Other`.
pub open spec fn value_matches(c: ConfigValue, v: TomlView, depth: nat) -> bool
    decreases depth, 0nat,
{
    match (c, v) {
        (ConfigValue::Str(s), TomlView::Str(x)) => s@ == x,
        (ConfigValue::Bool(b), TomlView::Bool(x)) => b == x,
        (ConfigValue::Table(d), TomlView::Table(w)) => depth > 0 && doc_matches(
            d@,
            w,
            (depth - 1) as nat,
        ),
        (ConfigValue::Other, TomlView::Table(_)) => depth == 0,
        (ConfigValue::Other, TomlView::Other) => true,
        _ => false,
    }
}

/// `doc` is the document of the entries `v`, down to `depth` nested tables.
pub open spec fn doc_matches(doc: Seq<(String, ConfigValue)>, v: Seq<(Seq<char>, TomlView)>, depth: nat) -> bool
    decreases depth, 1nat,
{
    &&& doc.len() == v.len()
    &&& forall|i: int|
        0 <= i < doc.len() ==> (#[trigger] doc[i]).0@ == v[i].0 && value_matches(
            doc[i].1,
            v[i].1,
            depth,
        )
}

/// The index of the first entry from `j` on whose key is `key`, or -1.
pub open spec fn key_index_from(v: Seq<(Seq<char>, TomlView)>, key: Seq<char>, j: int) -> int
    decreases v.len() - j,
{
    if j < 0 || j >= v.len() {
        -1
    } else if v[j].0 == key {
        j
    } else {
        key_index_from(v, key, j + 1)
    }
}

proof fn lemma_lookup_index(
    d: Seq<(String, ConfigValue)>,
    v: Seq<(Seq<char>, TomlView)>,
    depth: nat,
    key: Seq<char>,
    j: int,
)
    requires
        doc_matches(d, v, depth),
        0 <= j <= d.len(),
    ensures
        key_index_from(v, key, j) == -1 ==> lookup_from(d, key, j) is None,
        key_index_from(v, key, j) != -1 ==> j <= key_index_from(v, key, j) < d.len() && lookup_from(
            d,
            key,
            j,
        ) == Some(d[key_index_from(v, key, j)].1),
    decreases d.len() - j,
{
    if j < d.len() {
        assert(d[j].0@ == v[j].0);
        if v[j].0 != key {
            lemma_lookup_index(d, v, depth, key, j + 1);
        }
    }
}

proof fn lemma_setting_agrees(
    s1: Seq<(String, ConfigValue)>,
    s2: Seq<(String, ConfigValue)>,
    w: Seq<(Seq<char>, TomlView)>,
    key: Seq<char>,
)
    requires
        doc_matches(s1, w, 0),
        doc_matches(s2, w, 0),
    ensures
        not_a_string(s1, key) == not_a_string(s2, key),
        not_a_bool(s1, key) == not_a_bool(s2, key),
        string_setting(s1, key) == string_setting(s2, key),
        bool_setting(s1, key) == bool_setting(s2, key),
{
    lemma_lookup_index(s1, w, 0, key, 0);
    lemma_lookup_index(s2, w, 0, key, 0);
    let k = key_index_from(w, key, 0);
    if k != -1 {
        assert(value_matches(s1[k].1, w[k].1, 0));
        assert(value_matches(s2[k].1, w[k].1, 0));
    }
}

/// Two documents of the same entries give the same arguments, or fail alike.
pub proof fn lemma_outcome_follows_entries(
    d1: Seq<(String, ConfigValue)>,
    d2: Seq<(String, ConfigValue)>,
    v: Seq<(Seq<char>, TomlView)>,
    r: Result<FileArgs, ConfigError>,
)
    requires
        doc_matches(d1, v, 1),
        doc_matches(d2, v, 1),
    ensures
        document_outcome(d1, r) == document_outcome(d2, r),
{
    lemma_lookup_index(d1, v, 1, SECTION@, 0);
    lemma_lookup_index(d2, v, 1, SECTION@, 0);
    let k = key_index_from(v, SECTION@, 0);
    if k != -1 {
        assert(value_matches(d1[k].1, v[k].1, 1));
        assert(value_matches(d2[k].1, v[k].1, 1));
        match (d1[k].1, d2[k].1, v[k].1) {
            (ConfigValue::Table(s1), ConfigValue::Table(s2), TomlView::Table(w)) => {
                lemma_setting_agrees(s1@, s2@, w, KEY_NAME@);
                lemma_setting_agrees(s1@, s2@, w, KEY_DERIVE@);
                lemma_setting_agrees(s1@, s2@, w, KEY_DEFINE@);
                lemma_setting_agrees(s1@, s2@, w, KEY_DEFAULT@);
                lemma_setting_agrees(s1@, s2@, w, KEY_DISPLAY@);
                lemma_setting_agrees(s1@, s2@, w, KEY_FROMSTR@);
                lemma_setting_agrees(s1@, s2@, w, KEY_FROMPRIMATIVE@);
                lemma_setting_agrees(s1@, s2@, w, KEY_HEX@);
                lemma_setting_agrees(s1@, s2@, w, KEY_PRETTY_FMT@);
            },
            _ => {},
        }
    }
}

/// The entries of `t` as a document, tables nested deeper than `depth` read as
/// `Other`.
fn document_of(t: toml::Table, depth: usize) -> (r: Vec<(String, ConfigValue)>)
    ensures
        doc_matches(r@, table_entries_of(t), depth as nat),
    decreases depth,
{
    let ghost v = table_entries_of(t);
    let mut items = toml_entries(t);
    let ghost orig = items@;
    let n = items.len();
    let mut out: Vec<(String, ConfigValue)> = Vec::new();
    let mut k: usize = 0;
    while items.len() > 0
        invariant
            k + items.len() == n,
            n == v.len() == orig.len(),
            items@ == orig.subrange(k as int, n as int),
            forall|i: int|
                0 <= i < n ==> (#[trigger] orig[i]).0@ == v[i].0 && item_matches(orig[i].1, v[i].1),
            out@.len() == k,
            forall|i: int|
                0 <= i < k ==> (#[trigger] out@[i]).0@ == v[i].0 && value_matches(
                    out@[i].1,
                    v[i].1,
                    depth as nat,
                ),
        decreases items.len(),
    {
        let entry = items.remove(0);
        assert(entry == orig[k as int]);
        assert(items@ =~= orig.subrange(k + 1, n as int));
        let (key, item) = entry;
        let value = match item {
            TomlItem::Str(s) => ConfigValue::Str(s),
            TomlItem::Bool(b) => ConfigValue::Bool(b),
            TomlItem::Table(x) => if depth > 0 {
                ConfigValue::Table(document_of(x, depth - 1))
            } else {
                ConfigValue::Other
            },
            TomlItem::Other => ConfigValue::Other,
        };
        out.push((key, value));
        k = k + 1;
    }
    out
}

/// The arguments that the TOML text `text` sets in its `rust-enum-derive`
/// table; `Syntax` exactly when the text is no TOML document. Tables nested
/// in that table are not read.
pub fn parse_config(text: &str) -> (r: Result<FileArgs, ConfigError>)
    ensures
        (r == Err::<FileArgs, ConfigError>(ConfigError::Syntax)) <==> toml_document_of(text@) is None,
        toml_document_of(text@) matches Some(v) ==> exists|doc: Seq<(String, ConfigValue)>|
            doc_matches(doc, v, 1),
        toml_document_of(text@) matches Some(v) ==> forall|doc: Seq<(String, ConfigValue)>|
            doc_matches(doc, v, 1) ==> document_outcome(doc, r),
{
    match parse_toml_table(text) {
        None => Err(ConfigError::Syntax),
        Some(t) => {
            let doc = document_of(t, 1);
            let r = file_args_from_document(&doc);
            assert(doc_matches(doc@, toml_document_of(text@)->Some_0, 1));
            assert(document_outcome(doc@, r));
            let ghost v = toml_document_of(text@)->Some_0;
            assert forall|d: Seq<(String, ConfigValue)>| doc_matches(d, v, 1) implies document_outcome(
                d,
                r,
            ) by {
                lemma_outcome_follows_entries(doc@, d, v, r);
            }
            r
        },
    }
}

} // verus!
