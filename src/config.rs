//! The configuration model and the reading of configuration documents.

use vstd::prelude::*;
use crate::modes::{
    display_from_name, display_named, source_from_name, source_named, DisplayMode, SourceMode,
};
use crate::text::same_text;

verus! {

/// A named group of entries with optional mode overrides.
#[derive(Debug, Clone)]
pub struct Category {
    pub display: Option<DisplayMode>,
    pub source: Option<SourceMode>,
    /// (key, value) pairs in document order.
    pub entries: Vec<(String, String)>,
}

/// The whole configuration: global modes and the categories in document order.
#[derive(Debug, Clone)]
pub struct Config {
    pub display: DisplayMode,
    pub source: SourceMode,
    pub categories: Vec<(String, Category)>,
}

/// A category as plain values.
pub struct CategoryView {
    pub display: Option<DisplayMode>,
    pub source: Option<SourceMode>,
    pub entries: Seq<(Seq<char>, Seq<char>)>,
}

/// A configuration as plain values.
pub struct ConfigView {
    pub display: DisplayMode,
    pub source: SourceMode,
    pub categories: Seq<(Seq<char>, CategoryView)>,
}

/// The views of (key, value) text pairs.
pub open spec fn pairs_view(s: Seq<(String, String)>) -> Seq<(Seq<char>, Seq<char>)> {
    s.map_values(|p: (String, String)| (p.0@, p.1@))
}

impl View for Category {
    type V = CategoryView;

    open spec fn view(&self) -> CategoryView {
        CategoryView { display: self.display, source: self.source, entries: pairs_view(self.entries@) }
    }
}

/// The views of named categories.
pub open spec fn categories_view(s: Seq<(String, Category)>) -> Seq<(Seq<char>, CategoryView)> {
    s.map_values(|p: (String, Category)| (p.0@, p.1@))
}

impl View for Config {
    type V = ConfigView;

    open spec fn view(&self) -> ConfigView {
        ConfigView {
            display: self.display,
            source: self.source,
            categories: categories_view(self.categories@),
        }
    }
}

/// Whether no two pairs share a key.
pub open spec fn keys_distinct<V>(s: Seq<(String, V)>) -> bool {
    forall|i: int, j: int| 0 <= i < j < s.len() ==> s[i].0@ != s[j].0@
}

/// A TOML value as plain values: a string, a table of keyed values, or
/// anything else (numbers, booleans, dates, arrays).
pub enum TomlView {
    Text(Seq<char>),
    Table(Seq<(Seq<char>, TomlView)>),
    Other,
}

/// Whether no two pairs of a viewed table share a key.
pub open spec fn keys_unique<V>(s: Seq<(Seq<char>, V)>) -> bool {
    forall|i: int, j: int| 0 <= i < j < s.len() ==> s[i].0 != s[j].0
}

/// A value inside a category table of a configuration document.
pub enum RawField {
    Text(String),
    /// Any value that is not a string.
    Other,
}

/// A top-level value of a configuration document.
pub enum RawValue {
    Text(String),
    Table(Vec<(String, RawField)>),
    /// Any value that is neither a string nor a table.
    Other,
}

/// A category field as plain values.
pub open spec fn field_view(f: RawField) -> TomlView {
    match f {
        RawField::Text(s) => TomlView::Text(s@),
        RawField::Other => TomlView::Other,
    }
}

/// Category fields as plain values.
pub open spec fn fields_view(s: Seq<(String, RawField)>) -> Seq<(Seq<char>, TomlView)> {
    s.map_values(|p: (String, RawField)| (p.0@, field_view(p.1)))
}

/// A top-level value as plain values.
pub open spec fn raw_view(v: RawValue) -> TomlView {
    match v {
        RawValue::Text(s) => TomlView::Text(s@),
        RawValue::Table(fields) => TomlView::Table(fields_view(fields@)),
        RawValue::Other => TomlView::Other,
    }
}

/// A document as plain values.
pub open spec fn doc_view(s: Seq<(String, RawValue)>) -> Seq<(Seq<char>, TomlView)> {
    s.map_values(|p: (String, RawValue)| (p.0@, raw_view(p.1)))
}

/// Why a configuration document was refused.
#[derive(Debug, Clone, Copy, PartialEq, Eq, Structural)]
pub enum ParseError {
    Malformed,
}

/// The text of a string value, empty for any other value.
pub open spec fn text_of(v: TomlView) -> Seq<char> {
    match v {
        TomlView::Text(s) => s,
        _ => Seq::empty(),
    }
}

/// Whether a category field is acceptable: `display` and `source` must name
/// a mode, every other key must hold a string.
pub open spec fn field_ok(key: Seq<char>, value: TomlView) -> bool {
    match value {
        TomlView::Text(s) => if key == "display"@ {
            display_named(s) is Some
        } else if key == "source"@ {
            source_named(s) is Some
        } else {
            true
        },
        _ => false,
    }
}

/// Whether a category table is acceptable.
pub open spec fn category_ok(fields: Seq<(Seq<char>, TomlView)>) -> bool {
    &&& keys_unique(fields)
    &&& forall|i: int| 0 <= i < fields.len() ==> field_ok(#[trigger] fields[i].0, fields[i].1)
}

/// The category that acceptable fields describe.
pub open spec fn category_of(fields: Seq<(Seq<char>, TomlView)>) -> CategoryView
    decreases fields.len(),
{
    if fields.len() == 0 {
        CategoryView { display: None, source: None, entries: Seq::empty() }
    } else {
        let c = category_of(fields.drop_last());
        let key = fields.last().0;
        let text = text_of(fields.last().1);
        if key == "display"@ {
            CategoryView { display: display_named(text), ..c }
        } else if key == "source"@ {
            CategoryView { source: source_named(text), ..c }
        } else {
            CategoryView { entries: c.entries.push((key, text)), ..c }
        }
    }
}

/// Whether a top-level entry is acceptable: `display` and `source` must name
/// a mode, every other key must hold an acceptable category table.
pub open spec fn top_ok(key: Seq<char>, value: TomlView) -> bool {
    if key == "display"@ {
        match value {
            TomlView::Text(s) => display_named(s) is Some,
            _ => false,
        }
    } else if key == "source"@ {
        match value {
            TomlView::Text(s) => source_named(s) is Some,
            _ => false,
        }
    } else {
        match value {
            TomlView::Table(fields) => category_ok(fields),
            _ => false,
        }
    }
}

/// Whether a whole document is acceptable.
pub open spec fn document_ok(doc: Seq<(Seq<char>, TomlView)>) -> bool {
    &&& keys_unique(doc)
    &&& forall|i: int| 0 <= i < doc.len() ==> top_ok(#[trigger] doc[i].0, doc[i].1)
}

/// The global modes given so far and the categories read so far.
pub open spec fn document_fold(doc: Seq<(Seq<char>, TomlView)>) -> (
    Option<DisplayMode>,
    Option<SourceMode>,
    Seq<(Seq<char>, CategoryView)>,
)
    decreases doc.len(),
{
    if doc.len() == 0 {
        (None, None, Seq::empty())
    } else {
        let (d, s, cats) = document_fold(doc.drop_last());
        let key = doc.last().0;
        match doc.last().1 {
            TomlView::Text(t) => if key == "display"@ {
                (display_named(t), s, cats)
            } else if key == "source"@ {
                (d, source_named(t), cats)
            } else {
                (d, s, cats)
            },
            TomlView::Table(fields) => (d, s, cats.push((key, category_of(fields)))),
            TomlView::Other => (d, s, cats),
        }
    }
}

/// The configuration that an acceptable document describes: global modes
/// default to text and config, every other key is a category.
pub open spec fn document_config(doc: Seq<(Seq<char>, TomlView)>) -> ConfigView {
    let (d, s, cats) = document_fold(doc);
    ConfigView {
        display: match d {
            Some(m) => m,
            None => DisplayMode::Text,
        },
        source: match s {
            Some(m) => m,
            None => SourceMode::Config,
        },
        categories: cats,
    }
}

proof fn lemma_fields_keys(fields: Seq<(String, RawField)>)
    ensures
        keys_unique(fields_view(fields)) == keys_distinct(fields),
{
    let v = fields_view(fields);
    if keys_distinct(fields) {
        assert forall|i: int, j: int| 0 <= i < j < v.len() implies v[i].0 != v[j].0 by {
            assert(v[i].0 == fields[i].0@);
            assert(v[j].0 == fields[j].0@);
        }
    }
    if keys_unique(v) {
        assert forall|i: int, j: int| 0 <= i < j < fields.len() implies fields[i].0@ != fields[j].0@ by {
            assert(v[i].0 == fields[i].0@);
            assert(v[j].0 == fields[j].0@);
        }
    }
}

proof fn lemma_doc_keys(doc: Seq<(String, RawValue)>)
    ensures
        keys_unique(doc_view(doc)) == keys_distinct(doc),
{
    let v = doc_view(doc);
    if keys_distinct(doc) {
        assert forall|i: int, j: int| 0 <= i < j < v.len() implies v[i].0 != v[j].0 by {
            assert(v[i].0 == doc[i].0@);
            assert(v[j].0 == doc[j].0@);
        }
    }
    if keys_unique(v) {
        assert forall|i: int, j: int| 0 <= i < j < doc.len() implies doc[i].0@ != doc[j].0@ by {
            assert(v[i].0 == doc[i].0@);
            assert(v[j].0 == doc[j].0@);
        }
    }
}

/// Whether the pairs of `s` have pairwise distinct keys.
pub fn distinct_keys<V>(s: &Vec<(String, V)>) -> (r: bool)
    ensures
        r == keys_distinct(s@),
{
    let mut j: usize = 0;
    while j < s.len()
        invariant
            j <= s@.len(),
            forall|a: int, b: int| 0 <= a < b < j ==> s@[a].0@ != s@[b].0@,
        decreases s@.len() - j,
    {
        let mut i: usize = 0;
        while i < j
            invariant
                j < s@.len(),
                i <= j,
                forall|a: int| 0 <= a < i ==> s@[a].0@ != s@[j as int].0@,
            decreases j - i,
        {
            if same_text(s[i].0.as_str(), s[j].0.as_str()) {
                return false;
            }
            i = i + 1;
        }
        j = j + 1;
    }
    true
}

/// Reads a category table.
pub fn category_from_fields(fields: &Vec<(String, RawField)>) -> (r: Result<Category, ParseError>)
    ensures
        r is Ok <==> category_ok(fields_view(fields@)),
        r is Ok ==> r->Ok_0@ == category_of(fields_view(fields@)) && keys_distinct(
            r->Ok_0.entries@,
        ),
{
    proof {
        lemma_fields_keys(fields@);
    }
    if !distinct_keys(fields) {
        return Err(ParseError::Malformed);
    }
    let mut display: Option<DisplayMode> = None;
    let mut source: Option<SourceMode> = None;
    let mut entries: Vec<(String, String)> = Vec::new();
    let mut i: usize = 0;
    assert(pairs_view(entries@) =~= Seq::empty());
    assert(fields_view(fields@.take(0)) =~= Seq::empty());
    while i < fields.len()
        invariant
            keys_distinct(fields@),
            i <= fields@.len(),
            forall|j: int|
                0 <= j < i ==> field_ok(#[trigger] fields@[j].0@, field_view(fields@[j].1)),
            (CategoryView { display, source, entries: pairs_view(entries@) }) == category_of(
                fields_view(fields@.take(i as int)),
            ),
            forall|a: int|
                0 <= a < entries@.len() ==> exists|b: int|
                    0 <= b < i && #[trigger] entries@[a].0@ == fields@[b].0@,
            keys_distinct(entries@),
        decreases fields@.len() - i,
    {
        assert(fields_view(fields@.take(i + 1)).drop_last() =~= fields_view(
            fields@.take(i as int),
        ));
        assert(fields_view(fields@.take(i + 1)).last() == (
            fields@[i as int].0@,
            field_view(fields@[i as int].1),
        ));
        assert(fields_view(fields@)[i as int] == (
            fields@[i as int].0@,
            field_view(fields@[i as int].1),
        ));
        let key = &fields[i].0;
        match &fields[i].1 {
            RawField::Other => {
                return Err(ParseError::Malformed);
            },
            RawField::Text(text) => {
                if same_text(key.as_str(), "display") {
                    match display_from_name(text.as_str()) {
                        Some(m) => {
                            display = Some(m);
                        },
                        None => {
                            return Err(ParseError::Malformed);
                        },
                    }
                } else if same_text(key.as_str(), "source") {
                    match source_from_name(text.as_str()) {
                        Some(m) => {
                            source = Some(m);
                        },
                        None => {
                            return Err(ParseError::Malformed);
                        },
                    }
                } else {
                    let ghost before = entries@;
                    entries.push((key.clone(), text.clone()));
                    assert(pairs_view(entries@) =~= pairs_view(before).push((key@, text@)));
                    assert forall|a: int|
                        0 <= a < entries@.len() implies exists|b: int|
                            0 <= b < i + 1 && #[trigger] entries@[a].0@ == fields@[b].0@ by {
                        if a == entries@.len() - 1 {
                            assert(entries@[a].0@ == fields@[i as int].0@);
                        } else {
                            assert(entries@[a] == before[a]);
                        }
                    }
                    assert forall|a: int, b: int|
                        0 <= a < b < entries@.len() implies entries@[a].0@ != entries@[b].0@ by {
                        if b == entries@.len() - 1 {
                            assert(entries@[a] == before[a]);
                            let c = choose|c: int| 0 <= c < i && #[trigger] before[a].0@ == fields@[c].0@;
                            assert(fields@[c].0@ != fields@[i as int].0@);
                        } else {
                            assert(entries@[a] == before[a]);
                            assert(entries@[b] == before[b]);
                        }
                    }
                }
            },
        }
        i = i + 1;
    }
    assert(fields@.take(i as int) =~= fields@);
    assert forall|a: int, b: int|
        0 <= a < b < fields_view(fields@).len() implies fields_view(fields@)[a].0
        != fields_view(fields@)[b].0 by {
        assert(fields@[a].0@ != fields@[b].0@);
    }
    assert forall|j: int| 0 <= j < fields_view(fields@).len() implies field_ok(
        #[trigger] fields_view(fields@)[j].0,
        fields_view(fields@)[j].1,
    ) by {
        assert(field_ok(fields@[j].0@, field_view(fields@[j].1)));
    }
    Ok(Category { display, source, entries })
}


impl Config {
    /// Whether category names are distinct and so are the keys within each category.
    pub open spec fn wf(&self) -> bool {
        &&& keys_distinct(self.categories@)
        &&& forall|i: int|
            0 <= i < self.categories@.len() ==> keys_distinct(
                #[trigger] self.categories@[i].1.entries@,
            )
    }

    /// Reads a configuration from a document. Refused, as malformed, when two
    /// entries share a key, when `display` or `source` does not name a mode,
    /// or when another top-level value is not an acceptable category table.
    pub fn from_document(doc: &Vec<(String, RawValue)>) -> (r: Result<Config, ParseError>)
        ensures
            r is Ok <==> document_ok(doc_view(doc@)),
            r is Ok ==> r->Ok_0@ == document_config(doc_view(doc@)) && r->Ok_0.wf(),
    {
        proof {
            lemma_doc_keys(doc@);
        }
        if !distinct_keys(doc) {
            return Err(ParseError::Malformed);
        }
        let mut display: Option<DisplayMode> = None;
        let mut source: Option<SourceMode> = None;
        let mut categories: Vec<(String, Category)> = Vec::new();
        let mut i: usize = 0;
        assert(categories_view(categories@) =~= Seq::empty());
        assert(doc_view(doc@.take(0)) =~= Seq::empty());
        while i < doc.len()
            invariant
                keys_distinct(doc@),
                i <= doc@.len(),
                forall|j: int| 0 <= j < i ==> top_ok(#[trigger] doc@[j].0@, raw_view(doc@[j].1)),
                (display, source, categories_view(categories@)) == document_fold(
                    doc_view(doc@.take(i as int)),
                ),
                forall|a: int|
                    0 <= a < categories@.len() ==> exists|b: int|
                        0 <= b < i && #[trigger] categories@[a].0@ == doc@[b].0@,
                keys_distinct(categories@),
                forall|a: int|
                    0 <= a < categories@.len() ==> keys_distinct(
                        #[trigger] categories@[a].1.entries@,
                    ),
            decreases doc@.len() - i,
        {
            assert(doc_view(doc@.take(i + 1)).drop_last() =~= doc_view(doc@.take(i as int)));
            assert(doc_view(doc@.take(i + 1)).last() == (doc@[i as int].0@, raw_view(doc@[i as int].1)));
            assert(doc_view(doc@)[i as int] == (doc@[i as int].0@, raw_view(doc@[i as int].1)));
            let key = &doc[i].0;
            let reserved = same_text(key.as_str(), "display") || same_text(key.as_str(), "source");
            match &doc[i].1 {
                RawValue::Text(text) => {
                    if same_text(key.as_str(), "display") {
                        match display_from_name(text.as_str()) {
                            Some(m) => {
                                display = Some(m);
                            },
                            None => {
                                return Err(ParseError::Malformed);
                            },
                        }
                    } else if same_text(key.as_str(), "source") {
                        match source_from_name(text.as_str()) {
                            Some(m) => {
                                source = Some(m);
                            },
                            None => {
                                return Err(ParseError::Malformed);
                            },
                        }
                    } else {
                        return Err(ParseError::Malformed);
                    }
                },
                RawValue::Table(fields) => {
                    if reserved {
                        return Err(ParseError::Malformed);
                    }
                    let category = match category_from_fields(fields) {
                        Ok(c) => c,
                        Err(e) => {
                            return Err(e);
                        },
                    };
                    let ghost before = categories@;
                    categories.push((key.clone(), category));
                    assert(categories_view(categories@) =~= categories_view(before).push(
                        (key@, category_of(fields_view(fields@))),
                    ));
                    assert forall|a: int|
                        0 <= a < categories@.len() implies exists|b: int|
                            0 <= b < i + 1 && #[trigger] categories@[a].0@ == doc@[b].0@ by {
                        if a == categories@.len() - 1 {
                            assert(categories@[a].0@ == doc@[i as int].0@);
                        } else {
                            assert(categories@[a] == before[a]);
                        }
                    }
                    assert forall|a: int, b: int|
                        0 <= a < b < categories@.len() implies categories@[a].0@
                        != categories@[b].0@ by {
                        if b == categories@.len() - 1 {
                            assert(categories@[a] == before[a]);
                            let c = choose|c: int|
                                0 <= c < i && #[trigger] before[a].0@ == doc@[c].0@;
                            assert(doc@[c].0@ != doc@[i as int].0@);
                        } else {
                            assert(categories@[a] == before[a]);
                            assert(categories@[b] == before[b]);
                        }
                    }
                    assert forall|a: int|
                        0 <= a < categories@.len() implies keys_distinct(
                        #[trigger] categories@[a].1.entries@,
                    ) by {
                        if a < categories@.len() - 1 {
                            assert(categories@[a] == before[a]);
                        }
                    }
                },
                RawValue::Other => {
                    return Err(ParseError::Malformed);
                },
            }
            i = i + 1;
        }
        assert(doc@.take(i as int) =~= doc@);
        assert forall|a: int, b: int|
            0 <= a < b < doc_view(doc@).len() implies doc_view(doc@)[a].0 != doc_view(doc@)[b].0 by {
            assert(doc@[a].0@ != doc@[b].0@);
        }
        assert forall|j: int| 0 <= j < doc_view(doc@).len() implies top_ok(
            #[trigger] doc_view(doc@)[j].0,
            doc_view(doc@)[j].1,
        ) by {
            assert(top_ok(doc@[j].0@, raw_view(doc@[j].1)));
        }
        Ok(Config { display: display.unwrap_or(DisplayMode::Text), source: source.unwrap_or(SourceMode::Config), categories })
    }
}


#[verifier::external_type_specification]
#[verifier::external_body]
pub struct ExTomlValue(toml::Value);

#[verifier::external_type_specification]
#[verifier::external_body]
#[verifier::reject_recursive_types(K)]
#[verifier::reject_recursive_types(V)]
pub struct ExTomlMap<K, V>(toml::map::Map<K, V>);

#[verifier::external_type_specification]
#[verifier::external_body]
pub struct ExTomlError(toml::de::Error);

/// The top-level table that `toml::from_str` reads from a text, as plain
/// values; `None` when the text is not a TOML document.
pub uninterp spec fn toml_document(text: Seq<char>) -> Option<Seq<(Seq<char>, TomlView)>>;

/// What a TOML table holds, in its iteration order, as plain values.
pub uninterp spec fn table_contents(t: toml::Table) -> Seq<(Seq<char>, TomlView)>;

/// Relies on `toml::from_str::<toml::Table>`: the table read depends on the
/// text alone.
#[verifier::external_body]
fn parse_toml_table(text: &str) -> (r: Result<toml::Table, toml::de::Error>)
    ensures
        r is Ok <==> toml_document(text@) is Some,
        r is Ok ==> table_contents(r->Ok_0) == toml_document(text@)->0,
{
    toml::from_str::<toml::Table>(text)
}

/// A TOML value sorted by the variants that configuration reading tells apart.
enum TomlKind {
    Text(String),
    Table(toml::Table),
    Other,
}

/// Whether a sorted value is the viewed one.
spec fn kind_matches(k: TomlKind, v: TomlView) -> bool {
    match (k, v) {
        (TomlKind::Text(s), TomlView::Text(x)) => s@ == x,
        (TomlKind::Table(inner), TomlView::Table(xs)) => table_contents(inner) == xs,
        (TomlKind::Other, TomlView::Other) => true,
        _ => false,
    }
}

/// Relies on `toml::map::Map`'s `IntoIterator`, which hands out each key once
/// (the map is a `BTreeMap` or an `IndexMap` keyed by string), and on the
/// variants of `toml::Value`: strings and tables apart from the rest.
#[verifier::external_body]
fn table_entries(t: toml::Table) -> (r: Vec<(String, TomlKind)>)
    ensures
        r@.len() == table_contents(t).len(),
        forall|i: int|
            0 <= i < r@.len() ==> (#[trigger] r@[i]).0@ == table_contents(t)[i].0 && kind_matches(
                r@[i].1,
                table_contents(t)[i].1,
            ),
        keys_distinct(r@),
{
    let mut out = Vec::new();
    for (key, value) in t {
        let kind = match value {
            toml::Value::String(s) => TomlKind::Text(s),
            toml::Value::Table(inner) => TomlKind::Table(inner),
            _ => TomlKind::Other,
        };
        out.push((key, kind));
    }
    out
}

/// A value inside a category table, as the configuration reads it: strings
/// as they are, anything else as other.
pub open spec fn leaf(v: TomlView) -> TomlView {
    match v {
        TomlView::Text(s) => TomlView::Text(s),
        _ => TomlView::Other,
    }
}

/// A category table as the configuration reads it.
pub open spec fn leaves(xs: Seq<(Seq<char>, TomlView)>) -> Seq<(Seq<char>, TomlView)> {
    xs.map_values(|p: (Seq<char>, TomlView)| (p.0, leaf(p.1)))
}

/// A top-level value as the configuration reads it.
pub open spec fn top_value(v: TomlView) -> TomlView {
    match v {
        TomlView::Table(xs) => TomlView::Table(leaves(xs)),
        _ => v,
    }
}

/// A document as the configuration reads it: tables nested inside category
/// tables count as other values.
pub open spec fn normalized(doc: Seq<(Seq<char>, TomlView)>) -> Seq<(Seq<char>, TomlView)> {
    doc.map_values(|p: (Seq<char>, TomlView)| (p.0, top_value(p.1)))
}

/// Whether every table value of a document has distinct keys.
pub open spec fn tables_distinct(doc: Seq<(String, RawValue)>) -> bool {
    forall|i: int|
        0 <= i < doc.len() ==> match #[trigger] doc[i].1 {
            RawValue::Table(fields) => keys_distinct(fields@),
            _ => true,
        }
}

/// The fields of a category table.
fn read_fields(t: toml::Table) -> (r: Vec<(String, RawField)>)
    ensures
        keys_distinct(r@),
        fields_view(r@) == leaves(table_contents(t)),
{
    let ghost contents = table_contents(t);
    let entries = table_entries(t);
    let ghost total = entries@;
    let mut out: Vec<(String, RawField)> = Vec::new();
    let mut rest = entries;
    while rest.len() > 0
        invariant
            keys_distinct(total),
            total.len() == contents.len(),
            forall|i: int|
                0 <= i < total.len() ==> (#[trigger] total[i]).0@ == contents[i].0 && kind_matches(
                    total[i].1,
                    contents[i].1,
                ),
            out@.len() + rest@.len() == total.len(),
            rest@ == total.skip(out@.len() as int),
            fields_view(out@) == leaves(contents).take(out@.len() as int),
        decreases rest@.len(),
    {
        let ghost k = out@.len() as int;
        let (key, kind) = rest.remove(0);
        assert(total[k] == (key, kind));
        let field = match kind {
            TomlKind::Text(s) => RawField::Text(s),
            _ => RawField::Other,
        };
        out.push((key, field));
        assert(rest@ =~= total.skip(out@.len() as int));
        assert(fields_view(out@) =~= leaves(contents).take(out@.len() as int));
    }
    assert(leaves(contents).take(out@.len() as int) =~= leaves(contents));
    assert forall|a: int, b: int| 0 <= a < b < out@.len() implies out@[a].0@ != out@[b].0@ by {
        assert(out@[a].0@ == fields_view(out@)[a].0);
        assert(out@[b].0@ == fields_view(out@)[b].0);
        assert(total[a].0@ != total[b].0@);
    }
    out
}

/// The document that a TOML table holds, in the table's order.
fn read_document(t: toml::Table) -> (r: Vec<(String, RawValue)>)
    ensures
        keys_distinct(r@),
        tables_distinct(r@),
        doc_view(r@) == normalized(table_contents(t)),
{
    let ghost contents = table_contents(t);
    let entries = table_entries(t);
    let ghost total = entries@;
    let mut out: Vec<(String, RawValue)> = Vec::new();
    let mut rest = entries;
    while rest.len() > 0
        invariant
            keys_distinct(total),
            total.len() == contents.len(),
            forall|i: int|
                0 <= i < total.len() ==> (#[trigger] total[i]).0@ == contents[i].0 && kind_matches(
                    total[i].1,
                    contents[i].1,
                ),
            out@.len() + rest@.len() == total.len(),
            rest@ == total.skip(out@.len() as int),
            doc_view(out@) == normalized(contents).take(out@.len() as int),
            tables_distinct(out@),
        decreases rest@.len(),
    {
        let ghost k = out@.len() as int;
        let (key, kind) = rest.remove(0);
        assert(total[k] == (key, kind));
        let raw = match kind {
            TomlKind::Text(s) => RawValue::Text(s),
            TomlKind::Table(inner) => RawValue::Table(read_fields(inner)),
            TomlKind::Other => RawValue::Other,
        };
        let ghost before = out@;
        out.push((key, raw));
        assert(rest@ =~= total.skip(out@.len() as int));
        assert(doc_view(out@) =~= normalized(contents).take(out@.len() as int));
        assert forall|i: int| 0 <= i < out@.len() implies match #[trigger] out@[i].1 {
            RawValue::Table(fields) => keys_distinct(fields@),
            _ => true,
        } by {
            if i < before.len() {
                assert(out@[i] == before[i]);
            }
        }
    }
    assert(normalized(contents).take(out@.len() as int) =~= normalized(contents));
    assert forall|a: int, b: int| 0 <= a < b < out@.len() implies out@[a].0@ != out@[b].0@ by {
        assert(out@[a].0@ == doc_view(out@)[a].0);
        assert(out@[b].0@ == doc_view(out@)[b].0);
        assert(total[a].0@ != total[b].0@);
    }
    out
}

proof fn lemma_category_of_leaves(xs: Seq<(Seq<char>, TomlView)>)
    ensures
        category_of(leaves(xs)) == category_of(xs),
        category_ok(leaves(xs)) == category_ok(xs),
    decreases xs.len(),
{
    if xs.len() > 0 {
        lemma_category_of_leaves(xs.drop_last());
        assert(leaves(xs).drop_last() =~= leaves(xs.drop_last()));
    }
    let ys = leaves(xs);
    assert(keys_unique(ys) == keys_unique(xs)) by {
        assert forall|i: int| 0 <= i < xs.len() implies ys[i].0 == xs[i].0 by {}
    }
    assert((forall|i: int| 0 <= i < ys.len() ==> field_ok(#[trigger] ys[i].0, ys[i].1)) == (forall|
        i: int,
    | 0 <= i < xs.len() ==> field_ok(#[trigger] xs[i].0, xs[i].1))) by {
        assert forall|i: int| 0 <= i < xs.len() implies field_ok(ys[i].0, ys[i].1) == field_ok(
            xs[i].0,
            xs[i].1,
        ) by {}
    }
}

/// A document reads the same whether or not the tables nested in its
/// category tables are counted as other values.
proof fn lemma_normalized_reads_the_same(doc: Seq<(Seq<char>, TomlView)>)
    ensures
        document_ok(normalized(doc)) == document_ok(doc),
        document_fold(normalized(doc)) == document_fold(doc),
        document_config(normalized(doc)) == document_config(doc),
    decreases doc.len(),
{
    let n = normalized(doc);
    if doc.len() > 0 {
        lemma_normalized_reads_the_same(doc.drop_last());
        assert(n.drop_last() =~= normalized(doc.drop_last()));
        assert(n.last() == (doc.last().0, top_value(doc.last().1)));
        let (d, s, cats) = document_fold(doc.drop_last());
        match doc.last().1 {
            TomlView::Table(xs) => {
                lemma_category_of_leaves(xs);
                assert(n.last().1 == TomlView::Table(leaves(xs)));
            },
            TomlView::Text(t) => {
                assert(n.last().1 == TomlView::Text(t));
            },
            TomlView::Other => {
                assert(n.last().1 == TomlView::Other);
            },
        }
        assert(document_fold(n) == document_fold(doc));
    }
    assert forall|i: int| 0 <= i < doc.len() implies top_ok(n[i].0, n[i].1) == top_ok(
        doc[i].0,
        doc[i].1,
    ) by {
        match doc[i].1 {
            TomlView::Table(xs) => {
                lemma_category_of_leaves(xs);
            },
            _ => {},
        }
    }
    assert(keys_unique(n) == keys_unique(doc)) by {
        assert forall|i: int| 0 <= i < doc.len() implies n[i].0 == doc[i].0 by {}
    }
    assert((forall|i: int| 0 <= i < n.len() ==> top_ok(#[trigger] n[i].0, n[i].1)) == (forall|
        i: int,
    | 0 <= i < doc.len() ==> top_ok(#[trigger] doc[i].0, doc[i].1)));
}

impl Config {
    /// Parses configuration text: a TOML table whose top-level `display` and
    /// `source` give the global modes and whose other keys are category
    /// tables. Text that is not TOML is malformed; otherwise the text's
    /// document is read as [`Config::from_document`] reads one.
    pub fn parse(text: &str) -> (r: Result<Config, ParseError>)
        ensures
            toml_document(text@) is None ==> r == Err::<Config, ParseError>(ParseError::Malformed),
            toml_document(text@) is Some ==> (r is Ok <==> document_ok(toml_document(text@)->0)),
            r is Ok ==> r->Ok_0@ == document_config(toml_document(text@)->0) && r->Ok_0.wf(),
    {
        let table = match parse_toml_table(text) {
            Ok(t) => t,
            Err(_) => {
                return Err(ParseError::Malformed);
            },
        };
        let doc = read_document(table);
        proof {
            lemma_normalized_reads_the_same(toml_document(text@)->0);
        }
        Config::from_document(&doc)
    }
}

} // verus!
