//! the parts of a parsed TOML document that aethel documents use: top-level
//! tables, their string and string-array fields, and everything else marked as
//! "other".

use vstd::prelude::*;

use crate::text::{owned, push_str, str_eq};

verus! {

/// one value inside a top-level table.
pub enum TomlField {
    /// a string value.
    Str(String),
    /// an array; each element is `Some` when it is a string.
    Array(Vec<Option<String>>),
    /// any other value (number, boolean, datetime, nested table).
    Other,
}

/// the abstract shape of a [`TomlField`].
pub enum FieldShape {
    Str(Seq<char>),
    Array(Seq<Option<Seq<char>>>),
    Other,
}

/// the view of one optional string.
pub open spec fn opt_str_view(o: Option<String>) -> Option<Seq<char>> {
    match o {
        Some(s) => Some(s@),
        None => None,
    }
}

impl View for TomlField {
    type V = FieldShape;

    open spec fn view(&self) -> FieldShape {
        match self {
            TomlField::Str(s) => FieldShape::Str(s@),
            TomlField::Array(a) => FieldShape::Array(a@.map_values(|o: Option<String>| opt_str_view(o))),
            TomlField::Other => FieldShape::Other,
        }
    }
}

/// one top-level value of a TOML document.
pub enum TomlItem {
    /// a table, as its `(key, value)` entries in key order.
    Table(Vec<(String, TomlField)>),
    /// any value that is not a table.
    Other,
}

/// the abstract shape of a [`TomlItem`].
pub enum ItemShape {
    Table(Seq<(Seq<char>, FieldShape)>),
    Other,
}

/// the view of a table's entries.
pub open spec fn fields_view(es: Seq<(String, TomlField)>) -> Seq<(Seq<char>, FieldShape)> {
    es.map_values(|e: (String, TomlField)| (e.0@, e.1@))
}

impl View for TomlItem {
    type V = ItemShape;

    open spec fn view(&self) -> ItemShape {
        match self {
            TomlItem::Table(es) => ItemShape::Table(fields_view(es@)),
            TomlItem::Other => ItemShape::Other,
        }
    }
}

/// a parsed TOML document: its top-level `(key, value)` entries in key order.
pub struct TomlDocument {
    pub entries: Vec<(String, TomlItem)>,
}

/// the view of a document's entries.
pub open spec fn items_view(es: Seq<(String, TomlItem)>) -> Seq<(Seq<char>, ItemShape)> {
    es.map_values(|e: (String, TomlItem)| (e.0@, e.1@))
}

impl View for TomlDocument {
    type V = Seq<(Seq<char>, ItemShape)>;

    open spec fn view(&self) -> Seq<(Seq<char>, ItemShape)> {
        items_view(self.entries@)
    }
}

/// what the `toml` crate makes of `raw`: the document's entries, or the
/// rendered parse error.
pub uninterp spec fn toml_parse(raw: Seq<char>) -> Result<Seq<(Seq<char>, ItemShape)>, Seq<char>>;

/// the view of a parse outcome.
pub open spec fn parse_result_view(r: Result<TomlDocument, String>) -> Result<Seq<(Seq<char>, ItemShape)>, Seq<char>> {
    match r {
        Ok(d) => Ok(d@),
        Err(e) => Err(e@),
    }
}

/// no key occurs twice among `es`.
pub open spec fn keys_distinct<V>(es: Seq<(Seq<char>, V)>) -> bool {
    forall|i: int, j: int| 0 <= i < j < es.len() ==> es[i].0 != es[j].0
}

/// every table of the document has distinct keys, and so has the document.
pub open spec fn document_keys_distinct(es: Seq<(Seq<char>, ItemShape)>) -> bool {
    &&& keys_distinct(es)
    &&& forall|i: int|
        0 <= i < es.len() ==> match #[trigger] es[i].1 {
            ItemShape::Table(t) => keys_distinct(t),
            ItemShape::Other => true,
        }
}

/// `toml::Table::from_str`: parses `raw` as a TOML document (a `BTreeMap`
/// of keys to values, so keys are distinct and come in key order) and keeps
/// the shape described by [`TomlItem`] and [`TomlField`]; on failure, the
/// error's `Display` text. Keys, strings and the table/array/string
/// distinction are moved over as they are; no further claim is made about the
/// parser, whose result is named by `toml_parse`.
#[verifier::external_body]
pub(crate) fn parse_toml(raw: &str) -> (r: Result<TomlDocument, String>)
    ensures
        toml_parse(raw@) == parse_result_view(r),
        r is Ok ==> document_keys_distinct(r->Ok_0@),
{
    match raw.parse::<toml::Table>() {
        Ok(t) => Ok(TomlDocument { entries: t.into_iter().map(|(k, v)| (k, match v {
            toml::Value::Table(s) => TomlItem::Table(s.into_iter().map(|(k2, v2)| (k2, match v2 {
                toml::Value::String(x) => TomlField::Str(x),
                toml::Value::Array(a) => TomlField::Array(a.into_iter().map(|e| match e {
                    toml::Value::String(x) => Some(x), _ => None }).collect()),
                _ => TomlField::Other })).collect()),
            _ => TomlItem::Other })).collect() }),
        Err(e) => Err(e.to_string()),
    }
}

// ─── lookups ─────────────────────────────────────────────────────────────────

/// the value of the first entry with key `k`.
pub open spec fn lookup<V>(es: Seq<(Seq<char>, V)>, k: Seq<char>) -> Option<V>
    decreases es.len(),
{
    if es.len() == 0 {
        None
    } else if es[0].0 == k {
        Some(es[0].1)
    } else {
        lookup(es.drop_first(), k)
    }
}

proof fn lemma_lookup_skip<V>(es: Seq<(Seq<char>, V)>, k: Seq<char>, i: int)
    requires
        0 <= i < es.len(),
        es[i].0 != k,
    ensures
        lookup(es.skip(i), k) == lookup(es.skip(i + 1), k),
{
    assert(es.skip(i).drop_first() =~= es.skip(i + 1));
}

/// finds the field stored under `key` in a table.
pub fn find_field<'a>(entries: &'a Vec<(String, TomlField)>, key: &str) -> (r: Option<&'a TomlField>)
    ensures
        match r {
            Some(f) => lookup(fields_view(entries@), key@) == Some(f@),
            None => lookup(fields_view(entries@), key@) is None,
        },
{
    let ghost es = fields_view(entries@);
    let mut i: usize = 0;
    proof {
        assert(es.skip(0) =~= es);
    }
    while i < entries.len()
        invariant
            i <= entries@.len(),
            es == fields_view(entries@),
            lookup(es, key@) == lookup(es.skip(i as int), key@),
        decreases entries@.len() - i,
    {
        if str_eq(entries[i].0.as_str(), key) {
            proof {
                assert(es.skip(i as int)[0] == es[i as int]);
            }
            return Some(&entries[i].1);
        }
        proof {
            lemma_lookup_skip(es, key@, i as int);
        }
        i = i + 1;
    }
    None
}

/// finds the top-level value stored under `key`.
pub fn find_item<'a>(doc: &'a TomlDocument, key: &str) -> (r: Option<&'a TomlItem>)
    ensures
        match r {
            Some(f) => lookup(doc@, key@) == Some(f@),
            None => lookup(doc@, key@) is None,
        },
{
    let ghost es = doc@;
    let mut i: usize = 0;
    proof {
        assert(es.skip(0) =~= es);
    }
    while i < doc.entries.len()
        invariant
            i <= doc.entries@.len(),
            es == doc@,
            lookup(es, key@) == lookup(es.skip(i as int), key@),
        decreases doc.entries@.len() - i,
    {
        if str_eq(doc.entries[i].0.as_str(), key) {
            proof {
                assert(es.skip(i as int)[0] == es[i as int]);
            }
            return Some(&doc.entries[i].1);
        }
        proof {
            lemma_lookup_skip(es, key@, i as int);
        }
        i = i + 1;
    }
    None
}

/// a changed value under a key keeps every other key's lookup.
pub proof fn lemma_lookup_update<V>(es: Seq<(Seq<char>, V)>, i: int, v: V, k: Seq<char>)
    requires
        0 <= i < es.len(),
        forall|j: int| 0 <= j < i ==> es[j].0 != es[i].0,
    ensures
        lookup(es.update(i, (es[i].0, v)), k) == if k == es[i].0 {
            Some(v)
        } else {
            lookup(es, k)
        },
    decreases es.len(),
{
    let u = es.update(i, (es[i].0, v));
    if i > 0 {
        assert(u.drop_first() =~= es.drop_first().update(i - 1, (es[i].0, v)));
        assert(u[0] == es[0]);
        lemma_lookup_update(es.drop_first(), i - 1, v, k);
    } else {
        assert(u.drop_first() =~= es.drop_first());
    }
}

/// lookups after appending an entry.
pub proof fn lemma_lookup_push<V>(es: Seq<(Seq<char>, V)>, e: (Seq<char>, V), k: Seq<char>)
    ensures
        lookup(es.push(e), k) == match lookup(es, k) {
            Some(v) => Some(v),
            None => if k == e.0 {
                Some(e.1)
            } else {
                None
            },
        },
    decreases es.len(),
{
    if es.len() > 0 {
        assert(es.push(e).drop_first() =~= es.drop_first().push(e));
        assert(es.push(e)[0] == es[0]);
        lemma_lookup_push(es.drop_first(), e, k);
    } else {
        assert(es.push(e).drop_first() =~= Seq::<(Seq<char>, V)>::empty());
        assert(es.push(e)[0] == e);
        assert(lookup(Seq::<(Seq<char>, V)>::empty(), k) is None);
        assert(lookup(es, k) is None);
    }
}

/// a lookup that finds nothing means no entry carries the key.
pub proof fn lemma_lookup_none<V>(es: Seq<(Seq<char>, V)>, k: Seq<char>)
    ensures
        lookup(es, k) is None <==> forall|j: int| 0 <= j < es.len() ==> es[j].0 != k,
    decreases es.len(),
{
    if es.len() > 0 {
        lemma_lookup_none(es.drop_first(), k);
        if lookup(es, k) is None {
            assert forall|j: int| 0 <= j < es.len() implies es[j].0 != k by {
                if j > 0 {
                    assert(es[j] == es.drop_first()[j - 1]);
                }
            }
        }
        if forall|j: int| 0 <= j < es.len() ==> es[j].0 != k {
            assert forall|j: int| 0 <= j < es.drop_first().len() implies es.drop_first()[j].0 != k by {
                assert(es.drop_first()[j] == es[j + 1]);
            }
        }
    }
}

// ─── typed field extraction ──────────────────────────────────────────────────

/// the message for a required key that is absent.
pub open spec fn missing_field_message(key: Seq<char>) -> Seq<char> {
    "missing field `"@ + key + "`"@
}

/// the message for a key whose value has the wrong type.
pub open spec fn invalid_type_message(key: Seq<char>) -> Seq<char> {
    "invalid type for field `"@ + key + "`"@
}

/// a required string field of a table.
pub open spec fn required_string(t: Seq<(Seq<char>, FieldShape)>, key: Seq<char>) -> Result<Seq<char>, Seq<char>> {
    match lookup(t, key) {
        Some(FieldShape::Str(s)) => Ok(s),
        None => Err(missing_field_message(key)),
        Some(_) => Err(invalid_type_message(key)),
    }
}

/// an optional string field of a table.
pub open spec fn optional_string(t: Seq<(Seq<char>, FieldShape)>, key: Seq<char>) -> Result<Option<Seq<char>>, Seq<char>> {
    match lookup(t, key) {
        Some(FieldShape::Str(s)) => Ok(Some(s)),
        None => Ok(None),
        Some(_) => Err(invalid_type_message(key)),
    }
}

/// all elements of an array are strings.
pub open spec fn all_strings(a: Seq<Option<Seq<char>>>) -> bool {
    forall|i: int| 0 <= i < a.len() ==> a[i] is Some
}

/// the strings of an array, where every element is one.
pub open spec fn unwrap_strings(a: Seq<Option<Seq<char>>>) -> Seq<Seq<char>> {
    a.map_values(|o: Option<Seq<char>>| o->0)
}

/// an optional string-list field of a table.
pub open spec fn optional_string_list(t: Seq<(Seq<char>, FieldShape)>, key: Seq<char>) -> Result<Option<Seq<Seq<char>>>, Seq<char>> {
    match lookup(t, key) {
        None => Ok(None),
        Some(FieldShape::Array(a)) => if all_strings(a) {
            Ok(Some(unwrap_strings(a)))
        } else {
            Err(invalid_type_message(key))
        },
        Some(_) => Err(invalid_type_message(key)),
    }
}

/// the view of an optional string list.
pub open spec fn opt_list_view(o: Option<Vec<String>>) -> Option<Seq<Seq<char>>> {
    match o {
        Some(v) => Some(v@.map_values(|s: String| s@)),
        None => None,
    }
}

/// the message for a required key that is absent.
pub fn missing_field(key: &str) -> (r: String)
    ensures
        r@ == missing_field_message(key@),
{
    let mut m = owned("missing field `");
    push_str(&mut m, key);
    push_str(&mut m, "`");
    m
}

/// the message for a key whose value has the wrong type.
pub fn invalid_type(key: &str) -> (r: String)
    ensures
        r@ == invalid_type_message(key@),
{
    let mut m = owned("invalid type for field `");
    push_str(&mut m, key);
    push_str(&mut m, "`");
    m
}

/// reads a required string field.
pub fn get_required_string(t: &Vec<(String, TomlField)>, key: &str) -> (r: Result<String, String>)
    ensures
        match (r, required_string(fields_view(t@), key@)) {
            (Ok(a), Ok(b)) => a@ == b,
            (Err(a), Err(b)) => a@ == b,
            _ => false,
        },
{
    match find_field(t, key) {
        Some(TomlField::Str(s)) => Ok(s.clone()),
        None => Err(missing_field(key)),
        Some(_) => Err(invalid_type(key)),
    }
}

/// reads an optional string field.
pub fn get_optional_string(t: &Vec<(String, TomlField)>, key: &str) -> (r: Result<Option<String>, String>)
    ensures
        match (r, optional_string(fields_view(t@), key@)) {
            (Ok(a), Ok(b)) => opt_str_view(a) == b,
            (Err(a), Err(b)) => a@ == b,
            _ => false,
        },
{
    match find_field(t, key) {
        Some(TomlField::Str(s)) => Ok(Some(s.clone())),
        None => Ok(None),
        Some(_) => Err(invalid_type(key)),
    }
}

/// reads an optional string-list field.
pub fn get_optional_string_list(t: &Vec<(String, TomlField)>, key: &str) -> (r: Result<Option<Vec<String>>, String>)
    ensures
        match (r, optional_string_list(fields_view(t@), key@)) {
            (Ok(a), Ok(b)) => opt_list_view(a) == b,
            (Err(a), Err(b)) => a@ == b,
            _ => false,
        },
{
    match find_field(t, key) {
        None => Ok(None),
        Some(TomlField::Array(a)) => {
            let ghost av = a@.map_values(|o: Option<String>| opt_str_view(o));
            let mut out: Vec<String> = Vec::new();
            let mut i: usize = 0;
            while i < a.len()
                invariant
                    i <= a@.len(),
                    av == a@.map_values(|o: Option<String>| opt_str_view(o)),
                    lookup(fields_view(t@), key@) == Some(FieldShape::Array(av)),
                    forall|j: int| 0 <= j < i ==> av[j] is Some,
                    out@.len() == i,
                    out@.map_values(|s: String| s@) == unwrap_strings(av.take(i as int)),
                decreases a@.len() - i,
            {
                match &a[i] {
                    Some(s) => {
                        let ghost prev = out@;
                        out.push(s.clone());
                        proof {
                            assert(av[i as int] == Some(s@));
                            assert forall|j: int| 0 <= j < i implies #[trigger] out@[j]@ == av[j]->0 by {
                                assert(prev.map_values(|s: String| s@)[j] == unwrap_strings(av.take(i as int))[j]);
                                assert(prev[j] == out@[j]);
                            }
                            assert(out@.map_values(|s: String| s@) =~= unwrap_strings(
                                av.take(i as int + 1),
                            ));
                        }
                    },
                    None => {
                        proof {
                            assert(av[i as int] is None);
                        }
                        return Err(invalid_type(key));
                    },
                }
                i = i + 1;
            }
            proof {
                assert(av.take(a@.len() as int) =~= av);
            }
            Ok(Some(out))
        },
        Some(_) => Err(invalid_type(key)),
    }
}

} // verus!
