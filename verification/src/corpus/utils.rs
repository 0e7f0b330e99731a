//! loader utilities: document parsing, source hashing and source id assignment.

use vstd::prelude::*;

use crate::corpus::error::{CorpusLoaderError, LoadErrorModel};
use crate::corpus::types::{
    Document, DocumentMetadata, DocumentModel, Field, FieldModel, MetadataModel, Section,
    SectionModel,
};
use crate::corpus::{
    copy_provenance, documents_view, pooled_view, provenance_view, pools_view, PoolModel, PooledModel, PooledValue,
    ProvenanceModel, ValuePool, ValueProvenance,
};
use crate::text::{digit_char, hex_char, hex_lower, 
    compare_text, decimal, decimal_string, lemma_text_lt_irreflexive, lemma_text_lt_total,
    lemma_text_lt_transitive, owned, push_char, push_str, str_eq, text_lt, TextOrder,
};
use crate::toml_model::{
    fields_view, opt_str_view, find_item, get_optional_string, get_required_string, lookup,
    lemma_lookup_push, lemma_lookup_update, optional_string, parse_toml, required_string,
    FieldShape, ItemShape, TomlField, TomlItem, toml_parse,
};

pub use crate::hashing::hash_source_content;
pub use crate::text::canonicalize_raw;

verus! {

#[derive(Debug, Clone, Copy, PartialEq, Eq, Structural)]
/// configurable load behaviour applied during corpus assembly.
pub struct CorpusLoaderOptions {
    /// when `false`, duplicate `header.title` values across source files are rejected.
    pub identical_title_allowed: bool,
    /// When `true`, sources whose `[header].target` does not match are skipped instead
    /// of returning [`CorpusLoaderError::TargetMismatch`].
    pub skip_source_with_target_mismatch: bool,
}

impl Default for CorpusLoaderOptions {
    fn default() -> (r: Self)
        ensures
            r.identical_title_allowed,
            !r.skip_source_with_target_mismatch,
    {
        Self { identical_title_allowed: true, skip_source_with_target_mismatch: false }
    }
}

/// optional validation hook applied to each document before it enters the corpus.
pub trait LoadValidator {
    /// validates one parsed document; return `Err` to reject it.
    fn validate(&self, document: &Document) -> Result<(), CorpusLoaderError>;
}

impl LoadValidator for Box<dyn LoadValidator> {
    fn validate(&self, document: &Document) -> Result<(), CorpusLoaderError> {
        (**self).validate(document)
    }
}

// ─── document parsing ────────────────────────────────────────────────────────

/// the metadata of a `[header]` table, or the message of its first bad field
/// (checked in the order title, target, desc, author, version, schema).
pub open spec fn spec_metadata(h: Seq<(Seq<char>, FieldShape)>) -> Result<MetadataModel, Seq<char>> {
    match required_string(h, "title"@) {
        Err(m) => Err(m),
        Ok(title) => match required_string(h, "target"@) {
            Err(m) => Err(m),
            Ok(target) => match optional_string(h, "desc"@) {
                Err(m) => Err(m),
                Ok(desc) => match optional_string(h, "author"@) {
                    Err(m) => Err(m),
                    Ok(author) => match optional_string(h, "version"@) {
                        Err(m) => Err(m),
                        Ok(version) => match optional_string(h, "schema"@) {
                            Err(m) => Err(m),
                            Ok(schema) => Ok(
                                MetadataModel { title, target, desc, author, version, schema },
                            ),
                        },
                    },
                },
            },
        },
    }
}

/// the string elements of an array, in order.
pub open spec fn array_strings(a: Seq<Option<Seq<char>>>) -> Seq<Seq<char>>
    decreases a.len(),
{
    if a.len() == 0 {
        Seq::<Seq<char>>::empty()
    } else {
        let p = array_strings(a.drop_last());
        match a.last() {
            Some(s) => p.push(s),
            None => p,
        }
    }
}

/// the fields of a section table: its array-valued entries, in order.
pub open spec fn table_fields(t: Seq<(Seq<char>, FieldShape)>) -> Seq<FieldModel>
    decreases t.len(),
{
    if t.len() == 0 {
        Seq::<FieldModel>::empty()
    } else {
        let p = table_fields(t.drop_last());
        match t.last().1 {
            FieldShape::Array(a) => p.push(FieldModel { title: t.last().0, values: array_strings(a) }),
            _ => p,
        }
    }
}

/// the message for a top-level entry that is not a table.
pub open spec fn section_error_message(name: Seq<char>, title: Seq<char>) -> Seq<char> {
    "'"@ + name + "': section '"@ + title + "' must be a TOML table"@
}

/// the message for a document without a `[header]` table.
pub open spec fn missing_header_message(name: Seq<char>) -> Seq<char> {
    "'"@ + name + "' is missing a [header] table"@
}

/// the message for a `header` entry that is not a table.
pub open spec fn header_type_message() -> Seq<char> {
    "invalid type: expected a table for `header`"@
}

/// the sections of a document: every top-level entry but `header`, each of
/// which must be a table; the first entry that is not gives the error.
pub open spec fn document_sections(name: Seq<char>, es: Seq<(Seq<char>, ItemShape)>) -> Result<Seq<SectionModel>, LoadErrorModel>
    decreases es.len(),
{
    if es.len() == 0 {
        Ok(Seq::<SectionModel>::empty())
    } else {
        match document_sections(name, es.drop_last()) {
            Err(e) => Err(e),
            Ok(p) => {
                let k = es.last().0;
                if k == "header"@ {
                    Ok(p)
                } else {
                    match es.last().1 {
                        ItemShape::Table(t) => Ok(p.push(SectionModel { title: k, fields: table_fields(t) })),
                        ItemShape::Other => Err(LoadErrorModel::InvalidInput(section_error_message(name, k))),
                    }
                }
            },
        }
    }
}

/// the metadata and sections of the source `raw` named `name`, or the error
/// the loader reports for it.
pub open spec fn spec_parse_document(name: Seq<char>, raw: Seq<char>) -> Result<(MetadataModel, Seq<SectionModel>), LoadErrorModel> {
    match toml_parse(raw) {
        Err(m) => Err(LoadErrorModel::Parse { path: Some(name), source: m }),
        Ok(es) => match lookup(es, "header"@) {
            None => Err(LoadErrorModel::InvalidInput(missing_header_message(name))),
            Some(ItemShape::Other) => Err(LoadErrorModel::Parse { path: Some(name), source: header_type_message() }),
            Some(ItemShape::Table(h)) => match spec_metadata(h) {
                Err(m) => Err(LoadErrorModel::Parse { path: Some(name), source: m }),
                Ok(meta) => match document_sections(name, es) {
                    Err(e) => Err(e),
                    Ok(s) => Ok((meta, s)),
                },
            },
        },
    }
}

/// the view of a parse outcome.
pub open spec fn parsed_view(r: Result<(DocumentMetadata, Vec<Section>), CorpusLoaderError>) -> Result<(MetadataModel, Seq<SectionModel>), LoadErrorModel> {
    match r {
        Ok((m, s)) => Ok((m@, s@.map_values(|x: Section| x@))),
        Err(e) => Err(e@),
    }
}

fn parse_metadata(h: &Vec<(String, TomlField)>) -> (r: Result<DocumentMetadata, String>)
    ensures
        match (r, spec_metadata(fields_view(h@))) {
            (Ok(a), Ok(b)) => a@ == b,
            (Err(a), Err(b)) => a@ == b,
            _ => false,
        },
{
    let title = get_required_string(h, "title")?;
    let target = get_required_string(h, "target")?;
    let desc = get_optional_string(h, "desc")?;
    let author = get_optional_string(h, "author")?;
    let version = get_optional_string(h, "version")?;
    let schema = get_optional_string(h, "schema")?;
    Ok(DocumentMetadata { title, target, desc, author, version, schema })
}

/// the strings of an array, in order.
fn collect_strings(a: &Vec<Option<String>>) -> (r: Vec<String>)
    ensures
        r@.map_values(|s: String| s@) == array_strings(
            a@.map_values(|o: Option<String>| opt_str_view(o)),
        ),
{
    let ghost av = a@.map_values(|o: Option<String>| opt_str_view(o));
    let mut out: Vec<String> = Vec::new();
    let mut i: usize = 0;
    while i < a.len()
        invariant
            i <= a@.len(),
            av == a@.map_values(|o: Option<String>| opt_str_view(o)),
            out@.map_values(|s: String| s@) == array_strings(av.take(i as int)),
        decreases a@.len() - i,
    {
        let ghost prev = out@;
        proof {
            assert(av.take(i as int + 1).drop_last() =~= av.take(i as int));
        }
        match &a[i] {
            Some(s) => {
                out.push(s.clone());
                proof {
                    assert(out@.map_values(|s: String| s@) =~= prev.map_values(|s: String| s@).push(s@));
                }
            },
            None => {},
        }
        i = i + 1;
    }
    proof {
        assert(av.take(a@.len() as int) =~= av);
    }
    out
}

/// parses one TOML table into a [`Section`].
fn parse_section(title: &str, table: &Vec<(String, TomlField)>) -> (r: Section)
    ensures
        r@ == (SectionModel { title: title@, fields: table_fields(fields_view(table@)) }),
{
    let ghost tv = fields_view(table@);
    let mut fields: Vec<Field> = Vec::new();
    let mut i: usize = 0;
    while i < table.len()
        invariant
            i <= table@.len(),
            tv == fields_view(table@),
            fields@.map_values(|f: Field| f@) == table_fields(tv.take(i as int)),
        decreases table@.len() - i,
    {
        let ghost prev = fields@;
        proof {
            assert(tv.take(i as int + 1).drop_last() =~= tv.take(i as int));
            assert(tv.take(i as int + 1).last() == tv[i as int]);
            assert(tv[i as int] == (table@[i as int].0@, table@[i as int].1@));
        }
        match &table[i].1 {
            TomlField::Array(a) => {
                let values = collect_strings(a);
                let f = Field { title: table[i].0.clone(), values };
                fields.push(f);
                proof {
                    assert(fields@.map_values(|f: Field| f@) =~= prev.map_values(|f: Field| f@).push(
                        fields@.last()@,
                    ));
                }
            },
            _ => {},
        }
        i = i + 1;
    }
    proof {
        assert(tv.take(table@.len() as int) =~= tv);
    }
    Section { title: owned(title), fields }
}

fn missing_header(name: &str) -> (r: String)
    ensures
        r@ == missing_header_message(name@),
{
    let mut m = owned("'");
    push_str(&mut m, name);
    push_str(&mut m, "' is missing a [header] table");
    m
}

fn section_error(name: &str, title: &str) -> (r: String)
    ensures
        r@ == section_error_message(name@, title@),
{
    let mut m = owned("'");
    push_str(&mut m, name);
    push_str(&mut m, "': section '");
    push_str(&mut m, title);
    push_str(&mut m, "' must be a TOML table");
    m
}

/// parses raw TOML into `(DocumentMetadata, Vec<Section>)` without target validation.
pub fn parse_document(name: &str, raw: &str) -> (r: Result<(DocumentMetadata, Vec<Section>), CorpusLoaderError>)
    ensures
        parsed_view(r) == spec_parse_document(name@, raw@),
{
    let doc = match parse_toml(raw) {
        Ok(d) => d,
        Err(m) => {
            return Err(CorpusLoaderError::parse_for_path(name, m));
        },
    };
    let header = match find_item(&doc, "header") {
        None => {
            return Err(CorpusLoaderError::InvalidInput(missing_header(name)));
        },
        Some(TomlItem::Other) => {
            return Err(CorpusLoaderError::parse_for_path(name, owned("invalid type: expected a table for `header`")));
        },
        Some(TomlItem::Table(h)) => h,
    };
    let metadata = match parse_metadata(header) {
        Ok(m) => m,
        Err(m) => {
            return Err(CorpusLoaderError::parse_for_path(name, m));
        },
    };
    let ghost es = doc@;
    let mut sections: Vec<Section> = Vec::new();
    let mut i: usize = 0;
    proof {
        assert(spec_parse_document(name@, raw@) == match document_sections(name@, es) {
            Err(e) => Err(e),
            Ok(s) => Ok((metadata@, s)),
        });
        assert(es.take(0) =~= Seq::<(Seq<char>, ItemShape)>::empty());
        assert(sections@.map_values(|s: Section| s@) =~= Seq::<SectionModel>::empty());
    }
    while i < doc.entries.len()
        invariant
            i <= doc.entries@.len(),
            es == doc@,
            spec_parse_document(name@, raw@) == match document_sections(name@, es) {
                Err(e) => Err(e),
                Ok(s) => Ok((metadata@, s)),
            },
            document_sections(name@, es.take(i as int)) == Ok::<Seq<SectionModel>, LoadErrorModel>(
                sections@.map_values(|s: Section| s@),
            ),
        decreases doc.entries@.len() - i,
    {
        let ghost prev = sections@;
        proof {
            assert(es.take(i as int + 1).drop_last() =~= es.take(i as int));
            assert(es.take(i as int + 1).last() == es[i as int]);
            assert(es[i as int] == (doc.entries@[i as int].0@, doc.entries@[i as int].1@));
        }
        let key = doc.entries[i].0.as_str();
        if !str_eq(key, "header") {
            match &doc.entries[i].1 {
                TomlItem::Table(t) => {
                    sections.push(parse_section(key, t));
                    proof {
                        assert(sections@.map_values(|s: Section| s@) =~= prev.map_values(
                            |s: Section| s@,
                        ).push(sections@.last()@));
                    }
                },
                TomlItem::Other => {
                    proof {
                        assert(document_sections(name@, es.take(i as int + 1)) == Err::<Seq<SectionModel>, LoadErrorModel>(
                            LoadErrorModel::InvalidInput(section_error_message(name@, key@))));
                        assert(es.take(doc.entries@.len() as int) =~= es);
                        lemma_sections_error_sticks(name@, es, i as int + 1);
                    }
                    return Err(CorpusLoaderError::InvalidInput(section_error(name, key)));
                },
            }
        }
        i = i + 1;
    }
    proof {
        assert(es.take(doc.entries@.len() as int) =~= es);
    }
    Ok((metadata, sections))
}

/// once a prefix of the entries fails, every longer prefix fails the same way.
proof fn lemma_sections_error_sticks(name: Seq<char>, es: Seq<(Seq<char>, ItemShape)>, n: int)
    requires
        0 <= n <= es.len(),
        document_sections(name, es.take(n)) is Err,
    ensures
        document_sections(name, es) == document_sections(name, es.take(n)),
    decreases es.len() - n,
{
    if n < es.len() {
        assert(es.take(n + 1).drop_last() =~= es.take(n));
        lemma_sections_error_sticks(name, es, n + 1);
    } else {
        assert(es.take(n) =~= es);
    }
}

// ─── source ids ──────────────────────────────────────────────────────────────

/// the counters as `(base, count)` pairs.
pub open spec fn counts_view(seen: Seq<(String, usize)>) -> Seq<(Seq<char>, usize)> {
    seen.map_values(|e: (String, usize)| (e.0@, e.1))
}

/// how many ids have been made from `base` so far.
pub open spec fn seen_count(seen: Seq<(String, usize)>, base: Seq<char>) -> nat {
    match lookup(counts_view(seen), base) {
        Some(c) => c as nat,
        None => 0,
    }
}

/// the id for the `count`-th source with hash `base`: the hash itself for the
/// first, then the hash, `:` and the count.
pub open spec fn unique_source_id(base: Seq<char>, count: nat) -> Seq<char> {
    if count == 1 {
        base
    } else {
        base.push(':') + decimal(count)
    }
}

/// creates a unique source id from a base hash within one corpus build.
pub fn make_unique_source_id(base_hash: &str, seen: &mut Vec<(String, usize)>) -> (r: String)
    requires
        seen_count(old(seen)@, base_hash@) < usize::MAX,
    ensures
        forall|b: Seq<char>|
            #[trigger] seen_count(final(seen)@, b) == seen_count(old(seen)@, b) + if b
                == base_hash@ {
                1nat
            } else {
                0nat
            },
        r@ == unique_source_id(base_hash@, seen_count(final(seen)@, base_hash@)),
{
    let ghost es = counts_view(seen@);
    let mut i: usize = 0;
    let mut found: Option<usize> = None;
    proof {
        assert(es.skip(0) =~= es);
    }
    while i < seen.len()
        invariant_except_break
            i <= seen@.len(),
            es == counts_view(seen@),
            forall|j: int| 0 <= j < i ==> es[j].0 != base_hash@,
            found is None,
        invariant
            es == counts_view(seen@),
        ensures
            match found {
                Some(k) => k < seen@.len() && es[k as int].0 == base_hash@ && forall|j: int|
                    0 <= j < k ==> es[j].0 != base_hash@,
                None => forall|j: int| 0 <= j < seen@.len() ==> es[j].0 != base_hash@,
            },
        decreases seen@.len() - i,
    {
        if str_eq(seen[i].0.as_str(), base_hash) {
            found = Some(i);
            break;
        }
        i = i + 1;
    }
    let count: usize;
    match found {
        Some(k) => {
            proof {
                lemma_lookup_first(es, base_hash@, k as int);
            }
            count = seen[k].1 + 1;
            let key = seen[k].0.clone();
            seen.set(k, (key, count));
            proof {
                assert(counts_view(seen@) =~= es.update(k as int, (es[k as int].0, count)));
                assert forall|b: Seq<char>|
                    #[trigger] seen_count(seen@, b) == seen_count(old(seen)@, b) + if b
                        == base_hash@ {
                        1nat
                    } else {
                        0nat
                    } by {
                    lemma_lookup_update(es, k as int, count, b);
                }
            }
        },
        None => {
            proof {
                crate::toml_model::lemma_lookup_none(es, base_hash@);
            }
            count = 1;
            seen.push((owned(base_hash), 1));
            proof {
                assert(counts_view(seen@) =~= es.push((base_hash@, 1usize)));
                assert forall|b: Seq<char>|
                    #[trigger] seen_count(seen@, b) == seen_count(old(seen)@, b) + if b
                        == base_hash@ {
                        1nat
                    } else {
                        0nat
                    } by {
                    lemma_lookup_push(es, (base_hash@, 1usize), b);
                }
            }
        },
    }
    if count == 1 {
        owned(base_hash)
    } else {
        let mut id = owned(base_hash);
        push_char(&mut id, ':');
        let digits = decimal_string(count);
        push_str(&mut id, digits.as_str());
        id
    }
}

/// the first entry carrying a key is what a lookup finds.
proof fn lemma_lookup_first<V>(es: Seq<(Seq<char>, V)>, k: Seq<char>, i: int)
    requires
        0 <= i < es.len(),
        es[i].0 == k,
        forall|j: int| 0 <= j < i ==> es[j].0 != k,
    ensures
        lookup(es, k) == Some(es[i].1),
    decreases i,
{
    if i > 0 {
        assert forall|j: int| 0 <= j < i - 1 implies es.drop_first()[j].0 != k by {
            assert(es.drop_first()[j] == es[j + 1]);
        }
        lemma_lookup_first(es.drop_first(), k, i - 1);
    }
}

} // verus!

verus! {

// ─── value pools ─────────────────────────────────────────────────────────────

/// the provenance record of a value found in `document`, section `s`, field `f`.
pub open spec fn provenance_of(d: DocumentModel, s: Seq<char>, f: Seq<char>) -> ProvenanceModel {
    ProvenanceModel { source_id: d.source_id, document_title: d.metadata.title, section: s, field: f }
}

/// one occurrence: a value and where it was found.
pub type Occurrence = (Seq<char>, ProvenanceModel);

/// the occurrences of the values `vs`, all found at `p`.
pub open spec fn occ_values(vs: Seq<Seq<char>>, p: ProvenanceModel) -> Seq<Occurrence> {
    vs.map_values(|v: Seq<char>| (v, p))
}

/// the occurrences in the fields titled `f`, in order.
pub open spec fn occ_fields(fs: Seq<FieldModel>, f: Seq<char>, p: ProvenanceModel) -> Seq<Occurrence>
    decreases fs.len(),
{
    if fs.len() == 0 {
        Seq::<Occurrence>::empty()
    } else {
        occ_fields(fs.drop_last(), f, p) + if fs.last().title == f {
            occ_values(fs.last().values, p)
        } else {
            Seq::<Occurrence>::empty()
        }
    }
}

/// the occurrences in the sections titled `s`, fields titled `f`, of document `d`.
pub open spec fn occ_sections(ss: Seq<SectionModel>, s: Seq<char>, f: Seq<char>, d: DocumentModel) -> Seq<Occurrence>
    decreases ss.len(),
{
    if ss.len() == 0 {
        Seq::<Occurrence>::empty()
    } else {
        occ_sections(ss.drop_last(), s, f, d) + if ss.last().title == s {
            occ_fields(ss.last().fields, f, provenance_of(d, s, f))
        } else {
            Seq::<Occurrence>::empty()
        }
    }
}

/// every occurrence of a value under section `s`, field `f`, across documents in order.
pub open spec fn occ_documents(ds: Seq<DocumentModel>, s: Seq<char>, f: Seq<char>) -> Seq<Occurrence>
    decreases ds.len(),
{
    if ds.len() == 0 {
        Seq::<Occurrence>::empty()
    } else {
        occ_documents(ds.drop_last(), s, f) + occ_sections(ds.last().sections, s, f, ds.last())
    }
}

/// no value occurs twice among the pooled values.
pub open spec fn distinct_values(g: Seq<PooledModel>) -> bool {
    forall|i: int, j: int| 0 <= i < j < g.len() ==> g[i].value != g[j].value
}

/// adds one occurrence: its provenance joins the pooled value with the same
/// string, or a new pooled value is appended.
pub open spec fn add_occurrence(g: Seq<PooledModel>, o: Occurrence) -> Seq<PooledModel> {
    if exists|i: int| 0 <= i < g.len() && g[i].value == o.0 {
        let i = choose|i: int| 0 <= i < g.len() && g[i].value == o.0;
        g.update(i, PooledModel { value: g[i].value, provenance: g[i].provenance.push(o.1) })
    } else {
        g.push(PooledModel { value: o.0, provenance: seq![o.1] })
    }
}

/// the pooled values after adding the occurrences in order.
pub open spec fn grouped_into(g: Seq<PooledModel>, occ: Seq<Occurrence>) -> Seq<PooledModel>
    decreases occ.len(),
{
    if occ.len() == 0 {
        g
    } else {
        add_occurrence(grouped_into(g, occ.drop_last()), occ.last())
    }
}

/// the pooled values of the occurrences: distinct values in first-seen order,
/// each with the provenance of every occurrence, in order.
pub open spec fn grouped(occ: Seq<Occurrence>) -> Seq<PooledModel> {
    grouped_into(Seq::<PooledModel>::empty(), occ)
}

proof fn lemma_grouped_concat(g: Seq<PooledModel>, a: Seq<Occurrence>, b: Seq<Occurrence>)
    ensures
        grouped_into(g, a + b) == grouped_into(grouped_into(g, a), b),
    decreases b.len(),
{
    if b.len() == 0 {
        assert(a + b =~= a);
    } else {
        assert((a + b).drop_last() =~= a + b.drop_last());
        assert((a + b).last() == b.last());
        lemma_grouped_concat(g, a, b.drop_last());
    }
}

proof fn lemma_add_occurrence_distinct(g: Seq<PooledModel>, o: Occurrence)
    requires
        distinct_values(g),
    ensures
        distinct_values(add_occurrence(g, o)),
{
}

/// the titles of a section's fields.
pub open spec fn field_titles(fs: Seq<FieldModel>) -> Seq<Seq<char>> {
    fs.map_values(|f: FieldModel| f.title)
}

/// `section` contains a field titled `k.1` and is titled `k.0`.
pub open spec fn section_has_key(sec: SectionModel, k: (Seq<char>, Seq<char>)) -> bool {
    sec.title == k.0 && field_titles(sec.fields).contains(k.1)
}

/// some section of the document has the key.
pub open spec fn document_has_key(d: DocumentModel, k: (Seq<char>, Seq<char>)) -> bool {
    sections_have_key(d.sections, k)
}

/// some document has the key.
pub open spec fn documents_have_key(ds: Seq<DocumentModel>, k: (Seq<char>, Seq<char>)) -> bool {
    exists|i: int| 0 <= i < ds.len() && document_has_key(#[trigger] ds[i], k)
}

/// the order of pool keys: by section, then by field.
pub open spec fn key_lt(a: (Seq<char>, Seq<char>), b: (Seq<char>, Seq<char>)) -> bool {
    text_lt(a.0, b.0) || (a.0 == b.0 && text_lt(a.1, b.1))
}

proof fn lemma_key_lt_facts()
    ensures
        forall|a: (Seq<char>, Seq<char>)| !#[trigger] key_lt(a, a),
        forall|a: (Seq<char>, Seq<char>), b: (Seq<char>, Seq<char>), c: (Seq<char>, Seq<char>)|
            #[trigger] key_lt(a, b) && #[trigger] key_lt(b, c) ==> key_lt(a, c),
        forall|a: (Seq<char>, Seq<char>), b: (Seq<char>, Seq<char>)|
            a != b ==> #[trigger] key_lt(a, b) || #[trigger] key_lt(b, a),
{
    assert forall|a: (Seq<char>, Seq<char>)| !#[trigger] key_lt(a, a) by {
        lemma_text_lt_irreflexive(a.0);
        lemma_text_lt_irreflexive(a.1);
    }
    assert forall|a: (Seq<char>, Seq<char>), b: (Seq<char>, Seq<char>), c: (Seq<char>, Seq<char>)|
        #[trigger] key_lt(a, b) && #[trigger] key_lt(b, c) implies key_lt(a, c) by {
        if text_lt(a.0, b.0) && text_lt(b.0, c.0) {
            lemma_text_lt_transitive(a.0, b.0, c.0);
        } else if a.0 == b.0 && text_lt(a.1, b.1) && b.0 == c.0 && text_lt(b.1, c.1) {
            lemma_text_lt_transitive(a.1, b.1, c.1);
        }
    }
    assert forall|a: (Seq<char>, Seq<char>), b: (Seq<char>, Seq<char>)|
        a != b implies #[trigger] key_lt(a, b) || #[trigger] key_lt(b, a) by {
        if a.0 != b.0 {
            lemma_text_lt_total(a.0, b.0);
        } else {
            assert(a.1 != b.1);
            lemma_text_lt_total(a.1, b.1);
        }
    }
}

/// keys strictly increase.
pub open spec fn keys_sorted(ks: Seq<(Seq<char>, Seq<char>)>) -> bool {
    forall|i: int, j: int| 0 <= i < j < ks.len() ==> key_lt(ks[i], ks[j])
}

/// the keys as views.
pub open spec fn keys_view(ks: Seq<(String, String)>) -> Seq<(Seq<char>, Seq<char>)> {
    ks.map_values(|e: (String, String)| (e.0@, e.1@))
}

/// the key of a pool.
pub open spec fn pool_key(p: PoolModel) -> (Seq<char>, Seq<char>) {
    (p.section, p.field)
}

fn key_before(a: &(String, String), s: &str, f: &str) -> (r: bool)
    ensures
        r == key_lt((a.0@, a.1@), (s@, f@)),
{
    match compare_text(a.0.as_str(), s) {
        TextOrder::Less => true,
        TextOrder::Greater => false,
        TextOrder::Equal => match compare_text(a.1.as_str(), f) {
            TextOrder::Less => true,
            _ => false,
        },
    }
}

/// inserts a key into a sorted key list unless it is already there.
fn insert_key(keys: &mut Vec<(String, String)>, s: &str, f: &str)
    requires
        keys_sorted(keys_view(old(keys)@)),
    ensures
        keys_sorted(keys_view(final(keys)@)),
        forall|k: (Seq<char>, Seq<char>)|
            keys_view(final(keys)@).contains(k) <==> (keys_view(old(keys)@).contains(k) || k == (
                s@,
                f@,
            )),
{
    let ghost old_keys = keys_view(keys@);
    let ghost k = (s@, f@);
    proof {
        lemma_key_lt_facts();
    }
    let mut p: usize = 0;
    let mut go = true;
    while go && p < keys.len()
        invariant
            p <= keys@.len(),
            old_keys == keys_view(keys@),
            k == (s@, f@),
            forall|j: int| 0 <= j < p ==> key_lt(#[trigger] old_keys[j], k),
            !go ==> p < keys@.len() && !key_lt(old_keys[p as int], k),
        decreases keys@.len() - p + if go { 1int } else { 0int },
    {
        proof {
            assert(old_keys[p as int] == (keys@[p as int].0@, keys@[p as int].1@));
        }
        if key_before(&keys[p], s, f) {
            p = p + 1;
        } else {
            go = false;
        }
    }
    proof {
        if p < keys@.len() {
            assert(old_keys[p as int] == (keys@[p as int].0@, keys@[p as int].1@));
        }
    }
    if p < keys.len() && str_eq(keys[p].0.as_str(), s) && str_eq(keys[p].1.as_str(), f) {
        proof {
            assert(old_keys[p as int] == k);
            assert forall|x: (Seq<char>, Seq<char>)| old_keys.contains(x) <==> (old_keys.contains(x) || x == k) by {
                if x == k {
                    assert(old_keys[p as int] == x);
                }
            }
        }
        return;
    }
    proof {
        if p < keys@.len() {
            assert(!key_lt(old_keys[p as int], k));
            assert(old_keys[p as int] != k);
            assert(key_lt(k, old_keys[p as int]));
        }
    }
    keys.insert(p, (owned(s), owned(f)));
    proof {
        let nk = keys_view(keys@);
        assert(nk =~= old_keys.insert(p as int, k));
        assert forall|i: int, j: int| 0 <= i < j < nk.len() implies key_lt(nk[i], nk[j]) by {
            if j < p {
            } else if j == p {
            } else if i < p {
                assert(key_lt(k, old_keys[p as int]));
                if j - 1 > p {
                    assert(key_lt(old_keys[p as int], old_keys[j - 1]));
                }
            } else if i == p {
                if j - 1 > p {
                    assert(key_lt(old_keys[p as int], old_keys[j - 1]));
                }
            } else {
            }
        }
        assert forall|x: (Seq<char>, Seq<char>)| nk.contains(x) <==> (old_keys.contains(x) || x == k) by {
            if nk.contains(x) {
                let i = choose|i: int| 0 <= i < nk.len() && nk[i] == x;
                if i < p {
                    assert(old_keys[i] == x);
                } else if i > p {
                    assert(old_keys[i - 1] == x);
                }
            }
            if old_keys.contains(x) {
                let i = choose|i: int| 0 <= i < old_keys.len() && old_keys[i] == x;
                if i < p {
                    assert(nk[i] == x);
                } else {
                    assert(nk[i + 1] == x);
                }
            }
            if x == k {
                assert(nk[p as int] == x);
            }
        }
    }
}

/// adds the keys of one section.
fn add_section_keys(keys: &mut Vec<(String, String)>, sec: &Section)
    requires
        keys_sorted(keys_view(old(keys)@)),
    ensures
        keys_sorted(keys_view(final(keys)@)),
        forall|k: (Seq<char>, Seq<char>)|
            keys_view(final(keys)@).contains(k) <==> (keys_view(old(keys)@).contains(k)
                || section_has_key(sec@, k)),
{
    let ghost before = keys_view(keys@);
    let ghost titles = field_titles(sec@.fields);
    let mut l: usize = 0;
    while l < sec.fields.len()
        invariant
            l <= sec.fields@.len(),
            titles == field_titles(sec@.fields),
            keys_sorted(keys_view(keys@)),
            forall|k: (Seq<char>, Seq<char>)|
                keys_view(keys@).contains(k) <==> (before.contains(k) || (k.0 == sec@.title
                    && titles.take(l as int).contains(k.1))),
        decreases sec.fields@.len() - l,
    {
        let ghost prev = keys_view(keys@);
        assert(forall|k: (Seq<char>, Seq<char>)|
            prev.contains(k) <==> (before.contains(k) || (k.0 == sec@.title
                && titles.take(l as int).contains(k.1))));
        insert_key(keys, sec.title.as_str(), sec.fields[l].title.as_str());
        proof {
            let nk = (sec.title@, sec.fields@[l as int].title@);
            assert(titles[l as int] == sec.fields@[l as int].title@);
            assert(titles.take(l as int + 1) =~= titles.take(l as int).push(titles[l as int]));
            assert forall|k: (Seq<char>, Seq<char>)|
                keys_view(keys@).contains(k) <==> (before.contains(k) || (k.0 == sec@.title
                    && titles.take(l as int + 1).contains(k.1))) by {
                assert(keys_view(keys@).contains(k) <==> (prev.contains(k) || k == nk));
                if titles.take(l as int + 1).contains(k.1) {
                    let x = choose|x: int| 0 <= x < l + 1 && #[trigger] titles.take(l as int + 1)[x] == k.1;
                    if x < l {
                        assert(titles.take(l as int)[x] == k.1);
                    }
                }
                if titles.take(l as int).contains(k.1) {
                    let x = choose|x: int| 0 <= x < l && #[trigger] titles.take(l as int)[x] == k.1;
                    assert(titles.take(l as int + 1)[x] == k.1);
                }
                if k == nk {
                    assert(titles.take(l as int + 1)[l as int] == k.1);
                }
            }
        }
        l = l + 1;
    }
    proof {
        assert(titles.take(sec.fields@.len() as int) =~= titles);
    }
}

/// adds the keys of one document.
fn add_document_keys(keys: &mut Vec<(String, String)>, doc: &Document)
    requires
        keys_sorted(keys_view(old(keys)@)),
    ensures
        keys_sorted(keys_view(final(keys)@)),
        forall|k: (Seq<char>, Seq<char>)|
            keys_view(final(keys)@).contains(k) <==> (keys_view(old(keys)@).contains(k)
                || document_has_key(doc@, k)),
{
    let ghost before = keys_view(keys@);
    let ghost ss = doc@.sections;
    let mut j: usize = 0;
    while j < doc.sections.len()
        invariant
            j <= doc.sections@.len(),
            ss == doc@.sections,
            keys_sorted(keys_view(keys@)),
            forall|k: (Seq<char>, Seq<char>)|
                #[trigger] keys_view(keys@).contains(k) <==> (before.contains(k)
                    || sections_have_key(ss.take(j as int), k)),
        decreases doc.sections@.len() - j,
    {
        let ghost prev = keys_view(keys@);
        add_section_keys(keys, &doc.sections[j]);
        proof {
            assert(ss[j as int] == doc.sections@[j as int]@);
            assert(ss.take(j as int + 1) =~= ss.take(j as int).push(ss[j as int]));
            assert forall|k: (Seq<char>, Seq<char>)|
                #[trigger] keys_view(keys@).contains(k) <==> (before.contains(k)
                    || sections_have_key(ss.take(j as int + 1), k)) by {
                assert(prev.contains(k) <==> (before.contains(k) || sections_have_key(ss.take(j as int), k)));
                lemma_sections_have_key_push(ss.take(j as int), ss[j as int], k);
            }
        }
        j = j + 1;
    }
    proof {
        assert(ss.take(doc.sections@.len() as int) =~= ss);
    }
}

/// some section of the list has the key.
pub open spec fn sections_have_key(ss: Seq<SectionModel>, k: (Seq<char>, Seq<char>)) -> bool {
    exists|j: int| 0 <= j < ss.len() && section_has_key(#[trigger] ss[j], k)
}

proof fn lemma_sections_have_key_push(ss: Seq<SectionModel>, x: SectionModel, k: (Seq<char>, Seq<char>))
    ensures
        sections_have_key(ss.push(x), k) <==> (sections_have_key(ss, k) || section_has_key(x, k)),
{
    if sections_have_key(ss.push(x), k) {
        let j = choose|j: int| 0 <= j < ss.push(x).len() && section_has_key(#[trigger] ss.push(x)[j], k);
        if j < ss.len() {
            assert(ss[j] == ss.push(x)[j]);
        }
    }
    if sections_have_key(ss, k) {
        let j = choose|j: int| 0 <= j < ss.len() && section_has_key(#[trigger] ss[j], k);
        assert(ss.push(x)[j] == ss[j]);
    }
    if section_has_key(x, k) {
        assert(ss.push(x)[ss.len() as int] == x);
    }
}

/// the sorted, distinct `(section, field)` keys of all documents.
fn collect_keys(documents: &[Document]) -> (r: Vec<(String, String)>)
    ensures
        keys_sorted(keys_view(r@)),
        forall|k: (Seq<char>, Seq<char>)|
            keys_view(r@).contains(k) <==> documents_have_key(documents_view(documents@), k),
{
    let ghost ds = documents_view(documents@);
    let mut keys: Vec<(String, String)> = Vec::new();
    let mut i: usize = 0;
    proof {
        assert(keys_view(keys@) =~= Seq::<(Seq<char>, Seq<char>)>::empty());
    }
    while i < documents.len()
        invariant
            i <= documents@.len(),
            ds == documents_view(documents@),
            keys_sorted(keys_view(keys@)),
            forall|k: (Seq<char>, Seq<char>)|
                keys_view(keys@).contains(k) <==> documents_have_key(ds.take(i as int), k),
        decreases documents@.len() - i,
    {
        let ghost before = keys_view(keys@);
        add_document_keys(&mut keys, &documents[i]);
        proof {
            assert(ds[i as int] == documents@[i as int]@);
            assert forall|k: (Seq<char>, Seq<char>)|
                keys_view(keys@).contains(k) <==> documents_have_key(ds.take(i as int + 1), k) by {
                if documents_have_key(ds.take(i as int + 1), k) {
                    let ii = choose|ii: int| 0 <= ii < i + 1 && document_has_key(#[trigger] ds.take(i as int + 1)[ii], k);
                    if ii < i {
                        assert(ds.take(i as int)[ii] == ds.take(i as int + 1)[ii]);
                        assert(documents_have_key(ds.take(i as int), k));
                    } else {
                        assert(document_has_key(documents@[i as int]@, k));
                    }
                }
                if documents_have_key(ds.take(i as int), k) {
                    let ii = choose|ii: int| 0 <= ii < i && document_has_key(#[trigger] ds.take(i as int)[ii], k);
                    assert(ds.take(i as int + 1)[ii] == ds.take(i as int)[ii]);
                }
                if document_has_key(documents@[i as int]@, k) {
                    assert(ds.take(i as int + 1)[i as int] == ds[i as int]);
                }
            }
        }
        i = i + 1;
    }
    proof {
        assert(ds.take(documents@.len() as int) =~= ds);
    }
    keys
}

/// `distinct_values` makes the pooled value holding `v` unique.
proof fn lemma_distinct_choose(g: Seq<PooledModel>, v: Seq<char>, i: int)
    requires
        distinct_values(g),
        0 <= i < g.len(),
        g[i].value == v,
    ensures
        (choose|j: int| 0 <= j < g.len() && g[j].value == v) == i,
{
    let j = choose|j: int| 0 <= j < g.len() && g[j].value == v;
    assert(0 <= j < g.len() && g[j].value == v);
    if j < i {
        assert(g[j].value != g[i].value);
    } else if j > i {
        assert(g[i].value != g[j].value);
    }
}

/// adds one occurrence of `v`, found at `prov`, to the pooled values.
fn add_value_occurrence(vals: &mut Vec<PooledValue>, v: &String, prov: &ValueProvenance)
    requires
        distinct_values(pooled_view(old(vals)@)),
    ensures
        distinct_values(pooled_view(final(vals)@)),
        pooled_view(final(vals)@) == add_occurrence(pooled_view(old(vals)@), (v@, prov@)),
{
    let ghost g = pooled_view(vals@);
    let mut i: usize = 0;
    while i < vals.len()
        invariant
            i <= vals@.len(),
            g == pooled_view(vals@),
            g == pooled_view(old(vals)@),
            distinct_values(g),
            forall|j: int| 0 <= j < i ==> #[trigger] g[j].value != v@,
        decreases vals@.len() - i,
    {
        if vals[i].value == *v {
            proof {
                lemma_distinct_choose(g, v@, i as int);
            }
            let mut provenance = copy_provenance(&vals[i].provenance);
            provenance.push(prov.duplicate());
            let updated = PooledValue { value: vals[i].value.clone(), provenance };
            vals.set(i, updated);
            proof {
                assert(provenance_view(vals@[i as int].provenance@) =~= g[i as int].provenance.push(prov@));
                assert(pooled_view(vals@) =~= add_occurrence(g, (v@, prov@)));
                lemma_add_occurrence_distinct(g, (v@, prov@));
            }
            return;
        }
        i = i + 1;
    }
    let mut provenance: Vec<ValueProvenance> = Vec::new();
    provenance.push(prov.duplicate());
    vals.push(PooledValue { value: v.clone(), provenance });
    proof {
        assert(provenance_view(vals@[vals@.len() - 1].provenance@) =~= seq![prov@]);
        assert(pooled_view(vals@) =~= add_occurrence(g, (v@, prov@)));
        lemma_add_occurrence_distinct(g, (v@, prov@));
    }
}

proof fn lemma_grouped_step(g: Seq<PooledModel>, a: Seq<Occurrence>, b: Seq<Occurrence>)
    ensures
        grouped_into(g, a + b) == grouped_into(grouped_into(g, a), b),
{
    lemma_grouped_concat(g, a, b);
}

/// adds the occurrences of `values`, all found at `prov`.
fn add_values(vals: &mut Vec<PooledValue>, values: &Vec<String>, prov: &ValueProvenance)
    requires
        distinct_values(pooled_view(old(vals)@)),
    ensures
        distinct_values(pooled_view(final(vals)@)),
        pooled_view(final(vals)@) == grouped_into(
            pooled_view(old(vals)@),
            occ_values(values@.map_values(|s: String| s@), prov@),
        ),
{
    let ghost g0 = pooled_view(vals@);
    let ghost vs = values@.map_values(|s: String| s@);
    let mut i: usize = 0;
    proof {
        assert(occ_values(vs.take(0), prov@) =~= Seq::<Occurrence>::empty());
    }
    while i < values.len()
        invariant
            i <= values@.len(),
            vs == values@.map_values(|s: String| s@),
            distinct_values(pooled_view(vals@)),
            pooled_view(vals@) == grouped_into(g0, occ_values(vs.take(i as int), prov@)),
        decreases values@.len() - i,
    {
        add_value_occurrence(vals, &values[i], prov);
        proof {
            let o = occ_values(vs.take(i as int + 1), prov@);
            assert(o.drop_last() =~= occ_values(vs.take(i as int), prov@));
            assert(o.last() == (values@[i as int]@, prov@));
        }
        i = i + 1;
    }
    proof {
        assert(vs.take(values@.len() as int) =~= vs);
    }
}

/// adds the occurrences in the fields titled `f`.
fn add_fields(vals: &mut Vec<PooledValue>, fields: &Vec<Field>, f: &str, prov: &ValueProvenance)
    requires
        distinct_values(pooled_view(old(vals)@)),
    ensures
        distinct_values(pooled_view(final(vals)@)),
        pooled_view(final(vals)@) == grouped_into(
            pooled_view(old(vals)@),
            occ_fields(fields@.map_values(|x: Field| x@), f@, prov@),
        ),
{
    let ghost g0 = pooled_view(vals@);
    let ghost fs = fields@.map_values(|x: Field| x@);
    let mut i: usize = 0;
    proof {
        assert(fs.take(0) =~= Seq::<FieldModel>::empty());
    }
    while i < fields.len()
        invariant
            i <= fields@.len(),
            fs == fields@.map_values(|x: Field| x@),
            distinct_values(pooled_view(vals@)),
            pooled_view(vals@) == grouped_into(g0, occ_fields(fs.take(i as int), f@, prov@)),
        decreases fields@.len() - i,
    {
        let ghost mid = pooled_view(vals@);
        proof {
            assert(fs.take(i as int + 1).drop_last() =~= fs.take(i as int));
            assert(fs.take(i as int + 1).last() == fields@[i as int]@);
        }
        if str_eq(fields[i].title.as_str(), f) {
            add_values(vals, &fields[i].values, prov);
            proof {
                lemma_grouped_step(g0, occ_fields(fs.take(i as int), f@, prov@), occ_values(fields@[i as int]@.values, prov@));
            }
        } else {
            proof {
                let e = Seq::<Occurrence>::empty();
                assert(occ_fields(fs.take(i as int), f@, prov@) + e =~= occ_fields(fs.take(i as int), f@, prov@));
            }
        }
        i = i + 1;
    }
    proof {
        assert(fs.take(fields@.len() as int) =~= fs);
    }
}

/// adds the occurrences of section `s`, field `f`, in one document.
fn add_sections(vals: &mut Vec<PooledValue>, doc: &Document, s: &str, f: &str)
    requires
        distinct_values(pooled_view(old(vals)@)),
    ensures
        distinct_values(pooled_view(final(vals)@)),
        pooled_view(final(vals)@) == grouped_into(
            pooled_view(old(vals)@),
            occ_sections(doc@.sections, s@, f@, doc@),
        ),
{
    let ghost g0 = pooled_view(vals@);
    let ghost ss = doc@.sections;
    let prov = ValueProvenance {
        source_id: doc.source_id.clone(),
        document_title: doc.metadata.title.clone(),
        section: owned(s),
        field: owned(f),
    };
    let mut i: usize = 0;
    proof {
        assert(ss.take(0) =~= Seq::<SectionModel>::empty());
    }
    while i < doc.sections.len()
        invariant
            i <= doc.sections@.len(),
            ss == doc@.sections,
            prov@ == provenance_of(doc@, s@, f@),
            distinct_values(pooled_view(vals@)),
            pooled_view(vals@) == grouped_into(g0, occ_sections(ss.take(i as int), s@, f@, doc@)),
        decreases doc.sections@.len() - i,
    {
        proof {
            assert(ss.take(i as int + 1).drop_last() =~= ss.take(i as int));
            assert(ss.take(i as int + 1).last() == doc.sections@[i as int]@);
        }
        if str_eq(doc.sections[i].title.as_str(), s) {
            add_fields(vals, &doc.sections[i].fields, f, &prov);
            proof {
                lemma_grouped_step(
                    g0,
                    occ_sections(ss.take(i as int), s@, f@, doc@),
                    occ_fields(doc.sections@[i as int]@.fields, f@, prov@),
                );
            }
        } else {
            proof {
                let e = Seq::<Occurrence>::empty();
                assert(occ_sections(ss.take(i as int), s@, f@, doc@) + e =~= occ_sections(ss.take(i as int), s@, f@, doc@));
            }
        }
        i = i + 1;
    }
    proof {
        assert(ss.take(doc.sections@.len() as int) =~= ss);
    }
}

/// the pooled values of section `s`, field `f`, across all documents.
fn pool_values(documents: &[Document], s: &str, f: &str) -> (r: Vec<PooledValue>)
    ensures
        distinct_values(pooled_view(r@)),
        pooled_view(r@) == grouped(occ_documents(documents_view(documents@), s@, f@)),
{
    let ghost ds = documents_view(documents@);
    let mut vals: Vec<PooledValue> = Vec::new();
    let mut i: usize = 0;
    proof {
        assert(ds.take(0) =~= Seq::<DocumentModel>::empty());
        assert(pooled_view(vals@) =~= Seq::<PooledModel>::empty());
    }
    while i < documents.len()
        invariant
            i <= documents@.len(),
            ds == documents_view(documents@),
            distinct_values(pooled_view(vals@)),
            pooled_view(vals@) == grouped(occ_documents(ds.take(i as int), s@, f@)),
        decreases documents@.len() - i,
    {
        proof {
            assert(ds.take(i as int + 1).drop_last() =~= ds.take(i as int));
            assert(ds.take(i as int + 1).last() == documents@[i as int]@);
        }
        add_sections(&mut vals, &documents[i], s, f);
        proof {
            lemma_grouped_step(
                Seq::<PooledModel>::empty(),
                occ_documents(ds.take(i as int), s@, f@),
                occ_sections(documents@[i as int]@.sections, s@, f@, documents@[i as int]@),
            );
        }
        i = i + 1;
    }
    proof {
        assert(ds.take(documents@.len() as int) =~= ds);
    }
    vals
}

/// the pools of a corpus: one per `(section, field)` pair found in the
/// documents, sorted by section then field, each holding the grouped values
/// of that pair.
pub open spec fn pools_match_documents(pools: Seq<PoolModel>, ds: Seq<DocumentModel>) -> bool {
    &&& keys_sorted(pools.map_values(|p: PoolModel| pool_key(p)))
    &&& forall|k: (Seq<char>, Seq<char>)|
        pools.map_values(|p: PoolModel| pool_key(p)).contains(k) <==> documents_have_key(ds, k)
    &&& forall|i: int|
        0 <= i < pools.len() ==> #[trigger] pools[i].values == grouped(
            occ_documents(ds, pools[i].section, pools[i].field),
        )
}

/// builds pools keyed by exact section and field pairs, merging provenance for duplicate values.
pub fn build_value_pools(documents: &[Document]) -> (r: Vec<ValuePool>)
    ensures
        pools_match_documents(pools_view(r@), documents_view(documents@)),
{
    let keys = collect_keys(documents);
    let ghost kv = keys_view(keys@);
    let mut pools: Vec<ValuePool> = Vec::new();
    let mut i: usize = 0;
    while i < keys.len()
        invariant
            i <= keys@.len(),
            kv == keys_view(keys@),
            pools@.len() == i,
            forall|j: int| 0 <= j < i ==> pool_key(#[trigger] pools_view(pools@)[j]) == kv[j],
            forall|j: int|
                0 <= j < i ==> #[trigger] pools_view(pools@)[j].values == grouped(
                    occ_documents(documents_view(documents@), kv[j].0, kv[j].1),
                ),
        decreases keys@.len() - i,
    {
        let values = pool_values(documents, keys[i].0.as_str(), keys[i].1.as_str());
        let pool = ValuePool::new(keys[i].0.clone(), keys[i].1.clone(), values);
        let ghost prev = pools@;
        pools.push(pool);
        proof {
            assert(kv[i as int] == (keys@[i as int].0@, keys@[i as int].1@));
            assert forall|j: int| 0 <= j < i + 1 implies pool_key(#[trigger] pools_view(pools@)[j]) == kv[j]
                && pools_view(pools@)[j].values == grouped(
                    occ_documents(documents_view(documents@), kv[j].0, kv[j].1)) by {
                if j < i {
                    assert(pools@[j] == prev[j]);
                    assert(pools_view(prev)[j] == prev[j]@);
                }
            }
        }
        i = i + 1;
    }
    proof {
        let pv = pools_view(pools@);
        assert(pv.map_values(|p: PoolModel| pool_key(p)) =~= kv);
    }
    pools
}

} // verus!

verus! {

// ─── distinct source ids ─────────────────────────────────────────────────────

/// `s` holds no `':'`.
pub open spec fn colon_free(s: Seq<char>) -> bool {
    forall|i: int| 0 <= i < s.len() ==> s[i] != ':'
}

proof fn lemma_digit_char(d: nat)
    requires
        d < 10,
    ensures
        digit_char(d) != ':',
        forall|e: nat| e < 10 && digit_char(e) == digit_char(d) ==> e == d,
{
    assert((((d + 48) as u32) as char) as u32 == d + 48);
    assert forall|e: nat| e < 10 && digit_char(e) == digit_char(d) implies e == d by {
        assert((((e + 48) as u32) as char) as u32 == e + 48);
    }
}

proof fn lemma_hex_char(d: nat)
    requires
        d < 16,
    ensures
        hex_char(d) != ':',
{
    if d < 10 {
        assert((((d + 48) as u32) as char) as u32 == d + 48);
    } else {
        assert((((d + 87) as u32) as char) as u32 == d + 87);
    }
}

proof fn lemma_decimal_len(n: nat)
    ensures
        decimal(n).len() >= 1,
        n >= 10 ==> decimal(n).len() >= 2,
        colon_free(decimal(n)),
    decreases n,
{
    if n < 10 {
        lemma_digit_char(n);
    } else {
        lemma_decimal_len(n / 10);
        lemma_digit_char(n % 10);
        let p = decimal(n / 10);
        assert forall|i: int| 0 <= i < decimal(n).len() implies decimal(n)[i] != ':' by {
            if i < p.len() {
                assert(decimal(n)[i] == p[i]);
            }
        }
    }
}

/// decimal renderings are non-empty, colon-free, and differ for different numbers.
pub proof fn lemma_decimal_facts(a: nat, b: nat)
    ensures
        decimal(a).len() > 0,
        colon_free(decimal(a)),
        decimal(a) == decimal(b) ==> a == b,
    decreases a,
{
    lemma_decimal_len(a);
    lemma_decimal_len(b);
    if decimal(a) == decimal(b) {
        if a < 10 && b < 10 {
            lemma_digit_char(a);
            lemma_digit_char(b);
            assert(decimal(a)[0] == decimal(b)[0]);
        } else if a >= 10 && b >= 10 {
            assert(a == 10 * (a / 10) + a % 10) by (nonlinear_arith);
            assert(b == 10 * (b / 10) + b % 10) by (nonlinear_arith);
            lemma_digit_char(a % 10);
            lemma_digit_char(b % 10);
            assert(decimal(a).last() == decimal(b).last());
            assert(decimal(a).drop_last() =~= decimal(a / 10));
            assert(decimal(b).drop_last() =~= decimal(b / 10));
            lemma_decimal_facts(a / 10, b / 10);
        }
    }
}

/// hex renderings are colon-free.
pub proof fn lemma_hex_colon_free(bytes: Seq<u8>)
    ensures
        colon_free(hex_lower(bytes)),
    decreases bytes.len(),
{
    if bytes.len() > 0 {
        lemma_hex_colon_free(bytes.drop_last());
        lemma_hex_char((bytes.last() / 16) as nat);
        lemma_hex_char((bytes.last() % 16) as nat);
        let p = hex_lower(bytes.drop_last());
        assert forall|i: int| 0 <= i < hex_lower(bytes).len() implies hex_lower(bytes)[i] != ':' by {
            if i < p.len() {
                assert(hex_lower(bytes)[i] == p[i]);
            }
        }
    }
}

/// how many of `hs` are `h`.
pub open spec fn count_in(hs: Seq<Seq<char>>, h: Seq<char>) -> nat
    decreases hs.len(),
{
    if hs.len() == 0 {
        0
    } else {
        count_in(hs.drop_last(), h) + if hs.last() == h {
            1nat
        } else {
            0nat
        }
    }
}

proof fn lemma_count_in_grows(hs: Seq<Seq<char>>, i: int, j: int)
    requires
        0 <= i < j < hs.len(),
        hs[i] == hs[j],
    ensures
        count_in(hs.take(i + 1), hs[i]) < count_in(hs.take(j + 1), hs[i]),
{
    assert(hs.take(j + 1).drop_last() =~= hs.take(j));
    lemma_count_in_monotone(hs, i + 1, j, hs[i]);
}

proof fn lemma_count_in_monotone(hs: Seq<Seq<char>>, a: int, b: int, h: Seq<char>)
    requires
        0 <= a <= b <= hs.len(),
    ensures
        count_in(hs.take(a), h) <= count_in(hs.take(b), h),
    decreases b - a,
{
    if a < b {
        assert(hs.take(b).drop_last() =~= hs.take(b - 1));
        lemma_count_in_monotone(hs, a, b - 1, h);
    }
}

proof fn lemma_count_in_positive(hs: Seq<Seq<char>>, k: int)
    requires
        0 <= k < hs.len(),
    ensures
        count_in(hs.take(k + 1), hs[k]) >= 1,
{
    assert(hs.take(k + 1).drop_last() =~= hs.take(k));
}

/// the id a hash gets at position `k`: its count among the first `k + 1`.
pub open spec fn id_at(hs: Seq<Seq<char>>, k: int) -> Seq<char> {
    unique_source_id(hs[k], count_in(hs.take(k + 1), hs[k]))
}

/// ids made from colon-free hashes by counting repeats are pairwise distinct.
pub proof fn law_counted_ids_distinct(hs: Seq<Seq<char>>, i: int, j: int)
    requires
        0 <= i < j < hs.len(),
        forall|k: int| 0 <= k < hs.len() ==> colon_free(#[trigger] hs[k]),
    ensures
        id_at(hs, i) != id_at(hs, j),
{
    let hi = hs[i];
    let hj = hs[j];
    let ci = count_in(hs.take(i + 1), hi);
    let cj = count_in(hs.take(j + 1), hj);
    lemma_count_in_positive(hs, i);
    lemma_count_in_positive(hs, j);
    lemma_decimal_facts(ci, cj);
    lemma_decimal_facts(cj, ci);
    assert(colon_free(hi));
    assert(colon_free(hj));
    let a = id_at(hs, i);
    let b = id_at(hs, j);
    if a == b {
        if hi == hj {
            lemma_count_in_grows(hs, i, j);
            if ci == 1 {
                assert(a =~= hi);
                assert(b[hj.len() as int] == ':');
            } else {
                assert(a =~= hi.push(':') + decimal(ci));
                assert(b =~= hj.push(':') + decimal(cj));
                assert(a.skip(hi.len() as int + 1) =~= decimal(ci));
                assert(b.skip(hj.len() as int + 1) =~= decimal(cj));
            }
        } else {
            if ci == 1 && cj == 1 {
            } else if ci == 1 {
                assert(b[hj.len() as int] == ':');
                if hj.len() < a.len() {
                    assert(a[hj.len() as int] == hi[hj.len() as int]);
                }
            } else if cj == 1 {
                assert(a[hi.len() as int] == ':');
                if hi.len() < b.len() {
                    assert(b[hi.len() as int] == hj[hi.len() as int]);
                }
            } else {
                if hi.len() < hj.len() {
                    assert(a[hi.len() as int] == ':');
                    assert(b[hi.len() as int] == hj[hi.len() as int]);
                } else if hj.len() < hi.len() {
                    assert(b[hj.len() as int] == ':');
                    assert(a[hj.len() as int] == hi[hj.len() as int]);
                } else {
                    assert(hi =~= a.take(hi.len() as int));
                    assert(hj =~= b.take(hj.len() as int));
                }
            }
        }
    }
}

} // verus!
