//! core document model types shared across loaders, corpus, and rules modules.

use vstd::prelude::*;

use crate::text::str_eq;

verus! {

/// open target identifier used by loaders and corpus builders.
pub type Target = String;

/// the view of an optional string.
pub open spec fn opt_view(o: Option<String>) -> Option<Seq<char>> {
    match o {
        Some(s) => Some(s@),
        None => None,
    }
}

/// a copy of an optional string.
pub fn copy_opt(o: &Option<String>) -> (r: Option<String>)
    ensures
        opt_view(r) == opt_view(*o),
{
    match o {
        Some(s) => Some(s.clone()),
        None => None,
    }
}

/// a copy of a list of strings.
pub fn copy_strings(v: &Vec<String>) -> (r: Vec<String>)
    ensures
        r@.map_values(|s: String| s@) == v@.map_values(|s: String| s@),
{
    let mut out: Vec<String> = Vec::new();
    let mut i: usize = 0;
    while i < v.len()
        invariant
            i <= v@.len(),
            out@.len() == i,
            forall|j: int| 0 <= j < i ==> #[trigger] out@[j]@ == v@[j]@,
        decreases v@.len() - i,
    {
        out.push(v[i].clone());
        i = i + 1;
    }
    assert(out@.map_values(|s: String| s@) =~= v@.map_values(|s: String| s@));
    out
}

#[derive(Debug, Clone)]
/// common metadata from the `[header]` table of each input file.
pub struct DocumentMetadata {
    /// dataset display name.
    pub title: String,
    /// target category used for loader validation.
    pub target: Target,
    /// optional dataset description.
    pub desc: Option<String>,
    /// optional dataset author.
    pub author: Option<String>,
    /// optional dataset version.
    pub version: Option<String>,
    /// optional schema identifier.
    pub schema: Option<String>,
}

/// the abstract value of a [`DocumentMetadata`].
pub struct MetadataModel {
    pub title: Seq<char>,
    pub target: Seq<char>,
    pub desc: Option<Seq<char>>,
    pub author: Option<Seq<char>>,
    pub version: Option<Seq<char>>,
    pub schema: Option<Seq<char>>,
}

impl View for DocumentMetadata {
    type V = MetadataModel;

    open spec fn view(&self) -> MetadataModel {
        MetadataModel {
            title: self.title@,
            target: self.target@,
            desc: opt_view(self.desc),
            author: opt_view(self.author),
            version: opt_view(self.version),
            schema: opt_view(self.schema),
        }
    }
}

impl DocumentMetadata {
    /// a copy with the same view.
    pub fn duplicate(&self) -> (r: Self)
        ensures
            r@ == self@,
    {
        DocumentMetadata {
            title: self.title.clone(),
            target: self.target.clone(),
            desc: copy_opt(&self.desc),
            author: copy_opt(&self.author),
            version: copy_opt(&self.version),
            schema: copy_opt(&self.schema),
        }
    }
}

#[derive(Debug, Clone)]
/// a named value pool inside a section.
pub struct Field {
    /// field name as defined by the TOML key.
    pub title: String,
    /// candidate string values for this field.
    pub values: Vec<String>,
}

/// the abstract value of a [`Field`].
pub struct FieldModel {
    pub title: Seq<char>,
    pub values: Seq<Seq<char>>,
}

impl View for Field {
    type V = FieldModel;

    open spec fn view(&self) -> FieldModel {
        FieldModel { title: self.title@, values: self.values@.map_values(|s: String| s@) }
    }
}

impl Field {
    /// a copy with the same view.
    pub fn duplicate(&self) -> (r: Self)
        ensures
            r@ == self@,
    {
        Field { title: self.title.clone(), values: copy_strings(&self.values) }
    }
}

#[derive(Debug, Clone)]
/// a top-level section inside a document (one TOML table, excluding `[header]`).
pub struct Section {
    /// section name derived from the TOML table key.
    pub title: String,
    /// named value pools defined within this section.
    pub fields: Vec<Field>,
}

/// the abstract value of a [`Section`].
pub struct SectionModel {
    pub title: Seq<char>,
    pub fields: Seq<FieldModel>,
}

impl View for Section {
    type V = SectionModel;

    open spec fn view(&self) -> SectionModel {
        SectionModel { title: self.title@, fields: self.fields@.map_values(|f: Field| f@) }
    }
}

impl Section {
    /// a copy with the same view.
    pub fn duplicate(&self) -> (r: Self)
        ensures
            r@ == self@,
    {
        let mut fields: Vec<Field> = Vec::new();
        let mut i: usize = 0;
        while i < self.fields.len()
            invariant
                i <= self.fields@.len(),
                fields@.len() == i,
                forall|j: int| 0 <= j < i ==> #[trigger] fields@[j]@ == self.fields@[j]@,
            decreases self.fields@.len() - i,
        {
            fields.push(self.fields[i].duplicate());
            i = i + 1;
        }
        assert(fields@.map_values(|f: Field| f@) =~= self.fields@.map_values(|f: Field| f@));
        Section { title: self.title.clone(), fields }
    }
}

#[derive(Debug, Clone)]
/// a parsed and corpus-tracked source document.
pub struct Document {
    /// metadata from the `[header]` table.
    pub metadata: DocumentMetadata,
    /// sections parsed from the document body.
    pub sections: Vec<Section>,
    /// unique id within the owning corpus instance.
    pub source_id: String,
    /// deterministic hash derived from document content and target.
    pub source_hash: String,
    /// source path or name supplied at load time.
    pub source_path: String,
}

/// the abstract value of a [`Document`].
pub struct DocumentModel {
    pub metadata: MetadataModel,
    pub sections: Seq<SectionModel>,
    pub source_id: Seq<char>,
    pub source_hash: Seq<char>,
    pub source_path: Seq<char>,
}

impl View for Document {
    type V = DocumentModel;

    open spec fn view(&self) -> DocumentModel {
        DocumentModel {
            metadata: self.metadata@,
            sections: self.sections@.map_values(|s: Section| s@),
            source_id: self.source_id@,
            source_hash: self.source_hash@,
            source_path: self.source_path@,
        }
    }
}

impl Document {
    /// a copy with the same view.
    pub fn duplicate(&self) -> (r: Self)
        ensures
            r@ == self@,
    {
        let mut sections: Vec<Section> = Vec::new();
        let mut i: usize = 0;
        while i < self.sections.len()
            invariant
                i <= self.sections@.len(),
                sections@.len() == i,
                forall|j: int| 0 <= j < i ==> #[trigger] sections@[j]@ == self.sections@[j]@,
            decreases self.sections@.len() - i,
        {
            sections.push(self.sections[i].duplicate());
            i = i + 1;
        }
        assert(sections@.map_values(|s: Section| s@) =~= self.sections@.map_values(|s: Section| s@));
        Document {
            metadata: self.metadata.duplicate(),
            sections,
            source_id: self.source_id.clone(),
            source_hash: self.source_hash.clone(),
            source_path: self.source_path.clone(),
        }
    }
}

/// the index of the first section titled `title`, if any.
pub open spec fn first_section_index(sections: Seq<SectionModel>, title: Seq<char>) -> Option<int> {
    if exists|i: int| 0 <= i < sections.len() && sections[i].title == title {
        let i = choose|i: int|
            0 <= i < sections.len() && sections[i].title == title && forall|j: int|
                0 <= j < i ==> sections[j].title != title;
        Some(i)
    } else {
        None
    }
}

impl Document {
    /// returns the section with the given title, if present.
    pub fn section(&self, title: &str) -> (r: Option<&Section>)
        ensures
            match first_section_index(self@.sections, title@) {
                Some(i) => r is Some && r->0@ == self@.sections[i],
                None => r is None,
            },
    {
        let ghost ss = self@.sections;
        let mut i: usize = 0;
        while i < self.sections.len()
            invariant
                i <= self.sections@.len(),
                ss == self@.sections,
                forall|j: int| 0 <= j < i ==> ss[j].title != title@,
            decreases self.sections@.len() - i,
        {
            if str_eq(self.sections[i].title.as_str(), title) {
                proof {
                    assert(ss[i as int].title == title@);
                    let k = choose|k: int|
                        0 <= k < ss.len() && ss[k].title == title@ && forall|j: int|
                            0 <= j < k ==> ss[j].title != title@;
                    if k < i {
                    } else if k > i {
                        assert(ss[i as int].title == title@);
                    }
                }
                return Some(&self.sections[i]);
            }
            i = i + 1;
        }
        None
    }
}

} // verus!
