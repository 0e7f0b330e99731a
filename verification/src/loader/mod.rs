//! typed loading of aethel documents: a `[header]` table shared by every
//! target and a body whose shape each target's loader defines.

pub mod error;
pub mod loader_person;
pub mod loader_weapon;

use vstd::prelude::*;

use crate::corpus::error::{CorpusLoaderError, LoadErrorModel};
use crate::corpus::{assemble, built_view, no_sources_message, Corpus, PendingModel, PendingSource};
use crate::corpus::types::{copy_strings, opt_view};
use crate::text::{owned, push_str, str_eq};
use crate::toml_model::{
    fields_view, find_item, get_optional_string, invalid_type, missing_field, get_required_string, invalid_type_message,
    lookup, missing_field_message, opt_list_view, optional_string, parse_toml, required_string, toml_parse,
    FieldShape, ItemShape, TomlDocument, TomlField, TomlItem,
};

pub use error::{LoaderError, LoaderErrorKind};
pub use crate::corpus::utils::{CorpusLoaderOptions as LoadOptions, LoadValidator};

verus! {

#[derive(Debug, Clone, Copy, PartialEq, Eq, Structural)]
/// the content category a document is written for.
pub enum Target {
    Person,
    Weapon,
    Unsupported,
}

/// the spelling of a target in `header.target`.
pub open spec fn target_name(t: Target) -> Seq<char> {
    match t {
        Target::Person => "person"@,
        Target::Weapon => "weapon"@,
        Target::Unsupported => "unsupported"@,
    }
}

/// the spelling of a target as its variant name.
pub open spec fn target_label(t: Target) -> Seq<char> {
    match t {
        Target::Person => "Person"@,
        Target::Weapon => "Weapon"@,
        Target::Unsupported => "Unsupported"@,
    }
}

/// the target that `header.target` names, if any.
pub open spec fn spec_parse_target(s: Seq<char>) -> Option<Target> {
    if s == "person"@ {
        Some(Target::Person)
    } else if s == "weapon"@ {
        Some(Target::Weapon)
    } else if s == "unsupported"@ {
        Some(Target::Unsupported)
    } else {
        None
    }
}

impl Target {
    /// the spelling of this target in `header.target`.
    pub fn as_str(&self) -> (r: &'static str)
        ensures
            r@ == target_name(*self),
    {
        match self {
            Target::Person => "person",
            Target::Weapon => "weapon",
            Target::Unsupported => "unsupported",
        }
    }

    /// the variant name of this target.
    pub fn label(&self) -> (r: &'static str)
        ensures
            r@ == target_label(*self),
    {
        match self {
            Target::Person => "Person",
            Target::Weapon => "Weapon",
            Target::Unsupported => "Unsupported",
        }
    }
}

/// reads a target name.
pub fn parse_target(s: &str) -> (r: Option<Target>)
    ensures
        r == spec_parse_target(s@),
{
    if str_eq(s, "person") {
        Some(Target::Person)
    } else if str_eq(s, "weapon") {
        Some(Target::Weapon)
    } else if str_eq(s, "unsupported") {
        Some(Target::Unsupported)
    } else {
        None
    }
}

/// the message for a `header.target` that names no target.
pub open spec fn unknown_target_message(s: Seq<char>) -> Seq<char> {
    "unknown variant `"@ + s + "`, expected one of `person`, `weapon`, `unsupported`"@
}

fn unknown_target(s: &str) -> (r: String)
    ensures
        r@ == unknown_target_message(s@),
{
    let mut m = owned("unknown variant `");
    push_str(&mut m, s);
    push_str(&mut m, "`, expected one of `person`, `weapon`, `unsupported`");
    m
}

#[derive(Debug, Clone)]
/// common metadata from the `[header]` table of each document.
pub struct AthelDocHeader {
    /// dataset display name.
    pub name: String,
    /// target the document is written for.
    pub target: Target,
    /// optional dataset description.
    pub desc: Option<String>,
    /// optional dataset author.
    pub author: Option<String>,
    /// optional dataset version.
    pub version: Option<String>,
}

/// the abstract value of an [`AthelDocHeader`].
pub struct HeaderModel {
    pub name: Seq<char>,
    pub target: Target,
    pub desc: Option<Seq<char>>,
    pub author: Option<Seq<char>>,
    pub version: Option<Seq<char>>,
}

impl View for AthelDocHeader {
    type V = HeaderModel;

    open spec fn view(&self) -> HeaderModel {
        HeaderModel {
            name: self.name@,
            target: self.target,
            desc: opt_view(self.desc),
            author: opt_view(self.author),
            version: opt_view(self.version),
        }
    }
}

impl AthelDocHeader {
    /// a copy with the same view.
    pub fn duplicate(&self) -> (r: Self)
        ensures
            r@ == self@,
    {
        AthelDocHeader {
            name: self.name.clone(),
            target: self.target,
            desc: crate::corpus::types::copy_opt(&self.desc),
            author: crate::corpus::types::copy_opt(&self.author),
            version: crate::corpus::types::copy_opt(&self.version),
        }
    }
}

/// the header of a `[header]` table, or the message of its first bad field
/// (checked in the order name, target, desc, author, version).
pub open spec fn spec_header(h: Seq<(Seq<char>, FieldShape)>) -> Result<HeaderModel, Seq<char>> {
    match required_string(h, "name"@) {
        Err(m) => Err(m),
        Ok(name) => match required_string(h, "target"@) {
            Err(m) => Err(m),
            Ok(t) => match spec_parse_target(t) {
                None => Err(unknown_target_message(t)),
                Some(target) => match optional_string(h, "desc"@) {
                    Err(m) => Err(m),
                    Ok(desc) => match optional_string(h, "author"@) {
                        Err(m) => Err(m),
                        Ok(author) => match optional_string(h, "version"@) {
                            Err(m) => Err(m),
                            Ok(version) => Ok(HeaderModel { name, target, desc, author, version }),
                        },
                    },
                },
            },
        },
    }
}

fn parse_header(h: &Vec<(String, TomlField)>) -> (r: Result<AthelDocHeader, String>)
    ensures
        match (r, spec_header(fields_view(h@))) {
            (Ok(a), Ok(b)) => a@ == b,
            (Err(a), Err(b)) => a@ == b,
            _ => false,
        },
{
    let name = get_required_string(h, "name")?;
    let t = get_required_string(h, "target")?;
    let target = match parse_target(t.as_str()) {
        Some(target) => target,
        None => {
            return Err(unknown_target(t.as_str()));
        },
    };
    let desc = get_optional_string(h, "desc")?;
    let author = get_optional_string(h, "author")?;
    let version = get_optional_string(h, "version")?;
    Ok(AthelDocHeader { name, target, desc, author, version })
}

/// the table stored under `key`: `None` when the key is absent, an error
/// when its value is not a table.
pub open spec fn spec_section(es: Seq<(Seq<char>, ItemShape)>, key: Seq<char>) -> Result<Option<Seq<(Seq<char>, FieldShape)>>, Seq<char>> {
    match lookup(es, key) {
        None => Ok(None),
        Some(ItemShape::Table(t)) => Ok(Some(t)),
        Some(ItemShape::Other) => Err(invalid_type_message(key)),
    }
}

/// finds the table stored under `key`.
pub fn section_of<'a>(doc: &'a TomlDocument, key: &str) -> (r: Result<Option<&'a Vec<(String, TomlField)>>, String>)
    ensures
        match (r, spec_section(doc@, key@)) {
            (Ok(Some(a)), Ok(Some(b))) => fields_view(a@) == b,
            (Ok(None), Ok(None)) => true,
            (Err(a), Err(b)) => a@ == b,
            _ => false,
        },
{
    match find_item(doc, key) {
        None => Ok(None),
        Some(TomlItem::Table(t)) => Ok(Some(t)),
        Some(TomlItem::Other) => Err(invalid_type(key)),
    }
}

#[derive(Debug, Clone)]
/// one parsed document: its header and its target-specific body.
pub struct AethelDoc<T> {
    /// metadata from the `[header]` table.
    pub header: AthelDocHeader,
    /// the target-specific body.
    pub data: T,
}

/// the abstract value of an [`AethelDoc`].
pub struct AethelDocModel<M> {
    pub header: HeaderModel,
    pub data: M,
}

impl<T: View> View for AethelDoc<T> {
    type V = AethelDocModel<T::V>;

    open spec fn view(&self) -> AethelDocModel<T::V> {
        AethelDocModel { header: self.header@, data: self.data@ }
    }
}

/// a loader for one target: the shape of its body and how it is read.
pub trait TargetedLoader: View + Sized {
    /// the target this loader reads.
    spec fn target_spec() -> Target;

    /// the body of a document with top-level entries `es`, or the message
    /// of its first bad entry.
    spec fn body_spec(es: Seq<(Seq<char>, ItemShape)>) -> Result<Self::V, Seq<char>>;

    /// the target this loader reads.
    fn target() -> (t: Target)
        ensures
            t == Self::target_spec(),
    ;

    /// reads the body of a parsed document.
    fn parse_body(doc: &TomlDocument) -> (r: Result<Self, String>)
        ensures
            match r {
                Ok(b) => Self::body_spec(doc@) == Ok::<Self::V, Seq<char>>(b@),
                Err(m) => Self::body_spec(doc@) == Err::<Self::V, Seq<char>>(m@),
            },
    ;

    /// a copy with the same view.
    fn duplicate(&self) -> (r: Self)
        ensures
            r@ == self@,
    ;
}

/// the view of an optional value.
pub open spec fn opt_model<T: View>(o: Option<T>) -> Option<T::V> {
    match o {
        Some(v) => Some(v@),
        None => None,
    }
}

/// a copy of an optional list of strings.
pub fn copy_opt_list(o: &Option<Vec<String>>) -> (r: Option<Vec<String>>)
    ensures
        opt_list_view(r) == opt_list_view(*o),
{
    match o {
        Some(v) => Some(copy_strings(v)),
        None => None,
    }
}

/// a parse error for the source named `name`.
pub open spec fn parse_error(name: Seq<char>, m: Seq<char>) -> LoadErrorModel {
    LoadErrorModel::Parse { path: Some(name), source: m }
}

/// the header of the source `raw` named `name`, or the parse error that
/// reading it gives.
pub open spec fn spec_doc_header(name: Seq<char>, raw: Seq<char>) -> Result<HeaderModel, LoadErrorModel> {
    match toml_parse(raw) {
        Err(m) => Err(parse_error(name, m)),
        Ok(es) => match spec_section(es, "header"@) {
            Err(m) => Err(parse_error(name, m)),
            Ok(None) => Err(parse_error(name, missing_field_message("header"@))),
            Ok(Some(h)) => match spec_header(h) {
                Err(m) => Err(parse_error(name, m)),
                Ok(hd) => Ok(hd),
            },
        },
    }
}

/// the document that the source `raw` named `name` holds for loader `T`
/// (header first, then body), without checking its target.
pub open spec fn spec_aethel_doc<T: TargetedLoader>(name: Seq<char>, raw: Seq<char>) -> Result<AethelDocModel<T::V>, LoadErrorModel> {
    match spec_doc_header(name, raw) {
        Err(e) => Err(e),
        Ok(hd) => match T::body_spec(toml_parse(raw)->Ok_0) {
            Err(m) => Err(parse_error(name, m)),
            Ok(b) => Ok(AethelDocModel { header: hd, data: b }),
        },
    }
}

/// the error for a document whose target is not the loader's.
pub open spec fn mismatch_error(expected: Target, found: Target) -> LoadErrorModel {
    LoadErrorModel::TargetMismatch { expected: target_name(expected), found: target_name(found) }
}

/// the document that loader `T` accepts from the source `raw` named `name`:
/// [`spec_aethel_doc`], then a check that the header names `T`'s target.
pub open spec fn spec_load<T: TargetedLoader>(name: Seq<char>, raw: Seq<char>) -> Result<AethelDocModel<T::V>, LoadErrorModel> {
    match spec_aethel_doc::<T>(name, raw) {
        Err(e) => Err(e),
        Ok(d) => if d.header.target != T::target_spec() {
            Err(mismatch_error(T::target_spec(), d.header.target))
        } else {
            Ok(d)
        },
    }
}

/// the view of a typed load outcome.
pub open spec fn loaded_view<T: View>(r: Result<AethelDoc<T>, CorpusLoaderError>) -> Result<AethelDocModel<T::V>, LoadErrorModel> {
    match r {
        Ok(d) => Ok(d@),
        Err(e) => Err(e@),
    }
}

/// reads the header of a source.
pub fn read_doc_header(name: &str, raw: &str) -> (r: Result<(AthelDocHeader, TomlDocument), CorpusLoaderError>)
    ensures
        match r {
            Ok((h, doc)) => spec_doc_header(name@, raw@) == Ok::<HeaderModel, LoadErrorModel>(h@)
                && toml_parse(raw@) == Ok::<Seq<(Seq<char>, ItemShape)>, Seq<char>>(doc@),
            Err(e) => spec_doc_header(name@, raw@) == Err::<HeaderModel, LoadErrorModel>(e@),
        },
{
    let doc = match parse_toml(raw) {
        Ok(d) => d,
        Err(m) => {
            return Err(CorpusLoaderError::parse_for_path(name, m));
        },
    };
    let h = match section_of(&doc, "header") {
        Err(m) => {
            return Err(CorpusLoaderError::parse_for_path(name, m));
        },
        Ok(None) => {
            return Err(CorpusLoaderError::parse_for_path(name, missing_field("header")));
        },
        Ok(Some(h)) => h,
    };
    let header = match parse_header(h) {
        Ok(hd) => hd,
        Err(m) => {
            return Err(CorpusLoaderError::parse_for_path(name, m));
        },
    };
    Ok((header, doc))
}

/// parses one source as a document of loader `T`, without checking its target.
pub fn parse_aethel_doc<T: TargetedLoader>(name: &str, raw: &str) -> (r: Result<AethelDoc<T>, CorpusLoaderError>)
    ensures
        loaded_view(r) == spec_aethel_doc::<T>(name@, raw@),
{
    let (header, doc) = read_doc_header(name, raw)?;
    match T::parse_body(&doc) {
        Ok(data) => Ok(AethelDoc { header, data }),
        Err(m) => Err(CorpusLoaderError::parse_for_path(name, m)),
    }
}

/// parses one source as a document of loader `T` and checks that its header
/// names `T`'s target.
pub fn load_str<T: TargetedLoader>(name: &str, raw: &str) -> (r: Result<AethelDoc<T>, CorpusLoaderError>)
    ensures
        loaded_view(r) == spec_load::<T>(name@, raw@),
{
    let parsed = parse_aethel_doc::<T>(name, raw)?;
    let expected = T::target();
    if parsed.header.target != expected {
        return Err(CorpusLoaderError::TargetMismatch {
            expected: owned(expected.as_str()),
            found: owned(parsed.header.target.as_str()),
        });
    }
    Ok(parsed)
}

/// the load of a file whose read gave `contents`: the text, or the
/// rendered io error.
pub open spec fn spec_load_file<T: TargetedLoader>(path: Seq<char>, contents: Result<Seq<char>, Seq<char>>) -> Result<AethelDocModel<T::V>, LoadErrorModel> {
    match contents {
        Err(m) => Err(LoadErrorModel::Read { path: Some(path), source: m }),
        Ok(raw) => spec_load::<T>(path, raw),
    }
}

/// the view of a read outcome.
pub open spec fn read_view(r: Result<String, String>) -> Result<Seq<char>, Seq<char>> {
    match r {
        Ok(s) => Ok(s@),
        Err(e) => Err(e@),
    }
}

/// loads the file at `path`, whose read gave `contents`, as a document of
/// loader `T`.
pub fn load_file<T: TargetedLoader>(path: &str, contents: Result<String, String>) -> (r: Result<AethelDoc<T>, CorpusLoaderError>)
    ensures
        loaded_view(r) == spec_load_file::<T>(path@, read_view(contents)),
{
    match contents {
        Err(m) => Err(CorpusLoaderError::read_for_path(path, m)),
        Ok(raw) => load_str::<T>(path, raw.as_str()),
    }
}

// ─── corpus loading ──────────────────────────────────────────────────────────

/// the queued form of each source.
pub open spec fn pending_view(s: Seq<PendingSource>) -> Seq<PendingModel> {
    s.map_values(|p: PendingSource| p@)
}

/// the options that an optional override leaves in force.
pub open spec fn options_or_default(opts: Option<LoadOptions>) -> LoadOptions {
    match opts {
        Some(o) => o,
        None => LoadOptions { identical_title_allowed: true, skip_source_with_target_mismatch: false },
    }
}

/// loads one or more sources for `target` and assembles them into a [`Corpus`].
///
/// a single-source load is just a one-element slice; each source is the text
/// of a file or the error its read gave.
pub fn load_files(sources: &[PendingSource], target: &str, opts: Option<LoadOptions>) -> (r: Result<Corpus, CorpusLoaderError>)
    ensures
        sources@.len() == 0 ==> (r matches Err(e) && e@ == LoadErrorModel::InvalidInput(no_sources_message())),
        sources@.len() > 0 ==> built_view(r) == assemble(target@, options_or_default(opts), pending_view(sources@)),
        r matches Ok(c) ==> c.target@ == target@,
{
    let mut builder = Corpus::builder(target);
    match opts {
        Some(o) => {
            builder = builder.with_options(o);
        },
        None => {},
    }
    let mut i: usize = 0;
    while i < sources.len()
        invariant
            i <= sources@.len(),
            builder@.target == target@,
            builder@.opts == options_or_default(opts),
            builder@.validator is None,
            builder@.pending == pending_view(sources@).take(i as int),
        decreases sources@.len() - i,
    {
        let ghost prev = builder@.pending;
        match &sources[i] {
            PendingSource::Str { name, raw } => {
                builder = builder.add_str(name.as_str(), raw.as_str());
            },
            PendingSource::Unreadable { path, message } => {
                builder = builder.add_unreadable(path.as_str(), message.as_str());
            },
        }
        proof {
            assert(builder@.pending =~= pending_view(sources@).take(i as int + 1));
        }
        i = i + 1;
    }
    proof {
        assert(pending_view(sources@).take(sources@.len() as int) =~= pending_view(sources@));
    }
    builder.build()
}

} // verus!

verus! {

/// loads one or more sources for `target` using a custom validation hook; a
/// rejection by the hook is the only way its outcome differs from [`load_files`].
pub fn load_files_with_validator(
    sources: &[PendingSource],
    target: &str,
    opts: Option<LoadOptions>,
    validator: Box<dyn LoadValidator>,
) -> (r: Result<Corpus, CorpusLoaderError>)
    ensures
        sources@.len() == 0 ==> (r matches Err(e) && e@ == LoadErrorModel::InvalidInput(no_sources_message())),
        sources@.len() > 0 && r is Ok ==> built_view(r) == assemble(target@, options_or_default(opts), pending_view(sources@)),
        sources@.len() > 0 && assemble(target@, options_or_default(opts), pending_view(sources@)) is Err ==> r is Err,
{
    let mut builder = Corpus::builder(target).with_validator(validator);
    match opts {
        Some(o) => {
            builder = builder.with_options(o);
        },
        None => {},
    }
    let mut i: usize = 0;
    while i < sources.len()
        invariant
            i <= sources@.len(),
            builder@.target == target@,
            builder@.opts == options_or_default(opts),
            builder@.pending == pending_view(sources@).take(i as int),
        decreases sources@.len() - i,
    {
        match &sources[i] {
            PendingSource::Str { name, raw } => {
                builder = builder.add_str(name.as_str(), raw.as_str());
            },
            PendingSource::Unreadable { path, message } => {
                builder = builder.add_unreadable(path.as_str(), message.as_str());
            },
        }
        proof {
            assert(builder@.pending =~= pending_view(sources@).take(i as int + 1));
        }
        i = i + 1;
    }
    proof {
        assert(pending_view(sources@).take(sources@.len() as int) =~= pending_view(sources@));
    }
    builder.build()
}

} // verus!
