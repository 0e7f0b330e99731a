//! person-target loader schema and parsing helpers.

use vstd::prelude::*;

use crate::loader::{copy_opt_list, opt_model, section_of, spec_section, Target, TargetedLoader};
use crate::loader::loader_weapon::ListModel;
use crate::toml_model::{
    get_optional_string_list, opt_list_view, optional_string_list, FieldShape, ItemShape,
    TomlDocument,
};

verus! {

#[derive(Debug, Clone)]
/// person body sections loaded from a person-target toml document.
pub struct PersonLoader {
    /// optional name generation section.
    pub name: Option<PersonNameSection>,
}

#[derive(Debug, Clone)]
/// primitive fragments used to compose generated person names.
pub struct PersonNameSection {
    /// optional first-name primitives.
    pub first: Option<Vec<String>>,
    /// optional middle-name primitives.
    pub middle: Option<Vec<String>>,
    /// optional last-name primitives.
    pub last: Option<Vec<String>>,
}

/// the abstract value of a [`PersonNameSection`].
pub struct PersonNameModel {
    pub first: ListModel,
    pub middle: ListModel,
    pub last: ListModel,
}

/// the abstract value of a [`PersonLoader`].
pub struct PersonModel {
    pub name: Option<PersonNameModel>,
}

impl View for PersonNameSection {
    type V = PersonNameModel;

    open spec fn view(&self) -> PersonNameModel {
        PersonNameModel {
            first: opt_list_view(self.first),
            middle: opt_list_view(self.middle),
            last: opt_list_view(self.last),
        }
    }
}

impl View for PersonLoader {
    type V = PersonModel;

    open spec fn view(&self) -> PersonModel {
        PersonModel { name: opt_model(self.name) }
    }
}

/// the `[name]` table's lists, or the message of the first bad one.
pub open spec fn spec_person_name(t: Seq<(Seq<char>, FieldShape)>) -> Result<PersonNameModel, Seq<char>> {
    match optional_string_list(t, "first"@) {
        Err(m) => Err(m),
        Ok(first) => match optional_string_list(t, "middle"@) {
            Err(m) => Err(m),
            Ok(middle) => match optional_string_list(t, "last"@) {
                Err(m) => Err(m),
                Ok(last) => Ok(PersonNameModel { first, middle, last }),
            },
        },
    }
}

/// the person body of a document; entries other than `[name]` are ignored.
pub open spec fn spec_person_body(es: Seq<(Seq<char>, ItemShape)>) -> Result<PersonModel, Seq<char>> {
    match spec_section(es, "name"@) {
        Err(m) => Err(m),
        Ok(None) => Ok(PersonModel { name: None }),
        Ok(Some(t)) => match spec_person_name(t) {
            Err(m) => Err(m),
            Ok(v) => Ok(PersonModel { name: Some(v) }),
        },
    }
}

impl TargetedLoader for PersonLoader {
    open spec fn target_spec() -> Target {
        Target::Person
    }

    open spec fn body_spec(es: Seq<(Seq<char>, ItemShape)>) -> Result<PersonModel, Seq<char>> {
        spec_person_body(es)
    }

    fn target() -> (t: Target) {
        Target::Person
    }

    fn parse_body(doc: &TomlDocument) -> (r: Result<Self, String>) {
        match section_of(doc, "name")? {
            None => Ok(PersonLoader { name: None }),
            Some(t) => {
                let first = get_optional_string_list(t, "first")?;
                let middle = get_optional_string_list(t, "middle")?;
                let last = get_optional_string_list(t, "last")?;
                Ok(PersonLoader { name: Some(PersonNameSection { first, middle, last }) })
            },
        }
    }

    fn duplicate(&self) -> (r: Self) {
        PersonLoader {
            name: match &self.name {
                Some(s) => Some(PersonNameSection {
                    first: copy_opt_list(&s.first),
                    middle: copy_opt_list(&s.middle),
                    last: copy_opt_list(&s.last),
                }),
                None => None,
            },
        }
    }
}

impl PersonLoader {
    /// loads the person file at `path`, whose read gave `contents` (the text
    /// or the rendered io error), and validates its target header.
    pub fn from_file(path: &str, contents: Result<String, String>) -> (r: Result<crate::loader::AethelDoc<Self>, crate::loader::LoaderError>)
        ensures
            crate::loader::loaded_view(r) == crate::loader::spec_load_file::<PersonLoader>(path@, crate::loader::read_view(contents)),
    {
        crate::loader::load_file::<PersonLoader>(path, contents)
    }
}

} // verus!
