//! weapon-target loader schema and parsing helpers.

use vstd::prelude::*;

use crate::loader::{copy_opt_list, opt_model, section_of, spec_section, Target, TargetedLoader};
use crate::toml_model::{
    fields_view, get_optional_string_list, opt_list_view, optional_string_list, FieldShape,
    ItemShape, TomlDocument, TomlField,
};

verus! {

#[derive(Debug, Clone)]
/// weapon body sections loaded from a weapon-target toml document.
pub struct WeaponLoader {
    /// optional name generation section.
    pub name: Option<WeaponNameSection>,
    /// optional weapon type section (the `[type]` table).
    pub weapon_type: Option<WeaponTypeSection>,
    /// optional quality section.
    pub qualities: Option<WeaponQualitiesSection>,
    /// optional lore section.
    pub lore: Option<WeaponLoreSection>,
    /// optional visual description section.
    pub visuals: Option<WeaponVisualSection>,
}

#[derive(Debug, Clone)]
/// values used to compose generated weapon names.
pub struct WeaponNameSection {
    /// optional name prefixes.
    pub prefix: Option<Vec<String>>,
    /// optional name suffixes.
    pub suffix: Option<Vec<String>>,
    /// optional primitive fragments for synthetic names.
    pub primitives: Option<Vec<String>>,
}

#[derive(Debug, Clone)]
/// available weapon base types.
pub struct WeaponTypeSection {
    /// optional weapon type list (the `type` key).
    pub types: Option<Vec<String>>,
}

#[derive(Debug, Clone)]
/// quality-related attributes for generated weapons.
pub struct WeaponQualitiesSection {
    /// optional rarity labels.
    pub rarity: Option<Vec<String>>,
    /// optional condition labels.
    pub condition: Option<Vec<String>>,
}

#[derive(Debug, Clone)]
/// lore templates and lore source values.
pub struct WeaponLoreSection {
    /// optional creator fragments.
    pub creators: Option<Vec<String>>,
    /// optional deed fragments.
    pub deeds: Option<Vec<String>>,
    /// optional quirk fragments.
    pub quirks: Option<Vec<String>>,
    /// optional lore sentence templates.
    pub templates: Option<Vec<String>>,
}

#[derive(Debug, Clone)]
/// visual templates and visual source values.
pub struct WeaponVisualSection {
    /// optional material options.
    pub materials: Option<Vec<String>>,
    /// optional colour options.
    pub colours: Option<Vec<String>>,
    /// optional accent options.
    pub accents: Option<Vec<String>>,
    /// optional visual feature options.
    pub features: Option<Vec<String>>,
    /// optional visual sentence templates.
    pub templates: Option<Vec<String>>,
}

/// an optional list of strings, abstractly.
pub type ListModel = Option<Seq<Seq<char>>>;

/// the abstract value of a [`WeaponNameSection`].
pub struct WeaponNameModel {
    pub prefix: ListModel,
    pub suffix: ListModel,
    pub primitives: ListModel,
}

/// the abstract value of a [`WeaponTypeSection`].
pub struct WeaponTypeModel {
    pub types: ListModel,
}

/// the abstract value of a [`WeaponQualitiesSection`].
pub struct WeaponQualitiesModel {
    pub rarity: ListModel,
    pub condition: ListModel,
}

/// the abstract value of a [`WeaponLoreSection`].
pub struct WeaponLoreModel {
    pub creators: ListModel,
    pub deeds: ListModel,
    pub quirks: ListModel,
    pub templates: ListModel,
}

/// the abstract value of a [`WeaponVisualSection`].
pub struct WeaponVisualModel {
    pub materials: ListModel,
    pub colours: ListModel,
    pub accents: ListModel,
    pub features: ListModel,
    pub templates: ListModel,
}

/// the abstract value of a [`WeaponLoader`].
pub struct WeaponModel {
    pub name: Option<WeaponNameModel>,
    pub weapon_type: Option<WeaponTypeModel>,
    pub qualities: Option<WeaponQualitiesModel>,
    pub lore: Option<WeaponLoreModel>,
    pub visuals: Option<WeaponVisualModel>,
}

impl View for WeaponNameSection {
    type V = WeaponNameModel;

    open spec fn view(&self) -> WeaponNameModel {
        WeaponNameModel {
            prefix: opt_list_view(self.prefix),
            suffix: opt_list_view(self.suffix),
            primitives: opt_list_view(self.primitives),
        }
    }
}

impl View for WeaponTypeSection {
    type V = WeaponTypeModel;

    open spec fn view(&self) -> WeaponTypeModel {
        WeaponTypeModel { types: opt_list_view(self.types) }
    }
}

impl View for WeaponQualitiesSection {
    type V = WeaponQualitiesModel;

    open spec fn view(&self) -> WeaponQualitiesModel {
        WeaponQualitiesModel { rarity: opt_list_view(self.rarity), condition: opt_list_view(self.condition) }
    }
}

impl View for WeaponLoreSection {
    type V = WeaponLoreModel;

    open spec fn view(&self) -> WeaponLoreModel {
        WeaponLoreModel {
            creators: opt_list_view(self.creators),
            deeds: opt_list_view(self.deeds),
            quirks: opt_list_view(self.quirks),
            templates: opt_list_view(self.templates),
        }
    }
}

impl View for WeaponVisualSection {
    type V = WeaponVisualModel;

    open spec fn view(&self) -> WeaponVisualModel {
        WeaponVisualModel {
            materials: opt_list_view(self.materials),
            colours: opt_list_view(self.colours),
            accents: opt_list_view(self.accents),
            features: opt_list_view(self.features),
            templates: opt_list_view(self.templates),
        }
    }
}

impl View for WeaponLoader {
    type V = WeaponModel;

    open spec fn view(&self) -> WeaponModel {
        WeaponModel {
            name: opt_model(self.name),
            weapon_type: opt_model(self.weapon_type),
            qualities: opt_model(self.qualities),
            lore: opt_model(self.lore),
            visuals: opt_model(self.visuals),
        }
    }
}



/// the `[name]` table's lists, or the message of the first bad one.
pub open spec fn spec_weapon_name(t: Seq<(Seq<char>, FieldShape)>) -> Result<WeaponNameModel, Seq<char>> {
    match optional_string_list(t, "prefix"@) {
        Err(m) => Err(m),
        Ok(prefix) => match optional_string_list(t, "suffix"@) {
            Err(m) => Err(m),
            Ok(suffix) => match optional_string_list(t, "primitives"@) {
                Err(m) => Err(m),
                Ok(primitives) => Ok(WeaponNameModel { prefix, suffix, primitives }),
            },
        },
    }
}

/// the `[type]` table's lists, or the message of the first bad one.
pub open spec fn spec_weapon_type(t: Seq<(Seq<char>, FieldShape)>) -> Result<WeaponTypeModel, Seq<char>> {
    match optional_string_list(t, "type"@) {
        Err(m) => Err(m),
        Ok(types) => Ok(WeaponTypeModel { types }),
    }
}

/// the `[qualities]` table's lists, or the message of the first bad one.
pub open spec fn spec_weapon_qualities(t: Seq<(Seq<char>, FieldShape)>) -> Result<WeaponQualitiesModel, Seq<char>> {
    match optional_string_list(t, "rarity"@) {
        Err(m) => Err(m),
        Ok(rarity) => match optional_string_list(t, "condition"@) {
            Err(m) => Err(m),
            Ok(condition) => Ok(WeaponQualitiesModel { rarity, condition }),
        },
    }
}

/// the `[lore]` table's lists, or the message of the first bad one.
pub open spec fn spec_weapon_lore(t: Seq<(Seq<char>, FieldShape)>) -> Result<WeaponLoreModel, Seq<char>> {
    match optional_string_list(t, "creators"@) {
        Err(m) => Err(m),
        Ok(creators) => match optional_string_list(t, "deeds"@) {
            Err(m) => Err(m),
            Ok(deeds) => match optional_string_list(t, "quirks"@) {
                Err(m) => Err(m),
                Ok(quirks) => match optional_string_list(t, "templates"@) {
                    Err(m) => Err(m),
                    Ok(templates) => Ok(WeaponLoreModel { creators, deeds, quirks, templates }),
                },
            },
        },
    }
}

/// the `[visuals]` table's lists, or the message of the first bad one.
pub open spec fn spec_weapon_visuals(t: Seq<(Seq<char>, FieldShape)>) -> Result<WeaponVisualModel, Seq<char>> {
    match optional_string_list(t, "materials"@) {
        Err(m) => Err(m),
        Ok(materials) => match optional_string_list(t, "colours"@) {
            Err(m) => Err(m),
            Ok(colours) => match optional_string_list(t, "accents"@) {
                Err(m) => Err(m),
                Ok(accents) => match optional_string_list(t, "features"@) {
                    Err(m) => Err(m),
                    Ok(features) => match optional_string_list(t, "templates"@) {
                        Err(m) => Err(m),
                        Ok(templates) => Ok(WeaponVisualModel { materials, colours, accents, features, templates }),
                    },
                },
            },
        },
    }
}

/// the optional `[name]` section of a document.
pub open spec fn weapon_name_part(es: Seq<(Seq<char>, ItemShape)>) -> Result<Option<WeaponNameModel>, Seq<char>> {
    match spec_section(es, "name"@) {
        Err(m) => Err(m),
        Ok(None) => Ok(None),
        Ok(Some(t)) => match spec_weapon_name(t) {
            Err(m) => Err(m),
            Ok(v) => Ok(Some(v)),
        },
    }
}

/// the optional `[type]` section of a document.
pub open spec fn weapon_type_part(es: Seq<(Seq<char>, ItemShape)>) -> Result<Option<WeaponTypeModel>, Seq<char>> {
    match spec_section(es, "type"@) {
        Err(m) => Err(m),
        Ok(None) => Ok(None),
        Ok(Some(t)) => match spec_weapon_type(t) {
            Err(m) => Err(m),
            Ok(v) => Ok(Some(v)),
        },
    }
}

/// the optional `[qualities]` section of a document.
pub open spec fn weapon_qualities_part(es: Seq<(Seq<char>, ItemShape)>) -> Result<Option<WeaponQualitiesModel>, Seq<char>> {
    match spec_section(es, "qualities"@) {
        Err(m) => Err(m),
        Ok(None) => Ok(None),
        Ok(Some(t)) => match spec_weapon_qualities(t) {
            Err(m) => Err(m),
            Ok(v) => Ok(Some(v)),
        },
    }
}

/// the optional `[lore]` section of a document.
pub open spec fn weapon_lore_part(es: Seq<(Seq<char>, ItemShape)>) -> Result<Option<WeaponLoreModel>, Seq<char>> {
    match spec_section(es, "lore"@) {
        Err(m) => Err(m),
        Ok(None) => Ok(None),
        Ok(Some(t)) => match spec_weapon_lore(t) {
            Err(m) => Err(m),
            Ok(v) => Ok(Some(v)),
        },
    }
}

/// the optional `[visuals]` section of a document.
pub open spec fn weapon_visuals_part(es: Seq<(Seq<char>, ItemShape)>) -> Result<Option<WeaponVisualModel>, Seq<char>> {
    match spec_section(es, "visuals"@) {
        Err(m) => Err(m),
        Ok(None) => Ok(None),
        Ok(Some(t)) => match spec_weapon_visuals(t) {
            Err(m) => Err(m),
            Ok(v) => Ok(Some(v)),
        },
    }
}

/// the weapon body of a document (sections read in the order name, type,
/// qualities, lore, visuals); other top-level entries are ignored.
pub open spec fn spec_weapon_body(es: Seq<(Seq<char>, ItemShape)>) -> Result<WeaponModel, Seq<char>> {
    match weapon_name_part(es) {
        Err(m) => Err(m),
        Ok(name) => match weapon_type_part(es) {
            Err(m) => Err(m),
            Ok(weapon_type) => match weapon_qualities_part(es) {
                Err(m) => Err(m),
                Ok(qualities) => match weapon_lore_part(es) {
                    Err(m) => Err(m),
                    Ok(lore) => match weapon_visuals_part(es) {
                        Err(m) => Err(m),
                        Ok(visuals) => Ok(WeaponModel { name, weapon_type, qualities, lore, visuals }),
                    },
                },
            },
        },
    }
}

fn read_name(doc: &TomlDocument) -> (r: Result<Option<WeaponNameSection>, String>)
    ensures
        match (r, weapon_name_part(doc@)) {
            (Ok(a), Ok(b)) => opt_model(a) == b,
            (Err(a), Err(b)) => a@ == b,
            _ => false,
        },
{
    match section_of(doc, "name")? {
        None => Ok(None),
        Some(t) => {
            let prefix = get_optional_string_list(t, "prefix")?;
            let suffix = get_optional_string_list(t, "suffix")?;
            let primitives = get_optional_string_list(t, "primitives")?;
            Ok(Some(WeaponNameSection { prefix, suffix, primitives }))
        },
    }
}

fn read_type(doc: &TomlDocument) -> (r: Result<Option<WeaponTypeSection>, String>)
    ensures
        match (r, weapon_type_part(doc@)) {
            (Ok(a), Ok(b)) => opt_model(a) == b,
            (Err(a), Err(b)) => a@ == b,
            _ => false,
        },
{
    match section_of(doc, "type")? {
        None => Ok(None),
        Some(t) => {
            let types = get_optional_string_list(t, "type")?;
            Ok(Some(WeaponTypeSection { types }))
        },
    }
}

fn read_qualities(doc: &TomlDocument) -> (r: Result<Option<WeaponQualitiesSection>, String>)
    ensures
        match (r, weapon_qualities_part(doc@)) {
            (Ok(a), Ok(b)) => opt_model(a) == b,
            (Err(a), Err(b)) => a@ == b,
            _ => false,
        },
{
    match section_of(doc, "qualities")? {
        None => Ok(None),
        Some(t) => {
            let rarity = get_optional_string_list(t, "rarity")?;
            let condition = get_optional_string_list(t, "condition")?;
            Ok(Some(WeaponQualitiesSection { rarity, condition }))
        },
    }
}

fn read_lore(doc: &TomlDocument) -> (r: Result<Option<WeaponLoreSection>, String>)
    ensures
        match (r, weapon_lore_part(doc@)) {
            (Ok(a), Ok(b)) => opt_model(a) == b,
            (Err(a), Err(b)) => a@ == b,
            _ => false,
        },
{
    match section_of(doc, "lore")? {
        None => Ok(None),
        Some(t) => {
            let creators = get_optional_string_list(t, "creators")?;
            let deeds = get_optional_string_list(t, "deeds")?;
            let quirks = get_optional_string_list(t, "quirks")?;
            let templates = get_optional_string_list(t, "templates")?;
            Ok(Some(WeaponLoreSection { creators, deeds, quirks, templates }))
        },
    }
}

fn read_visuals(doc: &TomlDocument) -> (r: Result<Option<WeaponVisualSection>, String>)
    ensures
        match (r, weapon_visuals_part(doc@)) {
            (Ok(a), Ok(b)) => opt_model(a) == b,
            (Err(a), Err(b)) => a@ == b,
            _ => false,
        },
{
    match section_of(doc, "visuals")? {
        None => Ok(None),
        Some(t) => {
            let materials = get_optional_string_list(t, "materials")?;
            let colours = get_optional_string_list(t, "colours")?;
            let accents = get_optional_string_list(t, "accents")?;
            let features = get_optional_string_list(t, "features")?;
            let templates = get_optional_string_list(t, "templates")?;
            Ok(Some(WeaponVisualSection { materials, colours, accents, features, templates }))
        },
    }
}

impl TargetedLoader for WeaponLoader {
    open spec fn target_spec() -> Target {
        Target::Weapon
    }

    open spec fn body_spec(es: Seq<(Seq<char>, ItemShape)>) -> Result<WeaponModel, Seq<char>> {
        spec_weapon_body(es)
    }

    fn target() -> (t: Target) {
        Target::Weapon
    }

    fn parse_body(doc: &TomlDocument) -> (r: Result<Self, String>) {
        let name = read_name(doc)?;
        let weapon_type = read_type(doc)?;
        let qualities = read_qualities(doc)?;
        let lore = read_lore(doc)?;
        let visuals = read_visuals(doc)?;
        Ok(WeaponLoader { name, weapon_type, qualities, lore, visuals })
    }

    fn duplicate(&self) -> (r: Self) {
        WeaponLoader {
            name: match &self.name {
                Some(s) => Some(WeaponNameSection {
                    prefix: copy_opt_list(&s.prefix),
                    suffix: copy_opt_list(&s.suffix),
                    primitives: copy_opt_list(&s.primitives),
                }),
                None => None,
            },
            weapon_type: match &self.weapon_type {
                Some(s) => Some(WeaponTypeSection { types: copy_opt_list(&s.types) }),
                None => None,
            },
            qualities: match &self.qualities {
                Some(s) => Some(WeaponQualitiesSection {
                    rarity: copy_opt_list(&s.rarity),
                    condition: copy_opt_list(&s.condition),
                }),
                None => None,
            },
            lore: match &self.lore {
                Some(s) => Some(WeaponLoreSection {
                    creators: copy_opt_list(&s.creators),
                    deeds: copy_opt_list(&s.deeds),
                    quirks: copy_opt_list(&s.quirks),
                    templates: copy_opt_list(&s.templates),
                }),
                None => None,
            },
            visuals: match &self.visuals {
                Some(s) => Some(WeaponVisualSection {
                    materials: copy_opt_list(&s.materials),
                    colours: copy_opt_list(&s.colours),
                    accents: copy_opt_list(&s.accents),
                    features: copy_opt_list(&s.features),
                    templates: copy_opt_list(&s.templates),
                }),
                None => None,
            },
        }
    }
}

impl WeaponLoader {
    /// loads the weapon file at `path`, whose read gave `contents` (the text
    /// or the rendered io error), and validates its target header.
    pub fn from_file(path: &str, contents: Result<String, String>) -> (r: Result<crate::loader::AethelDoc<Self>, crate::loader::LoaderError>)
        ensures
            crate::loader::loaded_view(r) == crate::loader::spec_load_file::<WeaponLoader>(path@, crate::loader::read_view(contents)),
    {
        crate::loader::load_file::<WeaponLoader>(path, contents)
    }
}

} // verus!
