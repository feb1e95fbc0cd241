//! The code entities a change touches.
use vstd::prelude::*;

use std::ops::RangeInclusive;

use crate::git::diff_parser::Language;

verus! {

/// `uuid::Uuid`, a 128-bit identifier.
#[verifier::external_type_specification]
#[verifier::external_body]
pub struct ExUuid(uuid::Uuid);

/// `Uuid::clone`: `Uuid` is `Copy`, so a clone is the same identifier.
pub assume_specification[ <uuid::Uuid as Clone>::clone ](u: &uuid::Uuid) -> (r: uuid::Uuid)
    ensures
        r == *u,
;

/// A fresh random identifier (`uuid::Uuid::new_v4`); nothing is stated of it.
#[verifier::external_body]
pub(crate) fn new_entity_id() -> uuid::Uuid {
    uuid::Uuid::new_v4()
}

/// One changed code entity.
#[derive(Debug, Clone)]
pub struct EntityChange {
    pub entity_id: uuid::Uuid,
    pub file_path: String,
    pub language: Language,
    pub entity_type: EntityType,
    pub entity_name: String,
    pub fully_qualified_name: String,
    pub change_kind: ChangeKind,
    pub changed_lines: RangeInclusive<u32>,
    pub side_effects: Vec<SideEffect>,
}

/// What kind of entity changed.
#[derive(Debug, Clone, Copy, PartialEq, Eq, Structural)]
pub enum EntityType {
    Function,
    Method,
    Class,
    Module,
    Interface,
    Type,
    Constant,
    Import,
    Export,
    Decorator,
    Attribute,
}

/// How the entity's line changed.
#[derive(Debug, Clone, Copy, PartialEq, Eq, Structural)]
pub enum ChangeKind {
    Added,
    Removed,
    Modified,
}

/// An effect beyond the entity that a changed line shows.
#[derive(Debug, Clone, Copy, PartialEq, Eq, Structural)]
pub enum SideEffect {
    ExternalApiCall,
    GlobalStateRead,
    EnvVarAccess,
}

/// What an entity change holds, as mathematical values (all but its random id).
pub struct EntityView {
    pub file_path: Seq<char>,
    pub language: Language,
    pub entity_type: EntityType,
    pub entity_name: Seq<char>,
    pub fully_qualified_name: Seq<char>,
    pub change_kind: ChangeKind,
    pub changed_start: int,
    pub changed_end: int,
    pub side_effects: Seq<SideEffect>,
}

impl View for EntityChange {
    type V = EntityView;

    open spec fn view(&self) -> EntityView {
        EntityView {
            file_path: self.file_path@,
            language: self.language,
            entity_type: self.entity_type,
            entity_name: self.entity_name@,
            fully_qualified_name: self.fully_qualified_name@,
            change_kind: self.change_kind,
            changed_start: self.changed_lines@.start as int,
            changed_end: self.changed_lines@.end as int,
            side_effects: self.side_effects@,
        }
    }
}

/// The views of a sequence of entity changes.
pub open spec fn entity_views(v: Seq<EntityChange>) -> Seq<EntityView> {
    v.map_values(|e: EntityChange| e@)
}

} // verus!
