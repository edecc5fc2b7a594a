//! Per-field capabilities of a workspace, used to validate report specs.
use vstd::prelude::*;
use crate::text::str_eq;

verus! {

/// Semantic type of a field.
#[derive(Debug, Clone, Copy, PartialEq, Eq, Structural)]
pub enum FieldType {
    String,
    StringArray,
    Number,
    Date,
    Enum,
    Bool,
}

/// What a field is and what a spec may do with it.
#[derive(Debug, Clone, Copy, PartialEq, Eq, Structural)]
pub struct FieldDef {
    pub field_type: FieldType,
    pub selectable: bool,
    pub filterable: bool,
    pub sortable: bool,
}

/// One named entry of the catalog.
#[derive(Debug, Clone)]
pub struct FieldEntry {
    pub name: String,
    pub def: FieldDef,
}

/// The field catalog of one workspace; where a name occurs twice the first
/// entry counts.
#[derive(Debug, Clone)]
pub struct WorkspaceSchema {
    pub workspace: String,
    pub fields: Vec<FieldEntry>,
}

pub struct CatalogView {
    pub workspace: Seq<char>,
    pub fields: Seq<(Seq<char>, FieldDef)>,
}

impl View for WorkspaceSchema {
    type V = CatalogView;

    open spec fn view(&self) -> CatalogView {
        CatalogView {
            workspace: self.workspace@,
            fields: self.fields@.map_values(|e: FieldEntry| (e.name@, e.def)),
        }
    }
}

/// The definition of the first entry named `field`.
pub open spec fn lookup_field(fields: Seq<(Seq<char>, FieldDef)>, field: Seq<char>) -> Option<FieldDef>
    decreases fields.len(),
{
    if fields.len() == 0 {
        None
    } else if fields[0].0 == field {
        Some(fields[0].1)
    } else {
        lookup_field(fields.skip(1), field)
    }
}

impl WorkspaceSchema {
    /// The definition of `field`, if the catalog has it.
    pub fn lookup(&self, field: &str) -> (r: Option<FieldDef>)
        ensures
            r == lookup_field(self@.fields, field@),
    {
        let ghost fs = self@.fields;
        let mut i: usize = 0;
        assert(fs.skip(0) =~= fs);
        while i < self.fields.len()
            invariant
                fs == self@.fields,
                i <= fs.len(),
                lookup_field(fs, field@) == lookup_field(fs.skip(i as int), field@),
            decreases fs.len() - i,
        {
            assert(fs.skip(i as int)[0] == fs[i as int]);
            if str_eq(self.fields[i].name.as_str(), field) {
                return Some(self.fields[i].def);
            }
            assert(fs.skip(i as int).skip(1) =~= fs.skip(i + 1));
            i += 1;
        }
        None
    }
}

} // verus!
