//! Schemas: the named, typed shape of the batches a pipeline stage
//! produces.

use vstd::prelude::*;
use crate::batch::DataType;
use crate::batch::clone_data_type;

verus! {

/// One named, typed field of a schema.
#[derive(PartialEq, Eq, Debug)]
pub struct DataField {
    pub name: String,
    pub data_type: DataType,
}

/// An ordered list of fields.
#[derive(PartialEq, Eq, Debug)]
pub struct DataSchema {
    pub fields: Vec<DataField>,
}

/// Copies one field, preserving it exactly.
pub fn clone_data_field(f: &DataField) -> (r: DataField)
    ensures
        r == f,
{
    DataField { name: f.name.clone(), data_type: clone_data_type(&f.data_type) }
}

/// Copies a schema, preserving every field exactly.
pub fn clone_schema(s: &DataSchema) -> (r: DataSchema)
    ensures
        r.fields@ == s.fields@,
{
    let mut fields: Vec<DataField> = Vec::new();
    let n = s.fields.len();
    for i in 0..n
        invariant
            n == s.fields@.len(),
            fields@ =~= s.fields@.subrange(0, i as int),
    {
        fields.push(clone_data_field(&s.fields[i]));
        proof {
            assert(fields@ =~= s.fields@.subrange(0, i as int + 1));
        }
    }
    proof {
        assert(fields@ =~= s.fields@);
    }
    DataSchema { fields }
}

/// The position of the first field named `name` at or after `from`, or the
/// field count when none is there.
pub open spec fn field_index_from(fields: Seq<DataField>, name: Seq<char>, from: int) -> int
    decreases fields.len() - from,
{
    if from < 0 || from >= fields.len() {
        fields.len() as int
    } else if fields[from].name@ == name {
        from
    } else {
        field_index_from(fields, name, from + 1)
    }
}

impl DataSchema {
    /// The position of the first field with the given name; the field count
    /// when none is there.
    pub open spec fn spec_field_index(&self, name: Seq<char>) -> int {
        field_index_from(self.fields@, name, 0)
    }

    /// Whether some field has the given name.
    pub open spec fn spec_has_field(&self, name: Seq<char>) -> bool {
        self.spec_field_index(name) < self.fields@.len()
    }

    /// Finds the first field with the given name.
    pub fn field_with_name(&self, name: &str) -> (r: Option<&DataField>)
        ensures
            r.is_some() == self.spec_has_field(name@),
            r matches Option::Some(f) ==> *f == self.fields@[self.spec_field_index(name@)]
                && f.name@ == name@,
    {
        let n = self.fields.len();
        for i in 0..n
            invariant
                n == self.fields@.len(),
                field_index_from(self.fields@, name@, 0) == field_index_from(
                    self.fields@,
                    name@,
                    i as int,
                ),
                i <= n,
        {
            if crate::text::str_eq(self.fields[i].name.as_str(), name) {
                return Option::Some(&self.fields[i]);
            }
        }
        Option::None
    }
}

} // verus!
