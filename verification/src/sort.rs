//! Sorting support: the binary-heap helper of the merge path and the sort
//! plan node's output schema.

use vstd::prelude::*;
use crate::batch::DataType;
use crate::batch::clone_data_type;
use crate::error::ErrorCodes;
use crate::schema::DataField;
use crate::schema::DataSchema;
use crate::schema::clone_data_field;
use crate::text::dec_digits;
use crate::text::u64_to_dec_string;

verus! {

/// A binary max-heap of keys, kept as the usual array layout: the parent of
/// slot `i` is slot `(i-1)/2`, and every parent is at least its children.
pub struct BinaryMaxHeap {
    pub data: Vec<u64>,
}

/// The array is heap-ordered.
pub open spec fn heap_wf(s: Seq<u64>) -> bool {
    forall|i: int| 1 <= i < s.len() ==> s[(i - 1) / 2] >= #[trigger] s[i]
}

/// In a heap of two or more keys, every key below the root is at most the
/// bigger of the root's two children.
pub proof fn lemma_children_bound_all(s: Seq<u64>, j: int)
    requires
        heap_wf(s),
        s.len() >= 2,
        1 <= j < s.len(),
    ensures
        s[j] <= s[1] || (s.len() > 2 && s[j] <= s[2]),
    decreases j,
{
    if j >= 3 {
        let p = (j - 1) / 2;
        assert(s[p] >= s[j]);
        lemma_children_bound_all(s, p);
    }
}

impl BinaryMaxHeap {
    /// Wraps an array that is already heap-ordered; an array that is not
    /// is refused.
    pub fn from_vec(data: Vec<u64>) -> (r: Result<BinaryMaxHeap, ErrorCodes>)
        ensures
            r.is_ok() == heap_wf(data@),
            r matches Ok(h) ==> h.data == data,
    {
        let n = data.len();
        if n < 2 {
            proof {
                assert(heap_wf(data@));
            }
            return Ok(BinaryMaxHeap { data });
        }
        for i in 1..n
            invariant
                n == data@.len(),
                forall|j: int| 1 <= j < i ==> data@[(j - 1) / 2] >= #[trigger] data@[j],
        {
            if data[(i - 1) / 2] < data[i] {
                return Err(ErrorCodes::BadArguments("not heap ordered".to_owned()));
            }
        }
        Ok(BinaryMaxHeap { data })
    }

    /// The number of keys.
    pub fn len(&self) -> (r: usize)
        ensures
            r == self.data@.len(),
    {
        self.data.len()
    }

    /// The keys in array order.
    pub fn as_slice(&self) -> (r: &[u64])
        ensures
            r@ == self.data@,
    {
        self.data.as_slice()
    }
}

/// The bigger child of the root of the heap: the largest key below the
/// root, which the merge path compares the root's successor against.
pub fn find_bigger_child_of_root(heap: &BinaryMaxHeap) -> (r: u64)
    requires
        heap.data@.len() >= 2,
        heap_wf(heap.data@),
    ensures
        heap.data@.len() == 2 ==> r == heap.data@[1],
        heap.data@.len() > 2 ==> r == (if heap.data@[1] >= heap.data@[2] {
            heap.data@[1]
        } else {
            heap.data@[2]
        }),
        forall|j: int| 1 <= j < heap.data@.len() ==> r >= #[trigger] heap.data@[j],
{
    let slice = heap.as_slice();
    let r = if heap.len() == 2 {
        slice[1]
    } else {
        if slice[1] >= slice[2] {
            slice[1]
        } else {
            slice[2]
        }
    };
    proof {
        assert forall|j: int| 1 <= j < heap.data@.len() implies r >= #[trigger] heap.data@[j] by {
            lemma_children_bound_all(heap.data@, j);
        }
    }
    r
}

/// One sort key of a sort plan.
#[derive(Clone, Copy, PartialEq, Eq, Structural, Debug)]
pub struct SortDesc {
    pub asc: bool,
    pub nulls_first: bool,
    pub order_by: u64,
}

/// Statistics carried for display.
#[derive(Clone, Copy, PartialEq, Eq, Structural, Debug)]
pub struct PlanStatsInfo {
    pub estimated_rows: u64,
}

/// The sort plan node.
pub struct Sort {
    pub plan_id: u32,
    pub order_by: Vec<SortDesc>,
    pub limit: Option<usize>,
    pub after_exchange: Option<bool>,
    pub pre_projection: Option<Vec<u64>>,
    pub stat_info: Option<PlanStatsInfo>,
}

/// The fields a pre-projection keeps: the fields named by the first `upto`
/// indices, in index-list order, skipping names the schema lacks.
pub open spec fn projected_fields(schema: DataSchema, proj: Seq<u64>, upto: int) -> Seq<DataField>
    decreases upto,
{
    if upto <= 0 {
        Seq::empty()
    } else {
        let rest = projected_fields(schema, proj, upto - 1);
        let name = dec_digits(proj[upto - 1] as nat);
        if schema.spec_has_field(name) {
            rest.push(schema.fields@[schema.spec_field_index(name)])
        } else {
            rest
        }
    }
}

impl Sort {
    /// The type of the single order column, when the sort has exactly one
    /// key whose field is a number, date, timestamp or text; any other
    /// shape orders by a rendered text key.
    pub open spec fn order_col_type_spec(&self, schema: DataSchema) -> DataType {
        if self.order_by@.len() == 1 && schema.spec_has_field(
            dec_digits(self.order_by@[0].order_by as nat),
        ) {
            let f = schema.fields@[schema.spec_field_index(
                dec_digits(self.order_by@[0].order_by as nat),
            )];
            if f.data_type is Number || f.data_type is Date || f.data_type is Timestamp
                || f.data_type is Text {
                f.data_type
            } else {
                DataType::Text
            }
        } else {
            DataType::Text
        }
    }

    /// Computes the order column's type against the input schema. With one
    /// sort key the named field must exist.
    fn order_col_type(&self, schema: &DataSchema) -> (r: Result<DataType, ErrorCodes>)
        ensures
            r.is_err() == (self.order_by@.len() == 1 && !schema.spec_has_field(
                dec_digits(self.order_by@[0].order_by as nat),
            )),
            r matches Ok(t) ==> t == self.order_col_type_spec(*schema),
    {
        if self.order_by.len() == 1 {
            let name = u64_to_dec_string(self.order_by[0].order_by);
            match schema.field_with_name(name.as_str()) {
                Option::Some(field) => {
                    let keep = match &field.data_type {
                        DataType::Number(_) => true,
                        DataType::Date => true,
                        DataType::Timestamp => true,
                        DataType::Text => true,
                        _ => false,
                    };
                    if keep {
                        proof {
                            let idx = schema.spec_field_index(
                                dec_digits(self.order_by@[0].order_by as nat),
                            );
                            assert(schema.fields@[idx].name@ == dec_digits(
                                self.order_by@[0].order_by as nat,
                            ));
                        }
                        return Ok(clone_data_type(&field.data_type));
                    }
                    Ok(DataType::Text)
                },
                Option::None => Err(
                    ErrorCodes::BadArguments("order by field does not exist".to_owned()),
                ),
            }
        } else {
            Ok(DataType::Text)
        }
    }

    /// The output schema of the sort. After the exchange stage the trailing
    /// order column is dropped; before it, a pre-projection may narrow the
    /// fields and the order column is appended.
    pub fn output_schema(&self, input_schema: &DataSchema) -> (r: Result<DataSchema, ErrorCodes>)
        ensures
            ({
                let fields0 = input_schema.fields@;
                &&& self.after_exchange == Option::Some(true) ==> (r matches Ok(s) && s.fields@
                    == (if fields0.len() > 0 {
                        fields0.drop_last()
                    } else {
                        fields0
                    }))
                &&& self.after_exchange != Option::Some(true) ==> {
                    let projected = match self.pre_projection {
                        Option::Some(proj) => {
                            let p = projected_fields(*input_schema, proj@, proj@.len() as int);
                            if p.len() < fields0.len() {
                                p
                            } else {
                                fields0
                            }
                        },
                        Option::None => fields0,
                    };
                    &&& r.is_err() == (self.after_exchange == Option::Some(false)
                        && self.order_by@.len() == 1 && !input_schema.spec_has_field(
                        dec_digits(self.order_by@[0].order_by as nat),
                    ))
                    &&& self.after_exchange == Option::Some(false) ==> (r matches Ok(s) ==> {
                        &&& s.fields@.len() == projected.len() + 1
                        &&& s.fields@.subrange(0, projected.len() as int) == projected
                        &&& s.fields@.last().name@ == "_order_col"@
                        &&& s.fields@.last().data_type == self.order_col_type_spec(*input_schema)
                    })
                    &&& self.after_exchange is None ==> (r matches Ok(s) && s.fields@ == projected)
                }
            }),
    {
        let mut fields: Vec<DataField> = Vec::new();
        let nf = input_schema.fields.len();
        for i in 0..nf
            invariant
                nf == input_schema.fields@.len(),
                fields@ =~= input_schema.fields@.subrange(0, i as int),
        {
            fields.push(clone_data_field(&input_schema.fields[i]));
            proof {
                assert(fields@ =~= input_schema.fields@.subrange(0, i as int + 1));
            }
        }
        proof {
            assert(fields@ =~= input_schema.fields@);
        }

        let after_exchange_true = match &self.after_exchange {
            Option::Some(b) => *b,
            Option::None => false,
        };
        let after_exchange_some = self.after_exchange.is_some();

        if after_exchange_some && after_exchange_true {
            // After the exchange the order column sits last; drop it. An
            // empty schema stays empty.
            fields.pop();
            proof {
                if input_schema.fields@.len() > 0 {
                    assert(fields@ =~= input_schema.fields@.drop_last());
                }
            }
            return Ok(DataSchema { fields });
        }

        match &self.pre_projection {
            Option::Some(proj) => {
                let mut filtered: Vec<DataField> = Vec::new();
                let np = proj.len();
                for i in 0..np
                    invariant
                        np == proj@.len(),
                        filtered@ =~= projected_fields(*input_schema, proj@, i as int),
                {
                    let name = u64_to_dec_string(proj[i]);
                    match input_schema.field_with_name(name.as_str()) {
                        Option::Some(f) => {
                            proof {
                                let idx = input_schema.spec_field_index(
                                    dec_digits(proj@[i as int] as nat),
                                );
                                assert(input_schema.fields@[idx].name@ == dec_digits(
                                    proj@[i as int] as nat,
                                ));
                            }
                            filtered.push(clone_data_field(f));
                        },
                        Option::None => {},
                    }
                    proof {
                        assert(filtered@ =~= projected_fields(
                            *input_schema,
                            proj@,
                            i as int + 1,
                        ));
                    }
                }
                if filtered.len() < fields.len() {
                    fields = filtered;
                }
            },
            Option::None => {},
        }

        if after_exchange_some && !after_exchange_true {
            let t = match self.order_col_type(input_schema) {
                Result::Ok(t) => t,
                Result::Err(e) => {
                    return Err(e);
                },
            };
            fields.push(DataField { name: "_order_col".to_owned(), data_type: t });
        }

        Ok(DataSchema { fields })
    }
}

} // verus!
