//! Estimating the heap bytes an in-memory array holds: the sum of its
//! buffers, validity bitmaps and nested children. The array is described by
//! its physical layout, one arm per supported physical type.

use vstd::prelude::*;

verus! {

/// The physical layout of one columnar array: the buffer sizes the
/// estimate reads, with nested children where the type nests.
pub enum ArrayLayout {
    Null,
    Boolean { values_bytes: usize, validity_bytes: usize },
    Primitive { len: usize, elem_size: usize, validity_bytes: usize },
    /// Variable-width bytes or text; offsets may be sliced, so the visible
    /// values span runs from the first to the last offset.
    Binary {
        values_start: usize,
        values_end: usize,
        offsets_len: usize,
        offset_size: usize,
        validity_bytes: usize,
    },
    FixedSizeBinary { values_len: usize, validity_bytes: usize },
    List { child: Box<ArrayLayout>, offsets_len_proxy: usize, offset_size: usize, validity_bytes: usize },
    FixedSizeList { child: Box<ArrayLayout>, validity_bytes: usize },
    Struct { children: Vec<ArrayLayout>, validity_bytes: usize },
    Union { types_len: usize, offsets_len: Option<usize>, children: Vec<ArrayLayout> },
    Dictionary { keys: Box<ArrayLayout>, values: Box<ArrayLayout> },
    MapArray { offsets_len_proxy: usize, child: Box<ArrayLayout>, validity_bytes: usize },
}

/// The bytes of an optional validity bitmap.
pub open spec fn validity_size_spec(validity_bytes: Option<usize>) -> int {
    match validity_bytes {
        Option::Some(b) => b as int,
        Option::None => 0,
    }
}

/// The bytes of an optional validity bitmap: its buffer length, or zero
/// when the array has no bitmap.
pub fn validity_size(validity: Option<&Vec<u8>>) -> (r: usize)
    ensures
        r == match validity {
            Option::Some(b) => b@.len(),
            Option::None => 0,
        },
{
    match validity {
        Option::Some(b) => b.len(),
        Option::None => 0,
    }
}

/// The estimated heap bytes of a layout.
pub open spec fn layout_size(a: ArrayLayout) -> int
    decreases a,
{
    match a {
        ArrayLayout::Null => 0,
        ArrayLayout::Boolean { values_bytes, validity_bytes } => values_bytes + validity_bytes,
        ArrayLayout::Primitive { len, elem_size, validity_bytes } => len * elem_size
            + validity_bytes,
        ArrayLayout::Binary { values_start, values_end, offsets_len, offset_size, validity_bytes } => (
        values_end - values_start) + offsets_len * offset_size + validity_bytes,
        ArrayLayout::FixedSizeBinary { values_len, validity_bytes } => values_len + validity_bytes,
        ArrayLayout::List { child, offsets_len_proxy, offset_size, validity_bytes } => layout_size(
            *child,
        ) + offsets_len_proxy * offset_size + validity_bytes,
        ArrayLayout::FixedSizeList { child, validity_bytes } => layout_size(*child)
            + validity_bytes,
        ArrayLayout::Struct { children, validity_bytes } => layouts_size(children@)
            + validity_bytes,
        ArrayLayout::Union { types_len, offsets_len, children } => types_len + validity_size_spec(
            offsets_len,
        ) * 4 + layouts_size(children@),
        ArrayLayout::Dictionary { keys, values } => layout_size(*keys) + layout_size(*values),
        ArrayLayout::MapArray { offsets_len_proxy, child, validity_bytes } => offsets_len_proxy * 4
            + layout_size(*child) + validity_bytes,
    }
}

/// The estimated heap bytes of a list of child layouts.
pub open spec fn layouts_size(s: Seq<ArrayLayout>) -> int
    decreases s,
{
    if s.len() == 0 {
        0
    } else {
        layout_size(s[0]) + layouts_size(s.drop_first())
    }
}

/// A layout is well formed: sliced spans are ordered.
pub open spec fn layout_wf(a: ArrayLayout) -> bool
    decreases a,
{
    match a {
        ArrayLayout::Binary { values_start, values_end, .. } => values_start <= values_end,
        ArrayLayout::List { child, .. } => layout_wf(*child),
        ArrayLayout::FixedSizeList { child, .. } => layout_wf(*child),
        ArrayLayout::Struct { children, .. } => layouts_wf(children@),
        ArrayLayout::Union { children, .. } => layouts_wf(children@),
        ArrayLayout::Dictionary { keys, values } => layout_wf(*keys) && layout_wf(*values),
        ArrayLayout::MapArray { child, .. } => layout_wf(*child),
        _ => true,
    }
}

/// Every child layout is well formed.
pub open spec fn layouts_wf(s: Seq<ArrayLayout>) -> bool
    decreases s,
{
    if s.len() == 0 {
        true
    } else {
        layout_wf(s[0]) && layouts_wf(s.drop_first())
    }
}

/// A well-formed layout's size is never negative.
pub proof fn lemma_layout_size_nonneg(a: ArrayLayout)
    requires
        layout_wf(a),
    ensures
        layout_size(a) >= 0,
    decreases a,
{
    match a {
        ArrayLayout::List { child, .. } => lemma_layout_size_nonneg(*child),
        ArrayLayout::FixedSizeList { child, .. } => lemma_layout_size_nonneg(*child),
        ArrayLayout::Struct { children, .. } => lemma_layouts_size_nonneg(children@),
        ArrayLayout::Union { children, .. } => lemma_layouts_size_nonneg(children@),
        ArrayLayout::Dictionary { keys, values } => {
            lemma_layout_size_nonneg(*keys);
            lemma_layout_size_nonneg(*values);
        },
        ArrayLayout::MapArray { child, .. } => lemma_layout_size_nonneg(*child),
        _ => {},
    }
}

/// Well-formed children never sum to a negative size, and every prefix sum
/// stays at most the whole.
pub proof fn lemma_layouts_size_nonneg(s: Seq<ArrayLayout>)
    requires
        layouts_wf(s),
    ensures
        layouts_size(s) >= 0,
    decreases s,
{
    if s.len() > 0 {
        lemma_layout_size_nonneg(s[0]);
        lemma_layouts_size_nonneg(s.drop_first());
    }
}

/// Splitting the children anywhere splits the sum.
pub proof fn lemma_layouts_size_split(s: Seq<ArrayLayout>, i: int)
    requires
        0 <= i <= s.len(),
    ensures
        layouts_size(s) == layouts_size(s.take(i)) + layouts_size(s.skip(i)),
    decreases i,
{
    if i == 0 {
        assert(s.take(0) =~= Seq::empty());
        assert(s.skip(0) =~= s);
    } else {
        lemma_layouts_size_split(s.drop_first(), i - 1);
        assert(s.take(i).drop_first() =~= s.drop_first().take(i - 1));
        assert(s.take(i)[0] == s[0]);
        assert(s.skip(i) =~= s.drop_first().skip(i - 1));
    }
}

/// Returns the total estimated heap size of the array: the sum of the
/// sizes of its buffers and validity, children included.
pub fn estimated_bytes_size(array: &ArrayLayout) -> (r: usize)
    requires
        layout_wf(*array),
        layout_size(*array) <= usize::MAX,
    ensures
        r == layout_size(*array),
    decreases *array,
{
    match array {
        ArrayLayout::Null => 0,
        ArrayLayout::Boolean { values_bytes, validity_bytes } => *values_bytes + *validity_bytes,
        ArrayLayout::Primitive { len, elem_size, validity_bytes } => *len * *elem_size
            + *validity_bytes,
        ArrayLayout::Binary { values_start, values_end, offsets_len, offset_size, validity_bytes } => (
        *values_end - *values_start) + *offsets_len * *offset_size + *validity_bytes,
        ArrayLayout::FixedSizeBinary { values_len, validity_bytes } => *values_len
            + *validity_bytes,
        ArrayLayout::List { child, offsets_len_proxy, offset_size, validity_bytes } => {
            proof {
                lemma_layout_size_nonneg(**child);
            }
            estimated_bytes_size(child) + *offsets_len_proxy * *offset_size + *validity_bytes
        },
        ArrayLayout::FixedSizeList { child, validity_bytes } => {
            proof {
                lemma_layout_size_nonneg(**child);
            }
            estimated_bytes_size(child) + *validity_bytes
        },
        ArrayLayout::Struct { children, validity_bytes } => {
            sum_children(children) + *validity_bytes
        },
        ArrayLayout::Union { types_len, offsets_len, children } => {
            proof {
                lemma_layouts_size_nonneg(children@);
            }
            let offsets = match offsets_len {
                Option::Some(l) => *l * 4,
                Option::None => 0,
            };
            *types_len + offsets + sum_children(children)
        },
        ArrayLayout::Dictionary { keys, values } => {
            proof {
                lemma_layout_size_nonneg(**keys);
                lemma_layout_size_nonneg(**values);
            }
            estimated_bytes_size(keys) + estimated_bytes_size(values)
        },
        ArrayLayout::MapArray { offsets_len_proxy, child, validity_bytes } => {
            proof {
                lemma_layout_size_nonneg(**child);
            }
            *offsets_len_proxy * 4 + estimated_bytes_size(child) + *validity_bytes
        },
    }
}

/// Sums the estimated sizes of the child layouts.
fn sum_children(children: &Vec<ArrayLayout>) -> (r: usize)
    requires
        layouts_wf(children@),
        layouts_size(children@) <= usize::MAX,
    ensures
        r == layouts_size(children@),
    decreases children@,
{
    let mut total: usize = 0;
    let n = children.len();
    for i in 0..n
        invariant
            n == children@.len(),
            layouts_wf(children@),
            layouts_size(children@) <= usize::MAX,
            total == layouts_size(children@.take(i as int)),
    {
        proof {
            lemma_layouts_size_split(children@, i as int + 1);
            assert(children@.take(i as int + 1) =~= children@.take(i as int).push(
                children@[i as int],
            ));
            lemma_layouts_size_push(children@.take(i as int), children@[i as int]);
            lemma_layouts_wf_elem(children@, i as int);
            lemma_layouts_wf_take(children@, i as int);
            lemma_layouts_size_nonneg(children@.take(i as int));
            lemma_layouts_wf_skip(children@, i as int + 1);
            lemma_layouts_size_nonneg(children@.skip(i as int + 1));
            lemma_layout_size_nonneg(children@[i as int]);
        }
        let c = estimated_bytes_size(&children[i]);
        total = total + c;
    }
    proof {
        assert(children@.take(n as int) =~= children@);
    }
    total
}

/// Appending one child adds its size.
pub proof fn lemma_layouts_size_push(s: Seq<ArrayLayout>, x: ArrayLayout)
    ensures
        layouts_size(s.push(x)) == layouts_size(s) + layout_size(x),
    decreases s,
{
    if s.len() == 0 {
        assert(s.push(x)[0] == x);
        assert(s.push(x).drop_first() =~= Seq::empty());
        assert(layouts_size(Seq::<ArrayLayout>::empty()) == 0);
    } else {
        assert(s.push(x)[0] == s[0]);
        assert(s.push(x).drop_first() =~= s.drop_first().push(x));
        lemma_layouts_size_push(s.drop_first(), x);
    }
}

/// A prefix of a well-formed child list is well formed.
pub proof fn lemma_layouts_wf_take(s: Seq<ArrayLayout>, i: int)
    requires
        layouts_wf(s),
        0 <= i <= s.len(),
    ensures
        layouts_wf(s.take(i)),
    decreases i,
{
    if i > 0 {
        lemma_layouts_wf_take(s.drop_first(), i - 1);
        assert(s.take(i)[0] == s[0]);
        assert(s.take(i).drop_first() =~= s.drop_first().take(i - 1));
    } else {
        assert(s.take(0) =~= Seq::empty());
    }
}

/// A suffix of a well-formed child list is well formed.
pub proof fn lemma_layouts_wf_skip(s: Seq<ArrayLayout>, i: int)
    requires
        layouts_wf(s),
        0 <= i <= s.len(),
    ensures
        layouts_wf(s.skip(i)),
    decreases i,
{
    if i > 0 {
        lemma_layouts_wf_skip(s.drop_first(), i - 1);
        assert(s.skip(i) =~= s.drop_first().skip(i - 1));
    } else {
        assert(s.skip(0) =~= s);
    }
}

/// Every element of a well-formed child list is well formed.
pub proof fn lemma_layouts_wf_elem(s: Seq<ArrayLayout>, i: int)
    requires
        layouts_wf(s),
        0 <= i < s.len(),
    ensures
        layout_wf(s[i]),
    decreases i,
{
    if i > 0 {
        lemma_layouts_wf_elem(s.drop_first(), i - 1);
        assert(s.drop_first()[i - 1] == s[i]);
    }
}

} // verus!
