use crate::alist::lemma_smap_get_at;
use crate::alist::lemma_smap_get_witness;
use crate::alist::smap_get;
use crate::alist::smap_has;
use crate::schema::EnumFields;
use crate::schema::EnumInfo;
use crate::schema::EnumVariant;
use crate::schema::StructField;
use crate::schema::StructInfo;
use crate::schema::TypeCollection;
use crate::schema::TypeInfo;
use vstd::prelude::*;

verus! {

/// A struct may grow new fields at the end; the types of existing fields,
/// compared position by position, must stay the same. Field names are free
/// to change.
pub open spec fn spec_fields_compatible(prev: Seq<StructField>, next: Seq<StructField>) -> bool {
    &&& prev.len() <= next.len()
    &&& forall|i: int| 0 <= i < prev.len() ==> #[trigger] prev[i].ty@ == next[i].ty@
}

/// Variant payloads must keep their shape: unit stays unit, tuple variants
/// keep the same type list, named-field variants keep the same field types
/// in order. Names are free to change.
pub open spec fn spec_enum_fields_compatible(prev: EnumFields, next: EnumFields) -> bool {
    match prev {
        EnumFields::Named(pf) => match next {
            EnumFields::Named(nf) => pf@.len() == nf@.len() && forall|i: int|
                0 <= i < pf@.len() ==> #[trigger] pf@[i].ty@ == nf@[i].ty@,
            _ => false,
        },
        EnumFields::Unnamed(pt) => match next {
            EnumFields::Unnamed(nt) => pt@.len() == nt@.len() && forall|i: int|
                0 <= i < pt@.len() ==> #[trigger] pt@[i]@ == nt@[i]@,
            _ => false,
        },
        EnumFields::Unit => next is Unit,
    }
}

/// An enum must keep exactly its variants, in order, each with a
/// compatible payload shape.
pub open spec fn spec_variants_compatible(prev: Seq<EnumVariant>, next: Seq<EnumVariant>) -> bool {
    &&& prev.len() == next.len()
    &&& forall|i: int|
        0 <= i < prev.len() ==> #[trigger] spec_enum_fields_compatible(
            prev[i].fields,
            next[i].fields,
        )
}

/// Root-descriptor compatibility: struct against struct or enum against
/// enum, by the two rules above; any other change is incompatible.
pub open spec fn spec_type_compatible(prev: TypeInfo, next: TypeInfo) -> bool {
    match prev {
        TypeInfo::Struct(p) => match next {
            TypeInfo::Struct(n) => spec_fields_compatible(p.fields@, n.fields@),
            _ => false,
        },
        TypeInfo::Enum(p) => match next {
            TypeInfo::Enum(n) => spec_variants_compatible(p.variants@, n.variants@),
            _ => false,
        },
    }
}

/// Whether `next` can still read data written under `prev`: both
/// collections must resolve `prev`'s root name, and the two root
/// descriptors must be compatible.
pub open spec fn spec_backwards_compatible(prev: TypeCollection, next: TypeCollection) -> bool {
    match (smap_get(prev.refs@, prev.root@), smap_get(next.refs@, prev.root@)) {
        (Some(p), Some(n)) => spec_type_compatible(p, n),
        _ => false,
    }
}

fn fields_compatible(prev: &Vec<StructField>, next: &Vec<StructField>) -> (r: bool)
    ensures
        r == spec_fields_compatible(prev@, next@),
{
    if prev.len() > next.len() {
        return false;
    }
    let mut i: usize = 0;
    while i < prev.len()
        invariant
            0 <= i <= prev@.len(),
            prev@.len() <= next@.len(),
            forall|j: int| 0 <= j < i ==> #[trigger] prev@[j].ty@ == next@[j].ty@,
        decreases prev@.len() - i,
    {
        if !prev[i].ty.eq(&next[i].ty) {
            return false;
        }
        i = i + 1;
    }
    true
}

fn type_lists_equal(prev: &Vec<String>, next: &Vec<String>) -> (r: bool)
    ensures
        r == (prev@.len() == next@.len() && forall|i: int|
            0 <= i < prev@.len() ==> #[trigger] prev@[i]@ == next@[i]@),
{
    if prev.len() != next.len() {
        return false;
    }
    let mut i: usize = 0;
    while i < prev.len()
        invariant
            0 <= i <= prev@.len(),
            prev@.len() == next@.len(),
            forall|j: int| 0 <= j < i ==> #[trigger] prev@[j]@ == next@[j]@,
        decreases prev@.len() - i,
    {
        if !prev[i].eq(&next[i]) {
            return false;
        }
        i = i + 1;
    }
    true
}

/// Whether one enum variant's payload keeps a compatible shape.
pub fn is_enum_fields_compatible(prev_fields: &EnumFields, next_fields: &EnumFields) -> (r: bool)
    ensures
        r == spec_enum_fields_compatible(*prev_fields, *next_fields),
{
    match prev_fields {
        EnumFields::Named(prev_named) => match next_fields {
            EnumFields::Named(next_named) => {
                if prev_named.len() != next_named.len() {
                    return false;
                }
                fields_compatible(prev_named, next_named)
            },
            _ => false,
        },
        EnumFields::Unnamed(prev_unnamed) => match next_fields {
            EnumFields::Unnamed(next_unnamed) => type_lists_equal(prev_unnamed, next_unnamed),
            _ => false,
        },
        EnumFields::Unit => match next_fields {
            EnumFields::Unit => true,
            _ => false,
        },
    }
}

fn variants_compatible(prev: &Vec<EnumVariant>, next: &Vec<EnumVariant>) -> (r: bool)
    ensures
        r == spec_variants_compatible(prev@, next@),
{
    if prev.len() != next.len() {
        return false;
    }
    let mut i: usize = 0;
    while i < prev.len()
        invariant
            0 <= i <= prev@.len(),
            prev@.len() == next@.len(),
            forall|j: int|
                0 <= j < i ==> #[trigger] spec_enum_fields_compatible(
                    prev@[j].fields,
                    next@[j].fields,
                ),
        decreases prev@.len() - i,
    {
        if !is_enum_fields_compatible(&prev[i].fields, &next[i].fields) {
            return false;
        }
        i = i + 1;
    }
    true
}

/// Whether the `next` type collection is backwards compatible with the
/// `previous` one: field and variant renaming is allowed, a struct may
/// grow new fields, and every other change of shape or type is refused.
pub fn is_backwards_compatible(previous: &TypeCollection, next: &TypeCollection) -> (r: bool)
    ensures
        r == spec_backwards_compatible(*previous, *next),
{
    let prev_root = match previous.refs.get(previous.root.as_str()) {
        Some(info) => info,
        None => {
            return false;
        },
    };
    let next_root = match next.refs.get(previous.root.as_str()) {
        Some(info) => info,
        None => {
            return false;
        },
    };
    match prev_root {
        TypeInfo::Struct(prev_si) => match next_root {
            TypeInfo::Struct(next_si) => fields_compatible(&prev_si.fields, &next_si.fields),
            TypeInfo::Enum(_) => false,
        },
        TypeInfo::Enum(prev_ei) => match next_root {
            TypeInfo::Enum(next_ei) => variants_compatible(&prev_ei.variants, &next_ei.variants),
            TypeInfo::Struct(_) => false,
        },
    }
}

/// Shape-identity of two descriptors: same kind, same field or variant
/// count, same types position by position; field and variant names are
/// ignored.
pub open spec fn spec_type_shape_equal(a: TypeInfo, b: TypeInfo) -> bool {
    match a {
        TypeInfo::Struct(x) => match b {
            TypeInfo::Struct(y) => x.fields@.len() == y.fields@.len() && spec_fields_compatible(
                x.fields@,
                y.fields@,
            ),
            _ => false,
        },
        TypeInfo::Enum(x) => match b {
            TypeInfo::Enum(y) => spec_variants_compatible(x.variants@, y.variants@),
            _ => false,
        },
    }
}

/// Two collections are equal exactly when they carry the same root name,
/// describe the same set of type names, and every descriptor is shape- and
/// type-identical; field and variant names are ignored.
pub open spec fn spec_collections_equal(a: TypeCollection, b: TypeCollection) -> bool {
    &&& a.root@ == b.root@
    &&& forall|k: Seq<char>|
        #![trigger smap_get(a.refs@, k), smap_get(b.refs@, k)]
        match (smap_get(a.refs@, k), smap_get(b.refs@, k)) {
            (Some(x), Some(y)) => spec_type_shape_equal(x, y),
            (None, None) => true,
            _ => false,
        }
}

fn type_shape_equal(a: &TypeInfo, b: &TypeInfo) -> (r: bool)
    ensures
        r == spec_type_shape_equal(*a, *b),
{
    match a {
        TypeInfo::Struct(x) => match b {
            TypeInfo::Struct(y) => {
                if x.fields.len() != y.fields.len() {
                    return false;
                }
                fields_compatible(&x.fields, &y.fields)
            },
            _ => false,
        },
        TypeInfo::Enum(x) => match b {
            TypeInfo::Enum(y) => variants_compatible(&x.variants, &y.variants),
            _ => false,
        },
    }
}

/// Whether two collections are equal in the shape sense above.
pub fn collections_equal(a: &TypeCollection, b: &TypeCollection) -> (r: bool)
    requires
        a.refs.wf(),
        b.refs.wf(),
    ensures
        r == spec_collections_equal(*a, *b),
{
    if !a.root.eq(&b.root) {
        return false;
    }
    let mut i: usize = 0;
    while i < a.refs.len()
        invariant
            a.refs.wf(),
            b.refs.wf(),
            0 <= i <= a.refs@.len(),
            forall|j: int|
                0 <= j < i ==> match smap_get(b.refs@, #[trigger] a.refs@[j].0@) {
                    Some(y) => spec_type_shape_equal(a.refs@[j].1, y),
                    None => false,
                },
        decreases a.refs@.len() - i,
    {
        let entry = a.refs.entry_at(i);
        match b.refs.get(entry.0.as_str()) {
            Some(y) => {
                if !type_shape_equal(&entry.1, y) {
                    proof {
                        lemma_smap_get_at(a.refs@, i as int, a.refs@[i as int].0@);
                    }
                    return false;
                }
            },
            None => {
                proof {
                    lemma_smap_get_at(a.refs@, i as int, a.refs@[i as int].0@);
                }
                return false;
            },
        }
        i = i + 1;
    }
    let mut j: usize = 0;
    while j < b.refs.len()
        invariant
            a.refs.wf(),
            b.refs.wf(),
            0 <= j <= b.refs@.len(),
            forall|x: int|
                0 <= x < a.refs@.len() ==> match smap_get(b.refs@, #[trigger] a.refs@[x].0@) {
                    Some(y) => spec_type_shape_equal(a.refs@[x].1, y),
                    None => false,
                },
            forall|x: int| 0 <= x < j ==> smap_has(a.refs@, #[trigger] b.refs@[x].0@),
        decreases b.refs@.len() - j,
    {
        let entry = b.refs.entry_at(j);
        match a.refs.get(entry.0.as_str()) {
            Some(_) => {},
            None => {
                proof {
                    lemma_smap_get_at(b.refs@, j as int, b.refs@[j as int].0@);
                }
                return false;
            },
        }
        j = j + 1;
    }
    proof {
        assert forall|k: Seq<char>|
            #![trigger smap_get(a.refs@, k), smap_get(b.refs@, k)]
            match (smap_get(a.refs@, k), smap_get(b.refs@, k)) {
                (Some(x), Some(y)) => spec_type_shape_equal(x, y),
                (None, None) => true,
                _ => false,
            } by {
            if smap_has(a.refs@, k) {
                lemma_smap_get_witness(a.refs@, k);
                let i = choose|i: int|
                    0 <= i < a.refs@.len() && a.refs@[i].0@ == k && smap_get(a.refs@, k) == Some(
                        a.refs@[i].1,
                    );
            } else if smap_has(b.refs@, k) {
                lemma_smap_get_witness(b.refs@, k);
                let i = choose|i: int|
                    0 <= i < b.refs@.len() && b.refs@[i].0@ == k && smap_get(b.refs@, k) == Some(
                        b.refs@[i].1,
                    );
            }
        }
    }
    true
}

/// Backwards compatibility refuses a struct that shortens its field list.
pub proof fn lemma_compat_rejects_shorter_struct(
    prev: TypeCollection,
    next: TypeCollection,
    p: StructInfo,
    n: StructInfo,
)
    requires
        smap_get(prev.refs@, prev.root@) == Some(TypeInfo::Struct(p)),
        smap_get(next.refs@, prev.root@) == Some(TypeInfo::Struct(n)),
        n.fields@.len() < p.fields@.len(),
    ensures
        !spec_backwards_compatible(prev, next),
{
}

/// Backwards compatibility refuses any change of an existing struct
/// field's type.
pub proof fn lemma_compat_rejects_changed_field_type(
    prev: TypeCollection,
    next: TypeCollection,
    p: StructInfo,
    n: StructInfo,
    i: int,
)
    requires
        smap_get(prev.refs@, prev.root@) == Some(TypeInfo::Struct(p)),
        smap_get(next.refs@, prev.root@) == Some(TypeInfo::Struct(n)),
        0 <= i < p.fields@.len(),
        i < n.fields@.len(),
        p.fields@[i].ty@ != n.fields@[i].ty@,
    ensures
        !spec_backwards_compatible(prev, next),
{
}

/// Backwards compatibility refuses any change to the number of enum
/// variants.
pub proof fn lemma_compat_rejects_variant_count_change(
    prev: TypeCollection,
    next: TypeCollection,
    p: EnumInfo,
    n: EnumInfo,
)
    requires
        smap_get(prev.refs@, prev.root@) == Some(TypeInfo::Enum(p)),
        smap_get(next.refs@, prev.root@) == Some(TypeInfo::Enum(n)),
        p.variants@.len() != n.variants@.len(),
    ensures
        !spec_backwards_compatible(prev, next),
{
}

} // verus!
