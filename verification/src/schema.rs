use crate::alist::lemma_smap_get_absent;
use crate::alist::lemma_smap_get_at;
use crate::alist::lemma_smap_get_push;
use crate::alist::lemma_smap_get_update;
use crate::alist::smap_find;
use crate::alist::smap_get;
use crate::alist::smap_unique;
use crate::version::SimpleVersion;
use vstd::prelude::*;

verus! {

/// One named, typed field of a struct descriptor.
#[derive(Clone, PartialEq, Eq, Debug)]
pub struct StructField {
    pub ident: String,
    pub ty: String,
}

/// The descriptor of a struct: its fields in declaration order.
#[derive(Clone, PartialEq, Eq, Debug)]
pub struct StructInfo {
    pub fields: Vec<StructField>,
}

/// The shape of one enum variant's payload.
#[derive(Clone, PartialEq, Eq, Debug)]
pub enum EnumFields {
    Named(Vec<StructField>),
    Unnamed(Vec<String>),
    Unit,
}

/// One named variant of an enum descriptor.
#[derive(Clone, PartialEq, Eq, Debug)]
pub struct EnumVariant {
    pub ident: String,
    pub fields: EnumFields,
}

/// The descriptor of an enum: its variants in declaration order.
#[derive(Clone, PartialEq, Eq, Debug)]
pub struct EnumInfo {
    pub variants: Vec<EnumVariant>,
}

/// A type descriptor: either a struct or an enum.
#[derive(Clone, PartialEq, Eq, Debug)]
pub enum TypeInfo {
    Struct(StructInfo),
    Enum(EnumInfo),
}

/// Type descriptors keyed by type name, with pairwise distinct names.
#[derive(Clone, PartialEq, Eq, Debug)]
pub struct TypeMap {
    entries: Vec<(String, TypeInfo)>,
}

impl View for TypeMap {
    type V = Seq<(String, TypeInfo)>;

    closed spec fn view(&self) -> Seq<(String, TypeInfo)> {
        self.entries@
    }
}

impl TypeMap {
    /// Names are pairwise distinct.
    pub open spec fn wf(&self) -> bool {
        smap_unique(self@)
    }

    pub fn new() -> (r: TypeMap)
        ensures
            r@ == Seq::<(String, TypeInfo)>::empty(),
            r.wf(),
    {
        TypeMap { entries: Vec::new() }
    }

    pub fn len(&self) -> (r: usize)
        ensures
            r == self@.len(),
    {
        self.entries.len()
    }

    /// The descriptor entry at one position, in insertion order.
    pub fn entry_at(&self, i: usize) -> (r: &(String, TypeInfo))
        requires
            i < self@.len(),
        ensures
            *r == self@[i as int],
    {
        &self.entries[i]
    }

    /// The descriptor stored under a type name.
    pub fn get(&self, name: &str) -> (r: Option<&TypeInfo>)
        ensures
            match r {
                Some(info) => smap_get(self@, name@) == Some(*info),
                None => smap_get(self@, name@) is None,
            },
    {
        let owned: String = name.to_owned();
        match smap_find(&self.entries, &owned) {
            Some(i) => {
                proof {
                    lemma_smap_get_at(self@, i as int, name@);
                }
                Some(&self.entries[i].1)
            },
            None => {
                proof {
                    lemma_smap_get_absent(self@, name@);
                }
                None
            },
        }
    }

    /// Stores a descriptor under a name, replacing any previous one.
    pub fn insert(&mut self, name: String, info: TypeInfo)
        requires
            old(self).wf(),
        ensures
            final(self).wf(),
            forall|k: Seq<char>|
                #[trigger] smap_get(final(self)@, k) == if k == name@ {
                    Some(info)
                } else {
                    smap_get(old(self)@, k)
                },
    {
        let ghost name_view = name@;
        match smap_find(&self.entries, &name) {
            Some(i) => {
                self.entries[i] = (name, info);
                proof {
                    assert forall|k: Seq<char>|
                        #[trigger] smap_get(self@, k) == if k == name_view {
                            Some(info)
                        } else {
                            smap_get(old(self)@, k)
                        } by {
                        lemma_smap_get_update(old(self)@, i as int, self@[i as int], k);
                        assert(self@ =~= old(self)@.update(i as int, self@[i as int]));
                    }
                    assert forall|x: int, y: int|
                        0 <= x < y < self@.len() implies #[trigger] self@[x].0@ != #[trigger] self@[y].0@ by {
                        assert(old(self)@[x].0@ != old(self)@[y].0@);
                    }
                }
            },
            None => {
                proof {
                    lemma_smap_get_absent(old(self)@, name_view);
                }
                self.entries.push((name, info));
                proof {
                    assert forall|k: Seq<char>|
                        #[trigger] smap_get(self@, k) == if k == name_view {
                            Some(info)
                        } else {
                            smap_get(old(self)@, k)
                        } by {
                        lemma_smap_get_push(old(self)@, self@[self@.len() - 1], k);
                    }
                    assert forall|x: int, y: int|
                        0 <= x < y < self@.len() implies #[trigger] self@[x].0@ != #[trigger] self@[y].0@ by {
                        if y < self@.len() - 1 {
                            assert(old(self)@[x].0@ != old(self)@[y].0@);
                        }
                    }
                }
            },
        }
    }
}

/// A collection of type descriptors: the root type's name and every
/// descriptor reachable from it, keyed by name.
#[derive(Clone, PartialEq, Eq, Debug)]
pub struct TypeCollection {
    pub root: String,
    pub refs: TypeMap,
}

impl TypeCollection {
    pub fn new() -> (r: TypeCollection)
        ensures
            r.root@ == Seq::<char>::empty(),
            r.refs@ == Seq::<(String, TypeInfo)>::empty(),
            r.refs.wf(),
    {
        TypeCollection { root: String::new(), refs: TypeMap::new() }
    }
}

/// Implemented (normally by generated code) to record a type's descriptor,
/// and those of the types it references, into a collection.
pub trait Reflect {
    fn reflect(to: &mut TypeCollection);
}

/// The record root type of one tree.
pub trait TreeRoot {
    fn tree_name() -> &'static str;

    fn evolution() -> SimpleVersion;

    fn versioning() -> bool;
}

/// Marker wrapper for a serialized user value, kept out-of-line so newer
/// evolutions stay readable as the older one.
#[derive(Clone, PartialEq, Eq, Debug)]
pub struct Evolving<T>(pub T);

} // verus!
