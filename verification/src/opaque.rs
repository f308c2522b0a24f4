use crate::common::Error;
use crate::keys::GenericKey;
use crate::keys::TreeKey;
use vstd::prelude::*;
use vstd::string::StringExecFns;

verus! {

/// A type-erased record key: the tree it belongs to together with the two
/// key fields, usable by tools that do not know the tree's types.
#[derive(Clone, PartialEq, Eq, Hash, Debug)]
pub struct OpaqueKey {
    pub tree_name: String,
    pub id: u32,
    pub revision: u32,
}

impl OpaqueKey {
    pub fn new(tree_name: String, key: GenericKey) -> (r: Self)
        ensures
            r.tree_name == tree_name,
            r.id == key.id,
            r.revision == key.revision,
    {
        OpaqueKey { tree_name, id: key.id, revision: key.revision }
    }
}

/// Turns an opaque key back into a typed one, refusing a key that names a
/// different tree.
pub fn check_key<K: TreeKey>(key: &OpaqueKey, tree_name: &str) -> (r: Result<K, Error>)
    ensures
        r is Ok <==> key.tree_name@ == tree_name@,
        r matches Ok(k) ==> k.spec_generic() == (GenericKey { id: key.id, revision: key.revision }),
        r is Err ==> r matches Err(Error::Usage(_)),
{
    let owned: String = tree_name.to_owned();
    if !key.tree_name.eq(&owned) {
        return Err(
            Error::Usage(String::from_str("key and tree belong to different trees")),
        );
    }
    let generic = GenericKey { id: key.id, revision: key.revision };
    Ok(K::from_generic(generic))
}

} // verus!
