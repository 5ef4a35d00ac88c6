//! Which object types can be hashed from a file.

use vstd::prelude::*;
use vstd::string::StrSliceExecFns;

verus! {

/// The object types that can be hashed from a file.
#[derive(Debug, Clone, Copy, PartialEq, Eq, Structural)]
pub enum HashableObjectType {
    Blob,
}

/// The type named by an object type name given for hashing: `blob` is the
/// one type that can be hashed from a file, and any other name is refused
/// with `None`.
pub fn hashable_object_type(obj_type: &str) -> (t: Option<HashableObjectType>)
    ensures
        t == (if obj_type@ == "blob"@ {
            Some(HashableObjectType::Blob)
        } else {
            None::<HashableObjectType>
        }),
{
    proof {
        reveal_strlit("blob");
    }
    let expected = "blob";
    let n = obj_type.unicode_len();
    if n != 4 {
        return None;
    }
    let mut i: usize = 0;
    while i < 4
        invariant
            n == obj_type@.len(),
            n == 4,
            i <= 4,
            expected@ == "blob"@,
            expected@.len() == 4,
            forall|j: int| 0 <= j < i ==> obj_type@[j] == expected@[j],
        decreases 4 - i,
    {
        if obj_type.get_char(i) != expected.get_char(i) {
            assert(obj_type@[i as int] != "blob"@[i as int]);
            return None;
        }
        i = i + 1;
    }
    assert(obj_type@ =~= "blob"@);
    Some(HashableObjectType::Blob)
}

} // verus!
