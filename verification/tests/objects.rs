use cvvc::objects::hashing::{hashable_object_type, HashableObjectType};

#[test]
fn only_blobs_are_hashed_from_files() {
    assert_eq!(hashable_object_type("blob"), Some(HashableObjectType::Blob));
    assert_eq!(hashable_object_type("tree"), None);
    assert_eq!(hashable_object_type("commit"), None);
    assert_eq!(hashable_object_type("Blob"), None);
    assert_eq!(hashable_object_type("blobs"), None);
    assert_eq!(hashable_object_type(""), None);
}
