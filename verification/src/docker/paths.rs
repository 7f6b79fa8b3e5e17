//! Where the records of a docker repository are kept.
use vstd::prelude::*;

verus! {

/// A record in a directory of an image, or of the repository itself.
pub open spec fn image_path(image: Option<Seq<char>>, dir: Seq<char>, name: Seq<char>) -> Seq<char> {
    match image {
        Some(i) => i + "/"@ + dir + name,
        None => dir + name,
    }
}

/// A record in a directory of an image, or of the repository itself.
fn path_under(image: Option<&str>, dir: &str, name: &str) -> (r: String)
    ensures
        r@ == image_path(image.deep_view(), dir@, name@),
{
    match image {
        Some(i) => {
            let mut p = i.to_string();
            p.append("/");
            p.append(dir);
            p.append(name);
            p
        },
        None => {
            let mut p = dir.to_string();
            p.append(name);
            p
        },
    }
}

/// The path of a tag record.
pub open spec fn tag_path(image: Option<Seq<char>>, tag: Seq<char>) -> Seq<char> {
    image_path(image, "_tags/"@, tag)
}

/// The path of a tag record.
pub fn tag_path_for(image: Option<&str>, tag: &str) -> (r: String)
    ensures
        r@ == tag_path(image.deep_view(), tag@),
{
    path_under(image, "_tags/", tag)
}

/// The path of a manifest record.
pub open spec fn manifest_path(image: Option<Seq<char>>, digest: Seq<char>) -> Seq<char> {
    image_path(image, "_manifests/"@, digest)
}

/// The path of a manifest record.
pub fn manifest_path_for(image: Option<&str>, digest: &str) -> (r: String)
    ensures
        r@ == manifest_path(image.deep_view(), digest@),
{
    path_under(image, "_manifests/", digest)
}

/// The path of a reference to a layer or config, which all images share.
pub open spec fn blob_ref_path(digest: Seq<char>) -> Seq<char> {
    "_blobs/"@ + digest
}

/// The path of a reference to a layer or config.
pub fn blob_ref_path_for(digest: &str) -> (r: String)
    ensures
        r@ == blob_ref_path(digest@),
{
    let mut p = "_blobs/".to_string();
    p.append(digest);
    p
}

} // verus!
