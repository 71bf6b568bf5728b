//! Names of cached thumbnails: a pure function of the source path.
use vstd::prelude::*;
use crate::text::{hex_of, push_hex};
use vstd::string::StringSliceAdditionalSpecFns;

verus! {

/// The MD5 digest of `data`, as `md5::compute` gives it.
pub uninterp spec fn md5_of(data: Seq<u8>) -> Seq<u8>;

/// Relies on `md5::compute`: the digest of the bytes, 16 bytes long.
#[verifier::external_body]
fn md5_digest(data: &[u8]) -> (r: Vec<u8>)
    ensures
        r@ == md5_of(data@),
        r@.len() == 16,
{
    md5::compute(data).0.to_vec()
}

/// The cache file name for a source whose path hashes to `digest`.
pub open spec fn name_for_digest(digest: Seq<u8>) -> Seq<char> {
    hex_of(digest) + ".jpg"@
}

/// The cache file name of the source at the path with UTF-8 bytes `path_bytes`.
pub open spec fn thumbnail_name_of(path_bytes: Seq<u8>) -> Seq<char> {
    name_for_digest(md5_of(path_bytes))
}

/// The cache file name for a digest: its bytes in lowercase hexadecimal, then `.jpg`.
pub fn thumbnail_name_for_digest(digest: &Vec<u8>) -> (r: String)
    ensures
        r@ == name_for_digest(digest@),
{
    let mut out = String::new();
    push_hex(&mut out, digest);
    out.append(".jpg");
    proof {
        assert(out@ =~= name_for_digest(digest@));
    }
    out
}

/// The cache file name of the thumbnail of `file_path`: the MD5 digest of the
/// path's bytes in lowercase hexadecimal, then `.jpg`. It depends on the path
/// alone, so a source edited in place keeps its older thumbnail.
pub fn thumbnail_file_name(file_path: &str) -> (r: String)
    ensures
        r@ == thumbnail_name_of(file_path.spec_bytes()),
{
    let digest = md5_digest(file_path.as_bytes());
    thumbnail_name_for_digest(&digest)
}

proof fn lemma_hex_len(bytes: Seq<u8>)
    ensures
        hex_of(bytes).len() == 2 * bytes.len(),
    decreases bytes.len(),
{
    if bytes.len() > 0 {
        lemma_hex_len(bytes.drop_last());
        reveal_strlit("0");
        reveal_strlit("1");
        reveal_strlit("2");
        reveal_strlit("3");
        reveal_strlit("4");
        reveal_strlit("5");
        reveal_strlit("6");
        reveal_strlit("7");
        reveal_strlit("8");
        reveal_strlit("9");
        reveal_strlit("a");
        reveal_strlit("b");
        reveal_strlit("c");
        reveal_strlit("d");
        reveal_strlit("e");
        reveal_strlit("f");
    }
}

/// One path always gives one cache name: a second request for the same
/// source looks for the same file.
pub proof fn lemma_thumbnail_name_stable(a: Seq<u8>, b: Seq<u8>)
    requires
        a == b,
    ensures
        thumbnail_name_of(a) == thumbnail_name_of(b),
{
}

/// The cache name of a 16-byte digest is 32 hexadecimal digits and `.jpg`.
pub proof fn lemma_digest_name_shape(digest: Seq<u8>)
    requires
        digest.len() == 16,
    ensures
        name_for_digest(digest).len() == 36,
        name_for_digest(digest).subrange(32, 36) == ".jpg"@,
{
    lemma_hex_len(digest);
    reveal_strlit(".jpg");
    assert(name_for_digest(digest).subrange(32, 36) =~= ".jpg"@);
}

} // verus!
