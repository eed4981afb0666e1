use vstd::prelude::*;
use vstd::string::*;
use md5::Digest;

verus! {

/// The MD5 digest of the bytes of `key`, as lower-case hexadecimal text.
pub uninterp spec fn md5_hex(key: Seq<char>) -> Seq<char>;

/// Calls `md5::Md5::digest` on the key's bytes and formats the digest with
/// `{:x}`. The contract names that text ([`md5_hex`]) and claims nothing
/// else of it.
#[verifier::external_body]
fn md5_hex_of(key: &str) -> (hex: String)
    ensures
        hex@ == md5_hex(key@),
{
    format!("{:x}", md5::Md5::digest(key))
}

/// A store of downloaded text on disk, one file per key, under one
/// directory.
#[derive(Debug, Clone)]
pub struct Cache {
    pub cache_dir: String,
}

impl Cache {
    /// The store under the directory `cache_dir`.
    pub fn new(cache_dir: String) -> (cache: Cache)
        ensures
            cache.cache_dir == cache_dir,
    {
        Cache { cache_dir }
    }

    /// The file of `key`: named by the key's digest, directly under the
    /// store's directory.
    pub fn get_cache_file_path(&self, key: &str) -> (path: String)
        ensures
            path@ == self.cache_dir@ + "/"@ + md5_hex(key@) + ".txt"@,
    {
        let hex = md5_hex_of(key);
        let mut path = self.cache_dir.clone();
        path.append("/");
        path.append(hex.as_str());
        path.append(".txt");
        path
    }
}

} // verus!
