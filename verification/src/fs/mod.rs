//! Local files as they are compared with objects of the store.

use vstd::prelude::*;

verus! {

/// The SHA-256 digest of `data`, written as hexadecimal digits.
pub uninterp spec fn sha256_hex(data: Seq<u8>) -> Seq<char>;

/// Computes the SHA-256 digest of `data`.
///
/// Wraps `sha256::digest`, which hashes the bytes it is given and returns the
/// digest in hexadecimal digits. The contract only names that text.
#[verifier::external_body]
fn digest(data: &Vec<u8>) -> (r: String)
    ensures
        r@ == sha256_hex(data@),
{
    sha256::digest(data)
}

/// A local file with the digest and the length of what it holds.
#[derive(Debug)]
pub struct ClarifiedFile {
    path: String,
    sha256: String,
    length: usize,
}

/// What a clarified file stands for.
pub struct ClarifiedModel {
    pub path: Seq<char>,
    pub sha256: Seq<char>,
    pub length: nat,
}

impl View for ClarifiedFile {
    type V = ClarifiedModel;

    closed spec fn view(&self) -> ClarifiedModel {
        ClarifiedModel { path: self.path@, sha256: self.sha256@, length: self.length as nat }
    }
}

impl ClarifiedFile {
    /// The record of the file at `path` that holds `buffer`.
    pub fn from_bytes(path: &str, buffer: &Vec<u8>) -> (f: ClarifiedFile)
        ensures
            f@ == (ClarifiedModel {
                path: path@,
                sha256: sha256_hex(buffer@),
                length: buffer@.len(),
            }),
    {
        ClarifiedFile { path: String::from_str(path), sha256: digest(buffer), length: buffer.len() }
    }

    /// Where the file lies.
    pub fn path(&self) -> (p: &str)
        ensures
            p@ == self@.path,
    {
        self.path.as_str()
    }

    /// The SHA-256 digest of the file's bytes in hexadecimal digits.
    pub fn sha256(&self) -> (d: &str)
        ensures
            d@ == self@.sha256,
    {
        self.sha256.as_str()
    }

    /// The number of bytes the file holds.
    pub fn length(&self) -> (n: usize)
        ensures
            n == self@.length,
    {
        self.length
    }
}

} // verus!
