//! A file whose digests are kept in extended attributes named
//! `user.hash.<algorithm>`.

use crate::hex::{hex_of, hex_string};
use vstd::prelude::*;

verus! {

/// The extended attribute that holds the digest of algorithm `hash`.
pub open spec fn xattr_name_text(hash: Seq<char>) -> Seq<char> {
    "user.hash."@ + hash
}

/// The name of the extended attribute that holds the digest of
/// algorithm `hash`: `user.hash.` followed by the algorithm's name.
pub fn xattr_name(hash: &str) -> (s: String)
    ensures
        s@ == xattr_name_text(hash@),
{
    let mut s = String::from_str("user.hash.");
    s.append(hash);
    s
}

/// The attribute's size changed between the size query and the read.
pub struct XattrSizeChanged;

/// A file on which the jobs work, known by its path.
pub struct File {
    path: String,
}

impl View for File {
    type V = Seq<char>;

    /// The file's path.
    closed spec fn view(&self) -> Seq<char> {
        self.path@
    }
}

impl File {
    pub fn new(path: &str) -> (f: Self)
        ensures
            f@ == path@,
    {
        File { path: path.to_owned() }
    }

    pub fn path(&self) -> (p: &str)
        ensures
            p@ == self@,
    {
        self.path.as_str()
    }

    /// An attribute is read in two steps: a query of its size, then a
    /// read into a buffer of that size. The value is accepted only when
    /// the read produced exactly as many bytes as the query reported.
    pub fn get_attr(len: usize, got: usize, value: Vec<u8>) -> (r: Result<Vec<u8>, XattrSizeChanged>)
        requires
            value@.len() == len,
        ensures
            got == len ==> r == Ok::<Vec<u8>, XattrSizeChanged>(value),
            got != len ==> r is Err,
    {
        if len != got {
            return Err(XattrSizeChanged);
        }
        Ok(value)
    }

    /// An attribute's value as hexadecimal text, two lower-case digits
    /// per byte; a failed read stays failed.
    pub fn get_attr_hex<E>(attr: Result<Vec<u8>, E>) -> (r: Result<String, E>)
        ensures
            attr matches Ok(v) ==> (r matches Ok(s) && s@ == hex_of(v@)),
            attr matches Err(e) ==> r == Err::<String, E>(e),
    {
        match attr {
            Ok(bytes) => Ok(hex_string(bytes.as_slice())),
            Err(e) => Err(e),
        }
    }
}

} // verus!
