//! The persistent attribute store: a path is "marked" when its extended
//! attribute `user.com.dropbox.ignored` holds the single byte `'1'`, the flag
//! the sync client recognises as "exclude from synchronization".
//!
//! Reading and writing the attribute goes through the `xattr` crate and
//! depends on what is on disk, so nothing is promised of those two calls;
//! the decision what a read attribute value means is verified code.

use vstd::prelude::*;

verus! {

/// The attribute name under which the ignore flag is stored.
pub const IGNORE_ATTRIBUTE_KEY: &'static str = "user.com.dropbox.ignored";

/// The attribute value that means "ignored": the single byte `'1'`.
pub open spec fn ignored_attribute_value() -> Seq<u8> {
    seq![49u8]
}

/// Whether a raw attribute value read from disk means "this path is marked".
pub open spec fn spec_marks_ignored(bytes: Seq<u8>) -> bool {
    bytes == ignored_attribute_value()
}

/// Relies on `xattr::get`: reads an extended attribute of the file at the
/// path. The result depends on the state of the disk, so nothing is stated
/// of it; a read error collapses to an absent attribute.
#[verifier::external_body]
fn xattr_read(path: &str, name: &str) -> Option<Vec<u8>> {
    match xattr::get(path, name) {
        Ok(value) => value,
        Err(_) => None,
    }
}

/// Relies on `xattr::set`: writes a single-byte extended attribute of the
/// file at the path and reports whether the write succeeded. Whether it does
/// depends on the state of the disk, so nothing is stated of it.
#[verifier::external_body]
fn xattr_write(path: &str, name: &str, value: u8) -> bool {
    xattr::set(path, name, &[value]).is_ok()
}

/// Whether a raw attribute value, as read from disk, is the ignore flag.
/// Takes the store's answer as an argument, so the decision itself is
/// verified for every possible answer.
pub fn attribute_marks_ignored(bytes: &Vec<u8>) -> (r: bool)
    ensures
        r == spec_marks_ignored(bytes@),
{
    let r = bytes.len() == 1 && bytes[0] == 49u8;
    proof {
        if r {
            assert(bytes@ =~= ignored_attribute_value());
        }
    }
    r
}

/// The attribute store itself. It holds no state of its own: the mark state
/// lives on disk and every query re-reads it.
pub struct Dropbox {}

impl Dropbox {
    /// Creates the store; never fails.
    pub fn new() -> (r: Result<Self, String>)
        ensures
            r is Ok,
    {
        Ok(Dropbox {  })
    }

    /// Whether the path is already marked: true iff the ignore attribute is
    /// present and holds exactly the ignore flag value. What the disk
    /// answers is opaque, but the interpretation of the answer is
    /// [`attribute_marks_ignored`].
    pub fn is_ignored(&self, path: &str) -> bool {
        match xattr_read(path, IGNORE_ATTRIBUTE_KEY) {
            Some(bytes) => attribute_marks_ignored(&bytes),
            None => false,
        }
    }

    /// Attempts to mark the path by writing the ignore flag attribute and
    /// reports whether the write succeeded. A failure is for the caller to
    /// surface as a warning; it never aborts a scan.
    pub fn ignore(&self, path: &str) -> bool {
        xattr_write(path, IGNORE_ATTRIBUTE_KEY, 49u8)
    }
}

} // verus!
