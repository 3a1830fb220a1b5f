//! Finds typographical mistakes in the strings and prose of source files.
//!
//! A file is parsed with the grammar of its language, the regions worth
//! checking are cut out of it, and each region is handed to the rules of
//! [`lint`]. What a rule reports carries a byte span within the file, so that a
//! report can be shown against the source or mended in place.
use std::sync::Arc;

use vstd::prelude::*;

pub mod config;
pub mod glob;
pub mod grammar;
pub mod lang;
pub mod lint;
pub mod order;
pub mod pattern;
pub mod ranges;
pub mod text;
pub mod tree;

verus! {

/// The name and the bytes of one file.
pub struct NamedSource {
    pub name: String,
    pub bytes: Vec<u8>,
}

/// The content of a file, shared by every report that points into it.
pub struct SharedSource(Arc<NamedSource>);

impl View for SharedSource {
    type V = NamedSource;

    closed spec fn view(&self) -> NamedSource {
        *self.0
    }
}

/// `Arc::clone`: the new handle points at the value the old one points at.
#[verifier::external_body]
fn share(handle: &Arc<NamedSource>) -> (other: Arc<NamedSource>)
    ensures
        other == *handle,
{
    Arc::clone(handle)
}

impl SharedSource {
    /// The source called `name`, whose content is `bytes`.
    pub fn new(name: &str, bytes: Vec<u8>) -> (source: Self)
        ensures
            source@.name@ == name@,
            source@.bytes@ == bytes@,
    {
        SharedSource(Arc::new(NamedSource { name: name.to_owned(), bytes }))
    }

    /// The name the source was given.
    pub fn name(&self) -> (name: &str)
        ensures
            name@ == self@.name@,
    {
        self.0.name.as_str()
    }

    /// The bytes of the source.
    pub fn as_bytes(&self) -> (bytes: &[u8])
        ensures
            bytes@ == self@.bytes@,
    {
        self.0.bytes.as_slice()
    }

    /// Another handle on the same source.
    pub fn share(&self) -> (other: Self)
        ensures
            other@ == self@,
    {
        SharedSource(share(&self.0))
    }
}

} // verus!
