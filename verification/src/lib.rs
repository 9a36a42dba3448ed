//! A boot-entry parsing, conversion and request-routing library for
//! network-booting Linux machines.
//!
//! The library covers the logic of a small PXE netboot server: parsing
//! UAPI boot-loader-specification entries, converting them into Syslinux
//! labels, augmenting kernel command lines with NFS-root parameters, and
//! classifying inbound file-transfer request paths.

use vstd::prelude::*;

pub mod addr;
pub mod fs;
pub mod netboot;
pub mod nfs;
pub mod parser;
pub mod syslinux;
pub mod round_trip;
pub mod tar;
pub mod uapi;

verus! {

/// Errors raised while reading a boot entry from its textual form.
#[derive(Clone, Debug, PartialEq, Eq)]
pub enum Error {
    /// The input held a fragment that is not part of any boot entry.
    ErroneousEntry(String),
}

/// Trait to query associated file options on keys and directives.
pub trait BootFile {
    /// The file path, if any, that this key or directive refers to.
    spec fn spec_boot_file(&self) -> Option<Seq<char>>;

    /// Request an associated file on a keyword/directive.
    fn boot_file(&self) -> (r: Option<&String>)
        ensures
            match r {
                Some(p) => self.spec_boot_file() == Some(p@),
                None => self.spec_boot_file() is None,
            },
    ;
}

} // verus!
