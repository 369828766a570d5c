//! File metadata consumed by the lint engine.
//!
//! A classifier outside this crate decides what a file is (its name, the
//! build system that produced it, whether it is machine generated) and
//! hands the result in as a plain record. The parser and the policies
//! treat the record as opaque, read-only context.

use vstd::prelude::*;

verus! {

/// Mathematical view of `Metadata`: the same record over `Seq<char>`.
pub ghost struct MetadataV {
    pub path: Seq<char>,
    pub filename: Seq<char>,
    pub is_makefile: bool,
    pub build_system: Seq<char>,
    pub is_machine_generated: bool,
}

/// Metadata describes one file under analysis, as supplied by a classifier.
#[derive(Clone, Debug)]
pub struct Metadata {
    /// path denotes the file path as given on the command line.
    pub path: String,
    /// filename denotes the final path component.
    pub filename: String,
    /// is_makefile reports whether the file looks like a makefile at all.
    pub is_makefile: bool,
    /// build_system names the tool the file is written for, e.g. "make".
    pub build_system: String,
    /// is_machine_generated reports whether a generator emitted the file.
    pub is_machine_generated: bool,
}

impl View for Metadata {
    type V = MetadataV;

    open spec fn view(&self) -> MetadataV {
        MetadataV {
            path: self.path@,
            filename: self.filename@,
            is_makefile: self.is_makefile,
            build_system: self.build_system@,
            is_machine_generated: self.is_machine_generated,
        }
    }
}

} // verus!
