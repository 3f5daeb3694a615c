//! A loaded bundle: an entry file and the files it imports, transitively.
use vstd::prelude::*;
use crate::ast::Spec;

verus! {

/// One file of a bundle, with its imports resolved to canonical paths.
#[derive(Debug, PartialEq)]
pub struct BundleFileAst {
    pub path: String,
    pub package: String,
    pub imports: Vec<String>,
    pub spec: Spec,
}

/// An entry file with every file it imports, each listed after the files it
/// imports, and the import graph in increasing path order.
#[derive(Debug, PartialEq)]
pub struct BundleAst {
    pub entry: String,
    pub import_root: String,
    pub files: Vec<BundleFileAst>,
    pub import_graph: Vec<(String, Vec<String>)>,
}

} // verus!
