pub mod call_chain;
pub mod call_chain_ranges;
pub mod class;
pub mod class_file;
pub mod completion;
pub mod definition;
pub mod document;
pub mod dto;
pub mod hover;
pub mod imports;
pub mod java;
pub mod loader;
pub mod lsp;
pub mod maven;
pub mod position;
pub mod references;
pub mod signature;
pub mod text;
pub mod treesitter;
pub mod tyres;
pub mod variable;

use vstd::prelude::*;

use crate::dto::Class;
use crate::java::syntax::spec_java_syntax;
use crate::java::{class_at, JavaErr, ParseJavaError};
use crate::loader::{SourceDestination, SourceView};

verus! {

/// Reads the class that the Java file `file` holds, with `file` as where
/// its source lies.
pub fn update_project_java_file(file: &str, bytes: &[u8]) -> (r: Result<Class, ParseJavaError>)
    ensures
        match spec_java_syntax(bytes@) {
            None => r matches Err(x) && x@ == JavaErr::Treesitter(crate::treesitter::TreesitterError::NoNodeFound),
            Some(nv) => match class_at(nv, bytes@, SourceView::Here(file@)) {
                Ok(c) => r matches Ok(x) && x@ == c,
                Err(e) => r matches Err(x) && x@ == e,
            },
        },
{
    load_java(bytes, SourceDestination::Here(file.to_string()))
}

/// Reads the class that the Java file `data` declares (see
/// `java::load_java`).
pub fn load_java(data: &[u8], source: SourceDestination) -> (r: Result<Class, ParseJavaError>)
    ensures
        match spec_java_syntax(data@) {
            None => r matches Err(x) && x@ == JavaErr::Treesitter(crate::treesitter::TreesitterError::NoNodeFound),
            Some(nv) => match class_at(nv, data@, source@) {
                Ok(c) => r matches Ok(x) && x@ == c,
                Err(e) => r matches Err(x) && x@ == e,
            },
        },
{
    java::load_java(data, source)
}

} // verus!
