//! The static type-checker configuration written into every generated
//! project.

use vstd::prelude::*;

verus! {

pub struct PyprojectTomlFile {}

/// The configuration text, fixed for every project.
pub open spec fn pyproject_toml_spec() -> Seq<char> {
    "[tool.basedpyright]\nreportImplicitRelativeImport = false\nreportImplicitOverride = false\nreportUnusedCallResult = false\nreportUnannotatedClassAttribute = false\nreportMissingTypeStubs = false\nreportWildcardImportFromLibrary = false\nreportAny = false\n"@
}

impl PyprojectTomlFile {
    pub fn build_content() -> (r: String)
        ensures
            r@ == pyproject_toml_spec(),
    {
        "[tool.basedpyright]\nreportImplicitRelativeImport = false\nreportImplicitOverride = false\nreportUnusedCallResult = false\nreportUnannotatedClassAttribute = false\nreportMissingTypeStubs = false\nreportWildcardImportFromLibrary = false\nreportAny = false\n".to_owned()
    }
}

} // verus!
