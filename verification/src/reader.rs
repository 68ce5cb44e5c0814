//! The content loader's logic: which document text the detail view gets
//! for a spec.
//!
//! The disk reads themselves happen outside; this module is handed each
//! read's result and decides what the view shows.  A document counts as
//! absent both when no path was ever recorded for it and when the read of
//! a recorded path failed — the two causes are deliberately not told
//! apart.

use crate::finder::SpecSet;
use vstd::prelude::*;

verus! {

/// The texts of a spec's three documents, as far as they are present.
#[derive(Debug)]
pub struct SpecContent {
    pub requirements: Option<String>,
    pub design: Option<String>,
    pub tasks: Option<String>,
}

/// What the loader owes for one document: absent when no path was
/// recorded, and otherwise whatever the read of that path returned.
pub open spec fn spec_loaded(path: Option<String>, read: Option<String>) -> Option<String> {
    match path {
        Some(_) => read,
        None => None,
    }
}

/// Resolves one document: absent without a recorded path, else the read's
/// result, so that a vanished file shows as absent rather than failing.
pub fn read_spec_file(path: &Option<String>, read: Option<String>) -> (r: Option<String>)
    ensures
        r == spec_loaded(*path, read),
{
    match path {
        Some(_) => read,
        None => None,
    }
}

/// Gathers a spec's three documents from the results of reading each
/// recorded path.
pub fn read_spec_content(
    spec_set: &SpecSet,
    requirements: Option<String>,
    design: Option<String>,
    tasks: Option<String>,
) -> (r: SpecContent)
    ensures
        r.requirements == spec_loaded(spec_set.requirements, requirements),
        r.design == spec_loaded(spec_set.design, design),
        r.tasks == spec_loaded(spec_set.tasks, tasks),
{
    SpecContent {
        requirements: read_spec_file(&spec_set.requirements, requirements),
        design: read_spec_file(&spec_set.design, design),
        tasks: read_spec_file(&spec_set.tasks, tasks),
    }
}

} // verus!
