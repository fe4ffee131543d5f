//! Classes: the courses tasks belong to.
use vstd::prelude::*;

verus! {

/// A class (course) of a semester.
pub struct Class {
    pub id: i64,
    pub course_code: String,
    pub name: Option<String>,
    pub semester: String,
    pub color: Option<String>,
    pub active: bool,
}

/// A class to create.
pub struct NewClass {
    pub course_code: String,
    pub name: Option<String>,
    pub semester: String,
    pub color: Option<String>,
}

/// A class's new fields.
pub struct UpdateClass {
    pub id: i64,
    pub course_code: String,
    pub name: Option<String>,
    pub semester: String,
    pub color: Option<String>,
    pub active: bool,
}

/// A class listed in the `include_inactive` listing: every class when
/// inactive ones are included, else the active ones only.
pub open spec fn listed(c: Class, include_inactive: bool) -> bool {
    include_inactive || c.active
}

/// Whether a class belongs in the listing.
pub fn is_listed(c: &Class, include_inactive: bool) -> (r: bool)
    ensures
        r == listed(*c, include_inactive),
{
    include_inactive || c.active
}

} // verus!
