//! Column headers of the data tables.
use vstd::prelude::*;

verus! {

/// A column header: its label, whether it sorts, its classes and the field
/// it sorts by.
pub struct HeaderColumn {
    pub label: String,
    pub sortable: bool,
    pub class: String,
    pub field: Option<String>,
}

impl HeaderColumn {
    /// A header with the given label, sorting, classes and field.
    pub fn new(label: &str, sortable: bool, class: &str, field: Option<&str>) -> (r: HeaderColumn)
        ensures
            r.label@ == label@,
            r.sortable == sortable,
            r.class@ == class@,
            match field {
                Some(f) => r.field matches Some(x) && x@ == f@,
                None => r.field is None,
            },
    {
        HeaderColumn {
            label: String::from_str(label),
            sortable,
            class: String::from_str(class),
            field: match field {
                Some(f) => Some(String::from_str(f)),
                None => None,
            },
        }
    }
}

} // verus!
