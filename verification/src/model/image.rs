use vstd::prelude::*;

verus! {

/// A picture object. `xml` is its `<hp:pic>` element, as the picture writer renders it;
/// the section and table serializers place it verbatim.
#[derive(Debug, Clone, Default)]
pub struct Picture {
    pub xml: String,
}

} // verus!
