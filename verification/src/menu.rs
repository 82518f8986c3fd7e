use vstd::prelude::*;

verus! {

/// A numbered choice menu: a header line and the selectable options, in
/// display order. Prompting and printing are the caller's business; the
/// core only carries the data.
pub struct ChoiceMenu {
    pub header: String,
    pub options: Vec<String>,
}

impl ChoiceMenu {
    pub fn new(header: &str, options: Vec<String>) -> (m: ChoiceMenu)
        ensures
            m.header@ == header@,
            m.options == options,
    {
        ChoiceMenu { header: header.to_owned(), options }
    }
}

} // verus!
