use vstd::prelude::*;

verus! {

/// A widget as the provider keeps it.
#[derive(Clone, Debug)]
pub struct Widget {
    pub id: i64,
    pub text: String,
}

impl Widget {
    /// The file the provider keeps its widgets in.
    pub fn file_name() -> (name: &'static str)
        ensures
            name@ == "widget.json"@,
    {
        super::store::FILE_NAME
    }
}

} // verus!
