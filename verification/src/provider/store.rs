use super::model::Widget;
use vstd::prelude::*;

verus! {

/// The file the provider keeps its widgets in.
pub const FILE_NAME: &'static str = "widget.json";

/// Where the provider keeps its widgets.
pub struct Store {
    pub path: String,
}

impl Store {
    /// The widgets kept in the store: none, for this provider starts empty every time.
    pub fn load(&self) -> (widgets: Vec<Widget>)
        ensures
            widgets@.len() == 0,
    {
        Vec::new()
    }
}

} // verus!
