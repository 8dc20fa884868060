//! Identifiers of user-interface widgets.

use vstd::prelude::*;

verus! {

/// A kind of widget identifier: each new one is generated from the last.
pub trait WidgetId: Sized + Clone + PartialEq + Eq + core::hash::Hash + Send + Sync + core::fmt::Display + 'static {
    /// The last identifier (`None` before the first) can be followed by
    /// another.
    spec fn can_follow(last: Option<Self>) -> bool;

    /// The identifier that comes after `last`.
    fn generate(last: &Option<Self>) -> Self
        requires
            Self::can_follow(*last),
    ;
}

impl WidgetId for u32 {
    open spec fn can_follow(last: Option<u32>) -> bool {
        last != Some(u32::MAX)
    }

    /// One more than the last identifier; 0 for the first.
    fn generate(last: &Option<u32>) -> (id: u32)
        ensures
            id == match *last {
                Some(l) => l + 1,
                None => 0,
            },
    {
        match last {
            Some(l) => *l + 1,
            None => 0,
        }
    }
}

} // verus!
