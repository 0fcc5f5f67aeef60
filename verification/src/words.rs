//! The two word categories and their stored tags.

use vstd::prelude::*;

verus! {

/// The category of a stored word: a `Descriptor` plays the adjective role
/// of a phrase, a `Subject` the noun role.
#[derive(Clone, Copy, Debug, PartialEq, Eq, Structural)]
pub enum Category {
    Descriptor,
    Subject,
}

/// The tag under which a category is stored in a remote record.
pub open spec fn category_tag(c: Category) -> Seq<char> {
    if c == Category::Descriptor {
        "descriptor"@
    } else {
        "subject"@
    }
}

/// The category a stored tag denotes, if any.
pub open spec fn category_of_tag(t: Seq<char>) -> Option<Category> {
    if t == "descriptor"@ {
        Some(Category::Descriptor)
    } else if t == "subject"@ {
        Some(Category::Subject)
    } else {
        None
    }
}

impl Category {
    /// The tag under which this category is stored.
    pub fn tag(&self) -> (r: String)
        ensures
            r@ == category_tag(*self),
    {
        match self {
            Category::Descriptor => String::from_str("descriptor"),
            Category::Subject => String::from_str("subject"),
        }
    }

    /// Reads a stored tag back into a category; unknown tags give `None`.
    pub fn from_tag(t: &str) -> (r: Option<Category>)
        ensures
            r == category_of_tag(t@),
    {
        if crate::text::str_eq(t, "descriptor") {
            Some(Category::Descriptor)
        } else if crate::text::str_eq(t, "subject") {
            Some(Category::Subject)
        } else {
            None
        }
    }
}

} // verus!
