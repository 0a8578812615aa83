//! Identifiers: interned name strings.

use vstd::prelude::*;
use crate::context::{context_wf, Context};

verus! {

/// An interned name string.
///
/// The text is registered in the context's string cache on creation;
/// equality is by content.
#[derive(Debug)]
pub struct Identifier {
    /// The identifier's text.
    pub text: String,
}

impl Identifier {
    /// Creates an identifier, interning its text in the context's
    /// string cache.
    pub fn new(context: &mut Context, name: &str) -> (r: Identifier)
        requires
            context_wf(*old(context)),
        ensures
            context_wf(*final(context)),
            r.text@ == name@,
            exists|i: int| 0 <= i < final(context).strings@.len()
                && #[trigger] final(context).strings@[i]@ == name@,
            final(context).allocated_operations == old(context).allocated_operations,
            final(context).next_id == old(context).next_id,
            final(context).dialects == old(context).dialects,
            final(context).allow_unregistered == old(context).allow_unregistered,
    {
        let idx = context.intern(name);
        Identifier { text: name.to_owned() }
    }

    /// The identifier's text.
    pub fn as_str(&self) -> (r: &str)
        ensures
            r@ == self.text@,
    {
        self.text.as_str()
    }
}

impl PartialEq for Identifier {
    /// Identifiers compare by their text.
    fn eq(&self, other: &Self) -> (r: bool)
    {
        crate::text::str_eq(self.text.as_str(), other.text.as_str())
    }
}

impl vstd::std_specs::cmp::PartialEqSpecImpl for Identifier {
    open spec fn obeys_eq_spec() -> bool {
        true
    }

    open spec fn eq_spec(&self, other: &Self) -> bool {
        self.text@ == other.text@
    }
}

impl Eq for Identifier {}

} // verus!
