//! Tools granted by name.
use crate::text;
use vstd::prelude::*;

verus! {

/// The names of the tools an agent may use.
pub struct Capabilities {
    pub tools: Vec<String>,
}

impl Capabilities {
    pub fn from_names(names: Vec<String>) -> (r: Capabilities)
        ensures
            r.tools == names,
    {
        Capabilities { tools: names }
    }

    pub fn allows_tool(&self, name: &str) -> (r: bool)
        ensures
            r == text::texts(self.tools@).contains(name@),
    {
        let ghost all = text::texts(self.tools@);
        let mut i: usize = 0;
        while i < self.tools.len()
            invariant
                i <= self.tools@.len(),
                all == text::texts(self.tools@),
                forall|k: int| 0 <= k < i ==> all[k] != name@,
            decreases self.tools@.len() - i,
        {
            assert(all[i as int] == self.tools@[i as int]@);
            if text::same(self.tools[i].as_str(), name) {
                return true;
            }
            i = i + 1;
        }
        false
    }
}

impl Default for Capabilities {
    fn default() -> (r: Capabilities)
        ensures
            r.tools@ == Seq::<String>::empty(),
    {
        Capabilities { tools: Vec::new() }
    }
}

} // verus!
