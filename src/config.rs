//! Settings that outlive a run.
use vstd::prelude::*;

use crate::package::strings_view;

verus! {

/// The binary cache to push to and the recipes never to touch.
pub struct Config {
    pub cachix_name: String,
    pub excluded_packages: Vec<String>,
}

impl Config {
    /// Whether recipe `package_name` is excluded.
    pub fn is_excluded(&self, package_name: &str) -> (r: bool)
        ensures
            r == exists|i: int| 0 <= i < self.excluded_packages@.len() && #[trigger] strings_view(self.excluded_packages@)[i] == package_name@,
    {
        let name = package_name.to_string();
        let ghost names = strings_view(self.excluded_packages@);
        let mut i: usize = 0;
        while i < self.excluded_packages.len()
            invariant
                name@ == package_name@,
                names == strings_view(self.excluded_packages@),
                forall|k: int| 0 <= k < i ==> #[trigger] names[k] != package_name@,
            decreases self.excluded_packages@.len() - i,
        {
            proof {
                assert(names[i as int] == self.excluded_packages@[i as int]@);
            }
            if self.excluded_packages[i] == name {
                return true;
            }
            i = i + 1;
        }
        false
    }
}

} // verus!
