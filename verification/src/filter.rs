//! Module filtering: a record whose module path is on the shared list is
//! suppressed before it reaches any appender.

use vstd::prelude::*;
use crate::strutil::eq_str;

verus! {

/// Declares dark_std's `SyncVec`, the shared list the module filter keeps;
/// its values are opaque here and spoken of through `module_list`.
#[verifier::external_type_specification]
#[verifier::external_body]
#[verifier::reject_recursive_types(V)]
pub struct ExSyncVec<V>(dark_std::sync::SyncVec<V>);

/// The strings a shared module list holds, in insertion order.
pub uninterp spec fn module_list(v: dark_std::sync::SyncVec<String>) -> Seq<String>;

/// Relies on dark_std's `SyncVec::new`: a new list holds nothing.
#[verifier::external_body]
fn sync_vec_new() -> (v: dark_std::sync::SyncVec<String>)
    ensures
        module_list(v) == Seq::<String>::empty(),
{
    dark_std::sync::SyncVec::new()
}

/// Relies on dark_std's `SyncVec::push`: appends the value at the end; the
/// `&mut` receiver guarantees no concurrent access while it runs.
#[verifier::external_body]
fn sync_vec_push(v: &mut dark_std::sync::SyncVec<String>, s: String)
    ensures
        module_list(*final(v)) == module_list(*old(v)).push(s),
{
    let _ = v.push(s);
}

/// Relies on dark_std's `SyncVec::len`: how many values the list holds.
#[verifier::external_body]
fn sync_vec_len(v: &dark_std::sync::SyncVec<String>) -> (n: usize)
    ensures
        n == module_list(*v).len(),
{
    v.len()
}

/// Relies on dark_std's `SyncVec::get`: the value at the index, if the index
/// is within the list.
#[verifier::external_body]
fn sync_vec_get<'a>(v: &'a dark_std::sync::SyncVec<String>, i: usize) -> (r: Option<&'a String>)
    ensures
        match r {
            Some(s) => i < module_list(*v).len() && s@ == module_list(*v)[i as int]@,
            None => i >= module_list(*v).len(),
        },
{
    v.get(i)
}

/// Decides which records are written: `true` means the record from the given
/// module passes, `false` means it is suppressed.
pub trait Filter: Send + Sync {
    fn do_log(&self, module: &str) -> bool;
}

/// Suppresses records whose module path equals an entry of `modules`.
pub struct ModuleFilter {
    pub modules: dark_std::sync::SyncVec<String>,
}

impl ModuleFilter {
    pub fn new() -> (r: ModuleFilter)
        ensures
            module_list(r.modules) == Seq::<String>::empty(),
    {
        ModuleFilter { modules: sync_vec_new() }
    }

    /// Adds one module path to the suppression list.
    pub fn push_module(&mut self, m: String)
        ensures
            module_list(final(self).modules) == module_list(old(self).modules).push(m),
    {
        sync_vec_push(&mut self.modules, m);
    }

    /// The module is suppressed exactly when it equals a listed entry.
    pub open spec fn spec_suppresses(self, module: Seq<char>) -> bool {
        exists|i: int|
            0 <= i < module_list(self.modules).len() && module_list(self.modules)[i]@ == module
    }

    pub fn suppresses(&self, module: &str) -> (r: bool)
        ensures
            r == self.spec_suppresses(module@),
    {
        let n = sync_vec_len(&self.modules);
        let mut i: usize = 0;
        while i < n
            invariant
                i <= n,
                n == module_list(self.modules).len(),
                forall|j: int| 0 <= j < i ==> module_list(self.modules)[j]@ != module@,
            decreases n - i,
        {
            match sync_vec_get(&self.modules, i) {
                Some(s) => {
                    if eq_str(s.as_str(), module) {
                        return true;
                    }
                },
                None => {
                    proof {
                        assert(false);
                    }
                },
            }
            i += 1;
        }
        false
    }
}

impl Filter for ModuleFilter {
    /// A record passes exactly when its module is not on the list.
    fn do_log(&self, module: &str) -> (r: bool)
        ensures
            r == !self.spec_suppresses(module@),
    {
        !self.suppresses(module)
    }
}

} // verus!
