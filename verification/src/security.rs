//! Request authorization: the identity layer hands each request an optional
//! security context (user and group memberships); a guard decides from it
//! alone whether the request may proceed.

use crate::query::str_views;
use vstd::prelude::*;

verus! {

/// The authenticated caller of a request: a user id and the groups the
/// caller belongs to.
pub struct SecurityContext {
    pub user_id: u32,
    pub groups: Vec<String>,
}

impl SecurityContext {
    /// Wrap an authenticated user and group set.
    pub fn new(user_id: u32, groups: Vec<String>) -> (r: Self)
        ensures
            r.user_id == user_id,
            r.groups@ == groups@,
    {
        Self { user_id, groups }
    }

    /// Whether the caller belongs to the named group.
    pub fn has_group(&self, group: &str) -> (r: bool)
        ensures
            r == str_views(self.groups@).contains(group@),
    {
        let key = String::from_str(group);
        let n = self.groups.len();
        let mut i: usize = 0;
        while i < n
            invariant
                n == self.groups.len(),
                key@ == group@,
                0 <= i <= n,
                forall|j: int| 0 <= j < i ==> str_views(self.groups@)[j] != group@,
            decreases n - i,
        {
            if self.groups[i] == key {
                proof {
                    assert(str_views(self.groups@)[i as int] == group@);
                }
                return true;
            }
            proof {
                assert(str_views(self.groups@)[i as int] == self.groups@[i as int]@);
            }
            i = i + 1;
        }
        proof {
            if str_views(self.groups@).contains(group@) {
                let j = choose|j: int|
                    0 <= j < str_views(self.groups@).len() && str_views(self.groups@)[j]
                        == group@;
                assert(false);
            }
        }
        false
    }
}

/// An authorization guard: either any authenticated base user may pass, or
/// developers only.
pub struct Authorized {
    pub only_developer: bool,
}

/// The group a guard demands.
pub open spec fn spec_required_group(only_developer: bool) -> Seq<char> {
    if only_developer {
        "DEVELOPER"@
    } else {
        "BASE_ACCESS"@
    }
}

impl Authorized {
    /// A guard that admits every authenticated base user.
    pub fn all() -> (r: Self)
        ensures
            r.only_developer == false,
    {
        Self { only_developer: false }
    }

    /// A guard that admits developers only.
    pub fn developers() -> (r: Self)
        ensures
            r.only_developer == true,
    {
        Self { only_developer: true }
    }

    /// The authorization decision: a request passes exactly when it carries
    /// a security context whose groups include the guard's required group.
    pub fn authorizes(&self, ctx: Option<&SecurityContext>) -> (r: bool)
        ensures
            r == match ctx {
                Some(c) => str_views(c.groups@).contains(spec_required_group(self.only_developer)),
                None => false,
            },
    {
        match ctx {
            None => false,
            Some(c) => if self.only_developer {
                c.has_group("DEVELOPER")
            } else {
                c.has_group("BASE_ACCESS")
            },
        }
    }
}

} // verus!
