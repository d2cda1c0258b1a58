//! Read-only authorization queries over a table snapshot.

use vstd::prelude::*;

use crate::Action;
use crate::ActionV;
use crate::Possession;
use crate::PossessionV;
use crate::Rights;
use crate::action_from_str;
use crate::action_of;
use crate::grant_adds;
use crate::possession_from_str;
use crate::possession_of;
use crate::right::Right;
use crate::right::RightV;
use crate::right::contains_right;
use crate::right::has_right;
use crate::pattern::parsed_right;
use crate::pattern::pattern_ok;
use crate::table_contains_role;
use crate::table_equiv;
use crate::table_grants;

verus! {

/// A point-in-time view: one or more role names and an owned copy of the
/// access table as it stood when the query was built.  Later grants to the
/// originating control never reach it.
#[derive(Debug)]
pub struct Query {
    pub roles: Vec<String>,
    pub rights: Rights,
}

/// Why a bulk rights check stopped: the pattern after `checked` successful
/// ones is malformed, or its right is not held by the queried roles.
#[derive(Debug, Eq, PartialEq, Hash, Clone, Copy)]
pub enum CheckRightsError {
    Malformed { checked: usize },
    Unauthorized { checked: usize },
}

impl Query {
    /// What the query allows: some listed role's entry in the snapshot
    /// grants the right.
    pub open spec fn allows(&self, r: RightV) -> bool {
        exists|k: int|
            0 <= k < self.roles@.len() && table_grants(self.rights@, (#[trigger] self.roles@[k])@, r)
    }

    /// Whether one pattern of a bulk check passes: it is well formed and
    /// the right it denotes is allowed.
    pub open spec fn pattern_allowed(&self, s: Seq<char>) -> bool {
        pattern_ok(s) && self.allows(parsed_right(s))
    }

    pub fn new(roles: Vec<String>, rights: Rights) -> (q: Query)
        ensures
            q.roles == roles,
            q.rights == rights,
    {
        Query { roles, rights }
    }

    /// True iff any of the query's roles holds, in the snapshot, a right
    /// equal to the candidate built from the three arguments.
    pub fn check(&self, action: Action, possession: Possession, resource: String) -> (r: bool)
        ensures
            r == self.allows(
                RightV { action: action@, resource: resource@, possession: possession@ },
            ),
    {
        let candidate = Right { action, resource, possession };
        self.holds(&candidate)
    }

    /// True iff any of the query's roles holds, in the snapshot, a right
    /// equal to the candidate.
    fn holds(&self, candidate: &Right) -> (r: bool)
        ensures
            r == self.allows(candidate@),
    {
        let mut k: usize = 0;
        while k < self.roles.len()
            invariant
                k <= self.roles@.len(),
                forall|k2: int|
                    0 <= k2 < k ==> !table_grants(
                        self.rights@,
                        (#[trigger] self.roles@[k2])@,
                        candidate@,
                    ),
            decreases self.roles@.len() - k,
        {
            let mut i: usize = 0;
            while i < self.rights.len()
                invariant
                    k < self.roles@.len(),
                    i <= self.rights@.len(),
                    forall|i2: int|
                        0 <= i2 < i ==> !((#[trigger] self.rights@[i2]).role@
                            == self.roles@[k as int]@ && has_right(
                            self.rights@[i2].rights@,
                            candidate@,
                        )),
                decreases self.rights@.len() - i,
            {
                if self.rights[i].role == self.roles[k] {
                    if contains_right(&self.rights[i].rights, &candidate) {
                        proof {
                            assert(table_grants(self.rights@, self.roles@[k as int]@, candidate@));
                            assert(self.allows(candidate@));
                        }
                        return true;
                    }
                }
                i += 1;
            }
            k += 1;
        }
        false
    }

    /// Decomposes the right and forwards to `check`.
    pub fn execute_right(&self, right: Right) -> (r: bool)
        ensures
            r == self.allows(right@),
    {
        self.check(right.action, right.possession, right.resource)
    }

    /// String-based convenience: resolves the two names exactly as
    /// `Right::new` does, then forwards to `check`.
    pub fn access(&self, action: &str, possession: &str, resource: &str) -> (r: bool)
        ensures
            r == self.allows(
                RightV {
                    action: action_of(action@),
                    resource: resource@,
                    possession: possession_of(possession@),
                },
            ),
    {
        self.check(action_from_str(action), possession_from_str(possession), resource.to_owned())
    }

    /// Checks a list of `action:possession/resource` patterns in order,
    /// stopping at the first one that is malformed or whose right is not
    /// held; the error carries how many patterns had passed before it.
    pub fn check_rights(&self, patterns: &Vec<String>) -> (res: Result<(), CheckRightsError>)
        ensures
            res is Ok <==> (forall|m: int|
                0 <= m < patterns@.len() ==> self.pattern_allowed((#[trigger] patterns@[m])@)),
            res matches Err(e) ==> match e {
                CheckRightsError::Malformed { checked } => {
                    &&& (checked as int) < patterns@.len()
                    &&& !pattern_ok(patterns@[checked as int]@)
                    &&& forall|m: int|
                        0 <= m < checked as int ==> self.pattern_allowed((#[trigger] patterns@[m])@)
                },
                CheckRightsError::Unauthorized { checked } => {
                    &&& (checked as int) < patterns@.len()
                    &&& pattern_ok(patterns@[checked as int]@)
                    &&& !self.allows(parsed_right(patterns@[checked as int]@))
                    &&& forall|m: int|
                        0 <= m < checked as int ==> self.pattern_allowed((#[trigger] patterns@[m])@)
                },
            },
    {
        let mut n: usize = 0;
        while n < patterns.len()
            invariant
                n <= patterns@.len(),
                forall|m: int| 0 <= m < n ==> self.pattern_allowed((#[trigger] patterns@[m])@),
            decreases patterns@.len() - n,
        {
            match Right::from_pattern(patterns[n].as_str()) {
                Ok(right) => {
                    if !self.execute_right(right) {
                        return Err(CheckRightsError::Unauthorized { checked: n });
                    }
                },
                Err(_) => {
                    return Err(CheckRightsError::Malformed { checked: n });
                },
            }
            n += 1;
        }
        Ok(())
    }

    pub fn create_own(&self, resource: &str) -> (r: bool)
        ensures
            r == self.allows(
                RightV {
                    action: ActionV::Create,
                    resource: resource@,
                    possession: PossessionV::Own,
                },
            ),
    {
        self.check(Action::Create, Possession::Own, resource.to_owned())
    }

    pub fn create_any(&self, resource: &str) -> (r: bool)
        ensures
            r == self.allows(
                RightV {
                    action: ActionV::Create,
                    resource: resource@,
                    possession: PossessionV::Any,
                },
            ),
    {
        self.check(Action::Create, Possession::Any, resource.to_owned())
    }

    /// Alias for `create_any`: the unqualified check takes the broadest,
    /// any-possession reading.
    pub fn create(&self, resource: &str) -> (r: bool)
        ensures
            r == self.allows(
                RightV {
                    action: ActionV::Create,
                    resource: resource@,
                    possession: PossessionV::Any,
                },
            ),
    {
        self.create_any(resource)
    }

    pub fn read_own(&self, resource: &str) -> (r: bool)
        ensures
            r == self.allows(
                RightV { action: ActionV::Read, resource: resource@, possession: PossessionV::Own },
            ),
    {
        self.check(Action::Read, Possession::Own, resource.to_owned())
    }

    pub fn read_any(&self, resource: &str) -> (r: bool)
        ensures
            r == self.allows(
                RightV { action: ActionV::Read, resource: resource@, possession: PossessionV::Any },
            ),
    {
        self.check(Action::Read, Possession::Any, resource.to_owned())
    }

    /// Alias for `read_any`.
    pub fn read(&self, resource: &str) -> (r: bool)
        ensures
            r == self.allows(
                RightV { action: ActionV::Read, resource: resource@, possession: PossessionV::Any },
            ),
    {
        self.read_any(resource)
    }

    pub fn update_own(&self, resource: &str) -> (r: bool)
        ensures
            r == self.allows(
                RightV {
                    action: ActionV::Update,
                    resource: resource@,
                    possession: PossessionV::Own,
                },
            ),
    {
        self.check(Action::Update, Possession::Own, resource.to_owned())
    }

    pub fn update_any(&self, resource: &str) -> (r: bool)
        ensures
            r == self.allows(
                RightV {
                    action: ActionV::Update,
                    resource: resource@,
                    possession: PossessionV::Any,
                },
            ),
    {
        self.check(Action::Update, Possession::Any, resource.to_owned())
    }

    /// Alias for `update_any`.
    pub fn update(&self, resource: &str) -> (r: bool)
        ensures
            r == self.allows(
                RightV {
                    action: ActionV::Update,
                    resource: resource@,
                    possession: PossessionV::Any,
                },
            ),
    {
        self.update_any(resource)
    }

    pub fn delete_own(&self, resource: &str) -> (r: bool)
        ensures
            r == self.allows(
                RightV {
                    action: ActionV::Delete,
                    resource: resource@,
                    possession: PossessionV::Own,
                },
            ),
    {
        self.check(Action::Delete, Possession::Own, resource.to_owned())
    }

    pub fn delete_any(&self, resource: &str) -> (r: bool)
        ensures
            r == self.allows(
                RightV {
                    action: ActionV::Delete,
                    resource: resource@,
                    possession: PossessionV::Any,
                },
            ),
    {
        self.check(Action::Delete, Possession::Any, resource.to_owned())
    }

    /// Alias for `delete_any`.
    pub fn delete(&self, resource: &str) -> (r: bool)
        ensures
            r == self.allows(
                RightV {
                    action: ActionV::Delete,
                    resource: resource@,
                    possession: PossessionV::Any,
                },
            ),
    {
        self.delete_any(resource)
    }
}

/// A query scoped only to roles that are absent from its snapshot allows
/// nothing at all.
pub proof fn lemma_absent_roles_denied(q: Query, cand: RightV)
    requires
        forall|k: int|
            0 <= k < q.roles@.len() ==> !table_contains_role(q.rights@, (#[trigger] q.roles@[k])@),
    ensures
        !q.allows(cand),
{
    if q.allows(cand) {
        let k = choose|k: int|
            0 <= k < q.roles@.len() && table_grants(q.rights@, (#[trigger] q.roles@[k])@, cand);
        let i = choose|i: int|
            0 <= i < q.rights@.len() && q.rights@[i].role@ == q.roles@[k]@ && has_right(
                q.rights@[i].rights@,
                cand,
            );
        assert(table_contains_role(q.rights@, q.roles@[k]@));
        assert(false);
    }
}

/// Two queries over the same role names and entry-wise equal snapshots
/// answer alike: a verdict is a function of the role list and the captured
/// table alone.
pub proof fn lemma_allows_from_snapshot(q1: Query, q2: Query, cand: RightV)
    requires
        q1.roles@.len() == q2.roles@.len(),
        forall|k: int| 0 <= k < q1.roles@.len() ==> (#[trigger] q1.roles@[k])@ == q2.roles@[k]@,
        table_equiv(q1.rights@, q2.rights@),
    ensures
        q1.allows(cand) == q2.allows(cand),
{
    crate::lemma_table_equiv_grants(q1.rights@, q2.rights@);
    if q1.allows(cand) {
        let k = choose|k: int|
            0 <= k < q1.roles@.len() && table_grants(q1.rights@, (#[trigger] q1.roles@[k])@, cand);
        assert(table_grants(q2.rights@, q2.roles@[k]@, cand));
    }
    if q2.allows(cand) {
        let k = choose|k: int|
            0 <= k < q2.roles@.len() && table_grants(q2.rights@, (#[trigger] q2.roles@[k])@, cand);
        assert(table_grants(q1.rights@, q1.roles@[k]@, cand));
    }
}

/// Snapshot isolation: a query answers by the table it captured when it was
/// built.  A grant made to the originating control afterwards produces a
/// new table `later`, and the query's verdict still reads only its own
/// snapshot.
pub proof fn lemma_snapshot_isolation(
    q: Query,
    later: Seq<crate::RoleRights>,
    role: Seq<char>,
    right: RightV,
    cand: RightV,
)
    requires
        grant_adds(q.rights@, later, role, right),
    ensures
        q.allows(cand) <==> (exists|k: int|
            0 <= k < q.roles@.len() && table_grants(q.rights@, (#[trigger] q.roles@[k])@, cand)),
{
}

} // verus!
