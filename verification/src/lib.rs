//! Role-based access control decisions.
//!
//! A caller grants [`right::Right`]s to named roles through an
//! [`AccessControl`], then asks for a [`query::Query`] over one or more
//! roles.  The query snapshots the table at construction time and answers
//! "is this action, with this possession qualifier, on this resource,
//! permitted?" against that snapshot alone.

use vstd::prelude::*;

pub mod pattern;
pub mod query;
pub mod right;

use crate::query::Query;
use crate::right::Right;
use crate::right::RightV;
use crate::right::clone_rights_vec;
use crate::right::contains_right;
use crate::right::has_right;

verus! {

/// The verb being authorized.  Four closed variants cover the classic
/// create/read/update/delete vocabulary; every other name is carried
/// verbatim in `Custom`.
#[derive(Debug, Eq, PartialEq, Hash, Clone)]
pub enum Action {
    Create,
    Read,
    Update,
    Delete,
    Custom(String),
}

/// Ownership qualifier of an action: the caller's own resource instance
/// (`Own`), any instance (`Any`), or a domain-specific qualifier.
#[derive(Debug, Eq, PartialEq, Hash, Clone)]
pub enum Possession {
    Any,
    Own,
    Custom(String),
}

/// Mathematical mirror of [`Action`]: the custom name is a character sequence.
pub enum ActionV {
    Create,
    Read,
    Update,
    Delete,
    Custom(Seq<char>),
}

/// Mathematical mirror of [`Possession`].
pub enum PossessionV {
    Any,
    Own,
    Custom(Seq<char>),
}

impl View for Action {
    type V = ActionV;

    open spec fn view(&self) -> ActionV {
        match self {
            Action::Create => ActionV::Create,
            Action::Read => ActionV::Read,
            Action::Update => ActionV::Update,
            Action::Delete => ActionV::Delete,
            Action::Custom(name) => ActionV::Custom(name@),
        }
    }
}

impl View for Possession {
    type V = PossessionV;

    open spec fn view(&self) -> PossessionV {
        match self {
            Possession::Any => PossessionV::Any,
            Possession::Own => PossessionV::Own,
            Possession::Custom(name) => PossessionV::Custom(name@),
        }
    }
}

/// How an action name resolves: the four literal names map to the closed
/// variants, case-sensitively; everything else becomes `Custom` carrying
/// the exact name.
pub open spec fn action_of(s: Seq<char>) -> ActionV {
    if s == "create"@ {
        ActionV::Create
    } else if s == "read"@ {
        ActionV::Read
    } else if s == "update"@ {
        ActionV::Update
    } else if s == "delete"@ {
        ActionV::Delete
    } else {
        ActionV::Custom(s)
    }
}

/// How a possession name resolves: "own" and "any" map to the closed
/// variants; everything else becomes `Custom` carrying the exact name.
pub open spec fn possession_of(s: Seq<char>) -> PossessionV {
    if s == "own"@ {
        PossessionV::Own
    } else if s == "any"@ {
        PossessionV::Any
    } else {
        PossessionV::Custom(s)
    }
}

pub(crate) fn action_from_str(s: &str) -> (a: Action)
    ensures
        a@ == action_of(s@),
{
    let t: String = s.to_owned();
    if t == "create".to_owned() {
        Action::Create
    } else if t == "read".to_owned() {
        Action::Read
    } else if t == "update".to_owned() {
        Action::Update
    } else if t == "delete".to_owned() {
        Action::Delete
    } else {
        Action::Custom(t)
    }
}

pub(crate) fn possession_from_str(s: &str) -> (p: Possession)
    ensures
        p@ == possession_of(s@),
{
    let t: String = s.to_owned();
    if t == "own".to_owned() {
        Possession::Own
    } else if t == "any".to_owned() {
        Possession::Any
    } else {
        Possession::Custom(t)
    }
}

/// One access-table entry: a role and the rights granted to it.
#[derive(Debug)]
pub struct RoleRights {
    pub role: String,
    pub rights: Vec<Right>,
}

/// The access table: one entry per role, in insertion order.
pub type Rights = Vec<RoleRights>;

/// Whether some entry for `role` in the table grants the right `r`.
/// This relation is everything a query observes of a table.
pub open spec fn table_grants(t: Seq<RoleRights>, role: Seq<char>, r: RightV) -> bool {
    exists|i: int| 0 <= i < t.len() && t[i].role@ == role && has_right(t[i].rights@, r)
}

/// Whether the table has an entry for `role`.
pub open spec fn table_contains_role(t: Seq<RoleRights>, role: Seq<char>) -> bool {
    exists|i: int| 0 <= i < t.len() && t[i].role@ == role
}

/// No two rights of the same value in one entry.
pub open spec fn rights_unique(rs: Seq<Right>) -> bool {
    forall|p: int, q: int| 0 <= p < q < rs.len() ==> rs[p]@ != rs[q]@
}

/// Well-formedness of a table: one entry per role name, and each entry's
/// rights pairwise distinct (set semantics).
pub open spec fn table_wf(t: Seq<RoleRights>) -> bool {
    &&& forall|i: int, j: int| 0 <= i < j < t.len() ==> t[i].role@ != t[j].role@
    &&& forall|i: int| 0 <= i < t.len() ==> rights_unique(#[trigger] t[i].rights@)
}

/// The effect of one grant of `right` to `role`: exactly that (role, right)
/// pair joins the granted relation, and exactly that role joins the set of
/// roles present.  Granting a pair already present changes nothing.
pub open spec fn grant_adds(
    before: Seq<RoleRights>,
    after: Seq<RoleRights>,
    role: Seq<char>,
    right: RightV,
) -> bool {
    &&& forall|ro: Seq<char>, r: RightV|
        #![trigger table_grants(after, ro, r)]
        #![trigger table_grants(before, ro, r)]
        table_grants(after, ro, r) <==> (table_grants(before, ro, r) || (ro == role && r
            == right))
    &&& forall|ro: Seq<char>|
        #![trigger table_contains_role(after, ro)]
        #![trigger table_contains_role(before, ro)]
        table_contains_role(after, ro) <==> (table_contains_role(before, ro) || ro == role)
}

/// Two tables with the same entries, compared by role name and by the
/// sequence of right values.  A snapshot is equivalent, in this sense, to
/// the table it copied.
pub open spec fn table_equiv(a: Seq<RoleRights>, b: Seq<RoleRights>) -> bool {
    &&& a.len() == b.len()
    &&& forall|k: int|
        0 <= k < a.len() ==> (#[trigger] a[k]).role@ == b[k].role@ && a[k].rights@ == b[k].rights@
}

/// Equivalent tables grant the same rights to the same roles.
pub proof fn lemma_table_equiv_grants(a: Seq<RoleRights>, b: Seq<RoleRights>)
    requires
        table_equiv(a, b),
    ensures
        forall|ro: Seq<char>, r: RightV| #[trigger]
            table_grants(a, ro, r) <==> table_grants(b, ro, r),
        forall|ro: Seq<char>| #[trigger] table_contains_role(a, ro) <==> table_contains_role(b, ro),
{
    assert forall|ro: Seq<char>, r: RightV| #[trigger]
        table_grants(a, ro, r) <==> table_grants(b, ro, r) by {
        if table_grants(a, ro, r) {
            let k = choose|k: int| 0 <= k < a.len() && a[k].role@ == ro && has_right(a[k].rights@, r);
            assert(b[k].role@ == ro && has_right(b[k].rights@, r));
        }
        if table_grants(b, ro, r) {
            let k = choose|k: int| 0 <= k < b.len() && b[k].role@ == ro && has_right(b[k].rights@, r);
            assert(a[k].role@ == ro && has_right(a[k].rights@, r));
        }
    }
    assert forall|ro: Seq<char>| #[trigger]
        table_contains_role(a, ro) <==> table_contains_role(b, ro) by {
        if table_contains_role(a, ro) {
            let k = choose|k: int| 0 <= k < a.len() && a[k].role@ == ro;
            assert(b[k].role@ == ro);
        }
        if table_contains_role(b, ro) {
            let k = choose|k: int| 0 <= k < b.len() && b[k].role@ == ro;
            assert(a[k].role@ == ro);
        }
    }
}

/// Copies a table entry for entry; the copy is equivalent to the original.
pub(crate) fn clone_table(t: &Rights) -> (c: Rights)
    ensures
        table_equiv(c@, t@),
{
    let mut c: Vec<RoleRights> = Vec::new();
    let mut i: usize = 0;
    while i < t.len()
        invariant
            i <= t@.len(),
            c@.len() == i as int,
            forall|k: int|
                0 <= k < i ==> (#[trigger] c@[k]).role@ == t@[k].role@ && c@[k].rights@
                    == t@[k].rights@,
        decreases t@.len() - i,
    {
        let entry = RoleRights { role: t[i].role.clone(), rights: clone_rights_vec(&t[i].rights) };
        c.push(entry);
        i += 1;
    }
    c
}

/// The owner of the access table and its only mutation entry point.
#[derive(Debug)]
pub struct AccessControl {
    pub rights: Rights,
}

impl AccessControl {
    /// The table's set-semantics invariant; established by `new` and kept
    /// by `grant`.
    pub open spec fn wf(&self) -> bool {
        table_wf(self.rights@)
    }

    /// An empty table: no roles, no grants.
    pub fn new() -> (acl: AccessControl)
        ensures
            acl.rights@.len() == 0,
            forall|ro: Seq<char>, r: RightV| !table_grants(acl.rights@, ro, r),
            forall|ro: Seq<char>| !table_contains_role(acl.rights@, ro),
            acl.wf(),
    {
        AccessControl { rights: Vec::new() }
    }

    /// Adopts a caller-supplied table verbatim.
    pub fn with_rights(rights: Rights) -> (acl: AccessControl)
        ensures
            acl.rights == rights,
    {
        AccessControl { rights }
    }

    /// Read-only access to the live table.
    pub fn get_rights(&self) -> (r: &Rights)
        ensures
            r@ == self.rights@,
    {
        &self.rights
    }

    /// Grants `right` to `role`: the entry for `role` is created if absent,
    /// and the right joins its set.  Granting an already-present pair is a
    /// no-op; nothing else changes either way.
    pub fn grant(&mut self, role: &str, right: Right)
        ensures
            grant_adds(old(self).rights@, final(self).rights@, role@, right@),
            final(self).rights@.len() == old(self).rights@.len() + (
            if table_contains_role(old(self).rights@, role@) {
                0int
            } else {
                1int
            }),
            old(self).wf() ==> final(self).wf(),
    {
        let role_s: String = role.to_owned();
        let ghost saved: Right = right;  // `right` moves below; this keeps its value nameable
        let ghost before = self.rights@;
        match find_role(&self.rights, &role_s) {
            Some(i) => {
                let ghost ii = i as int;
                if !contains_right(&self.rights[i].rights, &right) {
                    self.rights[i].rights.push(right);
                    proof {
                        lemma_grant_into_entry(before, self.rights@, ii, role@, saved);
                    }
                } else {
                    proof {
                        let after = self.rights@;
                        assert(table_grants(before, role@, right@));
                        assert(table_contains_role(before, role@));
                        assert forall|ro: Seq<char>, r: RightV|
                            #![trigger table_grants(after, ro, r)]
                            #![trigger table_grants(before, ro, r)]
                            table_grants(after, ro, r) <==> (table_grants(before, ro, r) || (ro
                                == role@ && r == right@)) by {
                            if ro == role@ && r == right@ {
                                assert(table_grants(before, ro, r));
                            }
                        }
                        assert forall|ro: Seq<char>|
                            #![trigger table_contains_role(after, ro)]
                            #![trigger table_contains_role(before, ro)]
                            table_contains_role(after, ro) <==> (table_contains_role(before, ro)
                                || ro == role@) by {
                            if ro == role@ {
                                assert(table_contains_role(before, ro));
                            }
                        }
                    }
                }
            },
            None => {
                let mut rs: Vec<Right> = Vec::new();
                rs.push(right);
                self.rights.push(RoleRights { role: role_s, rights: rs });
                proof {
                    lemma_grant_new_entry(before, self.rights@, role@, saved);
                }
            },
        }
    }

    /// A query over the single given role, snapshotting the current table.
    pub fn can_role(&self, role: &str) -> (q: Query)
        ensures
            q.roles@.len() == 1,
            q.roles@[0]@ == role@,
            table_equiv(q.rights@, self.rights@),
            forall|r: RightV| #[trigger] q.allows(r) <==> table_grants(self.rights@, role@, r),
    {
        let mut roles: Vec<String> = Vec::new();
        roles.push(role.to_owned());
        let q = Query::new(roles, clone_table(&self.rights));
        proof {
            lemma_table_equiv_grants(q.rights@, self.rights@);
            assert forall|r: RightV| #[trigger]
                q.allows(r) <==> table_grants(self.rights@, role@, r) by {
                if q.allows(r) {
                    let k = choose|k: int|
                        0 <= k < q.roles@.len() && table_grants(
                            q.rights@,
                            (#[trigger] q.roles@[k])@,
                            r,
                        );
                    assert(k == 0);
                }
                if table_grants(self.rights@, role@, r) {
                    assert(table_grants(q.rights@, q.roles@[0]@, r));
                }
            }
        }
        q
    }

    /// A query over several roles, snapshotting the current table once.
    /// The list may repeat roles or name roles the table does not have;
    /// such roles contribute no rights.
    pub fn can_roles(&self, roles: Vec<String>) -> (q: Query)
        ensures
            q.roles@ == roles@,
            table_equiv(q.rights@, self.rights@),
            forall|r: RightV| #[trigger]
                q.allows(r) <==> (exists|k: int|
                    0 <= k < roles@.len() && table_grants(
                        self.rights@,
                        (#[trigger] roles@[k])@,
                        r,
                    )),
    {
        let q = Query::new(roles, clone_table(&self.rights));
        proof {
            lemma_table_equiv_grants(q.rights@, self.rights@);
            assert forall|r: RightV| #[trigger]
                q.allows(r) <==> (exists|k: int|
                    0 <= k < q.roles@.len() && table_grants(
                        self.rights@,
                        (#[trigger] q.roles@[k])@,
                        r,
                    )) by {
                if q.allows(r) {
                    let k = choose|k: int|
                        0 <= k < q.roles@.len() && table_grants(
                            q.rights@,
                            (#[trigger] q.roles@[k])@,
                            r,
                        );
                    assert(table_grants(self.rights@, q.roles@[k]@, r));
                }
                if exists|k: int|
                    0 <= k < q.roles@.len() && table_grants(
                        self.rights@,
                        (#[trigger] q.roles@[k])@,
                        r,
                    ) {
                    let k = choose|k: int|
                        0 <= k < q.roles@.len() && table_grants(
                            self.rights@,
                            (#[trigger] q.roles@[k])@,
                            r,
                        );
                    assert(table_grants(q.rights@, q.roles@[k]@, r));
                }
            }
        }
        q
    }
}

/// Granting the same (role, right) pair a second time changes nothing that
/// any query can observe: the granted relation and the set of roles present
/// stay exactly as they were after the first grant.
pub proof fn lemma_grant_idempotent(
    t0: Seq<RoleRights>,
    t1: Seq<RoleRights>,
    t2: Seq<RoleRights>,
    role: Seq<char>,
    right: RightV,
)
    requires
        grant_adds(t0, t1, role, right),
        grant_adds(t1, t2, role, right),
    ensures
        forall|ro: Seq<char>, r: RightV|
            #![trigger table_grants(t2, ro, r)]
            #![trigger table_grants(t1, ro, r)]
            table_grants(t2, ro, r) <==> table_grants(t1, ro, r),
        forall|ro: Seq<char>|
            #![trigger table_contains_role(t2, ro)]
            #![trigger table_contains_role(t1, ro)]
            table_contains_role(t2, ro) <==> table_contains_role(t1, ro),
{
    assert(table_grants(t1, role, right));
    assert(table_contains_role(t1, role));
}

/// The index of the entry for `role`, if the table has one.
pub(crate) fn find_role(t: &Rights, role: &String) -> (res: Option<usize>)
    ensures
        match res {
            Some(i) => i < t@.len() && t@[i as int].role@ == role@,
            None => forall|k: int| 0 <= k < t@.len() ==> (#[trigger] t@[k]).role@ != role@,
        },
{
    let mut i: usize = 0;
    while i < t.len()
        invariant
            i <= t@.len(),
            forall|k: int| 0 <= k < i ==> (#[trigger] t@[k]).role@ != role@,
        decreases t@.len() - i,
    {
        if t[i].role == *role {
            return Some(i);
        }
        i += 1;
    }
    None
}

/// After pushing a right onto the entry at `ii` (whose role is `role` and
/// which did not yet hold the right), the granted relation grows by exactly
/// that pair, and well-formedness is preserved.
proof fn lemma_grant_into_entry(
    before: Seq<RoleRights>,
    after: Seq<RoleRights>,
    ii: int,
    role: Seq<char>,
    right: Right,
)
    requires
        0 <= ii < before.len(),
        after.len() == before.len(),
        forall|k: int| 0 <= k < before.len() && k != ii ==> after[k] == before[k],
        before[ii].role@ == role,
        after[ii].role@ == role,
        after[ii].rights@ == before[ii].rights@.push(right),
        !has_right(before[ii].rights@, right@),
    ensures
        grant_adds(before, after, role, right@),
        table_contains_role(before, role),
        table_wf(before) ==> table_wf(after),
{
    let rs_b = before[ii].rights@;
    let rs_a = after[ii].rights@;
    assert(rs_a[rs_b.len() as int] == right);
    assert(has_right(rs_a, right@));
    assert(table_grants(after, role, right@));
    assert forall|ro: Seq<char>, r: RightV|
        #![trigger table_grants(after, ro, r)]
        #![trigger table_grants(before, ro, r)]
        table_grants(after, ro, r) <==> (table_grants(before, ro, r) || (ro == role && r
            == right@)) by {
        if table_grants(after, ro, r) {
            let k = choose|k: int|
                0 <= k < after.len() && after[k].role@ == ro && has_right(after[k].rights@, r);
            if k == ii {
                let j = choose|j: int| 0 <= j < rs_a.len() && rs_a[j]@ == r;
                if j < rs_b.len() {
                    assert(rs_a[j] == rs_b[j]);
                    assert(has_right(rs_b, r));
                    assert(table_grants(before, ro, r));
                } else {
                    assert(rs_a[j] == right);
                    assert(ro == role && r == right@);
                }
            } else {
                assert(after[k] == before[k]);
                assert(before[k].role@ == ro && has_right(before[k].rights@, r));
                assert(table_grants(before, ro, r));
            }
        }
        if table_grants(before, ro, r) {
            let k = choose|k: int|
                0 <= k < before.len() && before[k].role@ == ro && has_right(before[k].rights@, r);
            if k == ii {
                let j = choose|j: int| 0 <= j < rs_b.len() && rs_b[j]@ == r;
                assert(rs_a[j] == rs_b[j]);
                assert(has_right(rs_a, r));
                assert(table_grants(after, ro, r));
            } else {
                assert(after[k] == before[k]);
                assert(table_grants(after, ro, r));
            }
        }
    }
    assert forall|ro: Seq<char>|
        #![trigger table_contains_role(after, ro)]
        #![trigger table_contains_role(before, ro)]
        table_contains_role(after, ro) <==> (table_contains_role(before, ro) || ro == role) by {
        if table_contains_role(after, ro) {
            let k = choose|k: int| 0 <= k < after.len() && after[k].role@ == ro;
            assert(before[k].role@ == ro);
        }
        if table_contains_role(before, ro) {
            let k = choose|k: int| 0 <= k < before.len() && before[k].role@ == ro;
            assert(after[k].role@ == ro);
        }
    }
    if table_wf(before) {
        assert forall|p: int, q: int| 0 <= p < q < after.len() implies after[p].role@
            != after[q].role@ by {
            assert(after[p].role@ == before[p].role@);
            assert(after[q].role@ == before[q].role@);
        }
        assert forall|k: int| 0 <= k < after.len() implies rights_unique(
            #[trigger] after[k].rights@,
        ) by {
            if k != ii {
                assert(after[k] == before[k]);
            } else {
                assert forall|p: int, q: int| 0 <= p < q < rs_a.len() implies rs_a[p]@
                    != rs_a[q]@ by {
                    if q < rs_b.len() {
                        assert(rs_a[p] == rs_b[p] && rs_a[q] == rs_b[q]);
                    } else {
                        assert(rs_a[p] == rs_b[p]);
                        assert(rs_a[q] == right);
                        assert(rs_b[p]@ != right@);
                    }
                }
            }
        }
    }
}

/// After appending a fresh entry for a role that had none, holding exactly
/// one right, the granted relation grows by exactly that pair, and
/// well-formedness is preserved.
proof fn lemma_grant_new_entry(
    before: Seq<RoleRights>,
    after: Seq<RoleRights>,
    role: Seq<char>,
    right: Right,
)
    requires
        after.len() == before.len() + 1,
        forall|k: int| 0 <= k < before.len() ==> after[k] == before[k],
        after[before.len() as int].role@ == role,
        after[before.len() as int].rights@.len() == 1,
        after[before.len() as int].rights@[0] == right,
        forall|k: int| 0 <= k < before.len() ==> (#[trigger] before[k]).role@ != role,
    ensures
        grant_adds(before, after, role, right@),
        !table_contains_role(before, role),
        table_wf(before) ==> table_wf(after),
{
    let n: int = before.len() as int;
    assert(has_right(after[n].rights@, right@));
    assert(table_grants(after, role, right@));
    assert forall|ro: Seq<char>, r: RightV|
        #![trigger table_grants(after, ro, r)]
        #![trigger table_grants(before, ro, r)]
        table_grants(after, ro, r) <==> (table_grants(before, ro, r) || (ro == role && r
            == right@)) by {
        if table_grants(after, ro, r) {
            let k = choose|k: int|
                0 <= k < after.len() && after[k].role@ == ro && has_right(after[k].rights@, r);
            if k == n {
                let j = choose|j: int| 0 <= j < after[n].rights@.len() && after[n].rights@[j]@ == r;
                assert(j == 0);
                assert(ro == role && r == right@);
            } else {
                assert(after[k] == before[k]);
                assert(table_grants(before, ro, r));
            }
        }
        if table_grants(before, ro, r) {
            let k = choose|k: int|
                0 <= k < before.len() && before[k].role@ == ro && has_right(before[k].rights@, r);
            assert(after[k] == before[k]);
            assert(table_grants(after, ro, r));
        }
    }
    assert forall|ro: Seq<char>|
        #![trigger table_contains_role(after, ro)]
        #![trigger table_contains_role(before, ro)]
        table_contains_role(after, ro) <==> (table_contains_role(before, ro) || ro == role) by {
        if table_contains_role(after, ro) {
            let k = choose|k: int| 0 <= k < after.len() && after[k].role@ == ro;
            if k != n {
                assert(before[k].role@ == ro);
            }
        }
        if table_contains_role(before, ro) {
            let k = choose|k: int| 0 <= k < before.len() && before[k].role@ == ro;
            assert(after[k].role@ == ro);
        }
    }
    if table_wf(before) {
        assert forall|p: int, q: int| 0 <= p < q < after.len() implies after[p].role@
            != after[q].role@ by {
            if q < n {
                assert(after[p] == before[p] && after[q] == before[q]);
            } else {
                assert(after[p] == before[p]);
                assert(before[p].role@ != role);
            }
        }
        assert forall|k: int| 0 <= k < after.len() implies rights_unique(
            #[trigger] after[k].rights@,
        ) by {
            if k < n {
                assert(after[k] == before[k]);
            }
        }
    }
}

} // verus!

