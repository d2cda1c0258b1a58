//! A single permission record: one (action, possession, resource) triple.

use vstd::prelude::*;

use crate::Action;
use crate::ActionV;
use crate::Possession;
use crate::PossessionV;
use crate::action_from_str;
use crate::action_of;
use crate::possession_from_str;
use crate::possession_of;

use crate::pattern::parsed_right;
use crate::pattern::pattern_ok;
use crate::pattern::split_pattern;

verus! {

/// The failure of [`Right::from_pattern`]: the input does not have the
/// exact `action:possession/resource` shape.
#[derive(Debug, Eq, PartialEq, Hash, Clone, Copy)]
pub struct PatternError;

/// One permission: an action on a resource, narrowed by a possession
/// qualifier.  A value type: two rights are the same permission exactly
/// when all three fields agree.
#[derive(Debug, Eq, PartialEq, Hash, Clone)]
pub struct Right {
    pub action: Action,
    pub resource: String,
    pub possession: Possession,
}

/// Mathematical mirror of [`Right`].
pub struct RightV {
    pub action: ActionV,
    pub resource: Seq<char>,
    pub possession: PossessionV,
}

impl View for Right {
    type V = RightV;

    open spec fn view(&self) -> RightV {
        RightV { action: self.action@, resource: self.resource@, possession: self.possession@ }
    }
}

impl Right {
    /// Builds a right from literal names.  "create"/"read"/"update"/"delete"
    /// and "own"/"any" resolve to the closed variants (case-sensitive, exact
    /// match); any other name falls through to the `Custom` variants.  Never
    /// fails.
    pub fn new(action: &str, possession: &str, resource: &str) -> (r: Right)
        ensures
            r@ == (RightV {
                action: action_of(action@),
                resource: resource@,
                possession: possession_of(possession@),
            }),
    {
        Right {
            action: action_from_str(action),
            resource: resource.to_owned(),
            possession: possession_from_str(possession),
        }
    }

    /// Parses the compact form `action:possession/resource`, three runs of
    /// word characters joined by a literal colon and slash, and resolves
    /// the tokens exactly as `new` does — unrecognized names still become
    /// the `Custom` variants.  Any other shape is a parse error; the parse
    /// never panics, whatever the input.
    pub fn from_pattern(pattern: &str) -> (res: Result<Right, PatternError>)
        ensures
            res is Ok <==> pattern_ok(pattern@),
            res matches Ok(r) ==> r@ == parsed_right(pattern@),
    {
        match split_pattern(pattern) {
            Some((action, possession, resource)) => Ok(
                Right::new(action.as_str(), possession.as_str(), resource.as_str()),
            ),
            None => Err(PatternError),
        }
    }

    pub fn create_own(resource: &str) -> (r: Right)
        ensures
            r@ == (RightV {
                action: ActionV::Create,
                resource: resource@,
                possession: PossessionV::Own,
            }),
    {
        Right { action: Action::Create, resource: resource.to_owned(), possession: Possession::Own }
    }

    pub fn create_any(resource: &str) -> (r: Right)
        ensures
            r@ == (RightV {
                action: ActionV::Create,
                resource: resource@,
                possession: PossessionV::Any,
            }),
    {
        Right { action: Action::Create, resource: resource.to_owned(), possession: Possession::Any }
    }

    pub fn read_own(resource: &str) -> (r: Right)
        ensures
            r@ == (RightV {
                action: ActionV::Read,
                resource: resource@,
                possession: PossessionV::Own,
            }),
    {
        Right { action: Action::Read, resource: resource.to_owned(), possession: Possession::Own }
    }

    pub fn read_any(resource: &str) -> (r: Right)
        ensures
            r@ == (RightV {
                action: ActionV::Read,
                resource: resource@,
                possession: PossessionV::Any,
            }),
    {
        Right { action: Action::Read, resource: resource.to_owned(), possession: Possession::Any }
    }

    pub fn update_own(resource: &str) -> (r: Right)
        ensures
            r@ == (RightV {
                action: ActionV::Update,
                resource: resource@,
                possession: PossessionV::Own,
            }),
    {
        Right { action: Action::Update, resource: resource.to_owned(), possession: Possession::Own }
    }

    pub fn update_any(resource: &str) -> (r: Right)
        ensures
            r@ == (RightV {
                action: ActionV::Update,
                resource: resource@,
                possession: PossessionV::Any,
            }),
    {
        Right { action: Action::Update, resource: resource.to_owned(), possession: Possession::Any }
    }

    pub fn delete_own(resource: &str) -> (r: Right)
        ensures
            r@ == (RightV {
                action: ActionV::Delete,
                resource: resource@,
                possession: PossessionV::Own,
            }),
    {
        Right { action: Action::Delete, resource: resource.to_owned(), possession: Possession::Own }
    }

    pub fn delete_any(resource: &str) -> (r: Right)
        ensures
            r@ == (RightV {
                action: ActionV::Delete,
                resource: resource@,
                possession: PossessionV::Any,
            }),
    {
        Right { action: Action::Delete, resource: resource.to_owned(), possession: Possession::Any }
    }
}

pub(crate) fn action_eq(a: &Action, b: &Action) -> (r: bool)
    ensures
        r == (a@ == b@),
{
    match a {
        Action::Create => match b {
            Action::Create => true,
            _ => false,
        },
        Action::Read => match b {
            Action::Read => true,
            _ => false,
        },
        Action::Update => match b {
            Action::Update => true,
            _ => false,
        },
        Action::Delete => match b {
            Action::Delete => true,
            _ => false,
        },
        Action::Custom(x) => match b {
            Action::Custom(y) => *x == *y,
            _ => false,
        },
    }
}

pub(crate) fn possession_eq(a: &Possession, b: &Possession) -> (r: bool)
    ensures
        r == (a@ == b@),
{
    match a {
        Possession::Any => match b {
            Possession::Any => true,
            _ => false,
        },
        Possession::Own => match b {
            Possession::Own => true,
            _ => false,
        },
        Possession::Custom(x) => match b {
            Possession::Custom(y) => *x == *y,
            _ => false,
        },
    }
}

/// Value equality of two rights: all three fields agree.
pub(crate) fn right_eq(a: &Right, b: &Right) -> (r: bool)
    ensures
        r == (a@ == b@),
{
    action_eq(&a.action, &b.action) && a.resource == b.resource && possession_eq(
        &a.possession,
        &b.possession,
    )
}

/// Whether the sequence of rights holds a right whose value is `r`.
pub open spec fn has_right(rs: Seq<Right>, r: RightV) -> bool {
    exists|j: int| 0 <= j < rs.len() && rs[j]@ == r
}

pub(crate) fn contains_right(rs: &Vec<Right>, r: &Right) -> (b: bool)
    ensures
        b == has_right(rs@, r@),
{
    let mut j: usize = 0;
    while j < rs.len()
        invariant
            j <= rs@.len(),
            forall|k: int| 0 <= k < j ==> rs@[k]@ != r@,
        decreases rs@.len() - j,
    {
        if right_eq(&rs[j], r) {
            return true;
        }
        j += 1;
    }
    false
}

pub(crate) fn clone_action(a: &Action) -> (c: Action)
    ensures
        c == *a,
{
    match a {
        Action::Create => Action::Create,
        Action::Read => Action::Read,
        Action::Update => Action::Update,
        Action::Delete => Action::Delete,
        Action::Custom(name) => Action::Custom(name.clone()),
    }
}

pub(crate) fn clone_possession(p: &Possession) -> (c: Possession)
    ensures
        c == *p,
{
    match p {
        Possession::Any => Possession::Any,
        Possession::Own => Possession::Own,
        Possession::Custom(name) => Possession::Custom(name.clone()),
    }
}

pub(crate) fn clone_right(r: &Right) -> (c: Right)
    ensures
        c == *r,
{
    Right {
        action: clone_action(&r.action),
        resource: r.resource.clone(),
        possession: clone_possession(&r.possession),
    }
}

pub(crate) fn clone_rights_vec(rs: &Vec<Right>) -> (c: Vec<Right>)
    ensures
        c@ == rs@,
{
    let mut c: Vec<Right> = Vec::new();
    let mut j: usize = 0;
    while j < rs.len()
        invariant
            j <= rs@.len(),
            c@.len() == j as int,
            forall|k: int| 0 <= k < j ==> c@[k] == rs@[k],
        decreases rs@.len() - j,
    {
        c.push(clone_right(&rs[j]));
        j += 1;
    }
    proof {
        assert(c@ =~= rs@);
    }
    c
}

} // verus!

