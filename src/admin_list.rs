//! The roles whose members may change the bot's configuration, and the
//! authorization decision built on them.

use vstd::prelude::*;

use crate::role::Role;

verus! {

/// Why a role could not be granted.
#[derive(PartialEq, Eq, Structural, Clone, Copy, Debug)]
pub enum GrantError {
    /// The role is already in the list.
    AlreadyGranted,
    /// The role is the implicit one that every member of a guild holds.
    ForbiddenRole,
}

/// A role could not be revoked because it is not in the list.
#[derive(PartialEq, Eq, Structural, Clone, Copy, Debug)]
pub struct NotGranted;

/// The platform could not say whether the actor holds a role.
#[derive(PartialEq, Eq, Structural, Clone, Copy, Debug)]
pub struct LookupFailure {
    /// The role whose membership could not be confirmed.
    pub role_id: u64,
}

/// Who asks, and in which guild.
#[derive(PartialEq, Eq, Structural, Clone, Copy, Debug)]
pub struct AuthorizationContext {
    pub actor_id: u64,
    pub guild_id: u64,
    pub owner_id: u64,
}

/// Some role of `roles` has identifier `id`.
pub open spec fn contains_id(roles: Seq<Role>, id: u64) -> bool {
    exists|i: int| 0 <= i < roles.len() && (#[trigger] roles[i]).id == id
}

/// No identifier occurs twice in `roles`.
pub open spec fn ids_distinct(roles: Seq<Role>) -> bool {
    forall|i: int, j: int|
        0 <= i < roles.len() && 0 <= j < roles.len() && i != j ==> (#[trigger] roles[i]).id
            != (#[trigger] roles[j]).id
}

/// What granting `role` to a list holding `roles` answers.
pub open spec fn grant_outcome(roles: Seq<Role>, role: Role) -> Result<(), GrantError> {
    if role.is_everyone_spec() {
        Err(GrantError::ForbiddenRole)
    } else if contains_id(roles, role.id) {
        Err(GrantError::AlreadyGranted)
    } else {
        Ok(())
    }
}

/// The list after granting `role`: appended on success, unchanged otherwise.
pub open spec fn after_grant(roles: Seq<Role>, role: Role) -> Seq<Role> {
    if grant_outcome(roles, role) is Ok {
        roles.push(role)
    } else {
        roles
    }
}

/// What revoking the role with identifier `id` answers.
pub open spec fn revoke_outcome(roles: Seq<Role>, id: u64) -> Result<(), NotGranted> {
    if contains_id(roles, id) {
        Ok(())
    } else {
        Err(NotGranted)
    }
}

/// Holds of every role but the one with identifier `id`.
pub open spec fn role_other_than(id: u64) -> spec_fn(Role) -> bool {
    |r: Role| r.id != id
}

/// The position of the first failed lookup in `answers`.
pub open spec fn first_failure_index(answers: Seq<Result<bool, LookupFailure>>) -> int {
    choose|i: int|
        0 <= i < answers.len() && answers[i] is Err && forall|j: int|
            0 <= j < i ==> (#[trigger] answers[j]) is Ok
}

/// Whether some lookup in `answers` failed.
pub open spec fn some_lookup_failed(answers: Seq<Result<bool, LookupFailure>>) -> bool {
    exists|i: int| 0 <= i < answers.len() && (#[trigger] answers[i]) is Err
}

/// Whether some lookup in `answers` confirmed that the actor holds the role.
pub open spec fn some_role_held(answers: Seq<Result<bool, LookupFailure>>) -> bool {
    exists|i: int| 0 <= i < answers.len() && #[trigger] answers[i] == Ok::<bool, LookupFailure>(true)
}

/// The authorization decision, given for each listed role whether the actor
/// holds it: the guild owner is always authorized; otherwise a failed lookup
/// fails the whole decision, and an actor holding some listed role is
/// authorized.
pub open spec fn authorization_outcome(
    ctx: AuthorizationContext,
    answers: Seq<Result<bool, LookupFailure>>,
) -> Result<bool, LookupFailure> {
    if ctx.actor_id == ctx.owner_id {
        Ok(true)
    } else if some_lookup_failed(answers) {
        answers[first_failure_index(answers)]
    } else {
        Ok(some_role_held(answers))
    }
}

/// Holds of the roles of guild `guild_id`.
pub open spec fn role_of_guild(guild_id: u64) -> spec_fn(Role) -> bool {
    |r: Role| r.guild_id == guild_id
}

/// The list after revoking the role with identifier `id`: every other role
/// stays, in its order.
pub open spec fn after_revoke(roles: Seq<Role>, id: u64) -> Seq<Role> {
    roles.filter(role_other_than(id))
}

/// The roles whose members may change the bot's configuration, in the order
/// in which they were granted. One list serves every guild, since role
/// identifiers are unique across guilds.
#[derive(Debug)]
pub struct AdminRoleList {
    admin_roles: Vec<Role>,
}

impl View for AdminRoleList {
    type V = Seq<Role>;

    closed spec fn view(&self) -> Seq<Role> {
        self.admin_roles@
    }
}

impl AdminRoleList {
    /// The list holds each role at most once.
    pub closed spec fn wf(&self) -> bool {
        ids_distinct(self.admin_roles@)
    }

    /// An empty list.
    pub fn new() -> (r: AdminRoleList)
        ensures
            r.wf(),
            r@ == Seq::<Role>::empty(),
    {
        AdminRoleList { admin_roles: Vec::new() }
    }

    /// Whether the role with identifier `id` is in the list.
    pub fn contains(&self, id: u64) -> (r: bool)
        ensures
            r == contains_id(self@, id),
    {
        let mut i: usize = 0;
        while i < self.admin_roles.len()
            invariant
                0 <= i <= self.admin_roles@.len(),
                forall|j: int| 0 <= j < i ==> (#[trigger] self.admin_roles@[j]).id != id,
            decreases self.admin_roles@.len() - i,
        {
            if self.admin_roles[i].id == id {
                return true;
            }
            i = i + 1;
        }
        false
    }

    /// Grants `role` the right to configure the bot.
    ///
    /// The implicit role that every member holds is refused, whatever the
    /// list holds; a role already in the list is refused too.
    pub fn add_role(&mut self, role: &Role) -> (r: Result<(), GrantError>)
        requires
            old(self).wf(),
        ensures
            final(self).wf(),
            r == grant_outcome(old(self)@, *role),
            final(self)@ == after_grant(old(self)@, *role),
            role.is_everyone_spec() ==> r == Err::<(), GrantError>(GrantError::ForbiddenRole),
    {
        if role.is_everyone() {
            return Err(GrantError::ForbiddenRole);
        }
        if self.contains(role.id) {
            return Err(GrantError::AlreadyGranted);
        }
        self.admin_roles.push(role.clone());
        Ok(())
    }

    /// The granted roles, in the order in which they were granted.
    pub fn list(&self) -> (r: Vec<Role>)
        ensures
            r@ == self@,
    {
        let mut out: Vec<Role> = Vec::new();
        let mut i: usize = 0;
        while i < self.admin_roles.len()
            invariant
                0 <= i <= self.admin_roles@.len(),
                out@ == self.admin_roles@.subrange(0, i as int),
            decreases self.admin_roles@.len() - i,
        {
            out.push(self.admin_roles[i].clone());
            i = i + 1;
            proof {
                assert(out@ =~= self.admin_roles@.subrange(0, i as int));
            }
        }
        proof {
            assert(out@ =~= self.admin_roles@);
        }
        out
    }

    /// The granted roles of guild `guild_id`, in the order in which they were
    /// granted.
    pub fn list_in_guild(&self, guild_id: u64) -> (r: Vec<Role>)
        ensures
            r@ == self@.filter(role_of_guild(guild_id)),
    {
        let mut out: Vec<Role> = Vec::new();
        let mut i: usize = 0;
        while i < self.admin_roles.len()
            invariant
                0 <= i <= self.admin_roles@.len(),
                out@ == self.admin_roles@.subrange(0, i as int).filter(role_of_guild(guild_id)),
            decreases self.admin_roles@.len() - i,
        {
            proof {
                reveal(Seq::filter);
                assert(self.admin_roles@.subrange(0, i + 1).drop_last() =~= self.admin_roles@.subrange(0, i as int));
            }
            if self.admin_roles[i].guild_id == guild_id {
                out.push(self.admin_roles[i].clone());
            }
            i = i + 1;
        }
        proof {
            assert(self.admin_roles@.subrange(0, self.admin_roles@.len() as int) =~= self.admin_roles@);
        }
        out
    }

    /// Decides whether the actor of `ctx` may change the bot's configuration.
    ///
    /// `memberships[i]` is the platform's answer to whether the actor holds
    /// the `i`-th listed role. The guild owner is authorized whatever the
    /// answers; for anyone else a failed lookup fails the decision, with the
    /// first such failure.
    pub fn command_author_has_admin(
        &self,
        ctx: &AuthorizationContext,
        memberships: &Vec<Result<bool, LookupFailure>>,
    ) -> (r: Result<bool, LookupFailure>)
        requires
            memberships@.len() == self@.len(),
        ensures
            r == authorization_outcome(*ctx, memberships@),
            ctx.actor_id == ctx.owner_id ==> r == Ok::<bool, LookupFailure>(true),
    {
        if ctx.actor_id == ctx.owner_id {
            return Ok(true);
        }
        let mut holds_role = false;
        let mut i: usize = 0;
        while i < memberships.len()
            invariant
                ctx.actor_id != ctx.owner_id,
                0 <= i <= memberships@.len(),
                forall|j: int| 0 <= j < i ==> (#[trigger] memberships@[j]) is Ok,
                holds_role == exists|j: int|
                    0 <= j < i && #[trigger] memberships@[j] == Ok::<bool, LookupFailure>(true),
            decreases memberships@.len() - i,
        {
            match &memberships[i] {
                Ok(held) => {
                    if *held {
                        holds_role = true;
                    }
                },
                Err(failure) => {
                    proof {
                        assert(memberships@[i as int] is Err);
                        assert(some_lookup_failed(memberships@));
                        let k = first_failure_index(memberships@);
                        if k < i {
                            assert(memberships@[k] is Ok);
                        } else if k > i {
                            assert(memberships@[i as int] is Ok);
                        }
                    }
                    return Err(*failure);
                },
            }
            i = i + 1;
        }
        Ok(holds_role)
    }

    /// Takes the right to configure the bot away from `role`.
    pub fn remove_role(&mut self, role: &Role) -> (r: Result<(), NotGranted>)
        requires
            old(self).wf(),
        ensures
            final(self).wf(),
            r == revoke_outcome(old(self)@, role.id),
            final(self)@ == after_revoke(old(self)@, role.id),
    {
        if !self.contains(role.id) {
            proof {
                lemma_filter_all(self@, role.id);
            }
            return Err(NotGranted);
        }
        let ghost before = self@;
        let mut kept: Vec<Role> = Vec::new();
        let mut i: usize = 0;
        while i < self.admin_roles.len()
            invariant
                self@ == before,
                ids_distinct(before),
                0 <= i <= before.len(),
                kept@ == before.subrange(0, i as int).filter(role_other_than(role.id)),
            decreases before.len() - i,
        {
            let current = &self.admin_roles[i];
            proof {
                reveal(Seq::filter);
                assert(before.subrange(0, i + 1).drop_last() =~= before.subrange(0, i as int));
            }
            if current.id != role.id {
                kept.push(current.clone());
            }
            i = i + 1;
        }
        proof {
            assert(before.subrange(0, before.len() as int) =~= before);
        }
        self.admin_roles = kept;
        proof {
            lemma_filter_keeps_distinct(before, role.id);
        }
        Ok(())
    }
}

/// Once a role is granted, a member who holds it and no other listed role is
/// authorized, as long as every lookup succeeds.
pub proof fn lemma_granted_role_authorizes(
    roles: Seq<Role>,
    role: Role,
    ctx: AuthorizationContext,
    answers: Seq<Result<bool, LookupFailure>>,
)
    requires
        grant_outcome(roles, role) is Ok,
        answers.len() == after_grant(roles, role).len(),
        forall|i: int|
            0 <= i < answers.len() ==> #[trigger] answers[i] == Ok::<bool, LookupFailure>(
                after_grant(roles, role)[i].id == role.id,
            ),
    ensures
        authorization_outcome(ctx, answers) == Ok::<bool, LookupFailure>(true),
{
    let last = answers.len() - 1;
    assert(answers[last] == Ok::<bool, LookupFailure>(true));
    if some_lookup_failed(answers) {
        let i = choose|i: int| 0 <= i < answers.len() && (#[trigger] answers[i]) is Err;
        assert(answers[i] is Ok);
    }
}

/// Granting the same role twice: the second grant finds it already granted,
/// whether or not the first one succeeded.
pub proof fn lemma_grant_twice(roles: Seq<Role>, role: Role)
    requires
        !role.is_everyone_spec(),
    ensures
        grant_outcome(after_grant(roles, role), role) == Err::<(), GrantError>(
            GrantError::AlreadyGranted,
        ),
{
    let after = after_grant(roles, role);
    if grant_outcome(roles, role) is Ok {
        assert(after[after.len() - 1] == role);
    }
    assert(contains_id(after, role.id));
}

/// Revoking the same role twice: the second revocation finds it not granted,
/// whether or not the first one succeeded.
pub proof fn lemma_revoke_twice(roles: Seq<Role>, id: u64)
    ensures
        revoke_outcome(after_revoke(roles, id), id) == Err::<(), NotGranted>(NotGranted),
{
    broadcast use vstd::seq_lib::group_filter_ensures;

    let after = after_revoke(roles, id);
    if contains_id(after, id) {
        let i = choose|i: int| 0 <= i < after.len() && (#[trigger] after[i]).id == id;
        assert(role_other_than(id)(after[i]));
    }
}

/// Filtering out an identifier that does not occur keeps every role.
proof fn lemma_filter_all(roles: Seq<Role>, id: u64)
    requires
        !contains_id(roles, id),
    ensures
        roles.filter(role_other_than(id)) == roles,
    decreases roles.len(),
{
    reveal(Seq::filter);
    if roles.len() > 0 {
        let rest = roles.drop_last();
        assert forall|i: int| 0 <= i < rest.len() implies (#[trigger] rest[i]).id != id by {
            assert(rest[i] == roles[i]);
        }
        lemma_filter_all(rest, id);
        assert(roles[roles.len() - 1].id != id);
        assert(rest.push(roles.last()) =~= roles);
    }
}

/// Filtering out an identifier keeps the remaining identifiers distinct.
proof fn lemma_filter_keeps_distinct(roles: Seq<Role>, id: u64)
    requires
        ids_distinct(roles),
    ensures
        ids_distinct(roles.filter(role_other_than(id))),
    decreases roles.len(),
{
    reveal(Seq::filter);
    if roles.len() > 0 {
        let rest = roles.drop_last();
        lemma_filter_keeps_distinct(rest, id);
        let f = rest.filter(role_other_than(id));
        let last = roles.last();
        if last.id != id {
            assert forall|j: int| 0 <= j < f.len() implies (#[trigger] f[j]).id != last.id by {
                assert(f.contains(f[j]));
                rest.lemma_filter_contains_rev(role_other_than(id), f[j]);
                let k = choose|k: int| 0 <= k < rest.len() && rest[k] == f[j];
                assert(roles[k] == rest[k]);
            }
        }
    }
}

} // verus!
