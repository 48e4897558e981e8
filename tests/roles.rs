use guild_access::admin_list::{
    AdminRoleList, AuthorizationContext, GrantError, LookupFailure, NotGranted,
};
use guild_access::role::Role;

fn role(id: u64, name: &str, guild_id: u64, position: i64) -> Role {
    Role { id, name: name.to_owned(), guild_id, position }
}

fn everyone(guild_id: u64) -> Role {
    role(guild_id, "@everyone", guild_id, 0)
}

fn member(actor_id: u64, guild_id: u64) -> AuthorizationContext {
    AuthorizationContext { actor_id, guild_id, owner_id: 999 }
}

/// The answers for an actor who holds exactly the roles in `held`.
fn answers_for(list: &AdminRoleList, held: &[u64]) -> Vec<Result<bool, LookupFailure>> {
    list.list().iter().map(|r| Ok(held.contains(&r.id))).collect()
}

#[test]
fn new_list_is_empty() {
    let list = AdminRoleList::new();
    assert!(list.list().is_empty());
    assert!(!list.contains(1));
}

#[test]
fn grant_adds_role() {
    let mut list = AdminRoleList::new();
    assert_eq!(list.add_role(&role(1, "A", 7, 3)), Ok(()));
    assert!(list.contains(1));
    assert_eq!(list.list(), vec![role(1, "A", 7, 3)]);
}

#[test]
fn grant_twice_is_already_granted() {
    let mut list = AdminRoleList::new();
    let a = role(1, "A", 7, 3);
    assert_eq!(list.add_role(&a), Ok(()));
    assert_eq!(list.add_role(&a), Err(GrantError::AlreadyGranted));
    assert_eq!(list.list().len(), 1);
}

#[test]
fn grant_same_id_other_fields_is_already_granted() {
    let mut list = AdminRoleList::new();
    assert_eq!(list.add_role(&role(1, "A", 7, 3)), Ok(()));
    assert_eq!(list.add_role(&role(1, "renamed", 7, 5)), Err(GrantError::AlreadyGranted));
}

#[test]
fn revoke_twice_is_not_granted() {
    let mut list = AdminRoleList::new();
    let a = role(1, "A", 7, 3);
    list.add_role(&a).unwrap();
    assert_eq!(list.remove_role(&a), Ok(()));
    assert_eq!(list.remove_role(&a), Err(NotGranted));
    assert!(list.list().is_empty());
}

#[test]
fn revoke_unknown_role_is_not_granted() {
    let mut list = AdminRoleList::new();
    list.add_role(&role(1, "A", 7, 3)).unwrap();
    assert_eq!(list.remove_role(&role(2, "B", 7, 3)), Err(NotGranted));
    assert_eq!(list.list(), vec![role(1, "A", 7, 3)]);
}

#[test]
fn revoke_keeps_order_of_others() {
    let mut list = AdminRoleList::new();
    for id in 1..=4 {
        list.add_role(&role(id, "R", 7, 1)).unwrap();
    }
    list.remove_role(&role(2, "R", 7, 1)).unwrap();
    let ids: Vec<u64> = list.list().iter().map(|r| r.id).collect();
    assert_eq!(ids, vec![1, 3, 4]);
}

#[test]
fn everyone_role_is_forbidden() {
    let mut list = AdminRoleList::new();
    assert_eq!(list.add_role(&everyone(7)), Err(GrantError::ForbiddenRole));
    assert_eq!(list.add_role(&role(7, "@everyone", 7, -1)), Err(GrantError::ForbiddenRole));
    assert!(list.list().is_empty());
}

#[test]
fn everyone_role_is_forbidden_whatever_the_list_holds() {
    let mut list = AdminRoleList::new();
    list.add_role(&role(1, "A", 7, 3)).unwrap();
    list.add_role(&role(2, "B", 8, 3)).unwrap();
    assert_eq!(list.add_role(&everyone(7)), Err(GrantError::ForbiddenRole));
    assert_eq!(list.add_role(&everyone(7)), Err(GrantError::ForbiddenRole));
    assert_eq!(list.list().len(), 2);
}

#[test]
fn role_named_everyone_with_positive_rank_can_be_granted() {
    let mut list = AdminRoleList::new();
    assert_eq!(list.add_role(&role(5, "@everyone", 7, 2)), Ok(()));
    assert!(!role(5, "@everyone", 7, 2).is_everyone());
    assert!(everyone(7).is_everyone());
}

#[test]
fn list_in_guild_filters_and_keeps_order() {
    let mut list = AdminRoleList::new();
    list.add_role(&role(1, "A", 7, 1)).unwrap();
    list.add_role(&role(2, "B", 8, 1)).unwrap();
    list.add_role(&role(3, "C", 7, 1)).unwrap();
    assert_eq!(list.list_in_guild(7), vec![role(1, "A", 7, 1), role(3, "C", 7, 1)]);
    assert_eq!(list.list_in_guild(8), vec![role(2, "B", 8, 1)]);
    assert!(list.list_in_guild(9).is_empty());
}

#[test]
fn owner_is_authorized_with_empty_list() {
    let list = AdminRoleList::new();
    let ctx = AuthorizationContext { actor_id: 5, guild_id: 7, owner_id: 5 };
    assert_eq!(list.command_author_has_admin(&ctx, &Vec::new()), Ok(true));
}

#[test]
fn owner_is_authorized_despite_failed_lookup() {
    let mut list = AdminRoleList::new();
    list.add_role(&role(1, "A", 7, 1)).unwrap();
    let ctx = AuthorizationContext { actor_id: 5, guild_id: 7, owner_id: 5 };
    let answers = vec![Err(LookupFailure { role_id: 1 })];
    assert_eq!(list.command_author_has_admin(&ctx, &answers), Ok(true));
}

#[test]
fn non_owner_with_empty_list_is_not_authorized() {
    let list = AdminRoleList::new();
    assert_eq!(list.command_author_has_admin(&member(5, 7), &Vec::new()), Ok(false));
}

#[test]
fn holder_of_granted_role_is_authorized() {
    let mut list = AdminRoleList::new();
    list.add_role(&role(2, "B", 7, 1)).unwrap();
    list.add_role(&role(1, "A", 7, 1)).unwrap();
    list.add_role(&role(3, "C", 7, 1)).unwrap();
    let answers = answers_for(&list, &[1]);
    assert_eq!(answers, vec![Ok(false), Ok(true), Ok(false)]);
    assert_eq!(list.command_author_has_admin(&member(5, 7), &answers), Ok(true));
}

#[test]
fn grant_then_revoke_scenario() {
    let mut list = AdminRoleList::new();
    let a = role(1, "A", 7, 1);
    assert_eq!(list.add_role(&a), Ok(()));
    let answers = answers_for(&list, &[1]);
    assert_eq!(list.command_author_has_admin(&member(5, 7), &answers), Ok(true));

    assert_eq!(list.remove_role(&a), Ok(()));
    let answers = answers_for(&list, &[1]);
    assert_eq!(list.command_author_has_admin(&member(5, 7), &answers), Ok(false));
    let owner = AuthorizationContext { actor_id: 5, guild_id: 7, owner_id: 5 };
    assert_eq!(list.command_author_has_admin(&owner, &answers), Ok(true));
}

#[test]
fn failed_lookup_fails_closed_with_first_failure() {
    let mut list = AdminRoleList::new();
    for id in 1..=3 {
        list.add_role(&role(id, "R", 7, 1)).unwrap();
    }
    let answers = vec![
        Ok(true),
        Err(LookupFailure { role_id: 2 }),
        Err(LookupFailure { role_id: 3 }),
    ];
    assert_eq!(
        list.command_author_has_admin(&member(5, 7), &answers),
        Err(LookupFailure { role_id: 2 })
    );
}

#[test]
fn failed_lookup_after_all_negative_fails() {
    let mut list = AdminRoleList::new();
    list.add_role(&role(1, "A", 7, 1)).unwrap();
    list.add_role(&role(2, "B", 7, 1)).unwrap();
    let answers = vec![Ok(false), Err(LookupFailure { role_id: 2 })];
    assert_eq!(
        list.command_author_has_admin(&member(5, 7), &answers),
        Err(LookupFailure { role_id: 2 })
    );
}
