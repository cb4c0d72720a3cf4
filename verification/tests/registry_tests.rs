use ecotask::address::Address;
use ecotask::registry::{
    RegistryContract, RegistryError, SponsorAddedEvent, SponsorRemovedEvent, TaskCancelledEvent,
    TaskCompletedEvent, TaskCreatedEvent, TaskExtendedEvent, TaskStatus,
};

fn addr(name: &str) -> Address {
    Address::new(String::from(name))
}

fn text(s: &str) -> String {
    String::from(s)
}

/// A location hash that differs from task to task.
fn loc(seed: u8) -> [u8; 32] {
    let mut h = [0u8; 32];
    for (i, b) in h.iter_mut().enumerate() {
        *b = seed.wrapping_mul(31).wrapping_add(i as u8);
    }
    h
}

/// A registry initialized by "admin".
fn setup() -> (RegistryContract, Address) {
    let admin = addr("admin");
    let mut r = RegistryContract::new();
    r.initialize(admin.clone()).unwrap();
    (r, admin)
}

/// Creates a task worth 1000 that expires `expires_in` after `now`.
fn create_test_task(
    r: &mut RegistryContract,
    creator: &Address,
    task_type: &str,
    max_completions: u32,
    expires_in: u64,
    now: u64,
) -> u64 {
    r.create_task(
        creator.clone(),
        text(task_type),
        loc(7),
        1000,
        max_completions,
        now + expires_in,
        now,
    )
    .unwrap()
    .0
}

#[test]
fn test_create_and_get_task() {
    let (mut r, admin) = setup();

    let task_id = create_test_task(&mut r, &admin, "tree-planting", 1, 1000, 0);

    let task = r.get_task(task_id).unwrap();
    assert_eq!(task.id, task_id);
    assert_eq!(task.creator, admin);
    assert_eq!(task.task_type, text("tree-planting"));
    assert_eq!(task.reward_amount, 1000);
    assert_eq!(task.max_completions, 1);
    assert_eq!(task.completions, 0);
    assert_eq!(task.status, TaskStatus::Active);
}

#[test]
fn test_complete_task() {
    let (mut r, admin) = setup();
    let user = addr("user");
    let task_id = create_test_task(&mut r, &admin, "trash-collection", 1, 1000, 0);

    r.complete_task(&admin, task_id, user.clone(), 0).unwrap();

    let task = r.get_task(task_id).unwrap();
    assert_eq!(task.completions, 1);
    assert_eq!(task.status, TaskStatus::Completed);
    assert!(r.is_task_completed(task_id, &user));
}

#[test]
fn test_double_claim_prevention() {
    let (mut r, admin) = setup();
    let user = addr("user");
    let task_id = create_test_task(&mut r, &admin, "ocean-cleanup", 2, 1000, 0);

    r.complete_task(&admin, task_id, user.clone(), 0).unwrap();
    assert_eq!(
        r.complete_task(&admin, task_id, user.clone(), 0),
        Err(RegistryError::AlreadyCompleted)
    );
    assert_eq!(r.get_task(task_id).unwrap().completions, 1);
}

#[test]
fn test_max_completions() {
    let (mut r, admin) = setup();
    let user1 = addr("user1");
    let user2 = addr("user2");
    let task_id = create_test_task(&mut r, &admin, "tree-planting", 2, 1000, 0);

    r.complete_task(&admin, task_id, user1.clone(), 0).unwrap();
    let task = r.get_task(task_id).unwrap();
    assert_eq!(task.completions, 1);
    assert_eq!(task.status, TaskStatus::Active);

    r.complete_task(&admin, task_id, user2.clone(), 0).unwrap();
    let task = r.get_task(task_id).unwrap();
    assert_eq!(task.completions, 2);
    assert_eq!(task.status, TaskStatus::Completed);
}

#[test]
fn test_expire_task() {
    let (mut r, admin) = setup();
    let task_id = create_test_task(&mut r, &admin, "tree-planting", 1, 1000, 0);

    r.expire_task(&admin, task_id).unwrap();

    let task = r.get_task(task_id).unwrap();
    assert_eq!(task.status, TaskStatus::Expired);
}

#[test]
fn test_unauthorized_creator() {
    let (mut r, _admin) = setup();
    let attacker = addr("attacker");

    let res = r.create_task(attacker, text("tree-planting"), loc(1), 1000, 1, 1000, 0);
    assert_eq!(res, Err(RegistryError::Unauthorized));
    assert_eq!(r.task_count(), 0);
}

#[test]
fn test_unauthorized_expire() {
    let (mut r, _admin) = setup();
    let attacker = addr("attacker");

    assert_eq!(r.expire_task(&attacker, 0), Err(RegistryError::Unauthorized));
}

#[test]
fn test_add_sponsor() {
    let (mut r, admin) = setup();
    let sponsor = addr("sponsor");
    let ev = r.add_sponsor(&admin, sponsor.clone()).unwrap();
    assert_eq!(ev, SponsorAddedEvent { sponsor: sponsor.clone() });

    let (task_id, _) = r
        .create_task(sponsor.clone(), text("tree-planting"), loc(2), 1000, 1, 1000, 0)
        .unwrap();

    let task = r.get_task(task_id).unwrap();
    assert_eq!(task.creator, sponsor);
}

#[test]
fn test_remove_sponsor() {
    let (mut r, admin) = setup();
    let sponsor = addr("sponsor");
    r.add_sponsor(&admin, sponsor.clone()).unwrap();

    r.create_task(sponsor.clone(), text("tree-planting"), loc(3), 1000, 1, 1000, 0)
        .unwrap();

    let ev = r.remove_sponsor(&admin, sponsor.clone()).unwrap();
    assert_eq!(ev, SponsorRemovedEvent { sponsor });
}

#[test]
fn test_removed_sponsor_cannot_create_task() {
    let (mut r, admin) = setup();
    let sponsor = addr("sponsor");
    r.add_sponsor(&admin, sponsor.clone()).unwrap();
    r.remove_sponsor(&admin, sponsor.clone()).unwrap();

    assert_eq!(
        r.create_task(sponsor, text("tree-planting"), loc(4), 1000, 1, 1000, 0),
        Err(RegistryError::Unauthorized)
    );
}

#[test]
fn test_remove_sponsor_non_admin() {
    let (mut r, admin) = setup();
    let sponsor = addr("sponsor");
    r.add_sponsor(&admin, sponsor.clone()).unwrap();

    let non_admin = addr("non_admin");
    assert_eq!(r.remove_sponsor(&non_admin, sponsor), Err(RegistryError::Unauthorized));
}

#[test]
fn test_expire_already_expired_task() {
    let (mut r, admin) = setup();
    let task_id = create_test_task(&mut r, &admin, "tree-planting", 1, 1000, 0);

    r.expire_task(&admin, task_id).unwrap();
    assert_eq!(r.expire_task(&admin, task_id), Err(RegistryError::TaskNotActive));
}

#[test]
fn test_expired_task_cannot_be_completed() {
    let (mut r, admin) = setup();
    let user = addr("user");

    let task_id = create_test_task(&mut r, &admin, "tree-planting", 1, 1000, 1000);

    assert_eq!(
        r.complete_task(&admin, task_id, user, 3000),
        Err(RegistryError::TaskExpired)
    );
}

#[test]
fn test_cancel_task_by_creator() {
    let (mut r, admin) = setup();
    let task_id = create_test_task(&mut r, &admin, "tree-planting", 1, 1000, 0);

    let ev = r.cancel_task(&admin, task_id).unwrap();
    assert_eq!(ev, TaskCancelledEvent { creator: admin.clone(), task_id });

    let task = r.get_task(task_id).unwrap();
    assert_eq!(task.status, TaskStatus::Cancelled);
}

#[test]
fn test_cancel_task_not_creator() {
    let (mut r, admin) = setup();
    let task_id = create_test_task(&mut r, &admin, "tree-planting", 1, 1000, 0);

    let other = addr("other");
    assert_eq!(r.cancel_task(&other, task_id), Err(RegistryError::Unauthorized));
}

#[test]
fn test_cancel_already_completed_task() {
    let (mut r, admin) = setup();
    let user = addr("user");
    let task_id = create_test_task(&mut r, &admin, "tree-planting", 1, 1000, 0);

    r.complete_task(&admin, task_id, user, 0).unwrap();
    assert_eq!(r.cancel_task(&admin, task_id), Err(RegistryError::TaskNotActive));
}

#[test]
fn test_complete_cancelled_task() {
    let (mut r, admin) = setup();
    let user = addr("user");
    let task_id = create_test_task(&mut r, &admin, "tree-planting", 2, 1000, 0);

    r.cancel_task(&admin, task_id).unwrap();
    assert_eq!(
        r.complete_task(&admin, task_id, user, 0),
        Err(RegistryError::TaskNotActive)
    );
}

#[test]
fn test_expire_cancelled_task() {
    let (mut r, admin) = setup();
    let task_id = create_test_task(&mut r, &admin, "tree-planting", 1, 1000, 0);

    r.cancel_task(&admin, task_id).unwrap();
    assert_eq!(r.expire_task(&admin, task_id), Err(RegistryError::TaskNotActive));
}

#[test]
fn test_create_task_empty_type() {
    let (mut r, admin) = setup();

    assert_eq!(
        r.create_task(admin, text(""), loc(5), 1000, 1, 1000, 0),
        Err(RegistryError::EmptyTaskType)
    );
}

#[test]
fn test_get_tasks_by_creator() {
    let (mut r, admin) = setup();

    let id0 = create_test_task(&mut r, &admin, "tree-planting", 1, 1000, 0);
    let id1 = create_test_task(&mut r, &admin, "tree-planting", 1, 1000, 0);
    let id2 = create_test_task(&mut r, &admin, "tree-planting", 1, 1000, 0);

    let ids = r.get_tasks_by_creator(&admin);
    assert_eq!(ids.len(), 3);
    assert_eq!(ids[0], id0);
    assert_eq!(ids[1], id1);
    assert_eq!(ids[2], id2);

    let other = addr("other");
    let empty = r.get_tasks_by_creator(&other);
    assert_eq!(empty.len(), 0);
}

#[test]
fn test_get_tasks_by_creator_paged() {
    let (mut r, admin) = setup();

    let mut ids = Vec::new();
    for _ in 0..5 {
        ids.push(create_test_task(&mut r, &admin, "tree-planting", 1, 1000, 0));
    }

    let page0 = r.get_tasks_by_creator_paged(&admin, 0, 2);
    assert_eq!(page0.len(), 2);
    assert_eq!(page0[0], ids[0]);
    assert_eq!(page0[1], ids[1]);

    let page1 = r.get_tasks_by_creator_paged(&admin, 2, 2);
    assert_eq!(page1.len(), 2);
    assert_eq!(page1[0], ids[2]);
    assert_eq!(page1[1], ids[3]);

    let page2 = r.get_tasks_by_creator_paged(&admin, 4, 2);
    assert_eq!(page2.len(), 1);
    assert_eq!(page2[0], ids[4]);

    let empty = r.get_tasks_by_creator_paged(&admin, 10, 2);
    assert_eq!(empty.len(), 0);
}

#[test]
fn test_list_tasks_pagination() {
    let (mut r, admin) = setup();

    let mut ids = Vec::new();
    for _ in 0..4 {
        ids.push(create_test_task(&mut r, &admin, "tree-planting", 1, 1000, 0));
    }

    let page0 = r.list_tasks(0, 2);
    assert_eq!(page0.len(), 2);
    assert_eq!(page0[0].id, ids[0]);
    assert_eq!(page0[1].id, ids[1]);

    let page1 = r.list_tasks(2, 2);
    assert_eq!(page1.len(), 2);
    assert_eq!(page1[0].id, ids[2]);
    assert_eq!(page1[1].id, ids[3]);

    let page2 = r.list_tasks(4, 10);
    assert_eq!(page2.len(), 0);

    let empty = r.list_tasks(0, 0);
    assert_eq!(empty.len(), 0);
}

#[test]
fn test_list_tasks_full_scan() {
    let (mut r, admin) = setup();

    let id0 = create_test_task(&mut r, &admin, "tree-planting", 1, 1000, 0);
    let id1 = create_test_task(&mut r, &admin, "tree-planting", 1, 1000, 0);
    let id2 = create_test_task(&mut r, &admin, "tree-planting", 1, 1000, 0);

    let all = r.list_tasks(0, u32::MAX);
    assert_eq!(all.len(), 3);
    assert_eq!(all[0].id, id0);
    assert_eq!(all[1].id, id1);
    assert_eq!(all[2].id, id2);
}

#[test]
fn test_task_count_is_stable() {
    let (mut r, admin) = setup();

    assert_eq!(r.task_count(), 0);

    let id0 = create_test_task(&mut r, &admin, "tree-planting", 1, 1000, 0);
    assert_eq!(id0, 0);
    assert_eq!(r.task_count(), 1);

    assert_eq!(r.task_count(), 1);
    assert_eq!(r.task_count(), 1);

    let id1 = create_test_task(&mut r, &admin, "tree-planting", 1, 1000, 0);
    assert_eq!(id1, 1);
    assert_eq!(r.task_count(), 2);
}

#[test]
fn test_extend_task_expiry() {
    let (mut r, admin) = setup();
    let now: u64 = 0;
    let task_id = create_test_task(&mut r, &admin, "tree-planting", 1, 1000, now);

    let task = r.get_task(task_id).unwrap();
    assert_eq!(task.expires_at, now + 1000);

    let ev = r.extend_task_expiry(&admin, task_id, now + 5000, now).unwrap();
    assert_eq!(
        ev,
        TaskExtendedEvent { creator: admin.clone(), task_id, new_expires_at: now + 5000 }
    );

    let task = r.get_task(task_id).unwrap();
    assert_eq!(task.expires_at, now + 5000);
    assert_eq!(task.status, TaskStatus::Active);
}

#[test]
fn test_extend_task_expiry_by_creator_sponsor() {
    let (mut r, admin) = setup();
    let sponsor = addr("sponsor");
    r.add_sponsor(&admin, sponsor.clone()).unwrap();

    let now: u64 = 0;
    let (task_id, _) = r
        .create_task(sponsor.clone(), text("ocean-cleanup"), loc(6), 1000, 1, now + 1000, now)
        .unwrap();

    r.extend_task_expiry(&sponsor, task_id, now + 9000, now).unwrap();

    let task = r.get_task(task_id).unwrap();
    assert_eq!(task.expires_at, now + 9000);
}

#[test]
fn test_extend_task_expiry_unauthorized() {
    let (mut r, admin) = setup();
    let now: u64 = 0;
    let task_id = create_test_task(&mut r, &admin, "tree-planting", 1, 1000, now);

    let attacker = addr("attacker");
    assert_eq!(
        r.extend_task_expiry(&attacker, task_id, now + 9000, now),
        Err(RegistryError::Unauthorized)
    );
}

#[test]
fn test_extend_task_expiry_must_increase() {
    let (mut r, admin) = setup();
    let now: u64 = 0;
    let task_id = create_test_task(&mut r, &admin, "tree-planting", 1, 1000, now);

    assert_eq!(
        r.extend_task_expiry(&admin, task_id, now + 500, now),
        Err(RegistryError::ExpiryNotExtended)
    );
}

#[test]
fn test_extend_expired_task_fails() {
    let (mut r, admin) = setup();
    let now: u64 = 0;
    let task_id = create_test_task(&mut r, &admin, "tree-planting", 1, 1000, now);

    r.expire_task(&admin, task_id).unwrap();
    assert_eq!(
        r.extend_task_expiry(&admin, task_id, now + 9000, now),
        Err(RegistryError::TaskNotActive)
    );
}

#[test]
fn test_extend_missing_task_fails() {
    let (mut r, admin) = setup();

    assert_eq!(
        r.extend_task_expiry(&admin, 999, 9000, 0),
        Err(RegistryError::TaskNotFound)
    );
}

#[test]
fn test_task_survives_ledger_advancement() {
    let (mut r, admin) = setup();

    let task_id = create_test_task(&mut r, &admin, "tree-planting", 2, 100_000, 0);

    let user1 = addr("user1");
    r.complete_task(&admin, task_id, user1.clone(), 0).unwrap();

    let task = r.get_task(task_id).unwrap();
    assert_eq!(task.id, task_id);
    assert_eq!(task.creator, admin);
    assert_eq!(task.task_type, text("tree-planting"));
    assert_eq!(task.completions, 1);
    assert_eq!(task.status, TaskStatus::Active);
    assert!(r.is_task_completed(task_id, &user1));

    let ids = r.get_tasks_by_creator(&admin);
    assert_eq!(ids.len(), 1);
    assert_eq!(ids[0], task_id);
}

#[test]
fn registry_test_transfer_admin() {
    let (mut r, admin) = setup();

    let new_admin = addr("new_admin");
    r.transfer_admin(&admin, new_admin.clone()).unwrap();

    let (task_id, _) = r
        .create_task(new_admin.clone(), text("tree-planting"), loc(8), 1000, 1, 1000, 0)
        .unwrap();

    let task = r.get_task(task_id).unwrap();
    assert_eq!(task.creator, new_admin);
}

#[test]
fn registry_test_transfer_admin_unauthorized() {
    let (mut r, _admin) = setup();

    let attacker = addr("attacker");
    let new_admin = addr("new_admin");
    assert_eq!(r.transfer_admin(&attacker, new_admin), Err(RegistryError::Unauthorized));
}

#[test]
fn registry_test_transfer_admin_same_address() {
    let (mut r, admin) = setup();

    assert_eq!(r.transfer_admin(&admin, admin.clone()), Err(RegistryError::NewAdminSame));
}

#[test]
fn test_admin_cancel_task() {
    let (mut r, admin) = setup();
    let task_id = create_test_task(&mut r, &admin, "tree-planting", 1, 1000, 0);

    r.admin_cancel_task(&admin, task_id).unwrap();

    let task = r.get_task(task_id).unwrap();
    assert_eq!(task.status, TaskStatus::Cancelled);
}

#[test]
fn test_non_admin_cannot_admin_cancel() {
    let (mut r, admin) = setup();
    let task_id = create_test_task(&mut r, &admin, "tree-planting", 1, 1000, 0);

    let other = addr("other");
    assert_eq!(r.admin_cancel_task(&other, task_id), Err(RegistryError::Unauthorized));
}

#[test]
fn test_admin_cancel_completed_task() {
    let (mut r, admin) = setup();
    let user = addr("user");
    let task_id = create_test_task(&mut r, &admin, "tree-planting", 1, 1000, 0);

    r.complete_task(&admin, task_id, user, 0).unwrap();
    assert_eq!(r.admin_cancel_task(&admin, task_id), Err(RegistryError::TaskNotActive));
}

#[test]
fn test_complete_task_desponsored_creator_fails() {
    let (mut r, admin) = setup();
    let sponsor = addr("sponsor");
    r.add_sponsor(&admin, sponsor.clone()).unwrap();

    let (task_id, _) = r
        .create_task(sponsor.clone(), text("tree-planting"), loc(9), 1000, 1, 1000, 0)
        .unwrap();

    r.remove_sponsor(&admin, sponsor.clone()).unwrap();

    let user = addr("user");
    assert_eq!(
        r.complete_task(&admin, task_id, user, 0),
        Err(RegistryError::SponsorRevoked)
    );
}

#[test]
fn test_complete_task_admin_creator_unaffected() {
    let (mut r, admin) = setup();
    let user = addr("user");
    let task_id = create_test_task(&mut r, &admin, "tree-planting", 1, 1000, 0);

    r.complete_task(&admin, task_id, user, 0).unwrap();
    let task = r.get_task(task_id).unwrap();
    assert_eq!(task.status, TaskStatus::Completed);
}

// Further checks of the registry's rules.

#[test]
fn test_uninitialized_registry_refuses() {
    let mut r = RegistryContract::new();
    let someone = addr("someone");

    assert_eq!(r.add_sponsor(&someone, someone.clone()), Err(RegistryError::NotInitialized));
    assert_eq!(
        r.create_task(someone.clone(), text("x"), loc(1), 1, 1, 10, 0),
        Err(RegistryError::NotInitialized)
    );
    assert_eq!(r.extend_task_expiry(&someone, 0, 10, 0), Err(RegistryError::NotInitialized));
    assert_eq!(r.transfer_admin(&someone, addr("b")), Err(RegistryError::NotInitialized));
    assert_eq!(r.get_task(0).err(), Some(RegistryError::TaskNotFound));
    r.initialize(someone.clone()).unwrap();
    assert_eq!(r.initialize(someone.clone()), Err(RegistryError::AlreadyInitialized));
}

#[test]
fn test_create_task_rejections() {
    let (mut r, admin) = setup();

    assert_eq!(
        r.create_task(admin.clone(), text("a"), loc(1), 0, 1, 100, 10),
        Err(RegistryError::RewardNotPositive)
    );
    assert_eq!(
        r.create_task(admin.clone(), text("a"), loc(1), 5, 0, 100, 10),
        Err(RegistryError::MaxCompletionsNotPositive)
    );
    assert_eq!(
        r.create_task(admin.clone(), text("a"), loc(1), 5, 1, 10, 10),
        Err(RegistryError::ExpiryNotInFuture)
    );
    assert_eq!(r.task_count(), 0);

    let (id, ev) = r
        .create_task(admin.clone(), text("a"), loc(1), 5, 1, 11, 10)
        .unwrap();
    assert_eq!(ev, TaskCreatedEvent { creator: admin.clone(), task_id: id });
    let task = r.get_task(id).unwrap();
    assert_eq!(task.created_at, 10);
    assert_eq!(task.location_hash, loc(1));
}

#[test]
fn test_completion_limit_and_event() {
    let (mut r, admin) = setup();
    let task_id = create_test_task(&mut r, &admin, "beach-cleanup", 3, 1000, 0);

    for (i, name) in ["u0", "u1", "u2"].iter().enumerate() {
        let user = addr(name);
        let ev = r.complete_task(&admin, task_id, user.clone(), 0).unwrap();
        assert_eq!(ev, TaskCompletedEvent { user, task_id });
        assert_eq!(r.get_task(task_id).unwrap().completions, i as u32 + 1);
    }
    assert_eq!(r.get_task(task_id).unwrap().status, TaskStatus::Completed);
    assert_eq!(
        r.complete_task(&admin, task_id, addr("u3"), 0),
        Err(RegistryError::TaskNotActive)
    );
    assert!(!r.is_task_completed(task_id, &addr("u3")));
}

#[test]
fn test_complete_task_checks_caller_and_task() {
    let (mut r, admin) = setup();
    let task_id = create_test_task(&mut r, &admin, "x", 1, 1000, 0);

    assert_eq!(
        r.complete_task(&addr("stranger"), task_id, addr("u"), 0),
        Err(RegistryError::Unauthorized)
    );
    assert_eq!(
        r.complete_task(&admin, task_id + 1, addr("u"), 0),
        Err(RegistryError::TaskNotFound)
    );
    // A task is still open at its expiry instant.
    r.complete_task(&admin, task_id, addr("u"), 1000).unwrap();
}

#[test]
fn test_settled_task_stays_settled() {
    let (mut r, admin) = setup();
    let task_id = create_test_task(&mut r, &admin, "x", 1, 1000, 0);

    r.admin_cancel_task(&admin, task_id).unwrap();
    assert_eq!(r.extend_task_expiry(&admin, task_id, 5000, 0), Err(RegistryError::TaskNotActive));
    assert_eq!(r.cancel_task(&admin, task_id), Err(RegistryError::TaskNotActive));
    let task = r.get_task(task_id).unwrap();
    assert_eq!(task.status, TaskStatus::Cancelled);
    assert_eq!(task.expires_at, 1000);
}

#[test]
fn test_extend_expiry_must_be_in_future() {
    let (mut r, admin) = setup();
    let task_id = create_test_task(&mut r, &admin, "x", 1, 100, 0);

    assert_eq!(
        r.extend_task_expiry(&admin, task_id, 500, 500),
        Err(RegistryError::ExpiryNotInFuture)
    );
}

#[test]
fn test_creator_lists_are_separate_and_pages_join() {
    let (mut r, admin) = setup();
    let sponsor = addr("sponsor");
    r.add_sponsor(&admin, sponsor.clone()).unwrap();

    let a0 = create_test_task(&mut r, &admin, "x", 1, 1000, 0);
    let s0 = create_test_task(&mut r, &sponsor, "y", 1, 1000, 0);
    let a1 = create_test_task(&mut r, &admin, "x", 1, 1000, 0);
    let s1 = create_test_task(&mut r, &sponsor, "y", 1, 1000, 0);

    assert_eq!(r.get_tasks_by_creator(&admin), vec![a0, a1]);
    assert_eq!(r.get_tasks_by_creator(&sponsor), vec![s0, s1]);

    let mut joined = r.get_tasks_by_creator_paged(&sponsor, 0, 1);
    joined.extend(r.get_tasks_by_creator_paged(&sponsor, 1, 1));
    assert_eq!(joined, r.get_tasks_by_creator_paged(&sponsor, 0, 2));

    let mut all = r.list_tasks(0, 3);
    all.extend(r.list_tasks(3, 5));
    let ids: Vec<u64> = all.iter().map(|t| t.id).collect();
    assert_eq!(ids, vec![0, 1, 2, 3]);
}

#[test]
fn test_creator_page_with_largest_limit() {
    let (mut r, admin) = setup();
    let id0 = create_test_task(&mut r, &admin, "x", 1, 1000, 0);
    let id1 = create_test_task(&mut r, &admin, "x", 1, 1000, 0);
    let id2 = create_test_task(&mut r, &admin, "x", 1, 1000, 0);

    assert_eq!(r.get_tasks_by_creator_paged(&admin, 1, u32::MAX), vec![id1, id2]);
    assert_eq!(r.get_tasks_by_creator_paged(&admin, 0, u32::MAX), vec![id0, id1, id2]);
    assert_eq!(r.get_tasks_by_creator_paged(&admin, u32::MAX, u32::MAX), Vec::<u64>::new());
}
