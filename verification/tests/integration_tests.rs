use ecotask::address::Address;
use ecotask::registry::RegistryContract;
use ecotask::token::TokenContract;

fn addr(name: &str) -> Address {
    Address::new(String::from(name))
}

#[test]
fn test_minter_is_reward_engine_after_setup() {
    let admin = addr("admin");
    let engine_id = addr("reward_engine");

    let mut token = TokenContract::new();
    token
        .initialize(admin.clone(), String::from("ECO"), String::from("ECO"), 7)
        .unwrap();
    let mut registry = RegistryContract::new();
    registry.initialize(admin.clone()).unwrap();
    registry.add_sponsor(&admin, engine_id.clone()).unwrap();

    assert_eq!(token.minter().unwrap(), admin);

    token.set_minter(&admin, engine_id.clone()).unwrap();
    assert_eq!(token.minter().unwrap(), engine_id);
}

#[test]
fn test_sponsor_engine_completes_and_minter_pays() {
    let admin = addr("admin");
    let engine_id = addr("reward_engine");
    let user = addr("user");

    let mut token = TokenContract::new();
    token
        .initialize(admin.clone(), String::from("ECO"), String::from("ECO"), 7)
        .unwrap();
    token.set_minter(&admin, engine_id.clone()).unwrap();
    let mut registry = RegistryContract::new();
    registry.initialize(admin.clone()).unwrap();
    registry.add_sponsor(&admin, engine_id.clone()).unwrap();

    let (task_id, _) = registry
        .create_task(admin.clone(), String::from("composting"), [3u8; 32], 400, 1, 10_000, 0)
        .unwrap();
    registry.complete_task(&engine_id, task_id, user.clone(), 5).unwrap();
    let reward = registry.get_task(task_id).unwrap().reward_amount;
    token.mint(user.clone(), reward).unwrap();

    assert_eq!(token.balance(&user), 400);
    assert_eq!(token.total_supply(), 400);
    assert!(registry.is_task_completed(task_id, &user));
}
