use tokenized_estate::stable::MemoryPool;
use tokenized_estate::user::CreateUserRequest;
use tokenized_estate::user::UpdateKycStatusRequest;
use tokenized_estate::user::UpdatePortfolioRequest;
use tokenized_estate::user::User;
use tokenized_estate::user::UserError;
use tokenized_estate::user::UserStats;
use tokenized_estate::user::UserStore;

fn who(name: &str) -> Vec<u8> {
    name.as_bytes().to_vec()
}

fn join(name: &str) -> CreateUserRequest {
    CreateUserRequest {
        email: format!("{}@example.org", name),
        name: name.to_string(),
        wallet_address: format!("wallet-{}", name),
    }
}

fn kyc(name: &str, status: &str) -> UpdateKycStatusRequest {
    UpdateKycStatusRequest { user_principal: who(name), new_status: status.to_string() }
}

#[test]
fn create_user_registers_an_active_user_pending_verification() {
    let mut store = UserStore::new(MemoryPool::open());
    let u = store.create_user(join("ann"), who("ann"), 9).unwrap();
    assert_eq!(
        u,
        User {
            principal: who("ann"),
            email: "ann@example.org".to_string(),
            name: "ann".to_string(),
            kyc_status: "pending".to_string(),
            wallet_address: "wallet-ann".to_string(),
            registration_date: 9,
            is_active: true,
            total_investments: 0,
            portfolio_value: 0,
        }
    );
    assert_eq!(store.get_user(&who("ann")), Some(u.clone()));
    assert_eq!(store.get_user(&who("an")), None);
    assert_eq!(store.get_all_users(), vec![u]);
}

#[test]
fn an_identity_registers_once() {
    let mut store = UserStore::new(MemoryPool::open());
    let first = store.create_user(join("ann"), who("ann"), 9).unwrap();
    assert_eq!(store.create_user(join("other"), who("ann"), 10), Err(UserError::AlreadyExists));
    assert_eq!(store.get_all_users(), vec![first]);
    assert!(store.create_user(join("ann"), who("bob"), 10).is_ok());
    assert_eq!(store.get_all_users().len(), 2);
}

#[test]
fn updates_change_what_they_name_and_nothing_else() {
    let mut store = UserStore::new(MemoryPool::open());
    let u = store.create_user(join("ann"), who("ann"), 9).unwrap();
    store.create_user(join("bob"), who("bob"), 10).unwrap();

    let v = store.update_kyc_status(kyc("ann", "verified")).unwrap();
    assert_eq!(v, User { kyc_status: "verified".to_string(), ..u.clone() });

    let w = store
        .update_user_profile(&who("ann"), "Ann B.".to_string(), "ab@example.org".to_string())
        .unwrap();
    assert_eq!(
        w,
        User { name: "Ann B.".to_string(), email: "ab@example.org".to_string(), ..v.clone() }
    );

    let x = store
        .update_portfolio_value(UpdatePortfolioRequest {
            user_principal: who("ann"),
            total_investments: 5,
            portfolio_value: 6,
        })
        .unwrap();
    assert_eq!(x, User { total_investments: 5, portfolio_value: 6, ..w.clone() });

    let y = store.deactivate_user(&who("ann")).unwrap();
    assert_eq!(y, User { is_active: false, ..x });
    assert_eq!(store.deactivate_user(&who("ann")).unwrap(), y);
    assert_eq!(store.get_user(&who("ann")), Some(y));

    let bob = store.get_user(&who("bob")).unwrap();
    assert_eq!(bob.kyc_status, "pending");
    assert!(bob.is_active);
    assert_eq!(store.get_all_users().len(), 2);
}

#[test]
fn updates_of_a_missing_user_are_not_found() {
    let mut store = UserStore::new(MemoryPool::open());
    store.create_user(join("ann"), who("ann"), 9).unwrap();
    assert_eq!(store.update_kyc_status(kyc("bob", "verified")), Err(UserError::NotFound));
    assert_eq!(
        store.update_user_profile(&who("bob"), String::new(), String::new()),
        Err(UserError::NotFound)
    );
    assert_eq!(
        store.update_portfolio_value(UpdatePortfolioRequest {
            user_principal: who("bob"),
            total_investments: 1,
            portfolio_value: 1,
        }),
        Err(UserError::NotFound)
    );
    assert_eq!(store.deactivate_user(&who("bob")), Err(UserError::NotFound));
    assert_eq!(store.get_all_users().len(), 1);
}

#[test]
fn users_are_found_by_email_and_by_wallet() {
    let mut store = UserStore::new(MemoryPool::open());
    let ann = store.create_user(join("ann"), who("ann"), 9).unwrap();
    let bob = store.create_user(join("bob"), who("bob"), 10).unwrap();
    // the same address again, under another identity
    store.create_user(join("ann"), who("zed"), 11).unwrap();
    assert_eq!(store.get_user_by_email(&"bob@example.org".to_string()), Some(bob.clone()));
    assert_eq!(store.get_user_by_email(&"ann@example.org".to_string()), Some(ann.clone()));
    assert_eq!(store.get_user_by_email(&"eve@example.org".to_string()), None);
    assert_eq!(store.get_user_by_wallet(&"wallet-bob".to_string()), Some(bob));
    assert_eq!(store.get_user_by_wallet(&"wallet-ann".to_string()), Some(ann));
    assert_eq!(store.get_user_by_wallet(&"wallet".to_string()), None);
}

#[test]
fn the_stats_count_all_verified_and_active_users() {
    let mut store = UserStore::new(MemoryPool::open());
    assert_eq!(
        store.get_user_stats(),
        UserStats { total_users: 0, verified_users: 0, active_users: 0 }
    );
    for name in ["a", "b", "c", "d", "e"] {
        store.create_user(join(name), who(name), 1).unwrap();
    }
    store.update_kyc_status(kyc("a", "verified")).unwrap();
    store.update_kyc_status(kyc("b", "verified")).unwrap();
    store.update_kyc_status(kyc("c", "rejected")).unwrap();
    store.deactivate_user(&who("b")).unwrap();
    store.deactivate_user(&who("d")).unwrap();
    assert_eq!(
        store.get_user_stats(),
        UserStats { total_users: 5, verified_users: 2, active_users: 3 }
    );
    // verified and active, both
    let names: Vec<String> = store.get_verified_users().iter().map(|u| u.name.clone()).collect();
    assert_eq!(names, vec!["a".to_string()]);
}

#[test]
fn users_are_listed_in_the_order_of_their_enrolment() {
    let mut store = UserStore::new(MemoryPool::open());
    for name in ["zed", "ann", "mia"] {
        store.create_user(join(name), who(name), 1).unwrap();
    }
    let names: Vec<String> = store.get_all_users().iter().map(|u| u.name.clone()).collect();
    assert_eq!(names, vec!["zed".to_string(), "ann".to_string(), "mia".to_string()]);
}

#[test]
fn there_is_room_for_ordinary_users_and_changes() {
    let mut store = UserStore::new(MemoryPool::open());
    assert!(store.has_room_for_user(&join("ann"), &who("ann")));
    store.create_user(join("ann"), who("ann"), 1).unwrap();
    assert!(store.has_room_for_kyc_status(&who("ann"), &"verified".to_string()));
    assert!(store.has_room_for_kyc_status(&who("bob"), &"verified".to_string()));
    assert!(store.has_room_for_profile(&who("ann"), &"A".repeat(10_000), &String::new()));
}

#[test]
fn init_leaves_the_users_as_they_are() {
    let mut store = UserStore::new(MemoryPool::open());
    store.create_user(join("ann"), who("ann"), 1).unwrap();
    store.init();
    assert_eq!(store.get_all_users().len(), 1);
    assert!(store.create_user(join("bob"), who("bob"), 1).is_ok());
    assert_eq!(store.get_all_users().len(), 2);
}
