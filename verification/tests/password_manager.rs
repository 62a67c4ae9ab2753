use http_server::password_manager::{Credential, Locked, PasswordManager, Unlocked};

fn listed(manager: &PasswordManager<Unlocked>) -> Vec<(String, String)> {
    let mut pairs: Vec<(String, String)> = manager
        .list_passwords()
        .iter()
        .map(|c: &Credential| (c.username.clone(), c.password.clone()))
        .collect();
    pairs.sort();
    pairs
}

fn pair(username: &str, password: &str) -> (String, String) {
    (username.to_string(), password.to_string())
}

#[test]
fn new_manager_is_locked_and_empty() {
    let master_pass = "master123".to_string();
    let manager: PasswordManager<Locked> = PasswordManager::new(&master_pass);
    let manager: PasswordManager<Unlocked> = manager.unlock(&master_pass);
    assert!(manager.list_passwords().is_empty());
    let _locked: PasswordManager<Locked> = manager.lock();
}

#[test]
fn added_passwords_are_listed() {
    let master_pass = "master123".to_string();
    let mut manager = PasswordManager::new(&master_pass).unlock(&master_pass);
    manager.add_password("alice".to_string(), "a1".to_string());
    manager.add_password("bob".to_string(), "b2".to_string());
    manager.add_password("".to_string(), "".to_string());
    assert_eq!(listed(&manager), vec![pair("", ""), pair("alice", "a1"), pair("bob", "b2")]);
}

#[test]
fn a_second_password_for_a_user_name_takes_the_place_of_the_first() {
    let master_pass = "m".to_string();
    let mut manager = PasswordManager::new(&master_pass).unlock(&master_pass);
    manager.add_password("alice".to_string(), "old".to_string());
    manager.add_password("bob".to_string(), "b".to_string());
    manager.add_password("alice".to_string(), "new".to_string());
    manager.add_password("Alice".to_string(), "other".to_string());
    assert_eq!(
        listed(&manager),
        vec![pair("Alice", "other"), pair("alice", "new"), pair("bob", "b")]
    );
}

#[test]
fn passwords_outlast_locking_and_unlocking() {
    let master_pass = "first".to_string();
    let mut manager = PasswordManager::new(&master_pass).unlock(&master_pass);
    manager.add_password("alice".to_string(), "a1".to_string());
    let locked = manager.lock();
    let mut manager = locked.unlock(&"second".to_string());
    assert_eq!(listed(&manager), vec![pair("alice", "a1")]);
    manager.add_password("bob".to_string(), "b2".to_string());
    assert_eq!(listed(&manager), vec![pair("alice", "a1"), pair("bob", "b2")]);
}
