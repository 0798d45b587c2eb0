use pass_provision::key::gpg_id::write_gpg_ids;
use pass_provision::key::gpg_id::RecipientSet;
use pass_provision::key::gpg_id::Store;
use pass_provision::recipients::reencrypt;
use pass_provision::recipients::reencrypt_cmd;

fn scenario_store() -> Store {
    let mut store = Store::new();
    store.put_dir("".to_string(), Some("testing@localhost\n".to_string()));
    store.put_dir("subdir".to_string(), Some("testing@localhost\n".to_string()));
    store
}

#[test]
fn test_reencrypt_main() {
    let mut store = scenario_store();
    let new_recipients = RecipientSet::from_vec(vec!["signer@pubkey.localhost".to_string()]);
    write_gpg_ids(&mut store, "", &new_recipients).unwrap();

    let tool_args = reencrypt_cmd(&store, &Vec::new());

    if tool_args != vec!["init", "signer@pubkey.localhost"] {
        panic!("Failed to reencrypt main directory");
    }
}

#[test]
fn test_reencrypt_subdir() {
    let mut store = scenario_store();
    let new_recipients = RecipientSet::from_vec(vec!["signer@pubkey.localhost".to_string()]);
    write_gpg_ids(&mut store, "subdir", &new_recipients).unwrap();

    let tool_args = reencrypt_cmd(&store, &vec!["subdir".to_string()]);

    if tool_args.iter().any(|arg| arg == "testing@localhost") {
        panic!("Reencrypt reencrypted main repo");
    }
    if tool_args != vec!["init", "-p", "subdir", "signer@pubkey.localhost"] {
        panic!("Failed to reencrypt subdir");
    }
}

#[test]
fn reencryption_takes_the_sorted_base_set_and_changes_nothing() {
    let mut store = Store::new();
    store.put_dir("".to_string(), Some("root@localhost\n".to_string()));
    store.put_dir("a".to_string(), Some("zoe\nadam\nzoe\nmia\n".to_string()));
    store.put_dir("a/b".to_string(), Some("deep\n".to_string()));
    store.put_dir("bare".to_string(), None);
    assert_eq!(reencrypt(&store, &Some("a".to_string())), vec!["init", "-p", "a", "adam", "mia", "zoe"]);
    assert_eq!(reencrypt(&store, &None), vec!["init", "root@localhost"]);
    assert_eq!(reencrypt(&store, &Some("bare".to_string())), vec!["init", "-p", "bare"]);
    assert_eq!(reencrypt(&store, &Some("gone".to_string())), vec!["init", "-p", "gone"]);
    assert_eq!(
        reencrypt_cmd(&store, &vec!["a/b".to_string(), "ignored".to_string()]),
        vec!["init", "-p", "a/b", "deep"]
    );
    assert_eq!(store.gpg_id_file("a"), Some(&"zoe\nadam\nzoe\nmia\n".to_string()));
}
