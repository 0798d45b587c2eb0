use pass_provision::config::Config;
use pass_provision::key::gpg_id::get_all_gpgs;
use pass_provision::key::gpg_id::get_base_gpgs_for_dir;
use pass_provision::key::gpg_id::RecipientSet;
use pass_provision::key::gpg_id::Store;
use pass_provision::key::gpg_id::StoreError;
use pass_provision::key::Key;
use pass_provision::recipients::add_arguments;
use pass_provision::recipients::add_gpgs;
use pass_provision::recipients::AddOutcome;
use pass_provision::recipients::ArgumentError;

fn set_of(ids: &[&str]) -> RecipientSet {
    RecipientSet::from_vec(ids.iter().map(|id| id.to_string()).collect())
}

fn scenario_store() -> Store {
    let mut store = Store::new();
    store.put_dir("".to_string(), Some("testing@localhost\n".to_string()));
    store.put_dir("subdir".to_string(), Some("testing@localhost\n".to_string()));
    store
}

/// Follows the arguments of `gpg-add` as the program does: the operator's
/// own identity stands in where there is no argument.
fn run_add(store: &mut Store, args: &Vec<String>, conf: &Config, keys: &Vec<Key>) -> AddOutcome {
    let request = add_arguments(args).unwrap();
    let mut new_gpgs = request.gpgs;
    if request.use_default_key {
        let default_key = keys
            .iter()
            .find(|key| key.get_fingerprint() == conf.get_default_key())
            .expect("No GPG ids provided and unable to find default key");
        new_gpgs.push(default_key.get_identity().to_string());
    }
    add_gpgs(store, &request.sub_path, &new_gpgs).unwrap()
}

fn tool_args_of(outcome: &AddOutcome) -> Vec<String> {
    match outcome {
        AddOutcome::Rewritten { tool_args, .. } => tool_args.clone(),
        AddOutcome::Unchanged => panic!("test file wasn't reencoded!"),
    }
}

#[test]
fn test_add_default_gpg() {
    let mut store = scenario_store();
    let default_key_name = "126DF511181C21E94E688C44AA8A6BE01EB30743";
    let keys = vec![Key::new(
        "signer@pubkey.localhost".to_string(),
        default_key_name.to_string(),
        true,
    )
    .unwrap()];
    let initial_recipients = get_base_gpgs_for_dir(&store, "");
    if initial_recipients.contains("signer@pubkey.localhost") {
        panic!("test file already encoded for test key")
    }
    let conf = Config::new(default_key_name.to_string());
    let empty_gpgs = Vec::new();
    let outcome = run_add(&mut store, &empty_gpgs, &conf, &keys);
    let final_recipients = get_base_gpgs_for_dir(&store, "");
    if !final_recipients.contains("signer@pubkey.localhost") {
        panic!("test file wasn't reencoded!");
    }
    assert_eq!(tool_args_of(&outcome), vec!["init", "signer@pubkey.localhost", "testing@localhost"]);
}

#[test]
fn test_add_tld_gpgs() {
    let mut store = scenario_store();
    let default_key_name = "126DF511181C21E94E688C44AA8A6BE01EB30743";
    let initial_recipients = get_base_gpgs_for_dir(&store, "");
    if initial_recipients.contains("temp1@localhost") {
        panic!("test file already encoded for test key1")
    }
    if initial_recipients.contains("signer@pubkey.localhost") {
        panic!("test file already encoded for test key2")
    }
    let conf = Config::new(default_key_name.to_string());
    let new_gpgs = vec!["temp1@localhost".to_string(), "signer@pubkey.localhost".to_string()];
    let outcome = run_add(&mut store, &new_gpgs, &conf, &Vec::new());
    let final_recipients = get_base_gpgs_for_dir(&store, "");
    if !final_recipients.contains("temp1@localhost") {
        panic!("test file wasn't reencoded for key 1!");
    }
    if !final_recipients.contains("signer@pubkey.localhost") {
        panic!("test file wasn't reencoded for key 2!");
    }
    assert_eq!(
        tool_args_of(&outcome),
        vec!["init", "signer@pubkey.localhost", "temp1@localhost", "testing@localhost"]
    );
    assert_eq!(get_base_gpgs_for_dir(&store, "subdir"), set_of(&["testing@localhost"]));
}

#[test]
fn test_add_subdir_gpgs() {
    let mut store = scenario_store();
    let default_key_name = "126DF511181C21E94E688C44AA8A6BE01EB30743";
    let initial_recipients = get_base_gpgs_for_dir(&store, "subdir");
    if initial_recipients.contains("temp1@localhost") {
        panic!("test file already encoded for test key1")
    }
    if initial_recipients.contains("signer@pubkey.localhost") {
        panic!("test file already encoded for test key2")
    }
    let conf = Config::new(default_key_name.to_string());
    let new_gpgs = vec![
        "-p".to_string(),
        "subdir".to_string(),
        "temp1@localhost".to_string(),
        "signer@pubkey.localhost".to_string(),
    ];
    let outcome = run_add(&mut store, &new_gpgs, &conf, &Vec::new());
    let final_recipients = get_base_gpgs_for_dir(&store, "subdir");
    if !final_recipients.contains("temp1@localhost") {
        panic!("test file wasn't reencoded for key 1!");
    }
    if !final_recipients.contains("signer@pubkey.localhost") {
        panic!("test file wasn't reencoded for key 2!");
    }
    assert_eq!(
        tool_args_of(&outcome),
        vec![
            "init",
            "-p",
            "subdir",
            "signer@pubkey.localhost",
            "temp1@localhost",
            "testing@localhost"
        ]
    );
    assert_eq!(get_base_gpgs_for_dir(&store, ""), set_of(&["testing@localhost"]));
}

#[test]
fn adding_known_recipients_changes_nothing() {
    let mut store = Store::new();
    store.put_dir("".to_string(), Some("bob\nalice\n".to_string()));
    let outcome = add_gpgs(&mut store, &None, &vec!["alice".to_string(), "bob".to_string()]);
    assert!(matches!(outcome, Ok(AddOutcome::Unchanged)));
    assert_eq!(store.gpg_id_file(""), Some(&"bob\nalice\n".to_string()));
    let outcome = add_gpgs(&mut store, &None, &Vec::new());
    assert!(matches!(outcome, Ok(AddOutcome::Unchanged)));
    let outcome = add_gpgs(&mut store, &Some("missing".to_string()), &Vec::new());
    assert!(matches!(outcome, Ok(AddOutcome::Unchanged)));
}

#[test]
fn adding_a_new_recipient_rewrites_the_file_with_the_union() {
    let mut store = Store::new();
    store.put_dir("".to_string(), Some("bob\nalice\n".to_string()));
    let outcome =
        add_gpgs(&mut store, &None, &vec!["carol".to_string(), "alice".to_string()]).unwrap();
    match outcome {
        AddOutcome::Rewritten { contents, tool_args } => {
            assert_eq!(contents, "alice\nbob\ncarol\n");
            assert_eq!(tool_args, vec!["init", "alice", "bob", "carol"]);
        }
        AddOutcome::Unchanged => panic!("the new recipient was not added"),
    }
    assert_eq!(store.gpg_id_file(""), Some(&"alice\nbob\ncarol\n".to_string()));
    assert_eq!(get_base_gpgs_for_dir(&store, ""), set_of(&["alice", "bob", "carol"]));
}

#[test]
fn adding_to_a_missing_directory_fails() {
    let mut store = Store::new();
    store.put_dir("".to_string(), Some("alice\n".to_string()));
    let outcome = add_gpgs(&mut store, &Some("missing".to_string()), &vec!["bob".to_string()]);
    assert!(matches!(outcome, Err(StoreError::MissingDirectory)));
    assert_eq!(get_all_gpgs(&store), set_of(&["alice"]));
}

#[test]
fn adding_to_a_subdirectory_leaves_the_root_untouched() {
    let mut store = Store::new();
    store.put_dir("".to_string(), Some("alice\n".to_string()));
    store.put_dir("team".to_string(), None);
    assert_eq!(get_all_gpgs(&store), set_of(&["alice"]));
    let args = vec!["-p".to_string(), "team".to_string(), "bob".to_string()];
    let request = add_arguments(&args).unwrap();
    assert!(!request.use_default_key);
    let outcome = add_gpgs(&mut store, &request.sub_path, &request.gpgs).unwrap();
    match outcome {
        AddOutcome::Rewritten { contents, tool_args } => {
            assert_eq!(contents, "bob\n");
            assert_eq!(tool_args, vec!["init", "-p", "team", "bob"]);
        }
        AddOutcome::Unchanged => panic!("the directory got no recipient file"),
    }
    assert_eq!(store.gpg_id_file("team"), Some(&"bob\n".to_string()));
    assert_eq!(store.gpg_id_file(""), Some(&"alice\n".to_string()));
    assert_eq!(get_base_gpgs_for_dir(&store, ""), set_of(&["alice"]));
    assert_eq!(get_all_gpgs(&store), set_of(&["alice", "bob"]));
}

#[test]
fn the_arguments_name_the_directory_and_the_identities() {
    let request = add_arguments(&Vec::new()).unwrap();
    assert_eq!(request.sub_path, None);
    assert!(request.gpgs.is_empty());
    assert!(request.use_default_key);

    let request = add_arguments(&vec!["a@b".to_string(), "-p".to_string()]).unwrap();
    assert_eq!(request.sub_path, None);
    assert_eq!(request.gpgs, vec!["a@b", "-p"]);
    assert!(!request.use_default_key);

    let request = add_arguments(&vec!["-p".to_string(), "dir".to_string()]).unwrap();
    assert_eq!(request.sub_path, Some("dir".to_string()));
    assert!(request.gpgs.is_empty());
    assert!(!request.use_default_key);

    let error = add_arguments(&vec!["-p".to_string()]);
    assert!(matches!(error, Err(ArgumentError::MissingPath)));
}
