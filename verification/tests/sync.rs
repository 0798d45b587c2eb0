use pass_provision::key::gpg_id::RecipientSet;
use pass_provision::key::trust::import_key;
use pass_provision::key::trust::ImportAction;
use pass_provision::key::trust::ImportEntry;
use pass_provision::key::trust::ImportError;
use pass_provision::key::trust::ImportEvent;
use pass_provision::key::trust::ImportOutcome;
use pass_provision::key::trust::ImportSession;
use pass_provision::key::trust::TrustDecision;
use pass_provision::key::Key;
use pass_provision::key::KeyRecord;
use pass_provision::key::SignatureRecord;
use pass_provision::key::UserIdRecord;
use pass_provision::prompt::menu;
use pass_provision::prompt::MenuAnswer;
use pass_provision::sync::check_keys_to_import;
use pass_provision::sync::sync;
use pass_provision::sync::write_missing_keys;
use pass_provision::sync::Sync;
use pass_provision::sync::SyncAction;
use pass_provision::sync::SyncEvent;

const TESTING_KEY: &str = "126DF511181C21E94E688C44AA8A6BE01EB30743";
const TESTING_KEY_ID: &str = "AA8A6BE01EB30743";
const NEWKEY1: &str = "A849644DA452281D2EB637EA9FEBCD1F791BC6B9";
const NEWKEY2: &str = "D54BA99B7CD92448901306F46AD31A01C5E25FA2";
const SIGNER: &str = "signer@pubkey.localhost";

/// What a scripted keyring and operator do in place of the real ones.
struct Scenario {
    /// The contents of the published file, if there is one.
    file: Option<&'static str>,
    /// The fingerprints that the import reports, each with its novelty; none
    /// where the keyring refuses the material.
    report: Option<Vec<(&'static str, bool)>>,
    /// The key that the keyring holds under the fingerprint afterwards.
    record: Option<(&'static str, &'static str, Vec<&'static str>)>,
    /// What the operator types at every prompt.
    input: &'static str,
    /// Whether the keyring manages to sign.
    signs: bool,
}

/// What came of a scripted run.
struct Run {
    outcome: ImportOutcome,
    /// The key ids that signed the key during the run.
    signed_by: Vec<String>,
    /// Whether the material reached the keyring.
    imported: bool,
    /// The questions that were put, by kind.
    asked: Vec<&'static str>,
}

fn testing_keys() -> Vec<Key> {
    vec![Key::new(SIGNER.to_string(), TESTING_KEY.to_string(), true).unwrap()]
}

fn record_of(identity: &str, fingerprint: &str, signers: &[&str]) -> KeyRecord {
    KeyRecord {
        user_ids: vec![UserIdRecord {
            email: Some(identity.to_string()),
            signatures: signers
                .iter()
                .map(|key_id| SignatureRecord {
                    invalid: false,
                    expired: false,
                    revocation: false,
                    signer_key_id: Some(key_id.to_string()),
                })
                .collect(),
        }],
        fingerprint: Some(fingerprint.to_string()),
        has_secret: false,
    }
}

fn answer(action: &ImportAction, input: &str) -> ImportEvent {
    loop {
        match menu(input, 2, action.default_choice()) {
            MenuAnswer::Chosen(choice) => return ImportEvent::Answered(choice),
            _ => panic!("the scripted input is no answer"),
        }
    }
}

fn run_import(fingerprint: &str, local_keys: &Vec<Key>, scenario: &Scenario) -> Run {
    let (mut session, mut action) =
        ImportSession::start(fingerprint.to_string(), TESTING_KEY.to_string());
    let mut signed_by = Vec::new();
    let mut imported = false;
    let mut asked = Vec::new();
    for _ in 0..20 {
        let event = match &action {
            ImportAction::ReadKeyFile { file_name } => {
                assert_eq!(file_name, &format!("{}.asc", fingerprint));
                match scenario.file {
                    Some(contents) => ImportEvent::FileRead(contents.to_string()),
                    None => ImportEvent::FileMissing,
                }
            }
            ImportAction::Import { contents } => {
                assert_eq!(Some(contents.as_str()), scenario.file);
                match &scenario.report {
                    Some(entries) => {
                        imported = true;
                        ImportEvent::Imported(
                            entries
                                .iter()
                                .map(|(fingerprint, is_new)| ImportEntry {
                                    fingerprint: fingerprint.to_string(),
                                    is_new: *is_new,
                                })
                                .collect(),
                        )
                    }
                    None => ImportEvent::ImportRejected,
                }
            }
            ImportAction::FetchKey { fingerprint: wanted } => {
                assert_eq!(wanted, fingerprint);
                match &scenario.record {
                    Some((identity, fingerprint, signers)) => {
                        ImportEvent::KeyFetched(record_of(identity, fingerprint, signers))
                    }
                    None => ImportEvent::KeyMissing,
                }
            }
            ImportAction::AskUnverified { .. } => {
                asked.push("unverified");
                answer(&action, scenario.input)
            }
            ImportAction::AskFingerprint { .. } => {
                asked.push("fingerprint");
                answer(&action, scenario.input)
            }
            ImportAction::AskVerified { .. } => {
                asked.push("verified");
                answer(&action, scenario.input)
            }
            ImportAction::Sign { signer, .. } => {
                if scenario.signs {
                    signed_by.push(signer[signer.len() - 16..].to_string());
                    ImportEvent::Signed
                } else {
                    ImportEvent::SignFailed
                }
            }
            ImportAction::Finish(_) => break,
        };
        let next = import_key(session, event, local_keys);
        session = next.0;
        action = next.1;
    }
    assert!(session.is_finished());
    match action {
        ImportAction::Finish(outcome) => Run { outcome, signed_by, imported, asked },
        _ => panic!("the protocol did not end"),
    }
}

fn is_signed_by(run: &Run, signer_identity: &str) -> bool {
    run.signed_by.iter().any(|key_id| key_id == signer_identity)
}

#[test]
fn test_key_import() {
    let local_keys = testing_keys();
    for (newkey, identity) in [(NEWKEY1, "newkey1@localhost"), (NEWKEY2, "newkey2@localhost")] {
        let scenario = Scenario {
            file: Some("-----BEGIN PGP PUBLIC KEY BLOCK-----"),
            report: Some(vec![(newkey, true)]),
            record: Some((identity, newkey, vec![TESTING_KEY_ID])),
            input: "\n\n",
            signs: true,
        };
        let run = run_import(newkey, &local_keys, &scenario);
        if !run.imported {
            panic!("Newkey not imported");
        }
        if !is_signed_by(&run, TESTING_KEY_ID) {
            panic!("Newkey imported but it isn't trusted");
        }
        assert_eq!(run.asked, vec!["verified"]);
        assert_eq!(run.outcome.decision(), Some(TrustDecision::Signed));
        let key = run.outcome.into_key().unwrap();
        assert_eq!(key.get_fingerprint(), newkey);
        assert_eq!(key.get_identity(), identity);
    }
}

#[test]
fn test_key_import_no_sigs() {
    let local_keys = testing_keys();
    let scenario = Scenario {
        file: Some("-----BEGIN PGP PUBLIC KEY BLOCK-----"),
        report: Some(vec![(NEWKEY1, true)]),
        record: Some(("newkey1@localhost", NEWKEY1, vec![])),
        input: "\n",
        signs: true,
    };
    let run = run_import(NEWKEY1, &local_keys, &scenario);
    if run.imported && is_signed_by(&run, TESTING_KEY_ID) {
        panic!("Newkey1 imported but it is trusted");
    }
    assert!(run.imported);
    assert_eq!(run.asked, vec!["unverified"]);
    assert_eq!(run.outcome.decision(), Some(TrustDecision::Rejected));
    assert!(run.outcome.into_key().is_none());
}

#[test]
fn test_key_import_new_key() {
    let local_keys = testing_keys();
    let scenario = Scenario {
        file: Some("-----BEGIN PGP PUBLIC KEY BLOCK-----"),
        report: Some(vec![(NEWKEY1, true)]),
        record: Some(("newkey1@localhost", NEWKEY1, vec![])),
        input: "1\n",
        signs: true,
    };
    let run = run_import(NEWKEY1, &local_keys, &scenario);
    if run.imported && !is_signed_by(&run, TESTING_KEY_ID) {
        panic!("Newkey1 imported but it is trusted");
    }
    assert_eq!(run.asked, vec!["unverified", "fingerprint"]);
    assert_eq!(run.outcome.decision(), Some(TrustDecision::Signed));
    assert_eq!(run.outcome.into_key().unwrap().get_fingerprint(), NEWKEY1);
}

#[test]
fn test_key_import_fraud_id() {
    let local_keys = testing_keys();
    let scenario = Scenario {
        file: Some("-----BEGIN PGP PUBLIC KEY BLOCK-----"),
        report: Some(vec![(NEWKEY2, true)]),
        record: Some(("newkey1@localhost", NEWKEY1, vec![TESTING_KEY_ID])),
        input: "\n",
        signs: true,
    };
    let run = run_import(NEWKEY1, &local_keys, &scenario);
    if run.imported && is_signed_by(&run, TESTING_KEY_ID) {
        panic!("Newkey1 imported but it is trusted");
    }
    assert!(run.asked.is_empty());
    assert!(matches!(run.outcome, ImportOutcome::Failed(ImportError::FraudDetected)));
    assert_eq!(run.outcome.decision(), None);
}

#[test]
fn fraud_is_rejected_whatever_the_operator_answers() {
    let local_keys = testing_keys();
    for input in ["1\n", "2\n", "\n"] {
        let scenario = Scenario {
            file: Some("key"),
            report: Some(vec![(NEWKEY1, true), (NEWKEY2, false)]),
            record: Some(("newkey1@localhost", NEWKEY1, vec![TESTING_KEY_ID])),
            input,
            signs: true,
        };
        let run = run_import(NEWKEY1, &local_keys, &scenario);
        assert!(run.signed_by.is_empty());
        assert!(matches!(run.outcome, ImportOutcome::Failed(ImportError::FraudDetected)));
    }
}

#[test]
fn a_key_under_another_fingerprint_is_fraud() {
    let local_keys = testing_keys();
    let scenario = Scenario {
        file: Some("key"),
        report: Some(vec![(NEWKEY1, true)]),
        record: Some(("newkey2@localhost", NEWKEY2, vec![TESTING_KEY_ID])),
        input: "1\n",
        signs: true,
    };
    let run = run_import(NEWKEY1, &local_keys, &scenario);
    assert!(run.signed_by.is_empty());
    assert!(matches!(run.outcome, ImportOutcome::Failed(ImportError::FraudDetected)));
}

#[test]
fn a_missing_file_ends_the_import() {
    let scenario =
        Scenario { file: None, report: None, record: None, input: "1\n", signs: true };
    let run = run_import(NEWKEY1, &testing_keys(), &scenario);
    assert!(!run.imported);
    assert!(matches!(run.outcome, ImportOutcome::Failed(ImportError::FileMissing)));
}

#[test]
fn a_refused_import_is_reported() {
    let scenario =
        Scenario { file: Some("junk"), report: None, record: None, input: "1\n", signs: true };
    let run = run_import(NEWKEY1, &testing_keys(), &scenario);
    assert!(matches!(run.outcome, ImportOutcome::Failed(ImportError::EngineRejected)));
}

#[test]
fn a_key_that_vanished_after_import_is_fraud() {
    let scenario = Scenario {
        file: Some("key"),
        report: Some(vec![(NEWKEY1, true)]),
        record: None,
        input: "1\n",
        signs: true,
    };
    let run = run_import(NEWKEY1, &testing_keys(), &scenario);
    assert!(matches!(run.outcome, ImportOutcome::Failed(ImportError::FraudDetected)));
}

#[test]
fn a_known_key_is_handed_back_without_questions() {
    let scenario = Scenario {
        file: Some("key"),
        report: Some(vec![(NEWKEY1, false)]),
        record: Some(("newkey1@localhost", NEWKEY1, vec![])),
        input: "2\n",
        signs: true,
    };
    let run = run_import(NEWKEY1, &testing_keys(), &scenario);
    assert!(run.asked.is_empty());
    assert!(run.signed_by.is_empty());
    assert_eq!(run.outcome.decision(), Some(TrustDecision::Trusted));
    assert_eq!(run.outcome.into_key().unwrap().get_identity(), "newkey1@localhost");
}

#[test]
fn declining_the_second_confirmation_leaves_the_key_unsigned() {
    let local_keys = testing_keys();
    let (session, _) = ImportSession::start(NEWKEY1.to_string(), TESTING_KEY.to_string());
    let (session, _) = import_key(session, ImportEvent::FileRead("key".to_string()), &local_keys);
    let report = vec![ImportEntry { fingerprint: NEWKEY1.to_string(), is_new: true }];
    let (session, _) = import_key(session, ImportEvent::Imported(report), &local_keys);
    let record = record_of("newkey1@localhost", NEWKEY1, &[]);
    let (session, action) = import_key(session, ImportEvent::KeyFetched(record), &local_keys);
    assert!(matches!(&action, ImportAction::AskUnverified { identity } if identity == "newkey1@localhost"));
    assert_eq!(action.default_choice(), Some(1));
    assert_eq!(action.decision(), Some(TrustDecision::Pending));
    let (session, action) = import_key(session, ImportEvent::Answered(0), &local_keys);
    match &action {
        ImportAction::AskFingerprint { pretty_fingerprint } => assert_eq!(
            pretty_fingerprint,
            "A849 644D A452 281D 2EB6 37EA 9FEB CD1F 791B C6B9"
        ),
        _ => panic!("no second confirmation"),
    }
    assert_eq!(action.default_choice(), Some(1));
    let (session, action) = import_key(session, ImportEvent::Answered(1), &local_keys);
    assert!(matches!(action, ImportAction::Finish(ImportOutcome::Declined)));
    assert!(session.is_finished());
    let (_, action) = import_key(session, ImportEvent::Signed, &local_keys);
    assert!(matches!(
        action,
        ImportAction::Finish(ImportOutcome::Failed(ImportError::EngineRejected))
    ));
}

#[test]
fn a_vouched_key_is_signed_by_the_default_identity() {
    let local_keys = testing_keys();
    let (session, _) = ImportSession::start(NEWKEY1.to_string(), TESTING_KEY.to_string());
    assert_eq!(session.fingerprint(), NEWKEY1);
    let (session, _) = import_key(session, ImportEvent::FileRead("key".to_string()), &local_keys);
    let report = vec![ImportEntry { fingerprint: NEWKEY1.to_string(), is_new: true }];
    let (session, _) = import_key(session, ImportEvent::Imported(report), &local_keys);
    let record = record_of("newkey1@localhost", NEWKEY1, &[TESTING_KEY_ID, "0000000000000000"]);
    let (session, action) = import_key(session, ImportEvent::KeyFetched(record), &local_keys);
    match &action {
        ImportAction::AskVerified { identity, signers } => {
            assert_eq!(identity, "newkey1@localhost");
            assert_eq!(signers, &vec![SIGNER.to_string()]);
        }
        _ => panic!("the signature was not recognised"),
    }
    assert_eq!(action.default_choice(), Some(0));
    assert_eq!(action.decision(), Some(TrustDecision::Trusted));
    let (session, action) = import_key(session, ImportEvent::Answered(0), &local_keys);
    match &action {
        ImportAction::Sign { fingerprint, identity, signer } => {
            assert_eq!(fingerprint, NEWKEY1);
            assert_eq!(identity, "newkey1@localhost");
            assert_eq!(signer, TESTING_KEY);
        }
        _ => panic!("the key was not to be signed"),
    }
    let (_, action) = import_key(session, ImportEvent::Signed, &local_keys);
    assert!(matches!(action, ImportAction::Finish(ImportOutcome::Signed(_))));
}

#[test]
fn a_failed_signature_gives_no_key() {
    let scenario = Scenario {
        file: Some("key"),
        report: Some(vec![(NEWKEY1, true)]),
        record: Some(("newkey1@localhost", NEWKEY1, vec![TESTING_KEY_ID])),
        input: "\n",
        signs: false,
    };
    let run = run_import(NEWKEY1, &testing_keys(), &scenario);
    assert!(matches!(run.outcome, ImportOutcome::SigningFailed));
    assert!(run.outcome.into_key().is_none());
}

#[test]
fn bad_signatures_do_not_vouch() {
    let local_keys = testing_keys();
    let flawed = |invalid, expired, revocation| SignatureRecord {
        invalid,
        expired,
        revocation,
        signer_key_id: Some(TESTING_KEY_ID.to_string()),
    };
    let record = KeyRecord {
        user_ids: vec![UserIdRecord {
            email: Some("newkey1@localhost".to_string()),
            signatures: vec![
                flawed(true, false, false),
                flawed(false, true, false),
                flawed(false, false, true),
                SignatureRecord {
                    invalid: false,
                    expired: false,
                    revocation: false,
                    signer_key_id: None,
                },
            ],
        }],
        fingerprint: Some(NEWKEY1.to_string()),
        has_secret: false,
    };
    let signers = pass_provision::key::trust::collect_good_signatures(&record, &local_keys);
    assert!(signers.is_empty());
}

#[test]
fn test_fresh_sigs() {
    let keys_in_folder = vec![NEWKEY1.to_string(), NEWKEY2.to_string()];
    let keys = vec![
        Key::new("newkey1@localhost".to_string(), NEWKEY1.to_string(), false).unwrap(),
        Key::new("newkey2@localhost".to_string(), NEWKEY2.to_string(), false).unwrap(),
    ];
    let (mut run, mut action) = Sync::start(keys_in_folder, keys, RecipientSet::new());
    let mut refreshed = Vec::new();
    for _ in 0..10 {
        match &action {
            SyncAction::Refresh { fingerprint } => refreshed.push(fingerprint.clone()),
            SyncAction::Finished => break,
            _ => panic!("nothing but refreshes is due"),
        }
        let next = sync(run, SyncEvent::Done);
        run = next.0;
        action = next.1;
    }
    assert!(run.is_finished());
    for actual_name in [NEWKEY1, NEWKEY2] {
        if !refreshed.iter().any(|fingerprint| fingerprint == actual_name) {
            panic!("Key '{}' not updated", actual_name);
        }
    }
}

#[test]
fn test_write_keys() {
    let keys = vec![
        Key::new(SIGNER.to_string(), TESTING_KEY.to_string(), true).unwrap(),
        Key::new("newkey1@localhost".to_string(), NEWKEY1.to_string(), false).unwrap(),
        Key::new("newkey2@localhost".to_string(), NEWKEY2.to_string(), false).unwrap(),
    ];
    let gpgs = RecipientSet::from_vec(vec![
        SIGNER.to_string(),
        "newkey1@localhost".to_string(),
        "nobody@localhost".to_string(),
    ]);
    let written_keys = vec![TESTING_KEY.to_string()];
    let unpublished = write_missing_keys(&gpgs, &keys, &written_keys);
    if unpublished != vec![NEWKEY1.to_string()] {
        panic!("Key: {} not written", "A849644DA452281D2EB637EA9FEBCD1F791BC6B9");
    }
}

#[test]
fn only_missing_keys_are_imported() {
    let keys_in_folder = vec![NEWKEY1.to_string(), TESTING_KEY.to_string(), NEWKEY2.to_string()];
    let missing = check_keys_to_import(&keys_in_folder, &testing_keys());
    assert_eq!(missing, vec![NEWKEY1.to_string(), NEWKEY2.to_string()]);
    assert!(check_keys_to_import(&Vec::new(), &testing_keys()).is_empty());
}

#[test]
fn a_run_imports_then_refreshes_then_publishes() {
    let keys_in_folder = vec![TESTING_KEY.to_string(), NEWKEY1.to_string(), NEWKEY2.to_string()];
    let keys = vec![
        Key::new(SIGNER.to_string(), TESTING_KEY.to_string(), true).unwrap(),
        Key::new("extra@localhost".to_string(), "EXTRA".to_string(), false).unwrap(),
    ];
    let gpgs = RecipientSet::from_vec(vec![SIGNER.to_string(), "extra@localhost".to_string()]);
    let (mut run, mut action) = Sync::start(keys_in_folder, keys, gpgs);
    let mut log = Vec::new();
    for _ in 0..20 {
        let event = match &action {
            SyncAction::Import { fingerprint } => {
                log.push(format!("import {}", fingerprint));
                if fingerprint == NEWKEY1 {
                    SyncEvent::Imported(
                        Key::new("newkey1@localhost".to_string(), NEWKEY1.to_string(), false)
                            .unwrap(),
                    )
                } else {
                    SyncEvent::Done
                }
            }
            SyncAction::Refresh { fingerprint } => {
                log.push(format!("refresh {}", fingerprint));
                SyncEvent::Done
            }
            SyncAction::Export { fingerprint } => {
                log.push(format!("export {}", fingerprint));
                SyncEvent::Done
            }
            SyncAction::Finished => break,
        };
        let next = sync(run, event);
        run = next.0;
        action = next.1;
    }
    assert!(run.is_finished());
    assert_eq!(
        log,
        vec![
            format!("import {}", NEWKEY1),
            format!("export {}", NEWKEY1),
            format!("import {}", NEWKEY2),
            format!("refresh {}", TESTING_KEY),
            format!("refresh {}", NEWKEY1),
            format!("refresh {}", NEWKEY2),
            "export EXTRA".to_string(),
        ]
    );
    assert_eq!(run.keys().len(), 3);
    assert_eq!(run.keys()[2].get_fingerprint(), NEWKEY1);
    let (run, action) = sync(run, SyncEvent::Done);
    assert!(run.is_finished());
    assert!(matches!(action, SyncAction::Finished));
}
