//! The protocol by which a published key enters the keyring and is, or is not,
//! trusted.
//!
//! The keyring, the key directory and the operator are outside this crate. The
//! protocol is therefore a machine: it names the next thing to do
//! ([`ImportAction`]), the caller does it and reports what came of it
//! ([`ImportEvent`]), until the machine finishes with an [`ImportOutcome`].

use vstd::prelude::*;
use crate::key::key_file_name_of;
use crate::key::parsed_key;
use crate::key::pretty_fingerprint_of;
use crate::key::short_fingerprint_of;
use crate::key::Key;
use crate::key::KeyRecord;
use crate::key::KeyRecordView;
use crate::key::KeyView;
use crate::key::SignatureView;
use crate::key::UserIdView;
use crate::text::str_eq;

verus! {

/// Why an import gave no key.
#[derive(Clone, Copy, Debug, PartialEq, Eq)]
pub enum ImportError {
    /// No readable file is published for the fingerprint.
    FileMissing,
    /// What came into the keyring is not the key that was asked for.
    FraudDetected,
    /// The keyring refused the material, or gave nothing usable back.
    EngineRejected,
}

/// Where a key stands with respect to trust.
#[derive(Clone, Copy, Debug, PartialEq, Eq)]
pub enum TrustDecision {
    /// A known key vouches for it, or it was in the keyring before.
    Trusted,
    /// Nobody vouches for it: only the operator can approve it.
    Pending,
    /// The operator approved it and the keyring signed it.
    Signed,
    /// The operator declined.
    Rejected,
}

/// One line of the keyring's report on an import.
pub struct ImportEntry {
    /// Fingerprint of the key that the line is about.
    pub fingerprint: String,
    /// Whether the key was unknown to the keyring before.
    pub is_new: bool,
}

/// The mathematical content of an [`ImportEntry`].
pub ghost struct ImportEntryView {
    pub fingerprint: Seq<char>,
    pub is_new: bool,
}

impl View for ImportEntry {
    type V = ImportEntryView;

    open spec fn view(&self) -> ImportEntryView {
        ImportEntryView { fingerprint: self.fingerprint@, is_new: self.is_new }
    }
}

impl DeepView for ImportEntry {
    type V = ImportEntryView;

    open spec fn deep_view(&self) -> ImportEntryView {
        self@
    }
}

/// How the protocol ended for one fingerprint.
pub enum ImportOutcome {
    /// The key was in the keyring already; it is handed back as it is.
    Known(Key),
    /// The operator approved the key and the keyring signed it.
    Signed(Key),
    /// The operator declined; the key stays in the keyring, unsigned.
    Declined,
    /// The operator approved but the keyring could not sign.
    SigningFailed,
    /// The import failed before any question of trust.
    Failed(ImportError),
}

/// The mathematical content of an [`ImportOutcome`].
pub ghost enum OutcomeView {
    Known(KeyView),
    Signed(KeyView),
    Declined,
    SigningFailed,
    Failed(ImportError),
}

impl View for ImportOutcome {
    type V = OutcomeView;

    open spec fn view(&self) -> OutcomeView {
        match self {
            ImportOutcome::Known(key) => OutcomeView::Known(key@),
            ImportOutcome::Signed(key) => OutcomeView::Signed(key@),
            ImportOutcome::Declined => OutcomeView::Declined,
            ImportOutcome::SigningFailed => OutcomeView::SigningFailed,
            ImportOutcome::Failed(error) => OutcomeView::Failed(*error),
        }
    }
}

/// The key that an outcome hands to the caller, if it hands one.
pub open spec fn outcome_key(outcome: OutcomeView) -> Option<KeyView> {
    match outcome {
        OutcomeView::Known(key) => Some(key),
        OutcomeView::Signed(key) => Some(key),
        _ => None,
    }
}

/// Where an outcome leaves the key with respect to trust; none where the
/// import failed before the question arose.
pub open spec fn outcome_decision(outcome: OutcomeView) -> Option<TrustDecision> {
    match outcome {
        OutcomeView::Known(_) => Some(TrustDecision::Trusted),
        OutcomeView::Signed(_) => Some(TrustDecision::Signed),
        OutcomeView::Declined => Some(TrustDecision::Rejected),
        OutcomeView::SigningFailed => Some(TrustDecision::Pending),
        OutcomeView::Failed(_) => None,
    }
}

impl ImportOutcome {
    /// The imported key, where the protocol ended with one.
    pub fn into_key(self) -> (key: Option<Key>)
        ensures
            key.deep_view() == outcome_key(self@),
    {
        match self {
            ImportOutcome::Known(key) => Some(key),
            ImportOutcome::Signed(key) => Some(key),
            _ => None,
        }
    }

    /// Where the outcome leaves the key with respect to trust.
    pub fn decision(&self) -> (decision: Option<TrustDecision>)
        ensures
            decision == outcome_decision(self@),
    {
        match self {
            ImportOutcome::Known(_) => Some(TrustDecision::Trusted),
            ImportOutcome::Signed(_) => Some(TrustDecision::Signed),
            ImportOutcome::Declined => Some(TrustDecision::Rejected),
            ImportOutcome::SigningFailed => Some(TrustDecision::Pending),
            ImportOutcome::Failed(_) => None,
        }
    }
}

/// What the caller reports back to the protocol.
pub enum ImportEvent {
    /// The published file is absent or cannot be read.
    FileMissing,
    /// The published file, read whole.
    FileRead(String),
    /// The keyring refused the material.
    ImportRejected,
    /// The keyring took the material and reports on it.
    Imported(Vec<ImportEntry>),
    /// The keyring has no key under the fingerprint.
    KeyMissing,
    /// The key that the keyring holds under the fingerprint.
    KeyFetched(KeyRecord),
    /// The operator's choice: `0` is yes, anything else is no.
    Answered(usize),
    /// The keyring could not sign the key.
    SignFailed,
    /// The keyring signed the key.
    Signed,
}

/// The mathematical content of an [`ImportEvent`].
pub ghost enum EventView {
    FileMissing,
    FileRead(Seq<char>),
    ImportRejected,
    Imported(Seq<ImportEntryView>),
    KeyMissing,
    KeyFetched(KeyRecordView),
    Answered(usize),
    SignFailed,
    Signed,
}

impl View for ImportEvent {
    type V = EventView;

    open spec fn view(&self) -> EventView {
        match self {
            ImportEvent::FileMissing => EventView::FileMissing,
            ImportEvent::FileRead(contents) => EventView::FileRead(contents@),
            ImportEvent::ImportRejected => EventView::ImportRejected,
            ImportEvent::Imported(report) => EventView::Imported(report.deep_view()),
            ImportEvent::KeyMissing => EventView::KeyMissing,
            ImportEvent::KeyFetched(record) => EventView::KeyFetched(record@),
            ImportEvent::Answered(choice) => EventView::Answered(*choice),
            ImportEvent::SignFailed => EventView::SignFailed,
            ImportEvent::Signed => EventView::Signed,
        }
    }
}

/// What the protocol asks the caller to do next.
pub enum ImportAction {
    /// Read the file of this name from the key directory.
    ReadKeyFile { file_name: String },
    /// Hand this material to the keyring.
    Import { contents: String },
    /// Fetch the key with this fingerprint from the keyring.
    FetchKey { fingerprint: String },
    /// Nobody known vouches for the key of this identity: ask whether to sign
    /// it all the same. The answer that stands without input is no.
    AskUnverified { identity: String },
    /// Show this fingerprint and ask once more. The answer that stands without
    /// input is no.
    AskFingerprint { pretty_fingerprint: String },
    /// These known identities vouch for the key: show them and ask whether to
    /// sign. The answer that stands without input is yes.
    AskVerified { identity: String, signers: Vec<String> },
    /// Have `signer` sign the user id `identity` of the key `fingerprint`.
    Sign { fingerprint: String, identity: String, signer: String },
    /// The protocol is over.
    Finish(ImportOutcome),
}

/// The mathematical content of an [`ImportAction`].
pub ghost enum ActionView {
    ReadKeyFile { file_name: Seq<char> },
    Import { contents: Seq<char> },
    FetchKey { fingerprint: Seq<char> },
    AskUnverified { identity: Seq<char> },
    AskFingerprint { pretty_fingerprint: Seq<char> },
    AskVerified { identity: Seq<char>, signers: Seq<Seq<char>> },
    Sign { fingerprint: Seq<char>, identity: Seq<char>, signer: Seq<char> },
    Finish(OutcomeView),
}

impl View for ImportAction {
    type V = ActionView;

    open spec fn view(&self) -> ActionView {
        match self {
            ImportAction::ReadKeyFile { file_name } => ActionView::ReadKeyFile {
                file_name: file_name@,
            },
            ImportAction::Import { contents } => ActionView::Import { contents: contents@ },
            ImportAction::FetchKey { fingerprint } => ActionView::FetchKey {
                fingerprint: fingerprint@,
            },
            ImportAction::AskUnverified { identity } => ActionView::AskUnverified {
                identity: identity@,
            },
            ImportAction::AskFingerprint { pretty_fingerprint } => ActionView::AskFingerprint {
                pretty_fingerprint: pretty_fingerprint@,
            },
            ImportAction::AskVerified { identity, signers } => ActionView::AskVerified {
                identity: identity@,
                signers: signers.deep_view(),
            },
            ImportAction::Sign { fingerprint, identity, signer } => ActionView::Sign {
                fingerprint: fingerprint@,
                identity: identity@,
                signer: signer@,
            },
            ImportAction::Finish(outcome) => ActionView::Finish(outcome@),
        }
    }
}

/// The choice that stands when the operator enters nothing, for the actions
/// that ask: the second option (no) for a key that nobody vouches for, the
/// first (yes) for one that a known key has signed.
pub open spec fn default_choice_of(action: ActionView) -> Option<usize> {
    match action {
        ActionView::AskUnverified { .. } => Some(1usize),
        ActionView::AskFingerprint { .. } => Some(1usize),
        ActionView::AskVerified { .. } => Some(0usize),
        _ => None,
    }
}

/// Where an action shows the key to stand with respect to trust.
pub open spec fn action_decision(action: ActionView) -> Option<TrustDecision> {
    match action {
        ActionView::AskUnverified { .. } => Some(TrustDecision::Pending),
        ActionView::AskFingerprint { .. } => Some(TrustDecision::Pending),
        ActionView::AskVerified { .. } => Some(TrustDecision::Trusted),
        ActionView::Sign { .. } => Some(TrustDecision::Pending),
        ActionView::Finish(outcome) => outcome_decision(outcome),
        _ => None,
    }
}

impl ImportAction {
    /// The choice that stands when the operator enters nothing.
    pub fn default_choice(&self) -> (choice: Option<usize>)
        ensures
            choice == default_choice_of(self@),
    {
        match self {
            ImportAction::AskUnverified { .. } => Some(1),
            ImportAction::AskFingerprint { .. } => Some(1),
            ImportAction::AskVerified { .. } => Some(0),
            _ => None,
        }
    }

    /// Where the action shows the key to stand with respect to trust.
    pub fn decision(&self) -> (decision: Option<TrustDecision>)
        ensures
            decision == action_decision(self@),
    {
        match self {
            ImportAction::AskUnverified { .. } => Some(TrustDecision::Pending),
            ImportAction::AskFingerprint { .. } => Some(TrustDecision::Pending),
            ImportAction::AskVerified { .. } => Some(TrustDecision::Trusted),
            ImportAction::Sign { .. } => Some(TrustDecision::Pending),
            ImportAction::Finish(outcome) => outcome.decision(),
            _ => None,
        }
    }
}

/// How far the protocol has come.
pub enum ImportStage {
    /// The published file is being read.
    ReadingFile,
    /// The keyring is taking the material in.
    Importing,
    /// The key is being fetched back; the import brought a key that was not
    /// known before, or it did not.
    Fetching { is_new: bool },
    /// The operator is asked whether to sign a key that nobody vouches for.
    AskingUnverified { key: Key },
    /// The operator is asked once more, with the fingerprint before them.
    AskingFingerprint { key: Key },
    /// The operator is asked whether to sign a key that known keys vouch for.
    AskingVerified { key: Key },
    /// The keyring is signing the key.
    Signing { key: Key },
    /// The protocol is over.
    Finished,
}

/// The mathematical content of an [`ImportStage`].
pub ghost enum StageView {
    ReadingFile,
    Importing,
    Fetching { is_new: bool },
    AskingUnverified { key: KeyView },
    AskingFingerprint { key: KeyView },
    AskingVerified { key: KeyView },
    Signing { key: KeyView },
    Finished,
}

impl View for ImportStage {
    type V = StageView;

    open spec fn view(&self) -> StageView {
        match self {
            ImportStage::ReadingFile => StageView::ReadingFile,
            ImportStage::Importing => StageView::Importing,
            ImportStage::Fetching { is_new } => StageView::Fetching { is_new: *is_new },
            ImportStage::AskingUnverified { key } => StageView::AskingUnverified { key: key@ },
            ImportStage::AskingFingerprint { key } => StageView::AskingFingerprint { key: key@ },
            ImportStage::AskingVerified { key } => StageView::AskingVerified { key: key@ },
            ImportStage::Signing { key } => StageView::Signing { key: key@ },
            ImportStage::Finished => StageView::Finished,
        }
    }
}

/// One run of the protocol: the fingerprint asked for, the identity that signs
/// on approval, and how far the run has come.
pub struct ImportSession {
    fingerprint: String,
    signer: String,
    stage: ImportStage,
}

/// The mathematical content of an [`ImportSession`].
pub ghost struct SessionView {
    pub fingerprint: Seq<char>,
    pub signer: Seq<char>,
    pub stage: StageView,
}

impl View for ImportSession {
    type V = SessionView;

    closed spec fn view(&self) -> SessionView {
        SessionView { fingerprint: self.fingerprint@, signer: self.signer@, stage: self.stage@ }
    }
}

/// Whether a key with this fingerprint goes by the given key id: the id is the
/// short fingerprint. A fingerprint too short to have one matches nothing.
pub open spec fn key_id_matches(fingerprint: Seq<char>, key_id: Seq<char>) -> bool {
    fingerprint.len() >= 16 && short_fingerprint_of(fingerprint) == key_id
}

/// The identity of the first known key that goes by the key id.
pub open spec fn first_signer(local: Seq<KeyView>, key_id: Seq<char>) -> Option<Seq<char>>
    decreases local.len(),
{
    if local.len() == 0 {
        None
    } else if key_id_matches(local[0].fingerprint, key_id) {
        Some(local[0].identity)
    } else {
        first_signer(local.skip(1), key_id)
    }
}

/// The known identity that a signature vouches with: the signature must be
/// valid, unexpired and no revocation, and made by a known key.
pub open spec fn good_signer(signature: SignatureView, local: Seq<KeyView>) -> Option<Seq<char>> {
    if signature.invalid || signature.expired || signature.revocation {
        None
    } else {
        match signature.signer_key_id {
            Some(key_id) => first_signer(local, key_id),
            None => None,
        }
    }
}

/// The identities that vouch through the given signatures, in their order.
pub open spec fn good_signers(signatures: Seq<SignatureView>, local: Seq<KeyView>) -> Seq<
    Seq<char>,
>
    decreases signatures.len(),
{
    if signatures.len() == 0 {
        Seq::empty()
    } else {
        let earlier = good_signers(signatures.drop_last(), local);
        match good_signer(signatures.last(), local) {
            Some(identity) => earlier.push(identity),
            None => earlier,
        }
    }
}

/// The identities that vouch for a key: those of the good signatures on each
/// of its user ids, in the order of the user ids.
pub open spec fn good_signatures(user_ids: Seq<UserIdView>, local: Seq<KeyView>) -> Seq<
    Seq<char>,
>
    decreases user_ids.len(),
{
    if user_ids.len() == 0 {
        Seq::empty()
    } else {
        good_signatures(user_ids.drop_last(), local) + good_signers(
            user_ids.last().signatures,
            local,
        )
    }
}

/// Whether an import report speaks of a key other than the one asked for.
pub open spec fn report_is_fraudulent(report: Seq<ImportEntryView>, fingerprint: Seq<char>) -> bool {
    exists|i: int| 0 <= i < report.len() && #[trigger] report[i].fingerprint != fingerprint
}

/// Whether an import report says that a key came in that was not known before.
pub open spec fn report_has_new(report: Seq<ImportEntryView>) -> bool {
    exists|i: int| 0 <= i < report.len() && #[trigger] report[i].is_new
}

/// The protocol ends with the given outcome.
pub open spec fn finish(session: SessionView, outcome: OutcomeView) -> (SessionView, ActionView) {
    (SessionView { stage: StageView::Finished, ..session }, ActionView::Finish(outcome))
}

/// The protocol goes on to the given stage with the given action.
pub open spec fn proceed(session: SessionView, stage: StageView, action: ActionView) -> (
    SessionView,
    ActionView,
) {
    (SessionView { stage, ..session }, action)
}

/// What is to be done with a key that was fetched after its import.
pub open spec fn fetched_step(
    session: SessionView,
    is_new: bool,
    record: KeyRecordView,
    local: Seq<KeyView>,
) -> (SessionView, ActionView) {
    match parsed_key(record) {
        Err(_) => finish(session, OutcomeView::Failed(ImportError::EngineRejected)),
        Ok(key) => {
            if key.fingerprint != session.fingerprint {
                finish(session, OutcomeView::Failed(ImportError::FraudDetected))
            } else if !is_new {
                finish(session, OutcomeView::Known(key))
            } else {
                let signers = good_signatures(record.user_ids, local);
                if signers.len() == 0 {
                    proceed(
                        session,
                        StageView::AskingUnverified { key },
                        ActionView::AskUnverified { identity: key.identity },
                    )
                } else {
                    proceed(
                        session,
                        StageView::AskingVerified { key },
                        ActionView::AskVerified { identity: key.identity, signers },
                    )
                }
            }
        },
    }
}

/// The signing of an approved key.
pub open spec fn sign_step(session: SessionView, key: KeyView) -> (SessionView, ActionView) {
    proceed(
        session,
        StageView::Signing { key },
        ActionView::Sign {
            fingerprint: key.fingerprint,
            identity: key.identity,
            signer: session.signer,
        },
    )
}

/// One step of the protocol: the stage and action that follow on an event.
///
/// An event that the stage does not expect ends the protocol without a key,
/// and so does every event after the end.
pub open spec fn import_step(session: SessionView, event: EventView, local: Seq<KeyView>) -> (
    SessionView,
    ActionView,
) {
    let unexpected = finish(session, OutcomeView::Failed(ImportError::EngineRejected));
    match session.stage {
        StageView::ReadingFile => match event {
            EventView::FileMissing => finish(
                session,
                OutcomeView::Failed(ImportError::FileMissing),
            ),
            EventView::FileRead(contents) => proceed(
                session,
                StageView::Importing,
                ActionView::Import { contents },
            ),
            _ => unexpected,
        },
        StageView::Importing => match event {
            EventView::ImportRejected => unexpected,
            EventView::Imported(report) => {
                if report_is_fraudulent(report, session.fingerprint) {
                    finish(session, OutcomeView::Failed(ImportError::FraudDetected))
                } else {
                    proceed(
                        session,
                        StageView::Fetching { is_new: report_has_new(report) },
                        ActionView::FetchKey { fingerprint: session.fingerprint },
                    )
                }
            },
            _ => unexpected,
        },
        StageView::Fetching { is_new } => match event {
            EventView::KeyMissing => finish(
                session,
                OutcomeView::Failed(ImportError::FraudDetected),
            ),
            EventView::KeyFetched(record) => fetched_step(session, is_new, record, local),
            _ => unexpected,
        },
        StageView::AskingUnverified { key } => match event {
            EventView::Answered(choice) => {
                if choice == 0 {
                    proceed(
                        session,
                        StageView::AskingFingerprint { key },
                        ActionView::AskFingerprint {
                            pretty_fingerprint: pretty_fingerprint_of(key.fingerprint),
                        },
                    )
                } else {
                    finish(session, OutcomeView::Declined)
                }
            },
            _ => unexpected,
        },
        StageView::AskingFingerprint { key } => match event {
            EventView::Answered(choice) => {
                if choice == 0 {
                    sign_step(session, key)
                } else {
                    finish(session, OutcomeView::Declined)
                }
            },
            _ => unexpected,
        },
        StageView::AskingVerified { key } => match event {
            EventView::Answered(choice) => {
                if choice == 0 {
                    sign_step(session, key)
                } else {
                    finish(session, OutcomeView::Declined)
                }
            },
            _ => unexpected,
        },
        StageView::Signing { key } => match event {
            EventView::Signed => finish(session, OutcomeView::Signed(key)),
            EventView::SignFailed => finish(session, OutcomeView::SigningFailed),
            _ => unexpected,
        },
        StageView::Finished => unexpected,
    }
}

/// The session and first action of the protocol for one fingerprint.
pub open spec fn import_start(fingerprint: Seq<char>, signer: Seq<char>) -> (
    SessionView,
    ActionView,
) {
    (
        SessionView { fingerprint, signer, stage: StageView::ReadingFile },
        ActionView::ReadKeyFile { file_name: key_file_name_of(fingerprint) },
    )
}

/// Whether an import report speaks of a key other than the one asked for.
pub fn is_fraudulent(report: &Vec<ImportEntry>, fingerprint: &str) -> (fraud: bool)
    ensures
        fraud == report_is_fraudulent(report.deep_view(), fingerprint@),
{
    let mut i: usize = 0;
    while i < report.len()
        invariant
            i <= report.len(),
            forall|j: int| 0 <= j < i ==> (#[trigger] report.deep_view()[j]).fingerprint == fingerprint@,
        decreases report.len() - i,
    {
        if !str_eq(report[i].fingerprint.as_str(), fingerprint) {
            assert(report.deep_view()[i as int].fingerprint != fingerprint@);
            return true;
        }
        i += 1;
    }
    false
}

/// Whether an import report says that a key came in that was not known before.
pub fn has_new_key(report: &Vec<ImportEntry>) -> (new: bool)
    ensures
        new == report_has_new(report.deep_view()),
{
    let mut i: usize = 0;
    while i < report.len()
        invariant
            i <= report.len(),
            forall|j: int| 0 <= j < i ==> !(#[trigger] report.deep_view()[j]).is_new,
        decreases report.len() - i,
    {
        if report[i].is_new {
            assert(report.deep_view()[i as int].is_new);
            return true;
        }
        i += 1;
    }
    false
}

/// The identity of the first known key that goes by the key id.
pub fn find_signer(local_keys: &Vec<Key>, key_id: &str) -> (signer: Option<String>)
    ensures
        signer.deep_view() == first_signer(local_keys.deep_view(), key_id@),
{
    let ghost local = local_keys.deep_view();
    let mut i: usize = 0;
    proof {
        assert(local.skip(0) =~= local);
    }
    while i < local_keys.len()
        invariant
            i <= local_keys.len(),
            local == local_keys.deep_view(),
            first_signer(local, key_id@) == first_signer(local.skip(i as int), key_id@),
        decreases local_keys.len() - i,
    {
        proof {
            assert(local.skip(i as int).skip(1) =~= local.skip(i + 1));
            assert(local.skip(i as int)[0] == local_keys[i as int]@);
        }
        let matches = match local_keys[i].short_fingerprint() {
            Some(short) => str_eq(short, key_id),
            None => false,
        };
        if matches {
            return Some(local_keys[i].get_identity().to_owned());
        }
        i += 1;
    }
    None
}

/// The identities that vouch for the key of a keyring record, given the keys
/// that are known and trusted already.
pub fn collect_good_signatures(record: &KeyRecord, local_keys: &Vec<Key>) -> (signers: Vec<String>)
    ensures
        signers.deep_view() == good_signatures(record@.user_ids, local_keys.deep_view()),
{
    let ghost local = local_keys.deep_view();
    let ghost user_ids = record@.user_ids;
    let mut signers: Vec<String> = Vec::new();
    let mut u: usize = 0;
    proof {
        assert(signers.deep_view() =~= Seq::<Seq<char>>::empty());
    }
    while u < record.user_ids.len()
        invariant
            u <= record.user_ids.len(),
            local == local_keys.deep_view(),
            user_ids == record@.user_ids,
            signers.deep_view() == good_signatures(user_ids.take(u as int), local),
        decreases record.user_ids.len() - u,
    {
        let signatures = &record.user_ids[u].signatures;
        let ghost before = signers.deep_view();
        let ghost sigs = signatures.deep_view();
        let mut k: usize = 0;
        proof {
            assert(user_ids.take(u + 1).drop_last() =~= user_ids.take(u as int));
            assert(user_ids.take(u + 1).last().signatures == sigs);
            assert(signers.deep_view() =~= before + good_signers(sigs.take(0), local));
        }
        while k < signatures.len()
            invariant
                k <= signatures.len(),
                local == local_keys.deep_view(),
                sigs == signatures.deep_view(),
                signers.deep_view() == before + good_signers(sigs.take(k as int), local),
            decreases signatures.len() - k,
        {
            let signature = &signatures[k];
            let ghost so_far = signers.deep_view();
            proof {
                assert(sigs.take(k + 1).drop_last() =~= sigs.take(k as int));
                assert(sigs.take(k + 1).last() == signature@);
            }
            if !signature.invalid && !signature.expired && !signature.revocation {
                match &signature.signer_key_id {
                    Some(key_id) => {
                        match find_signer(local_keys, key_id.as_str()) {
                            Some(identity) => {
                                signers.push(identity);
                                proof {
                                    assert(signers.deep_view() =~= so_far.push(identity@));
                                }
                            },
                            None => {},
                        }
                    },
                    None => {},
                }
            }
            proof {
                assert(signers.deep_view() =~= before + good_signers(sigs.take(k + 1), local));
            }
            k += 1;
        }
        proof {
            assert(sigs.take(k as int) =~= sigs);
        }
        u += 1;
    }
    proof {
        assert(user_ids.take(u as int) =~= user_ids);
    }
    signers
}

impl ImportSession {
    /// Begins the protocol for the key published under `fingerprint`. On
    /// approval the key will be signed by `signer`.
    pub fn start(fingerprint: String, signer: String) -> (begun: (ImportSession, ImportAction))
        ensures
            (begun.0@, begun.1@) == import_start(fingerprint@, signer@),
    {
        let file_name = fingerprint.clone().concat(".asc");
        (
            ImportSession { fingerprint, signer, stage: ImportStage::ReadingFile },
            ImportAction::ReadKeyFile { file_name },
        )
    }

    /// The fingerprint that the session was begun for.
    pub fn fingerprint(&self) -> (fingerprint: &str)
        ensures
            fingerprint@ == self@.fingerprint,
    {
        self.fingerprint.as_str()
    }

    /// Whether the protocol is over.
    pub fn is_finished(&self) -> (finished: bool)
        ensures
            finished == (self@.stage is Finished),
    {
        match self.stage {
            ImportStage::Finished => true,
            _ => false,
        }
    }
}

/// Ends a session with the given outcome.
fn finished(fingerprint: String, signer: String, outcome: ImportOutcome) -> (next: (
    ImportSession,
    ImportAction,
))
    ensures
        (next.0@, next.1@) == finish(
            SessionView { fingerprint: fingerprint@, signer: signer@, stage: StageView::Finished },
            outcome@,
        ),
{
    (
        ImportSession { fingerprint, signer, stage: ImportStage::Finished },
        ImportAction::Finish(outcome),
    )
}

/// Asks for the signature on an approved key.
fn signing(fingerprint: String, signer: String, key: Key) -> (next: (ImportSession, ImportAction))
    ensures
        (next.0@, next.1@) == sign_step(
            SessionView { fingerprint: fingerprint@, signer: signer@, stage: StageView::Finished },
            key@,
        ),
{
    let action = ImportAction::Sign {
        fingerprint: key.get_fingerprint().to_owned(),
        identity: key.get_identity().to_owned(),
        signer: signer.clone(),
    };
    (ImportSession { fingerprint, signer, stage: ImportStage::Signing { key } }, action)
}

/// Decides what to do with a key that was fetched after its import.
fn fetched(
    fingerprint: String,
    signer: String,
    is_new: bool,
    record: KeyRecord,
    local_keys: &Vec<Key>,
) -> (next: (ImportSession, ImportAction))
    ensures
        (next.0@, next.1@) == fetched_step(
            SessionView { fingerprint: fingerprint@, signer: signer@, stage: StageView::Finished },
            is_new,
            record@,
            local_keys.deep_view(),
        ),
{
    match Key::parse_key(&record) {
        Err(_) => finished(fingerprint, signer, ImportOutcome::Failed(ImportError::EngineRejected)),
        Ok(key) => {
            if !key.has_fingerprint(fingerprint.as_str()) {
                finished(fingerprint, signer, ImportOutcome::Failed(ImportError::FraudDetected))
            } else if !is_new {
                finished(fingerprint, signer, ImportOutcome::Known(key))
            } else {
                let signers = collect_good_signatures(&record, local_keys);
                let identity = key.get_identity().to_owned();
                if signers.len() == 0 {
                    (
                        ImportSession {
                            fingerprint,
                            signer,
                            stage: ImportStage::AskingUnverified { key },
                        },
                        ImportAction::AskUnverified { identity },
                    )
                } else {
                    (
                        ImportSession {
                            fingerprint,
                            signer,
                            stage: ImportStage::AskingVerified { key },
                        },
                        ImportAction::AskVerified { identity, signers },
                    )
                }
            }
        },
    }
}

/// One step of the import protocol: takes what the caller reports and says
/// what is to be done next. `local_keys` are the keys that are trusted
/// already; only their signatures vouch for a new key.
pub fn import_key(session: ImportSession, event: ImportEvent, local_keys: &Vec<Key>) -> (next: (
    ImportSession,
    ImportAction,
))
    ensures
        (next.0@, next.1@) == import_step(session@, event@, local_keys.deep_view()),
{
    let ImportSession { fingerprint, signer, stage } = session;
    match stage {
        ImportStage::ReadingFile => match event {
            ImportEvent::FileMissing => finished(
                fingerprint,
                signer,
                ImportOutcome::Failed(ImportError::FileMissing),
            ),
            ImportEvent::FileRead(contents) => (
                ImportSession { fingerprint, signer, stage: ImportStage::Importing },
                ImportAction::Import { contents },
            ),
            _ => finished(fingerprint, signer, ImportOutcome::Failed(ImportError::EngineRejected)),
        },
        ImportStage::Importing => match event {
            ImportEvent::Imported(report) => {
                if is_fraudulent(&report, fingerprint.as_str()) {
                    finished(
                        fingerprint,
                        signer,
                        ImportOutcome::Failed(ImportError::FraudDetected),
                    )
                } else {
                    let is_new = has_new_key(&report);
                    let wanted = fingerprint.clone();
                    (
                        ImportSession {
                            fingerprint,
                            signer,
                            stage: ImportStage::Fetching { is_new },
                        },
                        ImportAction::FetchKey { fingerprint: wanted },
                    )
                }
            },
            _ => finished(fingerprint, signer, ImportOutcome::Failed(ImportError::EngineRejected)),
        },
        ImportStage::Fetching { is_new } => match event {
            ImportEvent::KeyMissing => finished(
                fingerprint,
                signer,
                ImportOutcome::Failed(ImportError::FraudDetected),
            ),
            ImportEvent::KeyFetched(record) => fetched(
                fingerprint,
                signer,
                is_new,
                record,
                local_keys,
            ),
            _ => finished(fingerprint, signer, ImportOutcome::Failed(ImportError::EngineRejected)),
        },
        ImportStage::AskingUnverified { key } => match event {
            ImportEvent::Answered(choice) => {
                if choice == 0 {
                    let pretty_fingerprint = key.get_pretty_fingerprint();
                    (
                        ImportSession {
                            fingerprint,
                            signer,
                            stage: ImportStage::AskingFingerprint { key },
                        },
                        ImportAction::AskFingerprint { pretty_fingerprint },
                    )
                } else {
                    finished(fingerprint, signer, ImportOutcome::Declined)
                }
            },
            _ => finished(fingerprint, signer, ImportOutcome::Failed(ImportError::EngineRejected)),
        },
        ImportStage::AskingFingerprint { key } => match event {
            ImportEvent::Answered(choice) => {
                if choice == 0 {
                    signing(fingerprint, signer, key)
                } else {
                    finished(fingerprint, signer, ImportOutcome::Declined)
                }
            },
            _ => finished(fingerprint, signer, ImportOutcome::Failed(ImportError::EngineRejected)),
        },
        ImportStage::AskingVerified { key } => match event {
            ImportEvent::Answered(choice) => {
                if choice == 0 {
                    signing(fingerprint, signer, key)
                } else {
                    finished(fingerprint, signer, ImportOutcome::Declined)
                }
            },
            _ => finished(fingerprint, signer, ImportOutcome::Failed(ImportError::EngineRejected)),
        },
        ImportStage::Signing { key } => match event {
            ImportEvent::Signed => finished(fingerprint, signer, ImportOutcome::Signed(key)),
            ImportEvent::SignFailed => finished(fingerprint, signer, ImportOutcome::SigningFailed),
            _ => finished(fingerprint, signer, ImportOutcome::Failed(ImportError::EngineRejected)),
        },
        ImportStage::Finished => finished(
            fingerprint,
            signer,
            ImportOutcome::Failed(ImportError::EngineRejected),
        ),
    }
}

/// The actions that the protocol takes, one after each event, when it is fed
/// the given events from the given session on.
pub open spec fn actions_of_run(
    session: SessionView,
    events: Seq<EventView>,
    local: Seq<KeyView>,
) -> Seq<ActionView>
    decreases events.len(),
{
    if events.len() == 0 {
        Seq::empty()
    } else {
        let next = import_step(session, events[0], local);
        seq![next.1] + actions_of_run(next.0, events.skip(1), local)
    }
}

/// Whether an action treats the key as trusted: it asks for the key to be
/// signed, or ends the protocol by handing the key out.
pub open spec fn grants_trust(action: ActionView) -> bool {
    match action {
        ActionView::Sign { .. } => true,
        ActionView::Finish(outcome) => outcome_key(outcome) is Some,
        _ => false,
    }
}

/// Once the protocol is over, whatever is reported to it, it hands out no key
/// and asks for no signature.
pub proof fn lemma_finished_grants_nothing(
    session: SessionView,
    events: Seq<EventView>,
    local: Seq<KeyView>,
)
    requires
        session.stage is Finished,
    ensures
        forall|i: int|
            0 <= i < actions_of_run(session, events, local).len() ==> !grants_trust(
                #[trigger] actions_of_run(session, events, local)[i],
            ),
    decreases events.len(),
{
    if events.len() > 0 {
        let next = import_step(session, events[0], local);
        let rest = actions_of_run(next.0, events.skip(1), local);
        lemma_finished_grants_nothing(next.0, events.skip(1), local);
        assert forall|i: int| 0 <= i < actions_of_run(session, events, local).len() implies !grants_trust(
            #[trigger] actions_of_run(session, events, local)[i],
        ) by {
            if i > 0 {
                assert(actions_of_run(session, events, local)[i] == rest[i - 1]);
            }
        }
    }
}

/// A key whose import reports another fingerprint than the one asked for is
/// rejected as fraud at once, and nothing that is reported afterwards, no
/// answer of the operator among it, has it signed or handed out.
pub proof fn lemma_fraud_is_never_trusted(
    session: SessionView,
    report: Seq<ImportEntryView>,
    later: Seq<EventView>,
    local: Seq<KeyView>,
)
    requires
        session.stage is Importing,
        report_is_fraudulent(report, session.fingerprint),
    ensures
        import_step(session, EventView::Imported(report), local).1 == ActionView::Finish(
            OutcomeView::Failed(ImportError::FraudDetected),
        ),
        forall|i: int|
            0 <= i < actions_of_run(
                session,
                seq![EventView::Imported(report)] + later,
                local,
            ).len() ==> !grants_trust(
                #[trigger] actions_of_run(
                    session,
                    seq![EventView::Imported(report)] + later,
                    local,
                )[i],
            ),
{
    let events = seq![EventView::Imported(report)] + later;
    let next = import_step(session, events[0], local);
    let rest = actions_of_run(next.0, later, local);
    assert(events.skip(1) =~= later);
    lemma_finished_grants_nothing(next.0, later, local);
    assert forall|i: int| 0 <= i < actions_of_run(session, events, local).len() implies !grants_trust(
        #[trigger] actions_of_run(session, events, local)[i],
    ) by {
        if i > 0 {
            assert(actions_of_run(session, events, local)[i] == rest[i - 1]);
        }
    }
}

/// A key that the keyring holds under the fingerprint asked for, but which
/// bears another fingerprint, is rejected as fraud in the same way.
pub proof fn lemma_wrong_key_is_never_trusted(
    session: SessionView,
    record: KeyRecordView,
    later: Seq<EventView>,
    local: Seq<KeyView>,
)
    requires
        session.stage is Fetching,
        parsed_key(record) is Ok,
        parsed_key(record)->Ok_0.fingerprint != session.fingerprint,
    ensures
        import_step(session, EventView::KeyFetched(record), local).1 == ActionView::Finish(
            OutcomeView::Failed(ImportError::FraudDetected),
        ),
        forall|i: int|
            0 <= i < actions_of_run(
                session,
                seq![EventView::KeyFetched(record)] + later,
                local,
            ).len() ==> !grants_trust(
                #[trigger] actions_of_run(
                    session,
                    seq![EventView::KeyFetched(record)] + later,
                    local,
                )[i],
            ),
{
    let events = seq![EventView::KeyFetched(record)] + later;
    let next = import_step(session, events[0], local);
    let rest = actions_of_run(next.0, later, local);
    assert(events.skip(1) =~= later);
    lemma_finished_grants_nothing(next.0, later, local);
    assert forall|i: int| 0 <= i < actions_of_run(session, events, local).len() implies !grants_trust(
        #[trigger] actions_of_run(session, events, local)[i],
    ) by {
        if i > 0 {
            assert(actions_of_run(session, events, local)[i] == rest[i - 1]);
        }
    }
}

/// The events of an operator who is asked about a key that nobody vouches
/// for and gives the two answers `first` and `second`; the second question is
/// put only after a yes to the first.
pub open spec fn unverified_answers(record: KeyRecordView, first: usize, second: usize) -> Seq<
    EventView,
> {
    if first == 0 {
        seq![EventView::KeyFetched(record), EventView::Answered(first), EventView::Answered(second)]
    } else {
        seq![EventView::KeyFetched(record), EventView::Answered(first)]
    }
}

/// A new key that no known key has signed, and whose operator says no to the
/// first or to the second question, ends declined: the protocol hands out no
/// key and never asks the keyring for a signature, so the key stays in the
/// keyring as it was imported.
pub proof fn lemma_declined_key_stays_unsigned(
    session: SessionView,
    record: KeyRecordView,
    first: usize,
    second: usize,
    local: Seq<KeyView>,
)
    requires
        session.stage == (StageView::Fetching { is_new: true }),
        parsed_key(record) is Ok,
        parsed_key(record)->Ok_0.fingerprint == session.fingerprint,
        good_signatures(record.user_ids, local).len() == 0,
        first != 0 || second != 0,
    ensures
        actions_of_run(session, unverified_answers(record, first, second), local).last()
            == ActionView::Finish(OutcomeView::Declined),
        forall|i: int|
            0 <= i < actions_of_run(
                session,
                unverified_answers(record, first, second),
                local,
            ).len() ==> !grants_trust(
                #[trigger] actions_of_run(
                    session,
                    unverified_answers(record, first, second),
                    local,
                )[i],
            ),
{
    let events = unverified_answers(record, first, second);
    let s1 = import_step(session, events[0], local);
    let e1 = events.skip(1);
    let s2 = import_step(s1.0, e1[0], local);
    let e2 = e1.skip(1);
    assert(actions_of_run(session, events, local) == seq![s1.1] + actions_of_run(s1.0, e1, local));
    assert(actions_of_run(s1.0, e1, local) == seq![s2.1] + actions_of_run(s2.0, e2, local));
    if first == 0 {
        let s3 = import_step(s2.0, e2[0], local);
        let e3 = e2.skip(1);
        assert(e3.len() == 0);
        assert(actions_of_run(s2.0, e2, local) == seq![s3.1] + actions_of_run(s3.0, e3, local));
        assert(actions_of_run(session, events, local) =~= seq![s1.1, s2.1, s3.1]);
    } else {
        assert(e2.len() == 0);
        assert(actions_of_run(session, events, local) =~= seq![s1.1, s2.1]);
    }
}

/// A new key that at least one known key has signed, and whose operator says
/// yes to the one question, is signed by the session's signer and handed out:
/// the protocol shows who vouches, has the key signed, and ends with the key.
pub proof fn lemma_vouched_key_is_signed(
    session: SessionView,
    record: KeyRecordView,
    local: Seq<KeyView>,
)
    requires
        session.stage == (StageView::Fetching { is_new: true }),
        parsed_key(record) is Ok,
        parsed_key(record)->Ok_0.fingerprint == session.fingerprint,
        good_signatures(record.user_ids, local).len() > 0,
    ensures
        actions_of_run(
            session,
            seq![EventView::KeyFetched(record), EventView::Answered(0), EventView::Signed],
            local,
        ) == seq![
            ActionView::AskVerified {
                identity: parsed_key(record)->Ok_0.identity,
                signers: good_signatures(record.user_ids, local),
            },
            ActionView::Sign {
                fingerprint: session.fingerprint,
                identity: parsed_key(record)->Ok_0.identity,
                signer: session.signer,
            },
            ActionView::Finish(OutcomeView::Signed(parsed_key(record)->Ok_0)),
        ],
{
    let events = seq![EventView::KeyFetched(record), EventView::Answered(0), EventView::Signed];
    let s1 = import_step(session, events[0], local);
    let e1 = events.skip(1);
    let s2 = import_step(s1.0, e1[0], local);
    let e2 = e1.skip(1);
    let s3 = import_step(s2.0, e2[0], local);
    let e3 = e2.skip(1);
    assert(e3.len() == 0);
    assert(actions_of_run(session, events, local) == seq![s1.1] + actions_of_run(s1.0, e1, local));
    assert(actions_of_run(s1.0, e1, local) == seq![s2.1] + actions_of_run(s2.0, e2, local));
    assert(actions_of_run(s2.0, e2, local) == seq![s3.1] + actions_of_run(s3.0, e3, local));
    assert(actions_of_run(session, events, local) =~= seq![s1.1, s2.1, s3.1]);
}

} // verus!
