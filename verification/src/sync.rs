//! Reconciling the keyring with the key directory of the store.
//!
//! A run has three phases. Keys that are published but not held are imported,
//! and each one that comes in is published again at once, with the signature
//! it has gained. Then every published key is refreshed from the keyring.
//! Last, every held key that a recipient file names and that is not
//! published yet is published. The keyring and the files are the caller's:
//! the run names the next thing to do, and the caller reports back.

use vstd::prelude::*;
use crate::key::gpg_id::RecipientSet;
use crate::key::Key;
use crate::key::KeyView;

verus! {

/// Whether one of the keys has the fingerprint.
pub open spec fn holds_key(keys: Seq<KeyView>, fingerprint: Seq<char>) -> bool {
    exists|i: int| 0 <= i < keys.len() && (#[trigger] keys[i]).fingerprint == fingerprint
}

/// The published fingerprints that no held key has, in their order.
pub open spec fn keys_to_import(published: Seq<Seq<char>>, held: Seq<KeyView>) -> Seq<Seq<char>>
    decreases published.len(),
{
    if published.len() == 0 {
        Seq::empty()
    } else if holds_key(held, published.last()) {
        keys_to_import(published.drop_last(), held)
    } else {
        keys_to_import(published.drop_last(), held).push(published.last())
    }
}

/// Whether a key is to be published: a recipient file names its identity and
/// no file is published for it yet.
pub open spec fn is_unpublished(key: KeyView, gpgs: Set<Seq<char>>, published: Seq<Seq<char>>)
    -> bool {
    gpgs.contains(key.identity) && !published.contains(key.fingerprint)
}

/// The fingerprints of the held keys that are to be published, in the order
/// of the keys.
pub open spec fn keys_to_publish(
    held: Seq<KeyView>,
    gpgs: Set<Seq<char>>,
    published: Seq<Seq<char>>,
) -> Seq<Seq<char>>
    decreases held.len(),
{
    if held.len() == 0 {
        Seq::empty()
    } else if is_unpublished(held.last(), gpgs, published) {
        keys_to_publish(held.drop_last(), gpgs, published).push(held.last().fingerprint)
    } else {
        keys_to_publish(held.drop_last(), gpgs, published)
    }
}

/// Whether a fingerprint is among those given.
fn is_listed(fingerprints: &Vec<String>, key: &Key) -> (listed: bool)
    ensures
        listed == fingerprints.deep_view().contains(key@.fingerprint),
{
    let mut i: usize = 0;
    while i < fingerprints.len()
        invariant
            i <= fingerprints.len(),
            forall|j: int| 0 <= j < i ==> fingerprints.deep_view()[j] != key@.fingerprint,
        decreases fingerprints.len() - i,
    {
        if key.has_fingerprint(fingerprints[i].as_str()) {
            proof {
                assert(fingerprints.deep_view()[i as int] == key@.fingerprint);
            }
            return true;
        }
        i += 1;
    }
    false
}

/// Whether one of the keys has the fingerprint.
fn is_held(keys: &Vec<Key>, fingerprint: &str) -> (held: bool)
    ensures
        held == holds_key(keys.deep_view(), fingerprint@),
{
    let mut i: usize = 0;
    while i < keys.len()
        invariant
            i <= keys.len(),
            forall|j: int| 0 <= j < i ==> (#[trigger] keys.deep_view()[j]).fingerprint != fingerprint@,
        decreases keys.len() - i,
    {
        if keys[i].has_fingerprint(fingerprint) {
            proof {
                assert(keys.deep_view()[i as int].fingerprint == fingerprint@);
            }
            return true;
        }
        i += 1;
    }
    false
}

/// The keys of the key directory that are to be imported: those that the
/// keyring does not hold.
pub fn check_keys_to_import(keys_in_folder: &Vec<String>, keys: &Vec<Key>) -> (missing: Vec<
    String,
>)
    ensures
        missing.deep_view() == keys_to_import(keys_in_folder.deep_view(), keys.deep_view()),
{
    let ghost published = keys_in_folder.deep_view();
    let mut missing: Vec<String> = Vec::new();
    let mut i: usize = 0;
    proof {
        assert(missing.deep_view() =~= keys_to_import(published.take(0), keys.deep_view()));
    }
    while i < keys_in_folder.len()
        invariant
            i <= keys_in_folder.len(),
            published == keys_in_folder.deep_view(),
            missing.deep_view() == keys_to_import(published.take(i as int), keys.deep_view()),
        decreases keys_in_folder.len() - i,
    {
        proof {
            assert(published.take(i + 1).drop_last() =~= published.take(i as int));
            assert(published.take(i + 1).last() == keys_in_folder[i as int]@);
        }
        if !is_held(keys, keys_in_folder[i].as_str()) {
            let ghost before = missing.deep_view();
            let fingerprint = keys_in_folder[i].clone();
            missing.push(fingerprint);
            proof {
                assert(missing.deep_view() =~= before.push(fingerprint@));
            }
        }
        i += 1;
    }
    proof {
        assert(published.take(i as int) =~= published);
    }
    missing
}

/// The keys that are to be published: those held keys whose identity a
/// recipient file names and for which no file is published yet.
pub fn write_missing_keys(gpgs: &RecipientSet, keys: &Vec<Key>, written_keys: &Vec<String>) -> (unpublished:
    Vec<String>)
    ensures
        unpublished.deep_view() == keys_to_publish(
            keys.deep_view(),
            gpgs@,
            written_keys.deep_view(),
        ),
{
    let ghost held = keys.deep_view();
    let mut unpublished: Vec<String> = Vec::new();
    let mut i: usize = 0;
    proof {
        assert(unpublished.deep_view() =~= keys_to_publish(
            held.take(0),
            gpgs@,
            written_keys.deep_view(),
        ));
    }
    while i < keys.len()
        invariant
            i <= keys.len(),
            held == keys.deep_view(),
            unpublished.deep_view() == keys_to_publish(
                held.take(i as int),
                gpgs@,
                written_keys.deep_view(),
            ),
        decreases keys.len() - i,
    {
        let key = &keys[i];
        proof {
            assert(held.take(i + 1).drop_last() =~= held.take(i as int));
            assert(held.take(i + 1).last() == key@);
        }
        if gpgs.contains(key.get_identity()) && !is_listed(written_keys, key) {
            let ghost before = unpublished.deep_view();
            let fingerprint = key.get_fingerprint().to_owned();
            unpublished.push(fingerprint);
            proof {
                assert(unpublished.deep_view() =~= before.push(fingerprint@));
            }
        }
        i += 1;
    }
    proof {
        assert(held.take(i as int) =~= held);
    }
    unpublished
}

/// Every key that is to be published is held: a key has to be in the keyring
/// before it can be exported.
pub proof fn lemma_published_keys_are_held(
    held: Seq<KeyView>,
    gpgs: Set<Seq<char>>,
    published: Seq<Seq<char>>,
)
    ensures
        forall|i: int|
            0 <= i < keys_to_publish(held, gpgs, published).len() ==> holds_key(
                held,
                #[trigger] keys_to_publish(held, gpgs, published)[i],
            ),
    decreases held.len(),
{
    if held.len() > 0 {
        let front = held.drop_last();
        lemma_published_keys_are_held(front, gpgs, published);
        assert forall|i: int|
            0 <= i < keys_to_publish(held, gpgs, published).len() implies holds_key(
            held,
            #[trigger] keys_to_publish(held, gpgs, published)[i],
        ) by {
            let fingerprint = keys_to_publish(held, gpgs, published)[i];
            if i < keys_to_publish(front, gpgs, published).len() {
                assert(holds_key(front, fingerprint));
                let k = choose|k: int|
                    0 <= k < front.len() && (#[trigger] front[k]).fingerprint == fingerprint;
                assert(held[k].fingerprint == fingerprint);
            } else {
                assert(held[held.len() - 1].fingerprint == fingerprint);
            }
        }
    }
}

/// What was last asked of the caller in a run.
#[derive(Clone, Copy, Debug, PartialEq, Eq)]
pub enum SyncPhase {
    /// The import of the missing key with this index.
    Importing { at: usize },
    /// The export of the key that came in with the import of this index.
    Reexporting { at: usize },
    /// The refresh of the published key with this index.
    Refreshing { at: usize },
    /// The export of the unpublished key with this index.
    Publishing { at: usize },
    /// Nothing: the run is over.
    Finished,
}

/// What a run asks the caller to do next.
pub enum SyncAction {
    /// Import the published key with this fingerprint and decide on its
    /// trust.
    Import { fingerprint: String },
    /// Fetch the key with this fingerprint from the keyring and publish it
    /// anew; skip it if the keyring lacks it.
    Refresh { fingerprint: String },
    /// Publish the key with this fingerprint.
    Export { fingerprint: String },
    /// The run is over.
    Finished,
}

/// The mathematical content of a [`SyncAction`].
pub ghost enum SyncActionView {
    Import { fingerprint: Seq<char> },
    Refresh { fingerprint: Seq<char> },
    Export { fingerprint: Seq<char> },
    Finished,
}

impl View for SyncAction {
    type V = SyncActionView;

    open spec fn view(&self) -> SyncActionView {
        match self {
            SyncAction::Import { fingerprint } => SyncActionView::Import {
                fingerprint: fingerprint@,
            },
            SyncAction::Refresh { fingerprint } => SyncActionView::Refresh {
                fingerprint: fingerprint@,
            },
            SyncAction::Export { fingerprint } => SyncActionView::Export {
                fingerprint: fingerprint@,
            },
            SyncAction::Finished => SyncActionView::Finished,
        }
    }
}

/// What the caller reports back to a run.
pub enum SyncEvent {
    /// The import gave this key, which is now held and trusted.
    Imported(Key),
    /// What was asked has been done, or has failed: a failure on one key
    /// does not stop the run.
    Done,
}

/// The mathematical content of a [`SyncEvent`].
pub ghost enum SyncEventView {
    Imported(KeyView),
    Done,
}

impl View for SyncEvent {
    type V = SyncEventView;

    open spec fn view(&self) -> SyncEventView {
        match self {
            SyncEvent::Imported(key) => SyncEventView::Imported(key@),
            SyncEvent::Done => SyncEventView::Done,
        }
    }
}

/// One run of the reconciliation.
pub struct Sync {
    published: Vec<String>,
    imports: Vec<String>,
    publishes: Vec<String>,
    keys: Vec<Key>,
    gpgs: RecipientSet,
    phase: SyncPhase,
}

/// The mathematical content of a [`Sync`].
pub ghost struct SyncView {
    /// The fingerprints that have a file in the key directory.
    pub published: Seq<Seq<char>>,
    /// The fingerprints that were to be imported when the run began.
    pub imports: Seq<Seq<char>>,
    /// The fingerprints that are to be published, once the imports are over.
    pub publishes: Seq<Seq<char>>,
    /// The keys that are held.
    pub keys: Seq<KeyView>,
    /// The recipients that are named anywhere in the store.
    pub gpgs: Set<Seq<char>>,
    pub phase: SyncPhase,
}

impl View for Sync {
    type V = SyncView;

    closed spec fn view(&self) -> SyncView {
        SyncView {
            published: self.published.deep_view(),
            imports: self.imports.deep_view(),
            publishes: self.publishes.deep_view(),
            keys: self.keys.deep_view(),
            gpgs: self.gpgs@,
            phase: self.phase,
        }
    }
}

/// Goes on with the publishing of the unpublished key `at`, or ends the run.
pub open spec fn enter_publish(run: SyncView, at: int) -> (SyncView, SyncActionView) {
    if 0 <= at < run.publishes.len() && at <= usize::MAX {
        (
            SyncView { phase: SyncPhase::Publishing { at: at as usize }, ..run },
            SyncActionView::Export { fingerprint: run.publishes[at] },
        )
    } else {
        (SyncView { phase: SyncPhase::Finished, ..run }, SyncActionView::Finished)
    }
}

/// Goes on with the refresh of the published key `at`; after the last one,
/// settles which keys are to be published and goes on with them.
pub open spec fn enter_refresh(run: SyncView, at: int) -> (SyncView, SyncActionView) {
    if 0 <= at < run.published.len() && at <= usize::MAX {
        (
            SyncView { phase: SyncPhase::Refreshing { at: at as usize }, ..run },
            SyncActionView::Refresh { fingerprint: run.published[at] },
        )
    } else {
        enter_publish(
            SyncView { publishes: keys_to_publish(run.keys, run.gpgs, run.published), ..run },
            0,
        )
    }
}

/// Goes on with the import of the missing key `at`, or with the refreshes
/// after the last one.
pub open spec fn enter_import(run: SyncView, at: int) -> (SyncView, SyncActionView) {
    if 0 <= at < run.imports.len() && at <= usize::MAX {
        (
            SyncView { phase: SyncPhase::Importing { at: at as usize }, ..run },
            SyncActionView::Import { fingerprint: run.imports[at] },
        )
    } else {
        enter_refresh(run, 0)
    }
}

/// The beginning of a run: the keys to import are settled, and the first
/// thing to do is named.
pub open spec fn sync_start(published: Seq<Seq<char>>, keys: Seq<KeyView>, gpgs: Set<Seq<char>>)
    -> (SyncView, SyncActionView) {
    enter_import(
        SyncView {
            published,
            imports: keys_to_import(published, keys),
            publishes: Seq::empty(),
            keys,
            gpgs,
            phase: SyncPhase::Finished,
        },
        0,
    )
}

/// One step of a run. A key that an import gave joins the held keys and is
/// exported at once; everything else moves the run on to the next key, the
/// next phase or the end.
pub open spec fn sync_step(run: SyncView, event: SyncEventView) -> (SyncView, SyncActionView) {
    match run.phase {
        SyncPhase::Importing { at } => match event {
            SyncEventView::Imported(key) => (
                SyncView {
                    keys: run.keys.push(key),
                    phase: SyncPhase::Reexporting { at },
                    ..run
                },
                SyncActionView::Export { fingerprint: key.fingerprint },
            ),
            SyncEventView::Done => enter_import(run, at + 1),
        },
        SyncPhase::Reexporting { at } => enter_import(run, at + 1),
        SyncPhase::Refreshing { at } => enter_refresh(run, at + 1),
        SyncPhase::Publishing { at } => enter_publish(run, at + 1),
        SyncPhase::Finished => (run, SyncActionView::Finished),
    }
}

impl Sync {
    fn publish_from(self, at: usize) -> (next: (Sync, SyncAction))
        ensures
            (next.0@, next.1@) == enter_publish(self@, at as int),
    {
        let mut run = self;
        if at < run.publishes.len() {
            let fingerprint = run.publishes[at].clone();
            run.phase = SyncPhase::Publishing { at };
            (run, SyncAction::Export { fingerprint })
        } else {
            run.phase = SyncPhase::Finished;
            (run, SyncAction::Finished)
        }
    }

    fn refresh_from(self, at: usize) -> (next: (Sync, SyncAction))
        ensures
            (next.0@, next.1@) == enter_refresh(self@, at as int),
    {
        let mut run = self;
        if at < run.published.len() {
            let fingerprint = run.published[at].clone();
            run.phase = SyncPhase::Refreshing { at };
            (run, SyncAction::Refresh { fingerprint })
        } else {
            run.publishes = write_missing_keys(&run.gpgs, &run.keys, &run.published);
            run.publish_from(0)
        }
    }

    fn import_from(self, at: usize) -> (next: (Sync, SyncAction))
        ensures
            (next.0@, next.1@) == enter_import(self@, at as int),
    {
        let mut run = self;
        if at < run.imports.len() {
            let fingerprint = run.imports[at].clone();
            run.phase = SyncPhase::Importing { at };
            (run, SyncAction::Import { fingerprint })
        } else {
            run.refresh_from(0)
        }
    }

    /// Begins a run, given the fingerprints that have a file in the key
    /// directory, the keys that are held, and the recipients that are named
    /// anywhere in the store.
    pub fn start(keys_in_folder: Vec<String>, keys: Vec<Key>, gpgs: RecipientSet) -> (begun: (
        Sync,
        SyncAction,
    ))
        ensures
            (begun.0@, begun.1@) == sync_start(keys_in_folder.deep_view(), keys.deep_view(), gpgs@),
    {
        let imports = check_keys_to_import(&keys_in_folder, &keys);
        let publishes: Vec<String> = Vec::new();
        proof {
            assert(publishes.deep_view() =~= Seq::<Seq<char>>::empty());
        }
        let run = Sync {
            published: keys_in_folder,
            imports,
            publishes,
            keys,
            gpgs,
            phase: SyncPhase::Finished,
        };
        run.import_from(0)
    }

    /// The keys that are held, with those that came in during the run.
    pub fn keys(&self) -> (keys: &Vec<Key>)
        ensures
            keys.deep_view() == self@.keys,
    {
        &self.keys
    }

    /// Whether the run is over.
    pub fn is_finished(&self) -> (finished: bool)
        ensures
            finished == (self@.phase is Finished),
    {
        match self.phase {
            SyncPhase::Finished => true,
            _ => false,
        }
    }
}

/// One step of a run: takes what the caller reports and says what is to be
/// done next.
pub fn sync(run: Sync, event: SyncEvent) -> (next: (Sync, SyncAction))
    ensures
        (next.0@, next.1@) == sync_step(run@, event@),
{
    match run.phase {
        SyncPhase::Importing { at } => match event {
            SyncEvent::Imported(key) => {
                let mut run = run;
                let ghost before = run.keys.deep_view();
                let fingerprint = key.get_fingerprint().to_owned();
                run.keys.push(key);
                run.phase = SyncPhase::Reexporting { at };
                proof {
                    assert(run.keys.deep_view() =~= before.push(key@));
                }
                (run, SyncAction::Export { fingerprint })
            },
            SyncEvent::Done => {
                if at < usize::MAX {
                    run.import_from(at + 1)
                } else {
                    run.refresh_from(0)
                }
            },
        },
        SyncPhase::Reexporting { at } => {
            if at < usize::MAX {
                run.import_from(at + 1)
            } else {
                run.refresh_from(0)
            }
        },
        SyncPhase::Refreshing { at } => {
            if at < usize::MAX {
                run.refresh_from(at + 1)
            } else {
                let mut run = run;
                run.publishes = write_missing_keys(&run.gpgs, &run.keys, &run.published);
                run.publish_from(0)
            }
        },
        SyncPhase::Publishing { at } => {
            if at < usize::MAX {
                run.publish_from(at + 1)
            } else {
                let mut run = run;
                run.phase = SyncPhase::Finished;
                (run, SyncAction::Finished)
            }
        },
        SyncPhase::Finished => (run, SyncAction::Finished),
    }
}

} // verus!
