//! The commands that change or re-assert who may read a part of the store.

use vstd::prelude::*;
use crate::key::gpg_id::ascending;
use crate::key::gpg_id::base_recipients;
use crate::key::gpg_id::get_base_gpgs_for_dir;
use crate::key::gpg_id::gpg_id_contents;
use crate::key::gpg_id::lemma_push_to_set;
use crate::key::gpg_id::lemma_write_then_read;
use crate::key::gpg_id::writable;
use crate::key::gpg_id::write_gpg_ids;
use crate::key::gpg_id::RecipientSet;
use crate::key::gpg_id::Store;
use crate::key::gpg_id::StoreError;
use crate::text::str_eq;

verus! {

/// The directory that a command works on: the one named, or the root.
pub open spec fn dir_of(sub_path: Option<Seq<char>>) -> Seq<char> {
    match sub_path {
        Some(path) => path,
        None => Seq::empty(),
    }
}

/// The arguments with which the re-encryption tool is run: the word `init`,
/// the directory behind `-p` unless it is the root, then the recipients.
pub open spec fn reencrypt_args(sub_path: Option<Seq<char>>, gpgs: Seq<Seq<char>>) -> Seq<
    Seq<char>,
> {
    match sub_path {
        Some(path) => seq!["init"@, "-p"@, path] + gpgs,
        None => seq!["init"@] + gpgs,
    }
}

/// The arguments that re-encrypt a directory for the given recipients.
fn reencrypt_arguments(sub_path: &Option<String>, gpgs: &RecipientSet) -> (args: Vec<String>)
    ensures
        args.deep_view() == reencrypt_args(sub_path.deep_view(), ascending(gpgs@)),
{
    let mut args: Vec<String> = Vec::new();
    args.push("init".to_owned());
    match sub_path {
        Some(path) => {
            args.push("-p".to_owned());
            args.push(path.clone());
        },
        None => {},
    }
    let ghost head = args.deep_view();
    let ids = gpgs.to_vec();
    let mut i: usize = 0;
    proof {
        assert(args.deep_view() =~= head + ids.deep_view().take(0));
    }
    while i < ids.len()
        invariant
            i <= ids.len(),
            args.deep_view() == head + ids.deep_view().take(i as int),
        decreases ids.len() - i,
    {
        let ghost before = args.deep_view();
        let id = ids[i].clone();
        args.push(id);
        proof {
            assert(args.deep_view() =~= before.push(id@));
            assert(ids.deep_view().take(i + 1) =~= ids.deep_view().take(i as int).push(id@));
        }
        i += 1;
    }
    proof {
        assert(ids.deep_view().take(i as int) =~= ids.deep_view());
        assert(args.deep_view() =~= reencrypt_args(sub_path.deep_view(), ids.deep_view()));
    }
    args
}

/// The arguments that re-encrypt a directory, or the root where none is
/// named, for the recipients that the directory declares itself. The set is
/// read, not changed.
pub fn reencrypt(store: &Store, path: &Option<String>) -> (args: Vec<String>)
    ensures
        args.deep_view() == reencrypt_args(
            path.deep_view(),
            ascending(base_recipients(store@, dir_of(path.deep_view()))),
        ),
{
    let gpgs = match path {
        Some(dir) => get_base_gpgs_for_dir(store, dir.as_str()),
        None => {
            proof {
                reveal_strlit("");
                assert(""@ =~= Seq::<char>::empty());
            }
            get_base_gpgs_for_dir(store, "")
        },
    };
    reencrypt_arguments(path, &gpgs)
}

/// The directory that the arguments of the `reencrypt` command name: the
/// first argument, if there is one.
pub open spec fn reencrypt_target(args: Seq<Seq<char>>) -> Option<Seq<char>> {
    if args.len() == 0 {
        None
    } else {
        Some(args[0])
    }
}

/// The `reencrypt` command: re-encrypts the directory that the first argument
/// names, or the root where there is no argument.
pub fn reencrypt_cmd(store: &Store, args: &Vec<String>) -> (tool_args: Vec<String>)
    ensures
        tool_args.deep_view() == reencrypt_args(
            reencrypt_target(args.deep_view()),
            ascending(base_recipients(store@, dir_of(reencrypt_target(args.deep_view())))),
        ),
{
    if args.len() == 0 {
        return reencrypt(store, &None);
    }
    reencrypt(store, &Some(args[0].clone()))
}

/// What became of a request to add recipients to a directory.
pub enum AddOutcome {
    /// Every identity was a recipient already: nothing was written, and
    /// nothing is to be re-encrypted.
    Unchanged,
    /// The recipient file was rewritten with these contents, and the
    /// directory is to be re-encrypted with these arguments to the tool.
    Rewritten { contents: String, tool_args: Vec<String> },
}

/// The mathematical content of an [`AddOutcome`].
pub ghost enum AddOutcomeView {
    Unchanged,
    Rewritten { contents: Seq<char>, tool_args: Seq<Seq<char>> },
}

impl View for AddOutcome {
    type V = AddOutcomeView;

    open spec fn view(&self) -> AddOutcomeView {
        match self {
            AddOutcome::Unchanged => AddOutcomeView::Unchanged,
            AddOutcome::Rewritten { contents, tool_args } => AddOutcomeView::Rewritten {
                contents: contents@,
                tool_args: tool_args.deep_view(),
            },
        }
    }
}

/// What adding the identities `added` to the directory `sub_path` comes to:
/// nothing where they are all recipients of the directory already; otherwise
/// the recipient file of the directory is rewritten with the old and the new
/// recipients in ascending order, and the directory is re-encrypted for them.
/// A directory that the store lacks cannot be written to.
pub open spec fn added_recipients(
    store: Map<Seq<char>, Option<Seq<char>>>,
    sub_path: Option<Seq<char>>,
    added: Set<Seq<char>>,
) -> (Map<Seq<char>, Option<Seq<char>>>, Result<AddOutcomeView, StoreError>) {
    let dir = dir_of(sub_path);
    let prior = base_recipients(store, dir);
    let gpgs = ascending(prior.union(added));
    if added.subset_of(prior) {
        (store, Ok(AddOutcomeView::Unchanged))
    } else if !store.contains_key(dir) {
        (store, Err(StoreError::MissingDirectory))
    } else {
        (
            store.insert(dir, Some(gpg_id_contents(gpgs))),
            Ok(
                AddOutcomeView::Rewritten {
                    contents: gpg_id_contents(gpgs),
                    tool_args: reencrypt_args(sub_path, gpgs),
                },
            ),
        )
    }
}

/// Adds the given identities to the recipients that the directory `sub_path`
/// declares, or the root where none is named. The recipient file is rewritten
/// only where that changes the set.
pub fn add_gpgs(store: &mut Store, sub_path: &Option<String>, new_gpgs: &Vec<String>) -> (added:
    Result<AddOutcome, StoreError>)
    ensures
        (*final(store))@ == added_recipients(
            (*old(store))@,
            sub_path.deep_view(),
            new_gpgs.deep_view().to_set(),
        ).0,
        match added {
            Ok(outcome) => added_recipients(
                (*old(store))@,
                sub_path.deep_view(),
                new_gpgs.deep_view().to_set(),
            ).1 == Ok::<AddOutcomeView, StoreError>(outcome@),
            Err(error) => added_recipients(
                (*old(store))@,
                sub_path.deep_view(),
                new_gpgs.deep_view().to_set(),
            ).1 == Err::<AddOutcomeView, StoreError>(error),
        },
{
    let dir: String = match sub_path {
        Some(path) => path.clone(),
        None => {
            proof {
                reveal_strlit("");
                assert(""@ =~= Seq::<char>::empty());
            }
            "".to_owned()
        },
    };
    let mut gpgs = get_base_gpgs_for_dir(store, dir.as_str());
    let ghost prior = gpgs@;
    let ghost all = new_gpgs.deep_view();
    let mut changed = false;
    let mut i: usize = 0;
    proof {
        assert(all.take(0).to_set() =~= Set::<Seq<char>>::empty());
        assert(gpgs@ =~= prior.union(all.take(0).to_set()));
    }
    while i < new_gpgs.len()
        invariant
            i <= new_gpgs.len(),
            all == new_gpgs.deep_view(),
            gpgs@ == prior.union(all.take(i as int).to_set()),
            changed == !all.take(i as int).to_set().subset_of(prior),
        decreases new_gpgs.len() - i,
    {
        let ghost so_far = all.take(i as int);
        let id = new_gpgs[i].clone();
        let new = gpgs.insert(id);
        proof {
            assert(all.take(i + 1) =~= so_far.push(id@));
            lemma_push_to_set(so_far, id@);
            assert(gpgs@ =~= prior.union(all.take(i + 1).to_set()));
            if new {
                assert(!prior.contains(id@));
                assert(all.take(i + 1).to_set().contains(id@));
            }
        }
        if new {
            changed = true;
        }
        i += 1;
    }
    proof {
        assert(all.take(i as int) =~= all);
    }
    if !changed {
        return Ok(AddOutcome::Unchanged);
    }
    match write_gpg_ids(store, dir.as_str(), &gpgs) {
        Err(error) => Err(error),
        Ok(contents) => {
            let tool_args = reencrypt_arguments(sub_path, &gpgs);
            Ok(AddOutcome::Rewritten { contents, tool_args })
        },
    }
}

/// Adding identities of which at least one is new to a directory leaves the
/// directory declaring exactly its earlier recipients and the added ones;
/// adding identities that are all recipients already leaves the store as it
/// was and asks for no re-encryption. Identities are taken to hold no line
/// feed and not to end with a carriage return.
pub proof fn lemma_add_recipients(
    store: Map<Seq<char>, Option<Seq<char>>>,
    sub_path: Option<Seq<char>>,
    added: Set<Seq<char>>,
)
    requires
        store.contains_key(dir_of(sub_path)),
        added.finite(),
        writable(base_recipients(store, dir_of(sub_path)).union(added)),
    ensures
        added.subset_of(base_recipients(store, dir_of(sub_path))) ==> added_recipients(
            store,
            sub_path,
            added,
        ) == (store, Ok::<AddOutcomeView, StoreError>(AddOutcomeView::Unchanged)),
        !added.subset_of(base_recipients(store, dir_of(sub_path))) ==> base_recipients(
            added_recipients(store, sub_path, added).0,
            dir_of(sub_path),
        ) == base_recipients(store, dir_of(sub_path)).union(added) && added_recipients(
            store,
            sub_path,
            added,
        ).1 is Ok && added_recipients(store, sub_path, added).1->Ok_0 is Rewritten,
{
    let dir = dir_of(sub_path);
    let prior = base_recipients(store, dir);
    if !added.subset_of(prior) {
        assert(prior.finite()) by {
            if store[dir] is Some {
                vstd::seq_lib::seq_to_set_is_finite(crate::text::lines_of(store[dir]->Some_0));
            }
        }
        vstd::set_lib::lemma_set_union_finite_iff(prior, added);
        lemma_write_then_read(store, dir, prior.union(added));
    }
}

/// What the arguments of the `gpg-add` command ask for.
pub struct AddRequest {
    /// The directory to work on; the root where none is named.
    pub sub_path: Option<String>,
    /// The identities to add.
    pub gpgs: Vec<String>,
    /// Whether the operator's own identity is to be added, because the
    /// command was given no argument at all.
    pub use_default_key: bool,
}

/// The mathematical content of an [`AddRequest`].
pub ghost struct AddRequestView {
    pub sub_path: Option<Seq<char>>,
    pub gpgs: Seq<Seq<char>>,
    pub use_default_key: bool,
}

impl View for AddRequest {
    type V = AddRequestView;

    open spec fn view(&self) -> AddRequestView {
        AddRequestView {
            sub_path: self.sub_path.deep_view(),
            gpgs: self.gpgs.deep_view(),
            use_default_key: self.use_default_key,
        }
    }
}

/// Why the arguments of a command cannot be followed.
#[derive(Clone, Copy, Debug, PartialEq, Eq)]
pub enum ArgumentError {
    /// `-p` stands last, with no path behind it.
    MissingPath,
}

/// What the arguments of the `gpg-add` command ask for. Without arguments
/// the operator's own identity goes to the root. Behind a leading `-p`
/// stands the directory, and behind that the identities; without `-p` all
/// arguments are identities for the root.
pub open spec fn add_request_of(args: Seq<Seq<char>>) -> Result<AddRequestView, ArgumentError> {
    if args.len() == 0 {
        Ok(AddRequestView { sub_path: None, gpgs: Seq::empty(), use_default_key: true })
    } else if args[0] == "-p"@ {
        if args.len() == 1 {
            Err(ArgumentError::MissingPath)
        } else {
            Ok(AddRequestView { sub_path: Some(args[1]), gpgs: args.skip(2), use_default_key: false })
        }
    } else {
        Ok(AddRequestView { sub_path: None, gpgs: args, use_default_key: false })
    }
}

/// Reads the arguments of the `gpg-add` command.
pub fn add_arguments(args: &Vec<String>) -> (request: Result<AddRequest, ArgumentError>)
    ensures
        match request {
            Ok(request) => add_request_of(args.deep_view()) == Ok::<AddRequestView, ArgumentError>(
                request@,
            ),
            Err(error) => add_request_of(args.deep_view()) == Err::<AddRequestView, ArgumentError>(
                error,
            ),
        },
{
    let ghost all = args.deep_view();
    if args.len() == 0 {
        let gpgs: Vec<String> = Vec::new();
        proof {
            assert(gpgs.deep_view() =~= Seq::<Seq<char>>::empty());
        }
        return Ok(AddRequest { sub_path: None, gpgs, use_default_key: true });
    }
    proof {
        assert(all[0] == args[0]@);
    }
    let with_path = str_eq(args[0].as_str(), "-p");
    if with_path && args.len() == 1 {
        return Err(ArgumentError::MissingPath);
    }
    let first: usize = if with_path {
        2
    } else {
        0
    };
    let mut gpgs: Vec<String> = Vec::new();
    let mut i: usize = first;
    proof {
        assert(gpgs.deep_view() =~= all.subrange(first as int, first as int));
    }
    while i < args.len()
        invariant
            first <= i <= args.len(),
            all == args.deep_view(),
            gpgs.deep_view() == all.subrange(first as int, i as int),
        decreases args.len() - i,
    {
        let ghost before = gpgs.deep_view();
        let gpg = args[i].clone();
        gpgs.push(gpg);
        proof {
            assert(gpgs.deep_view() =~= before.push(gpg@));
            assert(all.subrange(first as int, i + 1) =~= all.subrange(first as int, i as int).push(
                gpg@,
            ));
        }
        i += 1;
    }
    proof {
        assert(all.subrange(first as int, all.len() as int) =~= all.skip(first as int));
        assert(all.skip(0) =~= all);
    }
    if with_path {
        proof {
            assert(all[1] == args[1]@);
        }
        Ok(AddRequest { sub_path: Some(args[1].clone()), gpgs, use_default_key: false })
    } else {
        Ok(AddRequest { sub_path: None, gpgs, use_default_key: false })
    }
}

} // verus!
