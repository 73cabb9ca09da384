//! Keeping to a single instance. The record of granted roles is one file that is read and
//! rewritten as a whole, so two instances would undo each other's entries; a lock on a file of
//! its own keeps the second one from starting.

use crate::text::{has_text, holding_a_text, join, join3};
use vstd::prelude::*;

verus! {

/// Why an instance does not start.
#[derive(Debug)]
pub enum LockError {
    /// The lock file could not be opened, for the reason given.
    Open { path: String, source: String },
    /// Another instance holds the lock.
    AlreadyLocked { path: String },
}

/// A `LockError` with its texts.
pub enum LockErrorView {
    Open { path: Seq<char>, source: Seq<char> },
    AlreadyLocked { path: Seq<char> },
}

impl View for LockError {
    type V = LockErrorView;

    open spec fn view(&self) -> LockErrorView {
        match *self {
            LockError::Open { path, source } => LockErrorView::Open {
                path: path@,
                source: source@,
            },
            LockError::AlreadyLocked { path } => LockErrorView::AlreadyLocked { path: path@ },
        }
    }
}

/// The message of an error.
pub open spec fn lock_error_message(e: LockErrorView) -> Seq<char> {
    match e {
        LockErrorView::Open { path, source } => {
            "could not open/create lock file "@ + path + ": "@ + source
        },
        LockErrorView::AlreadyLocked { path } => {
            "another Cambium instance already holds the lock at "@ + path
                + " — Cambium v1 must run as exactly one instance against a given manifest (see docs/sync-semantics.md); refusing to start a second one"@
        },
    }
}

impl LockError {
    /// The message of the error.
    pub fn message(&self) -> (r: String)
        ensures
            r@ == lock_error_message(self@),
    {
        match self {
            LockError::Open { path, source } => {
                let head = join3("could not open/create lock file ", path.as_str(), ": ");
                join(head.as_str(), source.as_str())
            },
            LockError::AlreadyLocked { path } => join3(
                "another Cambium instance already holds the lock at ",
                path.as_str(),
                " — Cambium v1 must run as exactly one instance against a given manifest (see docs/sync-semantics.md); refusing to start a second one",
            ),
        }
    }
}

/// How the attempt to lock the file went.
#[derive(Debug)]
pub enum LockAttempt {
    /// The file could not be opened, for the reason given.
    NotOpened(String),
    /// The file was opened, and the lock was refused.
    Refused,
    /// The file was opened and locked.
    Locked,
}

/// A `LockAttempt` with its text.
pub enum LockAttemptView {
    NotOpened(Seq<char>),
    Refused,
    Locked,
}

impl View for LockAttempt {
    type V = LockAttemptView;

    open spec fn view(&self) -> LockAttemptView {
        match *self {
            LockAttempt::NotOpened(reason) => LockAttemptView::NotOpened(reason@),
            LockAttempt::Refused => LockAttemptView::Refused,
            LockAttempt::Locked => LockAttemptView::Locked,
        }
    }
}

/// Whether an instance may start, or why not.
pub open spec fn acquired(lock_file: Seq<char>, attempt: LockAttemptView) -> Result<
    (),
    LockErrorView,
> {
    match attempt {
        LockAttemptView::NotOpened(reason) => Err(
            LockErrorView::Open { path: lock_file, source: reason },
        ),
        LockAttemptView::Refused => Err(LockErrorView::AlreadyLocked { path: lock_file }),
        LockAttemptView::Locked => Ok(()),
    }
}

/// Decides whether an instance may start, given how the attempt to lock its file went.
pub fn acquire(lock_file: &str, attempt: LockAttempt) -> (r: Result<(), LockError>)
    ensures
        match r {
            Ok(_) => acquired(lock_file@, attempt@) is Ok,
            Err(e) => acquired(lock_file@, attempt@) == Err::<(), _>(e@),
        },
{
    match attempt {
        LockAttempt::NotOpened(source) => Err(
            LockError::Open { path: lock_file.to_owned(), source },
        ),
        LockAttempt::Refused => Err(LockError::AlreadyLocked { path: lock_file.to_owned() }),
        LockAttempt::Locked => Ok(()),
    }
}

/// How the attempt to lock a file that can be opened goes on a system that gives a lock to one
/// holder at a time and does not let the others wait; `held` are the files that are locked.
pub open spec fn exclusive_attempt(held: Set<Seq<char>>, lock_file: Seq<char>) -> LockAttemptView {
    if held.contains(lock_file) {
        LockAttemptView::Refused
    } else {
        LockAttemptView::Locked
    }
}

/// On a system whose locks are exclusive an instance that may start keeps every other one from
/// starting on the same file until it lets go of the lock; then the next one may start. Locks on
/// other files do not matter.
pub proof fn one_instance_at_a_time(held: Set<Seq<char>>, lock_file: Seq<char>)
    ensures
        acquired(lock_file, exclusive_attempt(held, lock_file)) is Ok == !held.contains(lock_file),
        acquired(lock_file, exclusive_attempt(held.insert(lock_file), lock_file)) == Err::<(), _>(
            LockErrorView::AlreadyLocked { path: lock_file },
        ),
        acquired(
            lock_file,
            exclusive_attempt(held.insert(lock_file).remove(lock_file), lock_file),
        ) is Ok,
{
}

/// A file that could not be opened keeps an instance from starting for the reason given; whatever
/// keeps it from starting, the file is named.
pub proof fn unopened_files_are_named(lock_file: Seq<char>, attempt: LockAttempt)
    ensures
        match attempt {
            LockAttempt::NotOpened(reason) => acquired(lock_file, attempt@) == Err::<(), _>(
                LockErrorView::Open { path: lock_file, source: reason@ },
            ),
            LockAttempt::Refused => acquired(lock_file, attempt@) == Err::<(), _>(
                LockErrorView::AlreadyLocked { path: lock_file },
            ),
            LockAttempt::Locked => acquired(lock_file, attempt@) is Ok,
        },
        acquired(lock_file, attempt@) matches Err(e) ==> has_text(lock_error_message(e), lock_file),
        attempt matches LockAttempt::NotOpened(reason) ==> has_text(
            lock_error_message(acquired(lock_file, attempt@)->Err_0),
            reason@,
        ),
{
    match acquired(lock_file, attempt@) {
        Err(LockErrorView::Open { path, source }) => {
            let head = "could not open/create lock file "@;
            let message = lock_error_message(LockErrorView::Open { path, source });
            holding_a_text(head, path, ": "@ + source);
            assert(message =~= head + path + (": "@ + source));
            holding_a_text(head + path + ": "@, source, Seq::empty());
            assert(message =~= (head + path + ": "@) + source + Seq::empty());
        },
        Err(LockErrorView::AlreadyLocked { path }) => {
            holding_a_text(
                "another Cambium instance already holds the lock at "@,
                path,
                " — Cambium v1 must run as exactly one instance against a given manifest (see docs/sync-semantics.md); refusing to start a second one"@,
            );
        },
        Ok(_) => {},
    }
}

} // verus!
