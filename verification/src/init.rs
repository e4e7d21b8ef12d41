//! Project initialization: the fixed subdirectory layout and the stepping
//! through its creation.
//!
//! A project root is an existing directory supplied by the caller; it is
//! never created here, only extended with a fixed, ordered set of three
//! subdirectories. Each subdirectory is ensured at most once per
//! initialization: a directory already standing under its name is left
//! untouched, and any other kind of entry in its place makes that step's
//! creation fail — creation never replaces an existing entry. The host
//! shell walks an [`InitPlan`] name by name, probing for the directory
//! and creating it when it is not there, and reports back by advancing
//! the plan; a creation failure ends the walk with the error built by
//! [`creation_error`], and what was created before it remains.

use vstd::prelude::*;
use crate::errors::FsError;

verus! {

/// The fixed, ordered subdirectory set scaffolded under a project root.
pub open spec fn subdir_names() -> Seq<Seq<char>> {
    seq!["chapters"@, "characters"@, "lore"@]
}

/// The subdirectory set as values, in the fixed order.
pub fn subdirectory_names() -> (names: Vec<String>)
    ensures
        names@.len() == subdir_names().len(),
        forall|i: int| 0 <= i < names@.len() ==> names@[i]@ == subdir_names()[i],
{
    let mut names: Vec<String> = Vec::new();
    names.push("chapters".to_owned());
    names.push("characters".to_owned());
    names.push("lore".to_owned());
    names
}

/// Precondition check of project initialization: the supplied path must
/// resolve to an existing directory. `root_is_dir` is what the host
/// observed of the path; on failure nothing has been mutated.
pub fn check_project_root(root_is_dir: bool) -> (r: Result<(), FsError>)
    ensures
        root_is_dir <==> r is Ok,
        !root_is_dir ==> (r matches Err(e) && e is InvalidRoot),
{
    if root_is_dir {
        Ok(())
    } else {
        Err(FsError::InvalidRoot)
    }
}

/// Precondition check of a directory listing: the supplied path must
/// resolve to an existing directory; on failure nothing has been mutated.
pub fn check_list_directory(dir_is_dir: bool) -> (r: Result<(), FsError>)
    ensures
        dir_is_dir <==> r is Ok,
        !dir_is_dir ==> (r matches Err(e) && e is InvalidDirectory),
{
    if dir_is_dir {
        Ok(())
    } else {
        Err(FsError::InvalidDirectory)
    }
}

/// The error reported when creating one of the subdirectories fails,
/// tagged with the subdirectory's name and the underlying cause.
pub fn creation_error(subdirectory: String, cause: String) -> (e: FsError)
    ensures
        e == (FsError::CreateFailure { subdirectory, cause }),
{
    FsError::CreateFailure { subdirectory, cause }
}

/// The status message of a completed initialization.
pub fn init_success_message() -> (m: String)
    ensures
        m@ == "Projet initialisé avec succès."@,
{
    "Projet initialisé avec succès.".to_owned()
}

/// A walk over the subdirectory set, in order, one name at a time.
#[derive(Debug)]
pub struct InitPlan {
    next: usize,
}

impl InitPlan {
    /// How many of the subdirectory names have been dealt with.
    pub closed spec fn position(self) -> int {
        self.next as int
    }

    /// The walk never goes past the end of the subdirectory set.
    pub closed spec fn wf(self) -> bool {
        self.next as int <= subdir_names().len()
    }

    /// Begins the walk, after the precondition check on the root:
    /// `InvalidRoot` if the root is not an existing directory, else a
    /// plan standing before the first name.
    pub fn new(root_is_dir: bool) -> (r: Result<InitPlan, FsError>)
        ensures
            root_is_dir <==> r is Ok,
            root_is_dir ==> (r matches Ok(p) && p.wf() && p.position() == 0),
            !root_is_dir ==> (r matches Err(e) && e is InvalidRoot),
    {
        if root_is_dir {
            Ok(InitPlan { next: 0 })
        } else {
            Err(FsError::InvalidRoot)
        }
    }

    /// The next subdirectory name to ensure, or `None` when every name
    /// has been dealt with.
    pub fn next_name(&self) -> (r: Option<String>)
        requires
            self.wf(),
        ensures
            self.position() < subdir_names().len() ==> (r matches Some(n) && n@
                == subdir_names()[self.position()]),
            self.position() == subdir_names().len() ==> r is None,
    {
        if self.next == 0 {
            Some("chapters".to_owned())
        } else if self.next == 1 {
            Some("characters".to_owned())
        } else if self.next == 2 {
            Some("lore".to_owned())
        } else {
            None
        }
    }

    /// Records that the current subdirectory stands as a directory — it
    /// did already, or was just created — and steps to the next name.
    pub fn advance(&mut self)
        requires
            old(self).wf(),
            old(self).position() < subdir_names().len(),
        ensures
            final(self).wf(),
            final(self).position() == old(self).position() + 1,
    {
        self.next = self.next + 1;
    }
}

} // verus!
