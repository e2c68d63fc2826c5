//! Objects as files: what a store does to put, get and delete them.
//!
//! A put writes `name.tmp`, makes it durable and renames it over `name`, so a
//! reader never sees a torn object under the final name and a crash mid-write
//! leaves only the temporary file behind.

use vstd::prelude::*;
use vstd::string::StringExecFns;

verus! {

/// `<path>.tmp`, next to the final object so the rename stays on one
/// filesystem.
pub fn temp_path(path: &str) -> (r: String)
    ensures
        r@ == path@ + ".tmp"@,
{
    let mut out = String::from_str(path);
    out.append(".tmp");
    out
}

/// What a put could not do.
#[derive(Debug, Clone, Copy, PartialEq, Eq, Structural)]
pub enum PutFailure {
    /// Create the object's directory.
    CreateDir,
    /// Write the temporary file and make it durable.
    Write,
    /// Rename it over the object.
    Rename,
}

impl PutFailure {
    /// The failure in words: `dir` holds the object, which is to be at `path`.
    pub open spec fn text(self, dir: Seq<char>, path: Seq<char>) -> Seq<char> {
        match self {
            PutFailure::CreateDir => "Failed to create dir "@ + dir,
            PutFailure::Write => "Failed to write "@ + path + ".tmp"@,
            PutFailure::Rename => "Failed to rename "@ + path + ".tmp"@ + " to "@ + path,
        }
    }

    /// The failure in words: `dir` holds the object, which is to be at `path`.
    pub fn describe(&self, dir: &str, path: &str) -> (r: String)
        ensures
            r@ == self.text(dir@, path@),
    {
        match *self {
            PutFailure::CreateDir => {
                let mut out = String::from_str("Failed to create dir ");
                out.append(dir);
                out
            },
            PutFailure::Write => {
                let mut out = String::from_str("Failed to write ");
                out.append(path);
                out.append(".tmp");
                out
            },
            PutFailure::Rename => {
                let mut out = String::from_str("Failed to rename ");
                out.append(path);
                out.append(".tmp");
                out.append(" to ");
                out.append(path);
                out
            },
        }
    }
}

/// What a put does next.
#[derive(Debug, Clone, Copy, PartialEq, Eq, Structural)]
pub enum PutStep {
    /// Create the directory that holds the object.
    CreateParent,
    /// Write the temporary file and make it durable.
    WriteTemp,
    /// Rename the temporary file over the object.
    RenameOver,
    /// Remove the temporary file; whether that works does not matter.
    RemoveTemp {
        /// Why the put failed.
        failure: PutFailure,
    },
    /// The object is in place.
    Stored,
    /// The object is as it was.
    Refused {
        /// Why the put failed.
        failure: PutFailure,
    },
}

impl PutStep {
    /// What follows a step that went well or did not.
    pub open spec fn after(self, ok: bool) -> PutStep {
        match self {
            PutStep::CreateParent => if ok {
                PutStep::WriteTemp
            } else {
                PutStep::Refused { failure: PutFailure::CreateDir }
            },
            PutStep::WriteTemp => if ok {
                PutStep::RenameOver
            } else {
                PutStep::RemoveTemp { failure: PutFailure::Write }
            },
            PutStep::RenameOver => if ok {
                PutStep::Stored
            } else {
                PutStep::RemoveTemp { failure: PutFailure::Rename }
            },
            PutStep::RemoveTemp { failure } => PutStep::Refused { failure },
            PutStep::Stored => PutStep::Stored,
            PutStep::Refused { failure } => PutStep::Refused { failure },
        }
    }

    /// What a put starts with.
    pub fn first() -> (r: PutStep)
        ensures
            r == PutStep::CreateParent,
    {
        PutStep::CreateParent
    }

    /// What follows this step, which went well or did not.
    pub fn next(&self, ok: bool) -> (r: PutStep)
        ensures
            r == self.after(ok),
    {
        match *self {
            PutStep::CreateParent => if ok {
                PutStep::WriteTemp
            } else {
                PutStep::Refused { failure: PutFailure::CreateDir }
            },
            PutStep::WriteTemp => if ok {
                PutStep::RenameOver
            } else {
                PutStep::RemoveTemp { failure: PutFailure::Write }
            },
            PutStep::RenameOver => if ok {
                PutStep::Stored
            } else {
                PutStep::RemoveTemp { failure: PutFailure::Rename }
            },
            PutStep::RemoveTemp { failure } => PutStep::Refused { failure },
            PutStep::Stored => PutStep::Stored,
            PutStep::Refused { failure } => PutStep::Refused { failure },
        }
    }
}

/// Where a put is once its first steps were answered.
pub open spec fn put_progress(answers: Seq<bool>) -> PutStep
    decreases answers.len(),
{
    if answers.len() == 0 {
        PutStep::CreateParent
    } else {
        put_progress(answers.drop_last()).after(answers.last())
    }
}

/// The object's own name is touched only once the whole of it is durable under
/// the temporary name, and a put succeeds only by that.
pub proof fn law_object_appears_whole(answers: Seq<bool>)
    ensures
        put_progress(answers) == PutStep::RenameOver <==> answers == seq![true, true],
        put_progress(answers) == PutStep::Stored ==> answers.len() >= 3 && answers.take(3)
            == seq![true, true, true],
    decreases answers.len(),
{
    if answers.len() > 0 {
        let before = answers.drop_last();
        law_object_appears_whole(before);
        law_steps_by_number(before);
        law_steps_by_number(answers);
        assert(answers =~= before.push(answers.last()));
        if put_progress(answers) == PutStep::RenameOver {
            assert(answers =~= seq![true, true]);
        }
        if answers == seq![true, true] {
            assert(before =~= seq![true]);
            assert(before.drop_last() =~= Seq::<bool>::empty());
            assert(put_progress(before.drop_last()) == PutStep::CreateParent);
        }
        if put_progress(answers) == PutStep::Stored {
            if put_progress(before) == PutStep::Stored {
                assert(answers.take(3) =~= before.take(3));
            } else {
                assert(before == seq![true, true]);
                assert(answers.take(3) =~= seq![true, true, true]);
            }
        }
    }
}

/// The first steps come in order.
proof fn law_steps_by_number(answers: Seq<bool>)
    ensures
        put_progress(answers) == PutStep::CreateParent <==> answers.len() == 0,
        put_progress(answers) == PutStep::WriteTemp <==> answers == seq![true],
    decreases answers.len(),
{
    if answers.len() > 0 {
        let before = answers.drop_last();
        law_steps_by_number(before);
        if put_progress(answers) == PutStep::WriteTemp {
            assert(before.len() == 0);
            assert(answers =~= seq![true]);
        }
        if answers == seq![true] {
            assert(before =~= Seq::<bool>::empty());
        }
    }
}

/// A put that fails after it began to write removes its temporary file, and
/// reports the failure whatever becomes of that.
pub proof fn law_failed_put_leaves_no_temporary_file(step: PutStep, removed: bool)
    requires
        step == PutStep::WriteTemp || step == PutStep::RenameOver,
    ensures
        step.after(false) is RemoveTemp,
        step.after(false).after(removed) == (PutStep::Refused {
            failure: step.after(false)->RemoveTemp_failure,
        }),
{
}

/// What became of a file that was to be deleted.
#[derive(Debug, Clone, Copy, PartialEq, Eq, Structural)]
pub enum DeleteOutcome {
    /// It is gone.
    Deleted,
    /// It was not there.
    Missing,
    /// It is still there.
    Failed,
}

/// Whether a delete of several objects goes on. A missing file is not an error:
/// every index a device could have written is named, most of which were never
/// spilled.
pub fn delete_goes_on(outcome: DeleteOutcome) -> (r: bool)
    ensures
        r == (outcome != DeleteOutcome::Failed),
{
    match outcome {
        DeleteOutcome::Deleted => true,
        DeleteOutcome::Missing => true,
        DeleteOutcome::Failed => false,
    }
}

/// A directory of objects, and the requests on it that finished.
#[derive(Debug)]
pub struct FileSystemStore {
    /// The directory.
    pub base_path: String,
    /// Puts that finished, each with why it failed if it did.
    pub finished_puts: Vec<(String, Option<PutFailure>)>,
    /// Gets that finished, each with what it read if it could.
    pub finished_gets: Vec<(String, Option<Vec<u8>>)>,
}

impl FileSystemStore {
    /// A store over the directory `base_path`.
    pub fn new(base_path: String) -> (r: FileSystemStore)
        ensures
            r.base_path == base_path,
            r.finished_puts@.len() == 0,
            r.finished_gets@.len() == 0,
    {
        FileSystemStore { base_path, finished_puts: Vec::new(), finished_gets: Vec::new() }
    }

    /// A put finished.
    pub fn put_finished(&mut self, name: String, failure: Option<PutFailure>)
        ensures
            final(self).finished_puts@ == old(self).finished_puts@.push((name, failure)),
            final(self).finished_gets == old(self).finished_gets,
            final(self).base_path == old(self).base_path,
    {
        self.finished_puts.push((name, failure));
    }

    /// A get finished.
    pub fn get_finished(&mut self, name: String, data: Option<Vec<u8>>)
        ensures
            final(self).finished_gets@ == old(self).finished_gets@.push((name, data)),
            final(self).finished_puts == old(self).finished_puts,
            final(self).base_path == old(self).base_path,
    {
        self.finished_gets.push((name, data));
    }

    /// Puts that finished since the last call.
    pub fn poll_puts(&mut self) -> (r: Vec<(String, Option<PutFailure>)>)
        ensures
            r@ == old(self).finished_puts@,
            final(self).finished_puts@.len() == 0,
            final(self).finished_gets == old(self).finished_gets,
            final(self).base_path == old(self).base_path,
    {
        let mut out: Vec<(String, Option<PutFailure>)> = Vec::new();
        std::mem::swap(&mut out, &mut self.finished_puts);
        out
    }

    /// Gets that finished since the last call.
    pub fn poll_gets(&mut self) -> (r: Vec<(String, Option<Vec<u8>>)>)
        ensures
            r@ == old(self).finished_gets@,
            final(self).finished_gets@.len() == 0,
            final(self).finished_puts == old(self).finished_puts,
            final(self).base_path == old(self).base_path,
    {
        let mut out: Vec<(String, Option<Vec<u8>>)> = Vec::new();
        std::mem::swap(&mut out, &mut self.finished_gets);
        out
    }
}

/// A put goes on as its steps go: the directory, the temporary file, the
/// rename, and then it is done. The first step that fails is why it fails; and
/// what was decided stays so.
pub proof fn law_a_put_goes_on_as_its_steps_go(removed: bool, failure: PutFailure)
    ensures
        PutStep::CreateParent.after(true) == PutStep::WriteTemp,
        PutStep::CreateParent.after(false) == (PutStep::Refused {
            failure: PutFailure::CreateDir,
        }),
        PutStep::WriteTemp.after(true) == PutStep::RenameOver,
        PutStep::WriteTemp.after(false).after(removed) == (PutStep::Refused {
            failure: PutFailure::Write,
        }),
        PutStep::RenameOver.after(true) == PutStep::Stored,
        PutStep::RenameOver.after(false).after(removed) == (PutStep::Refused {
            failure: PutFailure::Rename,
        }),
        PutStep::Stored.after(removed) == PutStep::Stored,
        (PutStep::Refused { failure }).after(removed) == (PutStep::Refused { failure }),
{
}

} // verus!
