//! One run of the tool: which operations it carries out, in which order, and on which database.
use crate::args::Args;
use vstd::prelude::*;

verus! {

/// What can be asked for in one run.
#[derive(Debug, Clone, Copy, PartialEq, Eq, Structural)]
pub enum Operation {
    /// Take a snapshot.
    Create,
    /// Delete a snapshot.
    Delete,
    /// Delete the snapshots beyond the last ones.
    Clean,
    /// Restore a snapshot.
    Restore,
    /// Send the snapshots to the targets.
    Send,
    /// List what is tracked.
    List,
}

/// The operations in the order in which they are carried out.
pub open spec fn every_operation() -> Seq<Operation> {
    seq![
        Operation::Create,
        Operation::Delete,
        Operation::Clean,
        Operation::Restore,
        Operation::Send,
        Operation::List,
    ]
}

impl Args {
    /// Whether an operation was asked for.
    pub open spec fn asks_for(self, operation: Operation) -> bool {
        match operation {
            Operation::Create => self.create_snapshot,
            Operation::Delete => self.delete_snapshot,
            Operation::Clean => self.clean_snapshots,
            Operation::Restore => self.restore_snapshot,
            Operation::Send => self.send_snapshots,
            Operation::List => self.list_snapshots,
        }
    }
}

/// The operations that a run carries out, in order. Listing goes last so that combined with
/// cleaning it shows the resulting state.
pub fn operations(args: &Args) -> (list: Vec<Operation>)
    ensures
        list@ == every_operation().filter(|operation: Operation| args.asks_for(operation)),
        args.list_snapshots ==> list@.last() == Operation::List,
{
    let ghost wants = |operation: Operation| args.asks_for(operation);
    let mut list: Vec<Operation> = Vec::new();
    proof {
        reveal(Seq::filter);
        reveal_with_fuel(Seq::filter, 7);
        let all = every_operation();
        assert(all.drop_last() =~= all.take(5));
        assert(all.take(5).drop_last() =~= all.take(4));
        assert(all.take(4).drop_last() =~= all.take(3));
        assert(all.take(3).drop_last() =~= all.take(2));
        assert(all.take(2).drop_last() =~= all.take(1));
        assert(all.take(1).drop_last() =~= all.take(0));
    }
    if args.create_snapshot {
        list.push(Operation::Create);
    }
    if args.delete_snapshot {
        list.push(Operation::Delete);
    }
    if args.clean_snapshots {
        list.push(Operation::Clean);
    }
    if args.restore_snapshot {
        list.push(Operation::Restore);
    }
    if args.send_snapshots {
        list.push(Operation::Send);
    }
    if args.list_snapshots {
        list.push(Operation::List);
    }
    assert(list@ =~= every_operation().filter(wants));
    list
}

/// Where the database of a run comes from.
#[derive(Debug, Clone, Copy, PartialEq, Eq, Structural)]
pub enum Opening {
    /// The file is opened.
    File,
    /// The file is created, and its directory too if it is missing.
    NewFile,
    /// The database is an empty one in memory, so that nothing is written to the disk.
    Memory,
}

/// There is no database file, and this run does not create one.
#[derive(Debug, Clone, Copy, PartialEq, Eq, Structural)]
pub struct NoDatabase;

impl NoDatabase {
    /// What to say of it.
    pub fn message(&self, path: &str) -> (message: String)
        ensures
            message@ == "the database file "@ + path@
                + " does not exist. Create a snapshot first, or point to the right file with -d/--dfile"@,
    {
        "the database file ".to_owned().concat(path).concat(
            " does not exist. Create a snapshot first, or point to the right file with -d/--dfile",
        )
    }
}

/// Where the database of a run comes from. `is_there` says whether the file exists.
///
/// The file is only created when taking a snapshot (its parent directory too); the other
/// operations fail with a clear message if it doesn't exist. With `--dry-run` a missing database
/// is replaced by an empty in-memory one so nothing is written to disk.
pub fn open(args: &Args, is_there: bool) -> (opening: Result<Opening, NoDatabase>)
    ensures
        opening == if is_there {
            Ok::<Opening, NoDatabase>(Opening::File)
        } else if args.dry_run {
            Ok(Opening::Memory)
        } else if args.create_snapshot {
            Ok(Opening::NewFile)
        } else {
            Err(NoDatabase)
        },
{
    if is_there {
        Ok(Opening::File)
    } else if args.dry_run {
        Ok(Opening::Memory)
    } else if args.create_snapshot {
        Ok(Opening::NewFile)
    } else {
        Err(NoDatabase)
    }
}

} // verus!
