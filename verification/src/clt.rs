//! The commands of the recorder and their arguments.

use vstd::prelude::*;

verus! {

/// A parsed command line.
#[derive(Debug)]
pub struct Cli {
    /// The command to carry out.
    pub command: Command,
}

/// What the recorder can be asked to do.
#[derive(Debug)]
pub enum Command {
    /// Start the recorder in the background.
    Start,
    /// Stop the recorder that runs in the background.
    Stop,
    /// Report the recorded combos.
    Query(QueryArgs),
    /// Remove the recorded combos.
    Clear(ClearArgs),
    /// Run the recorder in the foreground.
    Daemon,
}

/// The arguments of a query.
#[derive(Debug, Clone, Copy)]
pub struct QueryArgs {
    /// Report single keys only.
    pub single_only: bool,
    /// Report combos of two or more keys only.
    pub combo_only: bool,
}

/// The arguments of a clear.
#[derive(Debug, Clone, Copy)]
pub struct ClearArgs {
    /// Copy the store to its backup before the rows are removed.
    pub backup: bool,
}

impl Default for QueryArgs {
    fn default() -> (r: Self)
        ensures
            !r.single_only,
            !r.combo_only,
    {
        QueryArgs { single_only: false, combo_only: false }
    }
}

impl Default for ClearArgs {
    fn default() -> (r: Self)
        ensures
            !r.backup,
    {
        ClearArgs { backup: false }
    }
}

impl QueryArgs {
    /// The arity filter of the query: single keys, combos, or none. Where both
    /// restrictions are asked for, single keys win.
    pub open spec fn filter_of(&self) -> Option<bool> {
        if self.single_only {
            Some(true)
        } else if self.combo_only {
            Some(false)
        } else {
            None
        }
    }

    /// The arity filter of the query: single keys, combos, or none. Where both
    /// restrictions are asked for, single keys win.
    pub fn filter(&self) -> (r: Option<bool>)
        ensures
            r == self.filter_of(),
    {
        if self.single_only {
            Some(true)
        } else if self.combo_only {
            Some(false)
        } else {
            None
        }
    }
}

} // verus!
