//! Settings of the database layer.

use vstd::prelude::*;

verus! {

/// Settings of the database layer.
#[derive(Debug, Clone, Copy, PartialEq, Eq)]
pub struct Config {
    /// How many rows one insert may carry; never zero.
    pub insert_batch_size: usize,
}

impl Config {
    /// The batch size is not zero.
    pub open spec fn wf(&self) -> bool {
        self.insert_batch_size > 0
    }

    /// The settings with this batch size, which must not be zero.
    pub fn new(insert_batch_size: usize) -> (r: Option<Config>)
        ensures
            r == if insert_batch_size > 0 {
                Some(Config { insert_batch_size })
            } else {
                None
            },
            r matches Some(c) ==> c.wf(),
    {
        if insert_batch_size > 0 {
            Some(Config { insert_batch_size })
        } else {
            None
        }
    }

    /// The settings that are used where none are given: 500 rows per insert.
    pub fn with_defaults() -> (r: Config)
        ensures
            r.wf(),
            r.insert_batch_size == 500,
    {
        Config { insert_batch_size: 500 }
    }
}

} // verus!
