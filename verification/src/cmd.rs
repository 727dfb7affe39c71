//! The key-value server's command carriers.
//!
//! These types only hold what a parsed command frame carries (at most a
//! key); applying a command to the shared map and writing the reply frame
//! are the surrounding server's concern, not this library's.

use vstd::prelude::*;

verus! {

/// A command that removes one key from the key-value map.
#[derive(Debug)]
pub struct Del {
    /// Name of the key to delete.
    key: String,
}

impl View for Del {
    type V = Seq<char>;

    closed spec fn view(&self) -> Seq<char> {
        self.key@
    }
}

impl Del {
    /// Create a new `Del` command which removes `key`.
    pub fn new(key: String) -> (r: Del)
        ensures
            r@ == key@,
    {
        Del { key }
    }

    /// Get the key.
    pub fn key(&self) -> (r: &str)
        ensures
            r@ == self@,
    {
        self.key.as_str()
    }
}

/// A command that increments the integer held under one key.
#[derive(Debug)]
pub struct Incr {
    /// The lookup key.
    key: String,
}

impl View for Incr {
    type V = Seq<char>;

    closed spec fn view(&self) -> Seq<char> {
        self.key@
    }
}

impl Incr {
    /// Create a new `Incr` command which increments `key`.
    pub fn new(key: String) -> (r: Incr)
        ensures
            r@ == key@,
    {
        Incr { key }
    }

    /// Get the key.
    pub fn key(&self) -> (r: &str)
        ensures
            r@ == self@,
    {
        self.key.as_str()
    }
}

/// A command that opens a transaction block.
#[derive(Debug)]
pub struct Multi {}

impl Multi {
    /// Create a new `Multi` command.
    pub fn new() -> (r: Multi)
        ensures
            r == (Multi {  }),
    {
        Multi {  }
    }
}

impl Default for Multi {
    fn default() -> (r: Multi)
        ensures
            r == (Multi {  }),
    {
        Multi {  }
    }
}

/// A command that discards a pending transaction block.
#[derive(Debug)]
pub struct Discard {}

impl Discard {
    /// Create a new `Discard` command.
    pub fn new() -> (r: Discard)
        ensures
            r == (Discard {  }),
    {
        Discard {  }
    }
}

impl Default for Discard {
    fn default() -> (r: Discard)
        ensures
            r == (Discard {  }),
    {
        Discard {  }
    }
}

/// A command that runs a pending transaction block.
#[derive(Debug)]
pub struct Exec {}

impl Exec {
    /// Create a new `Exec` command.
    pub fn new() -> (r: Exec)
        ensures
            r == (Exec {  }),
    {
        Exec {  }
    }
}

impl Default for Exec {
    fn default() -> (r: Exec)
        ensures
            r == (Exec {  }),
    {
        Exec {  }
    }
}

} // verus!
