use vstd::prelude::*;

verus! {

/// The settings of one walk. They do not change while the walk lasts.
#[derive(Clone, Copy, Debug, PartialEq, Eq)]
pub struct WalkerConfig {
    /// Whether subdirectories are entered at all.
    pub recurse: bool,
    /// The greatest number of directories that may be open at once, the root
    /// included. Never zero.
    pub max_depth: usize,
    /// Whether recoverable faults produce a diagnostic line.
    pub debug_logging: bool,
}

impl WalkerConfig {
    /// A configuration is well formed when its depth bound is positive.
    pub open spec fn wf(self) -> bool {
        self.max_depth >= 1
    }

    /// Builds a configuration; a depth bound of zero is refused.
    pub fn new(recurse: bool, max_depth: usize, debug_logging: bool) -> (r: Option<WalkerConfig>)
        ensures
            r is Some <==> max_depth >= 1,
            r is Some ==> r.unwrap() == (WalkerConfig { recurse, max_depth, debug_logging }),
            r is Some ==> r.unwrap().wf(),
    {
        if max_depth == 0 {
            None
        } else {
            Some(WalkerConfig { recurse, max_depth, debug_logging })
        }
    }

    /// A recursive walk whose depth is bounded only by the machine.
    pub fn unbounded(debug_logging: bool) -> (c: WalkerConfig)
        ensures
            c == (WalkerConfig { recurse: true, max_depth: usize::MAX, debug_logging }),
            c.wf(),
    {
        WalkerConfig { recurse: true, max_depth: usize::MAX, debug_logging }
    }

    /// A walk that lists the root directory only.
    pub fn flat(debug_logging: bool) -> (c: WalkerConfig)
        ensures
            c == (WalkerConfig { recurse: false, max_depth: 1, debug_logging }),
            c.wf(),
    {
        WalkerConfig { recurse: false, max_depth: 1, debug_logging }
    }
}

} // verus!
