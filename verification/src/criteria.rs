use vstd::prelude::*;

verus! {

/// Metadata of a directory entry, as far as it could be fetched: the size in
/// bytes always comes with it, the modification time (seconds since the Unix
/// epoch, UTC) may be unavailable on its own.
#[derive(Clone, Copy, Debug)]
pub struct FileMeta {
    pub size: u64,
    pub modified: Option<i64>,
}

/// A bound configuration whose minimum exceeds its maximum is refused before
/// any file system access.
#[derive(Clone, Copy, Debug, PartialEq, Eq, Structural)]
pub enum ConfigError {
    SizeBoundsInconsistent,
    TimeBoundsInconsistent,
}

/// The immutable filter configuration: extension allow-list, optional size
/// and modification-time bounds, exclude patterns, traversal depth, the
/// ignore-file toggle and the lock-file toggle.  Built once, read-only
/// afterwards.
pub struct FilterCriteria {
    /// Allowed extensions, compared byte for byte.
    pub extensions: Vec<Vec<u8>>,
    /// Upper size bound in bytes, inclusive.
    pub smaller_than: Option<u64>,
    /// Lower size bound in bytes, inclusive.
    pub larger_than: Option<u64>,
    /// Lower modification-time bound, seconds since the epoch, inclusive.
    pub newer_than: Option<i64>,
    /// Upper modification-time bound, seconds since the epoch, inclusive.
    pub older_than: Option<i64>,
    /// Patterns excluded from traversal, handed to the walker as extra
    /// ignore rules.
    pub exclude: Vec<Vec<u8>>,
    /// Maximum traversal depth, unbounded when absent.
    pub depth: Option<usize>,
    /// Whether conventional ignore files are honored during traversal.
    pub skip_gitignore: bool,
    /// Whether the dependency lock file may appear in the output.
    pub include_lock: bool,
}

/// The size bounds are consistent when the lower one does not exceed the
/// upper one.
pub open spec fn size_bounds_ok(smaller_than: Option<u64>, larger_than: Option<u64>) -> bool {
    !(smaller_than is Some && larger_than is Some && larger_than->0 > smaller_than->0)
}

/// The time bounds are consistent when the lower one does not exceed the
/// upper one.
pub open spec fn time_bounds_ok(newer_than: Option<i64>, older_than: Option<i64>) -> bool {
    !(newer_than is Some && older_than is Some && newer_than->0 > older_than->0)
}

impl FilterCriteria {
    /// Builds the configuration, refusing inconsistent bounds before anything
    /// else runs: an error comes exactly when a minimum exceeds its maximum,
    /// the size bounds being checked first.
    pub fn new(
        extensions: Vec<Vec<u8>>,
        smaller_than: Option<u64>,
        larger_than: Option<u64>,
        newer_than: Option<i64>,
        older_than: Option<i64>,
        exclude: Vec<Vec<u8>>,
        depth: Option<usize>,
        skip_gitignore: bool,
        include_lock: bool,
    ) -> (r: Result<FilterCriteria, ConfigError>)
        ensures
            match r {
                Ok(c) => {
                    &&& size_bounds_ok(smaller_than, larger_than)
                    &&& time_bounds_ok(newer_than, older_than)
                    &&& c.extensions == extensions
                    &&& c.smaller_than == smaller_than
                    &&& c.larger_than == larger_than
                    &&& c.newer_than == newer_than
                    &&& c.older_than == older_than
                    &&& c.exclude == exclude
                    &&& c.depth == depth
                    &&& c.skip_gitignore == skip_gitignore
                    &&& c.include_lock == include_lock
                },
                Err(e) => {
                    &&& !(size_bounds_ok(smaller_than, larger_than) && time_bounds_ok(
                        newer_than,
                        older_than,
                    ))
                    &&& e == (if !size_bounds_ok(smaller_than, larger_than) {
                        ConfigError::SizeBoundsInconsistent
                    } else {
                        ConfigError::TimeBoundsInconsistent
                    })
                },
            },
    {
        if let (Some(st), Some(lt)) = (smaller_than, larger_than) {
            if lt > st {
                return Err(ConfigError::SizeBoundsInconsistent);
            }
        }
        if let (Some(nt), Some(ot)) = (newer_than, older_than) {
            if nt > ot {
                return Err(ConfigError::TimeBoundsInconsistent);
            }
        }
        Ok(
            FilterCriteria {
                extensions,
                smaller_than,
                larger_than,
                newer_than,
                older_than,
                exclude,
                depth,
                skip_gitignore,
                include_lock,
            },
        )
    }
}

} // verus!
