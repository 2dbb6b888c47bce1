//! The one-shot publication of the engine's capability table.
//!
//! The native module is located by a fixed per-platform file name, loaded
//! once, and asked once for its table of entry points; the table is then
//! published for the life of the process and never torn down. This module
//! verifies the lifecycle — empty until one publication, then permanent —
//! while the platform work itself (opening the binary, resolving the entry
//! symbol, making the call) happens outside and hands its outcome in.

use vstd::prelude::*;

verus! {

/// Why no capability table could be published.
#[derive(Debug, Clone, PartialEq, Eq)]
pub enum LoadError {
    /// The platform's engine binary could not be found or opened.
    BinaryNotFound,
    /// The binary lacks the entry symbol.
    SymbolNotFound,
    /// The entry point reported a non-zero status byte.
    InitFailed(u8),
    /// A table had already been published.
    AlreadyLoaded,
}

/// The lifecycle of a one-shot publication: permanently loaded afterwards,
/// the first table kept, a repeat publication refused and harmless.
pub open spec fn publish_step<T>(
    pre: Loader<T>,
    post: Loader<T>,
    table: T,
    r: Result<(), LoadError>,
) -> bool {
    &&& post.loaded()
    &&& if pre.loaded() {
        post == pre && r == Err::<(), LoadError>(LoadError::AlreadyLoaded)
    } else {
        post.published() == table && r == Ok::<(), LoadError>(())
    }
}

/// A one-shot cell for the capability table: empty until a table is
/// published, then permanently holding that table. There is no teardown
/// transition, matching an engine binary that is never unloaded.
pub struct Loader<T> {
    table: Option<T>,
}

impl<T> Loader<T> {
    /// Whether a table has been published.
    pub closed spec fn loaded(self) -> bool {
        self.table is Some
    }

    /// The published table.
    pub closed spec fn published(self) -> T {
        self.table->0
    }

    /// An empty loader: nothing published yet.
    pub fn new() -> (r: Loader<T>)
        ensures
            !r.loaded(),
    {
        Loader { table: None }
    }

    /// Whether the native initialization still has to run: it does until a
    /// table has been published.
    pub fn needs_init(&self) -> (r: bool)
        ensures
            r == !self.loaded(),
    {
        self.table.is_none()
    }

    /// Publish the table the native initialization produced. The first
    /// publication wins; a later one changes nothing and says so.
    pub fn publish(&mut self, table: T) -> (r: Result<(), LoadError>)
        ensures
            publish_step(*old(self), *final(self), table, r),
    {
        if self.table.is_some() {
            return Err(LoadError::AlreadyLoaded);
        }
        self.table = Some(table);
        Ok(())
    }

    /// The published capability table. Asking before a successful load is a
    /// programming error, not a recoverable condition, and is excluded here;
    /// the unverified rim checks `needs_init` before calling.
    pub fn api(&self) -> (r: &T)
        requires
            self.loaded(),
        ensures
            *r == self.published(),
    {
        match &self.table {
            Some(t) => t,
            None => vstd::pervasive::unreached(),
        }
    }
}

/// Loading twice performs the initialization exactly once: the first
/// publication installs its table for good, and the second changes nothing,
/// so both callers observe the same published table.
pub proof fn lemma_load_idempotent<T>(
    s0: Loader<T>,
    s1: Loader<T>,
    s2: Loader<T>,
    t1: T,
    t2: T,
    r1: Result<(), LoadError>,
    r2: Result<(), LoadError>,
)
    requires
        !s0.loaded(),
        publish_step(s0, s1, t1, r1),
        publish_step(s1, s2, t2, r2),
    ensures
        r1 is Ok,
        r2 == Err::<(), LoadError>(LoadError::AlreadyLoaded),
        s2 == s1,
        s1.published() == t1,
        s2.published() == t1,
{
}

/// The engine binary's file name under each platform family's convention.
pub enum OsFamily {
    Windows,
    MacOs,
    Unix,
}

/// The fixed file name of the engine binary on the given platform family.
pub fn platform_library_name(family: OsFamily) -> (r: &'static str)
    ensures
        r@ == match family {
            OsFamily::Windows => "ffmodel-c.dll"@,
            OsFamily::MacOs => "libffmodel-c.dylib"@,
            OsFamily::Unix => "libffmodel-c.so"@,
        },
{
    match family {
        OsFamily::Windows => "ffmodel-c.dll",
        OsFamily::MacOs => "libffmodel-c.dylib",
        OsFamily::Unix => "libffmodel-c.so",
    }
}

} // verus!
