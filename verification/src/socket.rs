//! Configuration of the listening endpoint.
//!
//! The endpoint is a filesystem-addressed socket: a path to bind, the
//! access mode to apply to it, and whether accepting suspends the caller
//! until a client connects.  Binding, permissioning and accepting are
//! system calls and live with the caller; what is verified here is that
//! the configuration handed over is exactly the one assembled.

use vstd::prelude::*;

verus! {

/// What the listening endpoint is created with.  One endpoint serves the
/// whole process lifetime; connections are accepted one at a time.
pub struct SocketConfig {
    /// The filesystem path to bind; binding fails if it already exists.
    pub path: String,
    /// The access mode applied to the path after creation.
    pub permissions: u32,
    /// False here: accepting blocks until a client connects.
    pub nonblocking: bool,
}

/// Step-by-step assembly of a [`SocketConfig`].
pub struct SocketBuilder {
    pub path: String,
    pub permissions: u32,
    pub nonblocking: bool,
}

impl SocketBuilder {
    /// A builder with an empty path, owner-only access, blocking accepts.
    pub fn new() -> (b: SocketBuilder)
        ensures
            b.path@ == Seq::<char>::empty(),
            b.permissions == 0o700u32,
            !b.nonblocking,
    {
        SocketBuilder { path: String::new(), permissions: 0o700, nonblocking: false }
    }

    /// The same builder with the path replaced.
    pub fn with_path(self, path: &str) -> (b: SocketBuilder)
        ensures
            b.path@ == path@,
            b.permissions == self.permissions,
            b.nonblocking == self.nonblocking,
    {
        SocketBuilder { path: path.to_owned(), ..self }
    }

    /// The same builder with the access mode replaced.
    pub fn with_permissions(self, permissions: u32) -> (b: SocketBuilder)
        ensures
            b.path@ == self.path@,
            b.permissions == permissions,
            b.nonblocking == self.nonblocking,
    {
        SocketBuilder { permissions, ..self }
    }

    /// The same builder with the blocking mode replaced.
    pub fn nonblocking(self, nonblocking: bool) -> (b: SocketBuilder)
        ensures
            b.path@ == self.path@,
            b.permissions == self.permissions,
            b.nonblocking == nonblocking,
    {
        SocketBuilder { nonblocking, ..self }
    }

    /// The finished configuration: exactly what was assembled.
    pub fn build(self) -> (c: SocketConfig)
        ensures
            c.path@ == self.path@,
            c.permissions == self.permissions,
            c.nonblocking == self.nonblocking,
    {
        SocketConfig {
            path: self.path,
            permissions: self.permissions,
            nonblocking: self.nonblocking,
        }
    }
}

} // verus!
