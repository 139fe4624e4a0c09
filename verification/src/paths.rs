//! Where muscli keeps its files.
//!
//! The four base directories come from the platform's conventions, found by
//! the program; every file muscli uses is a fixed name within one of them.

use vstd::prelude::*;

use crate::pathname::{join_path, path_join};
use crate::text::{chars_of, string_of};

verus! {

#[derive(Debug, Clone)]
pub struct AppPaths {
    pub config_dir: String,
    pub data_dir: String,
    pub cache_dir: String,
    pub runtime_dir: String,
}

/// `name.sock`, the file name of an IPC socket on Unix.
pub open spec fn socket_name(name: Seq<char>) -> Seq<char> {
    name + seq!['.', 's', 'o', 'c', 'k']
}

/// The path of the IPC endpoint called `name`: a socket in the runtime
/// directory.
pub fn ipc_path(name: &str, runtime_dir: &str) -> (p: String)
    ensures
        p@ == path_join(runtime_dir@, socket_name(name@)),
{
    let mut file = chars_of(name);
    file.push('.');
    file.push('s');
    file.push('o');
    file.push('c');
    file.push('k');
    join_path(runtime_dir, string_of(&file).as_str())
}

impl AppPaths {
    /// The directories every file of muscli is in, in the order they are
    /// created: configuration, data, cache, runtime and the cover cache.
    pub fn directories(&self) -> (dirs: Vec<String>)
        ensures
            dirs@.len() == 5,
            dirs@[0]@ == self.config_dir@,
            dirs@[1]@ == self.data_dir@,
            dirs@[2]@ == self.cache_dir@,
            dirs@[3]@ == self.runtime_dir@,
            dirs@[4]@ == path_join(self.cache_dir@, "covers"@),
    {
        let mut dirs: Vec<String> = Vec::new();
        dirs.push(self.config_dir.clone());
        dirs.push(self.data_dir.clone());
        dirs.push(self.cache_dir.clone());
        dirs.push(self.runtime_dir.clone());
        dirs.push(self.cover_cache_dir());
        dirs
    }

    pub fn config_file(&self) -> (p: String)
        ensures
            p@ == path_join(self.config_dir@, "config.toml"@),
    {
        join_path(self.config_dir.as_str(), "config.toml")
    }

    pub fn database_file(&self) -> (p: String)
        ensures
            p@ == path_join(self.data_dir@, "library.db"@),
    {
        join_path(self.data_dir.as_str(), "library.db")
    }

    pub fn cover_cache_dir(&self) -> (p: String)
        ensures
            p@ == path_join(self.cache_dir@, "covers"@),
    {
        join_path(self.cache_dir.as_str(), "covers")
    }

    pub fn mpv_socket(&self) -> (p: String)
        ensures
            p@ == path_join(self.runtime_dir@, socket_name("mpv"@)),
    {
        ipc_path("mpv", self.runtime_dir.as_str())
    }

    pub fn lock_file(&self) -> (p: String)
        ensures
            p@ == path_join(self.runtime_dir@, "instance.lock"@),
    {
        join_path(self.runtime_dir.as_str(), "instance.lock")
    }

    pub fn control_socket(&self) -> (p: String)
        ensures
            p@ == path_join(self.runtime_dir@, socket_name("control"@)),
    {
        ipc_path("control", self.runtime_dir.as_str())
    }

    pub fn image_protocol_file(&self) -> (p: String)
        ensures
            p@ == path_join(self.data_dir@, "image-protocol.txt"@),
    {
        join_path(self.data_dir.as_str(), "image-protocol.txt")
    }
}

} // verus!
