//! Configuration edits.
//!
//! Loading and saving the configuration file is I/O and happens outside;
//! these are the edits the command-line surface applies to the in-memory
//! value before saving it back.

use vstd::prelude::*;

verus! {

use crate::error::Error;
use crate::token::{dec_digits, render_u64};
use crate::types::{Config, ExcludePattern, RemoteDeleteBehavior, SyncDir};

impl Config {
    /// Append a sync directory pair.
    pub fn add_sync_dir(&mut self, source_path: String, remote_root: String)
        ensures
            final(self).sync_dirs@ == old(self).sync_dirs@.push(
                SyncDir { source_path: source_path, remote_root: remote_root },
            ),
            final(self).sync_concurrency == old(self).sync_concurrency,
            final(self).remote_delete_behavior == old(self).remote_delete_behavior,
            final(self).dashboard_host == old(self).dashboard_host,
            final(self).dashboard_port == old(self).dashboard_port,
            final(self).exclude_patterns@ == old(self).exclude_patterns@,
    {
        self.sync_dirs.push(SyncDir { source_path, remote_root });
    }

    /// Remove the sync directory at `index`.  Fails exactly when the index
    /// is out of bounds, leaving the configuration unchanged.
    pub fn remove_sync_dir(&mut self, index: usize) -> (r: Result<(), Error>)
        ensures
            final(self).sync_concurrency == old(self).sync_concurrency,
            final(self).remote_delete_behavior == old(self).remote_delete_behavior,
            final(self).dashboard_host == old(self).dashboard_host,
            final(self).dashboard_port == old(self).dashboard_port,
            final(self).exclude_patterns@ == old(self).exclude_patterns@,
            match r {
                Ok(_) => index < old(self).sync_dirs@.len()
                    && final(self).sync_dirs@ == old(self).sync_dirs@.remove(index as int),
                Err(e) => index >= old(self).sync_dirs@.len()
                    && final(self).sync_dirs@ == old(self).sync_dirs@
                    && (e matches Error::Config(m) && m@
                    == "Invalid sync directory index: "@ + dec_digits(index as nat)),
            },
    {
        if index >= self.sync_dirs.len() {
            let mut message = "Invalid sync directory index: ".to_owned();
            let rendered = render_u64(index as u64);
            message.append(rendered.as_str());
            return Err(Error::Config(message));
        }
        self.sync_dirs.remove(index);
        Ok(())
    }

    /// Set the bound on concurrent in-flight jobs.
    pub fn set_concurrency(&mut self, concurrency: usize)
        ensures
            final(self).sync_concurrency == concurrency,
            final(self).sync_dirs@ == old(self).sync_dirs@,
            final(self).remote_delete_behavior == old(self).remote_delete_behavior,
            final(self).dashboard_host == old(self).dashboard_host,
            final(self).dashboard_port == old(self).dashboard_port,
            final(self).exclude_patterns@ == old(self).exclude_patterns@,
    {
        self.sync_concurrency = concurrency;
    }

    /// Set what a remote delete does.
    pub fn set_remote_delete_behavior(&mut self, behavior: RemoteDeleteBehavior)
        ensures
            final(self).remote_delete_behavior == behavior,
            final(self).sync_dirs@ == old(self).sync_dirs@,
            final(self).sync_concurrency == old(self).sync_concurrency,
            final(self).dashboard_host == old(self).dashboard_host,
            final(self).dashboard_port == old(self).dashboard_port,
            final(self).exclude_patterns@ == old(self).exclude_patterns@,
    {
        self.remote_delete_behavior = behavior;
    }

    /// Append an exclusion pattern.
    pub fn add_exclude_pattern(&mut self, path: String, globs: Vec<String>)
        ensures
            final(self).exclude_patterns@ == old(self).exclude_patterns@.push(
                ExcludePattern { path: path, globs: globs },
            ),
            final(self).sync_dirs@ == old(self).sync_dirs@,
            final(self).sync_concurrency == old(self).sync_concurrency,
            final(self).remote_delete_behavior == old(self).remote_delete_behavior,
            final(self).dashboard_host == old(self).dashboard_host,
            final(self).dashboard_port == old(self).dashboard_port,
    {
        self.exclude_patterns.push(ExcludePattern { path, globs });
    }

    /// Remove the exclusion pattern at `index`.  Fails exactly when the
    /// index is out of bounds, leaving the configuration unchanged.
    pub fn remove_exclude_pattern(&mut self, index: usize) -> (r: Result<(), Error>)
        ensures
            final(self).sync_dirs@ == old(self).sync_dirs@,
            final(self).sync_concurrency == old(self).sync_concurrency,
            final(self).remote_delete_behavior == old(self).remote_delete_behavior,
            final(self).dashboard_host == old(self).dashboard_host,
            final(self).dashboard_port == old(self).dashboard_port,
            match r {
                Ok(_) => index < old(self).exclude_patterns@.len()
                    && final(self).exclude_patterns@ == old(self).exclude_patterns@.remove(
                    index as int,
                ),
                Err(e) => index >= old(self).exclude_patterns@.len()
                    && final(self).exclude_patterns@ == old(self).exclude_patterns@
                    && (e matches Error::Config(m) && m@
                    == "Invalid exclude pattern index: "@ + dec_digits(index as nat)),
            },
    {
        if index >= self.exclude_patterns.len() {
            let mut message = "Invalid exclude pattern index: ".to_owned();
            let rendered = render_u64(index as u64);
            message.append(rendered.as_str());
            return Err(Error::Config(message));
        }
        self.exclude_patterns.remove(index);
        Ok(())
    }
}

} // verus!
