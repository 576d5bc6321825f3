//! In-memory client configuration: the known storage servers and which
//! one is active. Reading and writing the configuration file is the
//! surrounding process's concern; this module owns the selection rules.

use vstd::prelude::*;
use vstd::string::StringExecFns;

verus! {

/// One storage server: where it is and how to authenticate against it.
#[derive(Debug, Clone)]
pub struct MinioConfig {
    pub endpoint_url: String,
    pub access_key: String,
    pub secret_key: String,
    pub alias: Option<String>,
}

/// The client configuration: every known server and the index of the
/// active one, if any was chosen.
#[derive(Debug)]
pub struct RustySyncConfig {
    pub minio_servers: Vec<MinioConfig>,
    pub current_server: Option<usize>,
}

impl Default for RustySyncConfig {
    /// A fresh configuration knows no servers and has none selected.
    fn default() -> (r: RustySyncConfig)
        ensures
            r.minio_servers@.len() == 0,
            r.current_server is None,
    {
        RustySyncConfig { minio_servers: Vec::new(), current_server: None }
    }
}

impl RustySyncConfig {
    /// Register one more server. Never fails; persisting the grown
    /// configuration is the caller's concern.
    pub fn add_server(&mut self, config: MinioConfig) -> (r: Result<(), String>)
        ensures
            r is Ok,
            final(self).minio_servers@ == old(self).minio_servers@.push(config),
            final(self).current_server == old(self).current_server,
    {
        self.minio_servers.push(config);
        Ok(())
    }

    /// The active server: the selected one, or the first where none was
    /// ever selected. Fails when no server is configured or the selection
    /// points past the end.
    pub fn get_current_server(&self) -> (r: Result<&MinioConfig, String>)
        ensures
            self.minio_servers@.len() == 0 ==> r is Err,
            self.minio_servers@.len() > 0 ==> {
                let idx = match self.current_server {
                    Some(i) => i,
                    None => 0,
                };
                if idx < self.minio_servers@.len() {
                    r matches Ok(c) && *c == self.minio_servers@[idx as int]
                } else {
                    r is Err
                }
            },
    {
        if self.minio_servers.len() == 0 {
            return Err(String::from_str("no servers are configured"));
        }
        let index = match self.current_server {
            Some(i) => i,
            None => 0,
        };
        if index >= self.minio_servers.len() {
            return Err(String::from_str("the selected server index is out of range"));
        }
        Ok(&self.minio_servers[index])
    }

    /// Select the active server. Fails, changing nothing, when the index
    /// does not name a configured server.
    pub fn set_current_server(&mut self, index: usize) -> (r: Result<(), String>)
        ensures
            index < old(self).minio_servers@.len() ==> r is Ok && final(self).current_server
                == Some(index) && final(self).minio_servers@ == old(self).minio_servers@,
            index >= old(self).minio_servers@.len() ==> r is Err && *final(self) == *old(self),
    {
        if index >= self.minio_servers.len() {
            return Err(String::from_str("the server index is out of range"));
        }
        self.current_server = Some(index);
        Ok(())
    }
}

} // verus!
