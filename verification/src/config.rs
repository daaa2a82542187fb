//! Configuration of the document database: where it keeps its files, and
//! how deleted records are treated.
use vstd::prelude::*;
use crate::db_error::DbError;
use crate::hex_text::hex_text;
use crate::partition_key::PartitionId;
use crate::paths::{join_path, path_join};
use crate::table::VTableId;

verus! {

/// Directory of the database when the configuration names none.
pub const DEFAULT_DB_DIRECTORY: &'static str = "/tmp/.docbuf/db/";

/// Settings of the remote procedure call service; every part is optional.
#[derive(Debug, Clone)]
pub struct DocBufDbRpcConfig {
    /// Address of the server, as `host:port` text.
    pub server: Option<String>,
    pub priv_key: Option<String>,
    pub cert_chain: Option<String>,
    pub root_cert: Option<String>,
}

impl Default for DocBufDbRpcConfig {
    fn default() -> (r: Self)
        ensures
            r.server is None,
            r.priv_key is None,
            r.cert_chain is None,
            r.root_cert is None,
    {
        DocBufDbRpcConfig { server: None, priv_key: None, cert_chain: None, root_cert: None }
    }
}

/// Options of the database.
#[derive(Debug, Clone)]
pub struct DocBufDbConfig {
    /// Root directory of the database.
    pub directory: Option<String>,
    /// Whether deleted records are zeroed out in place instead of removed.
    pub tombstone: Option<bool>,
    pub rpc: Option<DocBufDbRpcConfig>,
}

impl Default for DocBufDbConfig {
    fn default() -> (r: Self)
        ensures
            r.directory is None,
            r.tombstone is None,
            r.rpc is None,
    {
        DocBufDbConfig { directory: None, tombstone: None, rpc: None }
    }
}

/// The directory that holds the vtables, under the root `dir`.
pub open spec fn vtables_path(dir: Seq<char>) -> Seq<char> {
    path_join(dir, "vtables"@)
}

/// The directory of one vtable, named by its identifier in hex.
pub open spec fn vtable_dir_path(dir: Seq<char>, id: Seq<u8>) -> Seq<char> {
    path_join(vtables_path(dir), hex_text(id))
}

/// A file in the directory of the vtable `id`, named by the identifier in hex
/// and the extension `ext` (which starts with a dot).
pub open spec fn vtable_member_path(dir: Seq<char>, id: Seq<u8>, stem: Seq<char>, ext: Seq<char>) -> Seq<char> {
    path_join(vtable_dir_path(dir, id), stem + ext)
}

/// The hex text of a partition number: two bytes, high byte first.
pub open spec fn partition_hex(p: u16) -> Seq<char> {
    hex_text(seq![(p / 256) as u8, (p % 256) as u8])
}

impl DocBufDbConfig {
    /// The configuration with the given RPC settings.
    pub fn set_rpc(self, rpc: DocBufDbRpcConfig) -> (r: Self)
        ensures
            r.rpc == Some(rpc),
            r.directory == self.directory,
            r.tombstone == self.tombstone,
    {
        let mut c = self;
        c.rpc = Some(rpc);
        c
    }

    /// The RPC settings, if any.
    pub fn rpc(&self) -> (r: Option<&DocBufDbRpcConfig>)
        ensures
            r is Some <==> self.rpc is Some,
            r is Some ==> *r.unwrap() == self.rpc.unwrap(),
    {
        self.rpc.as_ref()
    }

    /// The configuration with the tombstone option set: when true, a deleted
    /// record is zeroed out in place instead of removed.
    pub fn set_tombstone(self, tombstone: bool) -> (r: Self)
        ensures
            r.tombstone == Some(tombstone),
            r.directory == self.directory,
            r.rpc == self.rpc,
    {
        let mut c = self;
        c.tombstone = Some(tombstone);
        c
    }

    /// Whether deleted records are tombstoned; by default they are not.
    pub fn tombstone(&self) -> (r: bool)
        ensures
            r == (self.tombstone == Some(true)),
    {
        match self.tombstone {
            Some(t) => t,
            None => false,
        }
    }

    /// The root directory of the database.
    pub fn directory(&self) -> (r: Result<&String, DbError>)
        ensures
            match self.directory {
                Some(d) => r matches Ok(x) && *x == d,
                None => r matches Err(DbError::DirectoryNotSet),
            },
    {
        match &self.directory {
            Some(d) => Ok(d),
            None => Err(DbError::DirectoryNotSet),
        }
    }

    /// The configuration with the given root directory.
    pub fn set_directory(self, directory: String) -> (r: Self)
        ensures
            r.directory == Some(directory),
            r.tombstone == self.tombstone,
            r.rpc == self.rpc,
    {
        let mut c = self;
        c.directory = Some(directory);
        c
    }

    /// Sets the root directory to the default one where none is set, and
    /// returns the directory of the vtables under it, which the caller creates.
    pub fn setup_directory(&mut self) -> (vtables: String)
        ensures
            final(self).tombstone == old(self).tombstone,
            final(self).rpc == old(self).rpc,
            final(self).directory is Some,
            old(self).directory is Some ==> final(self).directory == old(self).directory,
            old(self).directory is None ==> final(self).directory.unwrap()@ == DEFAULT_DB_DIRECTORY@,
            vtables@ == vtables_path(final(self).directory.unwrap()@),
    {
        if self.directory.is_none() {
            self.directory = Some(DEFAULT_DB_DIRECTORY.to_string());
        }
        let dir = match &self.directory {
            Some(d) => d,
            None => {
                proof {
                    assert(false);
                }
                return String::new();
            },
        };
        let v = "vtables";
        proof {
            reveal_strlit("vtables");
        }
        join_path(dir.as_str(), v)
    }

    /// The directory that holds the vtables.
    pub fn vtables_directory(&self) -> (r: Result<String, DbError>)
        ensures
            match self.directory {
                Some(d) => r matches Ok(p) && p@ == vtables_path(d@),
                None => r matches Err(DbError::DirectoryNotSet),
            },
    {
        let dir = self.directory()?;
        let v = "vtables";
        proof {
            reveal_strlit("vtables");
        }
        Ok(join_path(dir.as_str(), v))
    }

    /// The directory that holds the vtables (same as `vtables_directory`).
    pub fn vtable_dir(&self) -> (r: Result<String, DbError>)
        ensures
            match self.directory {
                Some(d) => r matches Ok(p) && p@ == vtables_path(d@),
                None => r matches Err(DbError::DirectoryNotSet),
            },
    {
        self.vtables_directory()
    }

    /// The directory of the vtable `vtable_id`.
    pub fn vtable_directory(&self, vtable_id: &VTableId) -> (r: Result<String, DbError>)
        ensures
            match self.directory {
                Some(d) => r matches Ok(p) && p@ == vtable_dir_path(d@, vtable_id@),
                None => r matches Err(DbError::DirectoryNotSet),
            },
    {
        let dir = self.vtables_directory()?;
        let name = vtable_id.as_hex();
        Ok(join_path(dir.as_str(), name.as_str()))
    }

    /// Joins `stem` followed by `ext` to the directory of the vtable.
    fn vtable_member(&self, vtable_id: &VTableId, stem: String, ext: &str) -> (r: Result<String, DbError>)
        ensures
            match self.directory {
                Some(d) => r matches Ok(p) && p@ == vtable_member_path(d@, vtable_id@, stem@, ext@),
                None => r matches Err(DbError::DirectoryNotSet),
            },
    {
        let dir = self.vtable_directory(vtable_id)?;
        let mut name = stem;
        name.append(ext);
        Ok(join_path(dir.as_str(), name.as_str()))
    }

    /// The file that holds the vtable `vtable_id`.
    pub fn vtable_file(&self, vtable_id: &VTableId) -> (r: Result<String, DbError>)
        ensures
            match self.directory {
                Some(d) => r matches Ok(p) && p@ == vtable_member_path(d@, vtable_id@, hex_text(vtable_id@), ".vtable"@),
                None => r matches Err(DbError::DirectoryNotSet),
            },
    {
        let ext = ".vtable";
        proof {
            reveal_strlit(".vtable");
        }
        self.vtable_member(vtable_id, vtable_id.as_hex(), ext)
    }

    /// The lock file of the vtable `vtable_id`.
    pub fn vtable_lock_file(&self, vtable_id: &VTableId) -> (r: Result<String, DbError>)
        ensures
            match self.directory {
                Some(d) => r matches Ok(p) && p@ == vtable_member_path(d@, vtable_id@, hex_text(vtable_id@), ".lock"@),
                None => r matches Err(DbError::DirectoryNotSet),
            },
    {
        let ext = ".lock";
        proof {
            reveal_strlit(".lock");
        }
        self.vtable_member(vtable_id, vtable_id.as_hex(), ext)
    }

    /// The file of the partition `partition_id` of the vtable `vtable_id`.
    pub fn partition_file_path(&self, vtable_id: &VTableId, partition_id: PartitionId) -> (r: Result<String, DbError>)
        ensures
            match self.directory {
                Some(d) => r matches Ok(p) && p@ == vtable_member_path(d@, vtable_id@, partition_hex(partition_id@), ".dbp"@),
                None => r matches Err(DbError::DirectoryNotSet),
            },
    {
        let ext = ".dbp";
        proof {
            reveal_strlit(".dbp");
        }
        self.vtable_member(vtable_id, partition_id.as_hex(), ext)
    }
}

} // verus!
