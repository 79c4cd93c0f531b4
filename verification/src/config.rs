//! Settings of the store: what a configuration file holds, and the builder
//! that turns it into a store.

use crate::state::Settings;
use vstd::prelude::*;

verus! {

/// Where the store keeps its files unless told otherwise.
pub const DEFAULT_DISK_ROOT: &'static str = "edge_store_data";

/// Configuration of the store as it stands in the server's YAML file.
///
/// The keys are top-level and start with `edge-cdn-cache-`, so that they do not
/// collide with those of the server.
#[derive(Debug, Clone, PartialEq, Eq)]
pub struct EdgeStoreConfig {
    /// Root directory for on-disk data (`edge-cdn-cache-disk-root`).
    pub disk_root: Option<String>,
    /// Cap on the body bytes on disk, enforced approximately when a write
    /// finishes (`edge-cdn-cache-max-disk-bytes`).
    pub max_disk_bytes: Option<usize>,
    /// Cap on a single body, enforced on every write and when it finishes
    /// (`edge-cdn-cache-max-object-bytes`).
    pub max_object_bytes: Option<usize>,
    /// Cap on writes in progress, enforced on admission
    /// (`edge-cdn-cache-max-partial-writes`).
    pub max_partial_writes: Option<usize>,
    /// Whether an entry is published by renaming a complete directory
    /// (`edge-cdn-cache-atomic-publish`). On unless switched off.
    pub atomic_publish: Option<bool>,
    /// Whether disk I/O may go through io_uring
    /// (`edge-cdn-cache-io-uring-enabled`). Off unless switched on.
    pub io_uring_enabled: Option<bool>,
    /// Meant as a bound on how much of a body in progress stays in memory
    /// (`edge-cdn-cache-max-in-mem-partial-bytes`). The setting is carried, and
    /// nothing acts on it: bodies in progress are in memory as a whole.
    pub max_in_mem_partial_bytes: Option<usize>,
}

impl Default for EdgeStoreConfig {
    /// Nothing set.
    fn default() -> (cfg: EdgeStoreConfig)
        ensures
            cfg == EdgeStoreConfig::unset(),
    {
        EdgeStoreConfig {
            disk_root: None,
            max_disk_bytes: None,
            max_object_bytes: None,
            max_partial_writes: None,
            atomic_publish: None,
            io_uring_enabled: None,
            max_in_mem_partial_bytes: None,
        }
    }
}

impl EdgeStoreConfig {
    /// Nothing set.
    pub open spec fn unset() -> EdgeStoreConfig {
        EdgeStoreConfig {
            disk_root: None,
            max_disk_bytes: None,
            max_object_bytes: None,
            max_partial_writes: None,
            atomic_publish: None,
            io_uring_enabled: None,
            max_in_mem_partial_bytes: None,
        }
    }

    /// The root directory under this configuration and environment.
    pub open spec fn root(&self, env_root: Option<String>) -> Seq<char> {
        if self.disk_root is Some {
            self.disk_root->0@
        } else if env_root is Some {
            env_root->0@
        } else {
            DEFAULT_DISK_ROOT@
        }
    }

    /// What a store with this configuration works with.
    pub open spec fn settings(&self, env_root: Option<String>) -> Settings {
        Settings {
            disk_root: self.root(env_root),
            max_object_bytes: self.max_object_bytes,
            max_partial_writes: self.max_partial_writes,
            max_disk_bytes: self.max_disk_bytes,
            atomic_publish: self.atomic_publish != Some(false),
            io_uring_enabled: self.io_uring_enabled == Some(true),
            max_in_mem_partial_bytes: self.max_in_mem_partial_bytes,
        }
    }

    /// Takes the configuration that a file was parsed into. A file that is
    /// missing or malformed counts as one that sets nothing.
    pub fn from_parsed(parsed: Option<EdgeStoreConfig>) -> (cfg: EdgeStoreConfig)
        ensures
            cfg == if parsed is Some {
                parsed->0
            } else {
                EdgeStoreConfig::unset()
            },
    {
        match parsed {
            Some(cfg) => cfg,
            None => EdgeStoreConfig::default(),
        }
    }

    /// The root directory: the configured one, else the one that the
    /// environment variable `EDGE_STORE_DIR` gives, else the default.
    pub fn resolve_disk_root(&self, env_root: Option<String>) -> (root: String)
        ensures
            root@ == self.root(env_root),
    {
        if let Some(root) = &self.disk_root {
            return root.clone();
        }
        if let Some(root) = env_root {
            return root;
        }
        DEFAULT_DISK_ROOT.to_owned()
    }
}

/// Collects settings, then builds the store.
#[derive(Debug, Clone, PartialEq, Eq)]
pub struct EdgeMemoryStorageBuilder {
    pub disk_root: String,
    pub max_disk_bytes: Option<usize>,
    pub max_object_bytes: Option<usize>,
    pub max_partial_writes: Option<usize>,
    pub atomic_publish: Option<bool>,
    pub io_uring_enabled: Option<bool>,
    pub max_in_mem_partial_bytes: Option<usize>,
}

impl Default for EdgeMemoryStorageBuilder {
    /// Nothing set, not even a root directory.
    fn default() -> (b: EdgeMemoryStorageBuilder)
        ensures
            b.disk_root@ == Seq::<char>::empty(),
            b == (EdgeMemoryStorageBuilder {
                disk_root: b.disk_root,
                max_disk_bytes: None,
                max_object_bytes: None,
                max_partial_writes: None,
                atomic_publish: None,
                io_uring_enabled: None,
                max_in_mem_partial_bytes: None,
            }),
    {
        EdgeMemoryStorageBuilder {
            disk_root: String::new(),
            max_disk_bytes: None,
            max_object_bytes: None,
            max_partial_writes: None,
            atomic_publish: None,
            io_uring_enabled: None,
            max_in_mem_partial_bytes: None,
        }
    }
}

impl EdgeMemoryStorageBuilder {
    /// What a store that is built now works with. Atomic publishing is on and
    /// io_uring is off unless they are set.
    pub open spec fn settings(&self) -> Settings {
        Settings {
            disk_root: self.disk_root@,
            max_object_bytes: self.max_object_bytes,
            max_partial_writes: self.max_partial_writes,
            max_disk_bytes: self.max_disk_bytes,
            atomic_publish: self.atomic_publish != Some(false),
            io_uring_enabled: self.io_uring_enabled == Some(true),
            max_in_mem_partial_bytes: self.max_in_mem_partial_bytes,
        }
    }

    /// No limits, default switches, and files under `edge_store_data`.
    pub fn new() -> (b: EdgeMemoryStorageBuilder)
        ensures
            b.disk_root@ == DEFAULT_DISK_ROOT@,
            b.max_disk_bytes is None,
            b.max_object_bytes is None,
            b.max_partial_writes is None,
            b.atomic_publish is None,
            b.io_uring_enabled is None,
            b.max_in_mem_partial_bytes is None,
    {
        EdgeMemoryStorageBuilder {
            disk_root: DEFAULT_DISK_ROOT.to_owned(),
            max_disk_bytes: None,
            max_object_bytes: None,
            max_partial_writes: None,
            atomic_publish: None,
            io_uring_enabled: None,
            max_in_mem_partial_bytes: None,
        }
    }

    /// Sets the root directory for on-disk data.
    pub fn with_disk_root(self, root: String) -> (b: EdgeMemoryStorageBuilder)
        ensures
            b == (EdgeMemoryStorageBuilder { disk_root: root, ..self }),
    {
        let mut b = self;
        b.disk_root = root;
        b
    }

    /// Sets the cap on body bytes on disk.
    pub fn with_max_disk_bytes(self, v: Option<usize>) -> (b: EdgeMemoryStorageBuilder)
        ensures
            b == (EdgeMemoryStorageBuilder { max_disk_bytes: v, ..self }),
    {
        let mut b = self;
        b.max_disk_bytes = v;
        b
    }

    /// Sets the cap on a single body.
    pub fn with_max_object_bytes(self, v: Option<usize>) -> (b: EdgeMemoryStorageBuilder)
        ensures
            b == (EdgeMemoryStorageBuilder { max_object_bytes: v, ..self }),
    {
        let mut b = self;
        b.max_object_bytes = v;
        b
    }

    /// Sets the cap on writes in progress.
    pub fn with_max_partial_writes(self, v: Option<usize>) -> (b: EdgeMemoryStorageBuilder)
        ensures
            b == (EdgeMemoryStorageBuilder { max_partial_writes: v, ..self }),
    {
        let mut b = self;
        b.max_partial_writes = v;
        b
    }

    /// Switches atomic publishing.
    pub fn with_atomic_publish(self, v: Option<bool>) -> (b: EdgeMemoryStorageBuilder)
        ensures
            b == (EdgeMemoryStorageBuilder { atomic_publish: v, ..self }),
    {
        let mut b = self;
        b.atomic_publish = v;
        b
    }

    /// Switches io_uring.
    pub fn with_io_uring_enabled(self, v: Option<bool>) -> (b: EdgeMemoryStorageBuilder)
        ensures
            b == (EdgeMemoryStorageBuilder { io_uring_enabled: v, ..self }),
    {
        let mut b = self;
        b.io_uring_enabled = v;
        b
    }

    /// Sets the bound for bodies in progress, which is only carried.
    pub fn with_max_in_mem_partial_bytes(self, v: Option<usize>) -> (b: EdgeMemoryStorageBuilder)
        ensures
            b == (EdgeMemoryStorageBuilder { max_in_mem_partial_bytes: v, ..self }),
    {
        let mut b = self;
        b.max_in_mem_partial_bytes = v;
        b
    }
}

/// Where a store keeps its files: where the configuration says, else where the
/// environment says, else in the default place. The configuration is asked first
/// even where the environment says something.
pub proof fn law_root_directory(cfg: EdgeStoreConfig, env_root: Option<String>)
    ensures
        cfg.disk_root is Some ==> cfg.root(env_root) == cfg.disk_root->0@,
        cfg.disk_root is None && env_root is Some ==> cfg.root(env_root) == env_root->0@,
        cfg.disk_root is None && env_root is None ==> cfg.root(env_root) == "edge_store_data"@,
{
}

/// A store works with the limits that its builder was given, with none where none
/// was given. Atomic publishing is on unless it was switched off, and io_uring off
/// unless it was switched on.
pub proof fn law_builder_settings(b: EdgeMemoryStorageBuilder)
    ensures
        b.settings().disk_root == b.disk_root@,
        b.settings().max_object_bytes == b.max_object_bytes,
        b.settings().max_partial_writes == b.max_partial_writes,
        b.settings().max_disk_bytes == b.max_disk_bytes,
        b.settings().max_in_mem_partial_bytes == b.max_in_mem_partial_bytes,
        b.atomic_publish is None ==> b.settings().atomic_publish,
        b.atomic_publish is Some ==> b.settings().atomic_publish == b.atomic_publish->0,
        b.io_uring_enabled is None ==> !b.settings().io_uring_enabled,
        b.io_uring_enabled is Some ==> b.settings().io_uring_enabled == b.io_uring_enabled->0,
{
}

/// A store that is made from a configuration works with what a builder gives that
/// was told the same. One that sets nothing means no limits, and the default
/// switches.
pub proof fn law_config_settings(
    cfg: EdgeStoreConfig,
    env_root: Option<String>,
    b: EdgeMemoryStorageBuilder,
)
    requires
        b.disk_root@ == cfg.root(env_root),
        b.max_disk_bytes == cfg.max_disk_bytes,
        b.max_object_bytes == cfg.max_object_bytes,
        b.max_partial_writes == cfg.max_partial_writes,
        b.atomic_publish == cfg.atomic_publish,
        b.io_uring_enabled == cfg.io_uring_enabled,
        b.max_in_mem_partial_bytes == cfg.max_in_mem_partial_bytes,
    ensures
        cfg.settings(env_root) == b.settings(),
        EdgeStoreConfig::unset().settings(env_root) == Settings::unlimited(
            if env_root is Some {
                env_root->0@
            } else {
                "edge_store_data"@
            },
        ),
        ({
            let none = Settings::unlimited(b.disk_root@);
            &&& none.disk_root == b.disk_root@
            &&& none.max_disk_bytes is None
            &&& none.max_object_bytes is None
            &&& none.max_partial_writes is None
            &&& none.max_in_mem_partial_bytes is None
            &&& none.atomic_publish
            &&& !none.io_uring_enabled
        }),
{
}

} // verus!
