use vstd::prelude::*;

verus! {

/// The live configuration of one installed mod: its enabled flag plus the
/// free-form settings text, which the engine preserves verbatim.
pub struct ModConfig {
    pub enabled: bool,
    pub settings: Option<String>,
}

/// Static identity and dependency metadata of one installed mod.
pub struct ModManifest {
    pub unique_name: String,
    pub name: String,
    pub author: String,
    pub version: String,
    pub dependencies: Vec<String>,
    pub conflicts: Vec<String>,
}

/// A successfully parsed installation.
pub struct LocalMod {
    pub manifest: ModManifest,
    pub mod_path: String,
    /// The live configuration, when one exists on disk.
    pub config: Option<ModConfig>,
    /// The bundled default-configuration template, when one exists.
    pub default_config: Option<ModConfig>,
    /// Derived from `config`: enabled exactly when a live configuration
    /// exists and says so.
    pub enabled: bool,
    /// Accumulated non-fatal warnings.
    pub errors: Vec<String>,
}

/// An install directory that could not be parsed.
pub struct FailedMod {
    pub mod_path: String,
    pub display_path: String,
    pub error: String,
}

/// One local database entry: a parsed mod or a failed one. Consumers can
/// enumerate all entries without knowing which variant each is, but only
/// valid entries participate in dependency resolution.
pub enum UnsafeLocalMod {
    Valid(LocalMod),
    Invalid(FailedMod),
}

/// A registry entry, immutable once fetched.
pub struct RemoteMod {
    pub unique_name: String,
    pub name: String,
    pub version: String,
    pub download_url: String,
    pub download_count: u32,
    pub dependencies: Vec<String>,
    pub required: bool,
    pub prerelease: bool,
}

/// The enabled state a configuration file denotes: absent means disabled.
pub open spec fn config_enabled(c: Option<ModConfig>) -> bool {
    match c {
        Some(c) => c.enabled,
        None => false,
    }
}

/// A valid mod's cached `enabled` flag agrees with its configuration.
pub open spec fn local_mod_wf(m: LocalMod) -> bool {
    m.enabled == config_enabled(m.config)
}

impl UnsafeLocalMod {
    /// The key this entry is stored under: the unique name when the manifest
    /// parsed, the install path otherwise.
    pub open spec fn key(&self) -> Seq<char> {
        match self {
            UnsafeLocalMod::Valid(m) => m.manifest.unique_name@,
            UnsafeLocalMod::Invalid(f) => f.mod_path@,
        }
    }

    /// The entry's well-formedness: only the valid variant carries state that
    /// must stay consistent.
    pub open spec fn wf(&self) -> bool {
        match self {
            UnsafeLocalMod::Valid(m) => local_mod_wf(*m),
            UnsafeLocalMod::Invalid(_) => true,
        }
    }

    /// The identifier the entry is addressed by.
    pub fn get_unique_name(&self) -> (r: &String)
        ensures
            r@ == self.key(),
    {
        match self {
            UnsafeLocalMod::Valid(m) => &m.manifest.unique_name,
            UnsafeLocalMod::Invalid(f) => &f.mod_path,
        }
    }

    /// The display name: the manifest's name, or the path for a failed entry.
    pub fn get_name(&self) -> (r: &String)
        ensures
            r@ == match self {
                UnsafeLocalMod::Valid(m) => m.manifest.name@,
                UnsafeLocalMod::Invalid(f) => f.display_path@,
            },
    {
        match self {
            UnsafeLocalMod::Valid(m) => &m.manifest.name,
            UnsafeLocalMod::Invalid(f) => &f.display_path,
        }
    }

    /// How many errors the entry carries: a failed entry counts its one parse
    /// error.
    pub fn num_errs(&self) -> (r: usize)
        ensures
            r == match self {
                UnsafeLocalMod::Valid(m) => m.errors@.len(),
                UnsafeLocalMod::Invalid(_) => 1nat,
            },
    {
        match self {
            UnsafeLocalMod::Valid(m) => m.errors.len(),
            UnsafeLocalMod::Invalid(_) => 1,
        }
    }
}

} // verus!
