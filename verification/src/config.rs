//! The settings of the tool: where the registry is kept, which algorithm new
//! destinations get, and how many versions of a file are kept.

use vstd::prelude::*;

verus! {

/// The general settings.
#[derive(Debug)]
pub struct GeneralConfig {
    pub registry_dir: String,
    pub compression: String,
    pub encryption: bool,
    pub gc_limit: usize,
}

/// All settings.
#[derive(Debug)]
pub struct Config {
    pub general: GeneralConfig,
}

impl Clone for GeneralConfig {
    fn clone(&self) -> (r: Self)
        ensures
            r == *self,
    {
        Self {
            registry_dir: self.registry_dir.clone(),
            compression: self.compression.clone(),
            encryption: self.encryption,
            gc_limit: self.gc_limit,
        }
    }
}

impl Clone for Config {
    fn clone(&self) -> (r: Self)
        ensures
            r == *self,
    {
        Self { general: self.general.clone() }
    }
}

impl PartialEq for GeneralConfig {
    fn eq(&self, other: &Self) -> (r: bool) {
        self.registry_dir == other.registry_dir && self.compression == other.compression
            && self.encryption == other.encryption && self.gc_limit == other.gc_limit
    }
}

impl vstd::std_specs::cmp::PartialEqSpecImpl for GeneralConfig {
    open spec fn obeys_eq_spec() -> bool {
        true
    }

    open spec fn eq_spec(&self, other: &Self) -> bool {
        self.registry_dir@ == other.registry_dir@ && self.compression@ == other.compression@
            && self.encryption == other.encryption && self.gc_limit == other.gc_limit
    }
}

impl PartialEq for Config {
    fn eq(&self, other: &Self) -> (r: bool) {
        self.general == other.general
    }
}

impl vstd::std_specs::cmp::PartialEqSpecImpl for Config {
    open spec fn obeys_eq_spec() -> bool {
        true
    }

    open spec fn eq_spec(&self, other: &Self) -> bool {
        self.general.registry_dir@ == other.general.registry_dir@ && self.general.compression@
            == other.general.compression@ && self.general.encryption == other.general.encryption
            && self.general.gc_limit == other.general.gc_limit
    }
}

impl From<GeneralConfig> for Config {
    fn from(value: GeneralConfig) -> (r: Self) {
        Self { general: value }
    }
}

impl vstd::std_specs::convert::FromSpecImpl<GeneralConfig> for Config {
    open spec fn obeys_from_spec() -> bool {
        true
    }

    open spec fn from_spec(value: GeneralConfig) -> Self {
        Config { general: value }
    }
}

impl From<(String, String, usize)> for GeneralConfig {
    /// Settings from the registry directory, the algorithm's name and the
    /// version limit; encryption is on.
    fn from(value: (String, String, usize)) -> (r: Self) {
        Self { registry_dir: value.0, compression: value.1, encryption: true, gc_limit: value.2 }
    }
}

impl vstd::std_specs::convert::FromSpecImpl<(String, String, usize)> for GeneralConfig {
    open spec fn obeys_from_spec() -> bool {
        true
    }

    open spec fn from_spec(value: (String, String, usize)) -> Self {
        GeneralConfig {
            registry_dir: value.0,
            compression: value.1,
            encryption: true,
            gc_limit: value.2,
        }
    }
}

/// The version limit that holds where the user names none.
pub const DEFAULT_GC_LIMIT: usize = 3;

impl GeneralConfig {
    /// The settings that the answers of the configuration dialogue make: no
    /// registry directory, no settings; no algorithm, `none`; no limit, three.
    pub fn from_answers(
        registry: Option<String>,
        compression: Option<String>,
        gc_limit: Option<usize>,
    ) -> (r: Option<Self>)
        ensures
            r is Some <==> registry is Some,
            r matches Some(g) ==> g.registry_dir == registry.unwrap() && g.encryption
                && g.compression@ == (match compression {
                Some(c) => c@,
                None => "none"@,
            }) && g.gc_limit == (match gc_limit {
                Some(l) => l,
                None => DEFAULT_GC_LIMIT,
            }),
    {
        let registry_dir = match registry {
            Some(dir) => dir,
            None => {
                return None;
            },
        };
        let compression = match compression {
            Some(comp) => comp,
            None => String::from_str("none"),
        };
        let gc_limit = match gc_limit {
            Some(limit) => limit,
            None => DEFAULT_GC_LIMIT,
        };
        Some(Self { registry_dir, compression, encryption: true, gc_limit })
    }
}

} // verus!
