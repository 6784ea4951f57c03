//! Project manifest model: the structured form of a project descriptor.
//! Reading and deserialising the manifest file belong to the caller.

use vstd::prelude::*;
use vstd::string::StringExecFns;
use crate::text::{contains_seq, find_first};

verus! {

/// Build configuration for image-building projects.
#[derive(Debug, Clone)]
pub struct BuildConfig {
    /// Build context directory.
    pub context: String,
    /// Dockerfile path within the context.
    pub dockerfile: String,
}

/// Default build context: the current directory.
pub fn default_context() -> (r: String)
    ensures
        r@ == "."@,
{
    String::from_str(".")
}

/// Default Dockerfile name.
pub fn default_dockerfile() -> (r: String)
    ensures
        r@ == "Dockerfile"@,
{
    String::from_str("Dockerfile")
}

/// Default boolean for flags that are on unless disabled.
pub fn default_true() -> (r: bool)
    ensures
        r,
{
    true
}

/// Reverse-proxy route configuration.
#[derive(Debug, Clone)]
pub struct RouteConfig {
    pub path_prefix: String,
    pub strip_prefix: bool,
    pub static_paths: Vec<String>,
}

/// A project manifest, as parsed from a project descriptor.
#[derive(Debug, Clone)]
pub struct ProjectManifest {
    pub project: String,
    pub image: Option<String>,
    pub build: Option<BuildConfig>,
    /// Environment variables, as key/value pairs.
    pub env: Vec<(String, String)>,
    pub port: Option<u16>,
    pub route: Option<RouteConfig>,
    pub gpu: bool,
    pub volumes: Vec<String>,
    pub devices: Vec<String>,
    pub command: Option<String>,
}

impl ProjectManifest {
    /// The project describes a CLI container: it exposes no port, or its
    /// command keeps it idle (holds "sleep").
    pub fn is_cli(&self) -> (r: bool)
        ensures
            r == (self.port is None || (self.command is Some && contains_seq(
                self.command->Some_0@,
                "sleep"@,
            ))),
    {
        if self.port.is_none() {
            return true;
        }
        match self.command {
            Some(ref c) => find_first(c.as_str(), "sleep").is_some(),
            None => false,
        }
    }
}

} // verus!
