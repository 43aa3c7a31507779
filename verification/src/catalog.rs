//! The catalogue: data, not code. Which models, their sizes and their
//! quality ordering are editorial; the rules that read them are elsewhere.
use vstd::prelude::*;
use crate::recommend::Real;

verus! {

/// The only catalogue schema this library reads.
pub const SCHEMA_VERSION: u32 = 1;

/// Curated `llama-server` flags for a model.
#[derive(Debug)]
pub struct Launch {
    /// Context, batching and attention flags.
    pub args: String,
    /// The model's recommended sampler flags.
    pub samplers: String,
    /// Validated on real hardware rather than authored from model defaults.
    pub tested: bool,
}

/// One model of the catalogue.
#[derive(Debug)]
pub struct ModelEntry {
    pub id: String,
    pub display_name: String,
    pub description: String,
    pub repo: Option<String>,
    pub quant: String,
    /// Total GGUF size in bytes (sum of shards). None = not yet filled in;
    /// the entry is listed but can't be recommended.
    pub size_bytes: Option<u64>,
    /// Editorial ordering, higher = smarter. Authored, not computed.
    pub quality: u32,
    /// Share of weights read per decoded token: 1.0 dense, active/total MoE.
    pub decode_fraction: Real,
    pub tier_hint: Option<String>,
    pub launch: Option<Launch>,
}

/// The catalogue.
#[derive(Debug)]
pub struct Catalog {
    pub schema_version: u32,
    pub models: Vec<ModelEntry>,
}

/// Why a parsed catalogue is refused.
#[derive(Clone, Copy, Debug, PartialEq, Eq, Structural)]
pub enum CatalogError {
    /// The catalogue declares a schema version this library does not read.
    UnsupportedSchema(u32),
}

/// Accepts a parsed catalogue of the supported schema version, and refuses
/// any other.
pub fn check_schema(cat: Catalog) -> (r: Result<Catalog, CatalogError>)
    ensures
        cat.schema_version == SCHEMA_VERSION ==> r == Ok::<Catalog, CatalogError>(cat),
        cat.schema_version != SCHEMA_VERSION ==> r == Err::<Catalog, CatalogError>(
            CatalogError::UnsupportedSchema(cat.schema_version),
        ),
{
    if cat.schema_version != SCHEMA_VERSION {
        return Err(CatalogError::UnsupportedSchema(cat.schema_version));
    }
    Ok(cat)
}

} // verus!
