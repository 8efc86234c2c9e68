//! Dataset manifests and dataset metadata.

use vstd::prelude::*;
use std::collections::HashMap;

verus! {

#[verifier::external_type_specification]
#[verifier::external_body]
pub struct ExJsonValue(serde_json::Value);

/// One sample entry of a dataset manifest.
#[derive(Debug, Clone, PartialEq)]
pub struct Sample {
    /// Stable identifier used in reports and result comparisons.
    pub id: String,
    /// Path to the sample content file, relative to the dataset directory.
    pub file: String,
    /// Ground-truth label as it appears in the manifest.
    pub label: String,
    /// Optional source reference.
    pub source: String,
    /// Optional human-readable description.
    pub description: String,
    /// Additional manifest metadata attached to the sample.
    pub metadata: HashMap<String, serde_json::Value>,
}

/// Manifest describing the samples of a dataset.
#[derive(Debug, Clone, PartialEq)]
pub struct DatasetManifest {
    /// Dataset name reported with benchmark results.
    pub name: String,
    /// Dataset version reported with benchmark results.
    pub version: String,
    /// Samples of the dataset.
    pub samples: Vec<Sample>,
}

/// Version recorded for a manifest that states none.
pub fn default_version() -> (v: String)
    ensures
        v@ == "1.0.0"@,
{
    String::from_str("1.0.0")
}

/// Dataset metadata included in run results.
#[derive(Debug, Clone, PartialEq, Eq)]
pub struct DatasetInfo {
    /// Dataset name from the manifest.
    pub name: String,
    /// Dataset version.
    pub version: String,
    /// Number of samples evaluated.
    pub sample_count: usize,
    /// Count of each label, by label.
    pub label_distribution: Vec<(String, usize)>,
}

} // verus!
