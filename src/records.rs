//! Records that the engine's collaborators exchange with it: file and
//! metadata summaries, tag listings, and web-retrieval results.
use vstd::prelude::*;

verus! {

#[derive(Debug, Clone)]
pub struct DicomMetadata {
    pub study_instance_uid: String,
    pub series_instance_uid: String,
    pub sop_instance_uid: String,
    pub patient_name: Option<String>,
    pub patient_id: Option<String>,
    pub study_date: Option<String>,
    pub modality: Option<String>,
}

#[derive(Debug, Clone)]
pub struct MinimalFileInfo {
    pub path: String,
    pub study_instance_uid: String,
    pub series_instance_uid: String,
    pub sop_instance_uid: String,
    pub patient_name: Option<String>,
    pub patient_id: Option<String>,
    pub study_date: Option<String>,
    pub modality: Option<String>,
}

#[derive(Debug, Clone)]
pub struct DicomFileInfo {
    pub path: String,
    pub study_instance_uid: String,
    pub series_instance_uid: String,
    pub sop_instance_uid: String,
    pub patient_name: Option<String>,
    pub patient_id: Option<String>,
    pub study_date: Option<String>,
    pub modality: Option<String>,
}

/// One element of a dataset as a tag listing shows it.
#[derive(Debug, Clone)]
pub struct DicomTag {
    pub tag: String,
    pub name: String,
    pub vr: String,
    pub vm: String,
    pub value: String,
    pub is_private: bool,
}

#[derive(Debug, Clone)]
pub struct StowResult {
    pub success_count: usize,
    pub failed_count: usize,
}

#[derive(Debug, Clone)]
pub struct FailedInstance {
    pub instance_uid: String,
    pub reason: String,
}

#[derive(Debug, Clone)]
pub struct StowResponse {
    pub success: Vec<String>,
    pub failed: Vec<FailedInstance>,
}

/// The level a web query addresses.
#[derive(Debug, Clone, Copy, PartialEq, Eq, Structural)]
pub enum QueryLevel {
    Studies,
    Series,
    Instances,
}

impl QueryLevel {
    /// The path segment of the level.
    pub fn to_path(&self) -> (r: &'static str)
        ensures
            *self == QueryLevel::Studies ==> r@ == "studies"@,
            *self == QueryLevel::Series ==> r@ == "series"@,
            *self == QueryLevel::Instances ==> r@ == "instances"@,
    {
        match self {
            QueryLevel::Studies => "studies",
            QueryLevel::Series => "series",
            QueryLevel::Instances => "instances",
        }
    }
}

} // verus!
