//! Configuration and result records of the DIMSE services.
use vstd::prelude::*;

verus! {

/// The local SCP's settings.
#[derive(Debug, Clone)]
pub struct DimseConfig {
    pub ae_title: String,
    pub port: u16,
    pub max_pdu_size: u32,
    pub storage_path: String,
}

impl Default for DimseConfig {
    fn default() -> (r: Self)
        ensures
            r.ae_title@ == "DICOM_TOOLKIT"@,
            r.port == 11112,
            r.max_pdu_size == 16384,
            r.storage_path@ == "./dicom_storage"@,
    {
        DimseConfig {
            ae_title: "DICOM_TOOLKIT".to_string(),
            port: 11112,
            max_pdu_size: 16384,
            storage_path: "./dicom_storage".to_string(),
        }
    }
}

/// A remote peer: its name, address, its AE title and the title we call
/// from.
#[derive(Debug, Clone)]
pub struct PacsEndpoint {
    pub name: String,
    pub ae_title: String,
    pub host: String,
    pub port: u16,
    pub our_ae_title: String,
}

/// C-FIND filters; an absent key returns the attribute unfiltered.
#[derive(Debug, Clone)]
pub struct QueryParams {
    pub patient_name: Option<String>,
    pub patient_id: Option<String>,
    pub study_date: Option<String>,
    pub modality: Option<String>,
    pub accession_number: Option<String>,
}

/// One study that a C-FIND returned.
#[derive(Debug, Clone)]
pub struct StudyResult {
    pub study_instance_uid: String,
    pub patient_name: String,
    pub patient_id: String,
    pub study_date: String,
    pub modality: String,
    pub study_description: String,
    pub number_of_series: i32,
    pub number_of_instances: i32,
}

/// A retrieve's progress as callers see it.
#[derive(Debug, Clone)]
pub struct MoveProgress {
    pub total: i32,
    pub completed: i32,
    pub failed: i32,
}

} // verus!
