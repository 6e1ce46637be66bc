use dicom_toolkit::anonymizer::{get_builtin_templates, parse_tag_string, AnonymizationAction};
use dicom_toolkit::model::DimseConfig;
use dicom_toolkit::records::QueryLevel;
use dicom_toolkit::scp::ScpServer;
use dicom_toolkit::scu::{move_progress, SubOperations};

#[test]
fn test_builtin_templates() {
    let templates = get_builtin_templates();
    assert_eq!(templates.len(), 3);
}

#[test]
fn builtin_templates_names_and_sizes() {
    let templates = get_builtin_templates();
    assert_eq!(templates[0].name, "Basic");
    assert_eq!(templates[1].name, "Full");
    assert_eq!(templates[2].name, "Research");
    assert_eq!(templates[0].rules.len(), 3);
    assert_eq!(templates[1].rules.len(), 34);
    assert_eq!(templates[2].rules.len(), 19);
    assert!(matches!(&templates[0].rules[0].action, AnonymizationAction::Replace(t) if t == "ANONYMOUS"));
    for t in &templates {
        let mut seen = std::collections::HashSet::new();
        for r in &t.rules {
            let tag = parse_tag_string(&r.tag);
            assert!(tag.is_some(), "{}", r.tag);
            assert!(seen.insert(tag), "{} twice in {}", r.tag, t.name);
        }
    }
}

#[test]
fn test_default_config() {
    let config = DimseConfig::default();
    assert_eq!(config.ae_title, "DICOM_TOOLKIT");
    assert_eq!(config.port, 11112);
}

#[test]
fn default_config_other_fields() {
    let config = DimseConfig::default();
    assert_eq!(config.max_pdu_size, 16384);
    assert_eq!(config.storage_path, "./dicom_storage");
}

#[test]
fn scp_test_scp_lifecycle() {
    let config = DimseConfig::default();
    let scp = ScpServer::new(config);
    assert!(!scp.is_running());
}

#[test]
fn test_dimse_test_scp_lifecycle() {
    let mut scp = ScpServer::new(DimseConfig::default());
    assert_eq!(scp.register(), None);
    assert!(scp.start());
    assert!(!scp.start());
    assert!(scp.is_running());
    scp.max_associations = 2;
    let a = scp.register().unwrap();
    let b = scp.register().unwrap();
    assert_ne!(a, b);
    assert!(scp.at_capacity());
    assert_eq!(scp.register(), None);
    scp.finish(a);
    assert!(!scp.at_capacity());
    let c = scp.register().unwrap();
    assert_ne!(c, b);
    let to_abort = scp.stop();
    assert_eq!(to_abort, vec![b, c]);
    assert!(!scp.is_running());
}

#[test]
fn tag_strings() {
    assert_eq!(parse_tag_string("(0010,0010)"), Some((0x0010, 0x0010)));
    assert_eq!(parse_tag_string("(0010,21B0)"), Some((0x0010, 0x21B0)));
    assert_eq!(parse_tag_string("0020000d"), Some((0x0020, 0x000D)));
    assert_eq!(parse_tag_string("(0010,001)"), None);
    assert_eq!(parse_tag_string("(0010,00G0)"), None);
    assert_eq!(parse_tag_string(""), None);
}

#[test]
fn query_level_paths() {
    assert_eq!(QueryLevel::Studies.to_path(), "studies");
    assert_eq!(QueryLevel::Series.to_path(), "series");
    assert_eq!(QueryLevel::Instances.to_path(), "instances");
}

#[test]
fn progress_totals() {
    let p = move_progress(SubOperations { remaining: 3, completed: 4, failed: 1, warning: 2 });
    assert_eq!(p.total, 10);
    assert_eq!(p.completed, 4);
    assert_eq!(p.failed, 1);
}

#[test]
fn register_up_to_the_limit() {
    let mut scp = ScpServer::new(DimseConfig::default());
    scp.start();
    scp.max_associations = 5;
    let ids: Vec<u64> = (0..5).map(|_| scp.register().unwrap()).collect();
    assert_eq!(ids.len(), 5);
    assert_eq!(scp.register(), None);
    assert_eq!(scp.stop(), ids);
    assert!(scp.stop().is_empty());
    assert!(!scp.is_running());
    assert_eq!(scp.config.ae_title, "DICOM_TOOLKIT");
}
