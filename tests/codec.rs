use dicom_toolkit::error::ProtocolError;
use dicom_toolkit::message::{decode_elements, encode_elements, encode_message, Element, Reassembly};
use dicom_toolkit::pdu::{decode_pdu, encode_pdu, pdu_body_length, AssociateFields, Item, Pdu};
use dicom_toolkit::pdv::{fragment, Pdv};
use dicom_toolkit::query::{query_dataset, retrieve_dataset, study_result};
use dicom_toolkit::model::QueryParams;

fn el(group: u16, element: u16, value: &[u8]) -> Element {
    Element { group, element, value: value.to_vec() }
}

#[test]
fn elements_encode_implicit_little_endian() {
    let bytes = encode_elements(&vec![el(0x0000, 0x0100, &[0x30, 0x00])]);
    assert_eq!(bytes, vec![0x00, 0x00, 0x00, 0x01, 0x02, 0x00, 0x00, 0x00, 0x30, 0x00]);
    let back = decode_elements(&bytes).unwrap();
    assert_eq!(back.len(), 1);
    assert_eq!((back[0].group, back[0].element, back[0].value.clone()), (0x0000, 0x0100, vec![0x30, 0x00]));
}

#[test]
fn elements_with_short_value_are_rejected() {
    // declared length 4, only 2 bytes follow
    let bytes = vec![0x08, 0x00, 0x20, 0x00, 0x04, 0x00, 0x00, 0x00, 0x31, 0x32];
    assert!(decode_elements(&bytes).is_none());
    assert!(decode_elements(&[0x08, 0x00, 0x20]).is_none());
    assert_eq!(decode_elements(&[]).unwrap().len(), 0);
}

#[test]
fn fragments_respect_the_limit() {
    let data: Vec<u8> = (0u8..10).collect();
    let f = fragment(3, false, &data, 4);
    assert_eq!(f.len(), 3);
    assert_eq!(f[0].data, vec![0, 1, 2, 3]);
    assert_eq!(f[2].data, vec![8, 9]);
    assert!(!f[0].is_last && !f[1].is_last && f[2].is_last);
    assert!(f.iter().all(|p| p.context_id == 3 && !p.is_command));
    let empty = fragment(1, true, &[], 4);
    assert_eq!(empty.len(), 1);
    assert!(empty[0].is_last && empty[0].data.is_empty());
}

#[test]
fn message_round_trip() {
    let command = vec![el(0x0000, 0x0100, &[0x01, 0x00]), el(0x0000, 0x0110, &[0x07, 0x00]), el(0x0000, 0x0800, &[0x00, 0x00])];
    let dataset: Vec<u8> = (0..50u8).collect();
    let pdvs = encode_message(5, &command, Some(&dataset), 7);
    assert!(pdvs.iter().all(|p| p.data.len() <= 7));
    let mut r = Reassembly::new();
    for p in &pdvs {
        r.accept(p).unwrap();
    }
    assert!(r.command_complete && r.data_complete);
    assert_eq!(r.data, dataset);
    let back = decode_elements(&r.command).unwrap();
    assert_eq!(back.len(), 3);
    for (a, b) in back.iter().zip(command.iter()) {
        assert_eq!((a.group, a.element, &a.value), (b.group, b.element, &b.value));
    }
}

#[test]
fn reassembly_rejects_out_of_order_fragments() {
    let mut r = Reassembly::new();
    let data = Pdv { context_id: 1, is_command: false, is_last: true, data: vec![1] };
    assert_eq!(r.accept(&data), Err(ProtocolError::MalformedPdu));
    let cmd = Pdv { context_id: 1, is_command: true, is_last: false, data: vec![1] };
    r.accept(&cmd).unwrap();
    let other = Pdv { context_id: 3, is_command: true, is_last: true, data: vec![2] };
    assert_eq!(r.accept(&other), Err(ProtocolError::MalformedPdu));
    assert_eq!(r.close(), Err(ProtocolError::IncompleteMessage));
    assert_eq!(Reassembly::new().close(), Ok(()));
}

#[test]
fn pdu_round_trips() {
    let pdus = vec![
        Pdu::ReleaseRq,
        Pdu::ReleaseRp,
        Pdu::Abort { source: 2, reason: 1 },
        Pdu::AssociateRj { result: 1, source: 1, reason: 7 },
        Pdu::PData(vec![Pdv { context_id: 1, is_command: true, is_last: true, data: vec![9, 8, 7] }]),
        Pdu::AssociateRq(AssociateFields {
            called_ae: b"PACS            ".to_vec(),
            calling_ae: b"ME              ".to_vec(),
            items: vec![Item { item_type: 0x10, data: b"1.2.840.10008.3.1.1.1".to_vec() }],
        }),
    ];
    for p in &pdus {
        let bytes = encode_pdu(p);
        let back = decode_pdu(&bytes).unwrap();
        assert_eq!(encode_pdu(&back), bytes);
    }
    assert_eq!(encode_pdu(&Pdu::ReleaseRq), vec![5, 0, 0, 0, 0, 4, 0, 0, 0, 0]);
    assert_eq!(
        encode_pdu(&Pdu::PData(vec![Pdv { context_id: 1, is_command: true, is_last: true, data: vec![0xAA] }])),
        vec![4, 0, 0, 0, 0, 7, 0, 0, 0, 3, 1, 3, 0xAA]
    );
}

#[test]
fn malformed_pdus_are_rejected() {
    // declared length 4, but 5 bytes follow
    assert_eq!(decode_pdu(&[5, 0, 0, 0, 0, 4, 0, 0, 0, 0, 0]).err(), Some(ProtocolError::MalformedPdu));
    // unknown type
    assert_eq!(decode_pdu(&[9, 0, 0, 0, 0, 4, 0, 0, 0, 0]).err(), Some(ProtocolError::MalformedPdu));
    // too short for a header
    assert_eq!(decode_pdu(&[5, 0, 0]).err(), Some(ProtocolError::MalformedPdu));
    // PDV length beyond the PDU
    assert_eq!(decode_pdu(&[4, 0, 0, 0, 0, 6, 0, 0, 0, 9, 1, 3]).err(), Some(ProtocolError::MalformedPdu));
}

#[test]
fn query_identifier_keys() {
    let params = QueryParams {
        patient_name: Some("DOE^JOHN".to_string()),
        patient_id: None,
        study_date: None,
        modality: Some("CT".to_string()),
        accession_number: None,
    };
    let bytes = query_dataset(&params).unwrap();
    let keys = decode_elements(&bytes).unwrap();
    let tags: Vec<(u16, u16)> = keys.iter().map(|e| (e.group, e.element)).collect();
    assert_eq!(
        tags,
        vec![(0x0008, 0x0020), (0x0008, 0x0052), (0x0008, 0x0060), (0x0008, 0x1030), (0x0010, 0x0010), (0x0010, 0x0020), (0x0020, 0x000D), (0x0020, 0x1206), (0x0020, 0x1208)]
    );
    assert_eq!(keys[1].value, b"STUDY ".to_vec());
    assert_eq!(keys[2].value, b"CT".to_vec());
    assert_eq!(keys[4].value, b"DOE^JOHN".to_vec());
    assert_eq!(keys[5].value, b"* ".to_vec());
    assert!(keys[0].value.is_empty());
}

#[test]
fn retrieve_identifier_keys() {
    let bytes = retrieve_dataset("1.2.3").unwrap();
    let keys = decode_elements(&bytes).unwrap();
    assert_eq!(keys.len(), 2);
    assert_eq!(keys[1].value, b"1.2.3\0".to_vec());
}

#[test]
fn study_result_from_identifier() {
    let ident = encode_elements(&vec![
        el(0x0008, 0x0020, b"20240101"),
        el(0x0008, 0x0060, b"MR"),
        el(0x0008, 0x1030, b"HEAD "),
        el(0x0010, 0x0010, b"DOE^JANE"),
        el(0x0010, 0x0020, b"ID7 "),
        el(0x0020, 0x000D, b"1.2.3\0"),
        el(0x0020, 0x1206, b" 12 "),
        el(0x0020, 0x1208, b"x1"),
    ]);
    let r = study_result(&ident).unwrap();
    assert_eq!(r.study_instance_uid, "1.2.3");
    assert_eq!(r.patient_name, "DOE^JANE");
    assert_eq!(r.patient_id, "ID7");
    assert_eq!(r.study_date, "20240101");
    assert_eq!(r.modality, "MR");
    assert_eq!(r.study_description, "HEAD");
    assert_eq!(r.number_of_series, 12);
    assert_eq!(r.number_of_instances, 0);
    assert!(study_result(&[1, 2, 3]).is_none());
}

#[test]
fn non_canonical_reserved_bytes_are_rejected() {
    assert_eq!(decode_pdu(&[5, 1, 0, 0, 0, 4, 0, 0, 0, 0]).err(), Some(ProtocolError::MalformedPdu));
    assert_eq!(decode_pdu(&[6, 0, 0, 0, 0, 4, 0, 0, 1, 0]).err(), Some(ProtocolError::MalformedPdu));
    assert!(decode_pdu(&[7, 0, 0, 0, 0, 4, 0, 0, 2, 1]).is_ok());
}

#[test]
fn header_length_is_bounded() {
    assert_eq!(pdu_body_length(&[4, 0, 0, 0, 1, 0], 1024), Ok(256));
    assert_eq!(pdu_body_length(&[4, 0, 0, 1, 0, 0], 1024), Err(ProtocolError::MalformedPdu));
    assert_eq!(pdu_body_length(&[8, 0, 0, 0, 0, 4], 1024), Err(ProtocolError::MalformedPdu));
    assert_eq!(pdu_body_length(&[4, 0, 0], 1024), Err(ProtocolError::MalformedPdu));
}
