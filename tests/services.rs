use dicom_toolkit::association::{Association, AssociationState, Incoming, Message};
use dicom_toolkit::dimse::{
    command, get_u16, u16_element, uid_element, C_FIND_RSP, C_GET_RSP, C_STORE_RQ, C_STORE_RSP,
    STATUS_PENDING, STATUS_SUCCESS, STATUS_UNRECOGNIZED_OPERATION, TAG_STATUS,
};
use dicom_toolkit::error::ProtocolError;
use dicom_toolkit::message::Element;
use dicom_toolkit::model::{DimseConfig, QueryParams};
use dicom_toolkit::negotiation::{
    evaluate_contexts, negotiated_contexts, ProposedContext, SupportedSyntax,
};
use dicom_toolkit::pdu::{decode_pdu, encode_pdu, Pdu};
use dicom_toolkit::query::{query_dataset, retrieve_dataset, study_result};
use dicom_toolkit::scp::{accept_association, accept_proposals, dispatch, ScpAction, ScpServer};
use dicom_toolkit::scu::{
    echo_request, echo_succeeded, find_request, get_request, store_response, store_status,
    FindEvent, FindStream, RetrieveEvent, RetrieveStream, IMPLICIT_VR_LITTLE_ENDIAN,
    STUDY_ROOT_FIND, STUDY_ROOT_GET, VERIFICATION_SOP_CLASS,
};

const CT_STORAGE: &str = "1.2.840.10008.5.1.4.1.1.2";
const EXPLICIT_VR_LITTLE_ENDIAN: &str = "1.2.840.10008.1.2.1";

fn wire(p: Pdu) -> Pdu {
    decode_pdu(&encode_pdu(&p)).unwrap()
}

fn proposal(id: u8, abstract_syntax: &str, ts: &[&str]) -> ProposedContext {
    ProposedContext {
        id,
        abstract_syntax: abstract_syntax.as_bytes().to_vec(),
        transfer_syntaxes: ts.iter().map(|t| t.as_bytes().to_vec()).collect(),
    }
}

fn support(abstract_syntax: &str, ts: &[&str]) -> SupportedSyntax {
    SupportedSyntax {
        abstract_syntax: abstract_syntax.as_bytes().to_vec(),
        transfer_syntaxes: ts.iter().map(|t| t.as_bytes().to_vec()).collect(),
    }
}

/// A requestor and an acceptor, negotiated through encoded PDUs.
fn connect(proposed: Vec<ProposedContext>, supported: &Vec<SupportedSyntax>) -> (Association, Association) {
    let (mut scu, rq) = Association::request("PACS", "VIEWER", proposed, 16384).unwrap();
    let fields = match wire(rq) {
        Pdu::AssociateRq(f) => f,
        _ => panic!("not an A-ASSOCIATE-RQ"),
    };
    let (scp, ac) = accept_association(&fields, "PACS", supported, 16384, false);
    scu.on_associate_response(&wire(ac)).unwrap();
    (scu, scp.unwrap())
}

fn deliver(pdus: Vec<Pdu>, to: &mut Association) -> Vec<Message> {
    let mut out = Vec::new();
    for p in pdus {
        if let Incoming::Message(m) = to.receive(wire(p)).unwrap() {
            out.push(m);
        }
    }
    out
}

fn reply(field: u16, id: u16, status: u16, with_data: bool, extra: Vec<Element>) -> Vec<Element> {
    let mut fields = vec![
        u16_element(0x0100, field),
        u16_element(0x0120, id),
        u16_element(0x0800, if with_data { 0x0000 } else { 0x0101 }),
        u16_element(0x0900, status),
    ];
    fields.extend(extra);
    command(fields).unwrap()
}

fn store_rq(id: u16, instance: &str) -> Vec<Element> {
    command(vec![
        uid_element(0x0002, CT_STORAGE.as_bytes()),
        u16_element(0x0100, C_STORE_RQ),
        u16_element(0x0110, id),
        u16_element(0x0700, 0),
        u16_element(0x0800, 0x0000),
        uid_element(0x1000, instance.as_bytes()),
    ])
    .unwrap()
}

#[test]
fn negotiated_set_lies_between_proposal_and_support() {
    let proposed = vec![
        proposal(1, VERIFICATION_SOP_CLASS, &[IMPLICIT_VR_LITTLE_ENDIAN]),
        proposal(3, STUDY_ROOT_FIND, &[EXPLICIT_VR_LITTLE_ENDIAN, IMPLICIT_VR_LITTLE_ENDIAN]),
        proposal(5, CT_STORAGE, &[EXPLICIT_VR_LITTLE_ENDIAN]),
        proposal(7, STUDY_ROOT_GET, &[IMPLICIT_VR_LITTLE_ENDIAN]),
    ];
    let supported = vec![
        support(VERIFICATION_SOP_CLASS, &[IMPLICIT_VR_LITTLE_ENDIAN]),
        support(STUDY_ROOT_FIND, &[IMPLICIT_VR_LITTLE_ENDIAN]),
        support(CT_STORAGE, &[IMPLICIT_VR_LITTLE_ENDIAN]),
    ];
    let results = evaluate_contexts(&supported, &proposed);
    assert_eq!(results.iter().map(|r| r.result).collect::<Vec<_>>(), vec![0, 0, 4, 3]);
    assert_eq!(results[1].transfer_syntax, IMPLICIT_VR_LITTLE_ENDIAN.as_bytes().to_vec());
    let negotiated = negotiated_contexts(&proposed, &results);
    assert_eq!(negotiated.iter().map(|n| n.id).collect::<Vec<_>>(), vec![1, 3]);

    let (scu, scp) = connect(proposed, &supported);
    assert_eq!(scu.state, AssociationState::Established);
    assert_eq!(scu.contexts.iter().map(|n| n.id).collect::<Vec<_>>(), vec![1, 3]);
    assert_eq!(scp.contexts.iter().map(|n| n.id).collect::<Vec<_>>(), vec![1, 3]);
    assert_eq!(scu.results.len(), 4);
}

#[test]
fn invalid_proposals_are_refused_before_sending() {
    let even = vec![proposal(2, VERIFICATION_SOP_CLASS, &[IMPLICIT_VR_LITTLE_ENDIAN])];
    assert_eq!(Association::request("PACS", "VIEWER", even, 16384).err(), Some(ProtocolError::AssociationRejected));
    let twice = vec![
        proposal(1, VERIFICATION_SOP_CLASS, &[IMPLICIT_VR_LITTLE_ENDIAN]),
        proposal(1, STUDY_ROOT_FIND, &[IMPLICIT_VR_LITTLE_ENDIAN]),
    ];
    assert!(Association::request("PACS", "VIEWER", twice, 16384).is_err());
    let ok = vec![proposal(1, VERIFICATION_SOP_CLASS, &[IMPLICIT_VR_LITTLE_ENDIAN])];
    assert!(Association::request("A_TITLE_LONGER_THAN_16", "VIEWER", ok, 16384).is_err());
}

#[test]
fn release_twice_has_no_further_effect() {
    let supported = vec![support(VERIFICATION_SOP_CLASS, &[IMPLICIT_VR_LITTLE_ENDIAN])];
    let (mut scu, mut scp) = connect(vec![proposal(1, VERIFICATION_SOP_CLASS, &[IMPLICIT_VR_LITTLE_ENDIAN])], &supported);
    let first = scu.release();
    assert!(matches!(first, Some(Pdu::ReleaseRq)));
    assert_eq!(scu.state, AssociationState::Releasing);
    assert!(scu.release().is_none());
    assert_eq!(scu.state, AssociationState::Releasing);
    assert!(matches!(scp.receive(wire(first.unwrap())).unwrap(), Incoming::ReleaseRequested));
    assert_eq!(scp.state, AssociationState::Closed);
    assert!(matches!(scu.receive(wire(Pdu::ReleaseRp)).unwrap(), Incoming::Released));
    assert_eq!(scu.state, AssociationState::Closed);
    assert!(scu.release().is_none());
    assert_eq!(scu.state, AssociationState::Closed);
    assert!(scu.abort().is_none());
}

#[test]
fn test_c_echo() {
    let supported = vec![support(VERIFICATION_SOP_CLASS, &[IMPLICIT_VR_LITTLE_ENDIAN])];
    let (mut scu, mut scp) = connect(vec![proposal(1, VERIFICATION_SOP_CLASS, &[IMPLICIT_VR_LITTLE_ENDIAN])], &supported);
    let rq = echo_request(1).unwrap();
    let pdus = scu.send(VERIFICATION_SOP_CLASS.as_bytes(), &rq, None).unwrap();
    let mut got = deliver(pdus, &mut scp);
    assert_eq!(got.len(), 1);
    let m = got.remove(0);
    let ctx = m.context_id;
    let rsp = match dispatch(&scp, m) {
        ScpAction::Respond(c) => c,
        _ => panic!("C-ECHO-RQ not answered"),
    };
    let back = deliver(scp.send_on(ctx, &rsp, None).unwrap(), &mut scu);
    assert_eq!(back.len(), 1);
    assert!(echo_succeeded(&back[0], 1));
    assert!(!echo_succeeded(&back[0], 2));
}

#[test]
fn c_echo_refused_association() {
    let supported = vec![support(VERIFICATION_SOP_CLASS, &[IMPLICIT_VR_LITTLE_ENDIAN])];
    let (mut scu, rq) = Association::request(
        "OTHER",
        "VIEWER",
        vec![proposal(1, VERIFICATION_SOP_CLASS, &[IMPLICIT_VR_LITTLE_ENDIAN])],
        16384,
    )
    .unwrap();
    let fields = match wire(rq) {
        Pdu::AssociateRq(f) => f,
        _ => panic!(),
    };
    let (scp, rj) = accept_association(&fields, "PACS", &supported, 16384, false);
    assert!(scp.is_none());
    assert!(matches!(rj, Pdu::AssociateRj { result: 1, source: 1, reason: 7 }));
    assert_eq!(scu.on_associate_response(&wire(rj)), Err(ProtocolError::AssociationRejected));
    assert_eq!(scu.state, AssociationState::Closed);
    let rq = echo_request(1).unwrap();
    assert_eq!(scu.send(VERIFICATION_SOP_CLASS.as_bytes(), &rq, None).err(), Some(ProtocolError::NotEstablished));
}

#[test]
fn association_beyond_the_limit_is_rejected_transiently() {
    let supported = vec![support(VERIFICATION_SOP_CLASS, &[IMPLICIT_VR_LITTLE_ENDIAN])];
    let (_, rq) = Association::request("PACS", "VIEWER", vec![proposal(1, VERIFICATION_SOP_CLASS, &[IMPLICIT_VR_LITTLE_ENDIAN])], 16384).unwrap();
    let fields = match rq {
        Pdu::AssociateRq(f) => f,
        _ => panic!(),
    };
    let (scp, rj) = accept_association(&fields, "PACS", &supported, 16384, true);
    assert!(scp.is_none());
    assert!(matches!(rj, Pdu::AssociateRj { result: 2, source: 3, reason: 2 }));
}

#[test]
fn unsupported_context_is_not_usable() {
    let supported = vec![support(VERIFICATION_SOP_CLASS, &[IMPLICIT_VR_LITTLE_ENDIAN])];
    let (scu, _) = connect(
        vec![
            proposal(1, VERIFICATION_SOP_CLASS, &[IMPLICIT_VR_LITTLE_ENDIAN]),
            proposal(3, STUDY_ROOT_FIND, &[IMPLICIT_VR_LITTLE_ENDIAN]),
        ],
        &supported,
    );
    let rq = find_request(1).unwrap();
    assert_eq!(scu.send(STUDY_ROOT_FIND.as_bytes(), &rq, None).err(), Some(ProtocolError::ContextNotNegotiated));
}

fn find_session() -> (Association, Association) {
    let supported = vec![support(STUDY_ROOT_FIND, &[IMPLICIT_VR_LITTLE_ENDIAN])];
    connect(vec![proposal(1, STUDY_ROOT_FIND, &[IMPLICIT_VR_LITTLE_ENDIAN])], &supported)
}

fn match_identifier(name: &str) -> Vec<u8> {
    dicom_toolkit::message::encode_elements(&vec![
        Element { group: 0x0010, element: 0x0010, value: name.as_bytes().to_vec() },
        Element { group: 0x0020, element: 0x000D, value: b"1.2.3.4\0".to_vec() },
    ])
}

#[test]
fn test_c_find() {
    let (mut scu, mut scp) = find_session();
    let params = QueryParams { patient_name: None, patient_id: None, study_date: None, modality: None, accession_number: None };
    let rq = find_request(9).unwrap();
    let query = query_dataset(&params).unwrap();
    let got = deliver(scu.send(STUDY_ROOT_FIND.as_bytes(), &rq, Some(&query)).unwrap(), &mut scp);
    assert_eq!(got.len(), 1);
    assert_eq!(got[0].dataset.as_ref().unwrap(), &query);
    let ctx = got[0].context_id;

    let mut stream = FindStream::new(9);
    let mut names = Vec::new();
    let mut done = false;
    for (i, name) in ["ALPHA", "BRAVO", "CHARLIE"].iter().enumerate() {
        let ds = match_identifier(name);
        let pdus = scp.send_on(ctx, &reply(C_FIND_RSP, 9, STATUS_PENDING, true, vec![]), Some(&ds)).unwrap();
        for m in deliver(pdus, &mut scu) {
            match stream.next(m) {
                FindEvent::Match(d) => names.push(study_result(&d).unwrap().patient_name),
                other => panic!("unexpected event at {}: {}", i, matches!(other, FindEvent::Done)),
            }
        }
    }
    for m in deliver(scp.send_on(ctx, &reply(C_FIND_RSP, 9, STATUS_SUCCESS, false, vec![]), None).unwrap(), &mut scu) {
        done = matches!(stream.next(m), FindEvent::Done);
    }
    assert_eq!(names, vec!["ALPHA", "BRAVO", "CHARLIE"]);
    assert!(done);
    assert!(stream.finished);
}

#[test]
fn c_find_stops_at_a_failure_status() {
    let (mut scu, mut scp) = find_session();
    let ctx = scp.contexts[0].id;
    let mut stream = FindStream::new(4);
    let mut events = Vec::new();
    let sequence = vec![
        (reply(C_FIND_RSP, 4, STATUS_PENDING, true, vec![]), Some(match_identifier("ONE"))),
        (reply(C_FIND_RSP, 4, 0xA700, false, vec![]), None),
        (reply(C_FIND_RSP, 4, STATUS_PENDING, true, vec![]), Some(match_identifier("TWO"))),
        (reply(C_FIND_RSP, 4, STATUS_SUCCESS, false, vec![]), None),
    ];
    for (c, d) in sequence {
        for m in deliver(scp.send_on(ctx, &c, d.as_ref()).unwrap(), &mut scu) {
            events.push(stream.next(m));
        }
    }
    assert_eq!(events.len(), 4);
    assert!(matches!(events[0], FindEvent::Match(_)));
    assert!(matches!(events[1], FindEvent::Failed(0xA700)));
    assert!(matches!(events[2], FindEvent::Closed));
    assert!(matches!(events[3], FindEvent::Closed));
}

#[test]
fn c_get_with_two_inbound_stores() {
    let supported = vec![
        support(STUDY_ROOT_GET, &[IMPLICIT_VR_LITTLE_ENDIAN]),
        support(CT_STORAGE, &[IMPLICIT_VR_LITTLE_ENDIAN]),
    ];
    let (mut scu, mut scp) = connect(
        vec![
            proposal(1, STUDY_ROOT_GET, &[IMPLICIT_VR_LITTLE_ENDIAN]),
            proposal(3, CT_STORAGE, &[IMPLICIT_VR_LITTLE_ENDIAN]),
        ],
        &supported,
    );
    let rq = get_request(2).unwrap();
    let ident = retrieve_dataset("1.2.3").unwrap();
    let got = deliver(scu.send(STUDY_ROOT_GET.as_bytes(), &rq, Some(&ident)).unwrap(), &mut scp);
    assert_eq!(got.len(), 1);

    let counts = |remaining: u16, completed: u16| vec![
        u16_element(0x1020, remaining),
        u16_element(0x1021, completed),
        u16_element(0x1022, 0),
        u16_element(0x1023, 0),
    ];
    let peer: Vec<(u8, Vec<Element>, Option<Vec<u8>>)> = vec![
        (3, store_rq(100, "1.2.3.1"), Some(vec![1u8; 40])),
        (1, reply(C_GET_RSP, 2, STATUS_PENDING, false, counts(1, 1)), None),
        (3, store_rq(101, "1.2.3.2"), Some(vec![2u8; 40])),
        (1, reply(C_GET_RSP, 2, STATUS_SUCCESS, false, counts(0, 2)), None),
    ];
    let mut stream = RetrieveStream::for_get(2);
    let mut persisted: Vec<Vec<u8>> = Vec::new();
    let mut finished = None;
    for (ctx, c, d) in peer {
        for m in deliver(scp.send_on(ctx, &c, d.as_ref()).unwrap(), &mut scu) {
            match stream.next(m) {
                RetrieveEvent::Store(s) => {
                    persisted.push(s.dataset.clone());
                    stream.record_store(true);
                    let rsp = store_response(&s, store_status(true)).unwrap();
                    let answers = deliver(scu.send_on(s.context_id, &rsp, None).unwrap(), &mut scp);
                    assert_eq!(answers.len(), 1);
                    assert_eq!(get_u16(&answers[0].command, 0x0100), Some(C_STORE_RSP));
                    assert_eq!(get_u16(&answers[0].command, TAG_STATUS), Some(STATUS_SUCCESS));
                    assert_eq!(get_u16(&answers[0].command, 0x0120), Some(s.message_id));
                }
                RetrieveEvent::Progress(c) => assert_eq!((c.completed, c.remaining), (1, 1)),
                RetrieveEvent::Done(status, c) => finished = Some((status, c)),
                _ => panic!("unexpected event"),
            }
        }
    }
    assert_eq!(persisted, vec![vec![1u8; 40], vec![2u8; 40]]);
    let (status, c) = finished.unwrap();
    assert_eq!(status, STATUS_SUCCESS);
    assert_eq!((c.completed, c.failed, c.remaining), (2, 0, 0));
}

#[test]
fn scp_stores_from_five_associations() {
    let mut server = ScpServer::new(DimseConfig::default());
    server.start();
    let supported = vec![support(CT_STORAGE, &[IMPLICIT_VR_LITTLE_ENDIAN])];
    let mut sessions = Vec::new();
    for k in 0..5u8 {
        let id = server.register().unwrap();
        let (scu, scp) = connect(vec![proposal(1, CT_STORAGE, &[IMPLICIT_VR_LITTLE_ENDIAN])], &supported);
        sessions.push((id, k, scu, scp));
    }
    let mut persisted = Vec::new();
    for (id, k, scu, scp) in sessions.iter_mut() {
        let data = vec![*k; 64];
        let pdus = scu.send(CT_STORAGE.as_bytes(), &store_rq(*k as u16 + 1, "1.2.9"), Some(&data)).unwrap();
        let got = deliver(pdus, scp);
        assert_eq!(got.len(), 1);
        for m in got {
            match dispatch(scp, m) {
                ScpAction::Store(s) => {
                    assert_eq!(s.message_id, *k as u16 + 1);
                    persisted.push(s.dataset.clone());
                    let rsp = store_response(&s, store_status(true)).unwrap();
                    let back = deliver(scp.send_on(s.context_id, &rsp, None).unwrap(), scu);
                    assert_eq!(get_u16(&back[0].command, TAG_STATUS), Some(STATUS_SUCCESS));
                }
                _ => panic!("C-STORE-RQ not handed out"),
            }
        }
        server.finish(*id);
    }
    assert_eq!(persisted, (0..5u8).map(|k| vec![k; 64]).collect::<Vec<_>>());
    assert!(server.active.is_empty());
}

#[test]
fn unknown_command_is_answered_without_abort() {
    let supported = vec![support(VERIFICATION_SOP_CLASS, &[IMPLICIT_VR_LITTLE_ENDIAN])];
    let (mut scu, mut scp) = connect(vec![proposal(1, VERIFICATION_SOP_CLASS, &[IMPLICIT_VR_LITTLE_ENDIAN])], &supported);
    let odd = command(vec![u16_element(0x0100, 0x0FFF), u16_element(0x0110, 3), u16_element(0x0800, 0x0101)]).unwrap();
    let got = deliver(scu.send(VERIFICATION_SOP_CLASS.as_bytes(), &odd, None).unwrap(), &mut scp);
    let ctx = got[0].context_id;
    let rsp = match dispatch(&scp, got.into_iter().next().unwrap()) {
        ScpAction::Respond(c) => c,
        _ => panic!(),
    };
    assert_eq!(get_u16(&rsp, TAG_STATUS), Some(STATUS_UNRECOGNIZED_OPERATION));
    assert_eq!(get_u16(&rsp, 0x0100), Some(0x8FFF));
    assert_eq!(scp.state, AssociationState::Established);
    let back = deliver(scp.send_on(ctx, &rsp, None).unwrap(), &mut scu);
    assert_eq!(back.len(), 1);
}

#[test]
fn peer_abort_ends_the_association() {
    let supported = vec![support(VERIFICATION_SOP_CLASS, &[IMPLICIT_VR_LITTLE_ENDIAN])];
    let (mut scu, _) = connect(vec![proposal(1, VERIFICATION_SOP_CLASS, &[IMPLICIT_VR_LITTLE_ENDIAN])], &supported);
    assert_eq!(scu.receive(wire(Pdu::Abort { source: 2, reason: 0 })).err(), Some(ProtocolError::PeerAborted));
    assert_eq!(scu.state, AssociationState::Aborted);
    assert!(scu.abort().is_none());
}

#[test]
fn accept_proposals_decides_on_read_contexts() {
    let called = b"PACS            ".to_vec();
    let calling = b"VIEWER          ".to_vec();
    let supported = vec![support(VERIFICATION_SOP_CLASS, &[IMPLICIT_VR_LITTLE_ENDIAN])];
    let good = vec![proposal(1, VERIFICATION_SOP_CLASS, &[IMPLICIT_VR_LITTLE_ENDIAN])];
    let (a, ac) = accept_proposals(&called, &calling, good, 0, &supported, 16384);
    let a = a.unwrap();
    assert_eq!(a.state, AssociationState::Established);
    assert_eq!(a.contexts.len(), 1);
    assert!(matches!(ac, Pdu::AssociateAc(_)));

    let unsupported = vec![proposal(1, STUDY_ROOT_FIND, &[IMPLICIT_VR_LITTLE_ENDIAN])];
    let (a, rj) = accept_proposals(&called, &calling, unsupported, 0, &supported, 16384);
    assert!(a.is_none());
    assert!(matches!(rj, Pdu::AssociateRj { result: 1, source: 1, reason: 1 }));

    let even = vec![proposal(2, VERIFICATION_SOP_CLASS, &[IMPLICIT_VR_LITTLE_ENDIAN])];
    assert!(accept_proposals(&called, &calling, even, 0, &supported, 16384).0.is_none());
    let short = b"PACS".to_vec();
    let good = vec![proposal(1, VERIFICATION_SOP_CLASS, &[IMPLICIT_VR_LITTLE_ENDIAN])];
    assert!(accept_proposals(&short, &calling, good, 0, &supported, 16384).0.is_none());
}

#[test]
fn data_without_announced_dataset_is_a_violation() {
    let supported = vec![support(VERIFICATION_SOP_CLASS, &[IMPLICIT_VR_LITTLE_ENDIAN])];
    let (scu, mut scp) = connect(vec![proposal(1, VERIFICATION_SOP_CLASS, &[IMPLICIT_VR_LITTLE_ENDIAN])], &supported);
    let rq = echo_request(1).unwrap();
    let extra = vec![5u8; 4];
    let pdus = scu.send(VERIFICATION_SOP_CLASS.as_bytes(), &rq, Some(&extra)).unwrap();
    let mut outcome = Ok(Incoming::Pending);
    for p in pdus {
        outcome = scp.receive(wire(p));
        if outcome.is_err() {
            break;
        }
    }
    assert_eq!(outcome.err(), Some(ProtocolError::MalformedPdu));
    assert_eq!(scp.state, AssociationState::Aborted);
}

#[test]
fn c_get_counts_a_failed_local_store_and_goes_on() {
    let supported = vec![
        support(STUDY_ROOT_GET, &[IMPLICIT_VR_LITTLE_ENDIAN]),
        support(CT_STORAGE, &[IMPLICIT_VR_LITTLE_ENDIAN]),
    ];
    let (mut scu, mut scp) = connect(
        vec![
            proposal(1, STUDY_ROOT_GET, &[IMPLICIT_VR_LITTLE_ENDIAN]),
            proposal(3, CT_STORAGE, &[IMPLICIT_VR_LITTLE_ENDIAN]),
        ],
        &supported,
    );
    let peer: Vec<(u8, Vec<Element>, Option<Vec<u8>>)> = vec![
        (3, store_rq(200, "1.2.3.1"), Some(vec![1u8; 8])),
        (3, store_rq(201, "1.2.3.2"), Some(vec![2u8; 8])),
        (1, reply(C_GET_RSP, 5, 0xB000, false, vec![u16_element(0x1020, 0)]), None),
    ];
    let mut stream = RetrieveStream::for_get(5);
    let mut finished = None;
    for (ctx, c, d) in peer {
        for m in deliver(scp.send_on(ctx, &c, d.as_ref()).unwrap(), &mut scu) {
            match stream.next(m) {
                RetrieveEvent::Store(s) => {
                    // the first write fails, the second succeeds
                    let written = s.message_id != 200;
                    stream.record_store(written);
                    let rsp = store_response(&s, store_status(written)).unwrap();
                    let answers = deliver(scu.send_on(s.context_id, &rsp, None).unwrap(), &mut scp);
                    assert_eq!(get_u16(&answers[0].command, 0x0120), Some(s.message_id));
                    let expected = if written { STATUS_SUCCESS } else { 0xA700 };
                    assert_eq!(get_u16(&answers[0].command, TAG_STATUS), Some(expected));
                }
                RetrieveEvent::Done(status, c) => finished = Some((status, c)),
                _ => panic!("unexpected event"),
            }
        }
    }
    let (status, c) = finished.unwrap();
    assert_eq!(status, 0xB000);
    assert_eq!((c.completed, c.failed), (1, 1));
    assert_eq!(scu.state, AssociationState::Established);
}

#[test]
fn peer_max_pdu_length_is_read_from_the_answer() {
    let supported = vec![support(VERIFICATION_SOP_CLASS, &[IMPLICIT_VR_LITTLE_ENDIAN])];
    let (mut scu, rq) = Association::request("PACS", "VIEWER", vec![proposal(1, VERIFICATION_SOP_CLASS, &[IMPLICIT_VR_LITTLE_ENDIAN])], 16384).unwrap();
    let fields = match wire(rq) {
        Pdu::AssociateRq(f) => f,
        _ => panic!(),
    };
    let (scp, ac) = accept_association(&fields, "PACS", &supported, 4096, false);
    assert_eq!(scp.unwrap().peer_max_pdu_length, 16384);
    scu.on_associate_response(&wire(ac)).unwrap();
    assert_eq!(scu.peer_max_pdu_length, 4096);
    let data = vec![7u8; 10000];
    let rq = echo_request(1).unwrap();
    let pdus = scu.send(VERIFICATION_SOP_CLASS.as_bytes(), &rq, Some(&data)).unwrap();
    assert!(pdus.iter().all(|p| encode_pdu(p).len() <= 4096 + 6));
}
