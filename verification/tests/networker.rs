use falcotcp::enums::CompressionAlgorithm;
use falcotcp::CompressionAlgorithm as WireAlgorithm;
use falcotcp::errors::FalcoError;
use falcotcp::falco_pipeline::pipeline_receive;
use falcotcp::falco_pipeline::pipeline_send;
use falcotcp::falco_pipeline::CompressionChoice;
use falcotcp::falco_pipeline::Var;
use falcotcp::frame::decode_frame;
use falcotcp::frame::encode_frame;
use falcotcp::frame::encode_headers;
use falcotcp::ipv4::is_ipv4_bytes;
use falcotcp::networker::host_check;
use falcotcp::networker::Completion;
use falcotcp::networker::Networker;
use falcotcp::networker::Operation;
use falcotcp::networker::Submission;
use falcotcp::networker::DEFAULT_IDLE_TIMEOUT;
use falcotcp::networker::DEFAULT_MAX_BODY;
use falcotcp::MessageHeaders;

fn read_ids(subs: &[Submission]) -> Vec<u64> {
    subs.iter()
        .filter_map(|s| match s {
            Submission::Read { client_id, .. } => Some(*client_id),
            _ => None,
        })
        .collect()
}

fn read_maxes(subs: &[Submission]) -> Vec<usize> {
    subs.iter()
        .filter_map(|s| match s {
            Submission::Read { max, .. } => Some(*max),
            _ => None,
        })
        .collect()
}

fn close_ids(subs: &[Submission]) -> Vec<u64> {
    subs.iter()
        .filter_map(|s| match s {
            Submission::Close { client_id } => Some(*client_id),
            _ => None,
        })
        .collect()
}

fn write_payloads(subs: &[Submission]) -> Vec<(u64, Vec<u8>)> {
    subs.iter()
        .filter_map(|s| match s {
            Submission::Write { client_id, data } => Some((*client_id, data.clone())),
            _ => None,
        })
        .collect()
}

fn has_accept(subs: &[Submission]) -> bool {
    subs.iter().any(|s| matches!(s, Submission::Accept))
}

/// Bring one reactor up with a single accepted connection; returns the
/// reactor and the record id now reading headers.
fn accepted_reactor(now: u64) -> (Networker, u64) {
    let mut net = Networker::new("127.0.0.1", 8000, 128, 1).unwrap();
    let subs = net.cycle(Vec::new(), now);
    assert!(has_accept(&subs));
    let subs = net.cycle(vec![Completion::Accepted { ok: true }], now);
    let rids = read_ids(&subs);
    assert_eq!(rids.len(), 1);
    (net, rids[0])
}

#[test]
fn ipv4_literals() {
    assert!(is_ipv4_bytes(b"127.0.0.1"));
    assert!(is_ipv4_bytes(b"0.0.0.0"));
    assert!(is_ipv4_bytes(b"255.255.255.255"));
    assert!(!is_ipv4_bytes(b"256.0.0.1"));
    assert!(!is_ipv4_bytes(b"1.2.3"));
    assert!(!is_ipv4_bytes(b"1.2.3.4.5"));
    assert!(!is_ipv4_bytes(b"01.2.3.4"));
    assert!(!is_ipv4_bytes(b"1.2.3."));
    assert!(!is_ipv4_bytes(b""));
    assert!(!is_ipv4_bytes(b"a.b.c.d"));
    assert!(!is_ipv4_bytes(b"1.2.3.4x"));
}

#[test]
fn host_check_normalizes_localhost() {
    assert_eq!(host_check("localhost").unwrap(), b"127.0.0.1".to_vec());
    assert_eq!(host_check("10.0.0.7").unwrap(), b"10.0.0.7".to_vec());
    assert_eq!(host_check("example.org").unwrap_err(), FalcoError::InvalidConfiguration);
    assert_eq!(host_check("1.2.3.256").unwrap_err(), FalcoError::InvalidConfiguration);
}

#[test]
fn invalid_host_refuses_the_reactor() {
    assert!(Networker::new("nonsense", 8000, 10, 4).is_err());
    assert!(Networker::new("localhost", 8000, 10, 4).is_ok());
}

#[test]
fn echo_request_response() {
    // one client, no compression, no encryption: the server echoes
    let (mut net, rid) = accepted_reactor(0);
    let var = Var::new(None, CompressionChoice::Fixed(CompressionAlgorithm::Plain)).unwrap();

    // client side: build the wire frame for [1, 2, 3]
    let (tag, body) = pipeline_send(vec![1, 2, 3], &var).unwrap();
    let frame = encode_frame(tag, &body);

    // server side: header, then body
    let subs = net.cycle(
        vec![Completion::ReadDone { client_id: rid, data: frame[..9].to_vec() }],
        1,
    );
    assert_eq!(read_ids(&subs), vec![rid]);
    let subs = net.cycle(
        vec![Completion::ReadDone { client_id: rid, data: frame[9..].to_vec() }],
        2,
    );
    assert!(write_payloads(&subs).is_empty());

    // hand-off: the application echoes the request
    let handle = net.get_client().unwrap();
    let (alg, request) = handle.get_request(&net);
    let plain = pipeline_receive(u8::from(alg), request, &var).unwrap();
    assert_eq!(plain, vec![1, 2, 3]);
    let (rtag, rbody) = pipeline_send(plain, &var).unwrap();
    handle
        .apply_response(&mut net, rbody, WireAlgorithm::from(rtag), 3)
        .unwrap();

    // the response goes out as one frame
    let subs = net.cycle(Vec::new(), 4);
    let writes = write_payloads(&subs);
    assert_eq!(writes.len(), 1);
    assert_eq!(writes[0].0, rid);

    // client side: decode the frame and recover the echo
    let (rh, rwire) = decode_frame(&writes[0].1).unwrap();
    let response = pipeline_receive(rh.compr_alg, rwire, &var).unwrap();
    assert_eq!(response, vec![1, 2, 3]);

    // the write completes and the connection is kept alive
    let n = writes[0].1.len();
    net.cycle(vec![Completion::WroteDone { client_id: rid, n }], 5);
    let subs = net.cycle(Vec::new(), 6);
    assert_eq!(read_ids(&subs), vec![rid]);
}

#[test]
fn partial_reads_continue() {
    let (mut net, rid) = accepted_reactor(0);
    let header = encode_headers(&MessageHeaders { size: 4, compr_alg: 0 });
    let subs = net.cycle(
        vec![Completion::ReadDone { client_id: rid, data: header[..5].to_vec() }],
        1,
    );
    assert_eq!(read_ids(&subs), vec![rid]);
    // the continuation asks for exactly the four missing header bytes
    assert_eq!(read_maxes(&subs), vec![4]);
    let subs = net.cycle(
        vec![Completion::ReadDone { client_id: rid, data: header[5..].to_vec() }],
        2,
    );
    assert_eq!(read_ids(&subs), vec![rid]);
    // and then for the whole four-byte body
    assert_eq!(read_maxes(&subs), vec![4]);
    // the body, one byte at a time
    for b in [10u8, 11, 12] {
        let subs = net.cycle(vec![Completion::ReadDone { client_id: rid, data: vec![b] }], 3);
        assert_eq!(read_ids(&subs), vec![rid]);
    }
    net.cycle(vec![Completion::ReadDone { client_id: rid, data: vec![13] }], 4);
    let handle = net.get_client().unwrap();
    let (_, request) = handle.get_request(&net);
    assert_eq!(request, vec![10, 11, 12, 13]);
    handle.kill(&mut net);
}

#[test]
fn zero_size_body_is_legal() {
    let (mut net, rid) = accepted_reactor(0);
    let header = encode_headers(&MessageHeaders { size: 0, compr_alg: 0 });
    net.cycle(vec![Completion::ReadDone { client_id: rid, data: header }], 1);
    // one more cycle promotes the empty request to the application
    net.cycle(Vec::new(), 2);
    let handle = net.get_client().unwrap();
    let (_, request) = handle.get_request(&net);
    assert!(request.is_empty());
    handle.apply_response(&mut net, Vec::new(), WireAlgorithm::Plain, 3).unwrap();
    let subs = net.cycle(Vec::new(), 4);
    let writes = write_payloads(&subs);
    assert_eq!(writes.len(), 1);
    assert_eq!(writes[0].1.len(), 9);
}

#[test]
fn oversized_header_kills_the_connection() {
    let (mut net, rid) = accepted_reactor(0);
    let header = encode_headers(&MessageHeaders {
        size: DEFAULT_MAX_BODY as u64 + 1,
        compr_alg: 0,
    });
    let subs = net.cycle(vec![Completion::ReadDone { client_id: rid, data: header }], 1);
    assert_eq!(close_ids(&subs), vec![rid]);
    assert!(write_payloads(&subs).is_empty());
    assert!(net.get_client().is_none());
}

#[test]
fn maximum_size_header_is_admitted() {
    let (mut net, rid) = accepted_reactor(0);
    let header = encode_headers(&MessageHeaders { size: DEFAULT_MAX_BODY as u64, compr_alg: 0 });
    let subs = net.cycle(vec![Completion::ReadDone { client_id: rid, data: header }], 1);
    // the reactor goes on to read the body rather than killing
    assert_eq!(read_ids(&subs), vec![rid]);
    assert!(close_ids(&subs).is_empty());
}

#[test]
fn dropped_handle_closes_without_sending() {
    let (mut net, rid) = accepted_reactor(0);
    let header = encode_headers(&MessageHeaders { size: 1, compr_alg: 0 });
    net.cycle(vec![Completion::ReadDone { client_id: rid, data: header }], 1);
    net.cycle(vec![Completion::ReadDone { client_id: rid, data: vec![42] }], 2);
    let handle = net.get_client().unwrap();
    // the application refuses the request
    handle.kill(&mut net);
    let subs = net.cycle(Vec::new(), 3);
    assert_eq!(close_ids(&subs), vec![rid]);
    assert!(write_payloads(&subs).is_empty());
    // nothing is ever written afterwards either
    let subs = net.cycle(vec![Completion::Closed { client_id: rid }], 4);
    assert!(write_payloads(&subs).is_empty());
}

#[test]
fn idle_connection_times_out() {
    // connect and send nothing
    let (mut net, rid) = accepted_reactor(0);
    // within the window nothing happens
    let subs = net.cycle(Vec::new(), DEFAULT_IDLE_TIMEOUT);
    assert!(close_ids(&subs).is_empty());
    // past the window the reactor closes the socket
    let subs = net.cycle(Vec::new(), DEFAULT_IDLE_TIMEOUT + 1);
    assert_eq!(close_ids(&subs), vec![rid]);
    // the close completion frees the slot for the next connection
    net.cycle(vec![Completion::Closed { client_id: rid }], DEFAULT_IDLE_TIMEOUT + 2);
    let subs = net.cycle(vec![Completion::Accepted { ok: true }], DEFAULT_IDLE_TIMEOUT + 3);
    let rids = read_ids(&subs);
    assert_eq!(rids.len(), 1);
    // the slot was reused under a fresh id
    assert_ne!(rids[0], rid);
}

#[test]
fn stale_completions_are_discarded() {
    let (mut net, rid) = accepted_reactor(0);
    // a completion for an id nobody owns changes nothing
    let subs = net.cycle(
        vec![Completion::ReadDone { client_id: rid + 999, data: vec![1, 2, 3] }],
        1,
    );
    assert!(close_ids(&subs).is_empty());
    assert!(net.get_client().is_none());
    // peer closed: an empty read kills the record
    let subs = net.cycle(vec![Completion::ReadDone { client_id: rid, data: Vec::new() }], 2);
    assert_eq!(close_ids(&subs), vec![rid]);
    // a late read completion for the killed record is discarded
    let subs = net.cycle(vec![Completion::ReadDone { client_id: rid, data: vec![9] }], 3);
    assert!(write_payloads(&subs).is_empty());
}

#[test]
fn overflow_accepts_are_rejected() {
    let mut net = Networker::new("127.0.0.1", 8000, 128, 1).unwrap();
    net.cycle(Vec::new(), 0);
    net.cycle(vec![Completion::Accepted { ok: true }], 0);
    // the only slot is taken; the next accepted connection is refused
    let subs = net.cycle(vec![Completion::Accepted { ok: true }], 1);
    let reject = subs.iter().find(|s| matches!(s, Submission::Reject)).unwrap();
    // refusing a connection is a close on its socket
    assert_eq!(reject.operation(), Operation::OPClose);
    // and one accept is left outstanding again
    let accept = subs.iter().find(|s| matches!(s, Submission::Accept)).unwrap();
    assert_eq!(accept.operation(), Operation::OPSocketAcc);
}

#[test]
fn oversized_response_is_refused() {
    let (mut net, rid) = accepted_reactor(0);
    let header = encode_headers(&MessageHeaders { size: 1, compr_alg: 0 });
    net.cycle(vec![Completion::ReadDone { client_id: rid, data: header }], 1);
    net.cycle(vec![Completion::ReadDone { client_id: rid, data: vec![1] }], 2);
    let handle = net.get_client().unwrap();
    let err = handle
        .apply_response(
            &mut net,
            vec![0u8; DEFAULT_MAX_BODY as usize + 1],
            WireAlgorithm::Plain,
            3,
        )
        .unwrap_err();
    assert_eq!(err, FalcoError::InvalidConfiguration);
}

#[test]
fn default_reactor_is_uninitialized() {
    let net = Networker::default();
    // an uninitialized reactor accepts no work; `new` is the way in
    drop(net);
}
