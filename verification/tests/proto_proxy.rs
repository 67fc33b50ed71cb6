use openpair::proto::discovery::{record_to_txt, NodeRecord, MDNS_SERVICE_TYPE};
use openpair::proto::endpoints;
use openpair::proto::jsonrpc::JsonRpcVersion;
use openpair::proto::methods;
use openpair::proto::telemetry::{Gpu, GpuVendor};
use openpair::proto::txt_keys;
use openpair::proxy::ingress::IngressEnvelope;
use openpair::proxy::live::{ingress_action, peer_reply, plan_route, IngressAction, RoutePlan};
use openpair::proxy::model::{extract_model, normalize_model_key};
use openpair::proxy::router::{select, Candidate};
use openpair::proxy::routing::{PeerEntry, RoutingTable};
use openpair::proxy::tags::parse_ollama_tags;
use openpair::rpc::framing::{content_length, header_complete, line_message, prefix_length, Framing};

#[test]
fn spot_check() {
    assert_eq!(methods::NODE_SET_PRIORITY, "node/set-priority");
    assert_eq!(endpoints::INGRESS, "/ingress");
    assert_eq!(endpoints::NODE_INFO, "/v1/node-info");
    assert_eq!(txt_keys::NODE_UUID, "uuid");
    assert_eq!(txt_keys::VERSION, "v");
}

#[test]
fn service_type_is_exact() {
    assert_eq!(MDNS_SERVICE_TYPE, "_nvpair-node._tcp");
}

#[test]
fn txt_parse_keeps_unknown() {
    let rec = NodeRecord::from_txt(&["uuid=n1", "cluster=c1", "weird=42"]);
    assert_eq!(rec.node_uuid.as_deref(), Some("n1"));
    assert_eq!(rec.cluster_uuid.as_deref(), Some("c1"));
    assert_eq!(rec.extra.get("weird").map(String::as_str), Some("42"));
}

#[test]
fn txt_roundtrip_keys() {
    let mut rec = NodeRecord::new();
    rec.node_uuid = Some("n-1".into());
    rec.cluster_uuid = Some("c-1".into());
    let props = record_to_txt(&rec);
    assert_eq!(props.get("nodeUuid").map(String::as_str), Some("n-1"));
    assert_eq!(props.get("cluster-uuid").map(String::as_str), Some("c-1"));
    assert_eq!(props.get("uuid").map(String::as_str), Some("n-1"));
    let back = NodeRecord::from_txt(&["nodeUuid=n-1", "cluster-uuid=c-1"]);
    assert_eq!(back.node_uuid.as_deref(), Some("n-1"));
}

#[test]
fn vendor_from_pci() {
    assert_eq!(GpuVendor::from_pci_id(0x1002), GpuVendor::Amd);
    assert_eq!(GpuVendor::from_pci_id(0x10de), GpuVendor::Nvidia);
    assert_eq!(GpuVendor::from_pci_id(0x8086), GpuVendor::Intel);
    assert_eq!(GpuVendor::from_pci_id(0x1234), GpuVendor::Other);
}

#[test]
fn jsonrpc_version_is_two() {
    assert!(JsonRpcVersion::parse("2.0").is_some());
    assert!(JsonRpcVersion::parse("1.0").is_none());
}

fn gpu(total: Option<u64>, used: Option<u64>) -> Gpu {
    Gpu {
        name: "g".into(),
        vram_bytes: total,
        vram_used_bytes: used,
        utilization_percent: None,
        uuid: "u".into(),
        vendor: GpuVendor::Other,
        vendor_id: None,
    }
}

#[test]
fn free_vram_counts_reporting_gpus() {
    let ni = openpair::nodeinfo::inventory::collect(
        None,
        None,
        vec![gpu(Some(100), Some(30)), gpu(Some(50), None), gpu(Some(10), Some(20))],
        None,
        None,
        None,
    );
    assert_eq!(ni.free_vram_bytes(), 70);
    assert!(ni.telemetry_valid);
}

#[test]
fn extract_from_ollama_and_openai() {
    assert_eq!(extract_model(br#"{"model":"llama3","prompt":"hi"}"#).as_deref(), Some("llama3"));
    assert_eq!(extract_model(br#"{"model":"gpt-oss:20b","messages":[]}"#).as_deref(), Some("gpt-oss:20b"));
    assert_eq!(extract_model(b"not json"), None);
    assert_eq!(extract_model(br#"{"prompt":"no model"}"#), None);
}

#[test]
fn normalize_strips_latest() {
    assert_eq!(normalize_model_key("llama3:latest"), "llama3");
    assert_eq!(normalize_model_key("llama3:8b"), "llama3:8b");
}

fn cand(id: &str, model: bool, is_self: bool, pinned: bool, rank: Option<u32>, manual: bool) -> Candidate {
    Candidate {
        node_id: id.into(),
        base_url: format!("http://{id}"),
        advertises_model: model,
        is_self,
        pinned,
        priority_rank: rank,
        manually_selected: manual,
        host: None,
        ingress_port: None,
    }
}

#[test]
fn manual_wins() {
    let cands = vec![cand("a", true, false, true, Some(0), false), cand("b", true, false, true, Some(9), true)];
    assert_eq!(select(&cands).unwrap().node_id, "b");
}

#[test]
fn priority_then_self() {
    let cands = vec![cand("self", true, true, false, None, false), cand("peer", true, false, true, Some(1), false)];
    // peer has a rank, self does not -> ranked peer wins.
    assert_eq!(select(&cands).unwrap().node_id, "peer");

    let cands2 = vec![cand("self", true, true, false, None, false), cand("peer", true, false, true, None, false)];
    // no ranks -> prefer self.
    assert_eq!(select(&cands2).unwrap().node_id, "self");
}

#[test]
fn unpinned_peer_is_ineligible() {
    let cands = vec![cand("peer", true, false, false, Some(0), false)];
    assert!(select(&cands).is_none());
}

#[test]
fn model_must_be_advertised() {
    let cands = vec![cand("self", false, true, false, None, false)];
    assert!(select(&cands).is_none());
}

#[test]
fn lower_rank_wins_first_on_ties() {
    let cands = vec![cand("z", true, false, true, Some(1), false), cand("y", true, false, true, Some(1), false), cand("x", true, false, true, Some(3), false)];
    assert_eq!(select(&cands).unwrap().node_id, "z");
    let plain = vec![cand("z", true, false, true, None, false), cand("m", true, false, true, None, false)];
    assert_eq!(select(&plain).unwrap().node_id, "m");
}

fn peer(id: &str, models: &[&str], pinned: bool, rank: Option<u32>) -> PeerEntry {
    PeerEntry {
        node_id: id.into(),
        host: format!("10.0.0.{}", id.len()),
        ingress_port: 7443,
        models: models.iter().map(|s| s.to_string()).collect(),
        pinned,
        priority_rank: rank,
        manually_selected: false,
    }
}

#[test]
fn routes_to_peer_when_self_lacks_model() {
    let mut t = RoutingTable::new("self");
    t.set_local_models(vec!["mistral".to_string()]);
    t.upsert_peer(peer("b", &["llama3"], true, Some(0)));

    let cands = t.candidates_for(Some("llama3"), "127.0.0.1:11434");
    let chosen = select(&cands).unwrap();
    assert_eq!(chosen.node_id, "b");
    assert_eq!(chosen.ingress_port, Some(7443));
    assert!(!chosen.is_self);
}

#[test]
fn prefers_self_when_it_has_the_model() {
    let mut t = RoutingTable::new("self");
    t.set_local_models(vec!["llama3".to_string()]);
    t.upsert_peer(peer("b", &["llama3"], true, None));
    let cands = t.candidates_for(Some("llama3"), "127.0.0.1:11434");
    assert!(select(&cands).unwrap().is_self);
}

#[test]
fn unpinned_peer_ignored() {
    let mut t = RoutingTable::new("self");
    t.set_local_models(vec![]); // self has nothing
    t.upsert_peer(peer("b", &["llama3"], false, Some(0))); // not pinned
    let cands = t.candidates_for(Some("llama3"), "127.0.0.1:11434");
    assert!(select(&cands).is_none());
}

#[test]
fn plan_routes_by_model() {
    let mut t = RoutingTable::new("self");
    t.set_local_models(vec!["mistral".to_string()]);
    t.upsert_peer(peer("b", &["llama3"], true, Some(0)));
    match plan_route(&t, br#"{"model":"llama3"}"#, "/api/generate", "127.0.0.1:11434") {
        RoutePlan::Peer { host, port, envelope } => {
            assert_eq!(host, "10.0.0.1");
            assert_eq!(port, 7443);
            assert_eq!(envelope.path.as_deref(), Some("/api/generate"));
            assert_eq!(envelope.name.as_deref(), Some("llama3"));
            assert_eq!(envelope.data.as_deref(), Some(r#"{"model":"llama3"}"#));
        }
        _ => panic!("expected the peer"),
    }
    assert!(matches!(plan_route(&t, br#"{"model":"mistral"}"#, "/api/chat", "b"), RoutePlan::Local));
    assert!(matches!(plan_route(&t, br#"{"model":"phi"}"#, "/api/chat", "b"), RoutePlan::NoTarget));
}

#[test]
fn peer_reply_defaults_to_bad_gateway() {
    let e = IngressEnvelope::default();
    let (code, body) = peer_reply(&e);
    assert_eq!(code, 502);
    assert!(body.is_empty());
}

#[test]
fn ingress_action_checks_path_and_body() {
    assert!(matches!(ingress_action("/other", b"{}"), IngressAction::NotFound));
    assert!(matches!(ingress_action("/ingress", b"garbage"), IngressAction::BadRequest));
}

#[test]
fn ingress_roundtrip_named_fields() {
    let e = IngressEnvelope {
        host: Some("10.0.0.5".into()),
        port: Some(11434),
        path: Some("/api/generate".into()),
        name: Some("llama3".into()),
        data: Some("{\"model\":\"llama3\"}".into()),
        ..Default::default()
    };
    let s = e.to_json();
    for k in ["host", "port", "path", "name", "data"] {
        assert!(s.contains(k), "missing {k}");
    }
    let back = IngressEnvelope::from_json(s.as_bytes()).unwrap();
    assert_eq!(back.port, Some(11434));
    assert_eq!(back.path.as_deref(), Some("/api/generate"));
}

#[test]
fn parse_tags() {
    let body = br#"{"models":[{"name":"llama3:latest","size":1},{"name":"mistral:7b"}]}"#;
    let m = parse_ollama_tags(body);
    assert_eq!(m, vec!["llama3:latest", "mistral:7b"]);
}

#[test]
fn parse_tags_empty_on_garbage() {
    assert!(parse_ollama_tags(b"nope").is_empty());
    assert!(parse_ollama_tags(br#"{"models":[]}"#).is_empty());
}

#[test]
fn encode_shapes() {
    assert_eq!(Framing::JsonLines.encode(b"{}"), b"{}\n");
    assert_eq!(&Framing::LengthPrefixedBE.encode(b"{}")[..4], &[0, 0, 0, 2]);
    assert!(Framing::ContentLength.encode(b"{}").starts_with(b"Content-Length: 2\r\n\r\n"));
}

#[test]
fn frame_reading_helpers() {
    assert_eq!(line_message(b"{}\r"), Some(b"{}".to_vec()));
    assert_eq!(line_message(b"\r"), None);
    assert_eq!(prefix_length([0, 0, 1, 2]), 258);
    assert!(header_complete(b"Content-Length: 2\r\n\r\n"));
    assert!(!header_complete(b"Content-Length: 2\r\n"));
    assert_eq!(content_length(b"Content-Length: 2\r\n\r\n"), Some(2));
    assert_eq!(content_length(b"X: y\r\nContent-Length:  17 \r\n\r\n"), Some(17));
    assert_eq!(content_length(b"Content-Length: 5\r\nContent-Length: x\r\n\r\n"), None);
    assert_eq!(content_length(b"Other: 1\r\n\r\n"), None);
}

#[test]
fn framings_read_back_what_they_write() {
    let body = br#"{"jsonrpc":"2.0","method":"x"}"#;
    let cl = Framing::ContentLength.encode(body);
    let header_end = cl.len() - body.len();
    assert_eq!(content_length(&cl[..header_end]), Some(body.len()));
    assert_eq!(&cl[header_end..], body);
    let lp = Framing::LengthPrefixedBE.encode(body);
    assert_eq!(prefix_length([lp[0], lp[1], lp[2], lp[3]]) as usize, body.len());
    assert_eq!(&lp[4..], body);
    let jl = Framing::JsonLines.encode(body);
    assert_eq!(jl.last(), Some(&b'\n'));
    assert_eq!(line_message(&jl[..jl.len() - 1]), Some(body.to_vec()));
}

#[test]
fn ingress_envelope_with_a_repeated_member_is_refused() {
    assert!(IngressEnvelope::from_json(br#"{"name":"m","name":"n"}"#).is_none());
    assert!(IngressEnvelope::from_json(br#"{"name":"m","extra":{"a":1},"extra":[1]}"#).is_some());
}
