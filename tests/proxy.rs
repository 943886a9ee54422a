use dynode::chain_service::{check_status, BlockReply, ChainService, HttpMethod, ProbeError};
use dynode::chain_type::ChainType;
use dynode::config::{Domain, Header, Metrics, NodeConfig, Url, UrlOverride};
use dynode::metrics::{
    categorize_user_agent, first_matching_category, truncate_path, ResponseLabels,
    UserAgentCategory,
};
use dynode::model::{
    AptosBlock, BitcoinBlock, BitcoinBlockbook, CosmosBlock, CosmosBlockHeader,
    CosmosBlockResponse, JSONRPCResponse, NearBlock, NearBlockHeader, TonBlock, TronBlock,
    TronBlockHeader, TronBlockHeaderRaw, XRPBlock,
};
use dynode::node_service::{successful_results, NodeRawResult, NodeResult, RoutingTable};
use dynode::numbers::{parse_hex_u64, parse_u64};
use dynode::proxy_request_service::{
    keep_headers, names_match, persist_headers, Dispatch, DispatchError, NodeDomain,
    ProxyRequestService, RequestUrl,
};

fn header(name: &str, value: &str) -> Header {
    Header { name: name.to_string(), value: value.to_string() }
}

fn endpoint(base: &str) -> Url {
    Url { url: base.to_string(), headers: vec![], urls_override: vec![] }
}

fn domain(name: &str, chain: &str, delay: Option<u64>, urls: Vec<Url>) -> Domain {
    Domain {
        domain: name.to_string(),
        chain_type: chain.to_string(),
        block_delay: delay,
        poll_interval_seconds: None,
        urls,
    }
}

fn result(u: &Url, height: u64) -> NodeResult {
    NodeResult { url: u.clone(), block_number: height, latency: 5 }
}

fn active(table: &RoutingTable, name: &str) -> String {
    table.get_node_domain(&name.to_string()).expect("known domain").url.url
}

fn eth_service() -> ChainService {
    ChainService { chain_type: ChainType::Ethereum, url: "https://eth.example".to_string() }
}

#[test]
fn hex_json_rpc_result_gives_height() {
    let reply = BlockReply::Ethereum(JSONRPCResponse { result: "0x2A".to_string() });
    assert_eq!(eth_service().get_block_number(&reply), Ok(42));
}

#[test]
fn hex_result_without_prefix_is_invalid() {
    let reply = BlockReply::Ethereum(JSONRPCResponse { result: "2A".to_string() });
    assert_eq!(eth_service().get_block_number(&reply), Err(ProbeError::InvalidNumber));
}

#[test]
fn signed_heights_are_invalid() {
    let reply = BlockReply::Ethereum(JSONRPCResponse { result: "0x+2A".to_string() });
    assert_eq!(eth_service().get_block_number(&reply), Err(ProbeError::InvalidNumber));
    let cosmos = ChainService { chain_type: ChainType::Cosmos, url: "http://n".to_string() };
    let reply = BlockReply::Cosmos(CosmosBlockResponse {
        block: CosmosBlock { header: CosmosBlockHeader { height: "+5".to_string() } },
    });
    assert_eq!(cosmos.get_block_number(&reply), Err(ProbeError::InvalidNumber));
    let sui = ChainService { chain_type: ChainType::Sui, url: "http://n".to_string() };
    let reply = BlockReply::Sui(JSONRPCResponse { result: "".to_string() });
    assert_eq!(sui.get_block_number(&reply), Err(ProbeError::InvalidNumber));
}

#[test]
fn reply_of_another_chain_is_refused() {
    let reply = BlockReply::Solana(JSONRPCResponse { result: 7 });
    assert_eq!(eth_service().get_block_number(&reply), Err(ProbeError::MismatchedReply));
}

#[test]
fn each_chain_reads_its_own_field() {
    let svc = |c: ChainType| ChainService { chain_type: c, url: "http://n".to_string() };
    let cases: Vec<(ChainType, BlockReply, Result<u64, ProbeError>)> = vec![
        (ChainType::Bitcoin, BlockReply::Bitcoin(BitcoinBlock { blockbook: BitcoinBlockbook { best_height: 800000 } }), Ok(800000)),
        (ChainType::Solana, BlockReply::Solana(JSONRPCResponse { result: 250000000 }), Ok(250000000)),
        (ChainType::Cosmos, BlockReply::Cosmos(CosmosBlockResponse { block: CosmosBlock { header: CosmosBlockHeader { height: "123".to_string() } } }), Ok(123)),
        (ChainType::Cosmos, BlockReply::Cosmos(CosmosBlockResponse { block: CosmosBlock { header: CosmosBlockHeader { height: "12a".to_string() } } }), Err(ProbeError::InvalidNumber)),
        (ChainType::Ton, BlockReply::Ton(JSONRPCResponse { result: TonBlock { consensus_block: 99 } }), Ok(99)),
        (ChainType::Tron, BlockReply::Tron(TronBlock { block_header: TronBlockHeader { raw_data: TronBlockHeaderRaw { number: 61000000 } } }), Ok(61000000)),
        (ChainType::Aptos, BlockReply::Aptos(AptosBlock { block_height: "456".to_string() }), Ok(456)),
        (ChainType::Sui, BlockReply::Sui(JSONRPCResponse { result: "789".to_string() }), Ok(789)),
        (ChainType::Xrp, BlockReply::Xrp(JSONRPCResponse { result: XRPBlock { ledger_current_index: 88 } }), Ok(88)),
        (ChainType::Near, BlockReply::Near(JSONRPCResponse { result: NearBlock { header: NearBlockHeader { height: 1234 } } }), Ok(1234)),
    ];
    for (chain, reply, expected) in cases {
        assert_eq!(svc(chain).get_block_number(&reply), expected);
    }
}

#[test]
fn numbers_are_digits_only() {
    assert_eq!(parse_u64("42", 10), Some(42));
    assert_eq!(parse_u64("+42", 10), None);
    assert_eq!(parse_u64(" 42", 10), None);
    assert_eq!(parse_u64("", 10), None);
    assert_eq!(parse_u64("+", 10), None);
    assert_eq!(parse_u64("-1", 10), None);
    assert_eq!(parse_u64("18446744073709551615", 10), Some(u64::MAX));
    assert_eq!(parse_u64("18446744073709551616", 10), None);
    assert_eq!(parse_u64("ff", 16), Some(255));
    assert_eq!(parse_hex_u64("0xff"), Some(255));
    assert_eq!(parse_hex_u64("0xFFFFFFFFFFFFFFFF"), Some(u64::MAX));
    assert_eq!(parse_hex_u64("0x10000000000000000"), None);
    assert_eq!(parse_hex_u64("0x"), None);
    assert_eq!(parse_hex_u64("0X1"), None);
    assert_eq!(parse_hex_u64("0x+2A"), None);
}

#[test]
fn probe_requests_follow_each_chain() {
    let svc = |c: ChainType| ChainService { chain_type: c, url: "http://n".to_string() };
    let btc = svc(ChainType::Bitcoin).probe_request().unwrap();
    assert_eq!(btc.method, HttpMethod::Get);
    assert_eq!(btc.uri, "http://n/api/");
    assert!(btc.rpc.is_none());
    let tron = svc(ChainType::Tron).probe_request().unwrap();
    assert_eq!(tron.method, HttpMethod::Post);
    assert_eq!(tron.uri, "http://n/wallet/getnowblock");
    let eth = svc(ChainType::Ethereum).probe_request().unwrap();
    assert_eq!(eth.method, HttpMethod::Post);
    assert_eq!(eth.uri, "http://n");
    let call = eth.rpc.unwrap();
    assert_eq!(call.id, 1);
    assert_eq!(call.method, "eth_blockNumber");
    assert_eq!(call.jsonrpc, "2.0");
    assert!(call.params.is_none());
    let near = svc(ChainType::Near).probe_request().unwrap().rpc.unwrap();
    assert_eq!(near.method, "block");
    let params = near.params.unwrap();
    assert_eq!(params["finality"], "final");
}

#[test]
fn chain_names_parse() {
    assert_eq!(ChainType::from_name("ethereum"), Some(ChainType::Ethereum));
    assert_eq!(ChainType::from_name("near"), Some(ChainType::Near));
    assert_eq!(ChainType::from_name("Ethereum"), None);
    assert_eq!(ChainType::from_name("dogecoin"), None);
}

#[test]
fn unknown_chain_probes_nothing() {
    let d = domain("x.example", "dogecoin", None, vec![endpoint("http://a"), endpoint("http://b")]);
    assert!(d.probe_targets().is_empty());
    let d = domain("x.example", "ethereum", None, vec![endpoint("http://a"), endpoint("http://b")]);
    let targets = d.probe_targets();
    assert_eq!(targets.len(), 2);
    assert_eq!(targets[1].url, "http://b");
    assert_eq!(targets[1].chain_type, ChainType::Ethereum);
}

#[test]
fn defaults_apply_when_unset() {
    let mut d = domain("x.example", "ethereum", None, vec![endpoint("http://a")]);
    assert_eq!(d.get_block_delay(), 100);
    assert_eq!(d.get_poll_interval_seconds(), 600);
    d.block_delay = Some(7);
    d.poll_interval_seconds = Some(30);
    assert_eq!(d.get_block_delay(), 7);
    assert_eq!(d.get_poll_interval_seconds(), 30);
    assert!(!d.needs_monitor());
    let n = d.get_node_domain(endpoint("http://z"));
    assert_eq!(n.url.url, "http://z");
}

#[test]
fn behind_endpoint_switches_to_highest() {
    let a = endpoint("http://a");
    let b = endpoint("http://b");
    let d = domain("eth.example", "ethereum", Some(40), vec![a.clone(), b.clone()]);
    let mut table = RoutingTable::from_domains(&vec![d.clone()]).unwrap();
    assert_eq!(active(&table, "eth.example"), "http://a");
    let results = vec![result(&a, 100), result(&b, 150)];
    assert!(d.is_url_behind(a.clone(), results.clone()));
    assert!(table.apply_cycle(&d, &results));
    assert_eq!(active(&table, "eth.example"), "http://b");
}

#[test]
fn endpoint_within_delay_keeps_route() {
    let a = endpoint("http://a");
    let b = endpoint("http://b");
    let d = domain("eth.example", "ethereum", Some(50), vec![a.clone(), b.clone()]);
    let mut table = RoutingTable::from_domains(&vec![d.clone()]).unwrap();
    let results = vec![result(&a, 100), result(&b, 150)];
    assert!(!d.is_url_behind(a.clone(), results.clone()));
    assert!(!table.apply_cycle(&d, &results));
    assert_eq!(active(&table, "eth.example"), "http://a");
}

#[test]
fn missing_active_result_counts_as_behind() {
    let a = endpoint("http://a");
    let b = endpoint("http://b");
    let d = domain("eth.example", "ethereum", None, vec![a.clone(), b.clone()]);
    let mut table = RoutingTable::from_domains(&vec![d.clone()]).unwrap();
    let results = vec![result(&b, 10)];
    assert!(d.is_url_behind(a.clone(), results.clone()));
    assert!(table.apply_cycle(&d, &results));
    assert_eq!(active(&table, "eth.example"), "http://b");
}

#[test]
fn highest_ties_go_to_the_first() {
    let a = endpoint("http://a");
    let b = endpoint("http://b");
    let c = endpoint("http://c");
    let best = dynode::config::Domain::find_highest_block_number(vec![
        result(&a, 5),
        result(&b, 9),
        result(&c, 9),
    ])
    .unwrap();
    assert_eq!(best.url.url, "http://b");
    assert!(dynode::config::Domain::find_highest_block_number(vec![]).is_none());
    let d = domain("t.example", "ethereum", Some(0), vec![a.clone(), b.clone(), c.clone()]);
    let mut table = RoutingTable::from_domains(&vec![d.clone()]).unwrap();
    assert!(table.apply_cycle(&d, &vec![result(&a, 5), result(&b, 9), result(&c, 9)]));
    assert_eq!(active(&table, "t.example"), "http://b");
}

#[test]
fn all_failed_probes_leave_route() {
    let a = endpoint("http://a");
    let b = endpoint("http://b");
    let d = domain("eth.example", "ethereum", None, vec![a.clone(), b.clone()]);
    let mut table = RoutingTable::from_domains(&vec![d.clone()]).unwrap();
    let raw = vec![
        NodeRawResult { url: a.clone(), result: Err(ProbeError::Transport("refused".to_string())), latency: 3 },
        NodeRawResult { url: b.clone(), result: Err(ProbeError::InvalidNumber), latency: 4 },
    ];
    let results = successful_results(raw);
    assert!(results.is_empty());
    assert!(!table.apply_cycle(&d, &results));
    assert_eq!(active(&table, "eth.example"), "http://a");
}

#[test]
fn successful_results_keep_order() {
    let a = endpoint("http://a");
    let b = endpoint("http://b");
    let c = endpoint("http://c");
    let raw = vec![
        NodeRawResult { url: a.clone(), result: Ok(10), latency: 1 },
        NodeRawResult { url: b.clone(), result: Err(ProbeError::InvalidNumber), latency: 2 },
        NodeRawResult { url: c.clone(), result: Ok(30), latency: 3 },
    ];
    let results = successful_results(raw);
    assert_eq!(results.len(), 2);
    assert_eq!(results[0].url.url, "http://a");
    assert_eq!(results[0].block_number, 10);
    assert_eq!(results[1].url.url, "http://c");
    assert_eq!(results[1].latency, 3);
}

#[test]
fn single_candidate_route_never_changes() {
    let a = endpoint("http://a");
    let d = domain("one.example", "ethereum", Some(0), vec![a.clone()]);
    assert!(!d.needs_monitor());
    let mut table = RoutingTable::from_domains(&vec![d.clone()]).unwrap();
    for h in [5u64, 1, 1000, 0] {
        table.apply_cycle(&d, &vec![result(&a, h)]);
        table.apply_cycle(&d, &vec![]);
        assert_eq!(active(&table, "one.example"), "http://a");
    }
}

#[test]
fn second_identical_cycle_changes_nothing() {
    let a = endpoint("http://a");
    let b = endpoint("http://b");
    let d = domain("eth.example", "ethereum", Some(10), vec![a.clone(), b.clone()]);
    let mut table = RoutingTable::from_domains(&vec![d.clone()]).unwrap();
    let results = vec![result(&a, 100), result(&b, 200)];
    assert!(table.apply_cycle(&d, &results));
    assert_eq!(active(&table, "eth.example"), "http://b");
    assert!(!table.apply_cycle(&d, &results));
    assert_eq!(active(&table, "eth.example"), "http://b");
}

#[test]
fn endpoints_compare_whole() {
    let a = endpoint("http://a");
    let mut a2 = endpoint("http://a");
    assert!(a.same_as(&a2));
    a2.headers.push(header("x-api-key", "k"));
    assert!(!a.same_as(&a2));
    let results = vec![result(&a2, 100), result(&endpoint("http://b"), 100)];
    let d = domain("eth.example", "ethereum", None, vec![]);
    assert!(d.is_url_behind(a, results));
}

#[test]
fn routing_table_updates_in_place() {
    let mut table = RoutingTable::new();
    assert!(table.get_node_domain(&"a.example".to_string()).is_none());
    table.update_node_domain("a.example".to_string(), NodeDomain { url: endpoint("http://1") });
    table.update_node_domain("b.example".to_string(), NodeDomain { url: endpoint("http://2") });
    table.update_node_domain("a.example".to_string(), NodeDomain { url: endpoint("http://3") });
    assert_eq!(active(&table, "a.example"), "http://3");
    assert_eq!(active(&table, "b.example"), "http://2");
    let snapshot = table.get_node_domains();
    table.update_node_domain("b.example".to_string(), NodeDomain { url: endpoint("http://4") });
    assert_eq!(active(&snapshot, "b.example"), "http://2");
}

#[test]
fn domain_without_candidates_is_refused() {
    let d = domain("none.example", "ethereum", None, vec![]);
    let ok = domain("ok.example", "ethereum", None, vec![endpoint("http://a")]);
    assert!(RoutingTable::from_domains(&vec![ok.clone(), d]).is_none());
    assert!(RoutingTable::from_domains(&vec![ok]).is_some());
}

#[test]
fn later_domain_of_same_name_wins() {
    let first = domain("a.example", "ethereum", None, vec![endpoint("http://old")]);
    let other = domain("b.example", "bitcoin", None, vec![endpoint("http://b")]);
    let second = domain("a.example", "solana", None, vec![endpoint("http://new")]);
    let config = NodeConfig {
        port: 8080,
        address: "0.0.0.0".to_string(),
        metrics: Metrics { port: 8081, address: "0.0.0.0".to_string(), user_agent_patterns: vec![] },
        domains: vec![first, other, second],
    };
    let unique = config.domains_map();
    assert_eq!(unique.len(), 2);
    assert_eq!(unique[0].domain, "a.example");
    assert_eq!(unique[0].chain_type, "solana");
    assert_eq!(unique[1].domain, "b.example");
    let table = RoutingTable::from_domains(&config.domains).unwrap();
    assert_eq!(active(&table, "a.example"), "http://new");
}

fn service_with(url: Url) -> ProxyRequestService {
    let mut table = RoutingTable::new();
    table.update_node_domain("known.example".to_string(), NodeDomain { url });
    ProxyRequestService { domains: table }
}

fn endpoint_with_override() -> Url {
    Url {
        url: "https://active.example".to_string(),
        headers: vec![header("x-api-key", "base-key")],
        urls_override: vec![UrlOverride {
            path: "/p".to_string(),
            url: "https://override.example/rpc".to_string(),
            headers: vec![header("authorization", "Bearer t")],
        }],
    }
}

#[test]
fn unknown_host_gets_unsupported_domain() {
    let svc = service_with(endpoint("https://a.example"));
    let headers = vec![header("host", "unknown.example")];
    match svc.call(&headers, "/", "/") {
        Ok(Dispatch::Reply { status, body }) => {
            assert_eq!(status, 200);
            assert_eq!(body, "unsupported domain");
        }
        _ => panic!("expected a direct reply"),
    }
}

#[test]
fn missing_host_is_an_error() {
    let svc = service_with(endpoint("https://a.example"));
    let headers = vec![header("content-type", "application/json")];
    assert!(matches!(svc.call(&headers, "/", "/"), Err(DispatchError::MissingHost)));
}

#[test]
fn override_path_goes_to_override_url() {
    let svc = service_with(endpoint_with_override());
    let headers = vec![header("Host", "known.example"), header("content-type", "application/json")];
    match svc.call(&headers, "/p", "/p?x=1") {
        Ok(Dispatch::Forward(f)) => {
            assert_eq!(f.domain, "known.example");
            assert_eq!(f.target.uri, "https://override.example/rpc");
            let names: Vec<&str> = f.headers.iter().map(|h| h.name.as_str()).collect();
            assert_eq!(names, vec!["content-type", "authorization"]);
        }
        _ => panic!("expected a forward"),
    }
}

#[test]
fn other_paths_append_to_base_url() {
    let svc = service_with(endpoint_with_override());
    let headers = vec![header("host", "known.example")];
    match svc.call(&headers, "/q", "/q?x=1") {
        Ok(Dispatch::Forward(f)) => {
            assert_eq!(f.target.uri, "https://active.example/q?x=1");
            assert_eq!(f.headers.len(), 1);
            assert_eq!(f.headers[0].name, "x-api-key");
            assert_eq!(f.headers[0].value, "base-key");
        }
        _ => panic!("expected a forward"),
    }
    let prefix = RequestUrl::from_uri(&endpoint_with_override(), "/p/more", "/p/more");
    assert_eq!(prefix.uri, "https://active.example/p/more");
}

#[test]
fn forwarded_headers_are_filtered() {
    let svc = service_with(endpoint_with_override());
    let headers = vec![
        header("host", "known.example"),
        header("cookie", "secret"),
        header("Content-Encoding", "gzip"),
        header("user-agent", "curl"),
        header("content-type", "application/json"),
    ];
    match svc.call(&headers, "/q", "/q") {
        Ok(Dispatch::Forward(f)) => {
            let pairs: Vec<(String, String)> =
                f.headers.iter().map(|h| (h.name.clone(), h.value.clone())).collect();
            assert_eq!(
                pairs,
                vec![
                    ("Content-Encoding".to_string(), "gzip".to_string()),
                    ("content-type".to_string(), "application/json".to_string()),
                    ("x-api-key".to_string(), "base-key".to_string()),
                ]
            );
        }
        _ => panic!("expected a forward"),
    }
}

#[test]
fn persist_headers_keeps_listed_names() {
    let headers = vec![header("server", "x"), header("content-type", "text/plain"), header("CONTENT-ENCODING", "br")];
    let kept = persist_headers(&headers, &keep_headers());
    assert_eq!(kept.len(), 2);
    assert_eq!(kept[0].name, "content-type");
    assert_eq!(kept[1].value, "br");
    assert!(persist_headers(&vec![], &keep_headers()).is_empty());
    assert!(names_match("Content-Type", "content-type"));
    assert!(!names_match("content-type", "content-typ"));
}

#[test]
fn long_path_segments_are_replaced() {
    assert_eq!(
        truncate_path("/api/v2/address/0x1234567890abcdef1234567890"),
        "/api/v2/address/:value"
    );
    assert_eq!(truncate_path("/a/12345678901234567890"), "/a/12345678901234567890");
    assert_eq!(truncate_path("/a/123456789012345678901/b"), "/a/:value/b");
    assert_eq!(truncate_path(""), "");
    assert_eq!(truncate_path("/"), "/");
    assert_eq!(truncate_path("/ééééééééééé"), "/:value");
    let labels = ResponseLabels::new("h", "/x/aaaaaaaaaaaaaaaaaaaaaaaaa", "remote", 404);
    assert_eq!(labels.path, "/x/:value");
    assert_eq!(labels.status, 404);
}

#[test]
fn user_agents_fall_in_first_matching_category() {
    let cats = vec![
        UserAgentCategory { name: "broken".to_string(), patterns: vec!["(".to_string()] },
        UserAgentCategory { name: "ios".to_string(), patterns: vec!["iPhone|iPad".to_string()] },
        UserAgentCategory { name: "apple".to_string(), patterns: vec!["iPhone".to_string()] },
        UserAgentCategory { name: "android".to_string(), patterns: vec!["^okhttp".to_string(), "Android".to_string()] },
    ];
    assert_eq!(categorize_user_agent(&cats, "Mozilla/5.0 (iPhone)"), "ios");
    assert_eq!(categorize_user_agent(&cats, "okhttp/4.9"), "android");
    assert_eq!(categorize_user_agent(&cats, "curl/8"), "unknown");
    assert_eq!(categorize_user_agent(&vec![], "anything"), "unknown");
}

#[test]
fn only_success_statuses_are_read() {
    assert_eq!(check_status(200), Ok(()));
    assert_eq!(check_status(299), Ok(()));
    assert_eq!(check_status(199), Err(ProbeError::Status(199)));
    assert_eq!(check_status(502), Err(ProbeError::Status(502)));
}

#[test]
fn category_follows_first_true_verdict() {
    let names = vec!["a".to_string(), "b".to_string(), "c".to_string()];
    let verdicts = vec![vec![None, Some(false)], vec![Some(false), Some(true)], vec![Some(true)]];
    assert_eq!(first_matching_category(&names, &verdicts), "b");
    let none = vec![vec![], vec![None], vec![Some(false)]];
    assert_eq!(first_matching_category(&names, &none), "unknown");
}
