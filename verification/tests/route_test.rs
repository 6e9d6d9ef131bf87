use faber_package::device::run::{
    device_repeat_count, device_step_count, host_receipt_graph_lines, parse_count, route_step_count, ReceiptBuffer, ReceiptEdge,
    StepsError,
};
use faber_package::device::run::{execution_plan, ExecutionError, ExecutionPlan};
use faber_package::device::schema::ProgramLifetime;
use faber_package::device::wire::WireProgramLifetime;
use faber_package::dispatch::{
    admit_manifest_identity, admit_provider_routes, host_required_routes, is_builtin_ad_route, route_provider,
    selected_providers_for_routes, ManifestError, ProviderCall, ProviderManifest, TextSet,
};
use faber_package::sorted_map::SortedMap;

#[test]
fn counts_parse_as_unsigned_decimal() {
    assert_eq!(parse_count("42", u32::MAX as u64), Some(42));
    assert_eq!(parse_count("+7", 100), Some(7));
    assert_eq!(parse_count("007", 100), Some(7));
    assert_eq!(parse_count("", 100), None);
    assert_eq!(parse_count("+", 100), None);
    assert_eq!(parse_count("-1", 100), None);
    assert_eq!(parse_count("1 ", 100), None);
    assert_eq!(parse_count("101", 100), None);
    assert_eq!(parse_count("4294967295", u32::MAX as u64), Some(4294967295));
    assert_eq!(parse_count("4294967296", u32::MAX as u64), None);
}

#[test]
fn the_step_count_override_must_agree_with_the_image() {
    assert_eq!(device_step_count(100, None), Ok(100));
    assert_eq!(device_step_count(100, Some("100")), Ok(100));
    assert_eq!(device_step_count(100, Some("5")), Err(StepsError::Contradicts { given: 5, declared: 100 }));
    assert_eq!(device_step_count(100, Some("five")), Err(StepsError::NotACount));
    assert_eq!(route_step_count(WireProgramLifetime::SingleRun, Some("5")), Ok(100));
    assert_eq!(route_step_count(WireProgramLifetime::RepeatingStep(3), None), Ok(3));
    assert_eq!(device_repeat_count(None), Some(1));
    assert_eq!(device_repeat_count(Some("4")), Some(4));
    assert_eq!(device_repeat_count(Some("x")), None);
}

#[test]
fn graph_lines_spell_buffers_and_edges() {
    let buffers = vec![ReceiptBuffer {
        id: 3,
        name: "y".to_owned(),
        role: "output".to_owned(),
        lifetime: "observation-point".to_owned(),
        version: 1,
        element_ty: "f32".to_owned(),
        element_count: 4,
    }];
    let lines = host_receipt_graph_lines(&buffers, &Vec::new());
    assert_eq!(lines, vec![
        "device: declared resource graph (A10, host receipt):".to_owned(),
        "device:   buffer 3 `y` output observation-point version 1 (f32[4])".to_owned(),
        "device:   data-flow edges: none".to_owned(),
    ]);
    let edges = vec![ReceiptEdge { producer: 1, consumer: 2, buffer_id: 3, version: 1 }];
    let lines = host_receipt_graph_lines(&Vec::new(), &edges);
    assert_eq!(lines[1], "device:   data-flow 1 -> 2 via buffer 3 version 1");
}

fn set(items: &[&str]) -> TextSet {
    let mut s = TextSet::new();
    for item in items {
        s.insert((*item).to_owned());
    }
    s
}

#[test]
fn text_sets_stay_ordered_and_unique() {
    let mut s = set(&["solum:lege", "aleator:uuid", "solum:lege", "Z"]);
    assert_eq!(s.items, vec!["Z".to_owned(), "aleator:uuid".to_owned(), "solum:lege".to_owned()]);
    assert!(!s.insert("Z".to_owned()));
    assert!(s.insert("a".to_owned()));
    assert!(s.contains("a"));
    assert!(!s.contains("b"));
}

#[test]
fn providers_are_the_route_prefixes_and_the_explicit_ones() {
    assert_eq!(route_provider("solum:lege"), "solum");
    assert_eq!(route_provider("net/http:get"), "net");
    assert_eq!(route_provider("plain"), "plain");
    assert_eq!(route_provider(":x"), "");
    let routes = set(&["solum:lege", "net/http:get", ":anon"]);
    let providers = selected_providers_for_routes(&routes, &vec!["extra".to_owned()]);
    assert_eq!(providers.items, vec!["extra".to_owned(), "net".to_owned(), "solum".to_owned()]);
}

#[test]
fn builtin_routes_need_no_native_host() {
    assert!(is_builtin_ad_route("runtime:echo"));
    assert!(is_builtin_ad_route("aleator:semina"));
    assert!(is_builtin_ad_route("solum:vinculumne"));
    assert!(!is_builtin_ad_route("runtime:echo2"));
    assert!(!is_builtin_ad_route("net:get"));
    let routes = set(&["solum:lege", "net:get", "tempus:nunc", "db:query"]);
    assert_eq!(host_required_routes(&routes).items, vec!["db:query".to_owned(), "net:get".to_owned()]);
}

fn manifest(provider: &str, routes: &[&str]) -> ProviderManifest {
    ProviderManifest {
        manifest_version: 1,
        provider: provider.to_owned(),
        owner: "owner".to_owned(),
        prefixes: vec![provider.to_owned()],
        calls: routes
            .iter()
            .map(|r| ProviderCall { route: (*r).to_owned(), summary: String::new(), opener: String::new(), result: String::new() })
            .collect(),
        native_dependencies: Vec::new(),
    }
}

#[test]
fn manifests_must_match_their_provider_and_cover_the_routes_once() {
    let net = manifest("net", &["net:get", "net:put"]);
    assert!(admit_manifest_identity(&net, "net").is_ok());
    assert!(matches!(admit_manifest_identity(&net, "db"), Err(ManifestError::Identity)));
    let mut old = manifest("net", &[]);
    old.manifest_version = 2;
    assert!(matches!(admit_manifest_identity(&old, "net"), Err(ManifestError::Identity)));

    let db = manifest("db", &["db:query"]);
    assert!(admit_provider_routes(&vec![manifest("net", &["net:get"]), db], &set(&["db:query", "net:get"])).is_ok());
    match admit_provider_routes(&vec![manifest("net", &["net:get"]), manifest("db", &["db:query"])], &set(&["db:drop", "net:get", "zz:z"])) {
        Err(ManifestError::MissingRoute { route }) => assert_eq!(route, "db:drop"),
        other => panic!("unexpected {other:?}"),
    }
    match admit_provider_routes(&vec![manifest("net", &["net:get", "x:y"]), manifest("db", &["x:y", "net:get"])], &set(&["zz:z"])) {
        Err(ManifestError::DuplicateRoute { route }) => assert_eq!(route, "x:y"),
        other => panic!("unexpected {other:?}"),
    }
}

#[test]
fn sorted_maps_replace_and_order_by_key() {
    let mut m: SortedMap<u32> = SortedMap::new();
    m.insert(5, 50);
    m.insert(1, 10);
    m.insert(5, 55);
    assert_eq!(m.entries, vec![(1, 10), (5, 55)]);
    assert_eq!(m.get(5), Some(55));
    assert_eq!(m.get(2), None);
}

#[test]
fn a_printed_count_reads_back_as_that_count() {
    for n in [0u64, 7, 10, 100, 4_294_967_295] {
        let text = faber_package::naming::decimal_text(n);
        assert_eq!(parse_count(&text, u32::MAX as u64), Some(n));
        assert_eq!(parse_count(&text, n), Some(n));
    }
    assert_eq!(parse_count(&faber_package::naming::decimal_text(101), 100), None);
}

#[test]
fn a_route_executes_its_steps_or_its_repeats() {
    assert_eq!(execution_plan(ProgramLifetime::RepeatingStep, 3, Some("junk")), Ok(ExecutionPlan::Steps(3)));
    assert_eq!(execution_plan(ProgramLifetime::RepeatingStep, 0, None), Err(ExecutionError::ZeroIterations));
    assert_eq!(execution_plan(ProgramLifetime::SingleRun, 100, None), Ok(ExecutionPlan::Runs(1)));
    assert_eq!(execution_plan(ProgramLifetime::SingleRun, 100, Some("4")), Ok(ExecutionPlan::Runs(4)));
    assert_eq!(execution_plan(ProgramLifetime::SingleRun, 100, Some("0")), Err(ExecutionError::ZeroIterations));
    assert_eq!(execution_plan(ProgramLifetime::SingleRun, 100, Some("-1")), Err(ExecutionError::RepeatNotACount));
}
