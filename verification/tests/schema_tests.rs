use schema_scaffold::schema::MockConfig;
use schema_scaffold::schema::MockListing;
use schema_scaffold::schema::MockTest;
use schema_scaffold::schema::Schema;
use schema_scaffold::schema::deduplicate;
use schema_scaffold::schema::resolve_mocks;
use schema_scaffold::file::UnprocessedFile;
use schema_scaffold::interp::LanguageInterpreterForUnitTest;

fn strings(items: &[&str]) -> Vec<String> {
    items.iter().map(|s| String::from(*s)).collect()
}

fn requests_mock() -> MockConfig {
    MockConfig {
        name: String::from("requests"),
        imports: strings(&["from unittest.mock import MagicMock"]),
        mock: String::from("requests = MagicMock()"),
        tests: vec![MockTest {
            description: String::from("returns a payload"),
            mock_response: String::from("return_value=42"),
        }],
    }
}

fn registry() -> MockListing {
    MockListing { mocks: vec![requests_mock()] }
}

fn templates() -> tera::Tera {
    let mut t = tera::Tera::new();
    t.add_raw_template(
        "test_mocks.hbs",
        "{% for mock in mock_list %}{{ mock }}\n{% endfor %}",
    )
    .unwrap();
    t.add_raw_template(
        "test.hbs",
        "{% for import in imports %}{{ import }}\n{% endfor %}{% for import in local_imports %}{{ import }}\n{% endfor %}{{ sys_path_assignment }}\n{% for test in tests %}{{ test }}\n{% endfor %}",
    )
    .unwrap();
    t.add_raw_template(
        "main.hbs",
        "{% for step in workflow %}{{ step }}\n{% endfor %}",
    )
    .unwrap();
    t
}

fn two_file_schema() -> Schema {
    Schema {
        project_name: String::from("demo"),
        root_directory: String::from("./generated"),
        language: String::from("python"),
        system_types: String::from("system_types.yaml"),
        domain_types: String::from("domain_types.yaml"),
        files: vec![
            UnprocessedFile {
                path: String::from("src/accounts"),
                methods: vec![String::from(
                    "get_account(http_client: {requests}, id: AccountId) -> Account",
                )],
            },
            UnprocessedFile {
                path: String::from("src/users"),
                methods: vec![String::from(
                    "get_users(http_client: {requests}, account_ids: List[AccountId]) -> List[User]",
                )],
            },
        ],
        workflow: strings(&["load", "transform"]),
    }
}

#[test]
fn deduplication_sorts_ascending_and_removes_repeats() {
    let names = strings(&["requests", "alpha", "requests", "zlib", "alpha"]);
    let unique = deduplicate(&names);
    assert_eq!(unique, strings(&["alpha", "requests", "zlib"]));
}

#[test]
fn deduplication_is_idempotent() {
    let names = strings(&["b", "a", "b"]);
    let once = deduplicate(&names);
    let twice = deduplicate(&once);
    assert_eq!(once, twice);
}

#[test]
fn deduplication_is_order_deterministic() {
    let one = deduplicate(&strings(&["b", "a", "c", "a"]));
    let other = deduplicate(&strings(&["a", "c", "b", "b", "a"]));
    assert_eq!(one, other);
}

#[test]
fn mock_resolution_is_pure() {
    let names = strings(&["requests"]);
    let reg = registry();
    let first = resolve_mocks(&names, &reg);
    let second = resolve_mocks(&names, &reg);
    assert_eq!(first, second);
    assert_eq!(first.len(), 1);
    assert_eq!(first[0].name, String::from("requests"));
}

#[test]
fn mock_resolution_takes_first_match_and_omits_unmatched() {
    let mut shadowed = requests_mock();
    shadowed.mock = String::from("requests = MagicMock(spec=2)");
    let reg = MockListing { mocks: vec![requests_mock(), shadowed] };
    let resolved = resolve_mocks(&strings(&["requests", "unknown"]), &reg);
    assert_eq!(resolved.len(), 1);
    assert_eq!(resolved[0].mock, String::from("requests = MagicMock()"));
}

#[test]
fn strict_resolution_succeeds_when_every_name_is_known() {
    let reg = registry();
    let resolved = schema_scaffold::schema::resolve_mocks_strict(&strings(&["requests"]), &reg);
    assert_eq!(resolved, Ok(vec![requests_mock()]));
}

#[test]
fn strict_resolution_reports_every_unknown_name() {
    let reg = registry();
    let resolved = schema_scaffold::schema::resolve_mocks_strict(
        &strings(&["boto", "requests", "numpy"]),
        &reg,
    );
    assert_eq!(resolved, Err(strings(&["boto", "numpy"])));
}

#[test]
fn mock_test_renders_python_assertion_stub() {
    let config = requests_mock();
    let case = config.tests[0].as_python("requests.get", &config, "get_account");
    let expected = "def test_returns_a_payload():\n    requests.get = MagicMock(return_value=42)\n    result = get_account(requests)\n    assert 1 == 2";
    assert_eq!(case, expected);
}

#[test]
fn mock_test_renders_javascript_skeleton() {
    let config = requests_mock();
    let case = config.tests[0].as_javascript("requests.get", &config, "get_account");
    assert_eq!(case, "it('returns a payload', () => {}))");
}

#[test]
fn process_schema_parses_every_file() {
    let schema = two_file_schema();
    let parsed = schema.process_schema(templates()).unwrap();
    assert_eq!(parsed.files.len(), 2);
    assert_eq!(parsed.files[0].path, String::from("src/accounts"));
    assert_eq!(parsed.files[0].methods[0].ast.name, String::from("get_account"));
    assert_eq!(
        parsed.files[0].methods[0].raw,
        String::from("get_account(http_client: {requests}, id: AccountId) -> Account"),
    );
}

#[test]
fn process_schema_reports_every_malformed_signature() {
    let mut schema = two_file_schema();
    schema.files[0].methods.push(String::from("broken signature"));
    schema.files[1].methods.push(String::from("also broken"));
    let errors = match schema.process_schema(templates()) {
        Ok(_) => panic!("a malformed signature must fail the whole schema"),
        Err(errors) => errors,
    };
    assert_eq!(errors.len(), 2);
}

#[test]
fn shared_mock_is_deduplicated_into_one_mocks_artifact() {
    let schema = two_file_schema();
    let parsed = schema.process_schema(templates()).unwrap();
    let artifact = parsed.create_mocks_file(&registry()).unwrap();
    assert_eq!(artifact.path, String::from("tests/mocks.py"));
    assert_eq!(artifact.content, String::from("requests = MagicMock()\n"));
}

#[test]
fn both_test_artifacts_reference_the_shared_mock() {
    let schema = two_file_schema();
    let parsed = schema.process_schema(templates()).unwrap();
    let artifacts = parsed.create_test_files(&registry());
    assert_eq!(artifacts.len(), 2);
    let first = artifacts[0].as_ref().unwrap();
    let second = artifacts[1].as_ref().unwrap();
    assert_eq!(first.path, String::from("tests/accounts.py"));
    assert_eq!(second.path, String::from("tests/users.py"));
    assert!(first.content.contains("from tests.mocks import requests"));
    assert!(second.content.contains("from tests.mocks import requests"));
    assert!(first.content.contains("from src.accounts import get_account"));
    assert!(second.content.contains("from src.users import get_users"));
}

#[test]
fn application_files_hold_python_stubs() {
    let schema = two_file_schema();
    let parsed = schema.process_schema(templates()).unwrap();
    let artifacts = parsed.create_application_files();
    assert_eq!(artifacts.len(), 2);
    assert_eq!(artifacts[0].path, String::from("src/accounts.py"));
    assert_eq!(
        artifacts[0].content,
        String::from(
            "def get_account(http_client: requests, id: AccountId) -> Account: \n    pass\n",
        ),
    );
}

#[test]
fn javascript_application_files_hold_bare_names() {
    let mut schema = two_file_schema();
    schema.language = String::from("javascript");
    let parsed = schema.process_schema(templates()).unwrap();
    let artifacts = parsed.create_application_files();
    assert_eq!(artifacts[0].path, String::from("src/accounts.js"));
    assert_eq!(artifacts[0].content, String::from("get_account"));
    assert_eq!(artifacts[1].content, String::from("get_users"));
}

#[test]
fn method_mock_pairing_is_pure() {
    let schema = two_file_schema();
    let parsed = schema.process_schema(templates()).unwrap();
    let reg = registry();
    let method = &parsed.files[0].methods[0];
    let first = parsed.retrieve_mock_configs(method, &reg);
    let second = parsed.retrieve_mock_configs(method, &reg);
    assert_eq!(first, second);
    assert_eq!(first.mocks.len(), 1);
    assert_eq!(first.mocks[0].name, String::from("requests"));
}

#[test]
fn main_artifact_carries_the_workflow_verbatim() {
    let schema = two_file_schema();
    let parsed = schema.process_schema(templates()).unwrap();
    let artifact = parsed.create_main_file().unwrap();
    assert_eq!(artifact.path, String::from("src/main.py"));
    assert_eq!(artifact.content, String::from("load\ntransform\n"));
}

#[test]
fn generate_orders_artifacts_and_isolates_failures() {
    let schema = two_file_schema();
    let mut bare = tera::Tera::new();
    bare.add_raw_template(
        "test_mocks.hbs",
        "{% for mock in mock_list %}{{ mock }}\n{% endfor %}",
    )
    .unwrap();
    let parsed = schema.process_schema(bare).unwrap();
    let results = parsed.generate(&registry());
    assert_eq!(results.len(), 6);
    assert!(results[0].is_err());
    assert!(results[1].is_ok());
    assert!(results[2].is_ok());
    assert!(results[3].is_ok());
    assert!(results[4].is_err());
    assert!(results[5].is_err());
    assert_eq!(results[3].as_ref().unwrap().path, String::from("tests/mocks.py"));
}

#[test]
fn module_marker_depends_on_language() {
    let mut schema = two_file_schema();
    let parsed = schema.process_schema(templates()).unwrap();
    assert_eq!(parsed.module_marker(), String::from("__init_.py"));
    schema.language = String::from("rust");
    let parsed = schema.process_schema(templates()).unwrap();
    assert_eq!(parsed.module_marker(), String::from("mod.rs"));
    schema.language = String::from("javascript");
    let parsed = schema.process_schema(templates()).unwrap();
    assert_eq!(parsed.module_marker(), String::from("unknown_language"));
}

#[test]
fn entry_file_changes_the_mock_reference() {
    let mut schema = two_file_schema();
    schema.files[0].path = String::from("src/main");
    let parsed = schema.process_schema(templates()).unwrap();
    let artifacts = parsed.create_test_files(&registry());
    let entry = artifacts[0].as_ref().unwrap();
    let plain = artifacts[1].as_ref().unwrap();
    assert!(entry.content.contains("index.requests.get = MagicMock"));
    assert!(plain.content.contains("requests.get = MagicMock"));
    assert!(!plain.content.contains("index.requests.get"));
}

#[test]
fn unknown_language_keeps_paths_bare() {
    let mut schema = two_file_schema();
    schema.language = String::from("cobol");
    let parsed = schema.process_schema(templates()).unwrap();
    let artifacts = parsed.create_application_files();
    assert_eq!(artifacts[0].path, String::from("src/accounts"));
    let main = parsed.create_main_file().unwrap();
    assert_eq!(main.path, String::from("unknown_language"));
}
