use schema_scaffold::ast::ApplicationParentType;
use schema_scaffold::ast::ApplicationType;
use schema_scaffold::ast::Dependency;
use schema_scaffold::ast::FunctionParameter;
use schema_scaffold::ast::FunctionSignature;
use schema_scaffold::ast::ParameterType;
use schema_scaffold::interp::LanguageInterpreter;
use schema_scaffold::parser::root;

fn sample_signature() -> FunctionSignature {
    FunctionSignature {
        name: String::from("get_users_for_account"),
        input: vec![
            FunctionParameter {
                name: String::from("http_client"),
                ptype: ParameterType::Dependency(
                    Dependency { dependency_name: String::from("requests") },
                ),
            },
            FunctionParameter {
                name: String::from("account_ids"),
                ptype: ParameterType::ApplicationParentType(
                    ApplicationParentType {
                        name: String::from("List"),
                        children: vec![
                            ParameterType::ApplicationType(
                                ApplicationType { name: String::from("AccountId") },
                            ),
                        ],
                    },
                ),
            },
        ],
        output: ParameterType::ApplicationParentType(
            ApplicationParentType {
                name: String::from("Result"),
                children: vec![
                    ParameterType::ApplicationParentType(
                        ApplicationParentType {
                            name: String::from("List"),
                            children: vec![
                                ParameterType::ApplicationType(
                                    ApplicationType { name: String::from("User") },
                                ),
                            ],
                        },
                    ),
                    ParameterType::ApplicationType(
                        ApplicationType { name: String::from("ErrorMsg") },
                    ),
                ],
            },
        ),
    }
}

#[test]
fn as_python_test() {
    let ast = sample_signature();
    let result = ast.as_python();
    let expected = "def get_users_for_account(http_client: requests, account_ids: List[AccountId]) -> Result[List[User], ErrorMsg]: \n    pass\n";
    assert_eq!(result, expected)
}

#[test]
fn as_javascript_renders_bare_function_name() {
    let ast = sample_signature();
    assert_eq!(ast.as_javascript(), String::from("get_users_for_account"));
}

#[test]
fn parent_type_as_javascript_drops_generic_arguments() {
    let t = ParameterType::ApplicationParentType(ApplicationParentType {
        name: String::from("List"),
        children: vec![
            ParameterType::ApplicationType(ApplicationType { name: String::from("AccountId") }),
        ],
    });
    assert_eq!(t.as_python(), String::from("List[AccountId]"));
    assert_eq!(t.as_javascript(), String::from("List"));
}

#[test]
fn list_dependencies_returns_top_level_dependencies_only() {
    let sig = root("f(a: {x}, b: Y[{z}], c: W) -> V").unwrap().1;
    let deps: Vec<String> = sig
        .list_dependencies()
        .iter()
        .map(|d| d.dependency_name.clone())
        .collect();
    assert_eq!(deps, vec![String::from("x")]);
}

#[test]
fn list_dependencies_keeps_declared_order() {
    let sig = sample_signature();
    let deps: Vec<String> = sig
        .list_dependencies()
        .iter()
        .map(|d| d.dependency_name.clone())
        .collect();
    assert_eq!(deps, vec![String::from("requests")]);

    let two = root("g(a: {beta}, b: {alpha}) -> X").unwrap().1;
    let names: Vec<String> = two
        .list_dependencies()
        .iter()
        .map(|d| d.dependency_name.clone())
        .collect();
    assert_eq!(names, vec![String::from("beta"), String::from("alpha")]);
}

#[test]
fn rendering_and_reparsing_a_type_round_trips() {
    let t = ParameterType::ApplicationParentType(ApplicationParentType {
        name: String::from("Result"),
        children: vec![
            ParameterType::ApplicationParentType(ApplicationParentType {
                name: String::from("List"),
                children: vec![
                    ParameterType::ApplicationType(
                        ApplicationType { name: String::from("User") },
                    ),
                ],
            }),
            ParameterType::ApplicationType(ApplicationType { name: String::from("ErrorMsg") }),
        ],
    });
    let text = t.as_python();
    let reparsed = schema_scaffold::parser::parse_type(text.as_str());
    assert_eq!(reparsed, Ok((String::from(""), t)));
}
