use schema_scaffold::ast::ApplicationParentType;
use schema_scaffold::ast::ApplicationType;
use schema_scaffold::ast::Dependency;
use schema_scaffold::ast::FunctionParameter;
use schema_scaffold::ast::FunctionSignature;
use schema_scaffold::ast::ParameterType;
use schema_scaffold::parser::parse_argument;
use schema_scaffold::parser::parse_type;
use schema_scaffold::parser::root;

#[test]
fn function_signature_test() {
    let data = r#"get_users_for_account(http_client: {requests}, account_ids: List[AccountId]) -> Result[List[User], ErrorMsg]"#;
    let expected = FunctionSignature {
        name: String::from("get_users_for_account"),
        input: vec![
            FunctionParameter {
                name: String::from("http_client"),
                ptype: ParameterType::Dependency(
                    Dependency { dependency_name: String::from("requests") },
                ),
            },
            FunctionParameter {
                name: String::from("account_ids"),
                ptype: ParameterType::ApplicationParentType(
                    ApplicationParentType {
                        name: String::from("List"),
                        children: vec![
                            ParameterType::ApplicationType(
                                ApplicationType { name: String::from("AccountId") },
                            ),
                        ],
                    },
                ),
            },
        ],
        output: ParameterType::ApplicationParentType(
            ApplicationParentType {
                name: String::from("Result"),
                children: vec![
                    ParameterType::ApplicationParentType(
                        ApplicationParentType {
                            name: String::from("List"),
                            children: vec![
                                ParameterType::ApplicationType(
                                    ApplicationType { name: String::from("User") },
                                ),
                            ],
                        },
                    ),
                    ParameterType::ApplicationType(
                        ApplicationType { name: String::from("ErrorMsg") },
                    ),
                ],
            },
        ),
    };
    let result = root(data);
    assert_eq!(result, Ok((String::from(""), expected)))
}

#[test]
fn parse_type_test() {
    let data = "AccountId";
    let result = parse_type(data);
    let expected = ParameterType::ApplicationType(
        ApplicationType { name: String::from("AccountId") },
    );
    assert_eq!(result, Ok((String::from(""), expected)))
}

#[test]
fn parse_parenttype_test() {
    let data = "AccountId[User]";
    let result = parse_type(data);
    let expected = ParameterType::ApplicationParentType(
        ApplicationParentType {
            name: String::from("AccountId"),
            children: vec![
                ParameterType::ApplicationType(ApplicationType { name: String::from("User") }),
            ],
        },
    );
    assert_eq!(result, Ok((String::from(""), expected)))
}

#[test]
fn parse_nested_parenttype_test() {
    let data = "AccountId[User[Email]]";
    let result = parse_type(data);
    let expected = ParameterType::ApplicationParentType(
        ApplicationParentType {
            name: String::from("AccountId"),
            children: vec![
                ParameterType::ApplicationParentType(
                    ApplicationParentType {
                        name: String::from("User"),
                        children: vec![
                            ParameterType::ApplicationType(
                                ApplicationType { name: String::from("Email") },
                            ),
                        ],
                    },
                ),
            ],
        },
    );
    assert_eq!(result, Ok((String::from(""), expected)))
}

#[test]
fn parse_dependency_type_test() {
    let data = "{requests}";
    let result = parse_type(data);
    let expected = ParameterType::Dependency(
        Dependency { dependency_name: String::from("requests") },
    );
    assert_eq!(result, Ok((String::from(""), expected)))
}

#[test]
fn parse_argument_test() {
    let data = "id: AccountId";
    let result = parse_argument(data);
    let application_type = ApplicationType { name: String::from("AccountId") };
    let expected = FunctionParameter {
        name: String::from("id"),
        ptype: ParameterType::ApplicationType(application_type),
    };
    assert_eq!(result, Ok((String::from(""), expected)))
}

#[test]
fn single_parameter_signature_parses() {
    let result = root("get_account(id: AccountId) -> Result[Account, ErrorMsg]");
    let expected = FunctionSignature {
        name: String::from("get_account"),
        input: vec![
            FunctionParameter {
                name: String::from("id"),
                ptype: ParameterType::ApplicationType(
                    ApplicationType { name: String::from("AccountId") },
                ),
            },
        ],
        output: ParameterType::ApplicationParentType(
            ApplicationParentType {
                name: String::from("Result"),
                children: vec![
                    ParameterType::ApplicationType(
                        ApplicationType { name: String::from("Account") },
                    ),
                    ParameterType::ApplicationType(
                        ApplicationType { name: String::from("ErrorMsg") },
                    ),
                ],
            },
        ),
    };
    assert_eq!(result, Ok((String::from(""), expected)))
}

#[test]
fn empty_argument_list_parses() {
    let result = root("ping() -> Status");
    let expected = FunctionSignature {
        name: String::from("ping"),
        input: vec![],
        output: ParameterType::ApplicationType(ApplicationType { name: String::from("Status") }),
    };
    assert_eq!(result, Ok((String::from(""), expected)))
}

#[test]
fn whitespace_around_separators_is_accepted() {
    let spaced = root("f(a :  X ,\tb:Y)  ->  Z");
    let tight = root("f(a:X,b:Y)->Z");
    assert!(spaced.is_ok());
    assert_eq!(spaced, tight);
}

#[test]
fn missing_arrow_is_a_syntax_error() {
    let result = root("get_account(id: AccountId)");
    assert!(result.is_err());
}

#[test]
fn missing_parenthesis_is_a_syntax_error() {
    let result = root("just_a_name");
    assert_eq!(result.unwrap_err().remainder, String::from("just_a_name"));
}

#[test]
fn failed_output_clause_reports_the_remainder() {
    let result = root("f(a: X) no_arrow_here");
    assert_eq!(result.unwrap_err().remainder, String::from(" no_arrow_here"));
}

#[test]
fn unconsumed_input_is_a_syntax_error() {
    let result = root("f() -> X trailing");
    assert!(result.is_err());
    let err = result.unwrap_err();
    assert_eq!(err.remainder, String::from(" trailing"));
}

#[test]
fn empty_dependency_braces_are_a_syntax_error() {
    assert!(parse_type("{}").is_err());
}

#[test]
fn unclosed_bracket_is_a_syntax_error() {
    assert!(parse_type("List[AccountId").is_err());
}

#[test]
fn underscores_are_identifier_characters() {
    let result = root("do_thing(client_id: Account_Id) -> Status_Code");
    assert!(result.is_ok());
    let (rest, sig) = result.unwrap();
    assert_eq!(rest, String::from(""));
    assert_eq!(sig.name, String::from("do_thing"));
}

#[test]
fn parse_type_reports_remainder() {
    let result = parse_type("AccountId, rest");
    let expected = ParameterType::ApplicationType(
        ApplicationType { name: String::from("AccountId") },
    );
    assert_eq!(result, Ok((String::from(", rest"), expected)))
}
