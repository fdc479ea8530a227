use arm_template::ArmExpression;
use arm_template::ArmOutput;
use arm_template::ArmParameter;
use arm_template::ArmResource;
use arm_template::ArmTemplate;
use arm_template::DecodeError;
use arm_template::JsonValue;
use arm_template::LiteralValue;
use arm_template::ParseError;
use arm_template::decode_template;

fn obj(entries: Vec<(&str, JsonValue)>) -> JsonValue {
    JsonValue::Object(entries.into_iter().map(|(k, v)| (k.to_string(), v)).collect())
}

fn text(s: &str) -> JsonValue {
    JsonValue::Text(s.to_string())
}

#[test]
fn document_with_one_parameter_decodes() {
    let doc = obj(vec![(
        "parameters",
        obj(vec![("functionAppName", obj(vec![("type", text("string"))]))]),
    )]);
    let expected = ArmTemplate {
        parameters: Some(vec![(
            "functionAppName".to_string(),
            ArmParameter { param_type: "string".to_string(), default_value: None },
        )]),
        variables: Some(vec![]),
        resources: vec![],
        outputs: None,
    };
    assert_eq!(decode_template(&doc), Ok(expected));
}

#[test]
fn full_document_decodes() {
    let doc = obj(vec![
        (
            "parameters",
            obj(vec![(
                "siteName",
                obj(vec![("type", text("string")), ("defaultValue", text("[concat('a', 'b')]"))]),
            )]),
        ),
        ("variables", obj(vec![("plan", text("[parameters(siteName)]"))])),
        (
            "resources",
            JsonValue::Array(vec![obj(vec![
                ("name", text("[variables(plan)]")),
                ("type", text("Microsoft.Web/sites")),
                ("apiVersion", text("2021-01-01")),
                (
                    "dependsOn",
                    JsonValue::Array(vec![text("[resourceId('plans', parameters('siteName'))]")]),
                ),
            ])]),
        ),
        (
            "outputs",
            JsonValue::Array(vec![obj(vec![
                ("name", text("siteUri")),
                ("value", text("[parameters('siteName')]")),
            ])]),
        ),
    ]);
    let decoded = decode_template(&doc).expect("the document is well formed");
    let parameters = decoded.parameters.as_ref().expect("parameters are present");
    assert_eq!(parameters.len(), 1);
    assert_eq!(parameters[0].0, "siteName");
    assert_eq!(parameters[0].1.param_type, "string");
    assert!(parameters[0].1.default_value.is_some());
    let variables = decoded.variables.as_ref().expect("variables are present");
    assert_eq!(
        variables[0],
        ("plan".to_string(), ArmExpression::Parameter("siteName".to_string()))
    );
    assert_eq!(decoded.resources.len(), 1);
    let resource = &decoded.resources[0];
    assert_eq!(resource.name, ArmExpression::Variable("plan".to_string()));
    assert_eq!(resource.resource_type, "Microsoft.Web/sites");
    assert_eq!(resource.api_version, "2021-01-01");
    let deps = resource.depends_on.as_ref().expect("dependencies are present");
    assert_eq!(deps.len(), 1);
    let outputs = decoded.outputs.as_ref().expect("outputs are present");
    assert_eq!(
        outputs[0],
        ArmOutput {
            name: "siteUri".to_string(),
            value: ArmExpression::Parameter("siteName".to_string()),
        }
    );
}

#[test]
fn unknown_members_are_ignored() {
    let doc = obj(vec![
        ("contentVersion", text("1.0.0.0")),
        ("somethingNew", JsonValue::Array(vec![JsonValue::Null, JsonValue::Bool(true)])),
    ]);
    let decoded = decode_template(&doc).expect("unknown members never fail the decode");
    assert_eq!(decoded.parameters, None);
    assert_eq!(decoded.variables, Some(vec![]));
    assert_eq!(decoded.resources, vec![]);
    assert_eq!(decoded.outputs, None);
}

#[test]
fn repeated_parameter_key_keeps_last_value() {
    let doc = obj(vec![(
        "parameters",
        obj(vec![
            ("p", obj(vec![("type", text("string"))])),
            ("p", obj(vec![("type", text("int"))])),
        ]),
    )]);
    let decoded = decode_template(&doc).expect("well formed");
    let parameters = decoded.parameters.expect("present");
    assert_eq!(parameters.len(), 1);
    assert_eq!(parameters[0].1.param_type, "int");
}

#[test]
fn non_object_document_is_rejected() {
    assert_eq!(decode_template(&JsonValue::Null), Err(DecodeError::ExpectedObject));
    assert_eq!(
        decode_template(&obj(vec![("parameters", text("x"))])),
        Err(DecodeError::ExpectedObject)
    );
}

#[test]
fn mistyped_members_are_rejected() {
    assert_eq!(
        decode_template(&obj(vec![("resources", text("x"))])),
        Err(DecodeError::ExpectedArray)
    );
    assert_eq!(
        decode_template(&obj(vec![("outputs", obj(vec![]))])),
        Err(DecodeError::ExpectedArray)
    );
    let doc = obj(vec![(
        "parameters",
        obj(vec![("p", obj(vec![("type", JsonValue::Bool(true))]))]),
    )]);
    assert_eq!(decode_template(&doc), Err(DecodeError::ExpectedString));
}

#[test]
fn missing_required_members_are_reported_by_name() {
    let doc = obj(vec![("parameters", obj(vec![("p", obj(vec![]))]))]);
    assert_eq!(decode_template(&doc), Err(DecodeError::MissingField("type".to_string())));
    let doc = obj(vec![(
        "resources",
        JsonValue::Array(vec![obj(vec![("name", text("n"))])]),
    )]);
    assert_eq!(decode_template(&doc), Err(DecodeError::MissingField("type".to_string())));
    let doc = obj(vec![(
        "outputs",
        JsonValue::Array(vec![obj(vec![("name", text("n"))])]),
    )]);
    assert_eq!(decode_template(&doc), Err(DecodeError::MissingField("value".to_string())));
}

#[test]
fn bad_expression_in_default_value_is_reported() {
    let doc = obj(vec![(
        "parameters",
        obj(vec![(
            "p",
            obj(vec![("type", text("string")), ("defaultValue", text("[nope('x')]"))]),
        )]),
    )]);
    assert_eq!(
        decode_template(&doc),
        Err(DecodeError::Expression(ParseError::UnknownFunction("nope".to_string())))
    );
}

#[test]
fn default_value_expressions_are_parsed() {
    let doc = obj(vec![(
        "parameters",
        obj(vec![(
            "p",
            obj(vec![("type", text("string")), ("defaultValue", text("plain"))]),
        )]),
    )]);
    let decoded = decode_template(&doc).expect("well formed");
    let parameters = decoded.parameters.expect("present");
    assert_eq!(
        parameters[0].1.default_value,
        Some(ArmExpression::Literal(LiteralValue::String("plain".to_string())))
    );
}

#[test]
fn resource_without_depends_on_decodes() {
    let doc = obj(vec![(
        "resources",
        JsonValue::Array(vec![obj(vec![
            ("name", text("fixed")),
            ("type", text("Microsoft.Storage/storageAccounts")),
            ("apiVersion", text("2019-06-01")),
        ])]),
    )]);
    let decoded = decode_template(&doc).expect("well formed");
    assert_eq!(
        decoded.resources,
        vec![ArmResource {
            name: ArmExpression::Literal(LiteralValue::String("fixed".to_string())),
            resource_type: "Microsoft.Storage/storageAccounts".to_string(),
            api_version: "2019-06-01".to_string(),
            depends_on: None,
        }]
    );
}

#[test]
fn empty_expression_string_decodes_to_absent_expression() {
    let doc = obj(vec![(
        "outputs",
        JsonValue::Array(vec![obj(vec![("name", text("n")), ("value", text(""))])]),
    )]);
    let decoded = decode_template(&doc).expect("well formed");
    let outputs = decoded.outputs.expect("present");
    assert_eq!(outputs[0].value, ArmExpression::Empty);
}
