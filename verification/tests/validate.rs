use ssh_guard::config::contract::Contract;
use ssh_guard::engine::types::TemplateType;
use ssh_guard::engine::validate::validate_template_value;
use ssh_guard::strmap::StrMap;

#[test]
fn test_validate_int_ok() {
    let contracts = StrMap::new();
    assert!(validate_template_value("42", &TemplateType::Int, &contracts).is_ok());
}

#[test]
fn test_validate_int_fail() {
    let contracts = StrMap::new();
    assert!(validate_template_value("abc", &TemplateType::Int, &contracts).is_err());
}

#[test]
fn test_validate_union_ok() {
    let contracts = StrMap::new();
    let union = TemplateType::Union(vec![TemplateType::Int, TemplateType::String]);
    assert!(validate_template_value("42", &union, &contracts).is_ok());
    assert!(validate_template_value("hello", &union, &contracts).is_ok());
}

#[test]
fn test_validate_union_fail() {
    let contracts = StrMap::new();
    let union = TemplateType::Union(vec![TemplateType::Int]);
    assert!(validate_template_value("hello", &union, &contracts).is_err());
}

#[test]
fn test_validate_stringlen_contract_ok() {
    let mut contracts = StrMap::new();
    contracts.insert("mystr".into(), Contract::StringLen { min: 3, max: 10 });
    assert!(
        validate_template_value(
            "hello",
            &TemplateType::ContractRef("mystr".into()),
            &contracts
        )
        .is_ok()
    );
}

#[test]
fn test_validate_stringlen_contract_too_short() {
    let mut contracts = StrMap::new();
    contracts.insert("mystr".into(), Contract::StringLen { min: 3, max: 10 });
    let result =
        validate_template_value("ab", &TemplateType::ContractRef("mystr".into()), &contracts);
    assert!(result.is_err());
    assert!(result.unwrap_err().contains("length"));
}

#[test]
fn test_validate_stringlen_contract_too_long() {
    let mut contracts = StrMap::new();
    contracts.insert("mystr".into(), Contract::StringLen { min: 3, max: 10 });
    let result = validate_template_value(
        "toolongvalue",
        &TemplateType::ContractRef("mystr".into()),
        &contracts,
    );
    assert!(result.is_err());
    assert!(result.unwrap_err().contains("length"));
}

#[test]
fn test_validate_contract_ref_unknown() {
    let contracts = StrMap::new();
    let result = validate_template_value(
        "anything",
        &TemplateType::ContractRef("nonexistent".into()),
        &contracts,
    );
    assert!(result.is_err());
    assert!(result.unwrap_err().contains("unknown contract"));
}

#[test]
fn test_contract_int_range_boundary() {
    let mut contracts = StrMap::new();
    contracts.insert(
        "port".into(),
        Contract::IntRange {
            min: 1024,
            max: 65535,
        },
    );
    assert!(
        validate_template_value(
            "1024",
            &TemplateType::ContractRef("port".into()),
            &contracts
        )
        .is_ok()
    );
    assert!(
        validate_template_value(
            "65535",
            &TemplateType::ContractRef("port".into()),
            &contracts
        )
        .is_ok()
    );
}

#[test]
fn test_contract_int_range_just_outside() {
    let mut contracts = StrMap::new();
    contracts.insert(
        "port".into(),
        Contract::IntRange {
            min: 1024,
            max: 65535,
        },
    );
    assert!(
        validate_template_value(
            "1023",
            &TemplateType::ContractRef("port".into()),
            &contracts
        )
        .is_err()
    );
    assert!(
        validate_template_value(
            "65536",
            &TemplateType::ContractRef("port".into()),
            &contracts
        )
        .is_err()
    );
}
