use query_os::condition::parse_compound_conditions;

#[test]
fn test_parse_compound_conditions() {
    let conditions =
        parse_compound_conditions("name LIKE '%.rs' AND path NOT LIKE '%target/%'").unwrap();
    assert_eq!(conditions.len(), 2);

    assert_eq!(conditions[0].field, "name");
    assert_eq!(conditions[0].operator, "LIKE");
    assert_eq!(conditions[0].value, "%.rs");
    assert!(!conditions[0].negated);

    assert_eq!(conditions[1].field, "path");
    assert_eq!(conditions[1].operator, "LIKE");
    assert_eq!(conditions[1].value, "%target/%");
    assert!(conditions[1].negated);
}

#[test]
fn test_parse_compound_conditions_case_insensitive_and() {
    let conditions =
        parse_compound_conditions("name like '%.rs' and path not like '%target/%'").unwrap();
    assert_eq!(conditions.len(), 2);

    assert_eq!(conditions[0].field, "name");
    assert_eq!(conditions[0].operator, "LIKE");
    assert_eq!(conditions[0].value, "%.rs");
    assert!(!conditions[0].negated);

    assert_eq!(conditions[1].field, "path");
    assert_eq!(conditions[1].operator, "LIKE");
    assert_eq!(conditions[1].value, "%target/%");
    assert!(conditions[1].negated);
}

#[test]
fn test_parse_compound_conditions_case_insensitive_like() {
    let conditions = parse_compound_conditions("name like '%.txt' and type = 'file'").unwrap();
    assert_eq!(conditions.len(), 2);

    assert_eq!(conditions[0].field, "name");
    assert_eq!(conditions[0].operator, "LIKE");
    assert_eq!(conditions[0].value, "%.txt");
    assert!(!conditions[0].negated);

    assert_eq!(conditions[1].field, "type");
    assert_eq!(conditions[1].operator, "=");
    assert_eq!(conditions[1].value, "file");
    assert!(!conditions[1].negated);
}

#[test]
fn test_parse_compound_conditions_case_insensitive_not() {
    let conditions = parse_compound_conditions("name not like '%.tmp'").unwrap();
    assert_eq!(conditions.len(), 1);

    assert_eq!(conditions[0].field, "name");
    assert_eq!(conditions[0].operator, "LIKE");
    assert_eq!(conditions[0].value, "%.tmp");
    assert!(conditions[0].negated);
}

#[test]
fn test_parse_compound_conditions_is_null() {
    let conditions = parse_compound_conditions("name IS NULL").unwrap();
    assert_eq!(conditions.len(), 1);
    assert_eq!(conditions[0].field, "name");
    assert_eq!(conditions[0].operator, "IS");
    assert_eq!(conditions[0].value, "NULL");
    assert!(!conditions[0].negated);

    let negated = parse_compound_conditions("name IS NOT NULL").unwrap();
    assert_eq!(negated.len(), 1);
    assert_eq!(negated[0].field, "name");
    assert_eq!(negated[0].operator, "IS");
    assert_eq!(negated[0].value, "NULL");
    assert!(negated[0].negated);
}

#[test]
fn test_parse_compound_conditions_comparison_ops() {
    let conditions = parse_compound_conditions("size >= '1 KB' AND depth < 3").unwrap();
    assert_eq!(conditions.len(), 2);
    assert_eq!(conditions[0].field, "size");
    assert_eq!(conditions[0].operator, ">=");
    assert_eq!(conditions[0].value, "1 KB");
    assert_eq!(conditions[1].field, "depth");
    assert_eq!(conditions[1].operator, "<");
    assert_eq!(conditions[1].value, "3");
}

#[test]
fn test_parse_compound_conditions_lowercases_fields() {
    let conditions = parse_compound_conditions("NAME = 'x'").unwrap();
    assert_eq!(conditions[0].field, "name");
}

#[test]
fn test_parse_compound_conditions_rejects_garbage() {
    let err = parse_compound_conditions("name LIKE '%.rs' AND gibberish").unwrap_err();
    assert_eq!(err, "Invalid condition: gibberish");
}
