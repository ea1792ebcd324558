use query_os::models::{QueryType, SortDirection};
use query_os::parser::parse_query;

#[test]
fn test_parse_query_select_star() {
    let query = "SELECT * FROM /tmp";
    let result = parse_query(query).unwrap();
    assert_eq!(result.query_type, QueryType::Select);
    assert_eq!(result.select_fields.len(), 6);
    assert_eq!(result.from_path, "/tmp");
    assert!(result.where_clause.is_none());
}

#[test]
fn test_parse_query_with_is_operator() {
    let query_is_null = parse_query("SELECT * FROM /tmp WHERE name IS NULL").unwrap();
    assert_eq!(query_is_null.where_clause, Some("name IS NULL".to_string()));

    let query_is_not_null = parse_query("SELECT * FROM /tmp WHERE name IS NOT NULL").unwrap();
    assert_eq!(
        query_is_not_null.where_clause,
        Some("name IS NOT NULL".to_string())
    );
}

#[test]
fn test_parse_query_with_where() {
    let query = "SELECT name, type FROM /tmp WHERE type = 'file'";
    let result = parse_query(query).unwrap();
    assert_eq!(result.query_type, QueryType::Select);
    assert_eq!(result.select_fields, vec!["name", "type"]);
    assert_eq!(result.from_path, "/tmp");
    assert_eq!(result.where_clause, Some("type = 'file'".to_string()));
}

#[test]
fn test_parse_query_with_limit() {
    let query = "SELECT * FROM /tmp LIMIT 10";
    let result = parse_query(query).unwrap();
    assert_eq!(result.query_type, QueryType::Select);
    assert_eq!(result.limit, Some(10));
}

#[test]
fn test_parse_query_delete_file() {
    let query = "DELETE FROM . WHERE name = 'test.txt'";
    let result = parse_query(query).unwrap();
    assert_eq!(result.query_type, QueryType::Delete);
    assert_eq!(result.from_path, ".");
    assert_eq!(result.where_clause, Some("name = 'test.txt'".to_string()));
}

#[test]
fn test_parse_query_delete_directory() {
    let query = "DELETE FROM ./test";
    let result = parse_query(query).unwrap();
    assert_eq!(result.query_type, QueryType::Delete);
    assert_eq!(result.from_path, "./test");
    assert!(result.where_clause.is_none());
}

#[test]
fn test_parse_query_delete_process() {
    let query = "DELETE FROM ps WHERE name = 'node'";
    let result = parse_query(query).unwrap();
    assert_eq!(result.query_type, QueryType::Delete);
    assert_eq!(result.from_path, "ps");
    assert_eq!(result.where_clause, Some("name = 'node'".to_string()));
}

#[test]
fn test_parse_query_case_insensitive_select() {
    let query = "select * from /tmp";
    let result = parse_query(query).unwrap();
    assert_eq!(result.query_type, QueryType::Select);
    assert_eq!(result.from_path, "/tmp");
}

#[test]
fn test_parse_query_case_insensitive_delete() {
    let query = "delete from /tmp where name = 'test.txt'";
    let result = parse_query(query).unwrap();
    assert_eq!(result.query_type, QueryType::Delete);
    assert_eq!(result.from_path, "/tmp");
    assert_eq!(result.where_clause, Some("name = 'test.txt'".to_string()));
}

#[test]
fn test_parse_query_case_insensitive_where() {
    let query = "SELECT name, type FROM /tmp WHERE type = 'file'";
    let result = parse_query(query).unwrap();
    assert_eq!(result.query_type, QueryType::Select);
    assert_eq!(result.select_fields, vec!["name", "type"]);
    assert_eq!(result.from_path, "/tmp");
    assert_eq!(result.where_clause, Some("type = 'file'".to_string()));
}

#[test]
fn test_parse_query_case_insensitive_order_by() {
    let query = "select * from /tmp order by name";
    let result = parse_query(query).unwrap();
    assert_eq!(result.query_type, QueryType::Select);
    assert_eq!(result.order_by, Some("name".to_string()));
}

#[test]
fn test_parse_query_case_insensitive_limit() {
    let query = "select * from /tmp limit 10";
    let result = parse_query(query).unwrap();
    assert_eq!(result.query_type, QueryType::Select);
    assert_eq!(result.limit, Some(10));
}

#[test]
fn test_parse_query_case_insensitive_mixed() {
    let query = "Select * From /tmp Where type = 'file' Order By name Limit 5";
    let result = parse_query(query).unwrap();
    assert_eq!(result.query_type, QueryType::Select);
    assert_eq!(result.from_path, "/tmp");
    assert_eq!(result.where_clause, Some("type = 'file'".to_string()));
    assert_eq!(result.order_by, Some("name".to_string()));
    assert_eq!(result.order_direction, SortDirection::Ascending);
    assert_eq!(result.limit, Some(5));
}

#[test]
fn test_parse_query_order_by_asc() {
    let query = "SELECT * FROM /tmp ORDER BY name ASC";
    let result = parse_query(query).unwrap();
    assert_eq!(result.order_by, Some("name".to_string()));
    assert_eq!(result.order_direction, SortDirection::Ascending);
}

#[test]
fn test_parse_query_order_by_desc() {
    let query = "SELECT * FROM /tmp ORDER BY name DESC";
    let result = parse_query(query).unwrap();
    assert_eq!(result.order_by, Some("name".to_string()));
    assert_eq!(result.order_direction, SortDirection::Descending);
}

#[test]
fn test_parse_query_order_by_default_asc() {
    let query = "SELECT * FROM /tmp ORDER BY name";
    let result = parse_query(query).unwrap();
    assert_eq!(result.order_by, Some("name".to_string()));
    assert_eq!(result.order_direction, SortDirection::Ascending);
}

#[test]
fn test_parse_query_select_star_process_defaults() {
    let result = parse_query("SELECT * FROM ps").unwrap();
    assert_eq!(
        result.select_fields,
        vec!["pid", "name", "cpu_usage", "memory_usage", "status"]
    );
}

#[test]
fn test_parse_query_aliases() {
    let result = parse_query("SELECT name AS n, size FROM /tmp").unwrap();
    assert_eq!(result.select_fields, vec!["name", "size"]);
    assert_eq!(
        result.select_field_aliases,
        vec![Some("n".to_string()), None]
    );
}

#[test]
fn test_parse_query_rejects_malformed() {
    assert!(parse_query("nonsense").is_err());
    assert!(parse_query("SELECT * FROM").is_err());
    assert!(parse_query("SELECT FROM /tmp").is_err());
    assert!(parse_query("SELECT * FROM /tmp LIMIT ten").is_err());
}

#[test]
fn test_parse_query_limit_too_large() {
    let result = parse_query("SELECT * FROM /tmp LIMIT 99999999999999999999999999");
    assert_eq!(result.unwrap_err(), "Invalid limit value");
}

#[test]
fn test_parse_query_distinct() {
    let result = parse_query("SELECT DISTINCT name FROM net").unwrap();
    assert!(result.distinct);
    assert_eq!(result.select_fields, vec!["name"]);
    let plain = parse_query("SELECT name FROM net").unwrap();
    assert!(!plain.distinct);
}

#[test]
fn test_subquery_parsing() {
    let query_str = "SELECT name FROM /tmp WHERE type = 'file'";
    let query = parse_query(query_str).unwrap();
    assert_eq!(query.where_subqueries.len(), 0);
    assert_eq!(query.select_subqueries.len(), 0);
}

#[test]
fn test_select_subquery_parsing() {
    let query_str = "SELECT name FROM /tmp";
    let query = parse_query(query_str).unwrap();
    assert_eq!(query.select_subqueries.len(), 0);
    assert_eq!(query.select_fields, vec!["name".to_string()]);
}

#[test]
fn test_parse_query_where_keeps_quoted_keywords() {
    // A clause keyword inside single quotes does not end the WHERE text.
    let result = parse_query("SELECT * FROM /tmp WHERE name = 'order by' LIMIT 2").unwrap();
    assert_eq!(result.where_clause, Some("name = 'ORDER BY'".to_string()));
    assert_eq!(result.limit, Some(2));
}
