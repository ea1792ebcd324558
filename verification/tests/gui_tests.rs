use query_os::models::{FileInfo, ProcessInfo, QueryType, SortDirection, SqlQuery};

#[test]
fn test_column_filtering_files() {
    // Only the selected columns are rendered for file results.
    let file_info = FileInfo {
        name: "test.txt".to_string(),
        file_type: "file".to_string(),
        modified_date: 0,
        permissions: "644".to_string(),
        size: "1024 B".to_string(),
        path: "./test.txt".to_string(),
        depth: 1,
        extension: Some("txt".to_string()),
    };

    let selected_fields = vec!["name".to_string()];
    let mut columns = Vec::new();
    for field in &selected_fields {
        let value = match field.to_lowercase().as_str() {
            "name" => file_info.name.clone(),
            "type" => file_info.file_type.clone(),
            "modified" | "modified_date" => file_info.modified_date.to_string(),
            "permissions" => file_info.permissions.clone(),
            "size" => file_info.size.clone(),
            "path" => file_info.path.clone(),
            _ => "".to_string(),
        };
        columns.push(value);
    }

    assert_eq!(columns.len(), 1);
    assert_eq!(columns[0], "test.txt");
}

#[test]
fn test_column_filtering_processes() {
    // Only the selected columns are rendered for process results.
    let process_info = ProcessInfo::new(1234, "node", 55, 1024 * 1024, "running");

    let selected_fields = vec!["name".to_string(), "pid".to_string()];
    let mut columns = Vec::new();
    for field in &selected_fields {
        let value = match field.to_lowercase().as_str() {
            "name" => process_info.name.clone(),
            "pid" => process_info.pid.clone(),
            "memory" | "memory_usage" => process_info.memory_usage.clone(),
            "cpu" | "cpu_usage" => process_info.cpu_usage.clone(),
            "status" => process_info.status.clone(),
            _ => "".to_string(),
        };
        columns.push(value);
    }

    assert_eq!(columns.len(), 2);
    assert_eq!(columns[0], "node");
    assert_eq!(columns[1], "1234");
}

#[test]
fn test_column_header_capitalization() {
    let selected_fields = vec![
        "name".to_string(),
        "file_type".to_string(),
        "cpu_usage".to_string(),
    ];
    let headers: Vec<String> = selected_fields
        .iter()
        .map(|field| {
            let mut chars = field.chars();
            match chars.next() {
                None => String::new(),
                Some(first) => first.to_uppercase().collect::<String>() + chars.as_str(),
            }
        })
        .collect();

    assert_eq!(headers, vec!["Name", "File_type", "Cpu_usage"]);
}

#[test]
fn test_spinner_frame_calculation() {
    let spinner_chars = ["a", "b", "c", "d", "e", "f", "g", "h", "i", "j"];

    // Spinner frames cycle without running off the table.
    for i in 0..20 {
        let frame = i % 4;
        let spinner_text = spinner_chars[frame % spinner_chars.len()];
        assert!(!spinner_text.is_empty());
    }
}

#[test]
fn test_empty_query_handling() {
    // An empty field list defaults to the full file column set.
    let query_with_empty_fields = SqlQuery {
        query_type: QueryType::Select,
        select_fields: vec![],
        select_field_aliases: vec![],
        select_subqueries: vec![],
        from_path: ".".to_string(),
        where_clause: None,
        where_subqueries: vec![],
        order_by: None,
        order_direction: SortDirection::Ascending,
        limit: None,
        distinct: false,
    };

    let selected_fields = if query_with_empty_fields.select_fields.is_empty() {
        vec![
            "name".to_string(),
            "type".to_string(),
            "modified_date".to_string(),
            "permissions".to_string(),
            "size".to_string(),
            "path".to_string(),
        ]
    } else {
        query_with_empty_fields.select_fields.clone()
    };

    assert_eq!(selected_fields.len(), 6);
    assert!(selected_fields.contains(&"name".to_string()));
    assert!(selected_fields.contains(&"type".to_string()));
}

#[test]
fn test_select_star_expansion() {
    // A bare `*` stands for the full file column set.
    let query_with_star = SqlQuery {
        query_type: QueryType::Select,
        select_fields: vec!["*".to_string()],
        select_field_aliases: vec![],
        select_subqueries: vec![],
        from_path: ".".to_string(),
        where_clause: None,
        where_subqueries: vec![],
        order_by: None,
        order_direction: SortDirection::Ascending,
        limit: None,
        distinct: false,
    };

    let selected_fields = if query_with_star.select_fields == vec!["*"] {
        vec![
            "name".to_string(),
            "type".to_string(),
            "modified_date".to_string(),
            "permissions".to_string(),
            "size".to_string(),
            "path".to_string(),
        ]
    } else {
        query_with_star.select_fields.clone()
    };

    assert_eq!(selected_fields.len(), 6);
}
