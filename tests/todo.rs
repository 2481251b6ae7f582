use chat_server::todo::{check_if_valid_index, convert_to_index, handle_command, parse_decimal};

#[test]
fn test_convert_to_index_valid() {
    let input = "3".to_string();
    assert_eq!(convert_to_index(&input), Some(2)); // 3 -> index 2
}

#[test]
fn test_convert_to_index_invalid_string() {
    let input = "abc".to_string();
    assert_eq!(convert_to_index(&input), None);
}

#[test]
fn test_check_if_valid_index_in_bounds() {
    let input = "2".to_string();
    assert_eq!(check_if_valid_index(3, &input), true); // list has 3, so index 1 is valid
}

#[test]
fn test_check_if_valid_index_out_of_bounds() {
    let input = "5".to_string();
    assert_eq!(check_if_valid_index(3, &input), false);
}

#[test]
fn test_check_if_valid_index_invalid_string() {
    let input = "not_a_number".to_string();
    assert_eq!(check_if_valid_index(3, &input), false);
}

#[test]
fn task_number_zero_names_no_task() {
    assert_eq!(convert_to_index(&"0".to_string()), None);
    assert_eq!(check_if_valid_index(3, &"0".to_string()), false);
}

#[test]
fn decimal_numbers_are_read_like_from_str() {
    assert_eq!(parse_decimal("+42"), Some(42));
    assert_eq!(parse_decimal("007"), Some(7));
    assert_eq!(parse_decimal("+"), None);
    assert_eq!(parse_decimal(""), None);
    assert_eq!(parse_decimal(" 1"), None);
    assert_eq!(parse_decimal("-1"), None);
    assert_eq!(parse_decimal("18446744073709551615"), Some(usize::MAX));
    assert_eq!(parse_decimal("18446744073709551616"), None);
}

#[test]
fn commands_edit_and_list_tasks() {
    let mut list: Vec<(String, bool)> = Vec::new();
    assert_eq!(handle_command(&mut list, "list", String::new()), (true, vec!["List is empty!".to_string()]));
    assert_eq!(handle_command(&mut list, "add", "buy milk".to_string()), (true, vec!["Task added: buy milk".to_string()]));
    assert_eq!(
        handle_command(&mut list, "add", String::new()),
        (true, vec!["Task is empty!".to_string(), "Task added: ".to_string()])
    );
    assert_eq!(handle_command(&mut list, "done", "1".to_string()), (true, vec!["Task 1 marked as done.".to_string()]));
    assert_eq!(handle_command(&mut list, "done", "9".to_string()), (true, vec![]));
    assert_eq!(
        handle_command(&mut list, "list", String::new()),
        (true, vec!["1. [X] buy milk".to_string(), "2. [ ] ".to_string()])
    );
    assert_eq!(handle_command(&mut list, "remove", "1".to_string()), (true, vec![]));
    assert_eq!(list, vec![(String::new(), false)]);
    assert_eq!(handle_command(&mut list, "dance", String::new()), (true, vec![]));
    assert_eq!(handle_command(&mut list, "exit", String::new()), (false, vec!["Exiting...".to_string()]));
}
