use todotxt::date::{today, Date};
use todotxt::filter::{due_window, find_by_id, nth_listed, parse_filter, select, DueWindow, Filter};
use todotxt::todoitem::TodoItem;
use todotxt::todolibrary::TodoLibrary;
use todotxt::todorecurrence::{TodoRecurrence, TodoRecurrenceUnit};

fn ymd(y: i32, m: u32, d: u32) -> Date {
    Date::from_ymd_opt(y, m, d).unwrap()
}

#[test]
fn test_new() {
    let lib = TodoLibrary::new("test.txt".to_string());
    assert_eq!(lib.file_name, "test.txt");
    assert!(lib.items.is_empty());
}

#[test]
fn test_add_item() {
    let mut lib = TodoLibrary::new("dummy.txt".to_string());
    let item = "Test item".parse().unwrap();
    lib.add_item(item);
    assert_eq!(lib.items.len(), 1);
    assert_eq!(lib.items[0].description, "Test item");
}

#[test]
fn test_remove_item() {
    let mut lib = TodoLibrary::new("dummy.txt".to_string());
    lib.add_item("Item 1".parse().unwrap());
    lib.add_item("Item 2".parse().unwrap());
    let removed = lib.remove_item(0);
    assert!(removed.is_some());
    assert_eq!(lib.items.len(), 1);
    assert_eq!(removed.unwrap().description, "Item 1");
}

#[test]
fn test_remove_item_out_of_bounds() {
    let mut lib = TodoLibrary::new("dummy.txt".to_string());
    let removed = lib.remove_item(0);
    assert!(removed.is_none());
}

#[test]
fn test_list_items() {
    let mut lib = TodoLibrary::new("dummy.txt".to_string());
    lib.add_item("Item".parse().unwrap());
    let items = lib.list_items();
    assert_eq!(items.len(), 1);
}

#[test]
fn test_item_count() {
    let mut lib = TodoLibrary::new("dummy.txt".to_string());
    lib.add_item("Item 1".parse().unwrap());
    lib.add_item("Item 2".parse().unwrap());
    assert_eq!(lib.item_count(), 2);
}

#[test]
fn test_complete_item() {
    let mut lib = TodoLibrary::new("dummy.txt".to_string());
    lib.add_item("Incomplete".parse().unwrap());
    let result = lib.complete_item(0);
    assert_eq!(result, Some(false));
    assert!(lib.items[0].done);
}

#[test]
fn test_complete_item_out_of_bounds() {
    let mut lib = TodoLibrary::new("dummy.txt".to_string());
    let result = lib.complete_item(0);
    assert_eq!(result, None);
    assert_eq!(lib.items.len(), 0);
}

#[test]
fn test_clear_items() {
    let mut lib = TodoLibrary::new("dummy.txt".to_string());
    lib.add_item("Item 1".parse().unwrap());
    lib.add_item("Item 2".parse().unwrap());
    assert_eq!(lib.item_count(), 2);
    lib.clear_items();
    assert_eq!(lib.item_count(), 0);
    assert!(lib.list_items().is_empty());
}

#[test]
fn test_item_count_empty() {
    let lib = TodoLibrary::new("dummy.txt".to_string());
    assert_eq!(lib.item_count(), 0);
}

#[test]
fn test_list_items_multiple() {
    let mut lib = TodoLibrary::new("dummy.txt".to_string());
    lib.add_item("First".parse().unwrap());
    lib.add_item("Second".parse().unwrap());
    let items = lib.list_items();
    assert_eq!(items.len(), 2);
    assert_eq!(items[0].description, "First");
    assert_eq!(items[1].description, "Second");
}

#[test]
fn test_complete_item_success() {
    let mut lib = TodoLibrary::new("dummy.txt".to_string());
    lib.add_item("Uncompleted".parse().unwrap());
    assert!(!lib.items[0].done);
    let result = lib.complete_item(0);
    assert_eq!(result, Some(false));
    assert!(lib.items[0].done);
}

#[test]
fn test_complete_recurring_daily() {
    let mut lib = TodoLibrary::new("dummy.txt".to_string());
    let today = today();
    let mut item = "Test rec daily".parse::<TodoItem>().unwrap();
    item.due = today.minus_days(2);
    item.recurrence = Some(TodoRecurrence {
        count: 1,
        unit: TodoRecurrenceUnit::Daily,
        strict: false,
    });
    lib.add_item(item);
    assert_eq!(lib.item_count(), 1);
    let result = lib.complete_item(0);
    assert_eq!(result, Some(true));
    assert_eq!(lib.item_count(), 2);
    assert!(lib.items[0].done);
    assert!(!lib.items[1].done);
    assert_eq!(lib.items[1].due, today.plus_days(1));
    assert_eq!(lib.items[1].description, "Test rec daily");
}

#[test]
fn test_complete_recurring_weekly() {
    let mut lib = TodoLibrary::new("dummy.txt".to_string());
    let today = today();
    let mut item = "Test rec weekly".parse::<TodoItem>().unwrap();
    item.due = Some(today);
    item.recurrence = Some(TodoRecurrence {
        count: 2,
        unit: TodoRecurrenceUnit::Weekly,
        strict: false,
    });
    lib.add_item(item);
    let result = lib.complete_item(0);
    assert_eq!(result, Some(true));
    assert_eq!(lib.item_count(), 2);
    assert_eq!(lib.items[1].due, today.plus_days(14));
}

#[test]
fn test_complete_non_recurring() {
    let mut lib = TodoLibrary::new("dummy.txt".to_string());
    let item = "Test non rec".parse::<TodoItem>().unwrap();
    lib.add_item(item);
    let result = lib.complete_item(0);
    assert_eq!(result, Some(false));
    assert_eq!(lib.item_count(), 1);
    assert!(lib.items[0].done);
}

fn recurring(rule: &str) -> TodoLibrary {
    let mut lib = TodoLibrary::new("dummy.txt".to_string());
    let line = format!("(B) water plants +garden @home due:2024-01-01 rec:{} t:2023-12-30 uuid:12345678-1234-1234-1234-123456789abc", rule);
    lib.add_item(TodoItem::parse(&line).unwrap());
    lib
}

#[test]
fn non_strict_rule_counts_from_completion_day() {
    let mut lib = recurring("2w");
    let x = ymd(2024, 3, 10);
    assert_eq!(lib.complete_item_on(0, x), Some(true));
    let next = &lib.items[1];
    assert_eq!(next.due, Some(ymd(2024, 3, 24)));
    assert_ne!(next.due, Some(ymd(2024, 1, 15)));
    assert_eq!(next.creation_date, Some(x));
    assert!(!next.done);
    assert_eq!(next.completion_date, None);
    assert_eq!(next.uuid, None);
    assert_eq!(next.sub, None);
    assert_eq!(next.priority.priority, Some(1));
    assert_eq!(next.description, "water plants");
    assert_eq!(next.projects[0].name, "garden");
    assert_eq!(next.contexts[0].name, "home");
    assert_eq!(next.threshold, Some(ymd(2023, 12, 30)));
    assert_eq!(next.recurrence, lib.items[0].recurrence);
    assert!(lib.items[0].done);
    assert_eq!(lib.items[0].uuid, Some(0x12345678_1234_1234_1234_123456789abc));
}

#[test]
fn strict_rule_counts_from_due_date() {
    for x in [ymd(2024, 3, 10), ymd(2023, 6, 1), ymd(2024, 1, 1)] {
        let mut lib = recurring("+2w");
        assert_eq!(lib.complete_item_on(0, x), Some(true));
        assert_eq!(lib.items[1].due, Some(ymd(2024, 1, 15)));
    }
}

#[test]
fn monthly_and_yearly_rules_use_fixed_lengths() {
    let mut lib = recurring("+m");
    lib.complete_item_on(0, ymd(2024, 5, 5));
    assert_eq!(lib.items[1].due, Some(ymd(2024, 1, 31)));
    let mut lib = recurring("+y");
    lib.complete_item_on(0, ymd(2024, 5, 5));
    assert_eq!(lib.items[1].due, Some(ymd(2024, 12, 31)));
    let mut lib = recurring("+3b");
    lib.complete_item_on(0, ymd(2024, 5, 5));
    assert_eq!(lib.items[1].due, Some(ymd(2024, 1, 4)));
}

#[test]
fn rule_without_due_date_spawns_nothing() {
    let mut lib = TodoLibrary::new("dummy.txt".to_string());
    lib.add_item(TodoItem::parse("stretch rec:1d").unwrap());
    assert_eq!(lib.complete_item_on(0, ymd(2024, 1, 1)), Some(false));
    assert_eq!(lib.item_count(), 1);
    assert!(lib.items[0].done);
}

#[test]
fn successor_past_the_last_date_is_not_spawned() {
    let mut lib = TodoLibrary::new("dummy.txt".to_string());
    lib.add_item(TodoItem::parse("far due:+262142-12-30 rec:+2d").unwrap());
    assert_eq!(lib.complete_item_on(0, ymd(2024, 1, 1)), Some(false));
    assert_eq!(lib.item_count(), 1);
}

#[test]
fn completing_keeps_other_positions() {
    let mut lib = TodoLibrary::new("dummy.txt".to_string());
    lib.load_text("a\nb due:2024-01-01 rec:d\nc");
    assert_eq!(lib.complete_item_on(1, ymd(2024, 2, 2)), Some(true));
    let names: Vec<&str> = lib.items.iter().map(|i| i.description.as_str()).collect();
    assert_eq!(names, vec!["a", "b", "c", "b"]);
    assert_eq!(lib.complete_item_on(9, ymd(2024, 2, 2)), None);
    assert_eq!(lib.item_count(), 4);
}

#[test]
fn load_drops_lines_that_do_not_parse() {
    let mut lib = TodoLibrary::new("todo.txt".to_string());
    lib.load_text("Buy milk\nx");
    assert_eq!(lib.item_count(), 1);
    assert_eq!(lib.items[0].description, "Buy milk");
    assert_eq!(lib.file_name, "todo.txt");
}

#[test]
fn load_replaces_and_keeps_blank_lines() {
    let mut lib = TodoLibrary::new("todo.txt".to_string());
    lib.add_item(TodoItem::parse("old").unwrap());
    lib.load_text("one\n\ntwo\n");
    let names: Vec<&str> = lib.items.iter().map(|i| i.description.as_str()).collect();
    assert_eq!(names, vec!["one", "", "two"]);
    lib.load_text("");
    assert_eq!(lib.item_count(), 0);
}

#[test]
fn save_joins_lines_with_newlines() {
    let mut lib = TodoLibrary::new("todo.txt".to_string());
    assert_eq!(lib.save_text(), "");
    lib.load_text("(A) first +p\nx 2024-01-02 2024-01-01 second\n");
    assert_eq!(lib.save_text(), "(A) first +p\nx 2024-01-02 2024-01-01 second");
}

#[test]
fn filter_names() {
    assert_eq!(parse_filter("today"), Some(Filter::Today));
    assert_eq!(parse_filter("week"), Some(Filter::Week));
    assert_eq!(parse_filter("all"), Some(Filter::All));
    assert_eq!(parse_filter("overdue"), Some(Filter::Overdue));
    assert_eq!(parse_filter("Week"), None);
    assert_eq!(parse_filter("3"), None);
}

#[test]
fn week_filter_scenario() {
    let mut lib = TodoLibrary::new("todo.txt".to_string());
    lib.load_text("a due:2024-06-10\nb due:2024-06-12\nc due:2024-06-20\nd");
    let t = ymd(2024, 6, 10);
    let w = due_window(Filter::Week, t);
    assert_eq!(w, DueWindow::Between(t, ymd(2024, 6, 16)));
    assert_eq!(select(lib.list_items(), false, &w), vec![0, 1]);
    let w = due_window(Filter::Today, t);
    assert_eq!(select(lib.list_items(), false, &w), vec![0]);
    let w = due_window(Filter::All, t);
    assert_eq!(select(lib.list_items(), false, &w), vec![0, 1, 2, 3]);
    assert_eq!(select(lib.list_items(), true, &w), Vec::<usize>::new());
    let w = due_window(Filter::Overdue, ymd(2024, 6, 13));
    assert_eq!(w, DueWindow::Between(Date::min_value(), ymd(2024, 6, 12)));
    assert_eq!(select(lib.list_items(), false, &w), vec![0, 1]);
    assert_eq!(due_window(Filter::Overdue, Date::min_value()), DueWindow::Nothing);
}

#[test]
fn picking_listed_records() {
    let mut lib = TodoLibrary::new("todo.txt".to_string());
    lib.load_text("x 2024-01-01 2024-01-01 done\nopen uuid:12345678-1234-1234-1234-123456789abc\nother");
    let open = select(lib.list_items(), false, &DueWindow::Any);
    assert_eq!(open, vec![1, 2]);
    assert_eq!(nth_listed(&open, 1), Some(1));
    assert_eq!(nth_listed(&open, 2), Some(2));
    assert_eq!(nth_listed(&open, 0), None);
    assert_eq!(nth_listed(&open, 3), None);
    assert_eq!(find_by_id(lib.list_items(), &open, 0x12345678_1234_1234_1234_123456789abc), Some(1));
    assert_eq!(find_by_id(lib.list_items(), &open, 7), None);
}
