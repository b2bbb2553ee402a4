use crm_tables::console::{ConsoleEffect, ConsoleMessage, ConsoleUI, SelectedConsole};
use crm_tables::home::Home;
use crm_tables::models::{ColumnsInfo, Table};

#[test]
fn test_initialize_home_component() {
    let mut home = Home::new();
    assert_eq!(home.tables, None);
    assert_eq!(home.title, None);
    home.initialize_component(vec![Table { table_name: String::from("users") }]);
    let expected_tables = vec![Table { table_name: String::from("users") }];
    assert_eq!(home.tables, Some(expected_tables));
    assert_eq!(home.title, Some(String::from("Home Component")));
}

#[test]
fn console_logs_switches_and_clears() {
    let mut console = ConsoleUI::new();
    assert_eq!(console.selected_console, SelectedConsole::UI);
    assert!(console.messages.is_empty());
    assert_eq!(console.update(ConsoleMessage::LogMessage(String::from("a"))), ConsoleEffect::Nothing);
    assert_eq!(console.update(ConsoleMessage::LogMessage(String::from("b"))), ConsoleEffect::Nothing);
    assert_eq!(console.messages, vec![String::from("a"), String::from("b")]);
    assert_eq!(
        console.update(ConsoleMessage::SwitchTab(SelectedConsole::Database)),
        ConsoleEffect::Nothing
    );
    assert_eq!(console.selected_console, SelectedConsole::Database);
    assert_eq!(
        console.update(ConsoleMessage::ClearMessages(SelectedConsole::Business)),
        ConsoleEffect::ClearBusinessMessages
    );
    assert_eq!(
        console.update(ConsoleMessage::ClearMessages(SelectedConsole::Database)),
        ConsoleEffect::ClearDatabaseMessages
    );
    assert_eq!(console.messages.len(), 2);
    assert_eq!(console.update(ConsoleMessage::ClearMessages(SelectedConsole::UI)), ConsoleEffect::Nothing);
    assert!(console.messages.is_empty());
    assert_eq!(console.selected_console, SelectedConsole::Database);
}

#[test]
fn columns_info_compares_by_fields() {
    let info = ColumnsInfo {
        column_name: String::from("id"),
        data_type: String::from("integer"),
        constraint_types: vec![Some(String::from("PRIMARY KEY"))],
        referenced_tables: vec![None],
        referenced_columns: vec![None],
    };
    assert_eq!(info.clone(), info);
}
