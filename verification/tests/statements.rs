use bills_to_db::models::BillNumberUpdate;
use bills_to_db::statements::{
    backup_table_statement, bill_query, bill_update_statement, bills_query, expense_update_arguments,
    expense_update_statement, expenses_query, report_categories, table_names_query, ExpenseField,
};

#[test]
fn read_statements() {
    assert_eq!(expenses_query(), "SELECT * FROM ear24_main");
    assert_eq!(bill_query(), "SELECT no, filename, amount, date, Bargeldabhebung FROM bills24 WHERE no = ?1");
    assert_eq!(bills_query(), "SELECT no, filename, amount, date, Bargeldabhebung FROM bills24");
    assert_eq!(table_names_query(), "SELECT name FROM sqlite_master WHERE type='table'");
}

#[test]
fn bill_update() {
    let sql = bill_update_statement();
    assert!(sql.starts_with("UPDATE bills24 SET"));
    assert!(sql.contains("filename = ?1"));
    assert!(sql.contains("amount = ?2"));
    assert!(sql.contains("date = ?3"));
    assert!(sql.ends_with("WHERE no = ?4"));
}

#[test]
fn backup_statement_names_the_table() {
    assert_eq!(
        backup_table_statement("ear24_backup_1"),
        "CREATE TABLE ear24_backup_1 AS SELECT id, expense_type, application FROM ear24_main"
    );
    assert_eq!(
        backup_table_statement(""),
        "CREATE TABLE  AS SELECT id, expense_type, application FROM ear24_main"
    );
}

#[test]
fn expense_updates_set_one_column() {
    assert_eq!(expense_update_statement(ExpenseField::BillNumber), "UPDATE ear24_main SET bill = ?1 WHERE id = ?2");
    assert_eq!(
        expense_update_statement(ExpenseField::ExpenseType),
        "UPDATE ear24_main SET expense_type = ?1 WHERE id = ?2"
    );
    assert_eq!(
        expense_update_statement(ExpenseField::Cash),
        "UPDATE ear24_main SET Bargeldabhebung = ?1 WHERE id = ?2"
    );
    assert_eq!(
        expense_update_statement(ExpenseField::Application),
        "UPDATE ear24_main SET application = ?1 WHERE id = ?2"
    );
}

#[test]
fn update_arguments_put_the_number_first() {
    let update = BillNumberUpdate { expense_id: 31, new_number: 7 };
    assert_eq!(expense_update_arguments(&update), [7, 31]);
}

#[test]
fn three_funding_reports() {
    let categories = report_categories();
    let names: Vec<&str> = categories.iter().map(|c| c.0).collect();
    assert_eq!(names, vec!["bmkos", "ma7", "bezirk"]);
    for (k, (_, query)) in categories.iter().enumerate() {
        assert_eq!(
            *query,
            format!(
                "SELECT id, partner, amount, date, expense_type, bill, Bargeldabhebung FROM ear24_main WHERE application = {}",
                k + 1
            )
        );
    }
}
