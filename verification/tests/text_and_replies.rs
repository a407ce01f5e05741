use bills_to_db::models::{BillNumberUpdate, EarBackup};
use bills_to_db::pages::{
    backup_table_name_to_save, next_bill_location, report_file_name, update_reply,
};
use bills_to_db::text::{decimal_string, with_decimal_points};

#[test]
fn integers_in_decimal() {
    assert_eq!(decimal_string(0), "0");
    assert_eq!(decimal_string(7), "7");
    assert_eq!(decimal_string(42), "42");
    assert_eq!(decimal_string(1000), "1000");
    assert_eq!(decimal_string(-45), "-45");
    assert_eq!(decimal_string(i64::MAX), i64::MAX.to_string());
    assert_eq!(decimal_string(i64::MIN), i64::MIN.to_string());
}

#[test]
fn decimal_commas_become_points() {
    assert_eq!(with_decimal_points("12,50"), "12.50");
    assert_eq!(with_decimal_points("1,234,5"), "1.234.5");
    assert_eq!(with_decimal_points("3.75"), "3.75");
    assert_eq!(with_decimal_points(""), "");
    assert_eq!(with_decimal_points("€ 9,99"), "€ 9.99");
    assert_eq!(with_decimal_points("12,50").parse::<f64>().unwrap(), 12.5);
}

#[test]
fn reply_to_an_update() {
    let update = BillNumberUpdate { expense_id: 17, new_number: 4 };
    assert_eq!(update_reply(&update), "Updated bill number to 4 for transaction ID 17");
    let update = BillNumberUpdate { expense_id: 0, new_number: -3 };
    assert_eq!(update_reply(&update), "Updated bill number to -3 for transaction ID 0");
    let update = BillNumberUpdate { expense_id: i32::MIN, new_number: i32::MAX };
    assert_eq!(
        update_reply(&update),
        "Updated bill number to 2147483647 for transaction ID -2147483648"
    );
}

#[test]
fn after_saving_a_bill_the_next_one_opens() {
    assert_eq!(next_bill_location(0), "/bill?no=1");
    assert_eq!(next_bill_location(4), "/bill?no=5");
    assert_eq!(next_bill_location(99), "/bill?no=100");
    assert_eq!(next_bill_location(254), "/bill?no=255");
}

#[test]
fn report_files_are_named_after_the_report() {
    assert_eq!(report_file_name("bmkos"), "bmkos_report.html");
    assert_eq!(report_file_name(""), "_report.html");
}

fn backup(name: Option<&str>, make: Option<bool>) -> EarBackup {
    EarBackup { backup_table_name: name.map(|n| n.to_string()), make_backup: make }
}

#[test]
fn backups_only_when_asked_for() {
    assert_eq!(backup_table_name_to_save(&backup(Some("ear24_jan"), Some(true))), Some("ear24_jan".to_string()));
    assert_eq!(backup_table_name_to_save(&backup(None, Some(true))), Some(String::new()));
    assert_eq!(backup_table_name_to_save(&backup(Some("ear24_jan"), Some(false))), None);
    assert_eq!(backup_table_name_to_save(&backup(Some("ear24_jan"), None)), None);
    assert_eq!(backup_table_name_to_save(&backup(None, None)), None);
}
