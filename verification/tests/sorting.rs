use bills_to_db::models::{Bill, Expense, HasDate};
use bills_to_db::order::{bytes_le_exec, sort_by_date_asc};

fn bill(id: u8, date: Option<&str>) -> Bill {
    Bill {
        id,
        filename: format!("bill_{}.pdf", id),
        amount_bits: Some((id as f32 * 1.5).to_bits()),
        date: date.map(|d| d.to_string()),
        cash: None,
    }
}

fn expense(id: u16, date: Option<&str>) -> Expense {
    Expense {
        id,
        date: date.map(|d| d.to_string()),
        partner: format!("partner {}", id),
        amount_bits: (id as f64 * 2.25).to_bits(),
        bill: id,
        expense_type: 1,
        application: Some(1),
        cash: Some(false),
    }
}

fn bill_ids(bills: &[Bill]) -> Vec<u8> {
    bills.iter().map(|b| b.id).collect()
}

fn expense_ids(expenses: &[Expense]) -> Vec<u16> {
    expenses.iter().map(|e| e.id).collect()
}

#[test]
fn bills_come_out_oldest_first() {
    let mut bills = vec![
        bill(1, Some("2024-03-01")),
        bill(2, Some("2024-01-15")),
        bill(3, Some("2023-12-31")),
    ];
    sort_by_date_asc(&mut bills);
    assert_eq!(bill_ids(&bills), vec![3, 2, 1]);
}

#[test]
fn undated_records_come_first() {
    let mut bills = vec![bill(1, Some("2024-03-01")), bill(2, None), bill(3, Some("0001-01-01"))];
    sort_by_date_asc(&mut bills);
    assert_eq!(bill_ids(&bills), vec![2, 3, 1]);
}

#[test]
fn undated_records_rank_as_the_zero_date() {
    // A record dated "0000-00-00" and one without a date share a place:
    // they keep their relative order.
    let mut bills = vec![bill(1, Some("0000-00-00")), bill(2, None), bill(3, Some("0000-00-00"))];
    sort_by_date_asc(&mut bills);
    assert_eq!(bill_ids(&bills), vec![1, 2, 3]);
    let mut bills = vec![bill(2, None), bill(1, Some("0000-00-00"))];
    sort_by_date_asc(&mut bills);
    assert_eq!(bill_ids(&bills), vec![2, 1]);
}

#[test]
fn an_empty_date_ranks_before_undated_records() {
    let mut bills = vec![bill(1, None), bill(2, Some(""))];
    sort_by_date_asc(&mut bills);
    assert_eq!(bill_ids(&bills), vec![2, 1]);
}

#[test]
fn equal_dates_keep_their_order() {
    let mut expenses = vec![
        expense(10, Some("2024-05-02")),
        expense(11, Some("2024-05-01")),
        expense(12, Some("2024-05-02")),
        expense(13, Some("2024-05-01")),
        expense(14, Some("2024-05-02")),
    ];
    sort_by_date_asc(&mut expenses);
    assert_eq!(expense_ids(&expenses), vec![11, 13, 10, 12, 14]);
}

#[test]
fn dates_compare_by_their_text() {
    // Text order, not calendar order: "2024-1-5" sorts after "2024-01-05",
    // since '1' follows '0', but before "2024-10-01", since '-' comes
    // before '0'.
    let mut expenses = vec![
        expense(1, Some("2024-1-5")),
        expense(2, Some("2024-10-01")),
        expense(3, Some("2024-01-05")),
    ];
    sort_by_date_asc(&mut expenses);
    assert_eq!(expense_ids(&expenses), vec![3, 1, 2]);
}

#[test]
fn sorting_keeps_every_record() {
    let mut expenses = vec![
        expense(5, Some("2024-02-01")),
        expense(6, None),
        expense(7, Some("2024-01-01")),
    ];
    sort_by_date_asc(&mut expenses);
    let mut ids = expense_ids(&expenses);
    ids.sort();
    assert_eq!(ids, vec![5, 6, 7]);
    let sixth = expenses.iter().find(|e| e.id == 6).unwrap();
    assert_eq!(sixth.partner, "partner 6");
    assert_eq!(sixth.amount_bits, (6.0f64 * 2.25).to_bits());
}

#[test]
fn sorting_twice_changes_nothing() {
    let mut bills = vec![
        bill(1, Some("2024-02-02")),
        bill(2, None),
        bill(3, Some("2024-02-02")),
        bill(4, Some("2023-02-02")),
    ];
    sort_by_date_asc(&mut bills);
    let once = bill_ids(&bills);
    sort_by_date_asc(&mut bills);
    assert_eq!(bill_ids(&bills), once);
    assert_eq!(once, vec![2, 4, 1, 3]);
}

#[test]
fn sorted_records_stay_in_place() {
    let mut bills = vec![bill(9, None), bill(8, Some("2020-01-01")), bill(7, Some("2021-01-01"))];
    sort_by_date_asc(&mut bills);
    assert_eq!(bill_ids(&bills), vec![9, 8, 7]);
}

#[test]
fn empty_and_single_inputs() {
    let mut none: Vec<Bill> = Vec::new();
    sort_by_date_asc(&mut none);
    assert!(none.is_empty());
    let mut one = vec![bill(1, Some("2024-01-01"))];
    sort_by_date_asc(&mut one);
    assert_eq!(bill_ids(&one), vec![1]);
}

#[test]
fn sorts_a_part_of_a_slice() {
    let mut bills = vec![
        bill(1, Some("2024-03-01")),
        bill(2, Some("2024-02-01")),
        bill(3, Some("2024-01-01")),
    ];
    sort_by_date_asc(&mut bills[1..]);
    assert_eq!(bill_ids(&bills), vec![1, 3, 2]);
}

#[test]
fn records_report_their_dates() {
    assert_eq!(bill(1, Some("2024-01-02")).get_date(), Some("2024-01-02"));
    assert_eq!(bill(1, None).get_date(), None);
    assert_eq!(expense(1, Some("2023-12-24")).get_date(), Some("2023-12-24"));
    assert_eq!(expense(1, None).get_date(), None);
}

#[test]
fn byte_order_of_texts() {
    assert!(bytes_le_exec(b"", b""));
    assert!(bytes_le_exec(b"", b"a"));
    assert!(!bytes_le_exec(b"a", b""));
    assert!(bytes_le_exec(b"abc", b"abd"));
    assert!(!bytes_le_exec(b"abd", b"abc"));
    assert!(bytes_le_exec(b"ab", b"abc"));
    assert!(bytes_le_exec(b"abc", b"abc"));
    assert!(bytes_le_exec("z".as_bytes(), "é".as_bytes()));
}
