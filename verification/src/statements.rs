use vstd::prelude::*;
use crate::models::BillNumberUpdate;

verus! {

/// The statement that reads every booked expense.
pub fn expenses_query() -> (sql: &'static str)
    ensures
        sql@ == "SELECT * FROM ear24_main"@,
{
    "SELECT * FROM ear24_main"
}

/// The statement that reads the bill of a given number (`?1`).
pub fn bill_query() -> (sql: &'static str)
    ensures
        sql@ == "SELECT no, filename, amount, date, Bargeldabhebung FROM bills24 WHERE no = ?1"@,
{
    "SELECT no, filename, amount, date, Bargeldabhebung FROM bills24 WHERE no = ?1"
}

/// The statement that reads every bill.
pub fn bills_query() -> (sql: &'static str)
    ensures
        sql@ == "SELECT no, filename, amount, date, Bargeldabhebung FROM bills24"@,
{
    "SELECT no, filename, amount, date, Bargeldabhebung FROM bills24"
}

/// The statement that lists the tables of the database.
pub fn table_names_query() -> (sql: &'static str)
    ensures
        sql@ == "SELECT name FROM sqlite_master WHERE type='table'"@,
{
    "SELECT name FROM sqlite_master WHERE type='table'"
}

/// The statement that stores the file name (`?1`), amount (`?2`) and
/// date (`?3`) of the bill of a given number (`?4`).
pub fn bill_update_statement() -> (sql: &'static str)
    ensures
        sql@ == "UPDATE bills24 SET \n                filename = ?1, \n                amount = ?2, \n                date = ?3\n             WHERE no = ?4"@,
{
    "UPDATE bills24 SET \n                filename = ?1, \n                amount = ?2, \n                date = ?3\n             WHERE no = ?4"
}

/// The text of the statement that copies the id, expense type and
/// application of every expense into a new table of the given name.
pub open spec fn backup_table_text(backup_table_name: Seq<char>) -> Seq<char> {
    "CREATE TABLE "@ + backup_table_name + " AS SELECT id, expense_type, application FROM ear24_main"@
}

/// The statement that saves the state of the statement of accounts under
/// a new table name.
pub fn backup_table_statement(backup_table_name: &str) -> (sql: String)
    ensures
        sql@ == backup_table_text(backup_table_name@),
        sql@ == "CREATE TABLE "@ + backup_table_name@
            + " AS SELECT id, expense_type, application FROM ear24_main"@,
{
    let mut sql = "CREATE TABLE ".to_owned();
    sql.append(backup_table_name);
    sql.append(" AS SELECT id, expense_type, application FROM ear24_main");
    sql
}


/// The number of an expense that a request sets.
#[derive(Clone, Copy, Debug, PartialEq, Eq, Structural)]
pub enum ExpenseField {
    /// The number of the bill that documents the expense.
    BillNumber,
    /// The kind of expense.
    ExpenseType,
    /// Whether the expense was a cash withdrawal (0 or 1).
    Cash,
    /// The funding application the expense is reported under.
    Application,
}

/// The text of the statement that sets one number (`?1`) of the expense
/// of a given id (`?2`).
pub open spec fn expense_update_text(field: ExpenseField) -> Seq<char> {
    match field {
        ExpenseField::BillNumber => "UPDATE ear24_main SET bill = ?1 WHERE id = ?2"@,
        ExpenseField::ExpenseType => "UPDATE ear24_main SET expense_type = ?1 WHERE id = ?2"@,
        ExpenseField::Cash => "UPDATE ear24_main SET Bargeldabhebung = ?1 WHERE id = ?2"@,
        ExpenseField::Application => "UPDATE ear24_main SET application = ?1 WHERE id = ?2"@,
    }
}

/// The statement that sets one number of an expense.
pub fn expense_update_statement(field: ExpenseField) -> (sql: &'static str)
    ensures
        sql@ == expense_update_text(field),
        field == ExpenseField::BillNumber ==> sql@ == "UPDATE ear24_main SET bill = ?1 WHERE id = ?2"@,
        field == ExpenseField::ExpenseType ==> sql@
            == "UPDATE ear24_main SET expense_type = ?1 WHERE id = ?2"@,
        field == ExpenseField::Cash ==> sql@
            == "UPDATE ear24_main SET Bargeldabhebung = ?1 WHERE id = ?2"@,
        field == ExpenseField::Application ==> sql@
            == "UPDATE ear24_main SET application = ?1 WHERE id = ?2"@,
{
    match field {
        ExpenseField::BillNumber => "UPDATE ear24_main SET bill = ?1 WHERE id = ?2",
        ExpenseField::ExpenseType => "UPDATE ear24_main SET expense_type = ?1 WHERE id = ?2",
        ExpenseField::Cash => "UPDATE ear24_main SET Bargeldabhebung = ?1 WHERE id = ?2",
        ExpenseField::Application => "UPDATE ear24_main SET application = ?1 WHERE id = ?2",
    }
}

/// The arguments of an expense update, in the order of the statement's
/// placeholders: the new number, then the expense's id.
pub fn expense_update_arguments(update: &BillNumberUpdate) -> (args: [i32; 2])
    ensures
        args@ == seq![update.new_number, update.expense_id],
{
    let args = [update.new_number, update.expense_id];
    assert(args@ =~= seq![update.new_number, update.expense_id]);
    args
}

/// The name and the query of the `k`-th funding report: the expenses
/// reported under application `k + 1`.
pub open spec fn report_category(k: int) -> (Seq<char>, Seq<char>) {
    if k == 0 {
        (
            "bmkos"@,
            "SELECT id, partner, amount, date, expense_type, bill, Bargeldabhebung FROM ear24_main WHERE application = 1"@,
        )
    } else if k == 1 {
        (
            "ma7"@,
            "SELECT id, partner, amount, date, expense_type, bill, Bargeldabhebung FROM ear24_main WHERE application = 2"@,
        )
    } else {
        (
            "bezirk"@,
            "SELECT id, partner, amount, date, expense_type, bill, Bargeldabhebung FROM ear24_main WHERE application = 3"@,
        )
    }
}

/// The funding reports, in the order in which they are produced: each
/// report's name and the query of its expenses.
pub fn report_categories() -> (categories: Vec<(&'static str, &'static str)>)
    ensures
        categories@.len() == 3,
        forall|k: int|
            0 <= k < 3 ==> (#[trigger] categories@[k]).0@ == report_category(k).0
                && categories@[k].1@ == report_category(k).1,
        categories@[0].0@ == "bmkos"@,
        categories@[0].1@
            == "SELECT id, partner, amount, date, expense_type, bill, Bargeldabhebung FROM ear24_main WHERE application = 1"@,
        categories@[1].0@ == "ma7"@,
        categories@[1].1@
            == "SELECT id, partner, amount, date, expense_type, bill, Bargeldabhebung FROM ear24_main WHERE application = 2"@,
        categories@[2].0@ == "bezirk"@,
        categories@[2].1@
            == "SELECT id, partner, amount, date, expense_type, bill, Bargeldabhebung FROM ear24_main WHERE application = 3"@,
{
    let mut categories: Vec<(&'static str, &'static str)> = Vec::new();
    categories.push(
        (
            "bmkos",
            "SELECT id, partner, amount, date, expense_type, bill, Bargeldabhebung FROM ear24_main WHERE application = 1",
        ),
    );
    categories.push(
        (
            "ma7",
            "SELECT id, partner, amount, date, expense_type, bill, Bargeldabhebung FROM ear24_main WHERE application = 2",
        ),
    );
    categories.push(
        (
            "bezirk",
            "SELECT id, partner, amount, date, expense_type, bill, Bargeldabhebung FROM ear24_main WHERE application = 3",
        ),
    );
    categories
}

} // verus!
