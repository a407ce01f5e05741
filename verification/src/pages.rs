use vstd::prelude::*;
use crate::models::{BillNumberUpdate, EarBackup};
use crate::text::{decimal_string, decimal_text, is_decimal_of, lemma_decimal_text_is_decimal};

verus! {

/// The reply to a request that set a number of an expense.
pub open spec fn update_reply_text(new_number: int, expense_id: int) -> Seq<char> {
    "Updated bill number to "@ + decimal_text(new_number) + " for transaction ID "@
        + decimal_text(expense_id)
}

/// Words the reply to an expense update: the number set and the id of
/// the expense.
pub fn update_reply(update: &BillNumberUpdate) -> (reply: String)
    ensures
        reply@ == update_reply_text(update.new_number as int, update.expense_id as int),
        exists|number: Seq<char>, id: Seq<char>|
            #![trigger is_decimal_of(number, update.new_number as int), is_decimal_of(id, update.expense_id as int)]
            reply@ == "Updated bill number to "@ + number + " for transaction ID "@ + id
                && is_decimal_of(number, update.new_number as int) && is_decimal_of(
                id,
                update.expense_id as int,
            ),
{
    proof {
        lemma_update_reply_reads_back(update.new_number as int, update.expense_id as int);
    }
    let mut reply = "Updated bill number to ".to_owned();
    let number = decimal_string(update.new_number as i64);
    reply.append(number.as_str());
    reply.append(" for transaction ID ");
    let id = decimal_string(update.expense_id as i64);
    reply.append(id.as_str());
    reply
}

/// The reply to an expense update says the number that was set and the
/// id of the expense, each written in decimal as `{}` writes it.
pub proof fn lemma_update_reply_reads_back(new_number: int, expense_id: int)
    ensures
        exists|number: Seq<char>, id: Seq<char>|
            #![trigger is_decimal_of(number, new_number), is_decimal_of(id, expense_id)]
            update_reply_text(new_number, expense_id) == "Updated bill number to "@ + number
                + " for transaction ID "@ + id && is_decimal_of(number, new_number)
                && is_decimal_of(id, expense_id),
{
    lemma_decimal_text_is_decimal(new_number);
    lemma_decimal_text_is_decimal(expense_id);
    assert(is_decimal_of(decimal_text(new_number), new_number));
    assert(is_decimal_of(decimal_text(expense_id), expense_id));
}

/// Where the browser goes after a bill was saved: the page of the next
/// bill.
pub open spec fn next_bill_location_text(no: int) -> Seq<char> {
    "/bill?no="@ + decimal_text(no + 1)
}

/// The location of the page of the bill after bill `no`. The bill numbers
/// are `u8`, so there is no bill after 255.
pub fn next_bill_location(no: u8) -> (location: String)
    requires
        no < 255,
    ensures
        location@ == next_bill_location_text(no as int),
        exists|next: Seq<char>|
            #![trigger is_decimal_of(next, no + 1)]
            location@ == "/bill?no="@ + next && is_decimal_of(next, no + 1),
{
    proof {
        lemma_next_bill_location_reads_back(no as int);
    }
    let next: u8 = no + 1;
    let mut location = "/bill?no=".to_owned();
    let digits = decimal_string(next as i64);
    location.append(digits.as_str());
    location
}

/// The location after a saved bill names the next bill number, written
/// in decimal as `{}` writes it.
pub proof fn lemma_next_bill_location_reads_back(no: int)
    ensures
        exists|next: Seq<char>|
            #![trigger is_decimal_of(next, no + 1)]
            next_bill_location_text(no) == "/bill?no="@ + next && is_decimal_of(next, no + 1),
{
    lemma_decimal_text_is_decimal(no + 1);
    assert(is_decimal_of(decimal_text(no + 1), no + 1));
}

/// The file a funding report page is written to.
pub open spec fn report_file_text(name: Seq<char>) -> Seq<char> {
    name + "_report.html"@
}

/// Names the file of a funding report page.
pub fn report_file_name(name: &str) -> (file: String)
    ensures
        file@ == report_file_text(name@),
        file@.take(name@.len() as int) == name@,
        file@.skip(name@.len() as int) == "_report.html"@,
{
    proof {
        lemma_report_file_text_parts(name@);
    }
    let mut file = name.to_owned();
    file.append("_report.html");
    file
}

/// A report's file name is the whole report name followed by
/// `_report.html`.
pub proof fn lemma_report_file_text_parts(name: Seq<char>)
    ensures
        report_file_text(name).take(name.len() as int) == name,
        report_file_text(name).skip(name.len() as int) == "_report.html"@,
{
    assert(report_file_text(name).take(name.len() as int) =~= name);
    assert(report_file_text(name).skip(name.len() as int) =~= "_report.html"@);
}

/// The name under which the statement of accounts is to be saved, or
/// `None` where no backup was asked for. A backup is made only where
/// `make_backup` is given and true; a missing name counts as the empty
/// name.
pub open spec fn backup_request(params: EarBackup) -> Option<Seq<char>> {
    if params.make_backup == Some(true) {
        match params.backup_table_name {
            Some(name) => Some(name@),
            None => Some(""@),
        }
    } else {
        None
    }
}

/// Decides whether, and under which table name, the report page saves the
/// state of the statement of accounts.
pub fn backup_table_name_to_save(params: &EarBackup) -> (name: Option<String>)
    ensures
        match name {
            Some(n) => backup_request(*params) == Some(n@),
            None => backup_request(*params) is None,
        },
        name is Some <==> params.make_backup == Some(true),
        params.make_backup == Some(true) && params.backup_table_name is Some ==> name is Some
            && name->0@ == params.backup_table_name->0@,
        params.make_backup == Some(true) && params.backup_table_name is None ==> name is Some
            && name->0@.len() == 0,
{
    proof {
        lemma_backup_request_keeps_name(*params);
    }
    let make_backup = match params.make_backup {
        Some(b) => b,
        None => false,
    };
    if !make_backup {
        return None;
    }
    match &params.backup_table_name {
        Some(n) => Some(n.clone()),
        None => Some("".to_owned()),
    }
}

/// A backup is asked for exactly when `make_backup` is given and true;
/// it is saved under exactly the given table name, or the empty name
/// where none is given.
pub proof fn lemma_backup_request_keeps_name(params: EarBackup)
    ensures
        backup_request(params) is Some <==> params.make_backup == Some(true),
        params.make_backup == Some(true) && params.backup_table_name is Some ==> backup_request(
            params,
        ) == Some(params.backup_table_name->0@),
        params.make_backup == Some(true) && params.backup_table_name is None ==> backup_request(
            params,
        )->0.len() == 0,
{
    assert(""@.len() == 0) by {
        reveal_strlit("");
    }
}

} // verus!
