use vstd::prelude::*;

verus! {

/// What a date column reads as in specifications: the characters of the
/// text, or `None` where the column is empty.
pub open spec fn opt_str_view(date: Option<&str>) -> Option<Seq<char>> {
    match date {
        Some(s) => Some(s@),
        None => None,
    }
}

/// The characters of an optional owned text.
pub open spec fn opt_string_view(text: Option<String>) -> Option<Seq<char>> {
    match text {
        Some(s) => Some(s@),
        None => None,
    }
}

/// A record that may carry a date, written as text (`YYYY-MM-DD`).
pub trait HasDate {
    /// The characters of the record's date, if it has one.
    spec fn date_view(&self) -> Option<Seq<char>>;

    /// Returns the record's date.
    fn get_date(&self) -> (date: Option<&str>)
        ensures
            opt_str_view(date) == self.date_view(),
    ;
}

/// A scanned bill as stored in the bills table.
///
/// `amount_bits` holds the IEEE-754 bit pattern of the bill's `f32`
/// amount, so that the amount travels through the library unchanged.
#[derive(Clone, Debug)]
pub struct Bill {
    pub id: u8,
    pub filename: String,
    pub amount_bits: Option<u32>,
    pub date: Option<String>,
    pub cash: Option<bool>,
}

/// One booked expense of the income-expense statement.
///
/// `amount_bits` holds the IEEE-754 bit pattern of the expense's `f64`
/// amount.
#[derive(Clone, Debug)]
pub struct Expense {
    pub id: u16,
    pub date: Option<String>,
    pub partner: String,
    pub amount_bits: u64,
    pub bill: u16,
    pub expense_type: u16,
    pub application: Option<u8>,
    pub cash: Option<bool>,
}

/// The query string of a bill lookup (`/bill?no=..`).
#[derive(Clone, Debug)]
pub struct BillQuery {
    pub no: u8,
}

/// One line of a report page: an expense with the file name of its bill.
#[derive(Clone, Debug)]
pub struct BillToHtml {
    pub expense_id: u16,
    pub partner: String,
    pub amount: String,
    pub date: Option<String>,
    pub expense_type: i8,
    pub filename: String,
    pub cash: Option<bool>,
}

/// A request to set one number of an expense.
#[derive(Clone, Copy, Debug)]
pub struct BillNumberUpdate {
    pub expense_id: i32,
    pub new_number: i32,
}

/// The lines of one funding report.
#[derive(Clone, Debug)]
pub struct Report {
    pub name: String,
    pub bills: Vec<BillToHtml>,
}

/// The query string of the report page: whether, and under which table
/// name, to back up the current state of the statement.
#[derive(Clone, Debug)]
pub struct EarBackup {
    pub backup_table_name: Option<String>,
    pub make_backup: Option<bool>,
}

/// The date of an optional owned text, borrowed.
fn borrow_date(date: &Option<String>) -> (res: Option<&str>)
    ensures
        opt_str_view(res) == opt_string_view(*date),
{
    match date {
        Some(s) => Some(s.as_str()),
        None => None,
    }
}

impl HasDate for Expense {
    open spec fn date_view(&self) -> Option<Seq<char>> {
        opt_string_view(self.date)
    }

    fn get_date(&self) -> (date: Option<&str>) {
        borrow_date(&self.date)
    }
}

impl HasDate for Bill {
    open spec fn date_view(&self) -> Option<Seq<char>> {
        opt_string_view(self.date)
    }

    fn get_date(&self) -> (date: Option<&str>) {
        borrow_date(&self.date)
    }
}

} // verus!
