pub use crate::amount::Amount;
use crate::amount::{amount_value, parse_amount, parse_uint, uint_value};
use vstd::prelude::*;

verus! {

/// Identifier of a deposit or withdrawal record.
pub type TransactionID = u32;

/// Identifier of a client account.
pub type ClientID = u16;

/// The closed set of record kinds.
#[derive(Debug, Clone, Copy, PartialEq, Eq, Structural)]
pub enum TransactionType {
    Deposit,
    Withdrawal,
    Dispute,
    Resolve,
    Chargeback,
}

/// One input record. `tx` names a new journal entry for a deposit or a
/// withdrawal, and a prior entry for the other kinds.
#[derive(Debug, Clone, Copy, PartialEq, Eq, Structural)]
pub struct Transaction {
    pub tx_type: TransactionType,
    pub client: ClientID,
    pub tx: TransactionID,
    pub amount: Option<Amount>,
}

impl Transaction {
    pub fn new(tx_type: TransactionType, client: ClientID, tx: TransactionID, amount: Option<Amount>) -> (r: Self)
        ensures
            r == (Transaction { tx_type, client, tx, amount }),
    {
        Transaction { tx_type, client, tx, amount }
    }

    /// The amount the record carries, zero where it carries none.
    pub open spec fn amount_spec(&self) -> Amount {
        match self.amount {
            Some(a) => a,
            None => 0,
        }
    }

    #[verifier::when_used_as_spec(amount_spec)]
    pub fn amount(&self) -> (r: Amount)
        ensures
            r == self.amount_spec(),
    {
        match self.amount {
            Some(a) => a,
            None => 0,
        }
    }
}

/// Why a text could not be read as a list of records.
#[derive(Debug, Clone, Copy, PartialEq, Eq, Structural)]
pub enum LoadError {
    /// The text is not well-formed CSV.
    MalformedCsv,
    /// The header row lacks a `type`, `client` or `tx` column.
    MissingColumn,
    /// The record at this position (the first is 0) is malformed.
    BadRecord(usize),
}

/// The positions of the named columns in the header row.
#[derive(Debug, Clone, Copy, PartialEq, Eq, Structural)]
pub struct Columns {
    pub kind: usize,
    pub client: usize,
    pub tx: usize,
    pub amount: Option<usize>,
}

/// The rows of the CSV text `text` as the csv crate reads them, every field
/// trimmed of surrounding whitespace, the header row included; `None` where
/// csv reports an error.
pub uninterp spec fn csv_rows(text: Seq<char>) -> Option<Seq<Seq<Seq<char>>>>;

/// Relies on csv's `ReaderBuilder` (no header handling, rows of any length,
/// `Trim::All`) and `Reader::records`: the fields of each row of `text`.
#[verifier::external_body]
fn read_rows(text: &str) -> (r: Option<Vec<Vec<String>>>)
    ensures
        match r {
            Some(rows) => csv_rows(text@) == Some(rows.deep_view()),
            None => csv_rows(text@) is None,
        },
{
    csv::ReaderBuilder::new()
        .has_headers(false)
        .flexible(true)
        .trim(csv::Trim::All)
        .from_reader(text.as_bytes())
        .records()
        .map(|row| row.map(|rec| rec.iter().map(String::from).collect()))
        .collect::<Result<Vec<Vec<String>>, csv::Error>>()
        .ok()
}

/// The record kind that a `type` field names.
pub open spec fn kind_named(s: Seq<char>) -> Option<TransactionType> {
    if s == "deposit"@ {
        Some(TransactionType::Deposit)
    } else if s == "withdrawal"@ {
        Some(TransactionType::Withdrawal)
    } else if s == "dispute"@ {
        Some(TransactionType::Dispute)
    } else if s == "resolve"@ {
        Some(TransactionType::Resolve)
    } else if s == "chargeback"@ {
        Some(TransactionType::Chargeback)
    } else {
        None
    }
}

/// The position of the first field of `header` equal to `name`.
pub open spec fn first_column(header: Seq<Seq<char>>, name: Seq<char>) -> Option<int>
    decreases header.len(),
{
    if header.len() == 0 {
        None
    } else {
        match first_column(header.drop_last(), name) {
            Some(i) => Some(i),
            None => if header.last() == name {
                Some(header.len() - 1)
            } else {
                None
            },
        }
    }
}

/// The columns of a header row, where it names `type`, `client` and `tx`.
pub open spec fn header_columns(header: Seq<Seq<char>>) -> Option<Columns> {
    match (
        first_column(header, "type"@),
        first_column(header, "client"@),
        first_column(header, "tx"@),
    ) {
        (Some(k), Some(c), Some(t)) => Some(
            Columns {
                kind: k as usize,
                client: c as usize,
                tx: t as usize,
                amount: match first_column(header, "amount"@) {
                    Some(a) => Some(a as usize),
                    None => None,
                },
            },
        ),
        _ => None,
    }
}

/// Field `col` of `row`; a field the row lacks reads as empty.
pub open spec fn field_text(row: Seq<Seq<char>>, col: int) -> Seq<char> {
    if 0 <= col < row.len() {
        row[col]
    } else {
        Seq::empty()
    }
}

/// What the amount column of `row` holds: `Some(None)` where it is absent
/// or empty, `None` where it is not an amount.
pub open spec fn amount_field(row: Seq<Seq<char>>, col: Option<usize>) -> Option<Option<Amount>> {
    let text = match col {
        Some(a) => field_text(row, a as int),
        None => Seq::empty(),
    };
    if text.len() == 0 {
        Some(None)
    } else {
        match amount_value(text) {
            Some(v) => if v <= i64::MAX {
                Some(Some(v as i64))
            } else {
                None
            },
            None => None,
        }
    }
}

/// The record that `row` holds: a known kind, a `u16` client, a `u32`
/// transaction id, and an amount exactly for deposits and withdrawals.
pub open spec fn record_of(row: Seq<Seq<char>>, cols: Columns) -> Option<Transaction> {
    let kind = kind_named(field_text(row, cols.kind as int));
    let client = uint_value(field_text(row, cols.client as int), u16::MAX as int);
    let tx = uint_value(field_text(row, cols.tx as int), u32::MAX as int);
    let amount = amount_field(row, cols.amount);
    match (kind, client, tx, amount) {
        (Some(k), Some(c), Some(t), Some(a)) => if (a is Some) == (k is Deposit || k is Withdrawal) {
            Some(Transaction { tx_type: k, client: c as u16, tx: t as u32, amount: a })
        } else {
            None
        },
        _ => None,
    }
}

/// The records of `rows[1]` to `rows[n]`, or the position of the first that
/// is malformed.
pub open spec fn records_upto(rows: Seq<Seq<Seq<char>>>, cols: Columns, n: int) -> Result<
    Seq<Transaction>,
    LoadError,
>
    decreases n,
{
    if n <= 0 {
        Ok(Seq::empty())
    } else {
        match records_upto(rows, cols, n - 1) {
            Ok(prev) => match record_of(rows[n], cols) {
                Some(t) => Ok(prev.push(t)),
                None => Err(LoadError::BadRecord((n - 1) as usize)),
            },
            Err(e) => Err(e),
        }
    }
}

proof fn lemma_error_persists(rows: Seq<Seq<Seq<char>>>, cols: Columns, n: int, m: int)
    requires
        0 <= n <= m,
        records_upto(rows, cols, n) is Err,
    ensures
        records_upto(rows, cols, m) == records_upto(rows, cols, n),
    decreases m - n,
{
    if n < m {
        lemma_error_persists(rows, cols, n, m - 1);
    }
}

/// The records that CSV rows hold: the first row is the header, each later
/// row one record.
pub open spec fn records_of_rows(rows: Seq<Seq<Seq<char>>>) -> Result<Seq<Transaction>, LoadError> {
    if rows.len() == 0 {
        Ok(Seq::empty())
    } else {
        match header_columns(rows[0]) {
            Some(cols) => records_upto(rows, cols, rows.len() - 1),
            None => Err(LoadError::MissingColumn),
        }
    }
}

/// Whether `field` reads `word`.
fn is_word(field: &String, word: &str) -> (r: bool)
    ensures
        r == (field@ == word@),
{
    let w = String::from_str(word);
    field.eq(&w)
}

fn kind_of_field(field: &String) -> (r: Option<TransactionType>)
    ensures
        r == kind_named(field@),
{
    if is_word(field, "deposit") {
        Some(TransactionType::Deposit)
    } else if is_word(field, "withdrawal") {
        Some(TransactionType::Withdrawal)
    } else if is_word(field, "dispute") {
        Some(TransactionType::Dispute)
    } else if is_word(field, "resolve") {
        Some(TransactionType::Resolve)
    } else if is_word(field, "chargeback") {
        Some(TransactionType::Chargeback)
    } else {
        None
    }
}

fn column_of(header: &Vec<String>, name: &str) -> (r: Option<usize>)
    ensures
        r == (match first_column(header.deep_view(), name@) {
            Some(i) => Some(i as usize),
            None => None,
        }),
        r matches Some(i) ==> i < header.len(),
{
    let ghost h = header.deep_view();
    let mut found: Option<usize> = None;
    let mut i: usize = 0;
    while i < header.len()
        invariant
            i <= header.len(),
            h == header.deep_view(),
            found == (match first_column(h.take(i as int), name@) {
                Some(j) => Some(j as usize),
                None => None,
            }),
            found matches Some(j) ==> j < i,
        decreases header.len() - i,
    {
        assert(h.take(i + 1).drop_last() =~= h.take(i as int));
        assert(h[i as int] == header[i as int]@);
        if found.is_none() && is_word(&header[i], name) {
            found = Some(i);
        }
        i = i + 1;
    }
    assert(h.take(i as int) =~= h);
    found
}

/// The columns of the header row `header`; see `header_columns`.
pub fn columns_of(header: &Vec<String>) -> (r: Option<Columns>)
    ensures
        r == header_columns(header.deep_view()),
{
    let kind = column_of(header, "type");
    let client = column_of(header, "client");
    let tx = column_of(header, "tx");
    match (kind, client, tx) {
        (Some(k), Some(c), Some(t)) => Some(
            Columns { kind: k, client: c, tx: t, amount: column_of(header, "amount") },
        ),
        _ => None,
    }
}

/// Reads one record from the fields of a row; see `record_of`.
pub fn record_from(row: &Vec<String>, cols: Columns) -> (r: Option<Transaction>)
    ensures
        r == record_of(row.deep_view(), cols),
{
    let ghost rv = row.deep_view();
    proof {
        reveal_strlit("deposit");
        reveal_strlit("withdrawal");
        reveal_strlit("dispute");
        reveal_strlit("resolve");
        reveal_strlit("chargeback");
    }
    let kind = if cols.kind < row.len() {
        assert(rv[cols.kind as int] == row[cols.kind as int]@);
        kind_of_field(&row[cols.kind])
    } else {
        assert(field_text(rv, cols.kind as int) =~= Seq::<char>::empty());
        assert(kind_named(Seq::<char>::empty()) is None);
        None
    };
    let client = if cols.client < row.len() {
        assert(rv[cols.client as int] == row[cols.client as int]@);
        parse_uint(row[cols.client].as_str(), 0xFFFF)
    } else {
        None
    };
    let tx = if cols.tx < row.len() {
        assert(rv[cols.tx as int] == row[cols.tx as int]@);
        parse_uint(row[cols.tx].as_str(), 0xFFFF_FFFF)
    } else {
        None
    };
    let amount: Option<Option<Amount>> = match cols.amount {
        Some(a) => if a < row.len() {
            assert(rv[a as int] == row[a as int]@);
            let text = row[a].as_str();
            if text.unicode_len() == 0 {
                Some(None)
            } else {
                match parse_amount(text) {
                    Some(v) => Some(Some(v)),
                    None => None,
                }
            }
        } else {
            Some(None)
        },
        None => Some(None),
    };
    match (kind, client, tx, amount) {
        (Some(k), Some(c), Some(t), Some(a)) => {
            let moves = match k {
                TransactionType::Deposit | TransactionType::Withdrawal => true,
                _ => false,
            };
            if a.is_some() == moves {
                Some(Transaction::new(k, c as u16, t as u32, a))
            } else {
                None
            }
        },
        _ => None,
    }
}

/// The records that CSV rows hold; see `records_of_rows`.
pub fn transactions_of_rows(rows: &Vec<Vec<String>>) -> (r: Result<Vec<Transaction>, LoadError>)
    ensures
        match r {
            Ok(v) => records_of_rows(rows.deep_view()) == Ok::<Seq<Transaction>, LoadError>(v@),
            Err(e) => records_of_rows(rows.deep_view()) == Err::<Seq<Transaction>, LoadError>(e),
        },
{
    let ghost rv = rows.deep_view();
    let mut out: Vec<Transaction> = Vec::new();
    if rows.len() == 0 {
        return Ok(out);
    }
    assert(rv[0] == rows[0].deep_view());
    let cols = match columns_of(&rows[0]) {
        Some(c) => c,
        None => {
            return Err(LoadError::MissingColumn);
        },
    };
    let mut i: usize = 1;
    while i < rows.len()
        invariant
            1 <= i <= rows.len(),
            rv == rows.deep_view(),
            header_columns(rv[0]) == Some(cols),
            records_upto(rv, cols, i - 1) == Ok::<Seq<Transaction>, LoadError>(out@),
        decreases rows.len() - i,
    {
        assert(rv[i as int] == rows[i as int].deep_view());
        match record_from(&rows[i], cols) {
            Some(t) => out.push(t),
            None => {
                proof {
                    lemma_error_persists(rv, cols, i as int, rv.len() - 1);
                }
                return Err(LoadError::BadRecord(i - 1));
            },
        }
        i = i + 1;
    }
    Ok(out)
}

/// Reads the records of CSV text: a header row naming the `type`, `client`,
/// `tx` and (optionally) `amount` columns, then one record per row.
pub fn transactions_in(text: &str) -> (r: Result<Vec<Transaction>, LoadError>)
    ensures
        match csv_rows(text@) {
            None => r == Err::<Vec<Transaction>, LoadError>(LoadError::MalformedCsv),
            Some(rows) => match r {
                Ok(v) => records_of_rows(rows) == Ok::<Seq<Transaction>, LoadError>(v@),
                Err(e) => records_of_rows(rows) == Err::<Seq<Transaction>, LoadError>(e),
            },
        },
{
    match read_rows(text) {
        Some(rows) => transactions_of_rows(&rows),
        None => Err(LoadError::MalformedCsv),
    }
}

} // verus!
