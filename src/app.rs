use vstd::prelude::*;
use vstd::string::StringExecFns;

use crate::store::TableName;

verus! {

/// The application: its version text and how backups of its tables are restored.
pub struct App;

/// The text of one decimal digit.
pub open spec fn digit_text(d: nat) -> Seq<char> {
    if d == 0 {
        "0"@
    } else if d == 1 {
        "1"@
    } else if d == 2 {
        "2"@
    } else if d == 3 {
        "3"@
    } else if d == 4 {
        "4"@
    } else if d == 5 {
        "5"@
    } else if d == 6 {
        "6"@
    } else if d == 7 {
        "7"@
    } else if d == 8 {
        "8"@
    } else {
        "9"@
    }
}

/// `n` written in decimal.
pub open spec fn decimal(n: nat) -> Seq<char>
    decreases n,
{
    if n < 10 {
        digit_text(n)
    } else {
        decimal(n / 10) + digit_text(n % 10)
    }
}

/// The numbered parameters `$1, $2, ..., $n`.
pub open spec fn placeholders(n: nat) -> Seq<char>
    decreases n,
{
    if n == 0 {
        Seq::empty()
    } else if n == 1 {
        "$1"@
    } else {
        placeholders((n - 1) as nat) + ", $"@ + decimal(n)
    }
}

/// The name of a table in the database.
pub open spec fn table_text(t: TableName) -> Seq<char> {
    match t {
        TableName::Processes => "processes"@,
        TableName::Partners => "partners"@,
        TableName::Sellers => "sellers"@,
        TableName::Clients => "clients"@,
        TableName::Fees => "fees"@,
        TableName::OrderFees => "order_fees"@,
        TableName::Orders => "orders"@,
        TableName::Payments => "payments"@,
        TableName::PostponedPayments => "postponed_payments"@,
        TableName::ProcessesFees => "processes_fees"@,
    }
}

/// The columns of a table, as a backup holds them, in order.
pub open spec fn column_text(t: TableName) -> Seq<char> {
    match t {
        TableName::Processes => "created_at, updated_at, id, pid, case_type"@,
        TableName::Partners => "created_at, updated_at, id, pid, name, information, phone, email"@,
        TableName::Sellers => "created_at, updated_at, id, pid, name"@,
        TableName::Clients => "created_at, updated_at, id, pid, name, contact, phone, phone2, email, partner_id"@,
        TableName::Fees => "created_at, updated_at, id, pid, fee, type"@,
        TableName::OrderFees => "created_at, updated_at, id, pid, fee_id, order_id, open, value, info"@,
        TableName::Orders => "created_at, updated_at, id, pid, client_id, process_id, open, payout, fee, partner_fee, seller_id"@,
        TableName::Payments => "created_at, updated_at, id, pid, value, payment_date, due_date, payment_method, currency, postponed_payment, order_id, open"@,
        TableName::PostponedPayments => "created_at, updated_at, id, pid, payment_id, postponed_date"@,
        TableName::ProcessesFees => "created_at, updated_at, id, pid, process_id, fee_id"@,
    }
}

/// How many columns a table has.
pub open spec fn column_count(t: TableName) -> nat {
    match t {
        TableName::Processes => 5,
        TableName::Partners => 8,
        TableName::Sellers => 5,
        TableName::Clients => 10,
        TableName::Fees => 6,
        TableName::OrderFees => 9,
        TableName::Orders => 11,
        TableName::Payments => 12,
        TableName::PostponedPayments => 6,
        TableName::ProcessesFees => 6,
    }
}

/// The statement that restores one backed-up record of table `t`, its values
/// bound to the numbered parameters in column order.
pub open spec fn insert_text(t: TableName) -> Seq<char> {
    "INSERT INTO "@ + table_text(t) + " ("@ + column_text(t) + ") VALUES ("@ + placeholders(
        column_count(t),
    ) + ")"@
}

/// The version text: the package version, then in parentheses the build's
/// commit, else the one the CI named, else `dev`.
pub open spec fn version_text(version: Seq<char>, build_sha: Option<Seq<char>>, ci_sha: Option<Seq<char>>) -> Seq<char> {
    let sha = match build_sha {
        Some(s) => s,
        None => match ci_sha {
            Some(s) => s,
            None => "dev"@,
        },
    };
    version + " ("@ + sha + ")"@
}

fn digit_str(d: u64) -> (r: &'static str)
    requires
        d < 10,
    ensures
        r@ == digit_text(d as nat),
{
    if d == 0 {
        "0"
    } else if d == 1 {
        "1"
    } else if d == 2 {
        "2"
    } else if d == 3 {
        "3"
    } else if d == 4 {
        "4"
    } else if d == 5 {
        "5"
    } else if d == 6 {
        "6"
    } else if d == 7 {
        "7"
    } else if d == 8 {
        "8"
    } else {
        "9"
    }
}

/// Appends `n` in decimal.
fn push_decimal(out: &mut String, n: u64)
    ensures
        final(out)@ == old(out)@ + decimal(n as nat),
    decreases n,
{
    if n < 10 {
        out.append(digit_str(n));
    } else {
        push_decimal(out, n / 10);
        out.append(digit_str(n % 10));
        assert(final(out)@ =~= old(out)@ + decimal(n as nat));
    }
}

fn table_str(t: TableName) -> (r: &'static str)
    ensures
        r@ == table_text(t),
{
    match t {
        TableName::Processes => "processes",
        TableName::Partners => "partners",
        TableName::Sellers => "sellers",
        TableName::Clients => "clients",
        TableName::Fees => "fees",
        TableName::OrderFees => "order_fees",
        TableName::Orders => "orders",
        TableName::Payments => "payments",
        TableName::PostponedPayments => "postponed_payments",
        TableName::ProcessesFees => "processes_fees",
    }
}

fn columns_str(t: TableName) -> (r: (&'static str, u64))
    ensures
        r.0@ == column_text(t),
        r.1 == column_count(t),
{
    match t {
        TableName::Processes => ("created_at, updated_at, id, pid, case_type", 5),
        TableName::Partners => ("created_at, updated_at, id, pid, name, information, phone, email", 8),
        TableName::Sellers => ("created_at, updated_at, id, pid, name", 5),
        TableName::Clients => ("created_at, updated_at, id, pid, name, contact, phone, phone2, email, partner_id", 10),
        TableName::Fees => ("created_at, updated_at, id, pid, fee, type", 6),
        TableName::OrderFees => ("created_at, updated_at, id, pid, fee_id, order_id, open, value, info", 9),
        TableName::Orders => ("created_at, updated_at, id, pid, client_id, process_id, open, payout, fee, partner_fee, seller_id", 11),
        TableName::Payments => ("created_at, updated_at, id, pid, value, payment_date, due_date, payment_method, currency, postponed_payment, order_id, open", 12),
        TableName::PostponedPayments => ("created_at, updated_at, id, pid, payment_id, postponed_date", 6),
        TableName::ProcessesFees => ("created_at, updated_at, id, pid, process_id, fee_id", 6),
    }
}

impl App {
    /// The statement that restores one backed-up record of table `t`.
    pub fn import_statement(t: TableName) -> (r: String)
        ensures
            r@ == insert_text(t),
    {
        let (cols, n) = columns_str(t);
        let mut out = String::from_str("INSERT INTO ");
        out.append(table_str(t));
        out.append(" (");
        out.append(cols);
        out.append(") VALUES (");
        let ghost head = out@;
        let mut k: u64 = 1;
        while k <= n
            invariant
                1 <= k <= n + 1,
                n == column_count(t),
                n <= 12,
                out@ == head + placeholders((k - 1) as nat),
            decreases n + 1 - k,
        {
            if k == 1 {
                out.append("$1");
                assert(out@ =~= head + placeholders(1));
            } else {
                out.append(", $");
                push_decimal(&mut out, k);
                assert(out@ =~= head + placeholders(k as nat));
            }
            k = k + 1;
        }
        out.append(")");
        assert(out@ =~= insert_text(t));
        out
    }

    /// The version text from the package version and the commits the build
    /// and the CI named, if any.
    pub fn app_version(version: &str, build_sha: Option<&str>, ci_sha: Option<&str>) -> (r: String)
        ensures
            r@ == version_text(
                version@,
                match build_sha {
                    Some(s) => Some(s@),
                    None => None,
                },
                match ci_sha {
                    Some(s) => Some(s@),
                    None => None,
                },
            ),
    {
        let sha = match build_sha {
            Some(s) => s,
            None => match ci_sha {
                Some(s) => s,
                None => "dev",
            },
        };
        let mut out = String::from_str(version);
        out.append(" (");
        out.append(sha);
        out.append(")");
        out
    }
}

} // verus!
