//! A rule-driven engine that normalizes bank-exported transaction rows,
//! reclassifies payees, categories and memos, filters out rows already
//! seen, and serializes the result, with its behaviour stated in
//! contracts and proved.

#![allow(unused_imports)]
use vstd::prelude::*;

pub mod amount;
pub mod category_and_memo;
pub mod date_filter;
pub mod dates;
pub mod mapping;
pub mod payees;
pub mod paths;
pub mod process;
pub mod pattern;
pub mod row;
pub mod rules;
pub mod strutil;
pub mod timestamps;

use crate::amount::{Amount, pow10, spec_interpret_amount, interpret_dollar_amount};
use crate::dates::{Date, spec_chrono_date, parse_date};
use crate::mapping::{spec_opt_view, spec_map_entry};
use crate::row::{StringMap, spec_map_of};
use crate::strutil::{spec_parse_u32, parse_u32, spec_quoted, push_quoted};

pub use crate::process::{
    account_for_dates_in_transactions, process_csv_files, TransactionProcessor,
};
pub use crate::rules::RuleFileData;
pub use crate::mapping::MappingRulesCsv;
pub use crate::timestamps::{timestamps_path, TimestampKeeper};

verus! {

/// Container for one normalized transaction, as it will be serialized
/// into the canonical output.
#[derive(Debug)]
pub struct NormalizedBankData {
    /// The calendar day of the transaction.
    pub date: Date,
    /// The display payee name; the rule engine may replace it.
    pub payee: String,
    /// The category, absent until the rule engine assigns one.
    pub category: Option<String>,
    /// The memo, absent until the rule engine assigns one.
    pub memo: Option<String>,
    /// The signed exact amount.
    pub amount: Amount,
    /// The check number, when the source row carried one.
    pub check: Option<u32>,
    /// The payee text as it appeared in the source row; never emitted,
    /// used only for matching.
    pub orig_payee: String,
}

/// The message for a required column that the source row does not have.
pub open spec fn spec_missing_col_err(label: Seq<char>, col: Seq<char>) -> Seq<char> {
    "The account '"@ + label + "' is missing the "@ + col + " column"@
}

/// The message for a date text that the format string cannot read.
pub open spec fn spec_date_parse_err(date_str: Seq<char>, fmt: Seq<char>) -> Seq<char> {
    "Cannot parse the date "@ + spec_quoted(date_str) + " with the format string "@
        + spec_quoted(fmt)
}

/// The first reason a raw row is rejected, if any: a missing `Payee`,
/// `Date` or `Amount` column, in that order, then a date text that the
/// format cannot read.
pub open spec fn spec_raw_row_err(
    m: Map<Seq<char>, Seq<char>>,
    fmt: Seq<char>,
    label: Seq<char>,
) -> Option<Seq<char>> {
    if !m.contains_key("Payee"@) {
        Some(spec_missing_col_err(label, "Payee"@))
    } else if !m.contains_key("Date"@) {
        Some(spec_missing_col_err(label, "Date"@))
    } else if !m.contains_key("Amount"@) {
        Some(spec_missing_col_err(label, "Amount"@))
    } else if spec_chrono_date(m["Date"@], fmt).is_none() {
        Some(spec_date_parse_err(m["Date"@], fmt))
    } else {
        None
    }
}

impl NormalizedBankData {
    /// The date denotes a real day and the amount is well formed.
    pub open spec fn inv(self) -> bool {
        self.date.valid() && self.amount.inv()
    }

    /// Whether a normalized transaction is what the raw row denotes:
    /// the payee and original payee are the row's payee text, the date
    /// is what the calendar library reads under the format, the amount
    /// is the row's amount text under the sign convention, and the
    /// optional fields come from their columns.
    pub open spec fn spec_from_raw(
        self,
        m: Map<Seq<char>, Seq<char>>,
        negate: bool,
        fmt: Seq<char>,
    ) -> bool {
        &&& self.payee@ == m["Payee"@]
        &&& self.orig_payee@ == m["Payee"@]
        &&& Some((self.date.year as int, self.date.month as int, self.date.day as int))
            == spec_chrono_date(m["Date"@], fmt)
        &&& ({
            let (am, sc) = spec_interpret_amount(m["Amount"@], negate);
            self.amount.units() == am * pow10((28 - sc) as nat) && self.amount.scale == sc
        })
        &&& spec_opt_view(self.category) == spec_map_entry(m, "Category"@)
        &&& spec_opt_view(self.memo) == spec_map_entry(m, "Memo"@)
        &&& self.check == (match spec_map_entry(m, "Check#"@) {
            Some(s) => spec_parse_u32(s),
            None => None,
        })
    }

    /// Instantiate this struct from raw data from file. The `Payee`,
    /// `Date` and `Amount` columns are required, the date must read
    /// under the account's format string, and an unreadable amount
    /// deliberately falls back to zero.
    pub fn from_raw_data(
        mapping: &StringMap,
        negate: bool,
        date_fmt: &str,
        label: &str,
    ) -> (r: Result<NormalizedBankData, String>)
        requires
            mapping.inv(),
        ensures
            r.is_ok() == spec_raw_row_err(mapping@, date_fmt@, label@).is_none(),
            r.is_err() ==> (r->Err_0)@ == spec_raw_row_err(mapping@, date_fmt@, label@).unwrap(),
            r.is_ok() ==> {
                let t = r.unwrap();
                t.inv() && t.spec_from_raw(mapping@, negate, date_fmt@)
            },
    {
        let payee_str = match mapping.get("Payee") {
            Some(v) => v,
            None => {
                return Err(missing_col_err(label, "Payee"));
            }
        };
        let date_str = match mapping.get("Date") {
            Some(v) => v,
            None => {
                return Err(missing_col_err(label, "Date"));
            }
        };
        let amount_str = match mapping.get("Amount") {
            Some(v) => v,
            None => {
                return Err(missing_col_err(label, "Amount"));
            }
        };
        let date = match parse_date(date_str.as_str(), date_fmt) {
            Some(d) => d,
            None => {
                let mut out = String::new();
                out.append("Cannot parse the date ");
                push_quoted(&mut out, date_str.as_str());
                out.append(" with the format string ");
                push_quoted(&mut out, date_fmt);
                proof {
                    assert(out@ =~= spec_date_parse_err(mapping@["Date"@], date_fmt@));
                }
                return Err(out);
            }
        };
        let category = match mapping.get("Category") {
            Some(v) => Some(v.clone()),
            None => None,
        };
        let memo = match mapping.get("Memo") {
            Some(v) => Some(v.clone()),
            None => None,
        };
        let check = match mapping.get("Check#") {
            Some(v) => parse_u32(v.as_str()),
            None => None,
        };
        Ok(NormalizedBankData {
            date,
            payee: payee_str.clone(),
            category,
            memo,
            amount: interpret_dollar_amount(amount_str.as_str(), negate),
            check,
            orig_payee: payee_str.clone(),
        })
    }

    /// Whether this transaction is dropped by pruning with the given
    /// window: a zero amount, or a day before the start or after the end.
    pub open spec fn spec_skipme(self, start_date: Date, end_date: Date) -> bool {
        self.amount.units() == 0
            || self.date.spec_lt(start_date)
            || end_date.spec_lt(self.date)
    }

    /// Determine if this transaction needs to be skipped.
    pub fn skipme(&self, start_date: &Date, end_date: &Date) -> (r: bool)
        requires
            self.amount.inv(),
        ensures
            r == self.spec_skipme(*start_date, *end_date),
    {
        self.amount.is_zero()
            || crate::dates::date_lt(&self.date, start_date)
            || crate::dates::date_lt(end_date, &self.date)
    }
}

fn missing_col_err(label: &str, col: &str) -> (r: String)
    ensures
        r@ == spec_missing_col_err(label@, col@),
{
    let mut out = String::new();
    out.append("The account '");
    out.append(label);
    out.append("' is missing the ");
    out.append(col);
    out.append(" column");
    proof {
        assert(out@ =~= spec_missing_col_err(label@, col@));
    }
    out
}

/// Build an association table from a vector of key/value pairs; a later
/// pair with the same key overrides an earlier one.
pub fn as_hashmap(data: Vec<(String, String)>) -> (r: StringMap)
    ensures
        r.inv(),
        r@ == spec_map_of(data@),
{
    let mut out = StringMap::new();
    let n = data.len();
    let mut i: usize = 0;
    proof {
        assert(data@.subrange(0, 0) =~= Seq::<(String, String)>::empty());
        assert(spec_map_of(data@.subrange(0, 0)) =~= Map::<Seq<char>, Seq<char>>::empty());
    }
    while i < n
        invariant
            n == data@.len(),
            i <= n,
            out.inv(),
            out@ == spec_map_of(data@.subrange(0, i as int)),
        decreases n - i,
    {
        out.insert(data[i].0.clone(), data[i].1.clone());
        proof {
            assert(data@.subrange(0, i + 1).drop_last() =~= data@.subrange(0, i as int));
        }
        i = i + 1;
    }
    proof {
        assert(data@.subrange(0, n as int) =~= data@);
    }
    out
}

} // verus!
