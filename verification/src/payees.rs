//! Rules that map a payee pattern, with optional amount and date
//! constraints, to a desired payee name.

use vstd::prelude::*;
use crate::NormalizedBankData;
use crate::amount::{Amount, pow10, parse_amount, spec_decimal_of};
use crate::date_filter::{
    spec_outside_range, date_is_outside_range, spec_validate_date_filters_err,
    validate_date_filters, spec_date_filter_mapping, process_date_filter_mapping,
    spec_year_pair,
};
use crate::pattern::{EqRegex, spec_regex_compiles, spec_regex_matches};
use crate::row::StringMap;

verus! {

/// Rules for specifying how to map a payee pattern to a specific payee.
/// The amount and the date of the transaction can also be taken into
/// account.
#[derive(Debug)]
pub struct PayeeRules {
    /// The pattern to use to identify a payee.
    pub pattern: EqRegex,
    /// The smallest magnitude a transaction amount may have.
    pub min_amount: Option<Amount>,
    /// The largest magnitude a transaction amount may have.
    pub max_amount: Option<Amount>,
    /// The exact magnitude a transaction amount must have.
    pub amount: Option<Amount>,
    /// The lowest day of the month a transaction may have.
    pub min_date_in_month: Option<u32>,
    /// The highest day of the month a transaction may have.
    pub max_date_in_month: Option<u32>,
    /// The lowest (month, day) of the year a transaction may have.
    pub min_date_in_year: Option<(u32, u32)>,
    /// The highest (month, day) of the year a transaction may have.
    pub max_date_in_year: Option<(u32, u32)>,
}

/// Whether an optional amount is well formed.
pub open spec fn spec_opt_amount_inv(o: Option<Amount>) -> bool {
    match o {
        Some(a) => a.inv(),
        None => true,
    }
}

/// Whether two optional amounts agree: both absent, or equal in value
/// and scale.
pub open spec fn spec_opt_amount_same(a: Option<Amount>, b: Option<Amount>) -> bool {
    match (a, b) {
        (None, None) => true,
        (Some(x), Some(y)) => x.units() == y.units(),
        _ => false,
    }
}

/// Whether an optional amount field, read from a rule table entry,
/// matches: absent exactly when the entry is absent or is not an exact
/// decimal, and otherwise carrying the decimal the entry holds.
pub open spec fn spec_amount_field(o: Option<Amount>, entry: Option<Seq<char>>) -> bool {
    match entry {
        None => o is None,
        Some(s) => match spec_decimal_of(s) {
            None => o is None,
            Some((m, sc)) => o is Some && o.unwrap().inv()
                && o.unwrap().units() == m * pow10((28 - sc) as nat)
                && o.unwrap().scale == sc,
        },
    }
}

/// Read an optional amount from a rule table entry.
pub fn amount_of_entry(mapping: &StringMap, key: &str) -> (r: Option<Amount>)
    requires
        mapping.inv(),
    ensures
        spec_amount_field(r, crate::mapping::spec_map_entry(mapping@, key@)),
        spec_opt_amount_inv(r),
{
    match mapping.get(key) {
        Some(v) => parse_amount(v.as_str()),
        None => None,
    }
}

impl PayeeRules {
    /// Every amount bound is well formed.
    pub open spec fn inv(self) -> bool {
        spec_opt_amount_inv(self.min_amount)
        && spec_opt_amount_inv(self.max_amount)
        && spec_opt_amount_inv(self.amount)
    }

    /// Whether the transaction matches this rule: its amount magnitude
    /// lies within the optional bounds and equals the optional exact
    /// amount, the pattern matches somewhere in the original payee
    /// text, and the date is not excluded by the date-range filter.
    pub open spec fn spec_matches(self, t: NormalizedBankData) -> bool {
        let amt = t.amount.abs_units();
        &&& (match self.min_amount {
            Some(m) => m.abs_units() <= amt,
            None => true,
        })
        &&& (match self.max_amount {
            Some(m) => amt <= m.abs_units(),
            None => true,
        })
        &&& (match self.amount {
            Some(m) => m.abs_units() == amt,
            None => true,
        })
        &&& spec_regex_matches(self.pattern@, t.orig_payee@)
        &&& !spec_outside_range(
            t.date,
            (self.min_date_in_month, self.max_date_in_month),
            (self.min_date_in_year, self.max_date_in_year),
        )
    }

    /// Construct a rule from a rule table. The `pattern` entry must be
    /// present and must compile; a present `month/day` bound must be
    /// well formed.
    pub fn new(mapping: &StringMap) -> (r: PayeeRules)
        requires
            mapping.inv(),
            mapping@.contains_key("pattern"@),
            spec_regex_compiles(mapping@["pattern"@]),
            mapping@.contains_key("min_date_in_year"@)
                ==> spec_year_pair(mapping@["min_date_in_year"@]).is_some(),
            mapping@.contains_key("max_date_in_year"@)
                ==> spec_year_pair(mapping@["max_date_in_year"@]).is_some(),
        ensures
            r.inv(),
            r.pattern@ == mapping@["pattern"@],
            spec_amount_field(r.min_amount, crate::mapping::spec_map_entry(mapping@, "min_amount"@)),
            spec_amount_field(r.max_amount, crate::mapping::spec_map_entry(mapping@, "max_amount"@)),
            spec_amount_field(r.amount, crate::mapping::spec_map_entry(mapping@, "amount"@)),
            (r.min_date_in_month, r.max_date_in_month, r.min_date_in_year, r.max_date_in_year)
                == spec_date_filter_mapping(mapping@),
    {
        let pattern_text = mapping.get("pattern").unwrap();
        let pattern = EqRegex::new(pattern_text.as_str()).unwrap();
        let min_amount = amount_of_entry(mapping, "min_amount");
        let max_amount = amount_of_entry(mapping, "max_amount");
        let amount = amount_of_entry(mapping, "amount");
        let (min_date_in_month, max_date_in_month, min_date_in_year, max_date_in_year) =
            process_date_filter_mapping(mapping);
        PayeeRules {
            pattern,
            min_amount,
            max_amount,
            amount,
            min_date_in_month,
            max_date_in_month,
            min_date_in_year,
            max_date_in_year,
        }
    }

    /// Construct a rule from a rule table, declining when the `pattern`
    /// entry is absent or does not compile.
    pub fn try_new(mapping: &StringMap) -> (r: Option<PayeeRules>)
        requires
            mapping.inv(),
            mapping@.contains_key("min_date_in_year"@)
                ==> spec_year_pair(mapping@["min_date_in_year"@]).is_some(),
            mapping@.contains_key("max_date_in_year"@)
                ==> spec_year_pair(mapping@["max_date_in_year"@]).is_some(),
        ensures
            r.is_some() == (mapping@.contains_key("pattern"@)
                && spec_regex_compiles(mapping@["pattern"@])),
            r.is_some() ==> {
                let p = r.unwrap();
                p.inv()
                && p.pattern@ == mapping@["pattern"@]
                && (p.min_date_in_month, p.max_date_in_month, p.min_date_in_year, p.max_date_in_year)
                    == spec_date_filter_mapping(mapping@)
            },
    {
        match mapping.get("pattern") {
            None => None,
            Some(p) => {
                match EqRegex::new(p.as_str()) {
                    None => None,
                    Some(_) => Some(PayeeRules::new(mapping)),
                }
            }
        }
    }

    /// A rule holding only a pattern, with no amount or date constraints.
    pub fn from_pattern(s: &str) -> (r: PayeeRules)
        requires
            spec_regex_compiles(s@),
        ensures
            r.inv(),
            r.pattern@ == s@,
            r.min_amount is None && r.max_amount is None && r.amount is None,
            r.min_date_in_month is None && r.max_date_in_month is None,
            r.min_date_in_year is None && r.max_date_in_year is None,
    {
        PayeeRules {
            pattern: EqRegex::new(s).unwrap(),
            min_amount: None,
            max_amount: None,
            amount: None,
            min_date_in_month: None,
            max_date_in_month: None,
            min_date_in_year: None,
            max_date_in_year: None,
        }
    }

    /// A pattern-only rule, declining when the pattern does not compile.
    pub fn try_from_pattern(s: &str) -> (r: Option<PayeeRules>)
        ensures
            r.is_some() == spec_regex_compiles(s@),
            r.is_some() ==> {
                let p = r.unwrap();
                p.inv() && p.pattern@ == s@
                && p.min_amount is None && p.max_amount is None && p.amount is None
                && p.min_date_in_month is None && p.max_date_in_month is None
                && p.min_date_in_year is None && p.max_date_in_year is None
            },
    {
        match EqRegex::new(s) {
            None => None,
            Some(_) => Some(PayeeRules::from_pattern(s)),
        }
    }

    /// Determine if the given transaction matches this set of rules.
    pub fn transaction_matches(&self, transaction: &NormalizedBankData) -> (r: bool)
        requires
            self.inv(),
            transaction.inv(),
        ensures
            r == self.spec_matches(*transaction),
    {
        if let Some(m) = &self.min_amount {
            if !m.abs_le(&transaction.amount) {
                return false;
            }
        }
        if let Some(m) = &self.max_amount {
            if !transaction.amount.abs_le(m) {
                return false;
            }
        }
        if let Some(m) = &self.amount {
            if !(m.abs_le(&transaction.amount) && transaction.amount.abs_le(m)) {
                return false;
            }
        }
        if !self.pattern.is_match(transaction.orig_payee.as_str()) {
            return false;
        }
        if date_is_outside_range(
            &transaction.date,
            (self.min_date_in_month, self.max_date_in_month),
            (self.min_date_in_year, self.max_date_in_year),
        ) {
            return false;
        }
        true
    }

    /// Ensure the given rules are semantically correct.
    pub fn validate(&self, name: &str) -> (r: Result<(), String>)
        ensures
            r.is_ok() <==> spec_validate_date_filters_err(
                "payee"@,
                name@,
                (self.min_date_in_month, self.max_date_in_month),
                (self.min_date_in_year, self.max_date_in_year),
            ).is_none(),
            r.is_err() ==> (r->Err_0)@ == spec_validate_date_filters_err(
                "payee"@,
                name@,
                (self.min_date_in_month, self.max_date_in_month),
                (self.min_date_in_year, self.max_date_in_year),
            ).unwrap(),
    {
        validate_date_filters(
            "payee",
            name,
            (self.min_date_in_month, self.max_date_in_month),
            (self.min_date_in_year, self.max_date_in_year),
        )
    }

    /// Whether two rules are the same definition: the same pattern text,
    /// amounts of equal value, and the same date bounds.
    pub open spec fn spec_same_rule(self, other: PayeeRules) -> bool {
        self.pattern@ == other.pattern@
        && spec_opt_amount_same(self.min_amount, other.min_amount)
        && spec_opt_amount_same(self.max_amount, other.max_amount)
        && spec_opt_amount_same(self.amount, other.amount)
        && self.min_date_in_month == other.min_date_in_month
        && self.max_date_in_month == other.max_date_in_month
        && self.min_date_in_year == other.min_date_in_year
        && self.max_date_in_year == other.max_date_in_year
    }

    /// Whether two rules are the same definition.
    pub fn same_rule(&self, other: &PayeeRules) -> (r: bool)
        requires
            self.inv(),
            other.inv(),
        ensures
            r == self.spec_same_rule(*other),
    {
        self.pattern.same_pattern(&other.pattern)
        && opt_amount_same(&self.min_amount, &other.min_amount)
        && opt_amount_same(&self.max_amount, &other.max_amount)
        && opt_amount_same(&self.amount, &other.amount)
        && opt_u32_same(&self.min_date_in_month, &other.min_date_in_month)
        && opt_u32_same(&self.max_date_in_month, &other.max_date_in_month)
        && opt_pair_same(&self.min_date_in_year, &other.min_date_in_year)
        && opt_pair_same(&self.max_date_in_year, &other.max_date_in_year)
    }
}

/// Payee-rule matching is sign-agnostic: two transactions that differ
/// only in the sign of their amount match exactly the same rules.
pub proof fn lemma_payee_matching_sign_agnostic(
    r: PayeeRules,
    t1: NormalizedBankData,
    t2: NormalizedBankData,
)
    requires
        t2.date == t1.date,
        t2.payee == t1.payee,
        t2.orig_payee == t1.orig_payee,
        t2.category == t1.category,
        t2.memo == t1.memo,
        t2.check == t1.check,
        t2.amount.units() == -t1.amount.units(),
    ensures
        r.spec_matches(t1) == r.spec_matches(t2),
{
    crate::amount::lemma_abs_units_nonneg(t1.amount);
    crate::amount::lemma_abs_units_nonneg(t2.amount);
    assert(t1.amount.abs_units() == t2.amount.abs_units());
}

fn opt_amount_same(a: &Option<Amount>, b: &Option<Amount>) -> (r: bool)
    requires
        spec_opt_amount_inv(*a),
        spec_opt_amount_inv(*b),
    ensures
        r == spec_opt_amount_same(*a, *b),
{
    match (a, b) {
        (None, None) => true,
        (Some(x), Some(y)) => x.eq_value(y),
        _ => false,
    }
}

fn opt_u32_same(a: &Option<u32>, b: &Option<u32>) -> (r: bool)
    ensures
        r == (*a == *b),
{
    match (a, b) {
        (None, None) => true,
        (Some(x), Some(y)) => x == y,
        _ => false,
    }
}

fn opt_pair_same(a: &Option<(u32, u32)>, b: &Option<(u32, u32)>) -> (r: bool)
    ensures
        r == (*a == *b),
{
    match (a, b) {
        (None, None) => true,
        (Some(x), Some(y)) => x.0 == y.0 && x.1 == y.1,
        _ => false,
    }
}

} // verus!
