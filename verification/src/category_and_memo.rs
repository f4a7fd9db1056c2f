//! Rules that assign a category or a memo to a transaction.

use vstd::prelude::*;
use crate::NormalizedBankData;
use crate::amount::Amount;
use crate::pattern::{EqRegex, spec_regex_compiles, spec_regex_matches};
use crate::payees::{spec_opt_amount_inv, spec_amount_field, amount_of_entry};
use crate::row::StringMap;
use crate::strutil::{spec_quoted, push_quoted};

verus! {

/// Rules for specifying how to identify a category or memo for a given
/// transaction.
#[derive(Debug)]
pub struct CategoryAndMemoRules {
    /// The current name of the payee, matched exactly.
    pub payee: Option<String>,
    /// The category the transaction must already carry, matched exactly.
    pub category: Option<String>,
    /// The exact magnitude the transaction amount must have.
    pub amount: Option<Amount>,
    /// The smallest magnitude the transaction amount may have.
    pub min_amount: Option<Amount>,
    /// The largest magnitude the transaction amount may have.
    pub max_amount: Option<Amount>,
    /// Whether a strictly positive amount (income) may match.
    pub income_ok: bool,
    /// A pattern matched against the payee as originally given.
    pub orig_payee: Option<EqRegex>,
}

/// Whether a sequence of characters reads `true` ignoring ASCII case.
pub open spec fn spec_is_true_text(s: Seq<char>) -> bool {
    s.len() == 4
    && (s[0] == 't' || s[0] == 'T')
    && (s[1] == 'r' || s[1] == 'R')
    && (s[2] == 'u' || s[2] == 'U')
    && (s[3] == 'e' || s[3] == 'E')
}

fn is_true_text(s: &str) -> (r: bool)
    ensures
        r == spec_is_true_text(s@),
{
    if s.unicode_len() != 4 {
        return false;
    }
    let c0 = s.get_char(0);
    let c1 = s.get_char(1);
    let c2 = s.get_char(2);
    let c3 = s.get_char(3);
    (c0 == 't' || c0 == 'T') && (c1 == 'r' || c1 == 'R') && (c2 == 'u' || c2 == 'U')
        && (c3 == 'e' || c3 == 'E')
}

impl CategoryAndMemoRules {
    /// Every amount bound is well formed.
    pub open spec fn inv(self) -> bool {
        spec_opt_amount_inv(self.min_amount)
        && spec_opt_amount_inv(self.max_amount)
        && spec_opt_amount_inv(self.amount)
    }

    /// Whether the transaction matches this rule: the optional payee and
    /// category filters agree exactly, the optional original-payee
    /// pattern matches, income is allowed or the amount is not positive,
    /// and the amount magnitude meets the optional bounds and exact
    /// amount.
    pub open spec fn spec_matches(self, t: NormalizedBankData) -> bool {
        let amt = t.amount.abs_units();
        &&& (match self.payee {
            Some(p) => p@ == t.payee@,
            None => true,
        })
        &&& (match self.orig_payee {
            Some(re) => spec_regex_matches(re@, t.orig_payee@),
            None => true,
        })
        &&& (match self.category {
            Some(c) => t.category is Some && t.category.unwrap()@ == c@,
            None => true,
        })
        &&& (self.income_ok || !(t.amount.units() > 0))
        &&& (match self.min_amount {
            Some(m) => m.abs_units() <= amt,
            None => true,
        })
        &&& (match self.max_amount {
            Some(m) => amt <= m.abs_units(),
            None => true,
        })
        &&& (match self.amount {
            Some(m) => m.abs_units() == amt,
            None => true,
        })
    }

    /// Construct a rule from a rule table. A present `orig_payee`
    /// pattern must compile.
    pub fn new(mapping: &StringMap) -> (r: CategoryAndMemoRules)
        requires
            mapping.inv(),
            mapping@.contains_key("orig_payee"@)
                ==> spec_regex_compiles(mapping@["orig_payee"@]),
        ensures
            r.inv(),
            (match r.payee {
                Some(p) => Some(p@),
                None => None,
            }) == crate::mapping::spec_map_entry(mapping@, "payee"@),
            (match r.category {
                Some(c) => Some(c@),
                None => None,
            }) == crate::mapping::spec_map_entry(mapping@, "category"@),
            spec_amount_field(r.amount, crate::mapping::spec_map_entry(mapping@, "amount"@)),
            spec_amount_field(r.min_amount, crate::mapping::spec_map_entry(mapping@, "min_amount"@)),
            spec_amount_field(r.max_amount, crate::mapping::spec_map_entry(mapping@, "max_amount"@)),
            r.income_ok == (match crate::mapping::spec_map_entry(mapping@, "income_ok"@) {
                Some(s) => spec_is_true_text(s),
                None => true,
            }),
            (match r.orig_payee {
                Some(re) => Some(re@),
                None => None,
            }) == crate::mapping::spec_map_entry(mapping@, "orig_payee"@),
    {
        let payee = match mapping.get("payee") {
            Some(v) => Some(v.clone()),
            None => None,
        };
        let category = match mapping.get("category") {
            Some(v) => Some(v.clone()),
            None => None,
        };
        let amount = amount_of_entry(mapping, "amount");
        let min_amount = amount_of_entry(mapping, "min_amount");
        let max_amount = amount_of_entry(mapping, "max_amount");
        let income_ok = match mapping.get("income_ok") {
            Some(v) => is_true_text(v.as_str()),
            None => true,
        };
        let orig_payee = match mapping.get("orig_payee") {
            Some(v) => Some(EqRegex::new(v.as_str()).unwrap()),
            None => None,
        };
        CategoryAndMemoRules { payee, category, amount, min_amount, max_amount, income_ok, orig_payee }
    }

    /// Construct a rule from a rule table, declining when a present
    /// `orig_payee` pattern does not compile.
    pub fn try_new(mapping: &StringMap) -> (r: Option<CategoryAndMemoRules>)
        requires
            mapping.inv(),
        ensures
            r.is_some() == (mapping@.contains_key("orig_payee"@)
                ==> spec_regex_compiles(mapping@["orig_payee"@])),
            r.is_some() ==> r.unwrap().inv(),
    {
        match mapping.get("orig_payee") {
            Some(v) => {
                match EqRegex::new(v.as_str()) {
                    Some(_) => Some(CategoryAndMemoRules::new(mapping)),
                    None => None,
                }
            }
            None => Some(CategoryAndMemoRules::new(mapping)),
        }
    }

    /// Whether at least one discriminating field is set; a rule with
    /// none would match everything and is invalid.
    pub open spec fn spec_at_least_one(self) -> bool {
        self.payee is Some || self.category is Some || self.min_amount is Some
            || self.max_amount is Some || self.amount is Some || self.orig_payee is Some
    }

    /// Check if there is at least one discriminating field given for
    /// this object.
    pub fn check_at_least_one(&self) -> (r: bool)
        ensures
            r == self.spec_at_least_one(),
    {
        self.payee.is_some() || self.category.is_some() || self.min_amount.is_some()
            || self.max_amount.is_some() || self.amount.is_some() || self.orig_payee.is_some()
    }

    /// Determine if the given transaction matches this set of rules.
    pub fn transaction_matches(&self, transaction: &NormalizedBankData) -> (r: bool)
        requires
            self.inv(),
            transaction.inv(),
        ensures
            r == self.spec_matches(*transaction),
    {
        if let Some(p) = &self.payee {
            if !crate::strutil::str_eq(p.as_str(), transaction.payee.as_str()) {
                return false;
            }
        }
        if let Some(re) = &self.orig_payee {
            if !re.is_match(transaction.orig_payee.as_str()) {
                return false;
            }
        }
        if let Some(cc) = &self.category {
            match &transaction.category {
                None => {
                    return false;
                }
                Some(tc) => {
                    if !crate::strutil::str_eq(tc.as_str(), cc.as_str()) {
                        return false;
                    }
                }
            }
        }
        if !self.income_ok && transaction.amount.is_strictly_positive() {
            return false;
        }
        if let Some(m) = &self.min_amount {
            if !m.abs_le(&transaction.amount) {
                return false;
            }
        }
        if let Some(m) = &self.max_amount {
            if !transaction.amount.abs_le(m) {
                return false;
            }
        }
        if let Some(m) = &self.amount {
            if !(m.abs_le(&transaction.amount) && transaction.amount.abs_le(m)) {
                return false;
            }
        }
        true
    }

    /// Category and memo matching is sign-agnostic in its amount
    /// bounds: for a rule that accepts income, two transactions that
    /// differ only in the sign of their amount match identically. (A
    /// rule that rejects income tells the signs apart by design.)
    pub proof fn lemma_cm_matching_sign_agnostic(
        self,
        t1: NormalizedBankData,
        t2: NormalizedBankData,
    )
        requires
            self.income_ok,
            t2.date == t1.date,
            t2.payee == t1.payee,
            t2.orig_payee == t1.orig_payee,
            t2.category == t1.category,
            t2.memo == t1.memo,
            t2.check == t1.check,
            t2.amount.units() == -t1.amount.units(),
        ensures
            self.spec_matches(t1) == self.spec_matches(t2),
    {
        crate::amount::lemma_abs_units_nonneg(t1.amount);
        crate::amount::lemma_abs_units_nonneg(t2.amount);
        assert(t1.amount.abs_units() == t2.amount.abs_units());
    }

    /// The message that rejects a rule with no discriminating field.
    pub open spec fn spec_validate_err(self, obj_type: Seq<char>, name: Seq<char>) -> Option<Seq<char>> {
        if self.spec_at_least_one() {
            None
        } else {
            Some("The "@ + obj_type + " "@ + spec_quoted(name) + " must implement a rule."@)
        }
    }

    /// Ensure the given rules are semantically correct: at least one
    /// discriminating field must be set.
    pub fn validate(&self, obj_type: &str, name: &str) -> (r: Result<(), String>)
        ensures
            r.is_ok() == self.spec_at_least_one(),
            r.is_err() ==> (r->Err_0)@ == self.spec_validate_err(obj_type@, name@).unwrap(),
    {
        if !self.check_at_least_one() {
            let mut out = String::new();
            out.append("The ");
            out.append(obj_type);
            out.append(" ");
            push_quoted(&mut out, name);
            out.append(" must implement a rule.");
            proof {
                assert(out@ =~= self.spec_validate_err(obj_type@, name@).unwrap());
            }
            return Err(out);
        }
        Ok(())
    }
}

} // verus!
