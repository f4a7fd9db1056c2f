//! Per-account mapping profiles: how the header row of an input file
//! identifies an account, and how its columns are renamed to the
//! canonical ones.

use vstd::prelude::*;
use vstd::string::StringExecFns;
use crate::row::StringMap;
use crate::strutil::string_eq_str;

verus! {

/// How to rename the columns of one account's files to the canonical
/// output columns.
#[derive(Debug)]
pub struct RemapValuesCsv {
    /// The source column for `Payee`.
    pub payee: Option<String>,
    /// The source column for `Date`.
    pub date: Option<String>,
    /// The source column for `Amount`.
    pub amount: Option<String>,
    /// The source column for `Category`.
    pub category: Option<String>,
    /// The source column for `Memo`.
    pub memo: Option<String>,
    /// The source column for `Check#`.
    pub check: Option<String>,
}

/// Rules for how to identify one account's files by their header
/// columns, and how to map those column names to output column names.
#[derive(Debug)]
pub struct MappingRulesCsv {
    /// The label to give this account type.
    pub label: String,
    /// The columns to expect from this account type, in order.
    pub identify: Vec<String>,
    /// How to map the given column names to output column names.
    pub translate: Option<RemapValuesCsv>,
    /// The format string for dates for this rule set.
    pub date_fmt: String,
    /// Whether the raw amounts arrive negated and must be flipped.
    pub negate: bool,
}

/// The view of an optional owned string.
pub open spec fn spec_opt_view(o: Option<String>) -> Option<Seq<char>> {
    match o {
        Some(s) => Some(s@),
        None => None,
    }
}

/// The value a table holds under a key, if any.
pub open spec fn spec_map_entry(m: Map<Seq<char>, Seq<char>>, key: Seq<char>) -> Option<Seq<char>> {
    if m.contains_key(key) {
        Some(m[key])
    } else {
        None
    }
}

fn opt_of_map(translate: &StringMap, key: &str) -> (r: Option<String>)
    requires
        translate.inv(),
    ensures
        spec_opt_view(r) == spec_map_entry(translate@, key@),
{
    match translate.get(key) {
        Some(v) => Some(v.clone()),
        None => None,
    }
}

impl MappingRulesCsv {
    /// Construct a profile from plain parts. The translation table is
    /// read under the lower-case canonical field names; an empty table
    /// means no translation. A missing date format defaults to
    /// `%Y-%m-%d`.
    pub fn new(
        label: String,
        identify: Vec<String>,
        translate: &StringMap,
        date_fmt: Option<String>,
        negate: bool,
    ) -> (r: MappingRulesCsv)
        requires
            translate.inv(),
        ensures
            r.label@ == label@,
            r.identify == identify,
            r.negate == negate,
            match date_fmt {
                Some(f) => r.date_fmt@ == f@,
                None => r.date_fmt@ == "%Y-%m-%d"@,
            },
            r.translate.is_some() == (translate@ != Map::<Seq<char>, Seq<char>>::empty()),
            r.translate.is_some() ==> {
                let t = r.translate.unwrap();
                spec_opt_view(t.payee) == spec_map_entry(translate@, "payee"@)
                && spec_opt_view(t.date) == spec_map_entry(translate@, "date"@)
                && spec_opt_view(t.amount) == spec_map_entry(translate@, "amount"@)
                && spec_opt_view(t.category) == spec_map_entry(translate@, "category"@)
                && spec_opt_view(t.memo) == spec_map_entry(translate@, "memo"@)
                && spec_opt_view(t.check) == spec_map_entry(translate@, "check"@)
            },
    {
        let tr = if translate.is_empty() {
            None
        } else {
            Some(RemapValuesCsv {
                payee: opt_of_map(translate, "payee"),
                date: opt_of_map(translate, "date"),
                amount: opt_of_map(translate, "amount"),
                category: opt_of_map(translate, "category"),
                memo: opt_of_map(translate, "memo"),
                check: opt_of_map(translate, "check"),
            })
        };
        let fmt = match date_fmt {
            Some(f) => f,
            None => default_fmt_string(),
        };
        MappingRulesCsv { label, identify, translate: tr, date_fmt: fmt, negate }
    }

    /// Check if the given header row matches these rules: exact,
    /// order-sensitive equality against `identify`.
    pub fn header_matches(&self, headers: &Vec<String>) -> (r: bool)
        ensures
            r == (self.identify.deep_view() == headers.deep_view()),
    {
        let n = self.identify.len();
        if n != headers.len() {
            proof {
                assert(self.identify.deep_view().len() == n);
                assert(headers.deep_view().len() == headers@.len());
            }
            return false;
        }
        let mut i: usize = 0;
        while i < n
            invariant
                n == self.identify@.len(),
                n == headers@.len(),
                i <= n,
                forall|j: int| 0 <= j < i
                    ==> (#[trigger] self.identify.deep_view()[j]) == headers.deep_view()[j],
            decreases n - i,
        {
            if !string_eq_str(&self.identify[i], headers[i].as_str()) {
                proof {
                    assert(self.identify.deep_view()[i as int] != headers.deep_view()[i as int]);
                }
                return false;
            }
            i = i + 1;
        }
        proof {
            assert(self.identify.deep_view() =~= headers.deep_view());
        }
        true
    }

    /// The message that rejects this profile, if any: every translation
    /// source column must appear among the identifying columns. The
    /// fields are checked in a fixed order.
    pub open spec fn spec_validate_err(self) -> Option<Seq<char>> {
        match self.translate {
            None => None,
            Some(t) => {
                let ident = self.identify.deep_view();
                if self.spec_bad_entry(t.payee) {
                    Some(spec_translate_err(self.label@, t.payee.unwrap()@))
                } else if self.spec_bad_entry(t.date) {
                    Some(spec_translate_err(self.label@, t.date.unwrap()@))
                } else if self.spec_bad_entry(t.amount) {
                    Some(spec_translate_err(self.label@, t.amount.unwrap()@))
                } else if self.spec_bad_entry(t.category) {
                    Some(spec_translate_err(self.label@, t.category.unwrap()@))
                } else if self.spec_bad_entry(t.memo) {
                    Some(spec_translate_err(self.label@, t.memo.unwrap()@))
                } else if self.spec_bad_entry(t.check) {
                    Some(spec_translate_err(self.label@, t.check.unwrap()@))
                } else {
                    None
                }
            }
        }
    }

    /// Whether a translation entry names a column that the identifying
    /// columns do not hold.
    pub open spec fn spec_bad_entry(self, entry: Option<String>) -> bool {
        match entry {
            None => false,
            Some(v) => !exists|i: int|
                0 <= i < self.identify.deep_view().len()
                && #[trigger] self.identify.deep_view()[i] == v@,
        }
    }

    fn check_entry(&self, entry: &Option<String>) -> (r: Result<(), String>)
        ensures
            r.is_ok() == !self.spec_bad_entry(*entry),
            r.is_err() ==> (r->Err_0)@
                == spec_translate_err(self.label@, entry.unwrap()@),
    {
        match entry {
            None => Ok(()),
            Some(v) => {
                let n = self.identify.len();
                let mut i: usize = 0;
                while i < n
                    invariant
                        n == self.identify@.len(),
                        i <= n,
                        *entry == Some(*v),
                        forall|j: int| 0 <= j < i
                            ==> (#[trigger] self.identify.deep_view()[j]) != v@,
                    decreases n - i,
                {
                    if string_eq_str(&self.identify[i], v.as_str()) {
                        proof {
                            assert(self.identify.deep_view()[i as int] == v@);
                            assert(exists|j: int|
                                0 <= j < self.identify.deep_view().len()
                                && #[trigger] self.identify.deep_view()[j] == v@) by {
                                assert(self.identify.deep_view()[i as int] == v@);
                            }
                        }
                        return Ok(());
                    }
                    i = i + 1;
                }
                let mut out = String::new();
                out.append("The account ");
                out.append(self.label.as_str());
                out.append(" lists ");
                out.append(v.as_str());
                out.append(" for translation but it is not listed in identify.");
                proof {
                    assert(out@ =~= spec_translate_err(self.label@, v@));
                }
                Err(out)
            }
        }
    }

    /// Ensure all translation source columns appear among the
    /// identifying columns.
    pub fn validate(&self) -> (r: Result<(), String>)
        ensures
            r.is_ok() == self.spec_validate_err().is_none(),
            r.is_err() ==> (r->Err_0)@ == self.spec_validate_err().unwrap(),
    {
        match &self.translate {
            None => Ok(()),
            Some(t) => {
                self.check_entry(&t.payee)?;
                self.check_entry(&t.date)?;
                self.check_entry(&t.amount)?;
                self.check_entry(&t.category)?;
                self.check_entry(&t.memo)?;
                self.check_entry(&t.check)?;
                Ok(())
            }
        }
    }

    /// One renaming step: when a source column is named and present,
    /// its value moves under the target name.
    pub open spec fn spec_remap_one(
        m: Map<Seq<char>, Seq<char>>,
        target: Seq<char>,
        source: Option<String>,
    ) -> Map<Seq<char>, Seq<char>> {
        match source {
            None => m,
            Some(src) => {
                if m.contains_key(src@) {
                    m.remove(src@).insert(target, m[src@])
                } else {
                    m
                }
            }
        }
    }

    /// The row after all six renamings, applied in the fixed order
    /// Payee, Date, Amount, Category, Memo, Check#.
    pub open spec fn spec_remap(self, m: Map<Seq<char>, Seq<char>>) -> Map<Seq<char>, Seq<char>> {
        match self.translate {
            None => m,
            Some(t) => {
                let m1 = Self::spec_remap_one(m, "Payee"@, t.payee);
                let m2 = Self::spec_remap_one(m1, "Date"@, t.date);
                let m3 = Self::spec_remap_one(m2, "Amount"@, t.amount);
                let m4 = Self::spec_remap_one(m3, "Category"@, t.category);
                let m5 = Self::spec_remap_one(m4, "Memo"@, t.memo);
                Self::spec_remap_one(m5, "Check#"@, t.check)
            }
        }
    }

    /// Remap the columns of a raw row to the canonical output names;
    /// unmapped columns pass through unchanged.
    pub fn remap(&self, mapping: StringMap) -> (r: StringMap)
        requires
            mapping.inv(),
        ensures
            r.inv(),
            r@ == self.spec_remap(mapping@),
    {
        let mut row = mapping;
        let maps = match &self.translate {
            None => {
                return row;
            }
            Some(t) => t,
        };
        remap_one(&mut row, "Payee", &maps.payee);
        remap_one(&mut row, "Date", &maps.date);
        remap_one(&mut row, "Amount", &maps.amount);
        remap_one(&mut row, "Category", &maps.category);
        remap_one(&mut row, "Memo", &maps.memo);
        remap_one(&mut row, "Check#", &maps.check);
        row
    }
}

/// The message that rejects a translation entry.
pub open spec fn spec_translate_err(label: Seq<char>, value: Seq<char>) -> Seq<char> {
    "The account "@ + label + " lists "@ + value
        + " for translation but it is not listed in identify."@
}

fn remap_one(row: &mut StringMap, target: &str, source: &Option<String>)
    requires
        old(row).inv(),
    ensures
        final(row).inv(),
        final(row)@ == MappingRulesCsv::spec_remap_one(old(row)@, target@, *source),
{
    match source {
        None => {}
        Some(k) => {
            match row.remove(k.as_str()) {
                Some(val) => {
                    row.insert(String::from_str(target), val);
                }
                None => {
                    proof {
                        assert(final(row)@ =~= old(row)@);
                    }
                }
            }
        }
    }
}

/// The default format string for dates.
pub fn default_fmt_string() -> (r: String)
    ensures
        r@ == "%Y-%m-%d"@,
{
    String::from_str("%Y-%m-%d")
}

} // verus!
