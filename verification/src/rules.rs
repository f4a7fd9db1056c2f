//! The rule store: every rule read from the rule file, the three
//! reclassification passes over a transaction, and the cross-rule
//! validation. Rule tables keep their declaration order, and within
//! each pass the first matching rule's owning name wins.

use vstd::prelude::*;
use crate::NormalizedBankData;
use crate::category_and_memo::CategoryAndMemoRules;
use crate::mapping::MappingRulesCsv;
use crate::paths::{AuxillaryPaths, spec_storage_err};
use crate::payees::PayeeRules;
use crate::strutil::{spec_str_lt, str_lt, spec_quoted, push_quoted};
use crate::date_filter::spec_validate_date_filters_err;

verus! {

/// Holds rules for different types of input formats.
#[derive(Debug)]
pub struct MappingTypes {
    /// Rules for the comma-separated format.
    pub csv: Vec<MappingRulesCsv>,
}

/// The aggregation of all rules found in the rules file. The payee,
/// category and memo tables are ordered: iteration follows declaration
/// order, so first-match semantics are reproducible.
#[derive(Debug)]
pub struct RuleFileData {
    /// Rules to map a given payee name to the desired value.
    pub payees: Vec<(String, Vec<PayeeRules>)>,
    /// Rules to either map or synthesize a category for some transaction.
    pub categories: Option<Vec<(String, Vec<CategoryAndMemoRules>)>>,
    /// Rules to synthesize a memo for some transaction.
    pub memos: Option<Vec<(String, Vec<CategoryAndMemoRules>)>>,
    /// Rules for how to identify and translate files for different
    /// account types.
    pub mappings: MappingTypes,
    /// Locations of paths used by the program.
    pub paths: AuxillaryPaths,
}

/// Whether some rule in the group matches the transaction.
pub open spec fn spec_payee_group_matches(rules: Seq<PayeeRules>, t: NormalizedBankData) -> bool {
    exists|j: int| 0 <= j < rules.len() && (#[trigger] rules[j]).spec_matches(t)
}

/// The owning name of the first payee group, in declaration order, with
/// a matching rule.
pub open spec fn spec_first_payee(
    groups: Seq<(String, Vec<PayeeRules>)>,
    t: NormalizedBankData,
) -> Option<Seq<char>>
    decreases groups.len(),
{
    if groups.len() == 0 {
        None
    } else if spec_payee_group_matches(groups[0].1@, t) {
        Some(groups[0].0@)
    } else {
        spec_first_payee(groups.drop_first(), t)
    }
}

/// Whether some rule in the group matches the transaction.
pub open spec fn spec_cm_group_matches(
    rules: Seq<CategoryAndMemoRules>,
    t: NormalizedBankData,
) -> bool {
    exists|j: int| 0 <= j < rules.len() && (#[trigger] rules[j]).spec_matches(t)
}

/// The owning name of the first category or memo group, in declaration
/// order, with a matching rule.
pub open spec fn spec_first_cm(
    groups: Seq<(String, Vec<CategoryAndMemoRules>)>,
    t: NormalizedBankData,
) -> Option<Seq<char>>
    decreases groups.len(),
{
    if groups.len() == 0 {
        None
    } else if spec_cm_group_matches(groups[0].1@, t) {
        Some(groups[0].0@)
    } else {
        spec_first_cm(groups.drop_first(), t)
    }
}

/// `t1` is `t0` with only the payee replaced by `name`.
pub open spec fn spec_same_but_payee(
    t0: NormalizedBankData,
    t1: NormalizedBankData,
    name: Seq<char>,
) -> bool {
    t1.payee@ == name && t1.date == t0.date && t1.category == t0.category && t1.memo == t0.memo
        && t1.amount == t0.amount && t1.check == t0.check && t1.orig_payee == t0.orig_payee
}

/// `t1` is `t0` with only the category set to `name`.
pub open spec fn spec_same_but_category(
    t0: NormalizedBankData,
    t1: NormalizedBankData,
    name: Seq<char>,
) -> bool {
    t1.category is Some && t1.category.unwrap()@ == name && t1.date == t0.date
        && t1.payee == t0.payee && t1.memo == t0.memo && t1.amount == t0.amount
        && t1.check == t0.check && t1.orig_payee == t0.orig_payee
}

/// `t1` is `t0` with only the memo set to `name`.
pub open spec fn spec_same_but_memo(
    t0: NormalizedBankData,
    t1: NormalizedBankData,
    name: Seq<char>,
) -> bool {
    t1.memo is Some && t1.memo.unwrap()@ == name && t1.date == t0.date && t1.payee == t0.payee
        && t1.category == t0.category && t1.amount == t0.amount && t1.check == t0.check
        && t1.orig_payee == t0.orig_payee
}

/// The index of the first mapping profile whose identifying columns
/// equal the headers.
pub open spec fn spec_select_mapping(
    csv: Seq<MappingRulesCsv>,
    headers: Seq<Seq<char>>,
) -> Option<int>
    decreases csv.len(),
{
    if csv.len() == 0 {
        None
    } else if csv[0].identify.deep_view() == headers {
        Some(0)
    } else {
        match spec_select_mapping(csv.drop_first(), headers) {
            None => None,
            Some(i) => Some(i + 1),
        }
    }
}

/// The message that rejects the first ill-formed mapping profile, if any.
pub open spec fn spec_mappings_err(csv: Seq<MappingRulesCsv>) -> Option<Seq<char>>
    decreases csv.len(),
{
    if csv.len() == 0 {
        None
    } else if csv[0].spec_validate_err() is Some {
        csv[0].spec_validate_err()
    } else {
        spec_mappings_err(csv.drop_first())
    }
}

/// All payee rules of all groups, flattened in declaration order, each
/// paired with its owning name.
pub open spec fn spec_flat_rules(groups: Seq<(String, Vec<PayeeRules>)>) -> Seq<(String, PayeeRules)>
    decreases groups.len(),
{
    if groups.len() == 0 {
        Seq::empty()
    } else {
        spec_flat_rules(groups.drop_last())
            + groups.last().1@.map_values(|r: PayeeRules| (groups.last().0, r))
    }
}

/// The earliest position `i` in `[from, j)` whose rule equals the rule
/// at `j`, if any.
pub open spec fn spec_dup_scan(flat: Seq<(String, PayeeRules)>, j: int, from: int) -> Option<int>
    decreases j - from,
{
    if !(0 <= from < j < flat.len()) {
        None
    } else if flat[from].1.spec_same_rule(flat[j].1) {
        Some(from)
    } else {
        spec_dup_scan(flat, j, from + 1)
    }
}

/// The first position, scanning forward from `j`, that repeats an
/// earlier rule, together with that earlier position.
pub open spec fn spec_first_dup(flat: Seq<(String, PayeeRules)>, j: int) -> Option<(int, int)>
    decreases flat.len() - j,
{
    if !(0 <= j < flat.len()) {
        None
    } else {
        match spec_dup_scan(flat, j, 0) {
            Some(i) => Some((i, j)),
            None => spec_first_dup(flat, j + 1),
        }
    }
}

/// The message naming two payees that define identical rules, the
/// lexicographically smaller name first.
pub open spec fn spec_dup_msg(earlier: Seq<char>, current: Seq<char>) -> Seq<char> {
    let a = if spec_str_lt(earlier, current) { earlier } else { current };
    let b = if spec_str_lt(earlier, current) { current } else { earlier };
    "The payees "@ + spec_quoted(a) + " and "@ + spec_quoted(b)
        + " both implement identical rules."@
}

/// The duplicate-rule error of a payee table, if any.
pub open spec fn spec_dup_err(groups: Seq<(String, Vec<PayeeRules>)>) -> Option<Seq<char>> {
    let flat = spec_flat_rules(groups);
    match spec_first_dup(flat, 0) {
        None => None,
        Some((i, j)) => Some(spec_dup_msg(flat[i].0@, flat[j].0@)),
    }
}

/// The first date-filter error among the rules of one payee group.
pub open spec fn spec_payee_group_filters_err(
    name: Seq<char>,
    rules: Seq<PayeeRules>,
) -> Option<Seq<char>>
    decreases rules.len(),
{
    if rules.len() == 0 {
        None
    } else {
        let head = spec_validate_date_filters_err(
            "payee"@,
            name,
            (rules[0].min_date_in_month, rules[0].max_date_in_month),
            (rules[0].min_date_in_year, rules[0].max_date_in_year),
        );
        if head is Some {
            head
        } else {
            spec_payee_group_filters_err(name, rules.drop_first())
        }
    }
}

/// The first date-filter error among all payee rules, in declaration order.
pub open spec fn spec_payee_filters_err(
    groups: Seq<(String, Vec<PayeeRules>)>,
) -> Option<Seq<char>>
    decreases groups.len(),
{
    if groups.len() == 0 {
        None
    } else {
        let head = spec_payee_group_filters_err(groups[0].0@, groups[0].1@);
        if head is Some {
            head
        } else {
            spec_payee_filters_err(groups.drop_first())
        }
    }
}

/// The first discriminator error among the rules of one category or
/// memo group.
pub open spec fn spec_cm_group_err(
    obj_type: Seq<char>,
    name: Seq<char>,
    rules: Seq<CategoryAndMemoRules>,
) -> Option<Seq<char>>
    decreases rules.len(),
{
    if rules.len() == 0 {
        None
    } else if !rules[0].spec_at_least_one() {
        rules[0].spec_validate_err(obj_type, name)
    } else {
        spec_cm_group_err(obj_type, name, rules.drop_first())
    }
}

/// The first discriminator error among all category or memo rules, in
/// declaration order.
pub open spec fn spec_cm_err(
    obj_type: Seq<char>,
    groups: Seq<(String, Vec<CategoryAndMemoRules>)>,
) -> Option<Seq<char>>
    decreases groups.len(),
{
    if groups.len() == 0 {
        None
    } else {
        let head = spec_cm_group_err(obj_type, groups[0].0@, groups[0].1@);
        if head is Some {
            head
        } else {
            spec_cm_err(obj_type, groups.drop_first())
        }
    }
}

impl RuleFileData {
    /// Every rule held is well formed.
    pub open spec fn inv(self) -> bool {
        &&& (forall|g: int, j: int|
            0 <= g < self.payees@.len() && 0 <= j < (#[trigger] self.payees@[g]).1@.len()
                ==> (#[trigger] self.payees@[g].1@[j]).inv())
        &&& (self.categories is Some ==> forall|g: int, j: int|
            0 <= g < self.categories.unwrap()@.len()
                && 0 <= j < (#[trigger] self.categories.unwrap()@[g]).1@.len()
                ==> (#[trigger] self.categories.unwrap()@[g].1@[j]).inv())
        &&& (self.memos is Some ==> forall|g: int, j: int|
            0 <= g < self.memos.unwrap()@.len()
                && 0 <= j < (#[trigger] self.memos.unwrap()@[g]).1@.len()
                ==> (#[trigger] self.memos.unwrap()@[g].1@[j]).inv())
    }

    /// The first content error of the store, checked in a fixed order:
    /// ill-formed mapping profiles, duplicate payee rules, ill-formed
    /// payee date filters, category rules without a discriminator, then
    /// memo rules without one. The storage-path check is separate,
    /// since its outcome depends on the machine.
    pub open spec fn spec_content_err(self) -> Option<Seq<char>> {
        if spec_mappings_err(self.mappings.csv@) is Some {
            spec_mappings_err(self.mappings.csv@)
        } else if spec_dup_err(self.payees@) is Some {
            spec_dup_err(self.payees@)
        } else if spec_payee_filters_err(self.payees@) is Some {
            spec_payee_filters_err(self.payees@)
        } else if self.categories is Some
            && spec_cm_err("category"@, self.categories.unwrap()@) is Some {
            spec_cm_err("category"@, self.categories.unwrap()@)
        } else if self.memos is Some && spec_cm_err("memo"@, self.memos.unwrap()@) is Some {
            spec_cm_err("memo"@, self.memos.unwrap()@)
        } else {
            None
        }
    }
}

/// The name/rule pairs that a list of positions into the payee table
/// denotes.
pub open spec fn spec_pos_map(
    groups: Seq<(String, Vec<PayeeRules>)>,
    pos: Seq<(usize, usize)>,
) -> Seq<(String, PayeeRules)> {
    pos.map_values(|p: (usize, usize)| (groups[p.0 as int].0, groups[p.0 as int].1@[p.1 as int]))
}

proof fn lemma_pos_map_len(groups: Seq<(String, Vec<PayeeRules>)>, pos: Seq<(usize, usize)>)
    ensures
        spec_pos_map(groups, pos).len() == pos.len(),
{
}

fn validate_payee_group(name: &String, rules: &Vec<PayeeRules>) -> (r: Result<(), String>)
    ensures
        r.is_ok() == (spec_payee_group_filters_err(name@, rules@) is None),
        r.is_err() ==> (r->Err_0)@ == spec_payee_group_filters_err(name@, rules@).unwrap(),
{
    let n = rules.len();
    let mut i: usize = 0;
    proof {
        assert(rules@.subrange(0, n as int) =~= rules@);
    }
    while i < n
        invariant
            n == rules@.len(),
            i <= n,
            spec_payee_group_filters_err(name@, rules@)
                == spec_payee_group_filters_err(name@, rules@.subrange(i as int, n as int)),
        decreases n - i,
    {
        let ghost rest = rules@.subrange(i as int, n as int);
        proof {
            assert(rest[0] == rules@[i as int]);
            assert(rest.drop_first() =~= rules@.subrange(i + 1, n as int));
        }
        match rules[i].validate(name.as_str()) {
            Ok(()) => {}
            Err(e) => {
                return Err(e);
            }
        }
        i = i + 1;
    }
    Ok(())
}

fn validate_cm_group(
    obj_type: &str,
    name: &String,
    rules: &Vec<CategoryAndMemoRules>,
) -> (r: Result<(), String>)
    ensures
        r.is_ok() == (spec_cm_group_err(obj_type@, name@, rules@) is None),
        r.is_err() ==> (r->Err_0)@ == spec_cm_group_err(obj_type@, name@, rules@).unwrap(),
{
    let n = rules.len();
    let mut i: usize = 0;
    proof {
        assert(rules@.subrange(0, n as int) =~= rules@);
    }
    while i < n
        invariant
            n == rules@.len(),
            i <= n,
            spec_cm_group_err(obj_type@, name@, rules@)
                == spec_cm_group_err(obj_type@, name@, rules@.subrange(i as int, n as int)),
        decreases n - i,
    {
        let ghost rest = rules@.subrange(i as int, n as int);
        proof {
            assert(rest[0] == rules@[i as int]);
            assert(rest.drop_first() =~= rules@.subrange(i + 1, n as int));
        }
        match rules[i].validate(obj_type, name.as_str()) {
            Ok(()) => {}
            Err(e) => {
                return Err(e);
            }
        }
        i = i + 1;
    }
    Ok(())
}

fn validate_cm_groups(
    obj_type: &str,
    groups: &Vec<(String, Vec<CategoryAndMemoRules>)>,
) -> (r: Result<(), String>)
    ensures
        r.is_ok() == (spec_cm_err(obj_type@, groups@) is None),
        r.is_err() ==> (r->Err_0)@ == spec_cm_err(obj_type@, groups@).unwrap(),
{
    let n = groups.len();
    let mut i: usize = 0;
    proof {
        assert(groups@.subrange(0, n as int) =~= groups@);
    }
    while i < n
        invariant
            n == groups@.len(),
            i <= n,
            spec_cm_err(obj_type@, groups@)
                == spec_cm_err(obj_type@, groups@.subrange(i as int, n as int)),
        decreases n - i,
    {
        let ghost rest = groups@.subrange(i as int, n as int);
        proof {
            assert(rest[0] == groups@[i as int]);
            assert(rest.drop_first() =~= groups@.subrange(i + 1, n as int));
        }
        match validate_cm_group(obj_type, &groups[i].0, &groups[i].1) {
            Ok(()) => {}
            Err(e) => {
                return Err(e);
            }
        }
        i = i + 1;
    }
    Ok(())
}

fn payee_group_matches(rules: &Vec<PayeeRules>, t: &NormalizedBankData) -> (r: bool)
    requires
        forall|j: int| 0 <= j < rules@.len() ==> (#[trigger] rules@[j]).inv(),
        t.inv(),
    ensures
        r == spec_payee_group_matches(rules@, *t),
{
    let n = rules.len();
    let mut j: usize = 0;
    while j < n
        invariant
            n == rules@.len(),
            j <= n,
            t.inv(),
            forall|k: int| 0 <= k < rules@.len() ==> (#[trigger] rules@[k]).inv(),
            forall|k: int| 0 <= k < j ==> !(#[trigger] rules@[k]).spec_matches(*t),
        decreases n - j,
    {
        if rules[j].transaction_matches(t) {
            return true;
        }
        j = j + 1;
    }
    false
}

fn cm_group_matches(rules: &Vec<CategoryAndMemoRules>, t: &NormalizedBankData) -> (r: bool)
    requires
        forall|j: int| 0 <= j < rules@.len() ==> (#[trigger] rules@[j]).inv(),
        t.inv(),
    ensures
        r == spec_cm_group_matches(rules@, *t),
{
    let n = rules.len();
    let mut j: usize = 0;
    while j < n
        invariant
            n == rules@.len(),
            j <= n,
            t.inv(),
            forall|k: int| 0 <= k < rules@.len() ==> (#[trigger] rules@[k]).inv(),
            forall|k: int| 0 <= k < j ==> !(#[trigger] rules@[k]).spec_matches(*t),
        decreases n - j,
    {
        if rules[j].transaction_matches(t) {
            return true;
        }
        j = j + 1;
    }
    false
}

/// The first group, in declaration order, with a matching rule; the
/// owning name wins.
fn first_cm_name<'a>(
    groups: &'a Vec<(String, Vec<CategoryAndMemoRules>)>,
    t: &NormalizedBankData,
) -> (r: Option<&'a String>)
    requires
        forall|g: int, j: int|
            0 <= g < groups@.len() && 0 <= j < (#[trigger] groups@[g]).1@.len()
                ==> (#[trigger] groups@[g].1@[j]).inv(),
        t.inv(),
    ensures
        match r {
            Some(name) => Some(name@) == spec_first_cm(groups@, *t),
            None => None::<Seq<char>> == spec_first_cm(groups@, *t),
        },
{
    let n = groups.len();
    let mut i: usize = 0;
    proof {
        assert(groups@.subrange(0, n as int) =~= groups@);
    }
    while i < n
        invariant
            n == groups@.len(),
            i <= n,
            t.inv(),
            forall|g: int, j: int|
                0 <= g < groups@.len() && 0 <= j < (#[trigger] groups@[g]).1@.len()
                    ==> (#[trigger] groups@[g].1@[j]).inv(),
            spec_first_cm(groups@, *t) == spec_first_cm(groups@.subrange(i as int, n as int), *t),
        decreases n - i,
    {
        let ghost rest = groups@.subrange(i as int, n as int);
        proof {
            assert(rest[0] == groups@[i as int]);
            assert(rest.drop_first() =~= groups@.subrange(i + 1, n as int));
        }
        if cm_group_matches(&groups[i].1, t) {
            return Some(&groups[i].0);
        }
        i = i + 1;
    }
    None
}

impl RuleFileData {
    /// Create a new rule store from its parts, validating them: the
    /// storage path must name a directory on this machine, and the
    /// content checks of `spec_content_err` must all pass.
    pub fn new(
        payees: Vec<(String, Vec<PayeeRules>)>,
        categories: Option<Vec<(String, Vec<CategoryAndMemoRules>)>>,
        memos: Option<Vec<(String, Vec<CategoryAndMemoRules>)>>,
        mappings: MappingTypes,
        paths: AuxillaryPaths,
    ) -> (r: Result<RuleFileData, String>)
        requires
            ({
                let built = RuleFileData {
                    payees, categories, memos, mappings, paths,
                };
                built.inv()
            }),
        ensures
            ({
                let built = RuleFileData {
                    payees, categories, memos, mappings, paths,
                };
                &&& (r.is_ok() ==> r.unwrap() == built && built.spec_content_err() is None)
                &&& (built.spec_content_err() is Some ==> r.is_err())
                &&& (r.is_err() ==> ((r->Err_0)@ == spec_storage_err(built.paths.storage@)
                    || (built.spec_content_err() is Some
                        && (r->Err_0)@ == built.spec_content_err().unwrap())))
            }),
    {
        let rules = RuleFileData { payees, categories, memos, mappings, paths };
        match rules.validate() {
            Ok(()) => Ok(rules),
            Err(e) => Err(e),
        }
    }

    /// Determine to which account profile the given headers correlate:
    /// the first mapping, in file order, whose identifying columns
    /// equal the headers.
    pub fn get_csv_mapping_rules<'a>(&'a self, headers: &Vec<String>) -> (r: Option<(usize, &'a MappingRulesCsv)>)
        ensures
            match r {
                Some((idx, m)) => {
                    &&& Some(idx as int) == spec_select_mapping(self.mappings.csv@, headers.deep_view())
                    &&& idx < self.mappings.csv@.len()
                    &&& *m == self.mappings.csv@[idx as int]
                },
                None => None::<int> == spec_select_mapping(self.mappings.csv@, headers.deep_view()),
            },
    {
        let n = self.mappings.csv.len();
        let mut i: usize = 0;
        proof {
            assert(self.mappings.csv@.subrange(0, n as int) =~= self.mappings.csv@);
        }
        while i < n
            invariant
                n == self.mappings.csv@.len(),
                i <= n,
                spec_select_mapping(self.mappings.csv@, headers.deep_view())
                    == (match spec_select_mapping(
                        self.mappings.csv@.subrange(i as int, n as int),
                        headers.deep_view(),
                    ) {
                        None => None::<int>,
                        Some(k) => Some(k + i),
                    }),
            decreases n - i,
        {
            let ghost rest = self.mappings.csv@.subrange(i as int, n as int);
            proof {
                assert(rest[0] == self.mappings.csv@[i as int]);
                assert(rest.drop_first() =~= self.mappings.csv@.subrange(i + 1, n as int));
            }
            if self.mappings.csv[i].header_matches(headers) {
                return Some((i, &self.mappings.csv[i]));
            }
            i = i + 1;
        }
        None
    }

    /// Whether `t1` is `t0` after the payee pass: unchanged when no
    /// payee rule matches, else the first matching group's name becomes
    /// the payee.
    pub open spec fn spec_payee_updated(self, t0: NormalizedBankData, t1: NormalizedBankData) -> bool {
        match spec_first_payee(self.payees@, t0) {
            None => t1 == t0,
            Some(name) => spec_same_but_payee(t0, t1, name),
        }
    }

    /// Whether `t1` is `t0` after the category pass.
    pub open spec fn spec_category_updated(self, t0: NormalizedBankData, t1: NormalizedBankData) -> bool {
        match self.categories {
            None => t1 == t0,
            Some(groups) => match spec_first_cm(groups@, t0) {
                None => t1 == t0,
                Some(name) => spec_same_but_category(t0, t1, name),
            },
        }
    }

    /// Whether `t1` is `t0` after the memo pass.
    pub open spec fn spec_memo_updated(self, t0: NormalizedBankData, t1: NormalizedBankData) -> bool {
        match self.memos {
            None => t1 == t0,
            Some(groups) => match spec_first_cm(groups@, t0) {
                None => t1 == t0,
                Some(name) => spec_same_but_memo(t0, t1, name),
            },
        }
    }

    /// Whether `t3` is `t0` after the payee, category and memo passes,
    /// in that order.
    pub open spec fn spec_transaction_updated(
        self,
        t0: NormalizedBankData,
        t3: NormalizedBankData,
    ) -> bool {
        exists|t1: NormalizedBankData, t2: NormalizedBankData|
            #[trigger] self.spec_payee_updated(t0, t1)
            && #[trigger] self.spec_category_updated(t1, t2)
            && self.spec_memo_updated(t2, t3)
    }

    /// Determine a better payee name if available.
    fn update_payee(&self, transaction: &mut NormalizedBankData)
        requires
            self.inv(),
            old(transaction).inv(),
        ensures
            final(transaction).inv(),
            self.spec_payee_updated(*old(transaction), *final(transaction)),
    {
        let n = self.payees.len();
        let mut i: usize = 0;
        proof {
            assert(self.payees@.subrange(0, n as int) =~= self.payees@);
        }
        while i < n
            invariant
                n == self.payees@.len(),
                i <= n,
                self.inv(),
                transaction.inv(),
                *transaction == *old(transaction),
                spec_first_payee(self.payees@, *old(transaction))
                    == spec_first_payee(
                        self.payees@.subrange(i as int, n as int),
                        *old(transaction),
                    ),
            decreases n - i,
        {
            let ghost rest = self.payees@.subrange(i as int, n as int);
            proof {
                assert(rest[0] == self.payees@[i as int]);
                assert(rest.drop_first() =~= self.payees@.subrange(i + 1, n as int));
            }
            if payee_group_matches(&self.payees[i].1, transaction) {
                transaction.payee = self.payees[i].0.clone();
                return;
            }
            i = i + 1;
        }
    }

    /// Determine a better category if available.
    fn update_category(&self, transaction: &mut NormalizedBankData)
        requires
            self.inv(),
            old(transaction).inv(),
        ensures
            final(transaction).inv(),
            self.spec_category_updated(*old(transaction), *final(transaction)),
    {
        if let Some(cat) = &self.categories {
            match first_cm_name(cat, transaction) {
                Some(name) => {
                    let owned = name.clone();
                    transaction.category = Some(owned);
                }
                None => {}
            }
        }
    }

    /// Determine a better memo if available.
    fn update_memo(&self, transaction: &mut NormalizedBankData)
        requires
            self.inv(),
            old(transaction).inv(),
        ensures
            final(transaction).inv(),
            self.spec_memo_updated(*old(transaction), *final(transaction)),
    {
        if let Some(memos) = &self.memos {
            match first_cm_name(memos, transaction) {
                Some(name) => {
                    let owned = name.clone();
                    transaction.memo = Some(owned);
                }
                None => {}
            }
        }
    }

    /// Detect two positions in the payee table that define identical
    /// rules, reporting both owning names.
    fn find_duplicate(&self) -> (r: Option<String>)
        requires
            self.inv(),
        ensures
            match r {
                Some(m) => spec_dup_err(self.payees@) is Some
                    && m@ == spec_dup_err(self.payees@).unwrap(),
                None => spec_dup_err(self.payees@) is None,
            },
    {
        let ghost groups = self.payees@;
        let ghost flat = spec_flat_rules(groups);
        let mut pos: Vec<(usize, usize)> = Vec::new();
        let ng = self.payees.len();
        let mut g: usize = 0;
        proof {
            assert(groups.subrange(0, 0) =~= Seq::<(String, Vec<PayeeRules>)>::empty());
            assert(spec_flat_rules(groups.subrange(0, 0)) =~= spec_pos_map(groups, pos@));
        }
        while g < ng
            invariant
                ng == groups.len(),
                groups == self.payees@,
                g <= ng,
                self.inv(),
                forall|k: int| 0 <= k < pos@.len() ==> {
                    let p = #[trigger] pos@[k];
                    p.0 < groups.len() && p.1 < groups[p.0 as int].1@.len()
                },
                spec_flat_rules(groups.subrange(0, g as int)) == spec_pos_map(groups, pos@),
            decreases ng - g,
        {
            let nr = self.payees[g].1.len();
            let mut rr: usize = 0;
            proof {
                assert(groups[g as int].1@.subrange(0, 0)
                    =~= Seq::<PayeeRules>::empty());
                assert(spec_flat_rules(groups.subrange(0, g as int))
                    + groups[g as int].1@.subrange(0, 0).map_values(
                        |r: PayeeRules| (groups[g as int].0, r))
                    =~= spec_pos_map(groups, pos@));
            }
            while rr < nr
                invariant
                    ng == groups.len(),
                    groups == self.payees@,
                    g < ng,
                    nr == groups[g as int].1@.len(),
                    rr <= nr,
                    self.inv(),
                    forall|k: int| 0 <= k < pos@.len() ==> {
                        let p = #[trigger] pos@[k];
                        p.0 < groups.len() && p.1 < groups[p.0 as int].1@.len()
                    },
                    spec_flat_rules(groups.subrange(0, g as int))
                        + groups[g as int].1@.subrange(0, rr as int).map_values(
                            |r: PayeeRules| (groups[g as int].0, r))
                        == spec_pos_map(groups, pos@),
                decreases nr - rr,
            {
                let ghost before = pos@;
                pos.push((g, rr));
                proof {
                    assert(spec_pos_map(groups, pos@)
                        =~= spec_pos_map(groups, before).push(
                            (groups[g as int].0, groups[g as int].1@[rr as int])));
                    assert(spec_flat_rules(groups.subrange(0, g as int))
                        + groups[g as int].1@.subrange(0, rr + 1).map_values(
                            |r: PayeeRules| (groups[g as int].0, r))
                        =~= spec_pos_map(groups, pos@));
                }
                rr = rr + 1;
            }
            proof {
                let sub1 = groups.subrange(0, g + 1);
                assert(sub1.drop_last() =~= groups.subrange(0, g as int));
                assert(sub1.last() == groups[g as int]);
                assert(groups[g as int].1@.subrange(0, nr as int) =~= groups[g as int].1@);
                assert(spec_flat_rules(sub1)
                    == spec_flat_rules(groups.subrange(0, g as int))
                        + groups[g as int].1@.map_values(
                            |r: PayeeRules| (groups[g as int].0, r)));
                assert(spec_flat_rules(groups.subrange(0, g + 1)) == spec_pos_map(groups, pos@));
            }
            g = g + 1;
        }
        proof {
            assert(groups.subrange(0, ng as int) =~= groups);
            assert(flat == spec_pos_map(groups, pos@));
            assert(flat.len() == pos@.len()) by {
                lemma_pos_map_len(groups, pos@);
            }
        }
        let total = pos.len();
        let mut j2: usize = 0;
        while j2 < total
            invariant
                total == pos@.len(),
                total == flat.len(),
                groups == self.payees@,
                flat == spec_flat_rules(groups),
                flat == spec_pos_map(groups, pos@),
                j2 <= total,
                self.inv(),
                forall|k: int| 0 <= k < pos@.len() ==> {
                    let p = #[trigger] pos@[k];
                    p.0 < groups.len() && p.1 < groups[p.0 as int].1@.len()
                },
                spec_first_dup(flat, 0) == spec_first_dup(flat, j2 as int),
            decreases total - j2,
        {
            let mut j1: usize = 0;
            while j1 < j2
                invariant
                    total == pos@.len(),
                    total == flat.len(),
                    groups == self.payees@,
                    flat == spec_flat_rules(groups),
                    flat == spec_pos_map(groups, pos@),
                    j1 <= j2 < total,
                    self.inv(),
                    forall|k: int| 0 <= k < pos@.len() ==> {
                        let p = #[trigger] pos@[k];
                        p.0 < groups.len() && p.1 < groups[p.0 as int].1@.len()
                    },
                    spec_first_dup(flat, 0) == spec_first_dup(flat, j2 as int),
                    spec_dup_scan(flat, j2 as int, 0) == spec_dup_scan(flat, j2 as int, j1 as int),
                decreases j2 - j1,
            {
                let p1 = pos[j1];
                let p2 = pos[j2];
                proof {
                    assert(flat[j1 as int] == (groups[p1.0 as int].0, groups[p1.0 as int].1@[p1.1 as int]));
                    assert(flat[j2 as int] == (groups[p2.0 as int].0, groups[p2.0 as int].1@[p2.1 as int]));
                }
                if self.payees[p1.0].1[p1.1].same_rule(&self.payees[p2.0].1[p2.1]) {
                    proof {
                        assert(spec_dup_scan(flat, j2 as int, j1 as int) == Some(j1 as int));
                        assert(spec_first_dup(flat, j2 as int) == Some((j1 as int, j2 as int)));
                    }
                    let na = &self.payees[p1.0].0;
                    let nb = &self.payees[p2.0].0;
                    let mut out = String::new();
                    out.append("The payees ");
                    if str_lt(na.as_str(), nb.as_str()) {
                        push_quoted(&mut out, na.as_str());
                        out.append(" and ");
                        push_quoted(&mut out, nb.as_str());
                    } else {
                        push_quoted(&mut out, nb.as_str());
                        out.append(" and ");
                        push_quoted(&mut out, na.as_str());
                    }
                    out.append(" both implement identical rules.");
                    proof {
                        assert(out@ =~= spec_dup_msg(flat[j1 as int].0@, flat[j2 as int].0@));
                    }
                    return Some(out);
                }
                proof {
                    assert(spec_dup_scan(flat, j2 as int, j1 as int)
                        == spec_dup_scan(flat, j2 as int, j1 + 1));
                }
                j1 = j1 + 1;
            }
            proof {
                assert(spec_dup_scan(flat, j2 as int, j2 as int) is None);
                assert(spec_first_dup(flat, j2 as int) == spec_first_dup(flat, j2 + 1));
            }
            j2 = j2 + 1;
        }
        proof {
            assert(spec_first_dup(flat, total as int) is None);
        }
        None
    }

    fn validate_mappings(&self) -> (r: Result<(), String>)
        ensures
            r.is_ok() == (spec_mappings_err(self.mappings.csv@) is None),
            r.is_err() ==> (r->Err_0)@ == spec_mappings_err(self.mappings.csv@).unwrap(),
    {
        let n = self.mappings.csv.len();
        let mut i: usize = 0;
        proof {
            assert(self.mappings.csv@.subrange(0, n as int) =~= self.mappings.csv@);
        }
        while i < n
            invariant
                n == self.mappings.csv@.len(),
                i <= n,
                spec_mappings_err(self.mappings.csv@)
                    == spec_mappings_err(self.mappings.csv@.subrange(i as int, n as int)),
            decreases n - i,
        {
            let ghost rest = self.mappings.csv@.subrange(i as int, n as int);
            proof {
                assert(rest[0] == self.mappings.csv@[i as int]);
                assert(rest.drop_first() =~= self.mappings.csv@.subrange(i + 1, n as int));
            }
            match self.mappings.csv[i].validate() {
                Ok(()) => {}
                Err(e) => {
                    return Err(e);
                }
            }
            i = i + 1;
        }
        Ok(())
    }

    fn validate_payee_filters(&self) -> (r: Result<(), String>)
        ensures
            r.is_ok() == (spec_payee_filters_err(self.payees@) is None),
            r.is_err() ==> (r->Err_0)@ == spec_payee_filters_err(self.payees@).unwrap(),
    {
        let n = self.payees.len();
        let mut i: usize = 0;
        proof {
            assert(self.payees@.subrange(0, n as int) =~= self.payees@);
        }
        while i < n
            invariant
                n == self.payees@.len(),
                i <= n,
                spec_payee_filters_err(self.payees@)
                    == spec_payee_filters_err(self.payees@.subrange(i as int, n as int)),
            decreases n - i,
        {
            let ghost rest = self.payees@.subrange(i as int, n as int);
            proof {
                assert(rest[0] == self.payees@[i as int]);
                assert(rest.drop_first() =~= self.payees@.subrange(i + 1, n as int));
            }
            match validate_payee_group(&self.payees[i].0, &self.payees[i].1) {
                Ok(()) => {}
                Err(e) => {
                    return Err(e);
                }
            }
            i = i + 1;
        }
        Ok(())
    }

    fn validate(&self) -> (r: Result<(), String>)
        requires
            self.inv(),
        ensures
            r.is_ok() ==> self.spec_content_err() is None,
            self.spec_content_err() is Some ==> r.is_err(),
            r.is_err() ==> ((r->Err_0)@ == spec_storage_err(self.paths.storage@)
                || (self.spec_content_err() is Some
                    && (r->Err_0)@ == self.spec_content_err().unwrap())),
    {
        match self.paths.validate() {
            Ok(()) => {}
            Err(e) => {
                return Err(e);
            }
        }
        match self.validate_mappings() {
            Ok(()) => {}
            Err(e) => {
                return Err(e);
            }
        }
        match self.find_duplicate() {
            None => {}
            Some(m) => {
                return Err(m);
            }
        }
        match self.validate_payee_filters() {
            Ok(()) => {}
            Err(e) => {
                return Err(e);
            }
        }
        if let Some(groups) = &self.categories {
            match validate_cm_groups("category", groups) {
                Ok(()) => {}
                Err(e) => {
                    return Err(e);
                }
            }
        }
        if let Some(groups) = &self.memos {
            match validate_cm_groups("memo", groups) {
                Ok(()) => {}
                Err(e) => {
                    return Err(e);
                }
            }
        }
        Ok(())
    }

    /// Run the transaction through the updating passes: payee, then
    /// category, then memo.
    pub fn update_transaction(&self, transaction: &mut NormalizedBankData)
        requires
            self.inv(),
            old(transaction).inv(),
        ensures
            final(transaction).inv(),
            self.spec_transaction_updated(*old(transaction), *final(transaction)),
    {
        self.update_payee(transaction);
        let ghost t1 = *transaction;
        self.update_category(transaction);
        let ghost t2 = *transaction;
        self.update_memo(transaction);
        proof {
            assert(self.spec_payee_updated(*old(transaction), t1)
                && self.spec_category_updated(t1, t2)
                && self.spec_memo_updated(t2, *final(transaction)));
        }
    }
}

} // verus!
