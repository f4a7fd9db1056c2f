//! The per-account transaction pipeline: parse each input file, select
//! its account profile by the header row, normalize and reclassify each
//! row, prune rows outside the account's date window, and serialize the
//! survivors.

use vstd::prelude::*;
use crate::NormalizedBankData;
use crate::spec_raw_row_err;
use crate::dates::{Date, spec_date_text, format_date};
use crate::mapping::MappingRulesCsv;
use crate::row::StringMap;
use crate::rules::{RuleFileData, spec_select_mapping};
use crate::strutil::{spec_dec, push_dec_u32, push_char_at, push_quoted, spec_quoted};
use crate::timestamps::{TimestampKeeper, spec_get_stamp, spec_advanced};

verus! {

/// What the reader of comma-separated text yields: the header row and
/// the records, each record as long as the header row, or nothing when
/// the text is malformed.
pub uninterp spec fn spec_csv_table(text: Seq<char>) -> Option<(Seq<Seq<char>>, Seq<Seq<Seq<char>>>)>;

/// Relies on `csv::Reader::from_reader`, `Reader::headers` and
/// `Reader::records`: the first row is the header, every record has
/// exactly as many fields as the header, a malformed record fails the
/// whole read, and the result is a function of the text alone.
#[verifier::external_body]
fn csv_parse(text: &str) -> (r: Option<(Vec<String>, Vec<Vec<String>>)>)
    ensures
        r.is_some() == spec_csv_table(text@).is_some(),
        r.is_some() ==> {
            let (headers, rows) = r.unwrap();
            spec_csv_table(text@) == Some((headers.deep_view(), rows.deep_view()))
            && forall|i: int| 0 <= i < rows.deep_view().len()
                ==> (#[trigger] rows.deep_view()[i]).len() == headers.deep_view().len()
        },
{
    let mut rdr = csv::Reader::from_reader(text.as_bytes());
    let headers: Vec<String> = match rdr.headers() {
        Ok(h) => h.iter().map(|x| x.to_string()).collect(),
        Err(_) => return None,
    };
    let mut rows: Vec<Vec<String>> = Vec::new();
    for rec in rdr.records() {
        match rec {
            Ok(row) => rows.push(row.iter().map(|x| x.to_string()).collect()),
            Err(_) => return None,
        }
    }
    Some((headers, rows))
}

/// The row table denoted by a header row and one record: each column
/// name maps to the field below it; under a repeated name the later
/// field wins.
pub open spec fn spec_zip_row(headers: Seq<Seq<char>>, fields: Seq<Seq<char>>) -> Map<Seq<char>, Seq<char>>
    decreases headers.len(),
{
    if headers.len() == 0 || fields.len() == 0 {
        Map::empty()
    } else {
        spec_zip_row(headers.drop_last(), fields.drop_last())
            .insert(headers.last(), fields.last())
    }
}

/// Build the row table of one record under the header row.
pub fn build_row(headers: &Vec<String>, fields: &Vec<String>) -> (r: StringMap)
    requires
        headers@.len() == fields@.len(),
    ensures
        r.inv(),
        r@ == spec_zip_row(headers.deep_view(), fields.deep_view()),
{
    let mut out = StringMap::new();
    let n = headers.len();
    let mut i: usize = 0;
    proof {
        assert(headers.deep_view().subrange(0, 0) =~= Seq::<Seq<char>>::empty());
        assert(spec_zip_row(
            headers.deep_view().subrange(0, 0),
            fields.deep_view().subrange(0, 0),
        ) =~= Map::<Seq<char>, Seq<char>>::empty());
    }
    while i < n
        invariant
            n == headers@.len(),
            n == fields@.len(),
            i <= n,
            out.inv(),
            out@ == spec_zip_row(
                headers.deep_view().subrange(0, i as int),
                fields.deep_view().subrange(0, i as int),
            ),
        decreases n - i,
    {
        out.insert(headers[i].clone(), fields[i].clone());
        proof {
            let hc = headers.deep_view().subrange(0, i + 1);
            let fc = fields.deep_view().subrange(0, i + 1);
            assert(hc.drop_last() =~= headers.deep_view().subrange(0, i as int));
            assert(fc.drop_last() =~= fields.deep_view().subrange(0, i as int));
            assert(hc.last() == headers.deep_view()[i as int]);
            assert(fc.last() == fields.deep_view()[i as int]);
        }
        i = i + 1;
    }
    proof {
        assert(headers.deep_view().subrange(0, n as int) =~= headers.deep_view());
        assert(fields.deep_view().subrange(0, n as int) =~= fields.deep_view());
    }
    out
}

/// Whether `t` is what processing one raw row yields: the row is
/// remapped by the profile, normalized, and run through the three
/// reclassification passes.
pub open spec fn spec_row_processed(
    rules: RuleFileData,
    mapping: MappingRulesCsv,
    row: Map<Seq<char>, Seq<char>>,
    t: NormalizedBankData,
) -> bool {
    exists|t0: NormalizedBankData|
        #[trigger] t0.spec_from_raw(mapping.spec_remap(row), mapping.negate, mapping.date_fmt@)
        && rules.spec_transaction_updated(t0, t)
}

/// The first rejection among the records of one file, if any, in record
/// order.
pub open spec fn spec_rows_err(
    mapping: MappingRulesCsv,
    headers: Seq<Seq<char>>,
    rows: Seq<Seq<Seq<char>>>,
) -> Option<Seq<char>>
    decreases rows.len(),
{
    if rows.len() == 0 {
        None
    } else {
        let head = spec_raw_row_err(
            mapping.spec_remap(spec_zip_row(headers, rows[0])),
            mapping.date_fmt@,
            mapping.label@,
        );
        if head is Some {
            head
        } else {
            spec_rows_err(mapping, headers, rows.drop_first())
        }
    }
}

/// The message for a file whose text the reader rejects.
pub open spec fn spec_csv_read_err(path: Seq<char>) -> Seq<char> {
    "Cannot read the transactions in the file "@ + spec_quoted(path)
}

/// The message for a file whose header row no mapping profile matches.
pub open spec fn spec_unknown_account_err(path: Seq<char>) -> Seq<char> {
    "No rules are defined for the account corresponding to file "@ + spec_quoted(path)
}

/// The first reason one file is rejected, if any: unreadable text, an
/// unrecognized header row, then the first rejected record.
pub open spec fn spec_file_err(rules: RuleFileData, path: Seq<char>, text: Seq<char>) -> Option<Seq<char>> {
    match spec_csv_table(text) {
        None => Some(spec_csv_read_err(path)),
        Some((headers, rows)) => match spec_select_mapping(rules.mappings.csv@, headers) {
            None => Some(spec_unknown_account_err(path)),
            Some(mi) => spec_rows_err(rules.mappings.csv@[mi], headers, rows),
        },
    }
}

/// The first reason the batch of files is rejected, if any, in file order.
pub open spec fn spec_files_err(rules: RuleFileData, files: Seq<(String, String)>) -> Option<Seq<char>>
    decreases files.len(),
{
    if files.len() == 0 {
        None
    } else {
        let head = spec_file_err(rules, files[0].0@, files[0].1@);
        if head is Some {
            head
        } else {
            spec_files_err(rules, files.drop_first())
        }
    }
}

/// Processing and storage of one account's transaction data.
#[derive(Debug)]
pub struct TransactionProcessor {
    /// The transactions accumulated for this account.
    pub transactions: Vec<NormalizedBankData>,
    /// The index of this account's mapping profile in the rule store.
    pub mapping_idx: usize,
}

/// The transactions that pruning with the given window retains: those
/// with a nonzero amount whose day lies in `[start, end]`, in order.
pub open spec fn spec_pruned(
    ts: Seq<NormalizedBankData>,
    start: Date,
    end: Date,
) -> Seq<NormalizedBankData>
    decreases ts.len(),
{
    if ts.len() == 0 {
        ts
    } else {
        let rest = spec_pruned(ts.drop_last(), start, end);
        if ts.last().spec_skipme(start, end) {
            rest
        } else {
            rest.push(ts.last())
        }
    }
}

/// Pruning a second time with the same window changes nothing.
pub proof fn lemma_prune_idempotent(ts: Seq<NormalizedBankData>, start: Date, end: Date)
    ensures
        spec_pruned(spec_pruned(ts, start, end), start, end) == spec_pruned(ts, start, end),
    decreases ts.len(),
{
    if ts.len() > 0 {
        lemma_prune_idempotent(ts.drop_last(), start, end);
        if !ts.last().spec_skipme(start, end) {
            let rest = spec_pruned(ts.drop_last(), start, end);
            assert(rest.push(ts.last()).drop_last() =~= rest);
        }
    }
}

impl TransactionProcessor {
    /// Every accumulated transaction is well formed.
    pub open spec fn txns_inv(self) -> bool {
        forall|i: int| 0 <= i < self.transactions@.len()
            ==> (#[trigger] self.transactions@[i]).inv()
    }

    /// An empty batch for the profile at the given index.
    pub fn new(mapping_idx: usize) -> (r: TransactionProcessor)
        ensures
            r.transactions@.len() == 0,
            r.mapping_idx == mapping_idx,
            r.txns_inv(),
    {
        TransactionProcessor { transactions: Vec::new(), mapping_idx }
    }

    /// Remove any transaction that should not remain: one with a zero
    /// amount, or one dated outside `[start_date, end_date]`.
    pub fn drop_uneeded(&mut self, start_date: &Date, end_date: &Date)
        requires
            old(self).txns_inv(),
        ensures
            final(self).txns_inv(),
            final(self).mapping_idx == old(self).mapping_idx,
            final(self).transactions@
                == spec_pruned(old(self).transactions@, *start_date, *end_date),
    {
        let n = self.transactions.len();
        let mut kept: Vec<NormalizedBankData> = Vec::new();
        let mut i: usize = 0;
        proof {
            assert(old(self).transactions@.subrange(0, 0) =~= Seq::<NormalizedBankData>::empty());
        }
        let ghost orig = self.transactions@;
        while i < n
            invariant
                n == orig.len(),
                i <= n,
                orig == self.transactions@,
                old(self).transactions@ == orig,
                forall|k: int| 0 <= k < orig.len() ==> (#[trigger] orig[k]).inv(),
                forall|k: int| 0 <= k < kept@.len() ==> (#[trigger] kept@[k]).inv(),
                kept@ == spec_pruned(orig.subrange(0, i as int), *start_date, *end_date),
            decreases n - i,
        {
            let t = &self.transactions[i];
            let keep = !t.skipme(start_date, end_date);
            proof {
                let cur = orig.subrange(0, i + 1);
                assert(cur.drop_last() =~= orig.subrange(0, i as int));
                assert(cur.last() == orig[i as int]);
            }
            if keep {
                let owned = clone_txn(t);
                kept.push(owned);
            }
            i = i + 1;
        }
        proof {
            assert(orig.subrange(0, n as int) =~= orig);
        }
        self.transactions = kept;
    }
}

/// Whether a field must be quoted in comma-separated output: it holds a
/// comma, a quote, or a line break.
pub open spec fn spec_needs_quote(s: Seq<char>) -> bool {
    exists|i: int| 0 <= i < s.len()
        && ((#[trigger] s[i]) == ',' || s[i] == '"' || s[i] == '\n' || s[i] == '\r')
}

/// A field with each quote doubled.
pub open spec fn spec_csv_escape(s: Seq<char>) -> Seq<char>
    decreases s.len(),
{
    if s.len() == 0 {
        s
    } else {
        spec_csv_escape(s.drop_last())
            + (if s.last() == '"' { seq!['"', '"'] } else { seq![s.last()] })
    }
}

/// A field as it appears in comma-separated output: quoted and escaped
/// only when it must be.
pub open spec fn spec_csv_field(s: Seq<char>) -> Seq<char> {
    if spec_needs_quote(s) {
        seq!['"'] + spec_csv_escape(s) + seq!['"']
    } else {
        s
    }
}

/// An optional field: empty when absent.
pub open spec fn spec_opt_field(o: Option<String>) -> Seq<char> {
    match o {
        Some(s) => spec_csv_field(s@),
        None => Seq::empty(),
    }
}

/// The check-number field: a bare integer or empty.
pub open spec fn spec_check_field(o: Option<u32>) -> Seq<char> {
    match o {
        Some(n) => spec_dec(n as nat),
        None => Seq::empty(),
    }
}

/// One serialized transaction row, in the fixed column order Date,
/// Payee, Category, Memo, Amount, Check#; the original payee is never
/// emitted.
pub open spec fn spec_txn_row(t: NormalizedBankData) -> Seq<char> {
    spec_csv_field(spec_date_text(t.date)) + seq![','] + spec_csv_field(t.payee@) + seq![',']
        + spec_opt_field(t.category) + seq![','] + spec_opt_field(t.memo) + seq![',']
        + spec_csv_field(t.amount.spec_str()) + seq![','] + spec_check_field(t.check)
        + seq!['\n']
}

/// The serialized rows, in order.
pub open spec fn spec_txn_rows(ts: Seq<NormalizedBankData>) -> Seq<char>
    decreases ts.len(),
{
    if ts.len() == 0 {
        Seq::empty()
    } else {
        spec_txn_rows(ts.drop_last()) + spec_txn_row(ts.last())
    }
}

/// The serialized batch: the fixed header row and one row per
/// transaction; an empty batch serializes to nothing.
pub open spec fn spec_transactions_csv(ts: Seq<NormalizedBankData>) -> Seq<char> {
    if ts.len() == 0 {
        Seq::empty()
    } else {
        "Date,Payee,Category,Memo,Amount,Check#\n"@ + spec_txn_rows(ts)
    }
}

fn field_needs_quote(f: &str) -> (r: bool)
    ensures
        r == spec_needs_quote(f@),
{
    let len = f.unicode_len();
    let mut i: usize = 0;
    while i < len
        invariant
            len == f@.len(),
            i <= len,
            forall|j: int| 0 <= j < i
                ==> !((#[trigger] f@[j]) == ',' || f@[j] == '"' || f@[j] == '\n' || f@[j] == '\r'),
        decreases len - i,
    {
        let c = f.get_char(i);
        if c == ',' || c == '"' || c == '\n' || c == '\r' {
            return true;
        }
        i = i + 1;
    }
    false
}

/// Append a field to the output, quoting and escaping it when needed.
fn push_csv_field(out: &mut String, f: &str)
    ensures
        final(out)@ == old(out)@ + spec_csv_field(f@),
{
    if !field_needs_quote(f) {
        out.append(f);
        return;
    }
    proof {
        reveal_strlit("\"");
    }
    out.append("\"");
    let len = f.unicode_len();
    let mut i: usize = 0;
    proof {
        assert(f@.subrange(0, 0) =~= Seq::<char>::empty());
        assert(spec_csv_escape(f@.subrange(0, 0)) =~= Seq::<char>::empty());
        assert(out@ =~= old(out)@ + seq!['"'] + spec_csv_escape(f@.subrange(0, 0)));
    }
    while i < len
        invariant
            len == f@.len(),
            i <= len,
            out@ == old(out)@ + seq!['"'] + spec_csv_escape(f@.subrange(0, i as int)),
        decreases len - i,
    {
        let c = f.get_char(i);
        proof {
            reveal_strlit("\"\"");
        }
        if c == '"' {
            out.append("\"\"");
        } else {
            push_char_at(out, f, i);
        }
        proof {
            let cur = f@.subrange(0, i + 1);
            assert(cur.drop_last() =~= f@.subrange(0, i as int));
            assert(cur.last() == f@[i as int]);
            assert(out@ =~= old(out)@ + seq!['"'] + spec_csv_escape(cur));
        }
        i = i + 1;
    }
    proof {
        reveal_strlit("\"");
    }
    out.append("\"");
    proof {
        assert(f@.subrange(0, len as int) =~= f@);
        assert(final(out)@ =~= old(out)@ + spec_csv_field(f@));
    }
}

/// Append one serialized transaction row to the output.
#[verifier::rlimit(100)]
fn push_txn_row(out: &mut String, t: &NormalizedBankData)
    requires
        t.inv(),
    ensures
        final(out)@ == old(out)@ + spec_txn_row(*t),
{
    proof {
        reveal_strlit(",");
        reveal_strlit("\n");
    }
    let date_text = format_date(&t.date);
    push_csv_field(out, date_text.as_str());
    out.append(",");
    proof {
        assert(out@ =~= old(out)@ + spec_csv_field(spec_date_text(t.date)) + seq![',']);
    }
    push_csv_field(out, t.payee.as_str());
    out.append(",");
    let ghost part2 = old(out)@ + spec_csv_field(spec_date_text(t.date)) + seq![',']
        + spec_csv_field(t.payee@) + seq![','];
    proof {
        assert(out@ =~= part2);
    }
    match &t.category {
        Some(c) => push_csv_field(out, c.as_str()),
        None => {}
    }
    out.append(",");
    let ghost part3 = part2 + spec_opt_field(t.category) + seq![','];
    proof {
        assert(out@ =~= part3);
    }
    match &t.memo {
        Some(m) => push_csv_field(out, m.as_str()),
        None => {}
    }
    out.append(",");
    let ghost part4 = part3 + spec_opt_field(t.memo) + seq![','];
    proof {
        assert(out@ =~= part4);
    }
    let amount_text = t.amount.to_text();
    push_csv_field(out, amount_text.as_str());
    out.append(",");
    let ghost part5 = part4 + spec_csv_field(t.amount.spec_str()) + seq![','];
    proof {
        assert(out@ =~= part5);
    }
    match &t.check {
        Some(cn) => push_dec_u32(out, *cn),
        None => {}
    }
    out.append("\n");
    proof {
        assert(out@ =~= part5 + spec_check_field(t.check) + seq!['\n']);
        assert(final(out)@ =~= old(out)@ + spec_txn_row(*t));
    }
}

impl TransactionProcessor {
    /// Return the serialized form of the accumulated transactions: the
    /// fixed header row, then one row each, or nothing when the batch
    /// is empty.
    pub fn get_transactions_as_csv(&self) -> (r: String)
        requires
            self.txns_inv(),
        ensures
            r@ == spec_transactions_csv(self.transactions@),
    {
        let n = self.transactions.len();
        if n == 0 {
            let out = String::new();
            proof {
                assert(out@ =~= spec_transactions_csv(self.transactions@));
            }
            return out;
        }
        let mut out = String::new();
        out.append("Date,Payee,Category,Memo,Amount,Check#\n");
        let ghost header = "Date,Payee,Category,Memo,Amount,Check#\n"@;
        let mut i: usize = 0;
        proof {
            assert(self.transactions@.subrange(0, 0) =~= Seq::<NormalizedBankData>::empty());
            assert(spec_txn_rows(self.transactions@.subrange(0, 0)) =~= Seq::<char>::empty());
            assert(out@ =~= header + spec_txn_rows(self.transactions@.subrange(0, 0)));
        }
        while i < n
            invariant
                n == self.transactions@.len(),
                i <= n,
                self.txns_inv(),
                out@ == header + spec_txn_rows(self.transactions@.subrange(0, i as int)),
            decreases n - i,
        {
            let t = &self.transactions[i];
            push_txn_row(&mut out, t);
            proof {
                let cur = self.transactions@.subrange(0, i + 1);
                assert(cur.drop_last() =~= self.transactions@.subrange(0, i as int));
                assert(cur.last() == self.transactions@[i as int]);
                assert(out@ =~= header + spec_txn_rows(cur));
            }
            i = i + 1;
        }
        proof {
            assert(self.transactions@.subrange(0, n as int) =~= self.transactions@);
        }
        out
    }
}

/// Normalize and reclassify every record of one file under its mapping
/// profile, in record order.
fn process_rows(
    rules: &RuleFileData,
    mapping_idx: usize,
    headers: &Vec<String>,
    rows: &Vec<Vec<String>>,
) -> (r: Result<Vec<NormalizedBankData>, String>)
    requires
        rules.inv(),
        mapping_idx < rules.mappings.csv@.len(),
        forall|i: int| 0 <= i < rows.deep_view().len()
            ==> (#[trigger] rows.deep_view()[i]).len() == headers.deep_view().len(),
    ensures
        ({
            let mapping = rules.mappings.csv@[mapping_idx as int];
            match r {
                Ok(ts) => {
                    &&& spec_rows_err(mapping, headers.deep_view(), rows.deep_view()) is None
                    &&& ts@.len() == rows@.len()
                    &&& forall|i: int| 0 <= i < ts@.len() ==> (#[trigger] ts@[i]).inv()
                        && spec_row_processed(
                            *rules,
                            mapping,
                            spec_zip_row(headers.deep_view(), rows.deep_view()[i]),
                            ts@[i],
                        )
                },
                Err(e) => spec_rows_err(mapping, headers.deep_view(), rows.deep_view()) is Some
                    && e@ == spec_rows_err(mapping, headers.deep_view(), rows.deep_view()).unwrap(),
            }
        }),
{
    let ghost mapping_spec = rules.mappings.csv@[mapping_idx as int];
    let ghost hdv = headers.deep_view();
    let ghost rdv = rows.deep_view();
    let mapping = &rules.mappings.csv[mapping_idx];
    let n = rows.len();
    let mut ts: Vec<NormalizedBankData> = Vec::new();
    let mut i: usize = 0;
    proof {
        assert(rdv.subrange(0, n as int) =~= rdv);
        assert(rdv.len() == rows@.len());
    }
    while i < n
        invariant
            n == rows@.len(),
            n == rdv.len(),
            i <= n,
            rules.inv(),
            mapping_idx < rules.mappings.csv@.len(),
            mapping_spec == rules.mappings.csv@[mapping_idx as int],
            *mapping == mapping_spec,
            hdv == headers.deep_view(),
            rdv == rows.deep_view(),
            forall|k: int| 0 <= k < rdv.len() ==> (#[trigger] rdv[k]).len() == hdv.len(),
            spec_rows_err(mapping_spec, hdv, rdv)
                == spec_rows_err(mapping_spec, hdv, rdv.subrange(i as int, n as int)),
            ts@.len() == i,
            forall|k: int| 0 <= k < ts@.len() ==> (#[trigger] ts@[k]).inv()
                && spec_row_processed(*rules, mapping_spec, spec_zip_row(hdv, rdv[k]), ts@[k]),
        decreases n - i,
    {
        let ghost rest = rdv.subrange(i as int, n as int);
        proof {
            assert(rest[0] == rdv[i as int]);
            assert(rest.drop_first() =~= rdv.subrange(i + 1, n as int));
            assert(rows.deep_view()[i as int] == rows@[i as int].deep_view());
        }
        let row = build_row(headers, &rows[i]);
        let remapped = mapping.remap(row);
        match NormalizedBankData::from_raw_data(
            &remapped,
            mapping.negate,
            mapping.date_fmt.as_str(),
            mapping.label.as_str(),
        ) {
            Ok(mut t) => {
                let ghost t0 = t;
                rules.update_transaction(&mut t);
                proof {
                    assert(t0.spec_from_raw(
                        mapping_spec.spec_remap(spec_zip_row(hdv, rdv[i as int])),
                        mapping_spec.negate,
                        mapping_spec.date_fmt@,
                    ));
                    assert(spec_row_processed(
                        *rules,
                        mapping_spec,
                        spec_zip_row(hdv, rdv[i as int]),
                        t,
                    ));
                }
                ts.push(t);
            }
            Err(e) => {
                return Err(e);
            }
        }
        i = i + 1;
    }
    Ok(ts)
}

/// The rows of one file that belong to the given account label, each
/// paired with the index of the profile that the file's header
/// selected: all of its records when that profile carries the label,
/// none otherwise.
pub open spec fn spec_file_contrib(
    csv: Seq<MappingRulesCsv>,
    file: (String, String),
    label: Seq<char>,
) -> Seq<(int, Map<Seq<char>, Seq<char>>)> {
    match spec_csv_table(file.1@) {
        None => Seq::empty(),
        Some((headers, rows)) => match spec_select_mapping(csv, headers) {
            None => Seq::empty(),
            Some(mi) => if csv[mi].label@ == label {
                rows.map_values(|fields: Seq<Seq<char>>| (mi, spec_zip_row(headers, fields)))
            } else {
                Seq::empty()
            },
        },
    }
}

/// The rows of a batch of files that belong to the given account label,
/// in file order, each paired with its profile index.
pub open spec fn spec_label_rows(
    csv: Seq<MappingRulesCsv>,
    files: Seq<(String, String)>,
    label: Seq<char>,
) -> Seq<(int, Map<Seq<char>, Seq<char>>)>
    decreases files.len(),
{
    if files.len() == 0 {
        Seq::empty()
    } else {
        spec_label_rows(csv, files.drop_last(), label) + spec_file_contrib(csv, files.last(), label)
    }
}

/// Whether a batch holds exactly the processing of the given rows, in
/// order, each under its own profile.
pub open spec fn spec_batch_content(
    rules: RuleFileData,
    csv: Seq<MappingRulesCsv>,
    rows: Seq<(int, Map<Seq<char>, Seq<char>>)>,
    ts: Seq<NormalizedBankData>,
) -> bool {
    ts.len() == rows.len()
    && forall|i: int| 0 <= i < ts.len() ==> {
        let (mi, row) = #[trigger] rows[i];
        0 <= mi < csv.len() && spec_row_processed(rules, csv[mi], row, ts[i])
    }
}

/// A label no file selects gathers no rows.
proof fn lemma_label_rows_empty(
    csv: Seq<MappingRulesCsv>,
    files: Seq<(String, String)>,
    label: Seq<char>,
)
    requires
        forall|f: int| 0 <= f < files.len()
            ==> spec_file_contrib(csv, #[trigger] files[f], label)
                == Seq::<(int, Map<Seq<char>, Seq<char>>)>::empty(),
    ensures
        spec_label_rows(csv, files, label) == Seq::<(int, Map<Seq<char>, Seq<char>>)>::empty(),
    decreases files.len(),
{
    if files.len() > 0 {
        let head = files.drop_last();
        assert(forall|f: int| 0 <= f < head.len() ==> head[f] == files[f]);
        lemma_label_rows_empty(csv, head, label);
        assert(files.last() == files[files.len() - 1]);
        assert(spec_label_rows(csv, files, label)
            =~= Seq::<(int, Map<Seq<char>, Seq<char>>)>::empty());
    }
}

/// Extending a batch of files by one file extends each label's rows by
/// that file's contribution.
proof fn lemma_label_rows_snoc(
    csv: Seq<MappingRulesCsv>,
    files: Seq<(String, String)>,
    f: int,
    label: Seq<char>,
)
    requires
        0 <= f < files.len(),
    ensures
        spec_label_rows(csv, files.subrange(0, f + 1), label)
            == spec_label_rows(csv, files.subrange(0, f), label)
                + spec_file_contrib(csv, files[f], label),
{
    let pre1 = files.subrange(0, f + 1);
    assert(pre1.drop_last() =~= files.subrange(0, f));
    assert(pre1.last() == files[f]);
}

fn find_processor(procs: &Vec<(String, TransactionProcessor)>, label: &String) -> (r: Option<usize>)
    ensures
        match r {
            Some(k) => k < procs@.len() && procs@[k as int].0@ == label@,
            None => forall|k: int| 0 <= k < procs@.len() ==> (#[trigger] procs@[k]).0@ != label@,
        },
{
    let n = procs.len();
    let mut k: usize = 0;
    while k < n
        invariant
            n == procs@.len(),
            k <= n,
            forall|j: int| 0 <= j < k ==> (#[trigger] procs@[j]).0@ != label@,
        decreases n - k,
    {
        if crate::strutil::str_eq(procs[k].0.as_str(), label.as_str()) {
            return Some(k);
        }
        k = k + 1;
    }
    None
}

/// Given a batch of input files as path/text pairs, group their rows by
/// detected account, normalize and reclassify each row, and return one
/// batch per account, in order of first appearance.
pub fn process_csv_files(
    files: &Vec<(String, String)>,
    rules: &RuleFileData,
) -> (r: Result<Vec<(String, TransactionProcessor)>, String>)
    requires
        rules.inv(),
    ensures
        r.is_ok() == (spec_files_err(*rules, files@) is None),
        r.is_err() ==> (r->Err_0)@ == spec_files_err(*rules, files@).unwrap(),
        r.is_ok() ==> {
            let procs = r.unwrap()@;
            let csv = rules.mappings.csv@;
            &&& (forall|a: int, b: int| 0 <= a < b < procs.len()
                ==> (#[trigger] procs[a]).0@ != (#[trigger] procs[b]).0@)
            &&& (forall|k: int| 0 <= k < procs.len() ==> {
                let p = (#[trigger] procs[k]).1;
                &&& p.mapping_idx < csv.len()
                &&& csv[p.mapping_idx as int].label@ == procs[k].0@
                &&& p.txns_inv()
                &&& spec_batch_content(
                    *rules,
                    csv,
                    spec_label_rows(csv, files@, procs[k].0@),
                    p.transactions@,
                )
            })
            &&& (forall|g: int| 0 <= g < files@.len()
                ==> (#[trigger] spec_file_contrib_label(csv, files@[g])) is Some
                    && exists|k: int| 0 <= k < procs.len()
                        && (#[trigger] procs[k]).0@ == spec_file_contrib_label(csv, files@[g]).unwrap())
        },
{
    let ghost csv = rules.mappings.csv@;
    let mut procs: Vec<(String, TransactionProcessor)> = Vec::new();
    let n = files.len();
    let mut f: usize = 0;
    proof {
        assert(files@.subrange(0, n as int) =~= files@);
    }
    while f < n
        invariant
            n == files@.len(),
            f <= n,
            rules.inv(),
            csv == rules.mappings.csv@,
            spec_files_err(*rules, files@)
                == spec_files_err(*rules, files@.subrange(f as int, n as int)),
            forall|a: int, b: int| 0 <= a < b < procs@.len()
                ==> (#[trigger] procs@[a]).0@ != (#[trigger] procs@[b]).0@,
            forall|k: int| 0 <= k < procs@.len() ==> {
                let p = (#[trigger] procs@[k]).1;
                &&& p.mapping_idx < csv.len()
                &&& csv[p.mapping_idx as int].label@ == procs@[k].0@
                &&& p.txns_inv()
                &&& spec_batch_content(
                    *rules,
                    csv,
                    spec_label_rows(csv, files@.subrange(0, f as int), procs@[k].0@),
                    p.transactions@,
                )
            },
            forall|g: int| 0 <= g < f
                ==> (#[trigger] spec_file_contrib_label(csv, files@[g])) is Some
                    && exists|k: int| 0 <= k < procs@.len()
                        && (#[trigger] procs@[k]).0@ == spec_file_contrib_label(csv, files@[g]).unwrap(),
        decreases n - f,
    {
        let ghost rest = files@.subrange(f as int, n as int);
        proof {
            assert(rest[0] == files@[f as int]);
            assert(rest.drop_first() =~= files@.subrange(f + 1, n as int));
        }
        let table = csv_parse(files[f].1.as_str());
        let (headers, rows) = match table {
            Some(pair) => pair,
            None => {
                let mut out = String::new();
                out.append("Cannot read the transactions in the file ");
                push_quoted(&mut out, files[f].0.as_str());
                proof {
                    assert(out@ =~= spec_csv_read_err(files@[f as int].0@));
                }
                return Err(out);
            }
        };
        let (mi, mapping) = match rules.get_csv_mapping_rules(&headers) {
            Some(pair) => pair,
            None => {
                let mut out = String::new();
                out.append("No rules are defined for the account corresponding to file ");
                push_quoted(&mut out, files[f].0.as_str());
                proof {
                    assert(out@ =~= spec_unknown_account_err(files@[f as int].0@));
                }
                return Err(out);
            }
        };
        let label = mapping.label.clone();
        let ghost hdv = headers.deep_view();
        let ghost rdv = rows.deep_view();
        let ghost added_rows = spec_file_contrib(csv, files@[f as int], label@);
        proof {
            assert(added_rows =~= rdv.map_values(
                |fields: Seq<Seq<char>>| (mi as int, spec_zip_row(hdv, fields))));
        }
        let ts = match process_rows(rules, mi, &headers, &rows) {
            Ok(ts) => ts,
            Err(e) => {
                return Err(e);
            }
        };
        let idx = match find_processor(&procs, &label) {
            Some(k) => k,
            None => {
                let fresh = TransactionProcessor::new(mi);
                let ghost procs_old = procs@;
                procs.push((label.clone(), fresh));
                proof {
                    // a label that had no processor gathered no rows
                    // from the earlier files
                    let prefix = files@.subrange(0, f as int);
                    assert forall|g: int| 0 <= g < prefix.len()
                        implies spec_file_contrib(csv, #[trigger] prefix[g], label@)
                            == Seq::<(int, Map<Seq<char>, Seq<char>>)>::empty() by {
                        assert(prefix[g] == files@[g]);
                        if spec_file_contrib(csv, prefix[g], label@)
                            != Seq::<(int, Map<Seq<char>, Seq<char>>)>::empty() {
                            assert(spec_file_contrib_label(csv, files@[g]) is Some
                                && spec_file_contrib_label(csv, files@[g]).unwrap() == label@);
                            let k0 = choose|k: int| 0 <= k < procs_old.len()
                                && (#[trigger] procs_old[k]).0@
                                    == spec_file_contrib_label(csv, files@[g]).unwrap();
                            assert(procs_old[k0].0@ == label@);
                        }
                    }
                    lemma_label_rows_empty(csv, prefix, label@);
                    assert(procs@.drop_last() =~= procs_old);
                }
                procs.len() - 1
            }
        };
        let mut ts_vec = ts;
        let ghost procs_before = procs@;
        let ghost ts_view = ts_vec@;
        let entry = procs.remove(idx);
        let entry_label = entry.0;
        let mut proc = entry.1;
        let ghost old_content = proc.transactions@;
        proc.transactions.append(&mut ts_vec);
        procs.insert(idx, (entry_label, proc));
        proof {
            assert(entry_label@ == label@);
            assert(procs_before.remove(idx as int).insert(idx as int, procs@[idx as int]) =~= procs@);
            assert(procs@ =~= procs_before.update(idx as int, procs@[idx as int]));
            assert(procs@[idx as int].0@ == label@);
            assert(procs@[idx as int].1.transactions@ == old_content + ts_view);
            assert(procs@[idx as int].1.mapping_idx == procs_before[idx as int].1.mapping_idx);
            // each processor's rows for the extended batch of files
            let prefix0 = files@.subrange(0, f as int);
            assert forall|k: int| 0 <= k < procs@.len() implies {
                let p = (#[trigger] procs@[k]).1;
                &&& p.mapping_idx < csv.len()
                &&& csv[p.mapping_idx as int].label@ == procs@[k].0@
                &&& p.txns_inv()
                &&& spec_batch_content(
                    *rules,
                    csv,
                    spec_label_rows(csv, files@.subrange(0, f + 1), procs@[k].0@),
                    p.transactions@,
                )
            } by {
                lemma_label_rows_snoc(csv, files@, f as int, procs@[k].0@);
                if k != idx {
                    assert(procs@[k] == procs_before[k]);
                    assert(procs@[k].0@ != label@);
                    assert(spec_file_contrib(csv, files@[f as int], procs@[k].0@)
                        =~= Seq::<(int, Map<Seq<char>, Seq<char>>)>::empty());
                    assert(spec_label_rows(csv, files@.subrange(0, f + 1), procs@[k].0@)
                        =~= spec_label_rows(csv, prefix0, procs@[k].0@));
                } else {
                    let old_rows = spec_label_rows(csv, prefix0, label@);
                    let new_rows = spec_label_rows(csv, files@.subrange(0, f + 1), label@);
                    assert(new_rows == old_rows + added_rows);
                    let p = procs@[idx as int].1;
                    assert(spec_batch_content(*rules, csv, old_rows, old_content));
                    assert(old_content.len() == old_rows.len());
                    assert forall|i: int| 0 <= i < p.transactions@.len() implies {
                        let (mj, row) = #[trigger] new_rows[i];
                        0 <= mj < csv.len()
                            && spec_row_processed(*rules, csv[mj], row, p.transactions@[i])
                    } by {
                        if i < old_content.len() {
                            assert(new_rows[i] == old_rows[i]);
                            assert(p.transactions@[i] == old_content[i]);
                        } else {
                            let j = i - old_content.len();
                            assert(new_rows[i] == added_rows[j]);
                            assert(added_rows[j] == (mi as int, spec_zip_row(hdv, rdv[j])));
                            assert(p.transactions@[i] == ts_view[j]);
                            assert(spec_row_processed(
                                *rules, csv[mi as int], spec_zip_row(hdv, rdv[j]), ts_view[j]));
                        }
                    }
                    assert(p.txns_inv()) by {
                        assert forall|i: int| 0 <= i < p.transactions@.len()
                            implies (#[trigger] p.transactions@[i]).inv() by {
                            if i < old_content.len() {
                                assert(p.transactions@[i] == old_content[i]);
                            } else {
                                assert(p.transactions@[i] == ts_view[i - old_content.len()]);
                            }
                        }
                    }
                }
            }
            // every file seen so far has its label among the processors
            assert forall|g: int| 0 <= g < f + 1
                implies (#[trigger] spec_file_contrib_label(csv, files@[g])) is Some
                    && exists|k: int| 0 <= k < procs@.len()
                        && (#[trigger] procs@[k]).0@
                            == spec_file_contrib_label(csv, files@[g]).unwrap() by {
                if g == f {
                    assert(spec_file_contrib_label(csv, files@[g]) == Some(label@));
                    assert(procs@[idx as int].0@ == label@);
                } else {
                    let k0 = choose|k: int| 0 <= k < procs_before.len()
                        && (#[trigger] procs_before[k]).0@
                            == spec_file_contrib_label(csv, files@[g]).unwrap();
                    assert(procs@[k0].0@ == procs_before[k0].0@);
                }
            }
            assert(spec_files_err(*rules, files@.subrange(f as int, n as int))
                == spec_files_err(*rules, files@.subrange(f + 1, n as int)));
        }
        f = f + 1;
    }
    proof {
        assert(files@.subrange(0, n as int) =~= files@);
        assert(files@.subrange(f as int, n as int).len() == 0);
    }
    Ok(procs)
}

/// The label the file's header selects, if the file parses and a
/// profile matches.
pub open spec fn spec_file_contrib_label(
    csv: Seq<MappingRulesCsv>,
    file: (String, String),
) -> Option<Seq<char>> {
    match spec_csv_table(file.1@) {
        None => None,
        Some((headers, rows)) => match spec_select_mapping(csv, headers) {
            None => None,
            Some(mi) => Some(csv[mi].label@),
        },
    }
}

/// Account for the current date in all batches: prune each account's
/// accumulated rows to `[watermark, now]` and then advance that
/// account's watermark to `now`.
pub fn account_for_dates_in_transactions(
    now: &Date,
    all_transactions: &mut Vec<(String, TransactionProcessor)>,
    stamps: &mut TimestampKeeper,
)
    requires
        now.valid(),
        old(stamps).inv(),
        forall|a: int, b: int| 0 <= a < b < old(all_transactions)@.len()
            ==> (#[trigger] old(all_transactions)@[a]).0@ != (#[trigger] old(all_transactions)@[b]).0@,
        forall|k: int| 0 <= k < old(all_transactions)@.len()
            ==> (#[trigger] old(all_transactions)@[k]).1.txns_inv(),
    ensures
        final(stamps).inv(),
        final(all_transactions)@.len() == old(all_transactions)@.len(),
        forall|k: int| 0 <= k < old(all_transactions)@.len() ==> {
            let before = (#[trigger] old(all_transactions)@[k]);
            let after = final(all_transactions)@[k];
            &&& after.0 == before.0
            &&& after.1.mapping_idx == before.1.mapping_idx
            &&& after.1.txns_inv()
            &&& after.1.transactions@ == spec_pruned(
                before.1.transactions@,
                spec_get_stamp(old(stamps)@, before.0@),
                *now,
            )
        },
        forall|k: int| 0 <= k < old(all_transactions)@.len() ==> {
            let label = (#[trigger] old(all_transactions)@[k]).0@;
            final(stamps)@.contains_key(label)
                && final(stamps)@[label]
                    == spec_advanced(spec_get_stamp(old(stamps)@, label), *now)
        },
        forall|key: Seq<char>|
            (forall|k: int| 0 <= k < old(all_transactions)@.len()
                ==> (#[trigger] old(all_transactions)@[k]).0@ != key)
            ==> spec_get_stamp(#[trigger] final(stamps)@, key) == spec_get_stamp(old(stamps)@, key),
{
    let n = all_transactions.len();
    let mut i: usize = 0;
    while i < n
        invariant
            n == all_transactions@.len(),
            n == old(all_transactions)@.len(),
            i <= n,
            now.valid(),
            stamps.inv(),
            forall|a: int, b: int| 0 <= a < b < old(all_transactions)@.len()
                ==> (#[trigger] old(all_transactions)@[a]).0@
                    != (#[trigger] old(all_transactions)@[b]).0@,
            forall|k: int| i <= k < n
                ==> (#[trigger] all_transactions@[k]) == old(all_transactions)@[k],
            forall|k: int| 0 <= k < old(all_transactions)@.len()
                ==> (#[trigger] old(all_transactions)@[k]).1.txns_inv(),
            forall|k: int| 0 <= k < i ==> {
                let before = (#[trigger] old(all_transactions)@[k]);
                let after = all_transactions@[k];
                &&& after.0 == before.0
                &&& after.1.mapping_idx == before.1.mapping_idx
                &&& after.1.txns_inv()
                &&& after.1.transactions@ == spec_pruned(
                    before.1.transactions@,
                    spec_get_stamp(old(stamps)@, before.0@),
                    *now,
                )
            },
            forall|k: int| 0 <= k < i ==> {
                let label = (#[trigger] old(all_transactions)@[k]).0@;
                stamps@.contains_key(label)
                    && stamps@[label] == spec_advanced(spec_get_stamp(old(stamps)@, label), *now)
            },
            forall|key: Seq<char>|
                (forall|k: int| 0 <= k < i
                    ==> (#[trigger] old(all_transactions)@[k]).0@ != key)
                ==> spec_get_stamp(#[trigger] stamps@, key) == spec_get_stamp(old(stamps)@, key),
        decreases n - i,
    {
        let ghost pre = all_transactions@;
        let entry = all_transactions.remove(i);
        let label = entry.0;
        let mut proc = entry.1;
        proof {
            pre.remove_ensures(i as int);
            assert(entry == pre[i as int]);
            assert(pre[i as int] == old(all_transactions)@[i as int]);
            assert(old(all_transactions)@[i as int].0 == label);
            assert(spec_get_stamp(stamps@, label@) == spec_get_stamp(old(stamps)@, label@)) by {
                assert forall|k: int| 0 <= k < i
                    implies (#[trigger] old(all_transactions)@[k]).0@ != label@ by {
                    assert(old(all_transactions)@[k].0@ != old(all_transactions)@[i as int].0@);
                }
            }
        }
        let start = stamps.get_date(label.as_str());
        proc.drop_uneeded(&start, now);
        stamps.update_date(label.as_str(), now);
        let ghost procs_mid = all_transactions@;
        let new_entry = (label, proc);
        let ghost entv = new_entry;
        all_transactions.insert(i, new_entry);
        proof {
            procs_mid.insert_ensures(i as int, entv);
            assert(all_transactions@ == procs_mid.insert(i as int, entv));
            assert(all_transactions@[i as int] == entv);
            assert forall|k: int| 0 <= k < i
                implies (#[trigger] all_transactions@[k]) == pre[k] by {
                assert(all_transactions@[k] == procs_mid[k]);
                assert(procs_mid[k] == pre[k]);
            }
            assert forall|k: int| i + 1 <= k < n
                implies (#[trigger] all_transactions@[k]) == old(all_transactions)@[k] by {
                assert(all_transactions@[k] == procs_mid[k - 1]);
                assert(procs_mid[k - 1] == pre[k]);
            }
            assert(all_transactions@[i as int].0 == old(all_transactions)@[i as int].0);
            assert(all_transactions@[i as int].1.transactions@ == spec_pruned(
                old(all_transactions)@[i as int].1.transactions@,
                spec_get_stamp(old(stamps)@, old(all_transactions)@[i as int].0@),
                *now,
            ));
        }
        i = i + 1;
    }
}

/// A copy of a transaction, equal to the original in every field.
fn clone_txn(t: &NormalizedBankData) -> (r: NormalizedBankData)
    ensures
        r == *t,
{
    let category = match &t.category {
        Some(c) => Some(c.clone()),
        None => None,
    };
    let memo = match &t.memo {
        Some(m) => Some(m.clone()),
        None => None,
    };
    let check = match &t.check {
        Some(c) => Some(*c),
        None => None,
    };
    let r = NormalizedBankData {
        date: t.date,
        payee: t.payee.clone(),
        category,
        memo,
        amount: t.amount,
        check,
        orig_payee: t.orig_payee.clone(),
    };
    proof {
        assert(r.category == t.category);
        assert(r.memo == t.memo);
        assert(r.check == t.check);
    }
    r
}

} // verus!
