//! The timestamp keeper: the most recent date successfully processed
//! for each account, with monotonic advancement and deterministic,
//! sorted serialization.

use vstd::prelude::*;
use crate::dates::{Date, spec_date_text, format_date, date_lt};
use crate::strutil::{
    spec_str_le, spec_str_lt, str_lt, spec_escape, spec_quoted, push_escaped, push_quoted,
    string_eq_str, str_eq,
};

verus! {

/// Keeps track of the most recent dates seen for each account, enabling
/// the filtering of entries already seen.
#[derive(Debug)]
pub struct TimestampKeeper {
    dates: Vec<(String, Date)>,
}

/// The map denoted by a sequence of account/date entries; a later entry
/// with the same account overrides an earlier one.
pub open spec fn spec_stamp_map(entries: Seq<(String, Date)>) -> Map<Seq<char>, Date>
    decreases entries.len(),
{
    if entries.len() == 0 {
        Map::empty()
    } else {
        spec_stamp_map(entries.drop_last()).insert(entries.last().0@, entries.last().1)
    }
}

/// The watermark an account starts from when none is stored: an early
/// sentinel date that makes all historical transactions eligible.
pub open spec fn spec_early() -> Date {
    Date { year: 2000, month: 1, day: 1 }
}

/// The stored watermark of an account, or the early sentinel.
pub open spec fn spec_get_stamp(m: Map<Seq<char>, Date>, account: Seq<char>) -> Date {
    if m.contains_key(account) {
        m[account]
    } else {
        spec_early()
    }
}

/// The later of a current watermark and a candidate: the candidate only
/// when it is strictly greater.
pub open spec fn spec_advanced(current: Date, candidate: Date) -> Date {
    if current.spec_lt(candidate) {
        candidate
    } else {
        current
    }
}

/// Advancing with `d1` and then with an earlier `d2` leaves the store
/// exactly as it stood after `d1`: the watermark never regresses.
pub proof fn lemma_watermark_monotonic(
    m: Map<Seq<char>, Date>,
    account: Seq<char>,
    d1: Date,
    d2: Date,
)
    requires
        d2.spec_lt(d1),
    ensures
        ({
            let m1 = m.insert(account, spec_advanced(spec_get_stamp(m, account), d1));
            let m2 = m1.insert(account, spec_advanced(spec_get_stamp(m1, account), d2));
            m2 == m1 && spec_get_stamp(m1, account) == spec_advanced(spec_get_stamp(m, account), d1)
        }),
{
    let w = spec_advanced(spec_get_stamp(m, account), d1);
    let m1 = m.insert(account, w);
    assert(spec_get_stamp(m1, account) == w);
    assert(!w.spec_lt(d2));
    assert(spec_advanced(w, d2) == w);
    assert(m1.insert(account, w) =~= m1);
}

/// One serialized entry: an object holding the account and the date.
pub open spec fn spec_stamp_item(e: (String, Date)) -> Seq<char> {
    "  {\n    \"account\": \""@ + spec_escape(e.0@) + "\",\n    \"date\": \""@
        + spec_date_text(e.1) + "\"\n  }"@
}

/// The serialized entries, joined with commas.
pub open spec fn spec_stamp_items(entries: Seq<(String, Date)>) -> Seq<char>
    decreases entries.len(),
{
    if entries.len() == 0 {
        Seq::empty()
    } else if entries.len() == 1 {
        spec_stamp_item(entries[0])
    } else {
        spec_stamp_items(entries.drop_last()) + ",\n"@ + spec_stamp_item(entries.last())
    }
}

/// The serialized store: a two-space-indented array of entries.
pub open spec fn spec_stamps_json(entries: Seq<(String, Date)>) -> Seq<char> {
    if entries.len() == 0 {
        "[]"@
    } else {
        "[\n"@ + spec_stamp_items(entries) + "\n]"@
    }
}

/// Whether `entries` lists exactly the content of `m`, strictly sorted
/// by account name.
pub open spec fn spec_sorted_stamps(m: Map<Seq<char>, Date>, entries: Seq<(String, Date)>) -> bool {
    &&& (forall|k: int| 0 <= k < entries.len()
        ==> m.contains_key((#[trigger] entries[k]).0@) && m[entries[k].0@] == entries[k].1)
    &&& (forall|key: Seq<char>| m.contains_key(key)
        ==> exists|k: int| 0 <= k < entries.len() && (#[trigger] entries[k]).0@ == key)
    &&& (forall|k1: int, k2: int| 0 <= k1 < k2 < entries.len()
        ==> spec_str_lt((#[trigger] entries[k1]).0@, (#[trigger] entries[k2]).0@))
}

/// Distinct characters have distinct code points.
proof fn lemma_char_inj(c: char, d: char)
    requires
        c != d,
    ensures
        c as u32 != d as u32,
{
    if c as u32 == d as u32 {
        vstd::utf8::char_u32_cast(c, c as u32);
        vstd::utf8::char_u32_cast(d, d as u32);
    }
}

proof fn lemma_str_le_total(a: Seq<char>, b: Seq<char>)
    ensures
        spec_str_le(a, b) || spec_str_le(b, a),
    decreases a.len(),
{
    if a.len() == 0 {
        assert(spec_str_le(a, b));
    } else if b.len() == 0 {
        assert(spec_str_le(b, a));
    } else if a[0] == b[0] {
        lemma_str_le_total(a.subrange(1, a.len() as int), b.subrange(1, b.len() as int));
        assert(spec_str_le(a, b) == spec_str_le(
            a.subrange(1, a.len() as int), b.subrange(1, b.len() as int)));
        assert(spec_str_le(b, a) == spec_str_le(
            b.subrange(1, b.len() as int), a.subrange(1, a.len() as int)));
    } else {
        lemma_char_inj(a[0], b[0]);
        assert(spec_str_le(a, b) == ((a[0] as u32) < (b[0] as u32)));
        assert(spec_str_le(b, a) == ((b[0] as u32) < (a[0] as u32)));
    }
}

proof fn lemma_str_le_antisymmetric(a: Seq<char>, b: Seq<char>)
    requires
        spec_str_le(a, b),
        spec_str_le(b, a),
    ensures
        a == b,
    decreases a.len(),
{
    if a.len() == 0 {
        assert(b.len() == 0);
        assert(a =~= b);
    } else {
        assert(b.len() > 0);
        assert(a[0] == b[0]) by {
            if a[0] != b[0] {
                lemma_char_inj(a[0], b[0]);
                assert(spec_str_le(a, b) == ((a[0] as u32) < (b[0] as u32)));
                assert(spec_str_le(b, a) == ((b[0] as u32) < (a[0] as u32)));
            }
        }
        lemma_str_le_antisymmetric(
            a.subrange(1, a.len() as int),
            b.subrange(1, b.len() as int),
        );
        assert(forall|i: int| 1 <= i < a.len()
            ==> a[i] == a.subrange(1, a.len() as int)[i - 1]);
        assert(forall|i: int| 1 <= i < b.len()
            ==> b[i] == b.subrange(1, b.len() as int)[i - 1]);
        assert(a =~= b);
    }
}

proof fn lemma_str_le_trans(a: Seq<char>, b: Seq<char>, c: Seq<char>)
    requires
        spec_str_le(a, b),
        spec_str_le(b, c),
    ensures
        spec_str_le(a, c),
    decreases a.len(),
{
    if a.len() == 0 {
    } else if b.len() == 0 {
    } else if c.len() == 0 {
    } else {
        if a[0] == b[0] && b[0] == c[0] {
            lemma_str_le_trans(
                a.subrange(1, a.len() as int),
                b.subrange(1, b.len() as int),
                c.subrange(1, c.len() as int),
            );
        }
    }
}

/// Strict lexicographic order is transitive.
pub proof fn lemma_str_lt_trans(a: Seq<char>, b: Seq<char>, c: Seq<char>)
    requires
        spec_str_lt(a, b),
        spec_str_lt(b, c),
    ensures
        spec_str_lt(a, c),
{
    lemma_str_le_trans(a, b, c);
    if a == c {
        lemma_str_le_antisymmetric(a, b);
    }
}

/// Two different texts are strictly ordered one way or the other.
pub proof fn lemma_str_lt_total(a: Seq<char>, b: Seq<char>)
    requires
        a != b,
    ensures
        spec_str_lt(a, b) || spec_str_lt(b, a),
{
    lemma_str_le_total(a, b);
}

/// Looking a key up in the denoted map agrees with scanning the
/// entries, when the keys are pairwise distinct.
proof fn lemma_stamp_map_index(entries: Seq<(String, Date)>, key: Seq<char>)
    requires
        forall|i: int, j: int|
            0 <= i < j < entries.len() ==> (#[trigger] entries[i]).0@ != (#[trigger] entries[j]).0@,
    ensures
        forall|i: int| 0 <= i < entries.len() && (#[trigger] entries[i]).0@ == key
            ==> spec_stamp_map(entries).contains_key(key)
                && spec_stamp_map(entries)[key] == entries[i].1,
        (forall|i: int| 0 <= i < entries.len() ==> (#[trigger] entries[i]).0@ != key)
            ==> !spec_stamp_map(entries).contains_key(key),
    decreases entries.len(),
{
    if entries.len() > 0 {
        let head = entries.drop_last();
        lemma_stamp_map_index(head, key);
        assert(forall|i: int| 0 <= i < head.len() ==> head[i] == entries[i]);
    }
}

impl TimestampKeeper {
    /// The watermark stored for each account.
    pub closed spec fn view(&self) -> Map<Seq<char>, Date> {
        spec_stamp_map(self.dates@)
    }

    /// The account names are pairwise distinct and every stored date is
    /// a real calendar day.
    pub closed spec fn inv(&self) -> bool {
        &&& (forall|i: int, j: int|
            0 <= i < j < self.dates@.len()
                ==> (#[trigger] self.dates@[i]).0@ != (#[trigger] self.dates@[j]).0@)
        &&& (forall|i: int| 0 <= i < self.dates@.len() ==> (#[trigger] self.dates@[i]).1.valid())
    }

    /// Every date the store can hand out is a real calendar day.
    pub proof fn lemma_values_valid(&self, account: Seq<char>)
        requires
            self.inv(),
        ensures
            spec_get_stamp(self@, account).valid(),
    {
        lemma_stamp_map_values_valid(self.dates@, account);
    }

    fn find_index(&self, account: &str) -> (r: Option<usize>)
        requires
            self.inv(),
        ensures
            match r {
                Some(i) => i < self.dates@.len() && self.dates@[i as int].0@ == account@,
                None => forall|i: int|
                    0 <= i < self.dates@.len() ==> (#[trigger] self.dates@[i]).0@ != account@,
            },
    {
        let n = self.dates.len();
        let mut i: usize = 0;
        while i < n
            invariant
                n == self.dates@.len(),
                i <= n,
                forall|j: int| 0 <= j < i ==> (#[trigger] self.dates@[j]).0@ != account@,
            decreases n - i,
        {
            if string_eq_str(&self.dates[i].0, account) {
                return Some(i);
            }
            i = i + 1;
        }
        None
    }

    /// An empty store.
    pub fn new_empty() -> (r: TimestampKeeper)
        ensures
            r.inv(),
            r@ == Map::<Seq<char>, Date>::empty(),
    {
        TimestampKeeper { dates: Vec::new() }
    }

    /// Build a store from account/date entries; a later entry with the
    /// same account overrides an earlier one.
    pub fn new(entries: Vec<(String, Date)>) -> (r: TimestampKeeper)
        requires
            forall|i: int| 0 <= i < entries@.len() ==> (#[trigger] entries@[i]).1.valid(),
        ensures
            r.inv(),
            r@ == spec_stamp_map(entries@),
    {
        let mut out = TimestampKeeper { dates: Vec::new() };
        let n = entries.len();
        let mut i: usize = 0;
        proof {
            assert(entries@.subrange(0, 0) =~= Seq::<(String, Date)>::empty());
            assert(spec_stamp_map(entries@.subrange(0, 0)) =~= Map::<Seq<char>, Date>::empty());
        }
        while i < n
            invariant
                n == entries@.len(),
                i <= n,
                out.inv(),
                forall|k: int| 0 <= k < entries@.len() ==> (#[trigger] entries@[k]).1.valid(),
                out@ == spec_stamp_map(entries@.subrange(0, i as int)),
            decreases n - i,
        {
            out.set_date(entries[i].0.clone(), entries[i].1);
            proof {
                assert(entries@.subrange(0, i + 1).drop_last() =~= entries@.subrange(0, i as int));
            }
            i = i + 1;
        }
        proof {
            assert(entries@.subrange(0, n as int) =~= entries@);
        }
        out
    }

    /// Store a watermark unconditionally.
    fn set_date(&mut self, account: String, date: Date)
        requires
            old(self).inv(),
            date.valid(),
        ensures
            final(self).inv(),
            final(self)@ == old(self)@.insert(account@, date),
    {
        proof {
            lemma_stamp_map_index(self.dates@, account@);
        }
        match self.find_index(account.as_str()) {
            Some(i) => {
                let ghost before = self.dates@;
                let _ = self.dates.remove(i);
                proof {
                    lemma_stamp_map_remove(before, i as int);
                    assert(before.remove(i as int) =~= self.dates@);
                }
            }
            None => {
                proof {
                    assert(old(self)@ =~= old(self)@.remove(account@));
                }
            }
        }
        let ghost mid = self.dates@;
        proof {
            assert(spec_stamp_map(mid) == old(self)@.remove(account@));
            lemma_stamp_map_index(mid, account@);
            assert forall|i: int| 0 <= i < mid.len() implies (#[trigger] mid[i]).0@ != account@ by {
                if mid[i].0@ == account@ {
                    assert(spec_stamp_map(mid).contains_key(account@));
                }
            }
        }
        self.dates.push((account, date));
        proof {
            assert(self.dates@.drop_last() =~= mid);
            assert(final(self)@ =~= old(self)@.insert(account@, date));
        }
    }

    /// Get the current date for a given account, defaulting to the
    /// early sentinel if none yet exists for that account.
    pub fn get_date(&self, account: &str) -> (r: Date)
        requires
            self.inv(),
        ensures
            r == spec_get_stamp(self@, account@),
            r.valid(),
    {
        proof {
            lemma_stamp_map_index(self.dates@, account@);
            self.lemma_values_valid(account@);
        }
        match self.find_index(account) {
            Some(i) => {
                proof {
                    assert(self@.contains_key(account@) && self@[account@] == self.dates@[i as int].1);
                }
                self.dates[i].1
            }
            None => Date { year: 2000, month: 1, day: 1 },
        }
    }

    /// Update the date stored for a given account if it is later than
    /// the stored date (or the early sentinel, for a new account).
    pub fn update_date(&mut self, account: &str, date: &Date)
        requires
            old(self).inv(),
            date.valid(),
        ensures
            final(self).inv(),
            final(self)@ == old(self)@.insert(
                account@,
                spec_advanced(spec_get_stamp(old(self)@, account@), *date),
            ),
    {
        let current = self.get_date(account);
        let winner = if date_lt(&current, date) { *date } else { current };
        self.set_date(account.to_owned(), winner);
    }

    /// Retrieve the stored watermarks as a sorted serialized array:
    /// one object per account, sorted by account name, two-space
    /// indented.
    pub fn get_updated_stamps(&self) -> (r: String)
        requires
            self.inv(),
        ensures
            exists|entries: Seq<(String, Date)>|
                #[trigger] spec_sorted_stamps(self@, entries) && r@ == spec_stamps_json(entries),
    {
        let sorted = self.sorted_entries();
        let n = sorted.len();
        if n == 0 {
            let out = String::from_str("[]");
            proof {
                assert(spec_sorted_stamps(self@, sorted@) && out@ == spec_stamps_json(sorted@));
            }
            return out;
        }
        let mut out = String::from_str("[\n");
        let mut i: usize = 0;
        proof {
            reveal_strlit("[\n");
        }
        while i < n
            invariant
                n == sorted@.len(),
                n > 0,
                i <= n,
                forall|k: int| 0 <= k < sorted@.len() ==> (#[trigger] sorted@[k]).1.valid(),
                i == 0 ==> out@ == "[\n"@,
                i > 0 ==> out@ == "[\n"@ + spec_stamp_items(sorted@.subrange(0, i as int)),
            decreases n - i,
        {
            if i > 0 {
                out.append(",\n");
            }
            push_stamp_item(&mut out, &sorted[i].0, &sorted[i].1);
            proof {
                reveal_strlit(",\n");
                let cur = sorted@.subrange(0, i + 1);
                assert(cur.drop_last() =~= sorted@.subrange(0, i as int));
                assert(cur.last() == sorted@[i as int]);
                if i == 0 {
                    assert(cur.len() == 1);
                    assert(cur[0] == sorted@[0]);
                    assert(out@ =~= "[\n"@ + spec_stamp_items(cur));
                } else {
                    assert(out@ =~= "[\n"@ + spec_stamp_items(cur));
                }
            }
            i = i + 1;
        }
        out.append("\n]");
        proof {
            assert(sorted@.subrange(0, n as int) =~= sorted@);
            assert(out@ =~= "[\n"@ + spec_stamp_items(sorted@) + "\n]"@);
            assert(spec_sorted_stamps(self@, sorted@) && out@ == spec_stamps_json(sorted@));
        }
        out
    }

    /// The entries of the store, strictly sorted by account name.
    #[verifier::rlimit(100)]
    fn sorted_entries(&self) -> (r: Vec<(String, Date)>)
        requires
            self.inv(),
        ensures
            spec_sorted_stamps(self@, r@),
            forall|k: int| 0 <= k < r@.len() ==> (#[trigger] r@[k]).1.valid(),
    {
        let mut out: Vec<(String, Date)> = Vec::new();
        let n = self.dates.len();
        let mut i: usize = 0;
        while i < n
            invariant
                n == self.dates@.len(),
                i <= n,
                self.inv(),
                forall|k: int| 0 <= k < out@.len()
                    ==> self@.contains_key((#[trigger] out@[k]).0@)
                        && self@[out@[k].0@] == out@[k].1 && out@[k].1.valid(),
                forall|k1: int, k2: int| 0 <= k1 < k2 < out@.len()
                    ==> spec_str_lt((#[trigger] out@[k1]).0@, (#[trigger] out@[k2]).0@),
                forall|k: int| 0 <= k < out@.len() ==> exists|j: int|
                    0 <= j < i && (#[trigger] out@[k]).0@ == self.dates@[j].0@,
                forall|j: int| 0 <= j < i ==> exists|k: int|
                    0 <= k < out@.len() && (#[trigger] self.dates@[j]).0@ == out@[k].0@,
            decreases n - i,
        {
            let key = self.dates[i].0.clone();
            let value = self.dates[i].1;
            proof {
                lemma_stamp_map_index(self.dates@, key@);
                assert(self@.contains_key(key@) && self@[key@] == value);
                assert forall|k: int| 0 <= k < out@.len()
                    implies (#[trigger] out@[k]).0@ != key@ by {
                    let j = choose|j: int|
                        0 <= j < i && (#[trigger] out@[k]).0@ == self.dates@[j].0@;
                    assert(self.dates@[j].0@ != self.dates@[i as int].0@);
                }
            }
            let p = find_insert_pos(&out, &key);
            let ghost before = out@;
            out.insert(p, (key, value));
            proof {
                before.insert_ensures(p as int, out@[p as int]);
                assert forall|k1: int, k2: int| 0 <= k1 < k2 < out@.len()
                    implies spec_str_lt((#[trigger] out@[k1]).0@, (#[trigger] out@[k2]).0@) by {
                    if k1 < p && k2 == p {
                        assert(out@[k1] == before[k1]);
                    } else if k1 == p && k2 > p {
                        assert(out@[k2] == before[k2 - 1]);
                        if k2 - 1 > p {
                            assert(spec_str_lt(before[p as int].0@, before[k2 - 1].0@));
                            lemma_str_lt_trans(out@[p as int].0@, before[p as int].0@, before[k2 - 1].0@);
                        }
                    } else if k1 < p && k2 > p {
                        assert(out@[k1] == before[k1]);
                        assert(out@[k2] == before[k2 - 1]);
                        if k2 - 1 > k1 {
                            assert(spec_str_lt(before[k1].0@, before[k2 - 1].0@));
                        }
                    } else if k2 < p {
                        assert(out@[k1] == before[k1] && out@[k2] == before[k2]);
                    } else if k1 > p {
                        assert(out@[k1] == before[k1 - 1] && out@[k2] == before[k2 - 1]);
                    }
                }
                assert forall|j: int| 0 <= j < i + 1 implies exists|k: int|
                    0 <= k < out@.len() && (#[trigger] self.dates@[j]).0@ == out@[k].0@ by {
                    if j == i {
                        assert(self.dates@[j].0@ == out@[p as int].0@);
                    } else {
                        let k0 = choose|k: int|
                            0 <= k < before.len() && (#[trigger] self.dates@[j]).0@ == before[k].0@;
                        if k0 < p {
                            assert(out@[k0] == before[k0]);
                        } else {
                            assert(out@[k0 + 1] == before[k0]);
                        }
                    }
                }
                assert forall|k: int| 0 <= k < out@.len() implies exists|j: int|
                    0 <= j < i + 1 && (#[trigger] out@[k]).0@ == self.dates@[j].0@ by {
                    if k == p {
                        assert(out@[k].0@ == self.dates@[i as int].0@);
                    } else if k < p {
                        assert(out@[k] == before[k]);
                        let j0 = choose|j: int|
                            0 <= j < i && (#[trigger] before[k]).0@ == self.dates@[j].0@;
                        assert(out@[k].0@ == self.dates@[j0].0@);
                    } else {
                        assert(out@[k] == before[k - 1]);
                        let j0 = choose|j: int|
                            0 <= j < i && (#[trigger] before[k - 1]).0@ == self.dates@[j].0@;
                        assert(out@[k].0@ == self.dates@[j0].0@);
                    }
                }
            }
            i = i + 1;
        }
        proof {
            assert forall|key: Seq<char>| self@.contains_key(key) implies exists|k: int|
                0 <= k < out@.len() && (#[trigger] out@[k]).0@ == key by {
                lemma_stamp_map_contained_has_entry(self.dates@, key);
                let j = choose|j: int|
                    0 <= j < self.dates@.len() && (#[trigger] self.dates@[j]).0@ == key;
                let k = choose|k: int|
                    0 <= k < out@.len() && (#[trigger] self.dates@[j]).0@ == out@[k].0@;
                assert(out@[k].0@ == key);
            }
        }
        out
    }
}

/// The index at which a new key belongs in a strictly sorted list that
/// does not hold it: after every smaller key, before every greater one.
fn find_insert_pos(out: &Vec<(String, Date)>, key: &String) -> (p: usize)
    requires
        forall|k1: int, k2: int| 0 <= k1 < k2 < out@.len()
            ==> spec_str_lt((#[trigger] out@[k1]).0@, (#[trigger] out@[k2]).0@),
        forall|k: int| 0 <= k < out@.len() ==> (#[trigger] out@[k]).0@ != key@,
    ensures
        p <= out@.len(),
        forall|k: int| 0 <= k < p ==> spec_str_lt((#[trigger] out@[k]).0@, key@),
        forall|k: int| p <= k < out@.len() ==> spec_str_lt(key@, (#[trigger] out@[k]).0@),
    {
    let m = out.len();
    let mut p: usize = 0;
    while p < m
        invariant
            m == out@.len(),
            p <= m,
            forall|k1: int, k2: int| 0 <= k1 < k2 < out@.len()
                ==> spec_str_lt((#[trigger] out@[k1]).0@, (#[trigger] out@[k2]).0@),
            forall|k: int| 0 <= k < out@.len() ==> (#[trigger] out@[k]).0@ != key@,
            forall|k: int| 0 <= k < p ==> spec_str_lt((#[trigger] out@[k]).0@, key@),
        decreases m - p,
    {
        if str_lt(key.as_str(), out[p].0.as_str()) {
            proof {
                assert forall|k: int| p <= k < out@.len()
                    implies spec_str_lt(key@, (#[trigger] out@[k]).0@) by {
                    if k > p {
                        assert(spec_str_lt(out@[p as int].0@, out@[k].0@));
                        lemma_str_lt_trans(key@, out@[p as int].0@, out@[k].0@);
                    }
                }
            }
            return p;
        }
        proof {
            lemma_str_lt_total(out@[p as int].0@, key@);
        }
        p = p + 1;
    }
    p
}

/// Append one serialized entry to `s`.
fn push_stamp_item(s: &mut String, account: &String, date: &Date)
    requires
        date.valid(),
    ensures
        final(s)@ == old(s)@ + spec_stamp_item((*account, *date)),
{
    s.append("  {\n    \"account\": \"");
    push_escaped(s, account.as_str());
    s.append("\",\n    \"date\": \"");
    let d = format_date(date);
    s.append(d.as_str());
    s.append("\"\n  }");
    proof {
        assert(final(s)@ =~= old(s)@ + spec_stamp_item((*account, *date)));
    }
}

/// Every date a well-formed entry list can deliver is valid.
proof fn lemma_stamp_map_values_valid(entries: Seq<(String, Date)>, account: Seq<char>)
    requires
        forall|i: int| 0 <= i < entries.len() ==> (#[trigger] entries[i]).1.valid(),
    ensures
        spec_get_stamp(spec_stamp_map(entries), account).valid(),
    decreases entries.len(),
{
    if entries.len() == 0 {
    } else {
        let head = entries.drop_last();
        assert(forall|i: int| 0 <= i < head.len() ==> head[i] == entries[i]);
        lemma_stamp_map_values_valid(head, account);
    }
}

/// A key held by the denoted map is the key of some entry.
proof fn lemma_stamp_map_contained_has_entry(entries: Seq<(String, Date)>, key: Seq<char>)
    requires
        spec_stamp_map(entries).contains_key(key),
    ensures
        exists|j: int| 0 <= j < entries.len() && (#[trigger] entries[j]).0@ == key,
    decreases entries.len(),
{
    if entries.len() > 0 {
        if entries.last().0@ == key {
            assert(entries[entries.len() - 1].0@ == key);
        } else {
            lemma_stamp_map_contained_has_entry(entries.drop_last(), key);
            let j = choose|j: int|
                0 <= j < entries.drop_last().len() && (#[trigger] entries.drop_last()[j]).0@ == key;
            assert(entries[j].0@ == key);
        }
    }
}

/// Removing the entry at index `i` removes exactly its key from the
/// denoted map, when the keys are pairwise distinct.
proof fn lemma_stamp_map_remove(entries: Seq<(String, Date)>, i: int)
    requires
        0 <= i < entries.len(),
        forall|x: int, y: int|
            0 <= x < y < entries.len() ==> (#[trigger] entries[x]).0@ != (#[trigger] entries[y]).0@,
    ensures
        spec_stamp_map(entries.remove(i)) == spec_stamp_map(entries).remove(entries[i].0@),
    decreases entries.len(),
{
    let key = entries[i].0@;
    if i == entries.len() - 1 {
        assert(entries.remove(i) =~= entries.drop_last());
        lemma_stamp_map_absent(entries.drop_last(), key);
        assert(spec_stamp_map(entries.drop_last()) =~= spec_stamp_map(entries).remove(key));
    } else {
        let head = entries.drop_last();
        let last = entries.last();
        assert(forall|x: int| 0 <= x < head.len() ==> head[x] == entries[x]);
        lemma_stamp_map_remove(head, i);
        assert(entries.remove(i).drop_last() =~= head.remove(i));
        assert(entries.remove(i).last() == last);
        assert(spec_stamp_map(entries.remove(i))
            == spec_stamp_map(head.remove(i)).insert(last.0@, last.1));
        assert(last.0@ != key);
        assert(spec_stamp_map(head).remove(key).insert(last.0@, last.1)
            =~= spec_stamp_map(head).insert(last.0@, last.1).remove(key));
    }
}

/// Keys absent from the entries are absent from the denoted map.
proof fn lemma_stamp_map_absent(entries: Seq<(String, Date)>, key: Seq<char>)
    ensures
        (forall|i: int| 0 <= i < entries.len() ==> (#[trigger] entries[i]).0@ != key)
            ==> !spec_stamp_map(entries).contains_key(key),
    decreases entries.len(),
{
    if entries.len() > 0 {
        lemma_stamp_map_absent(entries.drop_last(), key);
        assert(forall|i: int| 0 <= i < entries.len() - 1 ==> entries.drop_last()[i] == entries[i]);
    }
}

/// Where the timestamps file lives, given where the rules file lives:
/// beside it, under the fixed name. The rules path must have a parent.
pub open spec fn spec_timestamps_path(p: Seq<char>) -> Option<Seq<char>> {
    if p.len() == 0 || p == "/"@ {
        None
    } else {
        match spec_last_slash(p, p.len() as int - 1) {
            None => Some("timestamps.json"@),
            Some(i) => Some(p.subrange(0, i + 1) + "timestamps.json"@),
        }
    }
}

/// The last index at or before `from` holding `/`, if any.
pub open spec fn spec_last_slash(p: Seq<char>, from: int) -> Option<int>
    decreases from + 1,
{
    if from < 0 || from >= p.len() {
        None
    } else if p[from] == '/' {
        Some(from)
    } else {
        spec_last_slash(p, from - 1)
    }
}

/// The message for a rules path with no directory part.
pub open spec fn spec_no_parent_err(p: Seq<char>) -> Seq<char> {
    "Cannot get the directory name of "@ + spec_quoted(p)
}

/// Based on the rules file path, return where the timestamps path
/// should be. The file need not yet exist, so no validation is done on
/// that front.
pub fn timestamps_path(rules_path: &str) -> (r: Result<String, String>)
    ensures
        match spec_timestamps_path(rules_path@) {
            Some(p) => r.is_ok() && r.unwrap()@ == p,
            None => r.is_err() && (r->Err_0)@ == spec_no_parent_err(rules_path@),
        },
{
    let len = rules_path.unicode_len();
    let is_root = str_eq(rules_path, "/");
    if len == 0 || is_root {
        let mut out = String::new();
        out.append("Cannot get the directory name of ");
        push_quoted(&mut out, rules_path);
        proof {
            assert(out@ =~= spec_no_parent_err(rules_path@));
        }
        return Err(out);
    }
    let mut i: usize = len;
    while i > 0
        invariant
            len == rules_path@.len(),
            len > 0,
            rules_path@ != "/"@,
            i <= len,
            spec_last_slash(rules_path@, len as int - 1)
                == spec_last_slash(rules_path@, i as int - 1),
        decreases i,
    {
        if rules_path.get_char(i - 1) == '/' {
            let prefix = rules_path.substring_char(0, i);
            let mut out = String::new();
            out.append(prefix);
            out.append("timestamps.json");
            proof {
                assert(Some(i as int - 1) == spec_last_slash(rules_path@, len as int - 1));
                assert(out@ =~= rules_path@.subrange(0, i as int) + "timestamps.json"@);
            }
            return Ok(out);
        }
        i = i - 1;
    }
    let mut out = String::new();
    out.append("timestamps.json");
    proof {
        assert(None::<int> == spec_last_slash(rules_path@, len as int - 1));
        assert(out@ =~= "timestamps.json"@);
    }
    Ok(out)
}

} // verus!
