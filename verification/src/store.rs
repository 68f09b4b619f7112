//! The persisted record of the registry: what is written on every change and
//! read back at start.

use vstd::prelude::*;
use vstd::string::*;
use crate::address::{is_mac_format, normalized};
use crate::registry::{
    blocked_after, is_blocklist, lemma_requests_keep_blocklist, texts, FirewallServer,
};
use crate::text::{
    lemma_decimal_is_digits, lemma_zero_padded_is_digits, zero_padded, zero_padded_string,
};

verus! {

/// The record as it is stored: the blocked addresses, when the record was
/// made, and how many addresses it holds. The last two are written for a
/// human reader and never read back.
#[derive(Debug, PartialEq, Eq)]
pub struct BlocklistData {
    pub blocked_macs: Vec<String>,
    pub last_updated: String,
    pub total_blocked: usize,
}

/// What was found where the record is kept.
#[derive(Debug, PartialEq, Eq)]
pub enum StoredBlocklist {
    /// Nothing is stored, or it cannot be read.
    Missing,
    /// Something is stored that is no record.
    Unparseable,
    /// The record.
    Record(BlocklistData),
}

/// How loading went.
#[derive(Clone, Copy, Debug, PartialEq, Eq, Structural)]
pub enum LoadOutcome {
    /// There was no record; the registry starts empty.
    NoPriorState,
    /// What was stored is no record; the registry starts empty, and the
    /// caller should warn.
    Unparseable,
    /// The record was read; the registry holds `count` addresses.
    Loaded { count: usize },
}

/// Why the record could not be written. Each holds what the system said.
#[derive(Debug, PartialEq, Eq)]
pub enum PersistenceError {
    /// The directory of the record could not be made.
    Directory(String),
    /// The record could not be put into its stored form.
    Serialize(String),
    /// The record could not be written.
    Write(String),
}

/// The sentence that tells of a failure to write the record.
pub open spec fn failure_text(step: Seq<char>, cause: Seq<char>) -> Seq<char> {
    "Failed to "@ + step + ": "@ + cause
}

impl PersistenceError {
    /// What the failure was in, as the sentence names it.
    pub open spec fn step(&self) -> Seq<char> {
        match self {
            PersistenceError::Directory(_) => "create logs directory"@,
            PersistenceError::Serialize(_) => "serialize data"@,
            PersistenceError::Write(_) => "write blocklist"@,
        }
    }

    /// What the system said.
    pub open spec fn cause(&self) -> Seq<char> {
        match self {
            PersistenceError::Directory(cause) => cause@,
            PersistenceError::Serialize(cause) => cause@,
            PersistenceError::Write(cause) => cause@,
        }
    }

    /// The sentence that tells of the failure, for the log.
    pub fn describe(&self) -> (r: String)
        ensures
            r@ == failure_text(self.step(), self.cause()),
    {
        let mut r = String::from_str("Failed to ");
        match self {
            PersistenceError::Directory(cause) => {
                r.append("create logs directory");
                r.append(": ");
                r.append(cause.as_str());
            },
            PersistenceError::Serialize(cause) => {
                r.append("serialize data");
                r.append(": ");
                r.append(cause.as_str());
            },
            PersistenceError::Write(cause) => {
                r.append("write blocklist");
                r.append(": ");
                r.append(cause.as_str());
            },
        }
        r
    }
}

/// A local date and time of day, to the second.
#[derive(Clone, Copy, Debug, PartialEq, Eq, Structural)]
pub struct Timestamp {
    pub year: i32,
    pub month: u32,
    pub day: u32,
    pub hour: u32,
    pub minute: u32,
    pub second: u32,
}

/// The year as it is written in a record: four digits, and a sign in front
/// where the year is negative or has more than four digits.
pub open spec fn year_text(year: int) -> Seq<char> {
    if 0 <= year <= 9999 {
        zero_padded(year as nat, 4)
    } else if year < 0 {
        seq!['-'] + zero_padded((-year) as nat, 4)
    } else {
        seq!['+'] + zero_padded(year as nat, 4)
    }
}

impl Timestamp {
    /// The fields are in the ranges of a calendar date and a time of day.
    pub open spec fn is_calendar(self) -> bool {
        &&& 1 <= self.month <= 12
        &&& 1 <= self.day <= 31
        &&& self.hour <= 23
        &&& self.minute <= 59
        &&& self.second <= 59
    }

    /// The timestamp as it is written in a record: `YYYY-MM-DD HH:MM:SS`.
    pub open spec fn text(self) -> Seq<char> {
        year_text(self.year as int) + seq!['-'] + zero_padded(self.month as nat, 2) + seq!['-']
            + zero_padded(self.day as nat, 2) + seq![' '] + zero_padded(self.hour as nat, 2)
            + seq![':'] + zero_padded(self.minute as nat, 2) + seq![':'] + zero_padded(
            self.second as nat,
            2,
        )
    }

    /// Writes the timestamp as `YYYY-MM-DD HH:MM:SS`.
    pub fn to_text(&self) -> (r: String)
        ensures
            r@ == self.text(),
    {
        let mut r = String::new();
        if self.year < 0 {
            r.push('-');
            let magnitude: u64 = (-(self.year as i64)) as u64;
            r.append(zero_padded_string(magnitude, 4).as_str());
        } else {
            if self.year > 9999 {
                r.push('+');
            }
            r.append(zero_padded_string(self.year as u64, 4).as_str());
        }
        assert(r@ =~= year_text(self.year as int));
        r.push('-');
        r.append(zero_padded_string(self.month as u64, 2).as_str());
        r.push('-');
        r.append(zero_padded_string(self.day as u64, 2).as_str());
        r.push(' ');
        r.append(zero_padded_string(self.hour as u64, 2).as_str());
        r.push(':');
        r.append(zero_padded_string(self.minute as u64, 2).as_str());
        r.push(':');
        r.append(zero_padded_string(self.second as u64, 2).as_str());
        assert(r@ =~= self.text());
        r
    }
}

/// Reads the local date and time with chrono's `Local::now` and takes its
/// fields with `Datelike` and `Timelike`. Nothing is claimed of the moment
/// read; the fields are in the ranges that chrono documents for them: a month
/// from 1 to 12, a day from 1 to 31, an hour from 0 to 23, a minute and a
/// second from 0 to 59.
#[verifier::external_body]
fn local_now() -> (now: Timestamp)
    ensures
        now.is_calendar(),
{
    let now = chrono::Local::now();
    Timestamp {
        year: chrono::Datelike::year(&now),
        month: chrono::Datelike::month(&now),
        day: chrono::Datelike::day(&now),
        hour: chrono::Timelike::hour(&now),
        minute: chrono::Timelike::minute(&now),
        second: chrono::Timelike::second(&now),
    }
}

/// The list that a record's entries give: each entry is blocked in turn,
/// starting from nothing. So each well-formed entry is taken in stored form,
/// an entry that repeats an earlier one is taken once, and an entry that is
/// no well-formed address is passed over.
pub open spec fn restored(entries: Seq<Seq<char>>) -> Seq<Seq<char>>
    decreases entries.len(),
{
    if entries.len() == 0 {
        Seq::empty()
    } else {
        blocked_after(restored(entries.drop_last()), entries.last())
    }
}

/// The list that loading gives: what the record holds, and nothing where
/// there is no record.
pub open spec fn loaded(stored: StoredBlocklist) -> Seq<Seq<char>> {
    match stored {
        StoredBlocklist::Record(data) => restored(texts(data.blocked_macs@)),
        _ => Seq::empty(),
    }
}

/// What loading reports.
pub open spec fn load_outcome(stored: StoredBlocklist) -> LoadOutcome {
    match stored {
        StoredBlocklist::Missing => LoadOutcome::NoPriorState,
        StoredBlocklist::Unparseable => LoadOutcome::Unparseable,
        StoredBlocklist::Record(data) => LoadOutcome::Loaded {
            count: restored(texts(data.blocked_macs@)).len() as usize,
        },
    }
}

impl FirewallServer {
    /// The record of the registry as of `now`: the addresses in the order in
    /// which they are listed, the timestamp written out, and the count.
    pub fn record_at(&self, now: Timestamp) -> (r: BlocklistData)
        ensures
            texts(r.blocked_macs@) == self.addresses(),
            r.last_updated@ == now.text(),
            r.total_blocked == self.addresses().len(),
    {
        let blocked_macs = self.get_blocklist();
        let total_blocked = blocked_macs.len();
        BlocklistData { blocked_macs, last_updated: now.to_text(), total_blocked }
    }

    /// The record to write now: the addresses in the order in which they are
    /// listed, their count, and the local time at which the record was made.
    pub fn save_blocklist(&self) -> (r: BlocklistData)
        ensures
            texts(r.blocked_macs@) == self.addresses(),
            r.total_blocked == self.addresses().len(),
            exists|now: Timestamp| now.is_calendar() && r.last_updated@ == #[trigger] now.text(),
    {
        let now = local_now();
        self.record_at(now)
    }

    /// Replaces the content of the registry by what was stored. Where there
    /// is no record, or none that can be parsed, the registry becomes empty.
    /// The timestamp and the count of a record are not looked at.
    pub fn load_blocklist(&mut self, stored: &StoredBlocklist) -> (r: LoadOutcome)
        ensures
            final(self).addresses() == loaded(*stored),
            r == load_outcome(*stored),
            is_blocklist(final(self).addresses()),
    {
        let mut fresh = FirewallServer::new();
        let outcome = match stored {
            StoredBlocklist::Missing => LoadOutcome::NoPriorState,
            StoredBlocklist::Unparseable => LoadOutcome::Unparseable,
            StoredBlocklist::Record(data) => {
                let ghost entries = texts(data.blocked_macs@);
                let mut i: usize = 0;
                while i < data.blocked_macs.len()
                    invariant
                        i <= data.blocked_macs.len(),
                        entries == texts(data.blocked_macs@),
                        fresh.addresses() == restored(entries.subrange(0, i as int)),
                    decreases data.blocked_macs.len() - i,
                {
                    let _ = fresh.block_mac(data.blocked_macs[i].as_str());
                    i += 1;
                    assert(entries.subrange(0, i as int).drop_last() =~= entries.subrange(
                        0,
                        i - 1,
                    ));
                }
                assert(entries.subrange(0, i as int) =~= entries);
                LoadOutcome::Loaded { count: fresh.len() }
            },
        };
        *self = fresh;
        outcome
    }
}

/// What `restored` gives is a blocklist, whatever the entries are.
pub proof fn lemma_restored_is_blocklist(entries: Seq<Seq<char>>)
    ensures
        is_blocklist(restored(entries)),
    decreases entries.len(),
{
    if entries.len() > 0 {
        lemma_restored_is_blocklist(entries.drop_last());
        lemma_requests_keep_blocklist(restored(entries.drop_last()), entries.last());
    }
}

/// The entries of a blocklist restore to that same list.
pub proof fn lemma_blocklist_is_restored(list: Seq<Seq<char>>)
    requires
        is_blocklist(list),
    ensures
        restored(list) == list,
    decreases list.len(),
{
    if list.len() > 0 {
        let front = list.drop_last();
        lemma_blocklist_is_restored(front);
        if front.contains(list.last()) {
            let k = front.index_of(list.last());
            assert(list[k] == list[list.len() - 1]);
        }
        assert(front.push(list.last()) =~= list);
    } else {
        assert(restored(list) =~= list);
    }
}

/// Saving and loading again gives the registry back: a record that holds
/// the addresses of a registry, whatever its timestamp and count, loads to
/// the same list and so to the same set of addresses.
pub proof fn lemma_saved_is_loaded(list: Seq<Seq<char>>, saved: BlocklistData)
    requires
        is_blocklist(list),
        texts(saved.blocked_macs@) == list,
    ensures
        loaded(StoredBlocklist::Record(saved)) == list,
        loaded(StoredBlocklist::Record(saved)).to_set() == list.to_set(),
        load_outcome(StoredBlocklist::Record(saved)) == (LoadOutcome::Loaded {
            count: list.len() as usize,
        }),
{
    lemma_blocklist_is_restored(list);
}

/// Restoring loses no entry and invents none: the list holds the stored form
/// of every well-formed entry, in whatever order the entries come, and
/// nothing else.
pub proof fn lemma_restored_holds_the_entries(entries: Seq<Seq<char>>)
    ensures
        forall|a: Seq<char>|
            restored(entries).contains(a) <==> exists|i: int|
                0 <= i < entries.len() && is_mac_format(#[trigger] entries[i]) && normalized(
                    entries[i],
                ) == a,
    decreases entries.len(),
{
    if entries.len() > 0 {
        let front = entries.drop_last();
        let last = entries.last();
        let before = restored(front);
        let after = restored(entries);
        lemma_restored_holds_the_entries(front);
        assert forall|a: Seq<char>| after.contains(a) implies exists|i: int|
            0 <= i < entries.len() && is_mac_format(#[trigger] entries[i]) && normalized(
                entries[i],
            ) == a by {
            if before.contains(a) {
                let i = choose|i: int|
                    0 <= i < front.len() && is_mac_format(#[trigger] front[i]) && normalized(
                        front[i],
                    ) == a;
                assert(entries[i] == front[i]);
            } else {
                let k = after.index_of(a);
                assert(after != before);
                assert(after == before.push(normalized(last)));
                if k < before.len() {
                    assert(before[k] == a);
                }
                assert(entries[entries.len() - 1] == last);
            }
        }
        assert forall|a: Seq<char>|
            (exists|i: int|
                0 <= i < entries.len() && is_mac_format(#[trigger] entries[i]) && normalized(
                    entries[i],
                ) == a) implies after.contains(a) by {
            let i = choose|i: int|
                0 <= i < entries.len() && is_mac_format(#[trigger] entries[i]) && normalized(
                    entries[i],
                ) == a;
            if i < front.len() {
                assert(front[i] == entries[i]);
                assert(before.contains(a));
                let k = before.index_of(a);
                assert(after[k] == a);
            } else {
                if before.contains(a) {
                    assert(after == before);
                } else {
                    assert(after == before.push(a));
                    assert(after[before.len() as int] == a);
                }
            }
        }
    }
}

/// Blocking addresses of which no two are the same keeps them all: where
/// every entry is well formed and no two have the same stored form, the list
/// holds the stored form of each, as many addresses as there are entries.
pub proof fn lemma_distinct_entries_are_all_kept(entries: Seq<Seq<char>>)
    requires
        forall|i: int| 0 <= i < entries.len() ==> is_mac_format(#[trigger] entries[i]),
        forall|i: int, j: int|
            0 <= i < j < entries.len() ==> normalized(#[trigger] entries[i]) != normalized(
                #[trigger] entries[j],
            ),
    ensures
        restored(entries) == Seq::new(entries.len(), |i: int| normalized(entries[i])),
        restored(entries).len() == entries.len(),
    decreases entries.len(),
{
    if entries.len() > 0 {
        let front = entries.drop_last();
        let last = entries.last();
        assert forall|i: int| 0 <= i < front.len() implies is_mac_format(
            #[trigger] front[i],
        ) by {
            assert(front[i] == entries[i]);
        }
        assert forall|i: int, j: int| 0 <= i < j < front.len() implies normalized(
            #[trigger] front[i],
        ) != normalized(#[trigger] front[j]) by {
            assert(front[i] == entries[i] && front[j] == entries[j]);
        }
        lemma_distinct_entries_are_all_kept(front);
        let before = restored(front);
        if before.contains(normalized(last)) {
            let k = before.index_of(normalized(last));
            assert(before[k] == normalized(front[k]));
            assert(front[k] == entries[k]);
            assert(entries[entries.len() - 1] == last);
        }
        assert(restored(entries) =~= Seq::new(entries.len(), |i: int| normalized(entries[i])));
    } else {
        assert(restored(entries) =~= Seq::new(entries.len(), |i: int| normalized(entries[i])));
    }
}

/// A calendar timestamp of a year from 0 to 9999 is written in nineteen
/// characters, `YYYY-MM-DD HH:MM:SS`: the punctuation in its places and
/// digits everywhere else.
pub proof fn lemma_timestamp_shape(t: Timestamp)
    requires
        t.is_calendar(),
        0 <= t.year <= 9999,
    ensures
        t.text().len() == 19,
        forall|i: int|
            0 <= i < 19 ==> if i == 4 || i == 7 {
                t.text()[i] == '-'
            } else if i == 10 {
                t.text()[i] == ' '
            } else if i == 13 || i == 16 {
                t.text()[i] == ':'
            } else {
                '0' <= #[trigger] t.text()[i] <= '9'
            },
{
    let year = zero_padded(t.year as nat, 4);
    let month = zero_padded(t.month as nat, 2);
    let day = zero_padded(t.day as nat, 2);
    let hour = zero_padded(t.hour as nat, 2);
    let minute = zero_padded(t.minute as nat, 2);
    let second = zero_padded(t.second as nat, 2);
    lemma_decimal_is_digits(t.year as nat);
    lemma_decimal_is_digits(t.month as nat);
    lemma_decimal_is_digits(t.day as nat);
    lemma_decimal_is_digits(t.hour as nat);
    lemma_decimal_is_digits(t.minute as nat);
    lemma_decimal_is_digits(t.second as nat);
    lemma_zero_padded_is_digits(t.year as nat, 4);
    lemma_zero_padded_is_digits(t.month as nat, 2);
    lemma_zero_padded_is_digits(t.day as nat, 2);
    lemma_zero_padded_is_digits(t.hour as nat, 2);
    lemma_zero_padded_is_digits(t.minute as nat, 2);
    lemma_zero_padded_is_digits(t.second as nat, 2);
    let text = t.text();
    assert(text.len() == 19);
    assert forall|i: int| 0 <= i < 19 implies if i == 4 || i == 7 {
        text[i] == '-'
    } else if i == 10 {
        text[i] == ' '
    } else if i == 13 || i == 16 {
        text[i] == ':'
    } else {
        '0' <= #[trigger] text[i] <= '9'
    } by {
        if i < 4 {
            assert(text[i] == year[i]);
        } else if 5 <= i < 7 {
            assert(text[i] == month[i - 5]);
        } else if 8 <= i < 10 {
            assert(text[i] == day[i - 8]);
        } else if 11 <= i < 13 {
            assert(text[i] == hour[i - 11]);
        } else if 14 <= i < 16 {
            assert(text[i] == minute[i - 14]);
        } else if 17 <= i {
            assert(text[i] == second[i - 17]);
        }
    }
}

} // verus!
