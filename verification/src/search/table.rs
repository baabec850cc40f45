//! What the search remembers about positions it has already seen.

use vstd::prelude::*;

use crate::chess::Move;

verus! {

/// What a stored score says about the true one.
#[derive(Clone, Copy, PartialEq, Eq, Debug, Structural)]
pub enum Bound {
    /// It is the true score.
    Exact,
    /// The true score is at least this.
    Lower,
    /// The true score is at most this.
    Upper,
}

/// What is remembered about one position.
#[derive(Clone, Copy, PartialEq, Eq, Debug, Structural)]
pub struct Entry {
    pub key: u64,
    pub best: Option<Move>,
    pub score: i32,
    pub depth: i16,
    pub bound: Bound,
}

/// An entry about nothing.
pub open spec fn blank() -> Entry {
    Entry { key: 0, best: None, score: 0, depth: -1i16, bound: Bound::Exact }
}

/// The place of a position among so many entries.
pub open spec fn slot(key: u64, count: nat) -> int {
    key as int % count as int
}

/// What is remembered about a position.
pub open spec fn known(entries: Seq<Entry>, key: u64) -> Option<Entry> {
    let entry = entries[slot(key, entries.len())];
    if entry.key == key && entry.depth >= 0 {
        Some(entry)
    } else {
        None
    }
}

/// The entries after something was learned: it takes its place unless a deeper
/// exact result about the same position is there.
pub open spec fn learned(entries: Seq<Entry>, new: Entry) -> Seq<Entry> {
    let place = slot(new.key, entries.len());
    let there = entries[place];
    if there.key == new.key && there.depth > new.depth && there.bound == Bound::Exact {
        entries
    } else {
        entries.update(place, new)
    }
}

/// Whether every stored score is one that can be turned round.
pub open spec fn sound(entries: Seq<Entry>) -> bool {
    &&& entries.len() > 0
    &&& forall|i: int| 0 <= i < entries.len() ==> (#[trigger] entries[i]).score > i32::MIN
}

/// Whether a number is a power of two.
pub open spec fn is_power(n: nat) -> bool
    decreases n,
{
    n == 1 || (n > 1 && n % 2 == 0 && is_power(n / 2))
}

/// Whether `count` is how many entries of `bytes` bytes a table of so many
/// mebibytes has: the largest power of two that fits, but at least one.
pub open spec fn fills(count: nat, megabytes: nat, bytes: nat) -> bool {
    &&& is_power(count)
    &&& count == 1 || count * bytes <= megabytes * 0x10_0000
    &&& 2 * count * bytes > megabytes * 0x10_0000
}

/// How many bytes an entry takes.
pub open spec fn entry_bytes() -> nat {
    if core::mem::size_of::<Entry>() == 0 {
        1
    } else {
        core::mem::size_of::<Entry>() as nat
    }
}

/// A table with so many entries about nothing.
pub open spec fn empty(count: nat) -> Seq<Entry> {
    Seq::new(count, |i: int| blank())
}

/// There is only one number of entries that fills a table.
pub proof fn law_a_table_has_one_size(a: nat, b: nat, megabytes: nat, bytes: nat)
    requires
        bytes > 0,
        fills(a, megabytes, bytes),
        fills(b, megabytes, bytes),
    ensures
        a == b,
{
    let room = megabytes * 0x10_0000;
    if a < b {
        lemma_doubled(a, b);
        assert(2 * a * bytes <= b * bytes) by (nonlinear_arith)
            requires
                2 * a <= b,
        ;
    }
    if b < a {
        lemma_doubled(b, a);
        assert(2 * b * bytes <= a * bytes) by (nonlinear_arith)
            requires
                2 * b <= a,
        ;
    }
}

/// A power of two is at least twice any smaller one.
proof fn lemma_doubled(a: nat, b: nat)
    requires
        is_power(a),
        is_power(b),
        a < b,
    ensures
        2 * a <= b,
    decreases a,
{
    if a > 1 {
        assert(b > 1);
        assert(a / 2 < b / 2);
        lemma_doubled(a / 2, b / 2);
    }
}

impl Entry {
    /// An entry about nothing.
    fn nothing() -> (entry: Entry)
        ensures
            entry == blank(),
    {
        Entry { key: 0, best: None, score: 0, depth: -1i16, bound: Bound::Exact }
    }
}

/// How many entries of `bytes` bytes a table of so many mebibytes has.
pub fn table_slots(megabytes: usize, bytes: usize) -> (count: usize)
    requires
        megabytes * 0x10_0000 <= usize::MAX,
        bytes > 0,
    ensures
        fills(count as nat, megabytes as nat, bytes as nat),
{
    let target: usize = megabytes * 0x10_0000 / bytes;
    let ghost room = megabytes * 0x10_0000;
    proof {
        vstd::arithmetic::div_mod::lemma_fundamental_div_mod(room as int, bytes as int);
        vstd::arithmetic::div_mod::lemma_mod_bound(room as int, bytes as int);
        assert(bytes * target == target * bytes) by (nonlinear_arith);
    }
    let mut count: usize = 1;
    while count <= target / 2
        invariant
            is_power(count as nat),
            count == 1 || count <= target,
        decreases target - count,
    {
        proof {
            assert((2 * count) as nat / 2 == count as nat);
            assert((2 * count) as nat % 2 == 0);
        }
        count = 2 * count;
    }
    proof {
        assert(target < 2 * count);
        assert(2 * count * bytes >= (target + 1) * bytes) by (nonlinear_arith)
            requires
                target + 1 <= 2 * count,
                bytes > 0,
        ;
        assert((target + 1) * bytes == target * bytes + bytes) by (nonlinear_arith);
        if count != 1 {
            assert(count * bytes <= target * bytes) by (nonlinear_arith)
                requires
                    count <= target,
            ;
        }
    }
    count
}

/// A fixed-size, always-replace-on-shallower transposition table.
#[derive(Debug)]
pub struct Table {
    entries: Vec<Entry>,
}

impl Table {
    /// What the table holds.
    pub closed spec fn entries(self) -> Seq<Entry> {
        self.entries@
    }

    /// An empty table of so many entries.
    pub fn with_slots(count: usize) -> (table: Table)
        ensures
            table.entries() == empty(count as nat),
    {
        let mut entries: Vec<Entry> = Vec::with_capacity(count);
        while entries.len() < count
            invariant
                entries.len() <= count,
                forall|i: int| 0 <= i < entries.len() ==> entries@[i] == blank(),
            decreases count - entries.len(),
        {
            entries.push(Entry::nothing());
        }
        proof {
            assert(entries@ =~= empty(count as nat));
        }
        Table { entries }
    }

    /// An empty table of so many mebibytes, as nearly as a power of two goes.
    pub fn with_capacity_mb(megabytes: usize) -> (table: Table)
        requires
            megabytes * 0x10_0000 <= usize::MAX,
        ensures
            table.entries() == empty(table.entries().len()),
            table.entries().len() > 0,
            fills(table.entries().len(), megabytes as nat, entry_bytes()),
    {
        let bytes: usize = core::mem::size_of::<Entry>();
        let count: usize = table_slots(
            megabytes,
            if bytes == 0 {
                1
            } else {
                bytes
            },
        );
        Table::with_slots(count)
    }

    /// Forgets everything.
    pub fn clear(&mut self)
        ensures
            final(self).entries() == empty(old(self).entries().len()),
    {
        let mut index: usize = 0;
        let ghost count = self.entries@.len();
        while index < self.entries.len()
            invariant
                index <= self.entries.len(),
                self.entries@.len() == count,
                forall|i: int| 0 <= i < index ==> self.entries@[i] == blank(),
            decreases count - index,
        {
            self.entries[index] = Entry::nothing();
            index += 1;
        }
        proof {
            assert(self.entries@ =~= empty(count));
        }
    }

    /// What is remembered about a position.
    pub fn probe(&self, key: u64) -> (found: Option<Entry>)
        requires
            self.entries().len() > 0,
        ensures
            found == known(self.entries(), key),
            sound(self.entries()) ==> (found matches Some(entry) ==> entry.score > i32::MIN),
    {
        let entry = self.entries[(key % self.entries.len() as u64) as usize];
        if entry.key == key && entry.depth >= 0 {
            Some(entry)
        } else {
            None
        }
    }

    /// Remembers a result, unless a deeper exact one about the same position is
    /// there.
    pub fn store(&mut self, key: u64, best: Option<Move>, score: i32, depth: i16, bound: Bound)
        requires
            old(self).entries().len() > 0,
        ensures
            final(self).entries() == learned(
                old(self).entries(),
                (Entry { key, best, score, depth, bound }),
            ),
            sound(old(self).entries()) && score > i32::MIN ==> sound(final(self).entries()),
    {
        let place: usize = (key % self.entries.len() as u64) as usize;
        let there = self.entries[place];
        if there.key == key && there.depth > depth && there.bound == Bound::Exact {
            return ;
        }
        self.entries[place] = Entry { key, best, score, depth, bound };
    }
}

/// The table gives back what it was just told, unless it knew better: then it
/// still knows what it knew, at a greater depth.
pub proof fn law_what_was_stored_is_found(entries: Seq<Entry>, new: Entry)
    requires
        entries.len() > 0,
        new.depth >= 0,
    ensures
        known(learned(entries, new), new.key) matches Some(entry) && (entry == new || (entry
            == known(entries, new.key)->0 && known(entries, new.key) is Some && entry.depth
            > new.depth && entry.bound == Bound::Exact)),
{
}

/// Learning about one position never makes the table say something new about
/// another: it says what it said, or nothing.
pub proof fn law_storing_invents_nothing(entries: Seq<Entry>, new: Entry, key: u64)
    requires
        entries.len() > 0,
        key != new.key,
    ensures
        known(learned(entries, new), key) == known(entries, key) || known(
            learned(entries, new),
            key,
        ) is None,
{
}

/// A table that has just been emptied knows nothing.
pub proof fn law_an_empty_table_knows_nothing(count: nat, key: u64)
    requires
        count > 0,
    ensures
        known(empty(count), key) is None,
{
}

/// Learning about one position disturbs no other but those that share its place,
/// which are those whose keys differ by a multiple of the size; and the table stays
/// as large as it was.
pub proof fn law_only_one_place_is_touched(entries: Seq<Entry>, new: Entry, key: u64)
    requires
        entries.len() > 0,
        (key - new.key) % (entries.len() as int) != 0,
    ensures
        learned(entries, new).len() == entries.len(),
        known(learned(entries, new), key) == known(entries, key),
{
    let n = entries.len() as int;
    if key as int % n == new.key as int % n {
        vstd::arithmetic::div_mod::lemma_mod_equivalence(key as int, new.key as int, n);
    }
    vstd::arithmetic::div_mod::lemma_mod_bound(key as int, n);
    vstd::arithmetic::div_mod::lemma_mod_bound(new.key as int, n);
}

/// What the table says about a position is about that position.
pub proof fn law_the_table_speaks_of_the_position(entries: Seq<Entry>, key: u64)
    requires
        entries.len() > 0,
        known(entries, key) is Some,
    ensures
        known(entries, key)->0.key == key,
        known(entries, key)->0.depth >= 0,
        entries.contains(known(entries, key)->0),
{
    vstd::arithmetic::div_mod::lemma_mod_bound(key as int, entries.len() as int);
}

/// A new result takes the place of an older one about the same position that is no
/// deeper, of one that is only a bound, and of any about another position.
pub proof fn law_news_replaces_what_is_no_better(entries: Seq<Entry>, new: Entry)
    requires
        entries.len() > 0,
        new.depth >= 0,
        known(entries, new.key) matches Some(old) ==> old.depth <= new.depth || old.bound
            != Bound::Exact,
    ensures
        known(learned(entries, new), new.key) == Some(new),
{
    vstd::arithmetic::div_mod::lemma_mod_bound(new.key as int, entries.len() as int);
}

} // verus!
