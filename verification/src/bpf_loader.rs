//! Model of the kernel-side scancode translator: the remap table that the
//! kernel program consults, and the event records it exports through its
//! ring buffer.
//!
//! The table here mirrors, entry for entry, what the caller writes into
//! the kernel map: a key occurs at most once, and writing an existing key
//! overwrites its value. Loading and attaching the kernel program itself
//! is the caller's business.

use vstd::prelude::*;

use crate::apkt_config::Remap;

verus! {

/// The mathematical contents of a rule sequence applied in order to `m`:
/// each rule inserts `from -> to`, so the last rule for a key wins.
pub open spec fn apply_rules(m: Map<u32, u32>, rules: Seq<Remap>) -> Map<u32, u32>
    decreases rules.len(),
{
    if rules.len() == 0 {
        m
    } else {
        apply_rules(m, rules.drop_last()).insert(rules.last().from, rules.last().to)
    }
}

/// The `to` of the last rule in `rules` whose `from` is `k`.
pub open spec fn last_to(rules: Seq<Remap>, k: u32) -> u32
    decreases rules.len(),
{
    if rules.len() == 0 {
        0
    } else if rules.last().from == k {
        rules.last().to
    } else {
        last_to(rules.drop_last(), k)
    }
}

/// Whether some rule in `rules` has `from == k`.
pub open spec fn rules_mention(rules: Seq<Remap>, k: u32) -> bool {
    exists|i: int| 0 <= i < rules.len() && rules[i].from == k
}

/// Applying a rule sequence to any table maps each mentioned key to the
/// `to` of its most recently applied rule, whatever the table held before;
/// in particular, reapplying a key with a new `to` overwrites rather than
/// duplicates.
pub proof fn lemma_last_write_wins(m: Map<u32, u32>, rules: Seq<Remap>, k: u32)
    requires
        rules_mention(rules, k),
    ensures
        apply_rules(m, rules).dom().contains(k),
        apply_rules(m, rules)[k] == last_to(rules, k),
    decreases rules.len(),
{
    if rules.last().from == k {
    } else {
        assert(rules_mention(rules.drop_last(), k)) by {
            let i = choose|i: int| 0 <= i < rules.len() && rules[i].from == k;
            assert(rules.drop_last()[i].from == k);
        }
        lemma_last_write_wins(m, rules.drop_last(), k);
    }
}

/// Rules for distinct keys commute: the table does not depend on the
/// order in which they are applied.
pub proof fn lemma_distinct_keys_commute(m: Map<u32, u32>, a: Remap, b: Remap)
    requires
        a.from != b.from,
    ensures
        apply_rules(m, seq![a, b]) == apply_rules(m, seq![b, a]),
{
    reveal_with_fuel(apply_rules, 3);
    assert(seq![a, b].drop_last() =~= seq![a]);
    assert(seq![b, a].drop_last() =~= seq![b]);
    assert(seq![a].drop_last() =~= Seq::<Remap>::empty());
    assert(seq![b].drop_last() =~= Seq::<Remap>::empty());
    assert(apply_rules(m, seq![a]) == m.insert(a.from, a.to));
    assert(apply_rules(m, seq![b]) == m.insert(b.from, b.to));
    assert(apply_rules(m, seq![a, b]) == m.insert(a.from, a.to).insert(b.from, b.to));
    assert(apply_rules(m, seq![b, a]) == m.insert(b.from, b.to).insert(a.from, a.to));
    assert(m.insert(a.from, a.to).insert(b.from, b.to) =~= m.insert(b.from, b.to).insert(
        a.from,
        a.to,
    ));
}

/// A key no rule mentions keeps exactly the value the table held before.
pub proof fn lemma_unmentioned_key_untouched(m: Map<u32, u32>, rules: Seq<Remap>, k: u32)
    requires
        !rules_mention(rules, k),
    ensures
        apply_rules(m, rules).dom().contains(k) == m.dom().contains(k),
        m.dom().contains(k) ==> apply_rules(m, rules)[k] == m[k],
    decreases rules.len(),
{
    if rules.len() == 0 {
    } else {
        assert(!rules_mention(rules.drop_last(), k)) by {
            if rules_mention(rules.drop_last(), k) {
                let i = choose|i: int| 0 <= i < rules.drop_last().len()
                    && rules.drop_last()[i].from == k;
                assert(rules[i].from == k);
            }
        }
        lemma_unmentioned_key_untouched(m, rules.drop_last(), k);
    }
}

/// The scancode value of the status records the kernel program emits;
/// such records carry no remap information and are dropped.
pub const STATUS_SENTINEL: u32 = 0xec;

/// One record read back from the kernel program's ring buffer: the
/// scancode a key reported, whether the program rewrote it, and what it
/// became.
#[derive(Clone, Copy, Debug, PartialEq, Eq, Structural)]
pub struct EventLogEntry {
    pub original: u32,
    pub remapped: u8,
    pub new: u32,
}

/// The number a little-endian 4-byte group denotes.
pub open spec fn le32(b0: u8, b1: u8, b2: u8, b3: u8) -> u32 {
    (b0 + b1 * 0x100 + b2 * 0x10000 + b3 * 0x1000000) as u32
}

/// Decodes one ring-buffer record. Its fixed layout is owned by the
/// kernel program: a 4-byte original scancode, the remapped flag, three
/// bytes of padding, and the 4-byte new scancode, each group in the
/// little-endian order the kernel writes natively. Anything shorter than
/// the 12-byte record is rejected; trailing bytes are ignored.
pub fn parse_log_entry(bytes: &[u8]) -> (r: Option<EventLogEntry>)
    ensures
        bytes@.len() >= 12 ==> r == Some(
            EventLogEntry {
                original: le32(bytes@[0], bytes@[1], bytes@[2], bytes@[3]),
                remapped: bytes@[4],
                new: le32(bytes@[8], bytes@[9], bytes@[10], bytes@[11]),
            },
        ),
        bytes@.len() < 12 ==> r is None,
{
    if bytes.len() < 12 {
        return None;
    }
    let original = bytes[0] as u32 + bytes[1] as u32 * 0x100 + bytes[2] as u32 * 0x10000
        + bytes[3] as u32 * 0x1000000;
    let new = bytes[8] as u32 + bytes[9] as u32 * 0x100 + bytes[10] as u32 * 0x10000
        + bytes[11] as u32 * 0x1000000;
    Some(EventLogEntry { original, remapped: bytes[4], new })
}

/// What the drain task does with one decoded record.
#[derive(Clone, Copy, Debug, PartialEq, Eq, Structural)]
pub enum LogDecision {
    /// A status record: dropped without note.
    IgnoreStatus,
    /// The program rewrote the first scancode into the second.
    Remapped(u32, u32),
    /// The scancode passed through unchanged.
    Unmapped(u32),
}

/// Classifies one decoded ring-buffer record: status records are ignored,
/// every other record is reported as remapped or unmapped.
pub fn process_log_entry(entry: &EventLogEntry) -> (r: LogDecision)
    ensures
        r == (if entry.original == STATUS_SENTINEL {
            LogDecision::IgnoreStatus
        } else if entry.remapped == 1 {
            LogDecision::Remapped(entry.original, entry.new)
        } else {
            LogDecision::Unmapped(entry.original)
        }),
{
    if entry.original == STATUS_SENTINEL {
        LogDecision::IgnoreStatus
    } else if entry.remapped == 1 {
        LogDecision::Remapped(entry.original, entry.new)
    } else {
        LogDecision::Unmapped(entry.original)
    }
}

/// The remap table as the kernel program sees it. Entries are kept with
/// unique keys in the order of first insertion; the view is the map they
/// denote.
pub struct RemapTable {
    entries: Vec<Remap>,
}

impl RemapTable {
    /// No key occurs in two entries.
    pub closed spec fn wf(self) -> bool {
        forall|i: int, j: int|
            0 <= i < j < self.entries@.len() ==> self.entries@[i].from != self.entries@[j].from
    }

    pub closed spec fn view(self) -> Map<u32, u32> {
        Map::new(
            |k: u32| exists|i: int| 0 <= i < self.entries@.len() && self.entries@[i].from == k,
            |k: u32|
                {
                    let i = choose|i: int|
                        0 <= i < self.entries@.len() && self.entries@[i].from == k;
                    self.entries@[i].to
                },
        )
    }

    pub fn new() -> (r: RemapTable)
        ensures
            r.wf(),
            r@ == Map::<u32, u32>::empty(),
    {
        let r = RemapTable { entries: Vec::new() };
        proof {
            assert(r@ =~= Map::<u32, u32>::empty());
        }
        r
    }

    /// The entries as the caller must write them into the kernel map:
    /// every key of the table exactly once, each with the value the table
    /// maps it to.
    pub fn entries(&self) -> (r: &Vec<Remap>)
        requires
            self.wf(),
        ensures
            forall|i: int, j: int| 0 <= i < j < r@.len() ==> r@[i].from != r@[j].from,
            forall|i: int|
                0 <= i < r@.len() ==> #[trigger] self@.dom().contains(r@[i].from)
                    && self@[r@[i].from] == r@[i].to,
            forall|k: u32| #[trigger] self@.dom().contains(k) ==> rules_mention(r@, k),
    {
        proof {
            assert forall|i: int| 0 <= i < self.entries@.len() implies #[trigger] self@.dom()
                .contains(self.entries@[i].from) && self@[self.entries@[i].from]
                == self.entries@[i].to by {
                let k = self.entries@[i].from;
                let j = choose|j: int| 0 <= j < self.entries@.len() && self.entries@[j].from == k;
                assert(j == i);
            }
        }
        &self.entries
    }

    /// The entry whose key is `k` gives the value the view maps `k` to.
    proof fn lemma_view_value(self, k: u32, i: int)
        requires
            self.wf(),
            0 <= i < self.entries@.len(),
            self.entries@[i].from == k,
        ensures
            self@.dom().contains(k),
            self@[k] == self.entries@[i].to,
    {
        let j = choose|j: int| 0 <= j < self.entries@.len() && self.entries@[j].from == k;
        assert(j == i);
    }

    /// Writes `rule` into the table: overwrites the entry holding
    /// `rule.from` when one exists, appends otherwise.
    pub fn apply(&mut self, rule: Remap)
        requires
            old(self).wf(),
        ensures
            final(self).wf(),
            final(self)@ == old(self)@.insert(rule.from, rule.to),
    {
        let n = self.entries.len();
        let mut i: usize = 0;
        while i < n
            invariant
                n == self.entries@.len(),
                forall|j: int| 0 <= j < i ==> self.entries@[j].from != rule.from,
                *self == *old(self),
                old(self).wf(),
            decreases n - i,
        {
            if self.entries[i].from == rule.from {
                self.entries[i] = rule;
                proof {
                    let s_old = old(self).entries@;
                    assert(self.entries@ =~= s_old.update(i as int, rule));
                    assert(forall|x: int|
                        0 <= x < self.entries@.len() ==> self.entries@[x].from == s_old[x].from);
                    assert forall|a: int, b: int|
                        0 <= a < b < self.entries@.len() implies self.entries@[a].from
                        != self.entries@[b].from by {
                        assert(0 <= a < b < old(self).entries@.len());
                        assert(old(self).entries@[a].from != old(self).entries@[b].from);
                        assert(self.entries@[a].from == old(self).entries@[a].from);
                        assert(self.entries@[b].from == old(self).entries@[b].from);
                    }
                    assert(self.wf());
                    let goal = old(self)@.insert(rule.from, rule.to);
                    assert forall|k: u32| #[trigger] goal.dom().contains(k) implies self@.dom()
                        .contains(k) && self@[k] == goal[k] by {
                        if k == rule.from {
                            self.lemma_view_value(k, i as int);
                        } else {
                            let x = choose|x: int| 0 <= x < s_old.len() && s_old[x].from == k;
                            assert(self.entries@[x].from == k);
                            self.lemma_view_value(k, x);
                            old(self).lemma_view_value(k, x);
                        }
                    }
                    assert forall|k: u32| #[trigger] self@.dom().contains(k) implies goal.dom()
                        .contains(k) by {
                        let x = choose|x: int|
                            0 <= x < self.entries@.len() && self.entries@[x].from == k;
                        assert(s_old[x].from == k);
                        assert(old(self)@.dom().contains(k));
                    }
                    assert(self@ =~= goal);
                }
                return ;
            }
            i += 1;
        }
        self.entries.push(rule);
        proof {
            let s_old = old(self).entries@;
            assert(self.entries@ =~= s_old.push(rule));
            assert forall|a: int, b: int| 0 <= a < b < self.entries@.len() implies self.entries@[a].from
                != self.entries@[b].from by {
                if b == s_old.len() {
                    assert(self.entries@[a] == s_old[a]);
                } else {
                    assert(self.entries@[a] == s_old[a]);
                    assert(self.entries@[b] == s_old[b]);
                }
            }
            assert(self.wf());
            let goal = old(self)@.insert(rule.from, rule.to);
            assert forall|k: u32| #[trigger] goal.dom().contains(k) implies self@.dom().contains(k)
                && self@[k] == goal[k] by {
                if k == rule.from {
                    self.lemma_view_value(k, s_old.len() as int);
                } else {
                    let x = choose|x: int| 0 <= x < s_old.len() && s_old[x].from == k;
                    assert(self.entries@[x].from == k);
                    self.lemma_view_value(k, x);
                    old(self).lemma_view_value(k, x);
                }
            }
            assert forall|k: u32| #[trigger] self@.dom().contains(k) implies goal.dom().contains(
                k,
            ) by {
                let x = choose|x: int| 0 <= x < self.entries@.len() && self.entries@[x].from == k;
                if x < s_old.len() {
                    assert(s_old[x].from == k);
                    assert(old(self)@.dom().contains(k));
                }
            }
            assert(self@ =~= goal);
        }
    }

    /// Applies a whole rule list in order; the last rule for a key wins.
    pub fn apply_remaps(&mut self, rules: &Vec<Remap>)
        requires
            old(self).wf(),
        ensures
            final(self).wf(),
            final(self)@ == apply_rules(old(self)@, rules@),
    {
        let n = rules.len();
        let mut i: usize = 0;
        while i < n
            invariant
                n == rules@.len(),
                0 <= i <= n,
                self.wf(),
                self@ == apply_rules(old(self)@, rules@.take(i as int)),
            decreases n - i,
        {
            let rule = rules[i];
            self.apply(rule);
            proof {
                assert(rules@.take(i + 1).drop_last() =~= rules@.take(i as int));
                assert(rules@.take(i + 1).last() == rules@[i as int]);
            }
            i += 1;
        }
        proof {
            assert(rules@.take(n as int) =~= rules@);
        }
    }

    /// What the table currently maps `from` to, if anything.
    pub fn lookup(&self, from: u32) -> (r: Option<u32>)
        requires
            self.wf(),
        ensures
            r == (if self@.dom().contains(from) {
                Some(self@[from])
            } else {
                Option::<u32>::None
            }),
    {
        let n = self.entries.len();
        let mut i: usize = 0;
        while i < n
            invariant
                n == self.entries@.len(),
                self.wf(),
                forall|j: int| 0 <= j < i ==> self.entries@[j].from != from,
            decreases n - i,
        {
            if self.entries[i].from == from {
                proof {
                    let j = choose|j: int|
                        0 <= j < self.entries@.len() && self.entries@[j].from == from;
                    assert(j == i);
                }
                return Some(self.entries[i].to);
            }
            i += 1;
        }
        None
    }
}

} // verus!
