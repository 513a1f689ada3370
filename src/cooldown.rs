//! The cooldown table: when each command was last triggered under each scope key.
use vstd::prelude::*;
use crate::text::{chars_of, same_chars};

verus! {

/// One recorded trigger.
struct CooldownEntry {
    command: Vec<char>,
    key: Vec<char>,
    last: u64,
}

/// Last-trigger times (Unix seconds) keyed by command token and scope key. It only changes
/// through [`CooldownTable::try_trigger`], which tests and records in one step.
pub struct CooldownTable {
    entries: Vec<CooldownEntry>,
}

/// Position of the last entry for `(c, k)`, or -1.
spec fn entry_index(es: Seq<CooldownEntry>, c: Seq<char>, k: Seq<char>) -> int
    decreases es.len(),
{
    if es.len() == 0 {
        -1
    } else if es.last().command@ == c && es.last().key@ == k {
        es.len() - 1
    } else {
        entry_index(es.drop_last(), c, k)
    }
}

proof fn lemma_entry_index(es: Seq<CooldownEntry>, c: Seq<char>, k: Seq<char>)
    ensures
        -1 <= entry_index(es, c, k) < es.len(),
        entry_index(es, c, k) >= 0 ==> es[entry_index(es, c, k)].command@ == c
            && es[entry_index(es, c, k)].key@ == k,
    decreases es.len(),
{
    if es.len() > 0 {
        lemma_entry_index(es.drop_last(), c, k);
    }
}

proof fn lemma_entry_index_update(
    es: Seq<CooldownEntry>,
    j: int,
    e: CooldownEntry,
    c: Seq<char>,
    k: Seq<char>,
)
    requires
        0 <= j < es.len(),
        e.command@ == es[j].command@,
        e.key@ == es[j].key@,
    ensures
        entry_index(es.update(j, e), c, k) == entry_index(es, c, k),
    decreases es.len(),
{
    let u = es.update(j, e);
    if j == es.len() - 1 {
        assert(u.drop_last() =~= es.drop_last());
    } else {
        assert(u.drop_last() =~= es.drop_last().update(j, e));
        lemma_entry_index_update(es.drop_last(), j, e, c, k);
    }
}

/// Whether a trigger at `now` is outside the window that began at `prev`.
pub open spec fn cooldown_passed(prev: Option<u64>, cooldown: u64, now: u64) -> bool {
    match prev {
        None => true,
        Some(t) => now as int - t as int >= cooldown as int,
    }
}

impl CooldownTable {
    /// When `command` was last triggered under `key`, if ever.
    pub closed spec fn last_trigger(&self, command: Seq<char>, key: Seq<char>) -> Option<u64> {
        let i = entry_index(self.entries@, command, key);
        if i >= 0 {
            Some(self.entries@[i].last)
        } else {
            None
        }
    }

    /// `after` is `before` with `(command, key)` recorded at `now`, nothing else changed.
    pub open spec fn records(
        before: CooldownTable,
        after: CooldownTable,
        command: Seq<char>,
        key: Seq<char>,
        now: u64,
    ) -> bool {
        forall|c: Seq<char>, k: Seq<char>|
            #[trigger] after.last_trigger(c, k) == if c == command && k == key {
                Some(now)
            } else {
                before.last_trigger(c, k)
            }
    }

    /// An empty table.
    pub fn new() -> (r: CooldownTable)
        ensures
            forall|c: Seq<char>, k: Seq<char>| #[trigger] r.last_trigger(c, k) is None,
    {
        CooldownTable { entries: Vec::new() }
    }

    /// When `command` was last triggered under `key`, if ever.
    pub fn last_trigger_of(&self, command: &str, key: &str) -> (r: Option<u64>)
        ensures
            r == self.last_trigger(command@, key@),
    {
        match self.find(&chars_of(command), &chars_of(key)) {
            Some(i) => Some(self.entries[i].last),
            None => None,
        }
    }

    fn find(&self, command: &Vec<char>, key: &Vec<char>) -> (r: Option<usize>)
        ensures
            entry_index(self.entries@, command@, key@) < 0 <==> r is None,
            r matches Some(i) ==> i == entry_index(self.entries@, command@, key@),
            r matches Some(i) ==> i < self.entries@.len(),
    {
        proof {
            lemma_entry_index(self.entries@, command@, key@);
        }
        let mut found: Option<usize> = None;
        let mut i: usize = 0;
        while i < self.entries.len()
            invariant
                i <= self.entries@.len(),
                entry_index(self.entries@.take(i as int), command@, key@) < 0 <==> found is None,
                found matches Some(j) ==> j == entry_index(
                    self.entries@.take(i as int),
                    command@,
                    key@,
                ),
            decreases self.entries@.len() - i,
        {
            assert(self.entries@.take(i + 1).drop_last() =~= self.entries@.take(i as int));
            let e = &self.entries[i];
            if same_chars(&e.command, command) && same_chars(&e.key, key) {
                found = Some(i);
            }
            i += 1;
        }
        assert(self.entries@.take(i as int) =~= self.entries@);
        found
    }

    /// Tests whether `command` may fire under `key` at `now`, given its cooldown in seconds:
    /// it may when it never fired under that key, or at least `cooldown` seconds have passed.
    /// When it may, `now` is recorded; otherwise the table is left as it was.
    pub fn try_trigger(&mut self, command: &str, key: &str, cooldown: u64, now: u64) -> (r: bool)
        ensures
            r == cooldown_passed(old(self).last_trigger(command@, key@), cooldown, now),
            r ==> CooldownTable::records(*old(self), *final(self), command@, key@, now),
            !r ==> *final(self) == *old(self),
    {
        let c = chars_of(command);
        let k = chars_of(key);
        match self.find(&c, &k) {
            Some(i) => {
                let last = self.entries[i].last;
                proof {
                    lemma_entry_index(self.entries@, c@, k@);
                }
                if now < last || now - last < cooldown {
                    return false;
                }
                let ghost before = *self;
                let e = CooldownEntry { command: c, key: k, last: now };
                self.entries.set(i, e);
                proof {
                    assert forall|c2: Seq<char>, k2: Seq<char>| #[trigger]
                        self.last_trigger(c2, k2) == if c2 == command@ && k2 == key@ {
                            Some(now)
                        } else {
                            before.last_trigger(c2, k2)
                        } by {
                        lemma_entry_index_update(before.entries@, i as int, e, c2, k2);
                        lemma_entry_index(before.entries@, c2, k2);
                    }
                }
                true
            },
            None => {
                let ghost before = *self;
                let e = CooldownEntry { command: c, key: k, last: now };
                let ghost ge = e;
                self.entries.push(e);
                proof {
                    assert(self.entries@.last() == ge);
                    assert forall|c2: Seq<char>, k2: Seq<char>| #[trigger]
                        self.last_trigger(c2, k2) == if c2 == command@ && k2 == key@ {
                            Some(now)
                        } else {
                            before.last_trigger(c2, k2)
                        } by {
                        assert(self.entries@.drop_last() =~= before.entries@);
                        lemma_entry_index(before.entries@, c2, k2);
                        assert(ge.command@ == command@ && ge.key@ == key@);
                        if !(c2 == command@ && k2 == key@) {
                            assert(entry_index(self.entries@, c2, k2) == entry_index(
                                before.entries@,
                                c2,
                                k2,
                            ));
                        }
                    }
                }
                true
            },
        }
    }
}

} // verus!
