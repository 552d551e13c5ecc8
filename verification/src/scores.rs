//! A table from the name of an inning to the runs scored in it.
use vstd::prelude::*;

use crate::number::parse_usize;
use crate::text::same_text;
#[allow(unused_imports)]
use crate::number::parsed_count;

verus! {

/// A table of texts by name. No name occurs twice.
#[derive(Debug)]
pub struct ScoreTable {
    entries: Vec<(String, String)>,
}

/// Whether no name of `entries` occurs twice.
pub open spec fn distinct_names(entries: Seq<(String, String)>) -> bool {
    forall|i: int, j: int|
        0 <= i < j < entries.len() ==> #[trigger] entries[i].0@ != #[trigger] entries[j].0@
}

/// What `entries` say of each name.
pub open spec fn table_of(entries: Seq<(String, String)>) -> Map<Seq<char>, Seq<char>>
    decreases entries.len(),
{
    if entries.len() == 0 {
        Map::empty()
    } else {
        table_of(entries.drop_last()).insert(entries.last().0@, entries.last().1@)
    }
}

impl View for ScoreTable {
    type V = Map<Seq<char>, Seq<char>>;

    closed spec fn view(&self) -> Map<Seq<char>, Seq<char>> {
        table_of(self.entries@)
    }
}

proof fn lemma_table_domain(entries: Seq<(String, String)>, name: Seq<char>)
    ensures
        table_of(entries).dom().contains(name) <==> exists|i: int|
            0 <= i < entries.len() && #[trigger] entries[i].0@ == name,
    decreases entries.len(),
{
    if entries.len() > 0 {
        let before = entries.drop_last();
        lemma_table_domain(before, name);
        if table_of(entries).dom().contains(name) {
            if name == entries.last().0@ {
                assert(entries[entries.len() - 1].0@ == name);
            } else {
                let i = choose|i: int| 0 <= i < before.len() && #[trigger] before[i].0@ == name;
                assert(entries[i].0@ == name);
            }
        }
        if exists|i: int| 0 <= i < entries.len() && #[trigger] entries[i].0@ == name {
            let i = choose|i: int| 0 <= i < entries.len() && #[trigger] entries[i].0@ == name;
            if i < before.len() {
                assert(before[i].0@ == name);
            }
        }
    }
}

proof fn lemma_table_value(entries: Seq<(String, String)>, i: int)
    requires
        distinct_names(entries),
        0 <= i < entries.len(),
    ensures
        table_of(entries).dom().contains(entries[i].0@),
        table_of(entries)[entries[i].0@] == entries[i].1@,
    decreases entries.len(),
{
    let before = entries.drop_last();
    if i < before.len() {
        assert(distinct_names(before)) by {
            assert forall|a: int, b: int| 0 <= a < b < before.len() implies #[trigger] before[a].0@
                != #[trigger] before[b].0@ by {
                assert(entries[a].0@ != entries[b].0@);
            }
        }
        lemma_table_value(before, i);
        assert(before[i] == entries[i]);
        assert(entries[i].0@ != entries[entries.len() - 1].0@);
    }
}

/// The inning that a name stands for.
pub open spec fn inning_of(name: Seq<char>) -> Option<nat> {
    parsed_count(name, usize::MAX as nat)
}

/// Whether `inning` is the highest that a name of `names` stands for.
pub open spec fn is_highest(names: Set<Seq<char>>, inning: nat) -> bool {
    &&& exists|name: Seq<char>|
        names.contains(name) && #[trigger] inning_of(name) == Some(inning)
    &&& forall|name: Seq<char>|
        names.contains(name) && (#[trigger] inning_of(name)) is Some ==> inning_of(name)->0
            <= inning
}

/// The highest inning that a name of `names` stands for, where one does.
pub open spec fn highest_inning(names: Set<Seq<char>>) -> Option<nat> {
    if exists|inning: nat| is_highest(names, inning) {
        Some(choose|inning: nat| is_highest(names, inning))
    } else {
        None
    }
}

/// There is one highest inning only.
pub proof fn lemma_highest_inning(names: Set<Seq<char>>, inning: nat)
    requires
        is_highest(names, inning),
    ensures
        highest_inning(names) == Some(inning),
{
    let other = choose|n: nat| is_highest(names, n);
    assert(is_highest(names, other));
    let mine = choose|name: Seq<char>|
        names.contains(name) && #[trigger] inning_of(name) == Some(inning);
    let theirs = choose|name: Seq<char>|
        names.contains(name) && #[trigger] inning_of(name) == Some(other);
    assert(inning_of(mine)->0 <= other);
    assert(inning_of(theirs)->0 <= inning);
}

impl Clone for ScoreTable {
    fn clone(&self) -> (copy: Self)
        ensures
            copy@ == self@,
    {
        proof {
            use_type_invariant(self);
        }
        let mut entries: Vec<(String, String)> = Vec::new();
        let mut i: usize = 0;
        while i < self.entries.len()
            invariant
                i <= self.entries@.len(),
                entries@ == self.entries@.take(i as int),
            decreases self.entries@.len() - i,
        {
            let name = self.entries[i].0.clone();
            let value = self.entries[i].1.clone();
            entries.push((name, value));
            i += 1;
        }
        assert(entries@ == self.entries@);
        ScoreTable { entries }
    }
}

impl ScoreTable {
    #[verifier::type_invariant]
    spec fn names_are_distinct(self) -> bool {
        distinct_names(self.entries@)
    }

    /// A table without names.
    pub fn new() -> (table: Self)
        ensures
            table@ == Map::<Seq<char>, Seq<char>>::empty(),
    {
        ScoreTable { entries: Vec::new() }
    }

    fn position(&self, name: &str) -> (found: Option<usize>)
        ensures
            match found {
                Some(i) => i < self.entries@.len() && self.entries@[i as int].0@ == name@,
                None => !self@.dom().contains(name@),
            },
    {
        let mut i: usize = 0;
        while i < self.entries.len()
            invariant
                i <= self.entries@.len(),
                forall|j: int| 0 <= j < i ==> (#[trigger] self.entries@[j]).0@ != name@,
            decreases self.entries@.len() - i,
        {
            if same_text(&self.entries[i].0, name) {
                return Some(i);
            }
            i += 1;
        }
        proof {
            lemma_table_domain(self.entries@, name@);
        }
        None
    }

    /// What the table says of `name`.
    pub fn get(&self, name: &str) -> (value: Option<&String>)
        ensures
            match value {
                Some(v) => self@.dom().contains(name@) && v@ == self@[name@],
                None => !self@.dom().contains(name@),
            },
    {
        proof {
            use_type_invariant(self);
        }
        match self.position(name) {
            Some(i) => {
                proof {
                    lemma_table_value(self.entries@, i as int);
                }
                Some(&self.entries[i].1)
            },
            None => None,
        }
    }

    /// Makes the table say `value` of `name`, whatever it said before.
    pub fn insert(&mut self, name: String, value: String)
        ensures
            final(self)@ == old(self)@.insert(name@, value@),
    {
        proof {
            use_type_invariant(&*self);
        }
        let found = self.position(&name);
        let mut entries: Vec<(String, String)> = Vec::new();
        std::mem::swap(&mut entries, &mut self.entries);
        let ghost before = entries@;
        match found {
            Some(i) => {
                entries.set(i, (name, value));
                proof {
                    lemma_table_update(before, i as int, entries@[i as int]);
                }
            },
            None => {
                proof {
                    lemma_table_domain(before, name@);
                }
                entries.push((name, value));
                assert(entries@.drop_last() == before);
            },
        }
        self.entries = entries;
    }

    /// The highest inning that a name of the table stands for, where one does.
    pub fn highest(&self) -> (inning: Option<usize>)
        ensures
            match inning {
                Some(n) => is_highest(self@.dom(), n as nat),
                None => forall|name: Seq<char>|
                    self@.dom().contains(name) ==> (#[trigger] inning_of(name)) is None,
            },
    {
        let mut best: Option<usize> = None;
        let mut i: usize = 0;
        while i < self.entries.len()
            invariant
                i <= self.entries@.len(),
                forall|j: int|
                    0 <= j < i && inning_of((#[trigger] self.entries@[j]).0@) is Some ==> best
                        is Some && inning_of(self.entries@[j].0@)->0 <= best->0,
                best is Some ==> exists|j: int|
                    0 <= j < i && inning_of((#[trigger] self.entries@[j]).0@) == Some(
                        best->0 as nat,
                    ),
            decreases self.entries@.len() - i,
        {
            let ghost earlier = best;
            if let Some(n) = parse_usize(&self.entries[i].0) {
                assert(inning_of(self.entries@[i as int].0@) == Some(n as nat));
                match best {
                    Some(b) => {
                        if n > b {
                            best = Some(n);
                        }
                    },
                    None => {
                        best = Some(n);
                    },
                }
            }
            proof {
                if best == earlier && best is Some {
                    let j = choose|j: int|
                        0 <= j < i && inning_of((#[trigger] self.entries@[j]).0@) == Some(
                            best->0 as nat,
                        );
                    assert(0 <= j < i + 1 && inning_of(self.entries@[j].0@) == Some(
                        best->0 as nat,
                    ));
                }
            }
            i += 1;
        }
        proof {
            assert forall|name: Seq<char>|
                self@.dom().contains(name) && (#[trigger] inning_of(name)) is Some implies best
                is Some && inning_of(name)->0 <= best->0 by {
                lemma_table_domain(self.entries@, name);
            }
            if best is Some {
                let j = choose|j: int|
                    0 <= j < self.entries@.len() && inning_of((#[trigger] self.entries@[j]).0@)
                        == Some(best->0 as nat);
                lemma_table_domain(self.entries@, self.entries@[j].0@);
            }
        }
        best
    }
}

proof fn lemma_table_update(entries: Seq<(String, String)>, i: int, entry: (String, String))
    requires
        distinct_names(entries),
        0 <= i < entries.len(),
        entry.0@ == entries[i].0@,
    ensures
        distinct_names(entries.update(i, entry)),
        table_of(entries.update(i, entry)) == table_of(entries).insert(entry.0@, entry.1@),
    decreases entries.len(),
{
    let after = entries.update(i, entry);
    let before = entries.drop_last();
    assert(distinct_names(before)) by {
        assert forall|a: int, b: int| 0 <= a < b < before.len() implies #[trigger] before[a].0@
            != #[trigger] before[b].0@ by {
            assert(entries[a].0@ != entries[b].0@);
        }
    }
    assert(distinct_names(after)) by {
        assert forall|a: int, b: int| 0 <= a < b < after.len() implies #[trigger] after[a].0@
            != #[trigger] after[b].0@ by {
            assert(entries[a].0@ != entries[b].0@);
        }
    }
    if i < before.len() {
        lemma_table_update(before, i, entry);
        assert(after.drop_last() == before.update(i, entry));
        assert(entries[i].0@ != entries[entries.len() - 1].0@);
    } else {
        assert(after.drop_last() == before);
    }
    assert(table_of(after) =~= table_of(entries).insert(entry.0@, entry.1@));
}

/// The highest inning of names is that of one of them, and no name stands for a higher one;
/// there is none where no name stands for an inning.
pub proof fn law_highest_inning(names: Set<Seq<char>>)
    ensures
        highest_inning(names) matches Some(inning) ==> {
            &&& exists|name: Seq<char>|
                names.contains(name) && #[trigger] parsed_count(name, usize::MAX as nat) == Some(
                    inning,
                )
            &&& forall|name: Seq<char>|
                names.contains(name) && (#[trigger] parsed_count(name, usize::MAX as nat)) is Some
                    ==> parsed_count(name, usize::MAX as nat)->0 <= inning
        },
        highest_inning(names) is None ==> forall|name: Seq<char>|
            names.contains(name) ==> (#[trigger] parsed_count(name, usize::MAX as nat)) is None,
{
    if exists|inning: nat| is_highest(names, inning) {
        let inning = choose|inning: nat| is_highest(names, inning);
        lemma_highest_inning(names, inning);
        let name = choose|name: Seq<char>|
            names.contains(name) && #[trigger] inning_of(name) == Some(inning);
        assert(parsed_count(name, usize::MAX as nat) == Some(inning));
        assert forall|name: Seq<char>|
            names.contains(name) && (#[trigger] parsed_count(name, usize::MAX as nat))
                is Some implies parsed_count(name, usize::MAX as nat)->0 <= inning by {
            assert(inning_of(name) is Some);
        }
    } else {
        assert forall|name: Seq<char>| names.contains(name) implies (#[trigger] parsed_count(
            name,
            usize::MAX as nat,
        )) is None by {
            if inning_of(name) is Some {
                lemma_some_inning_is_highest(names, name);
            }
        }
    }
}

/// Innings are bounded, so one of them is the highest.
proof fn lemma_some_inning_is_highest(names: Set<Seq<char>>, name: Seq<char>)
    requires
        names.contains(name),
        inning_of(name) is Some,
    ensures
        exists|inning: nat| is_highest(names, inning),
    decreases usize::MAX - inning_of(name)->0,
{
    let inning = inning_of(name)->0;
    if !is_highest(names, inning) {
        let other = choose|other: Seq<char>|
            names.contains(other) && (#[trigger] inning_of(other)) is Some && inning_of(other)->0
                > inning;
        lemma_some_inning_is_highest(names, other);
    }
}

} // verus!
