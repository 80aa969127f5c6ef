//! The outcome of a demo listing per server address, as a fan-out over many
//! servers fills it: each address holds the outcome recorded for it last.
use vstd::prelude::*;
use vstd::string::StringExecFns;

verus! {

/// The outcome of one demo listing: the demo filenames, or why none came.
pub type Outcome = Result<Vec<String>, String>;

/// The addresses of a sequence of entries, in order.
pub open spec fn addresses(e: Seq<(String, Outcome)>) -> Seq<Seq<char>> {
    e.map_values(|p: (String, Outcome)| p.0@)
}

/// A position in `e` that holds the address `k`.
pub open spec fn position_of(e: Seq<(String, Outcome)>, k: Seq<char>) -> int {
    choose|i: int| 0 <= i < e.len() && e[i].0@ == k
}

/// The map that entries with distinct addresses stand for.
pub open spec fn entries_map(e: Seq<(String, Outcome)>) -> Map<Seq<char>, Outcome> {
    Map::new(
        |k: Seq<char>| exists|i: int| 0 <= i < e.len() && e[i].0@ == k,
        |k: Seq<char>| e[position_of(e, k)].1,
    )
}

/// The map that recording `outcomes` one after the other makes: a later
/// outcome for an address replaces an earlier one.
pub open spec fn outcomes_map(outcomes: Seq<(String, Outcome)>) -> Map<Seq<char>, Outcome>
    decreases outcomes.len(),
{
    if outcomes.len() == 0 {
        Map::empty()
    } else {
        outcomes_map(outcomes.drop_last()).insert(outcomes.last().0@, outcomes.last().1)
    }
}

proof fn lemma_entry_lookup(e: Seq<(String, Outcome)>, i: int)
    requires
        addresses(e).no_duplicates(),
        0 <= i < e.len(),
    ensures
        entries_map(e).contains_key(e[i].0@),
        entries_map(e)[e[i].0@] == e[i].1,
{
    let k = e[i].0@;
    assert(addresses(e)[i] == k);
    assert(0 <= i < e.len() && e[i].0@ == k);
    let j = position_of(e, k);
    assert(addresses(e)[j] == k);
    if j != i {
        assert(addresses(e)[j] != addresses(e)[i]);
    }
    assert(entries_map(e).dom().contains(k));
    assert(entries_map(e)[k] == e[j].1);
}

proof fn lemma_entries_len(e: Seq<(String, Outcome)>)
    requires
        addresses(e).no_duplicates(),
    ensures
        entries_map(e).dom() == addresses(e).to_set(),
        entries_map(e).dom().len() == e.len(),
{
    assert forall|k: Seq<char>| #[trigger] entries_map(e).dom().contains(k) implies addresses(
        e,
    ).to_set().contains(k) by {
        let i = choose|i: int| 0 <= i < e.len() && e[i].0@ == k;
        assert(addresses(e)[i] == k);
    }
    assert forall|k: Seq<char>| #[trigger] addresses(e).to_set().contains(k) implies entries_map(
        e,
    ).dom().contains(k) by {
        let i = choose|i: int| 0 <= i < addresses(e).len() && addresses(e)[i] == k;
        assert(e[i].0@ == k);
    }
    assert(entries_map(e).dom() =~= addresses(e).to_set());
    addresses(e).unique_seq_to_set();
}

proof fn lemma_outcomes_map_is_entries_map(s: Seq<(String, Outcome)>)
    requires
        addresses(s).no_duplicates(),
    ensures
        outcomes_map(s) == entries_map(s),
    decreases s.len(),
{
    if s.len() > 0 {
        let p = s.drop_last();
        let n = s.len() - 1;
        assert forall|a: int, b: int|
            0 <= a < addresses(p).len() && 0 <= b < addresses(p).len() && a != b implies addresses(
            p,
        )[a] != addresses(p)[b] by {
            assert(addresses(s)[a] != addresses(s)[b]);
        }
        lemma_outcomes_map_is_entries_map(p);
        let m = entries_map(p).insert(s[n].0@, s[n].1);
        assert forall|k: Seq<char>| #[trigger] m.contains_key(k) == entries_map(s).contains_key(k) by {
            if entries_map(p).contains_key(k) {
                let i = position_of(p, k);
                assert(s[i].0@ == k);
            }
            if entries_map(s).contains_key(k) {
                let i = position_of(s, k);
                if i < n {
                    assert(p[i].0@ == k);
                }
            }
            if k == s[n].0@ {
                assert(s[n].0@ == k);
            }
        }
        assert forall|k: Seq<char>| #[trigger] m.contains_key(k) implies m[k] == entries_map(s)[k] by {
            let i = position_of(s, k);
            assert(addresses(s)[i] == k);
            lemma_entry_lookup(s, i);
            if i < n {
                assert(addresses(p)[i] == k);
                assert(addresses(s)[n] != k);
                lemma_entry_lookup(p, i);
            }
        }
        assert(m =~= entries_map(s));
    } else {
        assert(entries_map(s) =~= Map::<Seq<char>, Outcome>::empty());
    }
}

/// When every address comes once, recording the outcomes gives a record that
/// holds exactly those addresses, each with its own outcome: no address is
/// lost or doubled, and one address's outcome does not touch another's.
pub proof fn lemma_each_address_holds_its_outcome(s: Seq<(String, Outcome)>)
    requires
        addresses(s).no_duplicates(),
    ensures
        outcomes_map(s).dom() == addresses(s).to_set(),
        outcomes_map(s).len() == s.len(),
        forall|i: int| 0 <= i < s.len() ==> #[trigger] outcomes_map(s)[s[i].0@] == s[i].1,
{
    lemma_outcomes_map_is_entries_map(s);
    lemma_entries_len(s);
    assert forall|i: int| 0 <= i < s.len() implies #[trigger] outcomes_map(s)[s[i].0@] == s[i].1 by {
        lemma_entry_lookup(s, i);
    }
}

/// When every address comes once, the order in which the outcomes complete
/// does not change the record they make.
pub proof fn lemma_completion_order_is_irrelevant(
    s1: Seq<(String, Outcome)>,
    s2: Seq<(String, Outcome)>,
)
    requires
        addresses(s1).no_duplicates(),
        addresses(s2).no_duplicates(),
        s1.to_multiset() == s2.to_multiset(),
    ensures
        outcomes_map(s1) == outcomes_map(s2),
{
    broadcast use vstd::seq_lib::to_multiset_contains;

    lemma_outcomes_map_is_entries_map(s1);
    lemma_outcomes_map_is_entries_map(s2);
    let m1 = entries_map(s1);
    let m2 = entries_map(s2);
    assert forall|k: Seq<char>| #[trigger] m1.contains_key(k) implies m2.contains_key(k)
        && m2[k] == m1[k] by {
        let i = position_of(s1, k);
        assert(s1.contains(s1[i]));
        assert(s1.to_multiset().count(s1[i]) > 0);
        assert(s2.to_multiset().count(s1[i]) > 0);
        let j = choose|j: int| 0 <= j < s2.len() && s2[j] == s1[i];
        lemma_entry_lookup(s1, i);
        lemma_entry_lookup(s2, j);
    }
    assert forall|k: Seq<char>| #[trigger] m2.contains_key(k) implies m1.contains_key(k) by {
        let j = position_of(s2, k);
        assert(s2.contains(s2[j]));
        assert(s2.to_multiset().count(s2[j]) > 0);
        assert(s1.to_multiset().count(s2[j]) > 0);
        let i = choose|i: int| 0 <= i < s1.len() && s1[i] == s2[j];
        assert(s1[i].0@ == k);
    }
    assert(m1 =~= m2);
}

/// Demo listings by server address.
pub struct PerAddress {
    entries: Vec<(String, Outcome)>,
}

impl PerAddress {
    /// The record as a map from address to outcome.
    pub closed spec fn view(&self) -> Map<Seq<char>, Outcome> {
        entries_map(self.entries@)
    }

    /// No address is held twice.
    pub closed spec fn wf(&self) -> bool {
        addresses(self.entries@).no_duplicates()
    }

    /// A record that holds no address.
    pub fn new() -> (r: PerAddress)
        ensures
            r.wf(),
            r.view() == Map::<Seq<char>, Outcome>::empty(),
    {
        let r = PerAddress { entries: Vec::new() };
        assert(r.view() =~= Map::<Seq<char>, Outcome>::empty());
        r
    }

    /// Records `outcome` for `address`, in place of what it held before.
    pub fn insert(&mut self, address: String, outcome: Outcome)
        requires
            old(self).wf(),
        ensures
            final(self).wf(),
            final(self).view() == old(self).view().insert(address@, outcome),
    {
        let ghost k = address@;
        let ghost e0 = self.entries@;
        let ghost m0 = entries_map(e0);
        let mut j: usize = 0;
        while j < self.entries.len()
            invariant
                self.entries@ == e0,
                k == address@,
                j <= e0.len(),
                forall|i: int| 0 <= i < j ==> e0[i].0@ != k,
            ensures
                j <= e0.len(),
                forall|i: int| 0 <= i < j ==> e0[i].0@ != k,
                j < e0.len() ==> e0[j as int].0@ == k,
            decreases e0.len() - j,
        {
            if self.entries[j].0.eq(&address) {
                break;
            }
            j = j + 1;
        }
        if j < self.entries.len() {
            proof {
                assert(e0[j as int].0@ == k);
            }
            self.entries[j] = (address, outcome);
            proof {
                let e1 = self.entries@;
                assert(e1 == e0.update(j as int, e1[j as int]));
                assert(addresses(e1) =~= addresses(e0).update(j as int, k));
                assert(addresses(e0)[j as int] == k);
                assert forall|a: int, b: int|
                    0 <= a < addresses(e1).len() && 0 <= b < addresses(e1).len() && a != b
                        implies addresses(e1)[a] != addresses(e1)[b] by {
                    assert(addresses(e0)[a] != addresses(e0)[b]);
                }
                assert forall|kk: Seq<char>|
                    #[trigger] entries_map(e1).contains_key(kk) == m0.insert(k, outcome).contains_key(kk)
                    by {
                    if entries_map(e1).contains_key(kk) {
                        let i = choose|i: int| 0 <= i < e1.len() && e1[i].0@ == kk;
                        if i != j {
                            assert(e0[i].0@ == kk);
                        }
                    }
                    if m0.contains_key(kk) {
                        let i = choose|i: int| 0 <= i < e0.len() && e0[i].0@ == kk;
                        if i != j {
                            assert(e1[i].0@ == kk);
                        } else {
                            assert(e1[j as int].0@ == kk);
                        }
                    }
                    if kk == k {
                        assert(e1[j as int].0@ == kk);
                    }
                }
                assert forall|kk: Seq<char>| #[trigger]
                    entries_map(e1).contains_key(kk) implies entries_map(e1)[kk] == m0.insert(
                    k,
                    outcome,
                )[kk] by {
                    let i = choose|i: int| 0 <= i < e1.len() && e1[i].0@ == kk;
                    assert(addresses(e1)[i] == kk);
                    lemma_entry_lookup(e1, i);
                    if i != j {
                        assert(addresses(e0)[i] == kk);
                        lemma_entry_lookup(e0, i);
                    }
                }
                assert(entries_map(e1) =~= m0.insert(k, outcome));
            }
        } else {
            self.entries.push((address, outcome));
            proof {
                let e1 = self.entries@;
                assert(addresses(e1) =~= addresses(e0).push(k));
                assert forall|a: int, b: int|
                    0 <= a < addresses(e1).len() && 0 <= b < addresses(e1).len() && a != b
                        implies addresses(e1)[a] != addresses(e1)[b] by {
                    if a < e0.len() && b < e0.len() {
                        assert(addresses(e0)[a] != addresses(e0)[b]);
                    }
                }
                assert forall|kk: Seq<char>|
                    #[trigger] entries_map(e1).contains_key(kk) == m0.insert(k, outcome).contains_key(kk)
                    by {
                    if entries_map(e1).contains_key(kk) {
                        let i = choose|i: int| 0 <= i < e1.len() && e1[i].0@ == kk;
                        if i < e0.len() {
                            assert(e0[i].0@ == kk);
                        }
                    }
                    if m0.contains_key(kk) {
                        let i = choose|i: int| 0 <= i < e0.len() && e0[i].0@ == kk;
                        assert(e1[i].0@ == kk);
                    }
                    if kk == k {
                        assert(e1[e0.len() as int].0@ == kk);
                    }
                }
                assert forall|kk: Seq<char>| #[trigger]
                    entries_map(e1).contains_key(kk) implies entries_map(e1)[kk] == m0.insert(
                    k,
                    outcome,
                )[kk] by {
                    let i = choose|i: int| 0 <= i < e1.len() && e1[i].0@ == kk;
                    assert(addresses(e1)[i] == kk);
                    lemma_entry_lookup(e1, i);
                    if i < e0.len() {
                        assert(addresses(e0)[i] == kk);
                        lemma_entry_lookup(e0, i);
                    }
                }
                assert(entries_map(e1) =~= m0.insert(k, outcome));
            }
        }
    }

    /// The outcome recorded for `address`, if any.
    pub fn get(&self, address: &str) -> (r: Option<&Outcome>)
        requires
            self.wf(),
        ensures
            r is Some <==> self.view().contains_key(address@),
            r matches Some(o) ==> *o == self.view()[address@],
    {
        let key = String::from_str(address);
        let mut j: usize = 0;
        while j < self.entries.len()
            invariant
                self.wf(),
                j <= self.entries.len(),
                key@ == address@,
                forall|i: int| 0 <= i < j ==> self.entries@[i].0@ != address@,
            decreases self.entries.len() - j,
        {
            if self.entries[j].0.eq(&key) {
                proof {
                    lemma_entry_lookup(self.entries@, j as int);
                }
                return Some(&self.entries[j].1);
            }
            j = j + 1;
        }
        None
    }

    /// How many addresses the record holds.
    pub fn len(&self) -> (r: usize)
        requires
            self.wf(),
        ensures
            r == self.view().len(),
    {
        proof {
            lemma_entries_len(self.entries@);
        }
        self.entries.len()
    }

    /// The record's entries, one per address, in no particular order.
    pub fn into_entries(self) -> (r: Vec<(String, Outcome)>)
        requires
            self.wf(),
        ensures
            addresses(r@).no_duplicates(),
            entries_map(r@) == self.view(),
    {
        self.entries
    }
}

/// Records `outcomes` one after the other, as they completed: each address
/// ends up holding the last outcome given for it.
pub fn collect_outcomes(outcomes: Vec<(String, Outcome)>) -> (r: PerAddress)
    ensures
        r.wf(),
        r.view() == outcomes_map(outcomes@),
{
    let ghost all = outcomes@;
    assert(all.len() == outcomes.len());
    let mut r = PerAddress::new();
    let mut rest = outcomes;
    let ghost n = all.len();
    let mut i: usize = 0;
    while rest.len() > 0
        invariant
            r.wf(),
            n == all.len(),
            n <= usize::MAX,
            i + rest@.len() == n,
            rest@ == all.skip(i as int),
            r.view() == outcomes_map(all.take(i as int)),
        decreases rest@.len(),
    {
        let (address, outcome) = rest.remove(0);
        proof {
            assert(rest@ =~= all.skip(i + 1));
        }
        proof {
            assert(all.take(i + 1).drop_last() =~= all.take(i as int));
        }
        r.insert(address, outcome);
        i = i + 1;
    }
    proof {
        assert(all.take(n as int) =~= all);
    }
    r
}

} // verus!
