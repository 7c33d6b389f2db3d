//! The map from old package names to new ones that the first phase builds.
use vstd::prelude::*;

verus! {

/// What a list of (old, new) pairs means as a map: each old name maps to the
/// new name of the last pair that carries it.
pub open spec fn pairs_map(s: Seq<(Seq<char>, Seq<char>)>) -> Map<Seq<char>, Seq<char>>
    decreases s.len(),
{
    if s.len() == 0 {
        Map::empty()
    } else {
        pairs_map(s.drop_last()).insert(s.last().0, s.last().1)
    }
}

/// The pairs kept among the outcomes of the first phase, in member order.
pub open spec fn chosen_pairs(outcomes: Seq<Option<(Seq<char>, Seq<char>)>>) -> Seq<(Seq<char>, Seq<char>)>
    decreases outcomes.len(),
{
    if outcomes.len() == 0 {
        Seq::empty()
    } else {
        let rest = chosen_pairs(outcomes.drop_last());
        match outcomes.last() {
            Some(p) => rest.push(p),
            None => rest,
        }
    }
}

/// The rename map built from the outcomes of the first phase.
pub open spec fn outcome_map(outcomes: Seq<Option<(Seq<char>, Seq<char>)>>) -> Map<Seq<char>, Seq<char>> {
    pairs_map(chosen_pairs(outcomes))
}

/// The old name of a renamed member.
pub open spec fn renamed_from(o: Option<(Seq<char>, Seq<char>)>) -> Seq<char> {
    match o {
        Some(p) => p.0,
        None => Seq::empty(),
    }
}

/// The new name of a renamed member.
pub open spec fn renamed_to(o: Option<(Seq<char>, Seq<char>)>) -> Seq<char> {
    match o {
        Some(p) => p.1,
        None => Seq::empty(),
    }
}

/// Whether the outcome renames a member from `k`.
pub open spec fn renames_from(o: Option<(Seq<char>, Seq<char>)>, k: Seq<char>) -> bool {
    o is Some && renamed_from(o) == k
}

pub open spec fn pair_view(p: (String, String)) -> (Seq<char>, Seq<char>) {
    (p.0@, p.1@)
}

pub open spec fn outcome_view(o: Option<(String, String)>) -> Option<(Seq<char>, Seq<char>)> {
    match o {
        Some(p) => Some(pair_view(p)),
        None => None,
    }
}

/// A name that occurs as an old name in no pair is not in the map.
proof fn lemma_pairs_map_absent(s: Seq<(Seq<char>, Seq<char>)>, k: Seq<char>)
    requires
        forall|j: int| 0 <= j < s.len() ==> s[j].0 != k,
    ensures
        !pairs_map(s).contains_key(k),
    decreases s.len(),
{
    if s.len() > 0 {
        lemma_pairs_map_absent(s.drop_last(), k);
    }
}

/// The last pair that carries a name gives its entry.
proof fn lemma_pairs_map_last(s: Seq<(Seq<char>, Seq<char>)>, i: int)
    requires
        0 <= i < s.len(),
        forall|j: int| i < j < s.len() ==> s[j].0 != s[i].0,
    ensures
        pairs_map(s).contains_key(s[i].0),
        pairs_map(s)[s[i].0] == s[i].1,
    decreases s.len(),
{
    if i < s.len() - 1 {
        lemma_pairs_map_last(s.drop_last(), i);
    }
}

/// Every name in the map is the old name of some pair.
proof fn lemma_pairs_map_present(s: Seq<(Seq<char>, Seq<char>)>, k: Seq<char>)
    requires
        pairs_map(s).contains_key(k),
    ensures
        exists|j: int| 0 <= j < s.len() && s[j].0 == k,
    decreases s.len(),
{
    if s.last().0 != k {
        lemma_pairs_map_present(s.drop_last(), k);
        let j = choose|j: int| 0 <= j < s.drop_last().len() && s.drop_last()[j].0 == k;
        assert(s[j].0 == k);
    }
}

/// The pairs kept are exactly the present outcomes, in order.
proof fn lemma_chosen_pairs(outcomes: Seq<Option<(Seq<char>, Seq<char>)>>, k: Seq<char>)
    ensures
        (exists|j: int| 0 <= j < chosen_pairs(outcomes).len() && chosen_pairs(outcomes)[j].0 == k)
            <==> (exists|i: int| 0 <= i < outcomes.len() && renames_from(#[trigger] outcomes[i], k)),
    decreases outcomes.len(),
{
    if outcomes.len() > 0 {
        let init = outcomes.drop_last();
        lemma_chosen_pairs(init, k);
        let rest = chosen_pairs(init);
        if exists|j: int| 0 <= j < chosen_pairs(outcomes).len() && chosen_pairs(outcomes)[j].0 == k {
            let j = choose|j: int| 0 <= j < chosen_pairs(outcomes).len() && chosen_pairs(outcomes)[j].0 == k;
            if j < rest.len() {
                assert(chosen_pairs(outcomes)[j] == rest[j]);
                let i = choose|i: int| 0 <= i < init.len() && renames_from(#[trigger] init[i], k);
                assert(outcomes[i] == init[i]);
            } else {
                assert(renames_from(outcomes[outcomes.len() - 1], k));
            }
        }
        if exists|i: int| 0 <= i < outcomes.len() && renames_from(#[trigger] outcomes[i], k) {
            let i = choose|i: int| 0 <= i < outcomes.len() && renames_from(#[trigger] outcomes[i], k);
            if i < outcomes.len() - 1 {
                assert(init[i] == outcomes[i]);
                let j = choose|j: int| 0 <= j < rest.len() && rest[j].0 == k;
                assert(chosen_pairs(outcomes)[j] == rest[j]);
            } else {
                assert(chosen_pairs(outcomes)[rest.len() as int].0 == k);
            }
        }
    }
}

/// Any old name of a pair is in the map.
proof fn lemma_pairs_map_has(s: Seq<(Seq<char>, Seq<char>)>, j: int)
    requires
        0 <= j < s.len(),
    ensures
        pairs_map(s).contains_key(s[j].0),
    decreases s.len(),
{
    if j < s.len() - 1 {
        lemma_pairs_map_has(s.drop_last(), j);
    }
}

/// One more outcome adds its pair to the map, if it has one.
proof fn lemma_outcome_map_push(s: Seq<Option<(Seq<char>, Seq<char>)>>, o: Option<(Seq<char>, Seq<char>)>)
    ensures
        outcome_map(s.push(o)) == match o {
            Some(p) => outcome_map(s).insert(p.0, p.1),
            None => outcome_map(s),
        },
{
    assert(s.push(o).drop_last() =~= s);
    if let Some(p) = o {
        assert(chosen_pairs(s).push(p).drop_last() =~= chosen_pairs(s));
    }
}

/// The map holds a name exactly when some member was renamed from it.
pub proof fn lemma_outcome_map_keys(outcomes: Seq<Option<(Seq<char>, Seq<char>)>>, k: Seq<char>)
    ensures
        outcome_map(outcomes).contains_key(k) <==> (exists|i: int|
            0 <= i < outcomes.len() && renames_from(#[trigger] outcomes[i], k)),
{
    lemma_chosen_pairs(outcomes, k);
    let s = chosen_pairs(outcomes);
    if outcome_map(outcomes).contains_key(k) {
        lemma_pairs_map_present(s, k);
    } else if exists|j: int| 0 <= j < s.len() && s[j].0 == k {
        let j = choose|j: int| 0 <= j < s.len() && s[j].0 == k;
        lemma_pairs_map_has(s, j);
    }
}

/// A member renamed from a name that no other member was renamed from has its
/// new name in the map under its old name.
pub proof fn lemma_outcome_map_entry(outcomes: Seq<Option<(Seq<char>, Seq<char>)>>, i: int)
    requires
        0 <= i < outcomes.len(),
        outcomes[i] is Some,
        forall|j: int| 0 <= j < outcomes.len() && j != i ==> !(renames_from(#[trigger] outcomes[j], renamed_from(outcomes[i]))),
    ensures
        outcome_map(outcomes).contains_key(renamed_from(outcomes[i])),
        outcome_map(outcomes)[renamed_from(outcomes[i])] == renamed_to(outcomes[i]),
    decreases outcomes.len(),
{
    let init = outcomes.drop_last();
    let last = outcomes.last();
    let k = renamed_from(outcomes[i]);
    assert(init.push(last) =~= outcomes);
    lemma_outcome_map_push(init, last);
    if i < outcomes.len() - 1 {
        assert forall|j: int| 0 <= j < init.len() && j != i implies !(renames_from(#[trigger] init[j], renamed_from(init[i]))) by {
            assert(init[j] == outcomes[j]);
        }
        assert(init[i] == outcomes[i]);
        lemma_outcome_map_entry(init, i);
        assert(!renames_from(outcomes[outcomes.len() - 1], k));
    }
}

/// When no member was renamed the map is empty, and nothing is propagated.
pub proof fn lemma_outcome_map_empty(outcomes: Seq<Option<(Seq<char>, Seq<char>)>>)
    requires
        forall|i: int| 0 <= i < outcomes.len() ==> #[trigger] outcomes[i] is None,
    ensures
        outcome_map(outcomes) == Map::<Seq<char>, Seq<char>>::empty(),
{
    assert forall|k: Seq<char>| !outcome_map(outcomes).contains_key(k) by {
        lemma_outcome_map_keys(outcomes, k);
    }
    assert(outcome_map(outcomes) =~= Map::<Seq<char>, Seq<char>>::empty());
}

/// Old package names and the new names they are renamed to.
pub struct RenameMap {
    pairs: Vec<(String, String)>,
}

impl View for RenameMap {
    type V = Map<Seq<char>, Seq<char>>;

    closed spec fn view(&self) -> Map<Seq<char>, Seq<char>> {
        pairs_map(self.pairs@.map_values(|p: (String, String)| pair_view(p)))
    }
}

impl RenameMap {
    pub fn new() -> (r: RenameMap)
        ensures
            r@ == Map::<Seq<char>, Seq<char>>::empty(),
    {
        RenameMap { pairs: Vec::new() }
    }

    /// Maps `old` to `new`, replacing what `old` mapped to before.
    pub fn insert(&mut self, from: String, to: String)
        ensures
            final(self)@ == old(self)@.insert(from@, to@),
    {
        let ghost before = self.pairs@;
        self.pairs.push((from, to));
        assert(self.pairs@.map_values(|p: (String, String)| pair_view(p)).drop_last()
            =~= before.map_values(|p: (String, String)| pair_view(p)));
    }

    /// The map of the outcomes of the first phase: one entry for each member
    /// that was renamed, under its old name.
    pub fn from_outcomes(outcomes: &Vec<Option<(String, String)>>) -> (r: RenameMap)
        ensures
            r@ == outcome_map(outcomes@.map_values(|o: Option<(String, String)>| outcome_view(o))),
    {
        let ghost all = outcomes@.map_values(|o: Option<(String, String)>| outcome_view(o));
        let mut r = RenameMap::new();
        let mut i: usize = 0;
        proof {
            assert(all.take(0) =~= Seq::<Option<(Seq<char>, Seq<char>)>>::empty());
        }
        while i < outcomes.len()
            invariant
                i <= outcomes.len(),
                all == outcomes@.map_values(|o: Option<(String, String)>| outcome_view(o)),
                r@ == outcome_map(all.take(i as int)),
            decreases outcomes.len() - i,
        {
            proof {
                assert(all.take(i as int).push(all[i as int]) =~= all.take(i + 1));
                lemma_outcome_map_push(all.take(i as int), all[i as int]);
            }
            match &outcomes[i] {
                Some((from, to)) => {
                    r.insert(from.clone(), to.clone());
                },
                None => {},
            }
            i = i + 1;
        }
        proof {
            assert(all.take(i as int) =~= all);
        }
        r
    }

    /// The new name of `name`, if it is renamed.
    pub fn get(&self, name: &String) -> (r: Option<&String>)
        ensures
            match r {
                Some(v) => self@.contains_key(name@) && self@[name@] == v@,
                None => !self@.contains_key(name@),
            },
    {
        let ghost s = self.pairs@.map_values(|p: (String, String)| pair_view(p));
        let mut i: usize = self.pairs.len();
        while i > 0
            invariant
                i <= self.pairs.len(),
                s == self.pairs@.map_values(|p: (String, String)| pair_view(p)),
                forall|j: int| i <= j < s.len() ==> s[j].0 != name@,
            decreases i,
        {
            i = i - 1;
            if self.pairs[i].0 == *name {
                proof {
                    lemma_pairs_map_last(s, i as int);
                }
                return Some(&self.pairs[i].1);
            }
        }
        proof {
            lemma_pairs_map_absent(s, name@);
        }
        None
    }

    pub fn len(&self) -> (r: usize)
        ensures
            r == 0 <==> self@.is_empty(),
    {
        proof {
            let s = self.pairs@.map_values(|p: (String, String)| pair_view(p));
            if s.len() > 0 {
                assert(self@.contains_key(s.last().0));
            } else {
                assert(self@ =~= Map::<Seq<char>, Seq<char>>::empty());
            }
        }
        self.pairs.len()
    }

    /// Whether no package is renamed; the second phase is skipped then.
    pub fn is_empty(&self) -> (r: bool)
        ensures
            r == self@.is_empty(),
    {
        self.len() == 0
    }
}

} // verus!
