//! Which rules have been put in place for which scope.

use vstd::prelude::*;

use crate::text::same_text;

verus! {

/// A rule that was put in place.
#[derive(Clone, Copy, Debug, PartialEq, Eq, Structural)]
pub struct RuleRef {
    pub handle: u64,
}

/// The rules of one scope.
struct Scope {
    key: String,
    rules: Vec<RuleRef>,
}

/// The rules that were put in place, by scope.
pub struct RuleRegistry {
    scopes: Vec<Scope>,
}

/// The handles of rules.
pub open spec fn handles_of(rules: Seq<RuleRef>) -> Seq<u64> {
    rules.map_values(|rule: RuleRef| rule.handle)
}

impl View for RuleRegistry {
    type V = Map<Seq<char>, Seq<u64>>;

    /// The handles of each scope that has been registered.
    closed spec fn view(&self) -> Map<Seq<char>, Seq<u64>> {
        Map::new(
            |key: Seq<char>| exists|i: int| self.holds(i, key),
            |key: Seq<char>| handles_of(self.scopes@[choose|i: int| self.holds(i, key)].rules@),
        )
    }
}

impl RuleRegistry {
    spec fn holds(&self, i: int, key: Seq<char>) -> bool {
        0 <= i < self.scopes@.len() && self.scopes@[i].key@ == key
    }

    /// No scope is kept twice.
    pub closed spec fn well_formed(&self) -> bool {
        forall|i: int, j: int|
            0 <= i < j < self.scopes@.len() ==> self.scopes@[i].key@ != self.scopes@[j].key@
    }

    proof fn holds_means(&self, i: int)
        requires
            self.well_formed(),
            0 <= i < self.scopes@.len(),
        ensures
            self@.dom().contains(self.scopes@[i].key@),
            self@[self.scopes@[i].key@] == handles_of(self.scopes@[i].rules@),
    {
        let key = self.scopes@[i].key@;
        assert(self.holds(i, key));
        let k = choose|k: int| self.holds(k, key);
        assert(k == i);
    }

    /// A registry without rules.
    pub fn new() -> (registry: Self)
        ensures
            registry.well_formed(),
            registry@ == Map::<Seq<char>, Seq<u64>>::empty(),
    {
        let registry = RuleRegistry { scopes: Vec::new() };
        assert(registry@ =~= Map::<Seq<char>, Seq<u64>>::empty());
        registry
    }

    fn position(&self, scope_key: &str) -> (place: Option<usize>)
        requires
            self.well_formed(),
        ensures
            match place {
                Some(i) => self.holds(i as int, scope_key@),
                None => forall|i: int| !self.holds(i, scope_key@),
            },
    {
        let mut i: usize = 0;
        while i < self.scopes.len()
            invariant
                i <= self.scopes@.len(),
                forall|k: int| 0 <= k < i ==> !self.holds(k, scope_key@),
            decreases self.scopes@.len() - i,
        {
            if same_text(self.scopes[i].key.as_str(), scope_key) {
                return Some(i);
            }
            i += 1;
        }
        None
    }

    /// Takes the rules of a scope out of the registry.
    pub fn take_rule_handles(&mut self, scope_key: &str) -> (handles: Option<Vec<u64>>)
        requires
            old(self).well_formed(),
        ensures
            final(self).well_formed(),
            final(self)@ == old(self)@.remove(scope_key@),
            match handles {
                Some(taken) => old(self)@.dom().contains(scope_key@) && taken@
                    == old(self)@[scope_key@],
                None => !old(self)@.dom().contains(scope_key@),
            },
    {
        let ghost before = *self;
        match self.position(scope_key) {
            Some(place) => {
                proof {
                    before.holds_means(place as int);
                }
                let scope = self.scopes.remove(place);
                let mut handles: Vec<u64> = Vec::new();
                let mut i: usize = 0;
                while i < scope.rules.len()
                    invariant
                        i <= scope.rules@.len(),
                        handles@ == handles_of(scope.rules@).take(i as int),
                    decreases scope.rules@.len() - i,
                {
                    handles.push(scope.rules[i].handle);
                    assert(handles@ =~= handles_of(scope.rules@).take(i + 1));
                    i += 1;
                }
                assert(handles@ =~= handles_of(scope.rules@));
                proof {
                    self.removed(before, place as int);
                }
                Some(handles)
            },
            None => {
                assert(self@ =~= before@.remove(scope_key@));
                None
            },
        }
    }

    proof fn removed(&self, before: RuleRegistry, place: int)
        requires
            before.well_formed(),
            0 <= place < before.scopes@.len(),
            self.scopes@ == before.scopes@.remove(place),
        ensures
            self.well_formed(),
            self@ == before@.remove(before.scopes@[place].key@),
    {
        let gone = before.scopes@[place].key@;
        assert forall|i: int, j: int| 0 <= i < j < self.scopes@.len() implies self.scopes@[i].key@
            != self.scopes@[j].key@ by {
            let a = if i < place { i } else { i + 1 };
            let b = if j < place { j } else { j + 1 };
            assert(self.scopes@[i] == before.scopes@[a]);
            assert(self.scopes@[j] == before.scopes@[b]);
        }
        assert forall|key: Seq<char>|
            self@.dom().contains(key) <==> #[trigger] before@.remove(gone).dom().contains(key) by {
            if exists|i: int| self.holds(i, key) {
                let i = choose|i: int| self.holds(i, key);
                let a = if i < place { i } else { i + 1 };
                assert(before.holds(a, key));
                assert(self.scopes@[i] == before.scopes@[a]);
            }
            if key != gone && exists|i: int| before.holds(i, key) {
                let a = choose|a: int| before.holds(a, key);
                let i = if a < place { a } else { a - 1 };
                assert(self.scopes@[i] == before.scopes@[a]);
                assert(self.holds(i, key));
            }
        }
        assert forall|key: Seq<char>| self@.dom().contains(key) implies #[trigger] self@[key]
            == before@.remove(gone)[key] by {
            let i = choose|i: int| self.holds(i, key);
            let a = if i < place { i } else { i + 1 };
            assert(self.scopes@[i] == before.scopes@[a]);
            self.holds_means(i);
            before.holds_means(a);
        }
        assert(self@ =~= before@.remove(gone));
    }

    proof fn added(&self, before: RuleRegistry, scope: Scope)
        requires
            before.well_formed(),
            !before@.dom().contains(scope.key@),
            self.scopes@ == before.scopes@.push(scope),
        ensures
            self.well_formed(),
            self@ == before@.insert(scope.key@, handles_of(scope.rules@)),
    {
        let size = before.scopes@.len() as int;
        let new = before@.insert(scope.key@, handles_of(scope.rules@));
        assert forall|i: int, j: int| 0 <= i < j < self.scopes@.len() implies self.scopes@[i].key@
            != self.scopes@[j].key@ by {
            assert(self.scopes@[i] == before.scopes@[i]);
            if j == size {
                before.holds_means(i);
            } else {
                assert(self.scopes@[j] == before.scopes@[j]);
            }
        }
        assert forall|key: Seq<char>|
            self@.dom().contains(key) <==> #[trigger] new.dom().contains(key) by {
            if exists|i: int| self.holds(i, key) {
                let i = choose|i: int| self.holds(i, key);
                if i < size {
                    assert(before.holds(i, key));
                }
            }
            if key == scope.key@ {
                assert(self.holds(size, key));
            } else if exists|i: int| before.holds(i, key) {
                let i = choose|i: int| before.holds(i, key);
                assert(self.holds(i, key));
            }
        }
        assert forall|key: Seq<char>| self@.dom().contains(key) implies #[trigger] self@[key]
            == new[key] by {
            let i = choose|i: int| self.holds(i, key);
            self.holds_means(i);
            if i < size {
                before.holds_means(i);
            }
        }
        assert(self@ =~= new);
    }

    /// Keeps the rules of a scope; those kept for it before are forgotten.
    pub fn register_rule_handles(&mut self, scope_key: &str, handles: Vec<u64>)
        requires
            old(self).well_formed(),
        ensures
            final(self).well_formed(),
            final(self)@ == old(self)@.insert(scope_key@, handles@),
    {
        let ghost start = self@;
        let _ = self.take_rule_handles(scope_key);
        let ghost before = *self;
        let mut rules: Vec<RuleRef> = Vec::new();
        let mut i: usize = 0;
        while i < handles.len()
            invariant
                i <= handles@.len(),
                handles_of(rules@) == handles@.take(i as int),
            decreases handles@.len() - i,
        {
            let ghost earlier = handles_of(rules@);
            rules.push(RuleRef { handle: handles[i] });
            assert(handles_of(rules@) =~= earlier.push(handles@[i as int]));
            assert(handles_of(rules@) =~= handles@.take(i + 1));
            i += 1;
        }
        assert(handles_of(rules@) =~= handles@);
        let scope = Scope { key: scope_key.to_owned(), rules };
        let ghost added = scope;
        self.scopes.push(scope);
        proof {
            self.added(before, added);
            assert(self@ =~= start.insert(scope_key@, handles@));
        }
    }

    /// Forgets all rules.
    pub fn clear(&mut self)
        ensures
            final(self).well_formed(),
            final(self)@ == Map::<Seq<char>, Seq<u64>>::empty(),
    {
        self.scopes.clear();
        assert(self@ =~= Map::<Seq<char>, Seq<u64>>::empty());
    }
}

} // verus!
