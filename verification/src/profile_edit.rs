//! Editing the rules of a profile file: look-up, adding, replacing, deleting
//! and toggling rules by id.

use vstd::prelude::*;

use crate::config::ProfileRaw;
use crate::rules::RuleRaw;
use crate::seqs::{first_where, lemma_first_where, lemma_first_where_at, lemma_first_where_none};
use crate::text::str_eq;

verus! {

/// The raw rule has the id `id`.
pub open spec fn raw_has_id(id: Seq<char>) -> spec_fn(RuleRaw) -> bool {
    |r: RuleRaw| r.id@ == id
}

/// The raw rule does not have the id `id`.
pub open spec fn raw_lacks_id(id: Seq<char>) -> spec_fn(RuleRaw) -> bool {
    |r: RuleRaw| r.id@ != id
}

/// The raw rule with its `enabled` flag flipped.
pub open spec fn raw_flipped(r: RuleRaw) -> RuleRaw {
    RuleRaw { enabled: !r.enabled, ..r }
}

impl ProfileRaw {
    /// The index of the first rule with the id `id`.
    pub fn find_rule(&self, id: &str) -> (r: Option<usize>)
        ensures
            match r {
                Some(i) => first_where(self.rules@, raw_has_id(id@)) == Some(i as int),
                None => first_where(self.rules@, raw_has_id(id@)) is None,
            },
    {
        let mut i: usize = 0;
        while i < self.rules.len()
            invariant
                i <= self.rules@.len(),
                forall|j: int| 0 <= j < i ==> !raw_has_id(id@)(#[trigger] self.rules@[j]),
            decreases self.rules.len() - i,
        {
            if str_eq(self.rules[i].id.as_str(), id) {
                proof {
                    lemma_first_where_at(self.rules@, raw_has_id(id@), i as int);
                }
                return Some(i);
            }
            i = i + 1;
        }
        proof {
            lemma_first_where_none(self.rules@, raw_has_id(id@));
        }
        None
    }

    /// Appends a rule unless a rule with its id exists already; returns whether
    /// it was added. The meta section never changes.
    pub fn add_rule(&mut self, rule: RuleRaw) -> (added: bool)
        ensures
            added <==> first_where(old(self).rules@, raw_has_id(rule.id@)) is None,
            added ==> final(self).rules@ == old(self).rules@.push(rule),
            !added ==> final(self).rules@ == old(self).rules@,
            final(self).meta == old(self).meta,
    {
        match self.find_rule(rule.id.as_str()) {
            Some(_) => false,
            None => {
                self.rules.push(rule);
                true
            },
        }
    }

    /// Replaces the first rule with the id `old_id` by `rule`; returns whether
    /// there was such a rule (the profile is unchanged when there was not).
    pub fn replace_rule(&mut self, old_id: &str, rule: RuleRaw) -> (replaced: bool)
        ensures
            match first_where(old(self).rules@, raw_has_id(old_id@)) {
                Some(i) => replaced && final(self).rules@ == old(self).rules@.update(i, rule),
                None => !replaced && final(self).rules@ == old(self).rules@,
            },
            final(self).meta == old(self).meta,
    {
        match self.find_rule(old_id) {
            Some(i) => {
                proof {
                    lemma_first_where(self.rules@, raw_has_id(old_id@));
                }
                self.rules.set(i, rule);
                true
            },
            None => false,
        }
    }

    /// Flips the `enabled` flag of the first rule with the id `id` and returns
    /// its new value; `None`, with the profile unchanged, when there is none.
    pub fn toggle_rule(&mut self, id: &str) -> (r: Option<bool>)
        ensures
            match first_where(old(self).rules@, raw_has_id(id@)) {
                Some(i) => r == Some(!old(self).rules@[i].enabled)
                    && final(self).rules@ == old(self).rules@.update(i, raw_flipped(old(self).rules@[i])),
                None => r is None && final(self).rules@ == old(self).rules@,
            },
            final(self).meta == old(self).meta,
    {
        match self.find_rule(id) {
            Some(i) => {
                proof {
                    lemma_first_where(self.rules@, raw_has_id(id@));
                }
                let mut r = self.rules[i].duplicate();
                r.enabled = !r.enabled;
                let enabled = r.enabled;
                self.rules.set(i, r);
                Some(enabled)
            },
            None => None,
        }
    }

    /// Deletes every rule with the id `id`; returns whether any was deleted.
    pub fn delete_rule(&mut self, id: &str) -> (deleted: bool)
        ensures
            final(self).rules@ == old(self).rules@.filter(raw_lacks_id(id@)),
            deleted <==> exists|j: int| 0 <= j < old(self).rules@.len()
                && #[trigger] old(self).rules@[j].id@ == id@,
            final(self).meta == old(self).meta,
    {
        let ghost orig = self.rules@;
        let mut kept: Vec<RuleRaw> = Vec::new();
        let n = self.rules.len();
        let mut i: usize = 0;
        let mut found = false;
        while i < n
            invariant
                n == self.rules@.len(),
                self.rules@ == orig,
                i <= n,
                kept@ == orig.take(i as int).filter(raw_lacks_id(id@)),
                found <==> exists|j: int| 0 <= j < i && #[trigger] orig[j].id@ == id@,
            decreases n - i,
        {
            proof {
                assert(orig.take(i as int + 1) =~= orig.take(i as int).push(orig[i as int]));
                orig.take(i as int).lemma_filter_push(orig[i as int], raw_lacks_id(id@));
            }
            if str_eq(self.rules[i].id.as_str(), id) {
                found = true;
            } else {
                kept.push(self.rules[i].duplicate());
            }
            i = i + 1;
        }
        proof {
            assert(orig.take(n as int) =~= orig);
        }
        self.rules = kept;
        found
    }
}

/// Toggling the same rule of a profile twice leaves the profile's rules as
/// they were.
pub proof fn lemma_profile_toggle_twice(rules: Seq<RuleRaw>, id: Seq<char>)
    ensures
        ({
            let once = match first_where(rules, raw_has_id(id)) {
                Some(i) => rules.update(i, raw_flipped(rules[i])),
                None => rules,
            };
            let twice = match first_where(once, raw_has_id(id)) {
                Some(i) => once.update(i, raw_flipped(once[i])),
                None => once,
            };
            twice == rules
        }),
{
    lemma_first_where(rules, raw_has_id(id));
    match first_where(rules, raw_has_id(id)) {
        Some(i) => {
            let once = rules.update(i, raw_flipped(rules[i]));
            assert forall|j: int| 0 <= j < i implies !raw_has_id(id)(#[trigger] once[j]) by {
                assert(once[j] == rules[j]);
            }
            lemma_first_where_at(once, raw_has_id(id), i);
            assert(once.update(i, raw_flipped(once[i])) =~= rules);
        },
        None => {},
    }
}

/// After deleting by id, no rule of the profile has that id.
pub proof fn lemma_delete_removes_all(rules: Seq<RuleRaw>, id: Seq<char>)
    ensures
        forall|j: int| 0 <= j < rules.filter(raw_lacks_id(id)).len()
            ==> #[trigger] rules.filter(raw_lacks_id(id))[j].id@ != id,
{
    assert forall|j: int| 0 <= j < rules.filter(raw_lacks_id(id)).len()
        implies #[trigger] rules.filter(raw_lacks_id(id))[j].id@ != id by {
        rules.lemma_filter_pred(raw_lacks_id(id), j);
    }
}

} // verus!
