use vstd::prelude::*;
use crate::errors::{ErrorKind, EResult};
use crate::strutil::str_is;
use crate::text::{InlineV, Text};

verus! {

/// One replacement definition.
#[derive(Debug)]
pub struct ReplacementEntry {
    pub key: String,
    pub value: Text,
}

/// The expansion the first entry with key `k` records, if any.
pub open spec fn lookup(entries: Seq<ReplacementEntry>, k: Seq<char>) -> Option<Seq<InlineV>>
    decreases entries.len(),
{
    if entries.len() == 0 {
        None
    } else if entries[0].key@ == k {
        Some(entries[0].value@)
    } else {
        lookup(entries.drop_first(), k)
    }
}

proof fn lemma_lookup_push(entries: Seq<ReplacementEntry>, e: ReplacementEntry, k: Seq<char>)
    ensures
        lookup(entries.push(e), k) == (if lookup(entries, k) is Some {
            lookup(entries, k)
        } else if e.key@ == k {
            Some(e.value@)
        } else {
            None
        }),
    decreases entries.len(),
{
    if entries.len() == 0 {
        assert(entries.push(e).drop_first() =~= Seq::<ReplacementEntry>::empty());
    } else {
        assert(entries.push(e).drop_first() =~= entries.drop_first().push(e));
        lemma_lookup_push(entries.drop_first(), e, k);
    }
}

/// A map from replacement keys to their expansion texts. Keys are unique.
#[derive(Debug)]
pub struct Replacements {
    pub entries: Vec<ReplacementEntry>,
}

impl Replacements {
    /// Key uniqueness: no key occurs twice.
    pub open spec fn wf(&self) -> bool {
        forall|i: int, j: int|
            0 <= i < j < self.entries@.len() ==> #[trigger] self.entries@[i].key@
                != #[trigger] self.entries@[j].key@
    }

    /// Whether the map holds the key.
    pub open spec fn contains_key(&self, k: Seq<char>) -> bool {
        lookup(self.entries@, k) is Some
    }

    /// The expansion recorded for the key.
    pub open spec fn value_of(&self, k: Seq<char>) -> Seq<InlineV> {
        lookup(self.entries@, k)->0
    }

    /// How many keys are defined.
    pub open spec fn spec_len(&self) -> int {
        self.entries@.len() as int
    }

    /// An empty map.
    pub fn new() -> (r: Replacements)
        ensures
            r.wf(),
            r.spec_len() == 0,
            forall|k: Seq<char>| !r.contains_key(k),
    {
        Replacements { entries: Vec::new() }
    }

    /// How many keys are defined.
    pub fn len(&self) -> (n: usize)
        ensures
            n == self.spec_len(),
    {
        self.entries.len()
    }

    fn find(&self, key: &str) -> (r: Option<usize>)
        ensures
            r is Some <==> self.contains_key(key@),
            r is Some ==> 0 <= r->0 < self.entries@.len() && self.entries@[r->0 as int].key@
                == key@ && lookup(self.entries@, key@) == Some(
                self.entries@[r->0 as int].value@,
            ),
    {
        let ghost all = self.entries@;
        let mut i: usize = 0;
        while i < self.entries.len()
            invariant
                i <= all.len(),
                all == self.entries@,
                forall|j: int| 0 <= j < i ==> #[trigger] all[j].key@ != key@,
            decreases all.len() - i,
        {
            if str_is(&self.entries[i].key, key) {
                proof {
                    lemma_lookup_first_hit(all, key@, i as int);
                }
                return Some(i);
            }
            i = i + 1;
        }
        proof {
            lemma_lookup_all_miss(all, key@);
        }
        None
    }

    /// Defines `key` as `value`; a key that is already defined is a
    /// duplicate-key fault and leaves the map unchanged.
    pub fn insert(&mut self, key: String, value: Text) -> (r: EResult<()>)
        requires
            old(self).wf(),
        ensures
            final(self).wf(),
            r is Err <==> old(self).contains_key(key@),
            r is Err ==> *final(self) == *old(self) && r->Err_0.kinds@ == seq![
                ErrorKind::Replace(key),
            ],
            r is Ok ==> {
                &&& final(self).spec_len() == old(self).spec_len() + 1
                &&& final(self).contains_key(key@)
                &&& final(self).value_of(key@) == value@
                &&& forall|k: Seq<char>|
                    k != key@ ==> #[trigger] lookup(final(self).entries@, k) == lookup(
                        old(self).entries@,
                        k,
                    )
            },
    {
        if self.find(&key).is_some() {
            return Err(ErrorKind::Replace(key).into_error());
        }
        let ghost pre = self.entries@;
        let ghost kv = key@;
        let ghost vv = value@;
        let e = ReplacementEntry { key, value };
        self.entries.push(e);
        proof {
            assert forall|k: Seq<char>| true implies #[trigger] lookup(self.entries@, k) == (
            if lookup(pre, k) is Some {
                lookup(pre, k)
            } else if kv == k {
                Some(vv)
            } else {
                None
            }) by {
                lemma_lookup_push(pre, e, k);
            }
            assert forall|i: int, j: int|
                0 <= i < j < self.entries@.len() implies #[trigger] self.entries@[i].key@
                != #[trigger] self.entries@[j].key@ by {
                if j == self.entries@.len() - 1 {
                    lemma_contained_key_found(pre, kv, i);
                }
            }
        }
        Ok(())
    }

    /// Moves every definition of `other` into this map; a key that this
    /// map already holds is a duplicate-key fault. Definitions before the
    /// offending one stay moved.
    pub fn update(&mut self, other: &mut Replacements) -> (r: EResult<()>)
        requires
            old(self).wf(),
            old(other).wf(),
        ensures
            final(self).wf(),
            r is Ok ==> {
                &&& final(other).spec_len() == 0
                &&& forall|k: Seq<char>|
                    #[trigger] final(self).contains_key(k) == (old(self).contains_key(k) || old(
                        other,
                    ).contains_key(k))
                &&& forall|k: Seq<char>|
                    old(self).contains_key(k) ==> #[trigger] final(self).value_of(k) == old(self).value_of(k)
                &&& forall|k: Seq<char>|
                    !old(self).contains_key(k) && old(other).contains_key(k)
                        ==> #[trigger] final(self).value_of(k) == old(other).value_of(k)
            },
            r is Err ==> {
                &&& exists|k: Seq<char>|
                    old(self).contains_key(k) && #[trigger] old(other).contains_key(k)
                &&& r->Err_0.kinds@.len() == 1
                &&& r->Err_0.kinds@[0] is Replace
            },
    {
        while other.entries.len() > 0
            invariant
                self.wf(),
                other.wf(),
                forall|k: Seq<char>|
                    #[trigger] self.contains_key(k) == (old(self).contains_key(k) || (old(
                        other,
                    ).contains_key(k) && !other.contains_key(k))),
                forall|k: Seq<char>|
                    old(self).contains_key(k) ==> #[trigger] self.value_of(k) == old(self).value_of(k),
                forall|k: Seq<char>|
                    !old(self).contains_key(k) && old(other).contains_key(k)
                        && !other.contains_key(k) ==> #[trigger] self.value_of(k) == old(
                        other,
                    ).value_of(k),
                forall|k: Seq<char>|
                    #[trigger] other.contains_key(k) ==> old(other).contains_key(k)
                        && other.value_of(k) == old(other).value_of(k),
            decreases other.entries.len(),
        {
            let ghost pre_self = *self;
            let ghost pre_other_full = *other;
            let ghost pre_other = other.entries@;
            let entry = other.entries.remove(0);
            let ghost k0 = entry.key@;
            let ghost v0 = entry.value@;
            proof {
                assert(pre_other.drop_first() =~= other.entries@);
                lemma_head_not_in_rest(pre_other, k0);
                assert(lookup(pre_other, k0) == Some(v0));
                assert(pre_other_full.contains_key(k0));
                assert(old(other).contains_key(k0) && old(other).value_of(k0) == v0);
                assert(!other.contains_key(k0));
                assert forall|k: Seq<char>| k != k0 implies #[trigger] lookup(other.entries@, k)
                    == lookup(pre_other, k) by {}
            }
            if self.find(&entry.key).is_some() {
                proof {
                    assert(pre_self.contains_key(k0));
                    assert(old(self).contains_key(k0));
                }
                return Err(ErrorKind::Replace(entry.key).into_error());
            }
            let ghost pre_entries = self.entries@;
            self.entries.push(entry);
            proof {
                assert(!pre_self.contains_key(k0));
                assert(!old(self).contains_key(k0));
                assert forall|k: Seq<char>| true implies #[trigger] lookup(self.entries@, k) == (
                if lookup(pre_entries, k) is Some {
                    lookup(pre_entries, k)
                } else if k0 == k {
                    Some(v0)
                } else {
                    None
                }) by {
                    lemma_lookup_push(pre_entries, entry, k);
                }
                assert forall|i: int, j: int|
                    0 <= i < j < self.entries@.len() implies #[trigger] self.entries@[i].key@
                    != #[trigger] self.entries@[j].key@ by {
                    if j == self.entries@.len() - 1 {
                        lemma_contained_key_found(pre_entries, k0, i);
                    }
                }
                assert forall|k: Seq<char>| true implies #[trigger] self.contains_key(k) == (old(
                    self,
                ).contains_key(k) || (old(other).contains_key(k) && !other.contains_key(k))) by {
                    if k == k0 {
                        assert(self.contains_key(k0));
                    } else {
                        assert(self.contains_key(k) == pre_self.contains_key(k));
                        assert(other.contains_key(k) == pre_other_full.contains_key(k));
                    }
                }
                assert(pre_entries == pre_self.entries@);
                assert forall|k: Seq<char>| old(self).contains_key(k) implies #[trigger] self.value_of(
                    k,
                ) == old(self).value_of(k) by {
                    assert(pre_self.contains_key(k) && pre_self.value_of(k) == old(
                        self,
                    ).value_of(k));
                    assert(k != k0);
                    assert(lookup(self.entries@, k) == lookup(pre_entries, k));
                }
                assert forall|k: Seq<char>|
                    !old(self).contains_key(k) && old(other).contains_key(k)
                        && !other.contains_key(k) implies #[trigger] self.value_of(k) == old(
                    other,
                ).value_of(k) by {
                    if k == k0 {
                        assert(lookup(self.entries@, k0) == Some(v0));
                    } else {
                        assert(pre_other_full.contains_key(k) == other.contains_key(k));
                        assert(self.value_of(k) == pre_self.value_of(k));
                    }
                }
                assert forall|k: Seq<char>| #[trigger] other.contains_key(k) implies old(
                    other,
                ).contains_key(k) && other.value_of(k) == old(other).value_of(k) by {
                    assert(k != k0);
                    assert(pre_other_full.contains_key(k) && pre_other_full.value_of(k)
                        == other.value_of(k));
                }
            }
        }
        Ok(())
    }

    /// The expansion recorded for the key, if any.
    pub fn get(&self, key: &str) -> (r: Option<&Text>)
        ensures
            r is Some <==> self.contains_key(key@),
            r is Some ==> r->0@ == self.value_of(key@),
    {
        match self.find(key) {
            Option::Some(i) => Some(&self.entries[i].value),
            Option::None => None,
        }
    }
}

proof fn lemma_lookup_first_hit(entries: Seq<ReplacementEntry>, k: Seq<char>, i: int)
    requires
        0 <= i < entries.len(),
        entries[i].key@ == k,
        forall|j: int| 0 <= j < i ==> #[trigger] entries[j].key@ != k,
    ensures
        lookup(entries, k) == Some(entries[i].value@),
    decreases i,
{
    if i > 0 {
        assert(entries[0].key@ != k);
        assert forall|j: int| 0 <= j < i - 1 implies #[trigger] entries.drop_first()[j].key@
            != k by {
            assert(entries.drop_first()[j] == entries[j + 1]);
        }
        assert(entries.drop_first()[i - 1] == entries[i]);
        lemma_lookup_first_hit(entries.drop_first(), k, i - 1);
    }
}

proof fn lemma_lookup_all_miss(entries: Seq<ReplacementEntry>, k: Seq<char>)
    requires
        forall|j: int| 0 <= j < entries.len() ==> #[trigger] entries[j].key@ != k,
    ensures
        lookup(entries, k) is None,
    decreases entries.len(),
{
    if entries.len() > 0 {
        lemma_lookup_all_miss(entries.drop_first(), k);
    }
}

proof fn lemma_contained_key_found(entries: Seq<ReplacementEntry>, k: Seq<char>, i: int)
    requires
        0 <= i < entries.len(),
        lookup(entries, k) is None,
    ensures
        entries[i].key@ != k,
    decreases i,
{
    if i > 0 {
        lemma_contained_key_found(entries.drop_first(), k, i - 1);
    }
}

proof fn lemma_head_not_in_rest(entries: Seq<ReplacementEntry>, k: Seq<char>)
    requires
        entries.len() > 0,
        entries[0].key@ == k,
        forall|i: int, j: int|
            0 <= i < j < entries.len() ==> #[trigger] entries[i].key@ != #[trigger] entries[j].key@,
    ensures
        lookup(entries.drop_first(), k) is None,
{
    assert forall|j: int| 0 <= j < entries.drop_first().len() implies #[trigger] entries.drop_first()[j].key@
        != k by {
        assert(entries.drop_first()[j] == entries[j + 1]);
    }
    lemma_lookup_all_miss(entries.drop_first(), k);
}


} // verus!
