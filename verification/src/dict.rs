use vstd::prelude::*;

use crate::value::{spec_value_text, value_to_string, MsgValue, MsgView};

verus! {

broadcast use vstd::std_specs::vec::group_vec_axioms;

/// A string-keyed dictionary of message values: the shape of every decoded
/// response. Entries are kept in arrival order with unique keys; a duplicate
/// key on the wire keeps its last value, as step-by-step insertion would have
/// it.
#[derive(Debug)]
pub struct StrDict {
    entries: Vec<(String, MsgValue)>,
}

/// The mapping that inserting a list of pairs one by one builds up: a later
/// pair with the same key replaces the earlier one.
pub open spec fn dict_map(s: Seq<(String, MsgValue)>) -> Map<Seq<char>, MsgView>
    decreases s,
{
    if s.len() == 0 {
        Map::empty()
    } else {
        dict_map(s.drop_last()).insert(s.last().0@, s.last().1@)
    }
}

/// Whether a list of pairs has pairwise distinct keys.
pub open spec fn distinct_keys(s: Seq<(String, MsgValue)>) -> bool {
    forall|i: int, j: int|
        0 <= i < j < s.len() ==> (#[trigger] s[i]).0@ != (#[trigger] s[j]).0@
}

/// A key is in the built mapping exactly when some pair carries it, and the
/// pair of a key, where keys are distinct, gives its value.
pub broadcast proof fn lemma_dict_map(s: Seq<(String, MsgValue)>)
    ensures
        forall|k: Seq<char>| #[trigger]
            dict_map(s).contains_key(k) <==> exists|i: int| 0 <= i < s.len() && (#[trigger] s[i]).0@
                == k,
        distinct_keys(s) ==> forall|i: int|
            0 <= i < s.len() ==> dict_map(s).contains_key((#[trigger] s[i]).0@) && dict_map(s)[
                s[i].0@
            ] == s[i].1@,
    decreases s,
{
    if s.len() != 0 {
        lemma_dict_map(s.drop_last());
        assert forall|k: Seq<char>| #[trigger] dict_map(s).contains_key(k) implies exists|i: int|
            0 <= i < s.len() && (#[trigger] s[i]).0@ == k by {
            if k == s.last().0@ {
                assert(s[s.len() - 1].0@ == k);
            } else {
                assert(dict_map(s.drop_last()).contains_key(k));
                let i = choose|i: int| 0 <= i < s.drop_last().len() && (#[trigger] s.drop_last()[i]).0@
                    == k;
                assert(s.drop_last()[i] == s[i]);
                assert(s[i].0@ == k);
            }
        }
        assert forall|k: Seq<char>|
            (exists|i: int| 0 <= i < s.len() && (#[trigger] s[i]).0@ == k) implies dict_map(
            s,
        ).contains_key(k) by {
            let i = choose|i: int| 0 <= i < s.len() && (#[trigger] s[i]).0@ == k;
            if i < s.len() - 1 {
                assert(s.drop_last()[i] == s[i]);
                assert(exists|j: int|
                    0 <= j < s.drop_last().len() && (#[trigger] s.drop_last()[j]).0@ == k);
                assert(dict_map(s.drop_last()).contains_key(k));
            }
        }
        if distinct_keys(s) {
            assert(distinct_keys(s.drop_last())) by {
                assert forall|i: int, j: int|
                    0 <= i < j < s.drop_last().len() implies (#[trigger] s.drop_last()[i]).0@ != (
                #[trigger] s.drop_last()[j]).0@ by {
                    assert(s.drop_last()[i] == s[i]);
                    assert(s.drop_last()[j] == s[j]);
                }
            }
            assert forall|i: int| 0 <= i < s.len() implies dict_map(s).contains_key(
                (#[trigger] s[i]).0@,
            ) && dict_map(s)[s[i].0@] == s[i].1@ by {
                if i < s.len() - 1 {
                    assert(s.drop_last()[i] == s[i]);
                    assert(s[i].0@ != s.last().0@);
                }
            }
        }
    }
}

impl StrDict {
    /// The mapping this dictionary holds.
    pub closed spec fn view(&self) -> Map<Seq<char>, MsgView> {
        dict_map(self.entries@)
    }

    /// The dictionary's keys are pairwise distinct; constructors establish
    /// this and methods preserve it.
    pub closed spec fn wf(&self) -> bool {
        distinct_keys(self.entries@)
    }

    /// The number of entries.
    pub fn len(&self) -> (r: usize)
        requires
            self.wf(),
        ensures
            r == self@.dom().len(),
    {
        proof {
            broadcast use lemma_dict_map;

            Self::lemma_dict_map_len(self.entries@);
        }
        self.entries.len()
    }

    /// With distinct keys, the built mapping has exactly one key per pair.
    proof fn lemma_dict_map_len(s: Seq<(String, MsgValue)>)
        requires
            distinct_keys(s),
        ensures
            dict_map(s).dom().len() == s.len(),
            dict_map(s).dom().finite(),
        decreases s,
    {
        broadcast use lemma_dict_map;

        if s.len() == 0 {
        } else {
            assert(distinct_keys(s.drop_last())) by {
                assert forall|i: int, j: int|
                    0 <= i < j < s.drop_last().len() implies (#[trigger] s.drop_last()[i]).0@ != (
                #[trigger] s.drop_last()[j]).0@ by {
                    assert(s.drop_last()[i] == s[i]);
                    assert(s.drop_last()[j] == s[j]);
                }
            }
            Self::lemma_dict_map_len(s.drop_last());
            assert(!dict_map(s.drop_last()).contains_key(s.last().0@)) by {
                if dict_map(s.drop_last()).contains_key(s.last().0@) {
                    let i = choose|i: int|
                        0 <= i < s.drop_last().len() && (#[trigger] s.drop_last()[i]).0@
                            == s.last().0@;
                    assert(s[i] == s.drop_last()[i]);
                }
            }
        }
    }

    /// Hand the entries out as a plain list of pairs, in storage order; the
    /// keys are pairwise distinct and build this dictionary's mapping back.
    pub fn into_entries(self) -> (r: Vec<(String, MsgValue)>)
        ensures
            distinct_keys(r@) == self.wf(),
            dict_map(r@) == self@,
    {
        self.entries
    }

    /// An empty dictionary.
    pub fn new() -> (r: StrDict)
        ensures
            r@ == Map::<Seq<char>, MsgView>::empty(),
            r.wf(),
    {
        StrDict { entries: Vec::new() }
    }

    /// Look a key up.
    pub fn get(&self, key: &String) -> (r: Option<&MsgValue>)
        requires
            self.wf(),
        ensures
            r is Some <==> self@.contains_key(key@),
            r is Some ==> r->0@ == self@[key@],
    {
        proof {
            broadcast use lemma_dict_map;

        }
        let n = self.entries.len();
        let mut i: usize = 0;
        while i < n
            invariant
                0 <= i <= n,
                n == self.entries@.len(),
                self.wf(),
                forall|j: int| 0 <= j < i ==> (#[trigger] self.entries@[j]).0@ != key@,
            decreases n - i,
        {
            if self.entries[i].0.eq(key) {
                proof {
                    broadcast use lemma_dict_map;

                }
                return Some(&self.entries[i].1);
            }
            i = i + 1;
        }
        proof {
            broadcast use lemma_dict_map;

            if self@.contains_key(key@) {
                let j = choose|j: int|
                    0 <= j < self.entries@.len() && (#[trigger] self.entries@[j]).0@ == key@;
            }
        }
        None
    }

    /// Whether a key is present.
    pub fn contains_key(&self, key: &String) -> (r: bool)
        requires
            self.wf(),
        ensures
            r == self@.contains_key(key@),
    {
        self.get(key).is_some()
    }

    /// Insert a pair; an existing entry under the same key is replaced.
    pub fn insert(&mut self, key: String, val: MsgValue)
        requires
            old(self).wf(),
        ensures
            final(self)@ == old(self)@.insert(key@, val@),
            final(self).wf(),
    {
        let _ = self.remove(&key);
        proof {
            broadcast use lemma_dict_map;

        }
        let ghost before = self.entries@;
        self.entries.push((key, val));
        proof {
            broadcast use lemma_dict_map;

            assert(self.entries@.drop_last() =~= before);
            assert(self@ == dict_map(before).insert(self.entries@.last().0@, self.entries@.last().1@));
            assert(self@ =~= old(self)@.insert(key@, val@));
            assert forall|i: int, j: int|
                0 <= i < j < self.entries@.len() implies (#[trigger] self.entries@[i]).0@ != (
            #[trigger] self.entries@[j]).0@ by {
                if j < self.entries@.len() - 1 {
                    assert(self.entries@[i] == before[i]);
                    assert(self.entries@[j] == before[j]);
                } else {
                    assert(self.entries@[i] == before[i]);
                    assert(!dict_map(before).contains_key(self.entries@[j].0@));
                }
            }
        }
    }

    /// Remove a key's entry, handing its value out.
    pub fn remove(&mut self, key: &String) -> (r: Option<MsgValue>)
        requires
            old(self).wf(),
        ensures
            final(self)@ == old(self)@.remove(key@),
            final(self).wf(),
            r is Some <==> old(self)@.contains_key(key@),
            r is Some ==> r->0@ == old(self)@[key@],
    {
        proof {
            broadcast use lemma_dict_map;

        }
        let n = self.entries.len();
        let mut i: usize = 0;
        while i < n
            invariant
                0 <= i <= n,
                n == self.entries@.len(),
                self.wf(),
                self.entries@ == old(self).entries@,
                forall|j: int| 0 <= j < i ==> (#[trigger] self.entries@[j]).0@ != key@,
            decreases n - i,
        {
            if self.entries[i].0.eq(key) {
                let ghost before = self.entries@;
                let pair = self.entries.remove(i);
                proof {
                    broadcast use lemma_dict_map;

                    Self::lemma_dict_map_remove(before, i as int);
                    assert(self.entries@ =~= before.remove(i as int));
                    assert(self@ =~= old(self)@.remove(key@));
                    assert forall|a: int, b: int|
                        0 <= a < b < self.entries@.len() implies (#[trigger] self.entries@[a]).0@ != (
                    #[trigger] self.entries@[b]).0@ by {
                        let a0 = if a < i { a } else { a + 1 };
                        let b0 = if b < i { b } else { b + 1 };
                        assert(self.entries@[a] == before[a0]);
                        assert(self.entries@[b] == before[b0]);
                    }
                }
                return Some(pair.1);
            }
            i = i + 1;
        }
        proof {
            broadcast use lemma_dict_map;

            if self@.contains_key(key@) {
                let j = choose|j: int|
                    0 <= j < self.entries@.len() && (#[trigger] self.entries@[j]).0@ == key@;
            }
            assert(self@ =~= self@.remove(key@));
        }
        None
    }

    /// Removing one pair from a distinct-keyed list removes exactly its key
    /// from the built mapping.
    proof fn lemma_dict_map_remove(s: Seq<(String, MsgValue)>, i: int)
        requires
            distinct_keys(s),
            0 <= i < s.len(),
        ensures
            dict_map(s.remove(i)) == dict_map(s).remove(s[i].0@),
        decreases s,
    {
        broadcast use lemma_dict_map;

        assert(distinct_keys(s.drop_last())) by {
            assert forall|a: int, b: int|
                0 <= a < b < s.drop_last().len() implies (#[trigger] s.drop_last()[a]).0@ != (
            #[trigger] s.drop_last()[b]).0@ by {
                assert(s.drop_last()[a] == s[a]);
                assert(s.drop_last()[b] == s[b]);
            }
        }
        if i == s.len() - 1 {
            assert(s.remove(i) =~= s.drop_last());
            assert(!dict_map(s.drop_last()).contains_key(s[i].0@)) by {
                if dict_map(s.drop_last()).contains_key(s[i].0@) {
                    let j = choose|j: int|
                        0 <= j < s.drop_last().len() && (#[trigger] s.drop_last()[j]).0@ == s[i].0@;
                    assert(s[j] == s.drop_last()[j]);
                }
            }
            assert(dict_map(s).remove(s[i].0@) =~= dict_map(s.drop_last()));
        } else {
            Self::lemma_dict_map_remove(s.drop_last(), i);
            assert(s.remove(i).drop_last() =~= s.drop_last().remove(i));
            assert(s.remove(i).last() == s.last());
            assert(s.drop_last()[i] == s[i]);
            assert(dict_map(s.remove(i)) == dict_map(s.drop_last().remove(i)).insert(
                s.last().0@,
                s.last().1@,
            ));
            assert(s[i].0@ != s.last().0@);
            assert(dict_map(s.remove(i)) =~= dict_map(s).remove(s[i].0@));
        }
    }
}

/// The string-keyed mapping a wire map denotes: each key read as text (in
/// either spelling), a later duplicate replacing the earlier value — or
/// nothing, if some key cannot be read as text.
pub open spec fn str_dict_of(pairs: Seq<(MsgView, MsgView)>) -> Option<Map<Seq<char>, MsgView>>
    decreases pairs,
{
    if pairs.len() == 0 {
        Some(Map::empty())
    } else {
        if str_dict_of(pairs.drop_last()) is Some && spec_value_text(pairs.last().0) is Some {
            Some(
                str_dict_of(pairs.drop_last())->0.insert(
                    spec_value_text(pairs.last().0)->0,
                    pairs.last().1,
                ),
            )
        } else {
            None
        }
    }
}

/// Where a pair list denotes a mapping, so does every prefix, and every key
/// reads as text.
proof fn lemma_str_dict_of_prefix(pairs: Seq<(MsgView, MsgView)>)
    requires
        str_dict_of(pairs) is Some,
    ensures
        forall|i: int| 0 <= i < pairs.len() ==> spec_value_text((#[trigger] pairs[i]).0) is Some,
        forall|i: int| 0 <= i <= pairs.len() ==> str_dict_of(#[trigger] pairs.take(i)) is Some,
    decreases pairs,
{
    if pairs.len() != 0 {
        lemma_str_dict_of_prefix(pairs.drop_last());
        assert forall|i: int|
            0 <= i < pairs.len() implies spec_value_text((#[trigger] pairs[i]).0) is Some by {
            if i < pairs.len() - 1 {
                assert(pairs.drop_last()[i] == pairs[i]);
            }
        }
        assert forall|i: int| 0 <= i <= pairs.len() implies str_dict_of(
            #[trigger] pairs.take(i),
        ) is Some by {
            if i < pairs.len() {
                assert(pairs.drop_last().take(i) =~= pairs.take(i));
            } else {
                assert(pairs.take(i) =~= pairs);
            }
        }
    } else {
        assert(pairs.take(0) =~= pairs);
    }
}

/// Convert a decoded value into a string-keyed dictionary.
///
/// Succeeds exactly on a map value all of whose keys read as text, in either
/// the native or the binary spelling; any other value, and any map with a key
/// that does not read as text, yields nothing.
#[verifier::loop_isolation(false)]
pub fn value_to_str_dict(v: MsgValue) -> (r: Option<StrDict>)
    ensures
        r is Some <==> (v@ matches MsgView::Dict(pairs) && str_dict_of(pairs) is Some),
        r is Some ==> (v@ matches MsgView::Dict(pairs) && r->0@ == str_dict_of(pairs)->0
            && r->0.wf()),
{
    broadcast use crate::value::lemma_dict_view;

    match v {
        MsgValue::Dict(mut pairs) => {
            let ghost vp = crate::value::dict_view(pairs@);
            proof {
                assert(v@ == MsgView::Dict(vp));
            }
            let mut out = StrDict::new();
            let mut i: usize = 0;
            let n = pairs.len();
            while i < n
                invariant
                    0 <= i <= n,
                    n == vp.len(),
                    pairs@.len() == n - i,
                    forall|j: int| 0 <= j < n - i ==> vp[i + j] == ((#[trigger] pairs@[j]).0@, pairs@[j].1@),
                    str_dict_of(vp.take(i as int)) is Some,
                    out@ == str_dict_of(vp.take(i as int))->0,
                    out.wf(),
                decreases n - i,
            {
                let (k, val) = pairs.remove(0);
                let key = match value_to_string(&k) {
                    Some(key) => key,
                    None => {
                        proof {
                            assert(vp[i as int].0 == k@);
                            if str_dict_of(vp) is Some {
                                lemma_str_dict_of_prefix(vp);
                            }
                        }
                        return None;
                    },
                };
                proof {
                    assert(vp[i as int] == (k@, val@));
                    assert(vp.take(i + 1).drop_last() =~= vp.take(i as int));
                    assert(vp.take(i + 1).last() == vp[i as int]);
                }
                out.insert(key, val);
                i = i + 1;
            }
            proof {
                assert(vp.take(n as int) =~= vp);
            }
            Some(out)
        },
        _ => None,
    }
}

} // verus!
