use vstd::prelude::*;
use crate::probe::StatusLabel;

verus! {

/// The latest label recorded for each host that has been probed.
pub struct StatusStore {
    entries: Vec<(String, StatusLabel)>,
}

pub open spec fn key_of(e: (String, StatusLabel)) -> Seq<char> {
    e.0@
}

/// The map that a list of entries describes; a later entry overrides an
/// earlier one with the same host.
pub open spec fn map_of(s: Seq<(String, StatusLabel)>) -> Map<Seq<char>, StatusLabel>
    decreases s.len(),
{
    if s.len() == 0 {
        Map::empty()
    } else {
        map_of(s.drop_last()).insert(key_of(s.last()), s.last().1)
    }
}

pub open spec fn keys_unique(s: Seq<(String, StatusLabel)>) -> bool {
    forall|i: int, j: int|
        0 <= i < s.len() && 0 <= j < s.len() && i != j ==> key_of(#[trigger] s[i]) != key_of(
            #[trigger] s[j],
        )
}

/// The label stored for `host`, if any.
pub open spec fn stored(m: Map<Seq<char>, StatusLabel>, host: Seq<char>) -> Option<StatusLabel> {
    if m.contains_key(host) {
        Some(m[host])
    } else {
        None
    }
}

proof fn lemma_absent(s: Seq<(String, StatusLabel)>, k: Seq<char>)
    requires
        forall|i: int| 0 <= i < s.len() ==> key_of(#[trigger] s[i]) != k,
    ensures
        !map_of(s).contains_key(k),
    decreases s.len(),
{
    if s.len() > 0 {
        lemma_absent(s.drop_last(), k);
    }
}

proof fn lemma_present(s: Seq<(String, StatusLabel)>, i: int)
    requires
        keys_unique(s),
        0 <= i < s.len(),
    ensures
        map_of(s).contains_key(key_of(s[i])),
        map_of(s)[key_of(s[i])] == s[i].1,
    decreases s.len(),
{
    if i < s.len() - 1 {
        assert(key_of(s[i]) != key_of(s[s.len() - 1]));
        lemma_present(s.drop_last(), i);
    }
}

proof fn lemma_replace(s: Seq<(String, StatusLabel)>, i: int, v: StatusLabel)
    requires
        keys_unique(s),
        0 <= i < s.len(),
    ensures
        map_of(s.update(i, (s[i].0, v))) =~= map_of(s).insert(key_of(s[i]), v),
    decreases s.len(),
{
    let t = s.update(i, (s[i].0, v));
    if i == s.len() - 1 {
        assert(t.drop_last() =~= s.drop_last());
    } else {
        assert(t.drop_last() =~= s.drop_last().update(i, (s[i].0, v)));
        assert(key_of(s[i]) != key_of(s[s.len() - 1]));
        lemma_replace(s.drop_last(), i, v);
    }
}

impl View for StatusStore {
    type V = Map<Seq<char>, StatusLabel>;

    closed spec fn view(&self) -> Map<Seq<char>, StatusLabel> {
        map_of(self.entries@)
    }
}

impl StatusStore {
    /// No host is recorded twice.
    pub closed spec fn wf(&self) -> bool {
        keys_unique(self.entries@)
    }

    pub fn new() -> (r: Self)
        ensures
            r.wf(),
            r@ == Map::<Seq<char>, StatusLabel>::empty(),
    {
        StatusStore { entries: Vec::new() }
    }

    /// Number of hosts recorded.
    pub fn len(&self) -> (r: usize)
        requires
            self.wf(),
        ensures
            r == self@.dom().len(),
    {
        proof { self.lemma_dom_len(); }
        self.entries.len()
    }

    proof fn lemma_dom_len(&self)
        requires
            self.wf(),
        ensures
            self@.dom().len() == self.entries@.len(),
    {
        let s = self.entries@;
        lemma_dom_len_seq(s);
    }

    fn find(&self, host: &String) -> (r: Option<usize>)
        requires
            self.wf(),
        ensures
            match r {
                Some(i) => i < self.entries@.len() && key_of(self.entries@[i as int]) == host@,
                None => forall|i: int|
                    0 <= i < self.entries@.len() ==> key_of(#[trigger] self.entries@[i]) != host@,
            },
    {
        let mut i: usize = 0;
        while i < self.entries.len()
            invariant
                i <= self.entries@.len(),
                forall|j: int| 0 <= j < i ==> key_of(#[trigger] self.entries@[j]) != host@,
            decreases self.entries.len() - i,
        {
            if self.entries[i].0 == *host {
                return Some(i);
            }
            i = i + 1;
        }
        None
    }

    /// The label recorded for `host`, if it has been probed.
    pub fn get(&self, host: &String) -> (r: Option<StatusLabel>)
        requires
            self.wf(),
        ensures
            r == stored(self@, host@),
    {
        match self.find(host) {
            Some(i) => {
                proof { lemma_present(self.entries@, i as int); }
                Some(self.entries[i].1)
            },
            None => {
                proof { lemma_absent(self.entries@, host@); }
                None
            },
        }
    }

    /// Records `label` for `host` and hands back the label recorded before.
    pub fn set(&mut self, host: &String, label: StatusLabel) -> (r: Option<StatusLabel>)
        requires
            old(self).wf(),
        ensures
            final(self).wf(),
            final(self)@ == old(self)@.insert(host@, label),
            r == stored(old(self)@, host@),
    {
        match self.find(host) {
            Some(i) => {
                proof { lemma_present(self.entries@, i as int); }
                let prev = self.entries[i].1;
                let key = self.entries[i].0.clone();
                proof { lemma_replace(self.entries@, i as int, label); }
                self.entries.set(i, (key, label));
                Some(prev)
            },
            None => {
                proof { lemma_absent(self.entries@, host@); }
                let ghost before = self.entries@;
                self.entries.push((host.clone(), label));
                assert(self.entries@.drop_last() =~= before);
                None
            },
        }
    }
}

proof fn lemma_dom_len_seq(s: Seq<(String, StatusLabel)>)
    requires
        keys_unique(s),
    ensures
        map_of(s).dom().len() == s.len(),
        map_of(s).dom().finite(),
    decreases s.len(),
{
    if s.len() > 0 {
        let d = s.drop_last();
        assert(keys_unique(d));
        lemma_dom_len_seq(d);
        assert forall|i: int| 0 <= i < d.len() implies key_of(#[trigger] d[i]) != key_of(s.last()) by {
            assert(d[i] == s[i]);
        }
        lemma_absent(d, key_of(s.last()));
    }
}

} // verus!
