use vstd::prelude::*;

verus! {

/// A key-value pair, as held in the context store and in a record's fields.
#[derive(Clone, Debug)]
pub struct Field {
    pub key: String,
    pub value: String,
}

impl Field {
    pub open spec fn pair(self) -> (Seq<char>, Seq<char>) {
        (self.key@, self.value@)
    }

    pub fn duplicate(&self) -> (r: Field)
        ensures
            r.pair() == self.pair(),
    {
        Field { key: self.key.clone(), value: self.value.clone() }
    }
}

/// The keys and values of a list of fields, in order.
pub open spec fn pairs_of(fields: Seq<Field>) -> Seq<(Seq<char>, Seq<char>)> {
    fields.map_values(|f: Field| f.pair())
}

/// The pairs list `ps` holds exactly the entries of `m`, each key once.
pub open spec fn pairs_match(ps: Seq<(Seq<char>, Seq<char>)>, m: Map<Seq<char>, Seq<char>>) -> bool {
    &&& keys_distinct(ps)
    &&& forall|i: int|
        0 <= i < ps.len() ==> #[trigger] m.contains_key(ps[i].0) && m[ps[i].0] == ps[i].1
    &&& forall|k: Seq<char>|
        #[trigger] m.contains_key(k) ==> exists|i: int| 0 <= i < ps.len() && ps[i].0 == k
}

/// `ps` with `k` set to `v`: updated in place if present, else appended.
pub open spec fn pairs_set(ps: Seq<(Seq<char>, Seq<char>)>, k: Seq<char>, v: Seq<char>) -> Seq<
    (Seq<char>, Seq<char>),
> {
    if exists|i: int| 0 <= i < ps.len() && ps[i].0 == k {
        ps.update(choose|i: int| 0 <= i < ps.len() && ps[i].0 == k, (k, v))
    } else {
        ps.push((k, v))
    }
}

/// `ps` without the entry for `k`, the others keeping their order.
pub open spec fn pairs_without(ps: Seq<(Seq<char>, Seq<char>)>, k: Seq<char>) -> Seq<
    (Seq<char>, Seq<char>),
> {
    if exists|i: int| 0 <= i < ps.len() && ps[i].0 == k {
        ps.remove(choose|i: int| 0 <= i < ps.len() && ps[i].0 == k)
    } else {
        ps
    }
}

/// The shared key-value context: at most one value per key, kept in the order
/// in which keys were first added.
pub struct ContextStore {
    entries: Vec<Field>,
    contents: Ghost<Map<Seq<char>, Seq<char>>>,
}

/// A scoped context entry: the key it installed and the value it installed.
#[derive(Clone, Debug)]
pub struct ContextGuard {
    pub key: String,
    pub value: String,
}

/// The context after a guard for `k` that installed `v` is released: the key
/// goes only if it still holds `v`.
pub open spec fn released(m: Map<Seq<char>, Seq<char>>, k: Seq<char>, v: Seq<char>) -> Map<
    Seq<char>,
    Seq<char>,
> {
    if m.contains_key(k) && m[k] == v {
        m.remove(k)
    } else {
        m
    }
}

impl View for ContextStore {
    type V = Map<Seq<char>, Seq<char>>;

    closed spec fn view(&self) -> Map<Seq<char>, Seq<char>> {
        self.contents@
    }
}

impl ContextStore {
    pub closed spec fn entries_view(&self) -> Seq<Field> {
        self.entries@
    }

    /// The entries as key-value pairs, in the order in which keys were first added.
    pub open spec fn pairs(&self) -> Seq<(Seq<char>, Seq<char>)> {
        pairs_of(self.entries_view())
    }

    /// The ordered entries hold exactly the map's entries, each key once.
    pub proof fn lemma_pairs_match(&self)
        requires
            self.wf(),
        ensures
            pairs_match(self.pairs(), self@),
    {
        let ps = self.pairs();
        assert forall|i: int| 0 <= i < ps.len() implies #[trigger] self@.contains_key(ps[i].0)
            && self@[ps[i].0] == ps[i].1 by {
            assert(ps[i] == self.entries@[i].pair());
            assert(self.contents@.contains_key(self.entries@[i].key@));
        }
        assert forall|k: Seq<char>| #[trigger] self@.contains_key(k) implies exists|i: int|
            0 <= i < ps.len() && ps[i].0 == k by {
            assert(self.contents@.contains_key(k));
            let i = choose|i: int| 0 <= i < self.entries@.len() && self.entries@[i].key@ == k;
            assert(ps[i] == self.entries@[i].pair());
        }
        assert forall|i: int, j: int| 0 <= i < j < ps.len() implies ps[i].0 != ps[j].0 by {
            assert(ps[i] == self.entries@[i].pair());
            assert(ps[j] == self.entries@[j].pair());
        }
    }

    pub closed spec fn wf(&self) -> bool {
        &&& forall|i: int, j: int|
            0 <= i < j < self.entries@.len() ==> self.entries@[i].key@ != self.entries@[j].key@
        &&& forall|i: int|
            0 <= i < self.entries@.len() ==> #[trigger] self.contents@.contains_key(
                self.entries@[i].key@,
            ) && self.contents@[self.entries@[i].key@] == self.entries@[i].value@
        &&& forall|k: Seq<char>|
            #[trigger] self.contents@.contains_key(k) ==> exists|i: int|
                0 <= i < self.entries@.len() && self.entries@[i].key@ == k
    }

    pub fn new() -> (r: ContextStore)
        ensures
            r.wf(),
            r@ == Map::<Seq<char>, Seq<char>>::empty(),
            r.pairs() == Seq::<(Seq<char>, Seq<char>)>::empty(),
    {
        let r = ContextStore { entries: Vec::new(), contents: Ghost(Map::empty()) };
        assert(r.pairs() =~= Seq::<(Seq<char>, Seq<char>)>::empty());
        r
    }

    fn find(&self, key: &String) -> (r: Option<usize>)
        requires
            self.wf(),
        ensures
            match r {
                Some(i) => i < self.entries@.len() && self.entries@[i as int].key@ == key@
                    && self@.contains_key(key@) && self@[key@] == self.entries@[i as int].value@,
                None => !self@.contains_key(key@),
            },
    {
        let mut i: usize = 0;
        while i < self.entries.len()
            invariant
                self.wf(),
                i <= self.entries@.len(),
                forall|j: int| 0 <= j < i ==> self.entries@[j].key@ != key@,
            decreases self.entries@.len() - i,
        {
            if self.entries[i].key == *key {
                assert(self.contents@.contains_key(self.entries@[i as int].key@));
                return Some(i);
            }
            i = i + 1;
        }
        None
    }

    /// The value currently stored under `key`.
    pub fn get(&self, key: &str) -> (r: Option<String>)
        requires
            self.wf(),
        ensures
            match r {
                Some(v) => self@.contains_key(key@) && v@ == self@[key@],
                None => !self@.contains_key(key@),
            },
    {
        let k = key.to_owned();
        match self.find(&k) {
            Some(i) => Some(self.entries[i].value.clone()),
            None => None,
        }
    }

    /// Sets `key` to `value`, replacing any earlier value.
    pub fn add(&mut self, key: &str, value: &str)
        requires
            old(self).wf(),
        ensures
            final(self).wf(),
            final(self)@ == old(self)@.insert(key@, value@),
            final(self).pairs() == pairs_set(old(self).pairs(), key@, value@),
    {
        let k = key.to_owned();
        let v = value.to_owned();
        let ghost m = self.contents@.insert(key@, value@);
        let ghost before = self.entries@;
        let ghost idx: int;
        match self.find(&k) {
            Some(i) => {
                self.entries.set(i, Field { key: k, value: v });
                proof {
                    idx = i as int;
                }
            },
            None => {
                self.entries.push(Field { key: k, value: v });
                proof {
                    idx = before.len() as int;
                }
            },
        }
        self.contents = Ghost(m);
        assert(self.entries@[idx].key@ == key@);
        assert forall|j: int|
            0 <= j < self.entries@.len() implies #[trigger] self.contents@.contains_key(
            self.entries@[j].key@,
        ) && self.contents@[self.entries@[j].key@] == self.entries@[j].value@ by {
            if j != idx {
                assert(self.entries@[j] == before[j]);
                assert(old(self).contents@.contains_key(before[j].key@));
            }
        }
        assert forall|kk: Seq<char>| #[trigger] self.contents@.contains_key(kk) implies exists|
            i: int,
        | 0 <= i < self.entries@.len() && self.entries@[i].key@ == kk by {
            if kk != key@ {
                assert(old(self).contents@.contains_key(kk));
                let i = choose|i: int| 0 <= i < before.len() && before[i].key@ == kk;
                assert(self.entries@[i] == before[i]);
            } else {
                assert(self.entries@[idx].key@ == kk);
            }
        }
        proof {
            let ops = pairs_of(before);
            assert(ops == old(self).pairs());
            assert forall|j: int| 0 <= j < ops.len() implies #[trigger] ops[j] == before[j].pair() by {}
            if exists|j: int| 0 <= j < ops.len() && ops[j].0 == key@ {
                let j = choose|j: int| 0 <= j < ops.len() && ops[j].0 == key@;
                assert(old(self).contents@.contains_key(before[j].key@));
                assert(j == idx);
                assert(self.pairs() =~= ops.update(j, (key@, value@)));
            } else {
                if idx < before.len() {
                    assert(ops[idx].0 == key@);
                }
                assert(self.pairs() =~= ops.push((key@, value@)));
            }
        }
    }

    /// Removes `key`; nothing changes when it is absent.
    pub fn remove(&mut self, key: &str)
        requires
            old(self).wf(),
        ensures
            final(self).wf(),
            final(self)@ == old(self)@.remove(key@),
            final(self).pairs() == pairs_without(old(self).pairs(), key@),
    {
        let k = key.to_owned();
        let ghost m = self.contents@.remove(key@);
        match self.find(&k) {
            Some(i) => {
                let ghost before = self.entries@;
                self.entries.remove(i);
                self.contents = Ghost(m);
                assert forall|j: int|
                    0 <= j < self.entries@.len() implies #[trigger] self.contents@.contains_key(
                    self.entries@[j].key@,
                ) && self.contents@[self.entries@[j].key@] == self.entries@[j].value@ by {
                    let jj = if j < i { j } else { j + 1 };
                    assert(self.entries@[j] == before[jj]);
                    assert(old(self).contents@.contains_key(before[jj].key@));
                    assert(before[jj].key@ != key@);
                }
                assert forall|kk: Seq<char>| #[trigger] self.contents@.contains_key(kk) implies exists|
                    j: int,
                | 0 <= j < self.entries@.len() && self.entries@[j].key@ == kk by {
                    assert(old(self).contents@.contains_key(kk));
                    let j = choose|j: int| 0 <= j < before.len() && before[j].key@ == kk;
                    assert(j != i);
                    if j < i {
                        assert(self.entries@[j] == before[j]);
                    } else {
                        assert(self.entries@[j - 1] == before[j]);
                    }
                }
                proof {
                    let ops = pairs_of(before);
                    assert(ops == old(self).pairs());
                    assert(ops[i as int] == before[i as int].pair());
                    let j = choose|j: int| 0 <= j < ops.len() && ops[j].0 == key@;
                    assert(ops[j] == before[j].pair());
                    assert(j == i);
                    assert(self.pairs() =~= ops.remove(j));
                }
            },
            None => {
                assert(self.contents@ =~= m);
                assert forall|j: int| 0 <= j < self.pairs().len() implies #[trigger] self.pairs()[j].0
                    != key@ by {
                    assert(self.pairs()[j] == self.entries@[j].pair());
                    assert(self.contents@.contains_key(self.entries@[j].key@));
                }
            },
        }
    }

    /// Empties the store.
    pub fn clear(&mut self)
        requires
            old(self).wf(),
        ensures
            final(self).wf(),
            final(self)@ == Map::<Seq<char>, Seq<char>>::empty(),
            final(self).pairs() == Seq::<(Seq<char>, Seq<char>)>::empty(),
    {
        self.entries.clear();
        self.contents = Ghost(Map::empty());
        assert(self.pairs() =~= Seq::<(Seq<char>, Seq<char>)>::empty());
    }

    /// Sets `key` to `value` and returns the guard that owns that entry.
    pub fn with(&mut self, key: &str, value: &str) -> (g: ContextGuard)
        requires
            old(self).wf(),
        ensures
            final(self).wf(),
            final(self)@ == old(self)@.insert(key@, value@),
            final(self).pairs() == pairs_set(old(self).pairs(), key@, value@),
            g.key@ == key@,
            g.value@ == value@,
    {
        self.add(key, value);
        ContextGuard { key: key.to_owned(), value: value.to_owned() }
    }

    /// Ends a guard's scope: its key is removed only while it still holds the
    /// value that the guard installed.
    pub fn release(&mut self, guard: ContextGuard)
        requires
            old(self).wf(),
        ensures
            final(self).wf(),
            final(self)@ == released(old(self)@, guard.key@, guard.value@),
            final(self).pairs() == if old(self)@.contains_key(guard.key@) && old(self)@[guard.key@]
                == guard.value@ {
                pairs_without(old(self).pairs(), guard.key@)
            } else {
                old(self).pairs()
            },
    {
        match self.find(&guard.key) {
            Some(i) => {
                if self.entries[i].value == guard.value {
                    self.remove(guard.key.as_str());
                }
            },
            None => {},
        }
    }

    /// The entries in the order in which their keys were first added.
    pub fn snapshot(&self) -> (r: Vec<Field>)
        requires
            self.wf(),
        ensures
            pairs_of(r@) == self.pairs(),
    {
        let mut out: Vec<Field> = Vec::new();
        let mut i: usize = 0;
        while i < self.entries.len()
            invariant
                i <= self.entries@.len(),
                out@.len() == i,
                forall|j: int| 0 <= j < i ==> #[trigger] out@[j].pair() == self.entries@[j].pair(),
            decreases self.entries@.len() - i,
        {
            out.push(self.entries[i].duplicate());
            i = i + 1;
        }
        assert(pairs_of(out@) =~= pairs_of(self.entries@));
        out
    }
}

/// A context guard whose value was overwritten before its release leaves the
/// newer value in place: a guard removes only the value it installed.
pub proof fn lemma_release_keeps_overwrite(
    m: Map<Seq<char>, Seq<char>>,
    k: Seq<char>,
    v1: Seq<char>,
    v2: Seq<char>,
)
    requires
        v1 != v2,
    ensures
        released(m.insert(k, v1).insert(k, v2), k, v1) == m.insert(k, v2),
{
    assert(m.insert(k, v1).insert(k, v2) =~= m.insert(k, v2));
}

/// Adding or removing a key other than a guard's own commutes with the
/// guard's release, so such operations may be interleaved with guard scopes.
pub proof fn lemma_release_commutes_with_other_keys(
    m: Map<Seq<char>, Seq<char>>,
    k: Seq<char>,
    v: Seq<char>,
    other: Seq<char>,
    w: Seq<char>,
)
    requires
        other != k,
    ensures
        released(m.insert(other, w), k, v) == released(m, k, v).insert(other, w),
        released(m.remove(other), k, v) == released(m, k, v).remove(other),
{
    assert(released(m.insert(other, w), k, v) =~= released(m, k, v).insert(other, w));
    assert(released(m.remove(other), k, v) =~= released(m, k, v).remove(other));
}

/// The context after guards for `gs` are installed in order.
pub open spec fn install_all(m: Map<Seq<char>, Seq<char>>, gs: Seq<(Seq<char>, Seq<char>)>) -> Map<
    Seq<char>,
    Seq<char>,
>
    decreases gs.len(),
{
    if gs.len() == 0 {
        m
    } else {
        install_all(m, gs.drop_last()).insert(gs.last().0, gs.last().1)
    }
}

/// The context after guards for `gs` are released in order.
pub open spec fn release_all(m: Map<Seq<char>, Seq<char>>, gs: Seq<(Seq<char>, Seq<char>)>) -> Map<
    Seq<char>,
    Seq<char>,
>
    decreases gs.len(),
{
    if gs.len() == 0 {
        m
    } else {
        released(release_all(m, gs.drop_last()), gs.last().0, gs.last().1)
    }
}

pub open spec fn keys_distinct(gs: Seq<(Seq<char>, Seq<char>)>) -> bool {
    forall|i: int, j: int| 0 <= i < j < gs.len() ==> gs[i].0 != gs[j].0
}

proof fn lemma_install_all(
    m: Map<Seq<char>, Seq<char>>,
    ins: Seq<(Seq<char>, Seq<char>)>,
    k: Seq<char>,
)
    requires
        keys_distinct(ins),
    ensures
        forall|i: int|
            0 <= i < ins.len() && #[trigger] ins[i].0 == k ==> install_all(m, ins).contains_key(k)
                && install_all(m, ins)[k] == ins[i].1,
        (forall|i: int| 0 <= i < ins.len() ==> #[trigger] ins[i].0 != k) ==> (install_all(
            m,
            ins,
        ).contains_key(k) == m.contains_key(k) && (m.contains_key(k) ==> install_all(m, ins)[k]
            == m[k])),
    decreases ins.len(),
{
    if ins.len() > 0 {
        let pre = ins.drop_last();
        assert forall|i: int, j: int| 0 <= i < j < pre.len() implies pre[i].0 != pre[j].0 by {
            assert(pre[i] == ins[i] && pre[j] == ins[j]);
        }
        lemma_install_all(m, pre, k);
        assert forall|i: int|
            0 <= i < ins.len() && #[trigger] ins[i].0 == k implies install_all(m, ins).contains_key(
            k,
        ) && install_all(m, ins)[k] == ins[i].1 by {
            if i < ins.len() - 1 {
                assert(pre[i] == ins[i]);
            }
        }
        if forall|i: int| 0 <= i < ins.len() ==> #[trigger] ins[i].0 != k {
            assert forall|i: int| 0 <= i < pre.len() implies #[trigger] pre[i].0 != k by {
                assert(pre[i] == ins[i]);
            }
        }
    }
}

proof fn lemma_release_prefix(
    base: Map<Seq<char>, Seq<char>>,
    ins: Seq<(Seq<char>, Seq<char>)>,
    rel: Seq<(Seq<char>, Seq<char>)>,
    j: int,
    k: Seq<char>,
)
    requires
        keys_distinct(ins),
        forall|p: int| 0 <= p < rel.len() ==> ins.contains(#[trigger] rel[p]),
        0 <= j <= rel.len(),
    ensures
        ({
            let i_all = install_all(base, ins);
            let r = release_all(i_all, rel.subrange(0, j));
            &&& (exists|p: int| 0 <= p < j && #[trigger] rel[p].0 == k) ==> !r.contains_key(k)
            &&& (forall|p: int| 0 <= p < j ==> #[trigger] rel[p].0 != k) ==> (r.contains_key(k)
                == i_all.contains_key(k) && (i_all.contains_key(k) ==> r[k] == i_all[k]))
        }),
    decreases j,
{
    if j > 0 {
        let i_all = install_all(base, ins);
        let pre = rel.subrange(0, j);
        assert(pre.drop_last() =~= rel.subrange(0, j - 1));
        lemma_release_prefix(base, ins, rel, j - 1, k);
        let g = rel[j - 1];
        let before = release_all(i_all, rel.subrange(0, j - 1));
        assert(release_all(i_all, pre) == released(before, g.0, g.1));
        if g.0 == k {
            if forall|p: int| 0 <= p < j - 1 ==> #[trigger] rel[p].0 != k {
                assert(ins.contains(rel[j - 1]));
                let i = choose|i: int| 0 <= i < ins.len() && ins[i] == g;
                lemma_install_all(base, ins, k);
                assert(ins[i].0 == k);
            }
        } else {
            if exists|p: int| 0 <= p < j && #[trigger] rel[p].0 == k {
                let p = choose|p: int| 0 <= p < j && #[trigger] rel[p].0 == k;
                assert(p < j - 1);
            }
        }
    }
}

/// Guards on distinct keys that were absent leave the context as it was once
/// every one of them is released, whatever the order of release.
pub proof fn lemma_disjoint_scopes_restore(
    m: Map<Seq<char>, Seq<char>>,
    ins: Seq<(Seq<char>, Seq<char>)>,
    rel: Seq<(Seq<char>, Seq<char>)>,
)
    requires
        keys_distinct(ins),
        forall|i: int| 0 <= i < ins.len() ==> !m.contains_key(#[trigger] ins[i].0),
        forall|p: int| 0 <= p < rel.len() ==> ins.contains(#[trigger] rel[p]),
        forall|i: int| 0 <= i < ins.len() ==> rel.contains(#[trigger] ins[i]),
    ensures
        release_all(install_all(m, ins), rel) == m,
{
    let r = release_all(install_all(m, ins), rel);
    assert(rel.subrange(0, rel.len() as int) =~= rel);
    assert forall|k: Seq<char>| #[trigger] r.contains_key(k) == m.contains_key(k) && (
    m.contains_key(k) ==> r[k] == m[k]) by {
        lemma_release_prefix(m, ins, rel, rel.len() as int, k);
        lemma_install_all(m, ins, k);
        if exists|i: int| 0 <= i < ins.len() && #[trigger] ins[i].0 == k {
            let i = choose|i: int| 0 <= i < ins.len() && #[trigger] ins[i].0 == k;
            assert(rel.contains(ins[i]));
            let p = choose|p: int| 0 <= p < rel.len() && rel[p] == ins[i];
            assert(rel[p].0 == k);
        } else {
            assert forall|p: int| 0 <= p < rel.len() implies #[trigger] rel[p].0 != k by {
                assert(ins.contains(rel[p]));
                let i = choose|i: int| 0 <= i < ins.len() && ins[i] == rel[p];
                assert(ins[i].0 != k);
            }
        }
    }
    assert(r =~= m);
}

} // verus!
