//! A cache of rendered fragments, for plugins whose rendering is costly.
//!
//! A fragment is kept under the pair of the plugin's name and the plugin's
//! own key, so no plugin reads what another one has kept. Each entry has a
//! counter of how alive it is. An access to a fragment that is there counts
//! it up; each sweep counts every entry down and drops those that reach
//! zero.
use vstd::prelude::*;

verus! {

#[derive(Debug)]
struct Entry {
    plugin: String,
    key: String,
    value: String,
    lifetime: usize,
}

/// Rendered fragments by plugin and key, each with its counter.
#[derive(Debug)]
pub struct Cache {
    entries: Vec<Entry>,
    live_length: usize,
}

/// The cache after one sweep: every counter is one lower, and the entries
/// whose counter would be zero, or was zero already, are gone.
pub open spec fn swept(m: Map<(Seq<char>, Seq<char>), (Seq<char>, usize)>) -> Map<
    (Seq<char>, Seq<char>),
    (Seq<char>, usize),
> {
    Map::new(
        |k: (Seq<char>, Seq<char>)| m.contains_key(k) && m[k].1 >= 2,
        |k: (Seq<char>, Seq<char>)| (m[k].0, (m[k].1 - 1) as usize),
    )
}

/// The cache after `n` sweeps.
pub open spec fn swept_times(m: Map<(Seq<char>, Seq<char>), (Seq<char>, usize)>, n: nat) -> Map<
    (Seq<char>, Seq<char>),
    (Seq<char>, usize),
>
    decreases n,
{
    if n == 0 {
        m
    } else {
        swept(swept_times(m, (n - 1) as nat))
    }
}

/// An entry lives through fewer sweeps than its counter says: after `n`
/// sweeps, with `n` at least one, it is still there exactly if its counter
/// was above `n`, and then its counter is lower by `n` and its fragment is
/// the same.
pub proof fn lemma_survives(
    m: Map<(Seq<char>, Seq<char>), (Seq<char>, usize)>,
    n: nat,
    k: (Seq<char>, Seq<char>),
)
    requires
        n >= 1,
    ensures
        swept_times(m, n).contains_key(k) <==> m.contains_key(k) && m[k].1 > n,
        swept_times(m, n).contains_key(k) ==> swept_times(m, n)[k] == (
            m[k].0,
            (m[k].1 - n) as usize,
        ),
    decreases n,
{
    reveal_with_fuel(swept_times, 2);
    if n > 1 {
        lemma_survives(m, (n - 1) as nat, k);
    }
}

/// The fragment that an access under `k` gives: the one that is kept there,
/// or else `rendered`, which the plugin made for this access.
pub open spec fn fragment(
    m: Map<(Seq<char>, Seq<char>), (Seq<char>, usize)>,
    k: (Seq<char>, Seq<char>),
    rendered: Seq<char>,
) -> Seq<char> {
    if m.contains_key(k) {
        m[k].0
    } else {
        rendered
    }
}

/// The cache after an access under `k`: a fragment that is kept there is
/// counted up by one; else `rendered` is kept there, with a counter of zero.
/// Every other entry stays as it is.
pub open spec fn accessed(
    m: Map<(Seq<char>, Seq<char>), (Seq<char>, usize)>,
    k: (Seq<char>, Seq<char>),
    rendered: Seq<char>,
) -> Map<(Seq<char>, Seq<char>), (Seq<char>, usize)> {
    if m.contains_key(k) {
        m.insert(k, (m[k].0, (m[k].1 + 1) as usize))
    } else {
        m.insert(k, (rendered, 0usize))
    }
}

/// An access depends on nothing but the state of the cache, the pair of
/// plugin and key, and what the plugin renders for the key: on caches in
/// equal states, equal accesses give equal fragments and leave the caches in
/// equal states.
pub proof fn lemma_access_is_determined(
    a: Map<(Seq<char>, Seq<char>), (Seq<char>, usize)>,
    b: Map<(Seq<char>, Seq<char>), (Seq<char>, usize)>,
    k: (Seq<char>, Seq<char>),
    rendered_a: Seq<char>,
    rendered_b: Seq<char>,
)
    requires
        a == b,
        !a.contains_key(k) ==> rendered_a == rendered_b,
    ensures
        fragment(a, k, rendered_a) == fragment(b, k, rendered_b),
        accessed(a, k, rendered_a) == accessed(b, k, rendered_b),
{
}

/// An access under one pair of plugin and key leaves what is kept under
/// every other pair as it is: a plugin neither reads nor changes the
/// fragments of another, nor its own under another key.
pub proof fn lemma_access_leaves_others(
    m: Map<(Seq<char>, Seq<char>), (Seq<char>, usize)>,
    k: (Seq<char>, Seq<char>),
    rendered: Seq<char>,
    other: (Seq<char>, Seq<char>),
)
    requires
        other != k,
    ensures
        accessed(m, k, rendered).contains_key(other) == m.contains_key(other),
        m.contains_key(other) ==> accessed(m, k, rendered)[other] == m[other],
        accessed(m, k, rendered).contains_key(k),
        accessed(m, k, rendered)[k].0 == fragment(m, k, rendered),
{
}

impl Cache {
    /// Whether the cache is in order: no pair of plugin and key is kept
    /// twice.
    pub closed spec fn wf(self) -> bool {
        &&& self.live_length == 0
        &&& forall|i: int, j: int|
            0 <= i < j < self.entries@.len() ==> self.id(i) != self.id(j)
    }

    /// The pair of plugin and key of entry `i`.
    spec fn id(self, i: int) -> (Seq<char>, Seq<char>) {
        (self.entries@[i].plugin@, self.entries@[i].key@)
    }

    spec fn has(self, k: (Seq<char>, Seq<char>)) -> bool {
        exists|i: int| 0 <= i < self.entries@.len() && #[trigger] self.id(i) == k
    }

    spec fn at(self, k: (Seq<char>, Seq<char>)) -> int {
        choose|i: int| 0 <= i < self.entries@.len() && #[trigger] self.id(i) == k
    }

    /// The fragments in the cache by plugin and key, each with its counter.
    pub closed spec fn view(self) -> Map<(Seq<char>, Seq<char>), (Seq<char>, usize)> {
        Map::new(
            |k: (Seq<char>, Seq<char>)| self.has(k),
            |k: (Seq<char>, Seq<char>)|
                (self.entries@[self.at(k)].value@, self.entries@[self.at(k)].lifetime),
        )
    }

    /// An empty cache.
    pub fn new() -> (r: Cache)
        ensures
            r.wf(),
            r.view() == Map::<(Seq<char>, Seq<char>), (Seq<char>, usize)>::empty(),
    {
        let r = Cache { entries: Vec::new(), live_length: 0 };
        assert(r.view() =~= Map::<(Seq<char>, Seq<char>), (Seq<char>, usize)>::empty());
        r
    }

    /// Where an entry is the only one of its pair.
    proof fn lemma_at(self, i: int)
        requires
            self.wf(),
            0 <= i < self.entries@.len(),
        ensures
            self.has(self.id(i)),
            self.at(self.id(i)) == i,
    {
        let j = self.at(self.id(i));
        if j < i {
            assert(self.id(j) != self.id(i));
        } else if i < j {
            assert(self.id(i) != self.id(j));
        }
    }

    /// The index of the entry of plugin `plugin` under `key`.
    fn find(&self, plugin: &String, key: &String) -> (r: Option<usize>)
        requires
            self.wf(),
        ensures
            match r {
                Some(i) => i < self.entries@.len() && self.id(i as int) == (plugin@, key@)
                    && self.has((plugin@, key@)) && self.at((plugin@, key@)) == i,
                None => !self.has((plugin@, key@)),
            },
    {
        let mut i: usize = 0;
        while i < self.entries.len()
            invariant
                self.wf(),
                i <= self.entries@.len(),
                forall|j: int| 0 <= j < i ==> #[trigger] self.id(j) != (plugin@, key@),
            decreases self.entries.len() - i,
        {
            if self.entries[i].plugin == *plugin && self.entries[i].key == *key {
                proof {
                    assert(self.id(i as int) == (plugin@, key@));
                    self.lemma_at(i as int);
                }
                return Some(i);
            }
            assert(self.id(i as int) != (plugin@, key@));
            i = i + 1;
        }
        None
    }

    /// The fragment of plugin `plugin_name` under `key`.
    ///
    /// A fragment that is in the cache under this plugin and this key is
    /// returned as it is, and its counter goes up by one. One that is not is
    /// rendered by `render_function` from `key`, and kept with a counter of
    /// zero. What is kept under any other plugin or key is neither read nor
    /// changed.
    pub fn get_or_insert<F: Fn(&str) -> String>(
        &mut self,
        plugin_name: &str,
        key: &str,
        render_function: F,
    ) -> (r: String)
        requires
            old(self).wf(),
            call_requires(render_function, (key,)),
            old(self).view().contains_key((plugin_name@, key@)) ==> old(self).view()[(
                plugin_name@,
                key@,
            )].1 < usize::MAX,
        ensures
            final(self).wf(),
            r@ == fragment(old(self).view(), (plugin_name@, key@), r@),
            !old(self).view().contains_key((plugin_name@, key@)) ==> call_ensures(
                render_function,
                (key,),
                r,
            ),
            final(self).view() == accessed(old(self).view(), (plugin_name@, key@), r@),
    {
        let plugin = plugin_name.to_owned();
        let owned_key = key.to_owned();
        let ghost k = (plugin_name@, key@);
        let ghost before = old(self).view();
        match self.find(&plugin, &owned_key) {
            Some(i) => {
                let value = self.entries[i].value.clone();
                let lifetime = self.entries[i].lifetime;
                self.entries[i].lifetime = lifetime + 1;
                proof {
                    let after = self.view();
                    let want = accessed(before, k, value@);
                    assert forall|a: int| 0 <= a < self.entries@.len() implies #[trigger] self.id(a)
                        == old(self).id(a) by {}
                    assert forall|q: (Seq<char>, Seq<char>)|
                        after.contains_key(q) == want.contains_key(q) by {
                        if old(self).has(q) {
                            let j = old(self).at(q);
                            assert(self.id(j) == q);
                        }
                        if self.has(q) {
                            let j = self.at(q);
                            assert(old(self).id(j) == q);
                        }
                    }
                    assert forall|q: (Seq<char>, Seq<char>)| after.contains_key(q) implies after[q]
                        == want[q] by {
                        let j = self.at(q);
                        assert(old(self).id(j) == q);
                        old(self).lemma_at(j);
                    }
                    assert(after =~= want);
                }
                value
            },
            None => {
                let value = render_function(key);
                let r = value.clone();
                self.entries.push(
                    Entry { plugin, key: owned_key, value, lifetime: self.live_length },
                );
                proof {
                    let after = self.view();
                    let want = accessed(before, k, r@);
                    let last = self.entries@.len() - 1;
                    assert(self.id(last) == k);
                    assert forall|a: int| 0 <= a < last implies #[trigger] self.id(a) == old(
                        self,
                    ).id(a) by {}
                    assert forall|a: int, b: int| 0 <= a < b < self.entries@.len() implies self.id(
                        a,
                    ) != self.id(b) by {
                        if b == last {
                            assert(old(self).id(a) != k);
                        } else {
                            assert(old(self).id(a) != old(self).id(b));
                        }
                    }
                    assert forall|q: (Seq<char>, Seq<char>)|
                        after.contains_key(q) == want.contains_key(q) by {
                        if old(self).has(q) {
                            let j = old(self).at(q);
                            assert(self.id(j) == q);
                        }
                        if self.has(q) {
                            let j = self.at(q);
                            if j < last {
                                assert(old(self).id(j) == q);
                            }
                        }
                    }
                    assert forall|q: (Seq<char>, Seq<char>)| after.contains_key(q) implies after[q]
                        == want[q] by {
                        let j = self.at(q);
                        self.lemma_at(last);
                        if q != k {
                            assert(old(self).id(j) == q);
                            old(self).lemma_at(j);
                        }
                    }
                    assert(after =~= want);
                }
                r
            },
        }
    }

    /// One sweep: every counter goes down by one, and the entries whose
    /// counter reaches zero, or was zero already, are dropped.
    pub fn clean(&mut self)
        requires
            old(self).wf(),
        ensures
            final(self).wf(),
            final(self).view() == swept(old(self).view()),
    {
        let mut kept: Vec<Entry> = Vec::new();
        let ghost mut src: Seq<int> = Seq::empty();
        let mut i: usize = 0;
        while i < self.entries.len()
            invariant
                self.wf(),
                i <= self.entries@.len(),
                src.len() == kept@.len(),
                forall|j: int| 0 <= j < src.len() ==> 0 <= #[trigger] src[j] < i,
                forall|j: int, l: int| 0 <= j < l < src.len() ==> src[j] < src[l],
                forall|j: int|
                    0 <= j < src.len() ==> {
                        let e = #[trigger] kept@[j];
                        let o = self.entries@[src[j]];
                        &&& e.plugin@ == o.plugin@
                        &&& e.key@ == o.key@
                        &&& e.value@ == o.value@
                        &&& o.lifetime >= 2
                        &&& e.lifetime == o.lifetime - 1
                    },
                forall|p: int|
                    0 <= p < i && (#[trigger] self.entries@[p]).lifetime >= 2 ==> exists|j: int|
                        0 <= j < src.len() && #[trigger] src[j] == p,
            decreases self.entries.len() - i,
        {
            let e = &self.entries[i];
            if e.lifetime >= 2 {
                kept.push(
                    Entry {
                        plugin: e.plugin.clone(),
                        key: e.key.clone(),
                        value: e.value.clone(),
                        lifetime: e.lifetime - 1,
                    },
                );
                proof {
                    let old_src = src;
                    src = src.push(i as int);
                    assert forall|p: int|
                        0 <= p < i + 1 && (#[trigger] self.entries@[p]).lifetime >= 2 implies exists|
                        j: int,
                    | 0 <= j < src.len() && #[trigger] src[j] == p by {
                        if p < i {
                            let j = choose|j: int| 0 <= j < old_src.len() && #[trigger] old_src[j] == p;
                            assert(src[j] == p);
                        } else {
                            assert(src[src.len() - 1] == p);
                        }
                    }
                }
            }
            i = i + 1;
        }
        let ghost before = *self;
        self.entries = kept;
        proof {
            assert forall|a: int| 0 <= a < self.entries@.len() implies #[trigger] self.id(a)
                == before.id(src[a]) by {
                assert(kept@[a].key@ == before.entries@[src[a]].key@);
            }
            assert forall|a: int, b: int| 0 <= a < b < self.entries@.len() implies self.id(a)
                != self.id(b) by {
                assert(before.id(src[a]) != before.id(src[b]));
            }
            let after = self.view();
            let want = swept(before.view());
            assert forall|q: (Seq<char>, Seq<char>)| after.contains_key(q) implies want.contains_key(
                q,
            ) && after[q] == want[q] by {
                let j = self.at(q);
                let p = src[j];
                assert(self.id(j) == before.id(p));
                before.lemma_at(p);
                assert(kept@[j].value@ == before.entries@[p].value@);
            }
            assert forall|q: (Seq<char>, Seq<char>)| want.contains_key(q) implies after.contains_key(
                q,
            ) by {
                let p = before.at(q);
                assert(before.entries@[p].lifetime >= 2);
                let j = choose|j: int| 0 <= j < src.len() && #[trigger] src[j] == p;
                assert(self.id(j) == q);
            }
            assert(after =~= want);
        }
    }
}

} // verus!
