use vstd::prelude::*;

verus! {

/// Largest number of prices kept for one asset.
pub const CAPACITY: usize = 15;

/// `w` with `p` appended, the oldest price evicted when that passes `CAPACITY`.
pub open spec fn appended(w: Seq<i64>, p: i64) -> Seq<i64> {
    let v = w.push(p);
    if v.len() > CAPACITY {
        v.subrange(1, v.len() as int)
    } else {
        v
    }
}

/// The window of `asset` in `m`, empty for an asset never seen.
pub open spec fn window_of(m: Map<Seq<char>, Seq<i64>>, asset: Seq<char>) -> Seq<i64> {
    if m.contains_key(asset) {
        m[asset]
    } else {
        Seq::empty()
    }
}

/// The store `m` after observing `price` for `asset`.
pub open spec fn recorded(m: Map<Seq<char>, Seq<i64>>, asset: Seq<char>, price: i64) -> Map<
    Seq<char>,
    Seq<i64>,
> {
    m.insert(asset, appended(window_of(m, asset), price))
}

/// The last `n` elements of `s`, or all of it when it is shorter.
pub open spec fn last_n(s: Seq<i64>, n: nat) -> Seq<i64> {
    if s.len() <= n {
        s
    } else {
        s.subrange(s.len() - n, s.len() as int)
    }
}

/// `w` after observing each price of `ps` in order.
pub open spec fn appended_all(w: Seq<i64>, ps: Seq<i64>) -> Seq<i64>
    decreases ps.len(),
{
    if ps.len() == 0 {
        w
    } else {
        appended(appended_all(w, ps.drop_last()), ps.last())
    }
}

/// The window of one asset.
pub struct AssetWindow {
    pub asset: String,
    pub prices: Vec<i64>,
}

/// Index of the last entry of `s` whose asset is `k`, or -1 when none is.
pub open spec fn find(s: Seq<(Seq<char>, Seq<i64>)>, k: Seq<char>) -> int
    decreases s.len(),
{
    if s.len() == 0 {
        -1
    } else if s.last().0 == k {
        s.len() - 1
    } else {
        find(s.drop_last(), k)
    }
}

/// The bounded recent-price history of every asset seen so far.
pub struct PriceWindows {
    entries: Vec<AssetWindow>,
}

impl PriceWindows {
    /// The entries as (asset, window) pairs.
    pub closed spec fn pairs(&self) -> Seq<(Seq<char>, Seq<i64>)> {
        self.entries@.map_values(|e: AssetWindow| (e.asset@, e.prices@))
    }

    /// Each asset seen maps to its window, oldest price first.
    pub closed spec fn view(&self) -> Map<Seq<char>, Seq<i64>> {
        Map::new(
            |k: Seq<char>| find(self.pairs(), k) >= 0,
            |k: Seq<char>| self.pairs()[find(self.pairs(), k)].1,
        )
    }

    /// Every window holds at most `CAPACITY` prices.
    pub closed spec fn wf(&self) -> bool {
        forall|i: int| 0 <= i < self.entries@.len() ==> #[trigger] self.entries@[i].prices@.len() <= CAPACITY
    }

    /// An empty store.
    pub fn new() -> (r: PriceWindows)
        ensures
            r.wf(),
            r@ == Map::<Seq<char>, Seq<i64>>::empty(),
    {
        let r = PriceWindows { entries: Vec::new() };
        assert(r@ =~= Map::<Seq<char>, Seq<i64>>::empty());
        r
    }
}

proof fn lemma_appended_last_n(s: Seq<i64>, p: i64)
    ensures
        appended(last_n(s, CAPACITY as nat), p) == last_n(s.push(p), CAPACITY as nat),
{
    assert(appended(last_n(s, CAPACITY as nat), p) =~= last_n(s.push(p), CAPACITY as nat));
}

/// A window that starts within `CAPACITY` and then observes the prices `ps`
/// in order holds the last `CAPACITY` prices of all it was given, in the
/// order given.
pub proof fn lemma_window_keeps_last(w: Seq<i64>, ps: Seq<i64>)
    requires
        w.len() <= CAPACITY,
    ensures
        appended_all(w, ps) == last_n(w + ps, CAPACITY as nat),
    decreases ps.len(),
{
    if ps.len() == 0 {
        assert(w + ps =~= w);
    } else {
        lemma_window_keeps_last(w, ps.drop_last());
        lemma_appended_last_n(w + ps.drop_last(), ps.last());
        assert((w + ps.drop_last()).push(ps.last()) =~= w + ps);
    }
}

/// A fresh window that observes the prices `ps` holds exactly their last
/// `CAPACITY` (all of them when there are fewer), in the order given.
pub proof fn lemma_fresh_window_keeps_last(ps: Seq<i64>)
    ensures
        appended_all(Seq::empty(), ps) == last_n(ps, CAPACITY as nat),
        appended_all(Seq::empty(), ps).len() == if ps.len() < CAPACITY {
            ps.len()
        } else {
            CAPACITY as nat
        },
{
    lemma_window_keeps_last(Seq::empty(), ps);
    assert(Seq::<i64>::empty() + ps =~= ps);
}

/// Observing a price for one asset leaves the window of every other asset
/// as it was, and extends its own.
pub proof fn lemma_assets_independent(
    m: Map<Seq<char>, Seq<i64>>,
    asset: Seq<char>,
    price: i64,
    other: Seq<char>,
)
    requires
        asset != other,
    ensures
        window_of(recorded(m, asset, price), other) == window_of(m, other),
        window_of(recorded(m, asset, price), asset) == appended(window_of(m, asset), price),
{
}

proof fn lemma_find_range(s: Seq<(Seq<char>, Seq<i64>)>, k: Seq<char>)
    ensures
        -1 <= find(s, k) < s.len(),
        find(s, k) >= 0 ==> s[find(s, k)].0 == k,
        find(s, k) < 0 ==> forall|i: int| 0 <= i < s.len() ==> #[trigger] s[i].0 != k,
    decreases s.len(),
{
    if s.len() > 0 {
        lemma_find_range(s.drop_last(), k);
        if s.last().0 != k && find(s.drop_last(), k) < 0 {
            assert forall|i: int| 0 <= i < s.len() implies #[trigger] s[i].0 != k by {
                if i < s.len() - 1 {
                    assert(s[i] == s.drop_last()[i]);
                }
            }
        }
    }
}

proof fn lemma_find_same_keys(s: Seq<(Seq<char>, Seq<i64>)>, t: Seq<(Seq<char>, Seq<i64>)>, k: Seq<char>)
    requires
        s.len() == t.len(),
        forall|i: int| 0 <= i < s.len() ==> #[trigger] s[i].0 == t[i].0,
    ensures
        find(s, k) == find(t, k),
    decreases s.len(),
{
    if s.len() > 0 {
        assert forall|i: int| 0 <= i < s.len() - 1 implies #[trigger] s.drop_last()[i].0 == t.drop_last()[i].0 by {
            assert(s.drop_last()[i] == s[i] && t.drop_last()[i] == t[i]);
        }
        lemma_find_same_keys(s.drop_last(), t.drop_last(), k);
    }
}

proof fn lemma_find_push(s: Seq<(Seq<char>, Seq<i64>)>, e: (Seq<char>, Seq<i64>), k: Seq<char>)
    ensures
        find(s.push(e), k) == if e.0 == k { s.len() as int } else { find(s, k) },
{
    assert(s.push(e).drop_last() =~= s);
}

impl PriceWindows {
    /// In a well-formed store no window holds more than `CAPACITY` prices.
    pub proof fn lemma_windows_bounded(&self)
        requires
            self.wf(),
        ensures
            forall|k: Seq<char>| #[trigger] self@.contains_key(k) ==> self@[k].len() <= CAPACITY,
    {
        assert forall|k: Seq<char>| #[trigger] self@.contains_key(k) implies self@[k].len() <= CAPACITY by {
            lemma_find_range(self.pairs(), k);
            assert(self.entries@[find(self.pairs(), k)].prices@.len() <= CAPACITY);
        }
    }

    /// Position of the entry of `asset`, searched from the newest entry.
    fn position(&self, asset: &String) -> (r: Option<usize>)
        ensures
            r is Some <==> find(self.pairs(), asset@) >= 0,
            r is Some ==> r->0 == find(self.pairs(), asset@),
    {
        let mut i: usize = self.entries.len();
        assert(self.pairs().subrange(0, i as int) =~= self.pairs());
        while i > 0
            invariant
                i <= self.entries@.len(),
                find(self.pairs(), asset@) == find(self.pairs().subrange(0, i as int), asset@),
            decreases i,
        {
            let ghost sub = self.pairs().subrange(0, i as int);
            assert(sub.drop_last() =~= self.pairs().subrange(0, i - 1));
            if self.entries[i - 1].asset == *asset {
                return Some(i - 1);
            }
            i = i - 1;
        }
        None
    }

    /// Appends `price` to the window of `asset`, creating the window on the
    /// asset's first observation and evicting the oldest price past
    /// `CAPACITY`. Returns the window after the insert.
    pub fn record(&mut self, asset: &String, price: i64) -> (r: Vec<i64>)
        requires
            old(self).wf(),
        ensures
            final(self).wf(),
            final(self)@ == recorded(old(self)@, asset@, price),
            r@ == final(self)@[asset@],
            r@.len() <= CAPACITY,
    {
        let ghost before = self.pairs();
        proof {
            lemma_find_range(before, asset@);
        }
        match self.position(asset) {
            Some(i) => {
                let e = &mut self.entries[i];
                e.prices.push(price);
                if e.prices.len() > CAPACITY {
                    e.prices.remove(0);
                }
                proof {
                    assert forall|j: int| 0 <= j < before.len() implies #[trigger] before[j].0
                        == self.pairs()[j].0 by {}
                    assert forall|k: Seq<char>| #[trigger] find(self.pairs(), k) == find(before, k) by {
                        lemma_find_same_keys(before, self.pairs(), k);
                    }
                    assert(self.entries@[i as int].prices@ =~= appended(before[i as int].1, price));
                    let m = recorded(old(self)@, asset@, price);
                    assert forall|k: Seq<char>| #[trigger] m.contains_key(k) == self@.contains_key(k) && (
                    m.contains_key(k) ==> m[k] == self@[k]) by {
                        lemma_find_range(before, k);
                    }
                    assert(self@.dom() =~= m.dom());
                    assert(self@ =~= m);
                }
            },
            None => {
                let mut prices: Vec<i64> = Vec::new();
                prices.push(price);
                self.entries.push(AssetWindow { asset: asset.clone(), prices });
                proof {
                    assert(self.pairs() =~= before.push((asset@, seq![price])));
                    assert forall|k: Seq<char>| #[trigger] find(self.pairs(), k) == if k == asset@ {
                        before.len() as int
                    } else {
                        find(before, k)
                    } by {
                        lemma_find_push(before, (asset@, seq![price]), k);
                    }
                    assert(appended(Seq::empty(), price) =~= seq![price]);
                    let m = recorded(old(self)@, asset@, price);
                    assert forall|k: Seq<char>| #[trigger] m.contains_key(k) == self@.contains_key(k) && (
                    m.contains_key(k) ==> m[k] == self@[k]) by {
                        lemma_find_range(before, k);
                        if k != asset@ && find(before, k) >= 0 {
                            assert(self.pairs()[find(before, k)] == before[find(before, k)]);
                        }
                    }
                    assert(self@ =~= m);
                }
            },
        }
        proof {
            self.lemma_windows_bounded();
        }
        self.window(asset)
    }

    /// A copy of the window of `asset`, empty for an asset never seen.
    pub fn window(&self, asset: &String) -> (r: Vec<i64>)
        ensures
            r@ == window_of(self@, asset@),
    {
        proof {
            lemma_find_range(self.pairs(), asset@);
        }
        match self.position(asset) {
            Some(i) => {
                let w = self.entries[i].prices.clone();
                assert(w@ =~= self@[asset@]);
                w
            },
            None => Vec::new(),
        }
    }
}

} // verus!
