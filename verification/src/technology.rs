use vstd::prelude::*;

verus! {

/// The radio technology of a link.
#[derive(Debug, Clone, Copy, PartialEq, Eq, Structural)]
pub enum Technology {
    Nr,
    Lte,
    Wifi,
    Generic,
}

impl Default for Technology {
    fn default() -> (t: Self)
        ensures
            t == Technology::Generic,
    {
        Technology::Generic
    }
}

/// An external measurement source: which links it describes, the topic it
/// publishes on and the fields it reports.
#[derive(Debug, Clone)]
pub struct TechnologyConfig {
    pub technology: Technology,
    pub links: Vec<String>,
    pub topic: String,
    pub sub_topic: Option<String>,
    pub fields: Vec<String>,
}

/// Key performance indicators of a link, by name. A value is the bit pattern
/// of the `f32` that was measured.
#[derive(Debug)]
pub struct KpiStore {
    keys: Vec<String>,
    values: Vec<u32>,
}

/// The map that a list of (name, value) entries describes, later entries winning.
pub open spec fn kpi_map(keys: Seq<Seq<char>>, values: Seq<u32>) -> Map<Seq<char>, u32>
    decreases keys.len(),
{
    if keys.len() == 0 || values.len() == 0 {
        Map::empty()
    } else {
        kpi_map(keys.drop_last(), values.drop_last()).insert(keys.last(), values.last())
    }
}

proof fn lemma_kpi_map_lookup(keys: Seq<Seq<char>>, values: Seq<u32>, k: Seq<char>)
    requires
        keys.len() == values.len(),
        forall|a: int, b: int| 0 <= a < b < keys.len() ==> keys[a] != keys[b],
    ensures
        kpi_map(keys, values).dom().finite(),
        kpi_map(keys, values).dom().len() == keys.len(),
        kpi_map(keys, values).contains_key(k) <==> keys.contains(k),
        forall|i: int|
            0 <= i < keys.len() && #[trigger] keys[i] == k ==> kpi_map(keys, values)[k] == values[i],
    decreases keys.len(),
{
    if keys.len() > 0 {
        let kl = keys.drop_last();
        let vl = values.drop_last();
        lemma_kpi_map_lookup(kl, vl, k);
        lemma_kpi_map_lookup(kl, vl, keys.last());
        assert(!kl.contains(keys.last())) by {
            if kl.contains(keys.last()) {
                let j = choose|j: int| 0 <= j < kl.len() && kl[j] == keys.last();
                assert(keys[j] == keys[keys.len() - 1]);
            }
        }
        if keys.contains(k) && k != keys.last() {
            let j = choose|j: int| 0 <= j < keys.len() && keys[j] == k;
            assert(kl[j] == k);
        }
        if kl.contains(k) {
            let j = choose|j: int| 0 <= j < kl.len() && kl[j] == k;
            assert(keys[j] == k);
        }
        assert forall|i: int| 0 <= i < keys.len() && #[trigger] keys[i] == k implies kpi_map(
            keys,
            values,
        )[k] == values[i] by {
            if i < keys.len() - 1 {
                assert(kl[i] == k);
            }
        }
    }
}

impl KpiStore {
    /// The measured values by name.
    pub closed spec fn view(&self) -> Map<Seq<char>, u32> {
        kpi_map(self.keys@.map_values(|s: String| s@), self.values@)
    }

    /// No name occurs twice.
    pub closed spec fn wf(&self) -> bool {
        &&& self.keys.len() == self.values.len()
        &&& forall|a: int, b: int| 0 <= a < b < self.keys.len() ==> self.keys[a]@ != self.keys[b]@
    }

    proof fn lemma_view(&self, k: Seq<char>)
        requires
            self.wf(),
        ensures
            self.view().dom().finite(),
            self.view().dom().len() == self.keys.len(),
            self.view().contains_key(k) <==> exists|i: int| 0 <= i < self.keys.len() && self.keys[i]@ == k,
            forall|i: int|
                0 <= i < self.keys.len() && self.keys[i]@ == k ==> self.view()[k] == self.values[i],
    {
        let ks = self.keys@.map_values(|s: String| s@);
        lemma_kpi_map_lookup(ks, self.values@, k);
        assert forall|i: int| 0 <= i < self.keys.len() && self.keys[i]@ == k implies ks.contains(k) by {
            assert(ks[i] == k);
        }
        if ks.contains(k) {
            let j = choose|j: int| 0 <= j < ks.len() && ks[j] == k;
            assert(self.keys[j]@ == k);
        }
        assert forall|i: int| 0 <= i < self.keys.len() && self.keys[i]@ == k implies self.view()[k]
            == self.values[i] by {
            assert(ks[i] == k);
        }
    }

    /// An empty store.
    pub fn new() -> (s: KpiStore)
        ensures
            s.wf(),
            s.view() == Map::<Seq<char>, u32>::empty(),
    {
        let s = KpiStore { keys: Vec::new(), values: Vec::new() };
        assert(s.keys@.map_values(|s: String| s@).len() == 0);
        s
    }

    fn find(&self, key: &String) -> (r: Option<usize>)
        requires
            self.wf(),
        ensures
            match r {
                Some(i) => i < self.keys.len() && self.keys[i as int]@ == key@,
                None => forall|i: int| 0 <= i < self.keys.len() ==> self.keys[i]@ != key@,
            },
    {
        let mut i: usize = 0;
        while i < self.keys.len()
            invariant
                i <= self.keys.len(),
                forall|j: int| 0 <= j < i ==> self.keys[j]@ != key@,
            decreases self.keys.len() - i,
        {
            if self.keys[i] == *key {
                return Some(i);
            }
            i = i + 1;
        }
        None
    }

    /// The value stored under `key`, if any.
    pub fn get(&self, key: &String) -> (r: Option<u32>)
        requires
            self.wf(),
        ensures
            r == (if self.view().contains_key(key@) {
                Some(self.view()[key@])
            } else {
                None
            }),
    {
        proof {
            self.lemma_view(key@);
        }
        match self.find(key) {
            Some(i) => Some(self.values[i]),
            None => None,
        }
    }

    /// Stores `value` under `key` and returns the value stored there before.
    pub fn insert(&mut self, key: String, value: u32) -> (r: Option<u32>)
        requires
            old(self).wf(),
        ensures
            final(self).wf(),
            final(self).view() == old(self).view().insert(key@, value),
            r == (if old(self).view().contains_key(key@) {
                Some(old(self).view()[key@])
            } else {
                None
            }),
    {
        proof {
            self.lemma_view(key@);
        }
        let ghost old_view = self.view();
        match self.find(&key) {
            Some(i) => {
                let previous = self.values[i];
                self.values.set(i, value);
                proof {
                    assert forall|k: Seq<char>| #[trigger] self.view().contains_key(k)
                        == old_view.insert(key@, value).contains_key(k) by {
                        self.lemma_view(k);
                        old(self).lemma_view(k);
                    }
                    assert forall|k: Seq<char>| #[trigger] self.view().contains_key(k) implies self.view()[k]
                        == old_view.insert(key@, value)[k] by {
                        self.lemma_view(k);
                        old(self).lemma_view(k);
                        if k == key@ {
                            assert(self.keys[i as int]@ == k);
                            assert(self.view()[k] == self.values[i as int]);
                        } else {
                            let j = choose|j: int| 0 <= j < self.keys.len() && self.keys[j]@ == k;
                            assert(j != i);
                            assert(self.view()[k] == self.values[j]);
                            assert(old(self).keys[j]@ == k);
                            assert(old_view[k] == old(self).values[j]);
                        }
                    }
                    assert(self.view() =~= old_view.insert(key@, value));
                }
                Some(previous)
            },
            None => {
                let ghost kv = key@;
                self.keys.push(key);
                self.values.push(value);
                proof {
                    let ks = self.keys@.map_values(|s: String| s@);
                    let oks = old(self).keys@.map_values(|s: String| s@);
                    assert(ks.drop_last() =~= oks);
                    assert(self.values@.drop_last() =~= old(self).values@);
                }
                None
            },
        }
    }
}

/// The names of (name, value) entries.
pub open spec fn entry_names(e: Seq<(String, u32)>) -> Seq<Seq<char>> {
    e.map_values(|x: (String, u32)| x.0@)
}

/// A list of (name, value) entries holds exactly the map `m`, each name once.
pub open spec fn lists_map(e: Seq<(String, u32)>, m: Map<Seq<char>, u32>) -> bool {
    &&& entry_names(e).no_duplicates()
    &&& forall|i: int| 0 <= i < e.len() ==> #[trigger] m.contains_key(e[i].0@) && m[e[i].0@] == e[i].1
    &&& forall|k: Seq<char>| #[trigger] m.contains_key(k) ==> entry_names(e).contains(k)
}

impl KpiStore {
    /// The stored values with their names.
    pub fn entries(&self) -> (r: Vec<(String, u32)>)
        requires
            self.wf(),
        ensures
            lists_map(r@, self.view()),
    {
        let mut out: Vec<(String, u32)> = Vec::new();
        let mut i: usize = 0;
        while i < self.keys.len()
            invariant
                self.wf(),
                i <= self.keys.len(),
                out.len() == i,
                forall|j: int| 0 <= j < i ==> #[trigger] out@[j].0@ == self.keys@[j]@ && out@[j].1 == self.values@[j],
            decreases self.keys.len() - i,
        {
            out.push((self.keys[i].clone(), self.values[i]));
            i = i + 1;
        }
        proof {
            assert forall|a: int, b: int| 0 <= a < b < out.len() implies entry_names(out@)[a] != entry_names(
                out@,
            )[b] by {
                assert(entry_names(out@)[a] == self.keys@[a]@);
                assert(entry_names(out@)[b] == self.keys@[b]@);
            }
            assert forall|j: int| 0 <= j < out.len() implies #[trigger] self.view().contains_key(out@[j].0@)
                && self.view()[out@[j].0@] == out@[j].1 by {
                self.lemma_view(out@[j].0@);
            }
            assert forall|k: Seq<char>| #[trigger] self.view().contains_key(k) implies entry_names(out@).contains(
                k,
            ) by {
                self.lemma_view(k);
                let j = choose|j: int| 0 <= j < self.keys.len() && self.keys[j]@ == k;
                assert(entry_names(out@)[j] == k);
            }
        }
        out
    }
}

/// Measurements of a 5G new radio link.
#[derive(Debug)]
pub struct NewRadio {
    pub kpi: KpiStore,
}

/// Measurements of an LTE link.
#[derive(Debug)]
pub struct Lte {
    pub kpi: KpiStore,
}

/// Measurements of a WiFi link.
#[derive(Debug)]
pub struct WiFi {
    pub kpi: KpiStore,
}

impl NewRadio {
    pub fn new() -> (r: NewRadio)
        ensures
            r.kpi.wf(),
            r.kpi.view() == Map::<Seq<char>, u32>::empty(),
    {
        NewRadio { kpi: KpiStore::new() }
    }
}

impl Lte {
    pub fn new() -> (r: Lte)
        ensures
            r.kpi.wf(),
            r.kpi.view() == Map::<Seq<char>, u32>::empty(),
    {
        Lte { kpi: KpiStore::new() }
    }
}

impl WiFi {
    pub fn new() -> (r: WiFi)
        ensures
            r.kpi.wf(),
            r.kpi.view() == Map::<Seq<char>, u32>::empty(),
    {
        WiFi { kpi: KpiStore::new() }
    }
}

/// The measurements kept for a link, by its technology.
#[derive(Debug)]
pub enum TechnologyData {
    Nr(NewRadio),
    Lte(Lte),
    Wifi(WiFi),
    Generic,
}

impl TechnologyData {
    /// The measurement store of a technology, if it keeps one.
    pub open spec fn kpis(&self) -> Option<Map<Seq<char>, u32>> {
        match self {
            TechnologyData::Nr(t) => Some(t.kpi.view()),
            TechnologyData::Lte(t) => Some(t.kpi.view()),
            TechnologyData::Wifi(t) => Some(t.kpi.view()),
            TechnologyData::Generic => None,
        }
    }

    pub open spec fn wf(&self) -> bool {
        match self {
            TechnologyData::Nr(t) => t.kpi.wf(),
            TechnologyData::Lte(t) => t.kpi.wf(),
            TechnologyData::Wifi(t) => t.kpi.wf(),
            TechnologyData::Generic => true,
        }
    }

    /// The technology this data belongs to.
    pub open spec fn technology(&self) -> Technology {
        match self {
            TechnologyData::Nr(_) => Technology::Nr,
            TechnologyData::Lte(_) => Technology::Lte,
            TechnologyData::Wifi(_) => Technology::Wifi,
            TechnologyData::Generic => Technology::Generic,
        }
    }

    /// Fresh, empty measurements for a technology.
    pub fn new(technology: &Technology) -> (d: TechnologyData)
        ensures
            d.wf(),
            d.technology() == *technology,
            d.kpis() == (if *technology == Technology::Generic {
                None
            } else {
                Some(Map::<Seq<char>, u32>::empty())
            }),
    {
        match technology {
            Technology::Wifi => TechnologyData::Wifi(WiFi::new()),
            Technology::Nr => TechnologyData::Nr(NewRadio::new()),
            Technology::Lte => TechnologyData::Lte(Lte::new()),
            Technology::Generic => TechnologyData::Generic,
        }
    }

    /// Records a measured value. An LTE store only accepts names it already
    /// holds; a generic link keeps no measurements.
    pub fn set_value(&mut self, key: String, value: u32)
        requires
            old(self).wf(),
            old(self).technology() == Technology::Lte ==> old(self).kpis().unwrap().contains_key(key@),
        ensures
            final(self).wf(),
            final(self).technology() == old(self).technology(),
            final(self).kpis() == match old(self).kpis() {
                Some(m) => Some(m.insert(key@, value)),
                None => None,
            },
    {
        match self {
            TechnologyData::Nr(t) => {
                t.kpi.insert(key, value);
            },
            TechnologyData::Wifi(t) => {
                t.kpi.insert(key, value);
            },
            TechnologyData::Lte(t) => {
                t.kpi.insert(key, value);
            },
            TechnologyData::Generic => {},
        }
    }

    /// The measured values with their names; none for a generic link.
    pub fn entries(&self) -> (r: Vec<(String, u32)>)
        requires
            self.wf(),
        ensures
            match self.kpis() {
                Some(m) => lists_map(r@, m),
                None => r@.len() == 0,
            },
    {
        match self {
            TechnologyData::Nr(t) => t.kpi.entries(),
            TechnologyData::Wifi(t) => t.kpi.entries(),
            TechnologyData::Lte(t) => t.kpi.entries(),
            TechnologyData::Generic => Vec::new(),
        }
    }

    /// The last value measured under `key`, if any.
    pub fn get_value(&self, key: &String) -> (r: Option<u32>)
        requires
            self.wf(),
        ensures
            r == match self.kpis() {
                Some(m) => if m.contains_key(key@) {
                    Some(m[key@])
                } else {
                    None
                },
                None => None,
            },
    {
        match self {
            TechnologyData::Nr(t) => t.kpi.get(key),
            TechnologyData::Wifi(t) => t.kpi.get(key),
            TechnologyData::Lte(t) => t.kpi.get(key),
            TechnologyData::Generic => None,
        }
    }
}

} // verus!
