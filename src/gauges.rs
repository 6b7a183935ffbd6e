use vstd::prelude::*;

verus! {

/// The labels that identify one gauge: the directory path and the instance name.
pub type GaugeKey = (Seq<char>, Seq<char>);

/// One labeled gauge and its current value in bytes.
pub struct SizeReading {
    pub directory: String,
    pub instance: String,
    pub bytes: u64,
}

/// The labels of a reading, as they appear in the table's view.
pub open spec fn key_of(r: SizeReading) -> GaugeKey {
    (r.directory@, r.instance@)
}

/// A set of size gauges keyed by (directory, instance), each holding the last
/// value written to it. A gauge that was never written is absent.
pub struct SizeGauges {
    readings: Vec<SizeReading>,
    model: Ghost<Map<GaugeKey, u64>>,
}

impl SizeGauges {
    pub closed spec fn view(&self) -> Map<GaugeKey, u64> {
        self.model@
    }

    /// The readings are stored once per key, and they are exactly the view.
    pub closed spec fn wf(&self) -> bool {
        &&& forall|i: int, j: int|
            0 <= i < j < self.readings@.len() ==> key_of(#[trigger] self.readings@[i])
                != key_of(#[trigger] self.readings@[j])
        &&& forall|i: int|
            0 <= i < self.readings@.len() ==> {
                &&& self.model@.contains_key(#[trigger] key_of(self.readings@[i]))
                &&& self.model@[key_of(self.readings@[i])] == self.readings@[i].bytes
            }
        &&& forall|k: GaugeKey|
            #[trigger] self.model@.contains_key(k) ==> exists|i: int|
                0 <= i < self.readings@.len() && key_of(#[trigger] self.readings@[i]) == k
    }

    /// An empty set of gauges.
    pub fn new() -> (r: SizeGauges)
        ensures
            r.wf(),
            r@ == Map::<GaugeKey, u64>::empty(),
    {
        SizeGauges { readings: Vec::new(), model: Ghost(Map::empty()) }
    }

    /// Number of gauges that hold a value.
    pub fn len(&self) -> (n: usize)
        requires
            self.wf(),
        ensures
            n == self@.dom().len(),
    {
        proof {
            self.lemma_dom_is_keys();
        }
        self.readings.len()
    }

    proof fn lemma_dom_is_keys(&self)
        requires
            self.wf(),
        ensures
            self@.dom() == self.readings@.map_values(|r: SizeReading| key_of(r)).to_set(),
            self.readings@.map_values(|r: SizeReading| key_of(r)).no_duplicates(),
            self@.dom().len() == self.readings@.len(),
    {
        let keys = self.readings@.map_values(|r: SizeReading| key_of(r));
        assert forall|k: GaugeKey| self@.dom().contains(k) <==> keys.to_set().contains(k) by {
            if self@.dom().contains(k) {
                let i = choose|i: int|
                    0 <= i < self.readings@.len() && key_of(#[trigger] self.readings@[i]) == k;
                assert(keys[i] == k);
            }
            if keys.to_set().contains(k) {
                let i = choose|i: int| 0 <= i < keys.len() && keys[i] == k;
                assert(key_of(self.readings@[i]) == k);
            }
        }
        assert(self@.dom() =~= keys.to_set());
        assert forall|i: int, j: int| 0 <= i < keys.len() && 0 <= j < keys.len() && i != j
            implies keys[i] != keys[j] by {
            if i < j {
                assert(key_of(self.readings@[i]) != key_of(self.readings@[j]));
            } else {
                assert(key_of(self.readings@[j]) != key_of(self.readings@[i]));
            }
        }
        keys.unique_seq_to_set();
    }

    /// The value of the gauge labeled (directory, instance), if it was ever written.
    pub fn get(&self, directory: &String, instance: &String) -> (r: Option<u64>)
        requires
            self.wf(),
        ensures
            r == (if self@.contains_key((directory@, instance@)) {
                Some(self@[(directory@, instance@)])
            } else {
                None
            }),
    {
        let i = self.position(directory, instance);
        if i < self.readings.len() {
            Some(self.readings[i].bytes)
        } else {
            None
        }
    }

    /// Index of the reading labeled (directory, instance), or the number of readings.
    fn position(&self, directory: &String, instance: &String) -> (i: usize)
        requires
            self.wf(),
        ensures
            i <= self.readings@.len(),
            i < self.readings@.len() ==> key_of(self.readings@[i as int]) == (
            directory@,
            instance@,
            ),
            i == self.readings@.len() ==> !self@.contains_key((directory@, instance@)),
    {
        let mut i: usize = 0;
        while i < self.readings.len()
            invariant
                self.wf(),
                i <= self.readings@.len(),
                forall|j: int|
                    0 <= j < i ==> key_of(#[trigger] self.readings@[j]) != (directory@, instance@),
            decreases self.readings@.len() - i,
        {
            let r = &self.readings[i];
            if r.directory == *directory && r.instance == *instance {
                return i;
            }
            i = i + 1;
        }
        i
    }

    /// Writes `bytes` to the gauge labeled (directory, instance), replacing any earlier value.
    pub fn set(&mut self, directory: &String, instance: &String, bytes: u64)
        requires
            old(self).wf(),
        ensures
            final(self).wf(),
            final(self)@ == old(self)@.insert((directory@, instance@), bytes),
    {
        let i = self.position(directory, instance);
        let ghost k = (directory@, instance@);
        let ghost before = self.readings@;
        let reading = SizeReading { directory: directory.clone(), instance: instance.clone(), bytes };
        if i < self.readings.len() {
            self.readings.set(i, reading);
        } else {
            self.readings.push(reading);
        }
        self.model = Ghost(self.model@.insert(k, bytes));
        assert forall|k2: GaugeKey| #[trigger] self.model@.contains_key(k2) implies exists|j: int|
            0 <= j < self.readings@.len() && key_of(#[trigger] self.readings@[j]) == k2 by {
            if k2 != k {
                let j = choose|j: int| 0 <= j < before.len() && key_of(#[trigger] before[j]) == k2;
                assert(key_of(self.readings@[j]) == k2);
            } else {
                assert(key_of(self.readings@[i as int]) == k2);
            }
        }
    }

    /// A copy of every reading, once per gauge that holds a value.
    pub fn readings(&self) -> (r: Vec<SizeReading>)
        requires
            self.wf(),
        ensures
            r@.len() == self@.dom().len(),
            forall|i: int|
                0 <= i < r@.len() ==> self@.contains_key(#[trigger] key_of(r@[i]))
                    && self@[key_of(r@[i])] == r@[i].bytes,
            forall|i: int, j: int|
                0 <= i < j < r@.len() ==> key_of(#[trigger] r@[i]) != key_of(#[trigger] r@[j]),
            forall|k: GaugeKey|
                #[trigger] self@.contains_key(k) ==> exists|i: int|
                    0 <= i < r@.len() && key_of(#[trigger] r@[i]) == k,
    {
        proof {
            self.lemma_dom_is_keys();
        }
        let mut out: Vec<SizeReading> = Vec::new();
        let mut i: usize = 0;
        while i < self.readings.len()
            invariant
                self.wf(),
                i <= self.readings@.len(),
                out@.len() == i,
                forall|j: int| 0 <= j < i ==> key_of(#[trigger] out@[j]) == key_of(self.readings@[j])
                    && out@[j].bytes == self.readings@[j].bytes,
            decreases self.readings@.len() - i,
        {
            let r = &self.readings[i];
            out.push(
                SizeReading {
                    directory: r.directory.clone(),
                    instance: r.instance.clone(),
                    bytes: r.bytes,
                },
            );
            i = i + 1;
        }
        assert forall|k: GaugeKey| #[trigger] self@.contains_key(k) implies exists|j: int|
            0 <= j < out@.len() && key_of(#[trigger] out@[j]) == k by {
            let j = choose|j: int|
                0 <= j < self.readings@.len() && key_of(#[trigger] self.readings@[j]) == k;
            assert(key_of(out@[j]) == k);
        }
        assert forall|a: int, b: int| 0 <= a < b < out@.len() implies key_of(#[trigger] out@[a])
            != key_of(#[trigger] out@[b]) by {
            assert(key_of(self.readings@[a]) != key_of(self.readings@[b]));
        }
        out
    }
}

} // verus!
