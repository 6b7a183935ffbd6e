use vstd::prelude::*;

use crate::gauges::{GaugeKey, SizeGauges};

verus! {

/// The gauges after one sampling cycle over `dirs`, where `sizes[i]` is the
/// measured size of `dirs[i]`, or `None` where it could not be read. Directories
/// are handled in order; an unreadable one leaves its gauge as it was.
pub open spec fn cycle_update(
    m: Map<GaugeKey, u64>,
    dirs: Seq<String>,
    instance: Seq<char>,
    sizes: Seq<Option<u64>>,
) -> Map<GaugeKey, u64>
    decreases dirs.len(),
{
    if dirs.len() == 0 || sizes.len() != dirs.len() {
        m
    } else {
        let rest = cycle_update(m, dirs.drop_last(), instance, sizes.drop_last());
        match sizes.last() {
            Some(bytes) => rest.insert((dirs.last()@, instance), bytes),
            None => rest,
        }
    }
}

/// The positions, in increasing order, of the directories that could not be read.
pub open spec fn unreadable_positions(sizes: Seq<Option<u64>>) -> Seq<usize>
    decreases sizes.len(),
{
    if sizes.len() == 0 {
        Seq::empty()
    } else {
        let rest = unreadable_positions(sizes.drop_last());
        match sizes.last() {
            Some(_) => rest,
            None => rest.push((sizes.len() - 1) as usize),
        }
    }
}

/// Records one sampling cycle: for each directory `dirs[i]` whose size was
/// measured, the gauge (dirs[i], instance) is set to `sizes[i]`; the others are
/// left untouched. Returns the positions of the directories that could not be
/// read, so that the caller can report them.
pub fn record_cycle(
    gauges: &mut SizeGauges,
    dirs: &Vec<String>,
    instance: &String,
    sizes: &Vec<Option<u64>>,
) -> (unreadable: Vec<usize>)
    requires
        old(gauges).wf(),
        dirs@.len() == sizes@.len(),
    ensures
        final(gauges).wf(),
        final(gauges)@ == cycle_update(old(gauges)@, dirs@, instance@, sizes@),
        unreadable@ == unreadable_positions(sizes@),
{
    let mut unreadable: Vec<usize> = Vec::new();
    let mut i: usize = 0;
    while i < dirs.len()
        invariant
            gauges.wf(),
            dirs@.len() == sizes@.len(),
            i <= dirs@.len(),
            gauges@ == cycle_update(old(gauges)@, dirs@.take(i as int), instance@, sizes@.take(i as int)),
            unreadable@ == unreadable_positions(sizes@.take(i as int)),
        decreases dirs@.len() - i,
    {
        proof {
            assert(dirs@.take(i + 1).drop_last() == dirs@.take(i as int));
            assert(sizes@.take(i + 1).drop_last() == sizes@.take(i as int));
        }
        match sizes[i] {
            Some(bytes) => {
                gauges.set(&dirs[i], instance, bytes);
            },
            None => {
                unreadable.push(i);
            },
        }
        i = i + 1;
    }
    proof {
        assert(dirs@.take(i as int) == dirs@);
        assert(sizes@.take(i as int) == sizes@);
    }
    unreadable
}

/// A gauge that no measured directory of the cycle is labeled with keeps its
/// value: an unreadable directory does not change or remove its gauge, and a
/// gauge that was absent stays absent.
pub proof fn lemma_cycle_keeps_unmeasured(
    m: Map<GaugeKey, u64>,
    dirs: Seq<String>,
    instance: Seq<char>,
    sizes: Seq<Option<u64>>,
    k: GaugeKey,
)
    requires
        dirs.len() == sizes.len(),
        forall|i: int|
            0 <= i < dirs.len() && (#[trigger] sizes[i]) is Some ==> (dirs[i]@, instance) != k,
    ensures
        cycle_update(m, dirs, instance, sizes).contains_key(k) == m.contains_key(k),
        m.contains_key(k) ==> cycle_update(m, dirs, instance, sizes)[k] == m[k],
    decreases dirs.len(),
{
    if dirs.len() > 0 {
        let n = dirs.len() - 1;
        assert(sizes.last() == sizes[n]);
        lemma_cycle_keeps_unmeasured(m, dirs.drop_last(), instance, sizes.drop_last(), k);
    }
}

/// After a cycle, the gauge of a directory holds the size measured for it at its
/// last readable position in the cycle, whatever value it held before: gauges
/// are overwritten, never accumulated.
pub proof fn lemma_cycle_sets_measured(
    m: Map<GaugeKey, u64>,
    dirs: Seq<String>,
    instance: Seq<char>,
    sizes: Seq<Option<u64>>,
    i: int,
    bytes: u64,
)
    requires
        dirs.len() == sizes.len(),
        0 <= i < dirs.len(),
        sizes[i] == Some(bytes),
        forall|j: int| i < j < dirs.len() && (#[trigger] dirs[j])@ == dirs[i]@ ==> sizes[j] is None,
    ensures
        cycle_update(m, dirs, instance, sizes).contains_key((dirs[i]@, instance)),
        cycle_update(m, dirs, instance, sizes)[(dirs[i]@, instance)] == bytes,
    decreases dirs.len(),
{
    let n = dirs.len() - 1;
    if i == n {
        assert(sizes.last() == Some(bytes));
    } else {
        assert(dirs.drop_last()[i] == dirs[i]);
        lemma_cycle_sets_measured(m, dirs.drop_last(), instance, sizes.drop_last(), i, bytes);
        assert(dirs[n] == dirs.last());
        if dirs.last()@ == dirs[i]@ {
            assert(sizes[n] is None);
        }
    }
}

/// Running the sampling loop again over gauges that an earlier cycle filled
/// replaces the earlier value of a directory by the newly measured size.
pub proof fn lemma_second_cycle_overwrites(
    m: Map<GaugeKey, u64>,
    dirs: Seq<String>,
    instance: Seq<char>,
    first: Seq<Option<u64>>,
    second: Seq<Option<u64>>,
    i: int,
    bytes: u64,
)
    requires
        dirs.len() == first.len(),
        dirs.len() == second.len(),
        0 <= i < dirs.len(),
        second[i] == Some(bytes),
        forall|j: int| i < j < dirs.len() && (#[trigger] dirs[j])@ == dirs[i]@ ==> second[j] is None,
    ensures
        cycle_update(cycle_update(m, dirs, instance, first), dirs, instance, second)[(
        dirs[i]@,
        instance,
        )] == bytes,
{
    lemma_cycle_sets_measured(cycle_update(m, dirs, instance, first), dirs, instance, second, i, bytes);
}

} // verus!
