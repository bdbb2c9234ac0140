//! Round-robin archives: the data source and consolidation kinds, and the
//! integer side of an archive, which slot a time falls in, which slots an
//! update invalidates and which an extraction reads. The sample values
//! themselves are floating point and are kept by the caller.

use vstd::prelude::*;

verus! {

/// Data source type.
#[derive(Debug, Clone, Copy, PartialEq, Eq, Structural)]
pub enum DST {
    /// Values are stored unmodified.
    Gauge,
    /// The difference to the previous value is stored.
    Derive,
    /// Like `Derive`, but a decrease is a counter overflow or reset.
    Counter,
}

/// Consolidation function of an archive.
#[derive(Debug, Clone, Copy, PartialEq, Eq, Structural)]
pub enum CF {
    Average,
    Maximum,
    Minimum,
    /// The last value.
    Last,
}

/// File magic of RRD files, version 2.0.
pub const PROXMOX_RRD_MAGIC_2_0: [u8; 8] = [224, 200, 228, 27, 239, 112, 122, 159];

/// The slot of `time` in an archive of `slots` slots of `resolution` seconds.
pub open spec fn slot_spec(resolution: u64, slots: u64, time: u64) -> int {
    (time / resolution) as int % slots as int
}

/// The slot that `time` falls in.
pub fn slot(resolution: u64, slots: u64, time: u64) -> (r: u64)
    requires
        resolution > 0,
        slots > 0,
    ensures
        r == slot_spec(resolution, slots, time),
        r < slots,
{
    (time / resolution) % slots
}

/// The start of the slot interval that holds `time`.
pub fn slot_start_time(resolution: u64, time: u64) -> (r: u64)
    requires
        resolution > 0,
    ensures
        r == resolution * (time / resolution),
{
    assert(resolution * (time / resolution) <= time) by (nonlinear_arith)
        requires
            resolution > 0,
    {
        assert(time == resolution * (time / resolution) + time % resolution);
    }
    resolution * (time / resolution)
}

/// The end of the slot interval that holds `time`, if it fits.
pub fn slot_end_time(resolution: u64, time: u64) -> (r: Option<u64>)
    requires
        resolution > 0,
    ensures
        resolution * (time / resolution + 1) <= u64::MAX ==> r == Some(
            (resolution * (time / resolution + 1)) as u64,
        ),
        resolution * (time / resolution + 1) > u64::MAX ==> r is None,
{
    let start = slot_start_time(resolution, time);
    if start > u64::MAX - resolution {
        assert(resolution * (time / resolution + 1) == resolution * (time / resolution) + resolution)
            by (nonlinear_arith);
        return None;
    }
    assert(resolution * (time / resolution + 1) == resolution * (time / resolution) + resolution)
        by (nonlinear_arith);
    Some(start + resolution)
}

/// The archive for an extraction: among those with consolidation `cf` and
/// a resolution of at most `resolution`, the first with the highest
/// resolution.
pub open spec fn select_spec(archives: Seq<(CF, u64)>, cf: CF, resolution: u64, n: int) -> Option<int>
    decreases n,
{
    if n <= 0 {
        None
    } else {
        let best = select_spec(archives, cf, resolution, n - 1);
        let item = archives[n - 1];
        if item.0 != cf || item.1 > resolution {
            best
        } else {
            match best {
                Some(b) => if item.1 > archives[b].1 {
                    Some(n - 1)
                } else {
                    best
                },
                None => Some(n - 1),
            }
        }
    }
}

/// Select the archive for an extraction (see `select_spec`).
pub fn select_archive(archives: &[(CF, u64)], cf: CF, resolution: u64) -> (r: Option<usize>)
    ensures
        match select_spec(archives@, cf, resolution, archives@.len() as int) {
            Some(i) => r == Some(i as usize),
            None => r is None,
        },
{
    let mut best: Option<usize> = None;
    let mut i: usize = 0;
    while i < archives.len()
        invariant
            0 <= i <= archives@.len(),
            match select_spec(archives@, cf, resolution, i as int) {
                Some(b) => best == Some(b as usize) && 0 <= b < i,
                None => best is None,
            },
        decreases archives@.len() - i,
    {
        let item = archives[i];
        if item.0 == cf && item.1 <= resolution {
            match best {
                Some(b) => {
                    if item.1 > archives[b].1 {
                        best = Some(i);
                    }
                },
                None => {
                    best = Some(i);
                },
            }
        }
        i = i + 1;
    }
    best
}

/// Whether the consolidation count restarts for an update at `epoch`
/// after one at `last_update`: more than one slot passed, or another slot
/// is hit.
pub fn count_restarts(resolution: u64, slots: u64, epoch: u64, last_update: u64) -> (r: bool)
    requires
        resolution > 0,
        slots > 0,
        last_update <= epoch,
    ensures
        r == (epoch - last_update > resolution || slot_spec(resolution, slots, epoch) != slot_spec(
            resolution,
            slots,
            last_update,
        )),
{
    epoch - last_update > resolution || slot(resolution, slots, epoch) != slot(resolution, slots, last_update)
}

/// The slots an extraction reads, one per step of `resolution` from
/// `start` while not past `end` and at most `slots` of them: the slot
/// index where the step lies within the archive's window
/// (`[end of last_update's slot - slots * resolution, end of that slot)`),
/// `None` elsewhere.
pub open spec fn extract_spec(resolution: u64, slots: u64, last_update: u64, start: u64, end: u64, k: int) -> Option<int> {
    let t = start + k * resolution;
    let rrd_end = resolution * (last_update / resolution + 1);
    let rrd_start = if rrd_end >= resolution * slots {
        rrd_end - resolution * slots
    } else {
        0
    };
    if t < rrd_start || t >= rrd_end {
        None
    } else {
        Some((slot_spec(resolution, slots, start) + k) % slots as int)
    }
}

/// The number of steps an extraction takes.
pub open spec fn extract_len(resolution: u64, slots: u64, start: u64, end: u64) -> int {
    if start > end {
        0
    } else {
        let steps = (end - start) / resolution as int + 1;
        if steps < slots {
            steps
        } else {
            slots as int
        }
    }
}

/// Plan an extraction (see `extract_spec`).
pub fn extract_plan(resolution: u64, slots: u64, last_update: u64, start: u64, end: u64) -> (r: Vec<Option<u64>>)
    requires
        resolution > 0,
        slots > 0,
        resolution * (last_update / resolution + 1) <= u64::MAX,
        resolution * slots <= u64::MAX,
        end + resolution <= u64::MAX,
    ensures
        r@.len() == extract_len(resolution, slots, start, end),
        forall|k: int| 0 <= k < r@.len() ==> match extract_spec(resolution, slots, last_update, start, end, k) {
            Some(i) => #[trigger] r@[k] == Some(i as u64),
            None => r@[k] is None,
        },
{
    let rrd_end = slot_end_time(resolution, last_update).unwrap();
    let span = resolution * slots;
    let rrd_start = if rrd_end >= span {
        rrd_end - span
    } else {
        0
    };
    let mut list: Vec<Option<u64>> = Vec::new();
    let mut t: u64 = start;
    let mut index: u64 = slot(resolution, slots, start);
    let mut k: u64 = 0;
    proof {
        vstd::arithmetic::div_mod::lemma_small_mod(index as nat, slots as nat);
    }
    while k < slots && t <= end
        invariant
            resolution > 0,
            slots > 0,
            end + resolution <= u64::MAX,
            start <= end ==> k <= extract_len(resolution, slots, start, end),
            0 <= k <= slots,
            t == start + k * resolution,
            index == (slot_spec(resolution, slots, start) + k) % slots as int,
            list@.len() == k,
            start <= end ==> (k < extract_len(resolution, slots, start, end) <==> k < slots && t <= end),
            start > end ==> k == 0,
            rrd_end == resolution * (last_update / resolution + 1),
            rrd_start == if rrd_end >= resolution * slots {
                rrd_end - resolution * slots
            } else {
                0
            },
            forall|j: int| 0 <= j < k ==> match extract_spec(resolution, slots, last_update, start, end, j) {
                Some(i) => #[trigger] list@[j] == Some(i as u64),
                None => list@[j] is None,
            },
        decreases slots - k,
    {
        if t < rrd_start || t >= rrd_end {
            list.push(None);
        } else {
            list.push(Some(index));
        }
        proof {
            assert(extract_spec(resolution, slots, last_update, start, end, k as int) == if t < rrd_start || t >= rrd_end {
                None
            } else {
                Some(index as int)
            });
        }
        assert((t + resolution) as int == start + (k + 1) * resolution) by (nonlinear_arith)
            requires
                t == start + k * resolution;
        t = t + resolution;
        let ghost old_index = index;
        index = if index + 1 >= slots {
            0
        } else {
            index + 1
        };
        proof {
            let a = slot_spec(resolution, slots, start) + k;
            vstd::arithmetic::div_mod::lemma_add_mod_noop(a, 1, slots as int);
            vstd::arithmetic::div_mod::lemma_mod_bound(a, slots as int);
            if slots > 1 {
                vstd::arithmetic::div_mod::lemma_small_mod(1, slots as nat);
            } else {
                vstd::arithmetic::div_mod::lemma_mod_self_0(1);
            }
            if old_index + 1 < slots {
                vstd::arithmetic::div_mod::lemma_small_mod((old_index + 1) as nat, slots as nat);
            } else {
                vstd::arithmetic::div_mod::lemma_mod_self_0(slots as int);
            }
            assert(index == (a + 1) % slots as int);
        }
        k = k + 1;
        proof {
            if start <= end {
                let steps = (end - start) / resolution as int + 1;
                assert((k < steps) <==> (t <= end)) by (nonlinear_arith)
                    requires
                        t == start + k * resolution,
                        start <= end,
                        resolution > 0,
                        steps == (end - start) / resolution as int + 1,
                {
                    assert(end - start == resolution * ((end - start) / resolution as int) + (end - start) % resolution as int);
                }
            }
        }
    }
    proof {
        if start <= end {
            assert(list@.len() == extract_len(resolution, slots, start, end));
        }
    }
    list
}

/// Where an update at `epoch` after one at `last_update` starts keeping
/// slots: the first slot start after `epoch - slots * resolution`.
pub open spec fn keep_from_spec(resolution: u64, slots: u64, epoch: u64) -> int {
    let span = resolution * slots;
    let m = if epoch >= span {
        epoch - span
    } else {
        0
    };
    (m / resolution as int + 1) * resolution
}

/// The first step time when walking from `last_update`'s window start.
pub open spec fn walk_start_spec(resolution: u64, slots: u64, last_update: u64) -> int {
    let span = resolution * slots;
    if last_update >= span {
        last_update - span
    } else {
        0
    }
}

/// Step `k` of the walk invalidates slot `index`.
pub open spec fn invalidated_at(resolution: u64, slots: u64, epoch: u64, last_update: u64, k: int, index: u64) -> bool {
    let t0 = walk_start_spec(resolution, slots, last_update);
    &&& index == (slot_spec(resolution, slots, t0 as u64) + k + 1) % slots as int
    &&& t0 + (k + 1) * resolution < keep_from_spec(resolution, slots, epoch)
}

/// The slots an update at `epoch` invalidates after one at `last_update`:
/// walking `k = 1, 2, ...` (at most `slots` steps) from `last_update`'s
/// window start, the slot of each step time that lies before
/// `keep_from_spec`.
pub fn invalidated_slots(resolution: u64, slots: u64, epoch: u64, last_update: u64) -> (r: Vec<u64>)
    requires
        resolution > 0,
        slots > 0,
        resolution * slots <= u64::MAX,
        epoch + resolution <= u64::MAX,
    ensures
        r@.len() <= slots,
        forall|k: int| 0 <= k < r@.len() ==> invalidated_at(resolution, slots, epoch, last_update, k, #[trigger] r@[k]),
        r@.len() < slots ==> walk_start_spec(resolution, slots, last_update) + (r@.len() + 1)
            * resolution >= keep_from_spec(resolution, slots, epoch),
{
    let span = resolution * slots;
    let m = if epoch >= span {
        epoch - span
    } else {
        0
    };
    assert((m / resolution + 1) * resolution <= m + resolution) by (nonlinear_arith)
        requires
            resolution > 0,
    {
        assert(m == resolution * (m / resolution) + m % resolution);
    }
    let min_time = (m / resolution + 1) * resolution;
    let mut t = if last_update >= span {
        last_update - span
    } else {
        0
    };
    let ghost t0 = t;
    let mut index = slot(resolution, slots, t);
    proof {
        vstd::arithmetic::div_mod::lemma_small_mod(index as nat, slots as nat);
    }
    let mut list: Vec<u64> = Vec::new();
    let mut k: u64 = 0;
    while k < slots
        invariant
            resolution > 0,
            slots > 0,
            0 <= k <= slots,
            t == t0 + k * resolution,
            t0 == walk_start_spec(resolution, slots, last_update),
            min_time == keep_from_spec(resolution, slots, epoch),
            min_time <= u64::MAX,
            t < min_time || k == 0,
            index == (slot_spec(resolution, slots, t0 as u64) + k) % slots as int,
            list@.len() == k,
            forall|j: int|
                0 <= j < k ==> #[trigger] list@[j] == (slot_spec(resolution, slots, t0 as u64) + j + 1)
                    % slots as int && t0 + (j + 1) * resolution < min_time,
        decreases slots - k,
    {
        assert(t < min_time || k == 0);
        if t >= u64::MAX - resolution || t + resolution >= min_time {
            proof {
                assert(t + resolution >= min_time);
                assert(t0 + (k + 1) * resolution == t + resolution) by (nonlinear_arith)
                    requires
                        t == t0 + k * resolution;
            }
            return list;
        }
        t = t + resolution;
        let ghost old_index = index;
        index = if index + 1 >= slots {
            0
        } else {
            index + 1
        };
        proof {
            let a = slot_spec(resolution, slots, t0 as u64) + k;
            vstd::arithmetic::div_mod::lemma_add_mod_noop(a, 1, slots as int);
            vstd::arithmetic::div_mod::lemma_mod_bound(a, slots as int);
            if slots > 1 {
                vstd::arithmetic::div_mod::lemma_small_mod(1, slots as nat);
            } else {
                vstd::arithmetic::div_mod::lemma_mod_self_0(1);
            }
            if old_index + 1 < slots {
                vstd::arithmetic::div_mod::lemma_small_mod((old_index + 1) as nat, slots as nat);
            } else {
                vstd::arithmetic::div_mod::lemma_mod_self_0(slots as int);
            }
            assert(t == t0 + (k + 1) * resolution) by (nonlinear_arith)
                requires
                    t == t0 + k * resolution + resolution;
        }
        list.push(index);
        k = k + 1;
    }
    assert(walk_start_spec(resolution, slots, last_update) as u64 == t0);
    assert forall|j: int| 0 <= j < list@.len() implies invalidated_at(resolution, slots, epoch, last_update, j, #[trigger] list@[j]) by {
        assert(list@[j] == (slot_spec(resolution, slots, t0 as u64) + j + 1) % slots as int);
    }
    list
}

} // verus!
