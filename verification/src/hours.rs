//! The hour table proper: for one captured instant, the wall-clock hour of
//! each requested zone, with duplicate zone names collapsed to one entry and
//! the entries ordered ascending by hour.
//!
//! The conversion from (zone, instant) to an hour is one trusted call into the
//! civil-time library; everything around it — collapsing duplicates, pairing
//! zones with hours, and the stable ordering by hour — is verified. Ties
//! between zones that share an hour keep the order in which the zones first
//! appeared in the input, so the result is a pure function of the input names
//! and the instant.
use vstd::prelude::*;
use crate::zone::Zone;
use crate::zone::is_valid_zone;

verus! {

broadcast use
    vstd::seq_lib::group_filter_ensures,
    vstd::seq_lib::lemma_seq_contains_after_push,
    Seq::lemma_filter_push,
    Seq::push_distributes_over_add,
;

/// The wall-clock hour (0-23) in the zone called `zone` at `instant` seconds
/// after the epoch, under the standard civil-time rules.
pub uninterp spec fn hour_at(zone: Seq<char>, instant: int) -> int;

/// The last representable instant handed to the civil-time conversion: the
/// end of year 9999, in seconds after the epoch, comfortably inside the range
/// the conversion accepts.
pub const MAX_INSTANT: i64 = 253402300799;

/// Relies on chrono_tz's `impl FromStr for Tz` to look the (valid) name up in
/// the zone catalog, and on chrono's `DateTime::from_timestamp` (documented to
/// return `Some` for any in-range number of seconds), `DateTime::with_timezone`
/// and `Timelike::hour` (documented to return the hour number from 0 to 23).
/// The zone's offset rules are compiled into the library, so the hour depends
/// on the zone name and the instant alone.
#[verifier::external_body]
fn zone_hour(name: &str, instant: i64) -> (r: u8)
    requires
        is_valid_zone(name@),
        0 <= instant <= MAX_INSTANT,
    ensures
        r < 24,
        r as int == hour_at(name@, instant as int),
{
    let tz: chrono_tz::Tz = match name.parse() {
        Ok(t) => t,
        Err(_) => return 0,
    };
    let utc = match chrono::DateTime::from_timestamp(instant, 0) {
        Some(d) => d,
        None => return 0,
    };
    chrono::Timelike::hour(&utc.with_timezone(&tz)) as u8
}

/// One entry of the hour table: a zone and its hour at the captured instant.
#[derive(Debug)]
pub struct ZoneHour {
    pub zone: Zone,
    pub hour: u8,
}

impl ZoneHour {
    /// The entry is consistent with the captured instant: a valid zone, and
    /// the hour the civil-time conversion gives that zone at that instant.
    pub open spec fn wf(&self, instant: int) -> bool {
        &&& self.zone.wf()
        &&& self.hour < 24
        &&& self.hour as int == hour_at(self.zone@, instant)
    }

    pub fn duplicate(&self) -> (r: ZoneHour)
        ensures
            r.zone@ == self.zone@,
            r.hour == self.hour,
    {
        ZoneHour { zone: self.zone.duplicate(), hour: self.hour }
    }
}

/// The names of a list of zones.
pub open spec fn names_of(zones: Seq<Zone>) -> Seq<Seq<char>> {
    zones.map(|i: int, z: Zone| z@)
}

/// The given names with every repeated name dropped: each distinct name keeps
/// the place of its first occurrence.
pub open spec fn dedup_names(names: Seq<Seq<char>>) -> Seq<Seq<char>>
    decreases names.len(),
{
    if names.len() == 0 {
        Seq::empty()
    } else {
        let rest = dedup_names(names.drop_last());
        if rest.contains(names.last()) {
            rest
        } else {
            rest.push(names.last())
        }
    }
}

/// Each name paired with its hour at the instant.
pub open spec fn hour_pairs(names: Seq<Seq<char>>, instant: int) -> Seq<(Seq<char>, int)> {
    names.map(|i: int, n: Seq<char>| (n, hour_at(n, instant)))
}

pub open spec fn hour_is(h: int) -> spec_fn((Seq<char>, int)) -> bool {
    |p: (Seq<char>, int)| p.1 == h
}

/// The pairs whose hour is `h`, in their given order.
pub open spec fn bucket(pairs: Seq<(Seq<char>, int)>, h: int) -> Seq<(Seq<char>, int)> {
    pairs.filter(hour_is(h))
}

/// The pairs with hour below `h`, grouped ascending by hour; within one hour
/// the given order is kept.
pub open spec fn ordered_upto(pairs: Seq<(Seq<char>, int)>, h: int) -> Seq<(Seq<char>, int)>
    decreases h,
{
    if h <= 0 {
        Seq::empty()
    } else {
        ordered_upto(pairs, h - 1) + bucket(pairs, h - 1)
    }
}

/// The whole hour table at the spec level: distinct names in first-occurrence
/// order, each with its hour, ordered ascending by hour.
pub open spec fn ordered_pairs(names: Seq<Seq<char>>, instant: int) -> Seq<(Seq<char>, int)> {
    ordered_upto(hour_pairs(dedup_names(names), instant), 24)
}

/// The (name, hour) views of a list of entries.
pub open spec fn pair_views(rows: Seq<ZoneHour>) -> Seq<(Seq<char>, int)> {
    rows.map(|i: int, zh: ZoneHour| (zh.zone@, zh.hour as int))
}

/// Dropping repeated names keeps exactly the names that were there.
pub proof fn lemma_dedup_contains(names: Seq<Seq<char>>, n: Seq<char>)
    ensures
        dedup_names(names).contains(n) <==> names.contains(n),
    decreases names.len(),
{
    if names.len() == 0 {
    } else {
        lemma_dedup_contains(names.drop_last(), n);
        assert(names =~= names.drop_last().push(names.last()));
    }
}

/// Dropping repeated names leaves no two equal names.
pub proof fn lemma_dedup_distinct(names: Seq<Seq<char>>)
    ensures
        forall|i: int, j: int|
            0 <= i < j < dedup_names(names).len() ==> dedup_names(names)[i] != dedup_names(
                names,
            )[j],
    decreases names.len(),
{
    if names.len() == 0 {
    } else {
        lemma_dedup_distinct(names.drop_last());
        let rest = dedup_names(names.drop_last());
        if !rest.contains(names.last()) {
            assert forall|i: int, j: int|
                0 <= i < j < rest.push(names.last()).len() implies rest.push(names.last())[i]
                != rest.push(names.last())[j] by {
                if j == rest.len() as int {
                    assert(rest[i] == rest.push(names.last())[i]);
                    assert(rest.contains(rest[i]));
                }
            }
        }
    }
}

/// A filtered list is a sublist: whatever it holds, the original held, and the
/// predicate holds of it.
proof fn lemma_filter_member<A>(s: Seq<A>, pred: spec_fn(A) -> bool, x: A)
    requires
        s.filter(pred).contains(x),
    ensures
        s.contains(x),
        pred(x),
{
    s.lemma_filter_contains_rev(pred, x);
}

/// The grouped list holds exactly the pairs whose hour lies below `h`.
pub proof fn lemma_ordered_upto_membership(pairs: Seq<(Seq<char>, int)>, h: int)
    ensures
        forall|p: (Seq<char>, int)| #[trigger]
            ordered_upto(pairs, h).contains(p) <==> (pairs.contains(p) && 0 <= p.1 < h),
    decreases h,
{
    if h <= 0 {
    } else {
        lemma_ordered_upto_membership(pairs, h - 1);
        let prev = ordered_upto(pairs, h - 1);
        let b = bucket(pairs, h - 1);
        let whole = ordered_upto(pairs, h);
        assert forall|p: (Seq<char>, int)| #[trigger]
            whole.contains(p) implies (pairs.contains(p) && 0 <= p.1 < h) by {
            let i = choose|i: int| 0 <= i < whole.len() && whole[i] == p;
            if i < prev.len() {
                assert(prev[i] == p);
                assert(prev.contains(p));
            } else {
                assert(b[i - prev.len()] == p);
                assert(b.contains(p));
                lemma_filter_member(pairs, hour_is(h - 1), p);
                assert(hour_is(h - 1)(p));
            }
        }
        assert forall|p: (Seq<char>, int)| pairs.contains(p) && 0 <= p.1 < h implies #[trigger]
            whole.contains(p) by {
            if p.1 < h - 1 {
                assert(prev.contains(p));
                let i = choose|i: int| 0 <= i < prev.len() && prev[i] == p;
                assert(whole[i] == p);
            } else {
                let i = choose|i: int| 0 <= i < pairs.len() && pairs[i] == p;
                assert(hour_is(h - 1)(pairs[i]));
                assert(b.contains(p));
                let j = choose|j: int| 0 <= j < b.len() && b[j] == p;
                assert(whole[prev.len() + j] == p);
            }
        }
    }
}

/// The grouped list is sorted ascending by hour, and every hour in it lies
/// below the bound.
pub proof fn lemma_ordered_upto_sorted(pairs: Seq<(Seq<char>, int)>, h: int)
    ensures
        forall|i: int|
            0 <= i < ordered_upto(pairs, h).len() ==> 0 <= (#[trigger] ordered_upto(pairs, h)[i]).1
                < h,
        forall|i: int, j: int|
            0 <= i <= j < ordered_upto(pairs, h).len() ==> ordered_upto(pairs, h)[i].1
                <= ordered_upto(pairs, h)[j].1,
    decreases h,
{
    if h <= 0 {
    } else {
        lemma_ordered_upto_sorted(pairs, h - 1);
        let prev = ordered_upto(pairs, h - 1);
        let b = bucket(pairs, h - 1);
        let whole = ordered_upto(pairs, h);
        assert forall|i: int| 0 <= i < whole.len() implies 0 <= (#[trigger] whole[i]).1 < h by {
            if i < prev.len() {
                assert(whole[i] == prev[i]);
            } else {
                assert(whole[i] == b[i - prev.len()]);
                assert(hour_is(h - 1)(b[i - prev.len()]));
            }
        }
        assert forall|i: int, j: int| 0 <= i <= j < whole.len() implies whole[i].1
            <= whole[j].1 by {
            if i < prev.len() && j < prev.len() {
                assert(whole[i] == prev[i] && whole[j] == prev[j]);
            } else if i < prev.len() {
                assert(whole[i] == prev[i]);
                assert(whole[j] == b[j - prev.len()]);
                assert(hour_is(h - 1)(b[j - prev.len()]));
            } else {
                assert(whole[i] == b[i - prev.len()]);
                assert(whole[j] == b[j - prev.len()]);
                assert(hour_is(h - 1)(b[i - prev.len()]));
                assert(hour_is(h - 1)(b[j - prev.len()]));
            }
        }
    }
}

/// When no two pairs share a name and each pair's hour is a function of its
/// name, the grouped list repeats no name.
pub proof fn lemma_ordered_upto_distinct(pairs: Seq<(Seq<char>, int)>, h: int, instant: int)
    requires
        forall|i: int, j: int| 0 <= i < j < pairs.len() ==> pairs[i].0 != pairs[j].0,
        forall|i: int| 0 <= i < pairs.len() ==> (#[trigger] pairs[i]).1 == hour_at(
            pairs[i].0,
            instant,
        ),
    ensures
        forall|i: int, j: int|
            0 <= i < j < ordered_upto(pairs, h).len() ==> ordered_upto(pairs, h)[i].0
                != ordered_upto(pairs, h)[j].0,
{
    let whole = ordered_upto(pairs, h);
    lemma_ordered_upto_membership(pairs, h);
    lemma_ordered_upto_sorted(pairs, h);
    assert forall|a: int, b: int| 0 <= a < b < pairs.len() implies pairs[a] != pairs[b] by {
        assert(pairs[a].0 != pairs[b].0);
    }
    assert forall|i: int, j: int| 0 <= i < j < whole.len() implies whole[i].0 != whole[j].0 by {
        if whole[i].0 == whole[j].0 {
            assert(whole.contains(whole[i]));
            assert(whole.contains(whole[j]));
            assert(pairs.contains(whole[i]) && pairs.contains(whole[j]));
            let ki = choose|k: int| 0 <= k < pairs.len() && pairs[k] == whole[i];
            let kj = choose|k: int| 0 <= k < pairs.len() && pairs[k] == whole[j];
            assert(whole[i].1 == hour_at(whole[i].0, instant));
            assert(whole[j].1 == hour_at(whole[j].0, instant));
            assert(whole[i] == whole[j]);
            // the same pair cannot sit at two places in the grouped list
            lemma_concat_distinct_occurrence(pairs, h, whole[i], i, j);
        }
    }
}

/// Helper for distinctness: in the grouped list of pairwise-distinct pairs,
/// a pair sits at one place only.
proof fn lemma_concat_distinct_occurrence(
    pairs: Seq<(Seq<char>, int)>,
    h: int,
    p: (Seq<char>, int),
    i: int,
    j: int,
)
    requires
        forall|a: int, b: int| 0 <= a < b < pairs.len() ==> pairs[a] != pairs[b],
        0 <= i <= j < ordered_upto(pairs, h).len(),
        ordered_upto(pairs, h)[i] == p,
        ordered_upto(pairs, h)[j] == p,
    ensures
        i == j,
    decreases h,
{
    if h <= 0 {
    } else {
        let prev = ordered_upto(pairs, h - 1);
        let b = bucket(pairs, h - 1);
        lemma_ordered_upto_sorted(pairs, h - 1);
        if j < prev.len() {
            lemma_concat_distinct_occurrence(pairs, h - 1, p, i, j);
        } else if i >= prev.len() {
            lemma_filter_distinct(pairs, hour_is(h - 1));
            assert(b[i - prev.len()] == p && b[j - prev.len()] == p);
        } else {
            // i in the lower part, j in the bucket: the lower part holds hours
            // below h - 1, the bucket holds hour h - 1, so the two places
            // cannot hold the same pair
            assert(prev[i] == p);
            assert(0 <= p.1 < h - 1);
            assert(b[j - prev.len()] == p);
            assert(hour_is(h - 1)(p));
        }
    }
}

/// Filtering a list of pairwise-distinct elements leaves them pairwise
/// distinct.
proof fn lemma_filter_distinct<A>(s: Seq<A>, pred: spec_fn(A) -> bool)
    requires
        forall|a: int, b: int| 0 <= a < b < s.len() ==> s[a] != s[b],
    ensures
        forall|a: int, b: int|
            0 <= a < b < s.filter(pred).len() ==> s.filter(pred)[a] != s.filter(pred)[b],
    decreases s.len(),
{
    reveal(Seq::filter);
    if s.len() == 0 {
    } else {
        let rest = s.drop_last();
        lemma_filter_distinct(rest, pred);
        if pred(s.last()) {
            let out = s.filter(pred);
            assert(out == rest.filter(pred).push(s.last()));
            assert forall|a: int, b: int| 0 <= a < b < out.len() implies out[a] != out[b] by {
                if b == out.len() - 1 {
                    assert(out[a] == rest.filter(pred)[a]);
                    lemma_filter_member(rest, pred, out[a]);
                    let k = choose|k: int| 0 <= k < rest.len() && rest[k] == out[a];
                    assert(s[k] == out[a]);
                    assert(s[s.len() - 1] == s.last());
                }
            }
        }
    }
}

/// Does the list hold a zone of this name?
fn contains_zone(zones: &Vec<Zone>, z: &Zone) -> (r: bool)
    ensures
        r == names_of(zones@).contains(z@),
{
    let mut k: usize = 0;
    while k < zones.len()
        invariant
            0 <= k <= zones@.len(),
            forall|j: int| 0 <= j < k ==> (#[trigger] zones@[j])@ != z@,
        decreases zones@.len() - k,
    {
        if zones[k].same_zone(z) {
            proof {
                assert(names_of(zones@)[k as int] == z@);
            }
            return true;
        }
        k = k + 1;
    }
    proof {
        if names_of(zones@).contains(z@) {
            let j = choose|j: int| 0 <= j < zones@.len() && names_of(zones@)[j] == z@;
            assert((zones@[j])@ == z@);
        }
    }
    false
}

/// Keep the first occurrence of each name, in order.
fn dedup_zones(zones: &Vec<Zone>) -> (r: Vec<Zone>)
    ensures
        names_of(r@) == dedup_names(names_of(zones@)),
{
    let mut out: Vec<Zone> = Vec::new();
    let mut i: usize = 0;
    while i < zones.len()
        invariant
            0 <= i <= zones@.len(),
            names_of(out@) == dedup_names(names_of(zones@).take(i as int)),
        decreases zones@.len() - i,
    {
        let ghost prefix = names_of(zones@).take(i as int);
        let ghost prefix1 = names_of(zones@).take(i as int + 1);
        let present = contains_zone(&out, &zones[i]);
        if !present {
            let ghost old_out = out@;
            out.push(zones[i].duplicate());
            proof {
                assert(names_of(out@) =~= names_of(old_out).push(zones@[i as int]@));
            }
        }
        proof {
            assert(prefix1.drop_last() =~= prefix);
            assert(prefix1.last() == zones@[i as int]@);
        }
        i = i + 1;
    }
    proof {
        assert(names_of(zones@).take(zones@.len() as int) =~= names_of(zones@));
    }
    out
}

/// Pair each zone with its hour at the instant, in order.
fn zone_hours(zones: Vec<Zone>, instant: i64) -> (r: Vec<ZoneHour>)
    requires
        0 <= instant <= MAX_INSTANT,
        forall|i: int| 0 <= i < zones@.len() ==> (#[trigger] zones@[i]).wf(),
    ensures
        pair_views(r@) == hour_pairs(names_of(zones@), instant as int),
        forall|i: int| 0 <= i < r@.len() ==> (#[trigger] r@[i]).wf(instant as int),
{
    let mut out: Vec<ZoneHour> = Vec::new();
    let mut i: usize = 0;
    while i < zones.len()
        invariant
            0 <= i <= zones@.len(),
            0 <= instant <= MAX_INSTANT,
            forall|j: int| 0 <= j < zones@.len() ==> (#[trigger] zones@[j]).wf(),
            out@.len() == i,
            pair_views(out@) =~= hour_pairs(names_of(zones@).take(i as int), instant as int),
            forall|j: int| 0 <= j < i ==> (#[trigger] out@[j]).wf(instant as int),
        decreases zones@.len() - i,
    {
        let h = zone_hour(zones[i].name(), instant);
        let zh = ZoneHour { zone: zones[i].duplicate(), hour: h };
        let ghost old_out = out@;
        out.push(zh);
        proof {
            let names = names_of(zones@);
            assert(names[i as int] == zones@[i as int]@);
            assert(out@ == old_out.push(zh));
            assert(pair_views(out@)[i as int] == (zh.zone@, zh.hour as int));
            assert((zh.zone@, zh.hour as int) == (
                names[i as int],
                hour_at(names[i as int], instant as int),
            ));
            assert forall|j: int| 0 <= j < i as int implies pair_views(out@)[j] == hour_pairs(
                names.take(i as int + 1),
                instant as int,
            )[j] by {
                assert(out@[j] == old_out[j]);
                assert(pair_views(old_out)[j] == hour_pairs(
                    names.take(i as int),
                    instant as int,
                )[j]);
            }
            assert(pair_views(out@) =~= hour_pairs(names.take(i as int + 1), instant as int));
        }
        i = i + 1;
    }
    proof {
        assert(names_of(zones@).take(zones@.len() as int) =~= names_of(zones@));
    }
    out
}

/// Order the entries ascending by hour; entries sharing an hour keep their
/// given order.
fn sort_by_hour(pairs: Vec<ZoneHour>, Ghost(instant): Ghost<int>) -> (r: Vec<ZoneHour>)
    requires
        forall|i: int| 0 <= i < pairs@.len() ==> (#[trigger] pairs@[i]).wf(instant),
    ensures
        pair_views(r@) == ordered_upto(pair_views(pairs@), 24),
        forall|i: int| 0 <= i < r@.len() ==> (#[trigger] r@[i]).wf(instant),
{
    let ghost pv = pair_views(pairs@);
    let mut out: Vec<ZoneHour> = Vec::new();
    let mut h: u8 = 0;
    while h < 24
        invariant
            0 <= h <= 24,
            forall|i: int| 0 <= i < pairs@.len() ==> (#[trigger] pairs@[i]).wf(instant),
            pv == pair_views(pairs@),
            pair_views(out@) == ordered_upto(pv, h as int),
            forall|i: int| 0 <= i < out@.len() ==> (#[trigger] out@[i]).wf(instant),
        decreases 24 - h,
    {
        let mut i: usize = 0;
        while i < pairs.len()
            invariant
                0 <= i <= pairs@.len(),
                0 <= h < 24,
                forall|j: int| 0 <= j < pairs@.len() ==> (#[trigger] pairs@[j]).wf(instant),
                pv == pair_views(pairs@),
                pair_views(out@) =~= ordered_upto(pv, h as int) + bucket(
                    pv.take(i as int),
                    h as int,
                ),
                forall|j: int| 0 <= j < out@.len() ==> (#[trigger] out@[j]).wf(instant),
            decreases pairs@.len() - i,
        {
            proof {
                assert(pv.take(i as int + 1) =~= pv.take(i as int).push(pv[i as int]));
                assert(pv[i as int] == (pairs@[i as int].zone@, pairs@[i as int].hour as int));
                pv.take(i as int).lemma_filter_push(pv[i as int], hour_is(h as int));
            }
            if pairs[i].hour == h {
                let ghost old_out = out@;
                out.push(pairs[i].duplicate());
                proof {
                    assert(hour_is(h as int)(pv[i as int]));
                    assert(bucket(pv.take(i as int + 1), h as int) == bucket(
                        pv.take(i as int),
                        h as int,
                    ).push(pv[i as int]));
                    assert(pair_views(out@) =~= pair_views(old_out).push(pv[i as int]));
                }
            } else {
                proof {
                    assert(!hour_is(h as int)(pv[i as int]));
                    assert(bucket(pv.take(i as int + 1), h as int) == bucket(
                        pv.take(i as int),
                        h as int,
                    ));
                }
            }
            i = i + 1;
        }
        proof {
            assert(pv.take(pv.len() as int) =~= pv);
            assert(pair_views(out@) =~= ordered_upto(pv, h as int + 1));
        }
        h = h + 1;
    }
    out
}

/// The hour table for the given zones at the given instant: one entry per
/// distinct zone name, in ascending order of hour, with ties kept in
/// first-occurrence order. The result is pinned to `ordered_pairs`, a pure
/// function of the zone names and the instant, so the table is deterministic;
/// it repeats no zone, holds exactly the distinct input zones, and is sorted
/// ascending by hour.
pub fn tz_hours_ordered(zones: &Vec<Zone>, instant: i64) -> (r: Vec<ZoneHour>)
    requires
        0 <= instant <= MAX_INSTANT,
        forall|i: int| 0 <= i < zones@.len() ==> (#[trigger] zones@[i]).wf(),
    ensures
        pair_views(r@) == ordered_pairs(names_of(zones@), instant as int),
        forall|i: int| 0 <= i < r@.len() ==> (#[trigger] r@[i]).wf(instant as int),
        forall|i: int, j: int| 0 <= i <= j < r@.len() ==> r@[i].hour <= r@[j].hour,
        forall|i: int, j: int| 0 <= i < j < r@.len() ==> r@[i].zone@ != r@[j].zone@,
        forall|n: Seq<char>| #[trigger]
            names_of(zones@).contains(n) <==> exists|i: int|
                0 <= i < r@.len() && (#[trigger] r@[i]).zone@ == n,
{
    let deduped = dedup_zones(zones);
    proof {
        lemma_dedup_contains_all(names_of(zones@), names_of(deduped@));
        assert forall|i: int| 0 <= i < deduped@.len() implies (#[trigger] deduped@[i]).wf() by {
            assert(names_of(deduped@)[i] == deduped@[i]@);
            assert(names_of(deduped@).contains(deduped@[i]@));
            lemma_dedup_contains(names_of(zones@), deduped@[i]@);
            let k = choose|k: int|
                0 <= k < names_of(zones@).len() && names_of(zones@)[k] == deduped@[i]@;
            assert(zones@[k].wf());
        }
    }
    let ghost dnames = names_of(deduped@);
    let pairs = zone_hours(deduped, instant);
    let ghost pview = pairs@;
    let r = sort_by_hour(pairs, Ghost(instant as int));
    proof {
        let pv = hour_pairs(dnames, instant as int);
        assert(pv == pair_views(pview));
        lemma_ordered_upto_sorted(pv, 24);
        lemma_dedup_distinct(names_of(zones@));
        assert forall|i: int, j: int| 0 <= i < j < pv.len() implies pv[i].0 != pv[j].0 by {
            assert(pv[i].0 == dnames[i] && pv[j].0 == dnames[j]);
        }
        lemma_ordered_upto_distinct(pv, 24, instant as int);
        lemma_ordered_upto_membership(pv, 24);
        let rv = pair_views(r@);
        assert forall|i: int, j: int| 0 <= i <= j < r@.len() implies r@[i].hour
            <= r@[j].hour by {
            assert(rv[i] == (r@[i].zone@, r@[i].hour as int));
            assert(rv[j] == (r@[j].zone@, r@[j].hour as int));
        }
        assert forall|i: int, j: int| 0 <= i < j < r@.len() implies r@[i].zone@
            != r@[j].zone@ by {
            assert(rv[i] == (r@[i].zone@, r@[i].hour as int));
            assert(rv[j] == (r@[j].zone@, r@[j].hour as int));
        }
        assert forall|n: Seq<char>| #[trigger]
            names_of(zones@).contains(n) implies exists|i: int|
            0 <= i < r@.len() && (#[trigger] r@[i]).zone@ == n by {
            lemma_dedup_contains(names_of(zones@), n);
            let k = choose|k: int| 0 <= k < dnames.len() && dnames[k] == n;
            assert(pv[k] == (n, hour_at(n, instant as int)));
            assert(pview[k].wf(instant as int));
            assert(pv[k] == (pview[k].zone@, pview[k].hour as int));
            assert(0 <= pv[k].1 < 24);
            assert(pv.contains(pv[k]));
            assert(rv.contains(pv[k]));
            let m = choose|m: int| 0 <= m < rv.len() && rv[m] == pv[k];
            assert(r@[m].zone@ == n);
        }
        assert forall|n: Seq<char>|
            (exists|i: int| 0 <= i < r@.len() && (#[trigger] r@[i]).zone@ == n) implies #[trigger]
            names_of(zones@).contains(n) by {
            let i = choose|i: int| 0 <= i < r@.len() && r@[i].zone@ == n;
            assert(rv[i] == (n, r@[i].hour as int));
            assert(rv.contains(rv[i]));
            assert(pv.contains(rv[i]));
            let k = choose|k: int| 0 <= k < pv.len() && pv[k] == rv[i];
            assert(dnames[k] == n);
            assert(dnames.contains(n));
            lemma_dedup_contains(names_of(zones@), n);
        }
    }
    r
}

/// Helper: the names kept by deduplication were all in the original list.
proof fn lemma_dedup_contains_all(names: Seq<Seq<char>>, deduped: Seq<Seq<char>>)
    requires
        deduped == dedup_names(names),
    ensures
        forall|i: int| 0 <= i < deduped.len() ==> names.contains(#[trigger] deduped[i]),
{
    assert forall|i: int| 0 <= i < deduped.len() implies names.contains(#[trigger] deduped[i]) by {
        assert(deduped.contains(deduped[i]));
        lemma_dedup_contains(names, deduped[i]);
    }
}

} // verus!
