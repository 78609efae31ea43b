use vstd::prelude::*;

use crate::codec::{bytes_equal, BoundedValue};
use crate::config::Config;

verus! {

/// What a vehicle record holds, as mathematical values.
pub struct RecordView {
    pub vin: Seq<u8>,
    pub manufacturer: Seq<u8>,
    pub model: Seq<u8>,
    pub identifiers: Seq<Seq<u8>>,
}

/// A vehicle record. Its identifiers form an ordered set: no identifier
/// occurs twice, and they keep the order in which they were added.
#[derive(Debug)]
pub struct VehicleRecord {
    pub vin: BoundedValue,
    pub manufacturer: BoundedValue,
    pub model: BoundedValue,
    pub identifiers: Vec<BoundedValue>,
}

impl View for VehicleRecord {
    type V = RecordView;

    open spec fn view(&self) -> RecordView {
        RecordView {
            vin: self.vin@,
            manufacturer: self.manufacturer@,
            model: self.model@,
            identifiers: values_view(self.identifiers@),
        }
    }
}

/// The byte strings held by a sequence of bound values.
pub open spec fn values_view(v: Seq<BoundedValue>) -> Seq<Seq<u8>> {
    v.map_values(|b: BoundedValue| b@)
}

/// The byte strings held by a sequence of raw byte vectors.
pub open spec fn raw_view(v: Seq<Vec<u8>>) -> Seq<Seq<u8>> {
    v.map_values(|b: Vec<u8>| b@)
}

/// Whether every byte string in `s` is at most `max` long.
pub open spec fn all_within(s: Seq<Seq<u8>>, max: nat) -> bool {
    forall|i: int| 0 <= i < s.len() ==> (#[trigger] s[i]).len() <= max
}

/// Whether a record satisfies every length bound of `c`, and its identifiers
/// form a set.
pub open spec fn fits(c: Config, r: RecordView) -> bool {
    &&& r.vin.len() <= c.max_vin_length
    &&& r.vin.len() <= c.vin_prefix
    &&& r.manufacturer.len() <= c.max_manufacturer_length
    &&& r.model.len() <= c.max_model_length
    &&& all_within(r.identifiers, c.max_identifier_length as nat)
    &&& r.identifiers.no_duplicates()
}

/// `ids` without the members of `rm`, in their original order.
pub open spec fn without(ids: Seq<Seq<u8>>, rm: Seq<Seq<u8>>) -> Seq<Seq<u8>>
    decreases ids.len(),
{
    if ids.len() == 0 {
        seq![]
    } else {
        let rest = without(ids.drop_last(), rm);
        if rm.contains(ids.last()) {
            rest
        } else {
            rest.push(ids.last())
        }
    }
}

/// `ids` followed by each member of `add`, in order, that is not already there.
pub open spec fn add_all(ids: Seq<Seq<u8>>, add: Seq<Seq<u8>>) -> Seq<Seq<u8>>
    decreases add.len(),
{
    if add.len() == 0 {
        ids
    } else {
        let rest = add_all(ids, add.drop_last());
        if rest.contains(add.last()) {
            rest
        } else {
            rest.push(add.last())
        }
    }
}

/// The identifiers after removing `rm` and then adding `add`.
pub open spec fn update_ids(ids: Seq<Seq<u8>>, add: Seq<Seq<u8>>, rm: Seq<Seq<u8>>) -> Seq<Seq<u8>> {
    add_all(without(ids, rm), add)
}

/// Removal keeps exactly the members of `ids` that are not in `rm`, and keeps
/// a set a set.
pub proof fn lemma_without(ids: Seq<Seq<u8>>, rm: Seq<Seq<u8>>)
    ensures
        forall|x: Seq<u8>| #[trigger] without(ids, rm).contains(x) <==> (ids.contains(x) && !rm.contains(x)),
        ids.no_duplicates() ==> without(ids, rm).no_duplicates(),
    decreases ids.len(),
{
    if ids.len() > 0 {
        let init = ids.drop_last();
        lemma_without(init, rm);
        assert(ids =~= init.push(ids.last()));
        assert forall|x: Seq<u8>| ids.contains(x) <==> (init.contains(x) || x == ids.last()) by {
            if ids.contains(x) {
                let i = choose|i: int| 0 <= i < ids.len() && ids[i] == x;
                if i < ids.len() - 1 {
                    assert(init[i] == x);
                }
            }
            if init.contains(x) {
                let i = choose|i: int| 0 <= i < init.len() && init[i] == x;
                assert(ids[i] == x);
            }
            if x == ids.last() {
                assert(ids[ids.len() - 1] == x);
            }
        }
        let rest = without(init, rm);
        assert forall|x: Seq<u8>| rest.push(ids.last()).contains(x) <==> (rest.contains(x) || x == ids.last()) by {
            let p = rest.push(ids.last());
            if p.contains(x) {
                let i = choose|i: int| 0 <= i < p.len() && p[i] == x;
                if i < rest.len() {
                    assert(rest[i] == x);
                }
            }
            if rest.contains(x) {
                let i = choose|i: int| 0 <= i < rest.len() && rest[i] == x;
                assert(p[i] == x);
            }
            if x == ids.last() {
                assert(p[rest.len() as int] == x);
            }
        }
        assert forall|x: Seq<u8>| #[trigger] without(ids, rm).contains(x) <==> (ids.contains(x) && !rm.contains(x)) by {
            assert(rest.contains(x) <==> (init.contains(x) && !rm.contains(x)));
        }
        if ids.no_duplicates() {
            assert(init.no_duplicates()) by {
                assert forall|i: int, j: int| 0 <= i < init.len() && 0 <= j < init.len() && i != j implies init[i] != init[j] by {
                    assert(init[i] == ids[i] && init[j] == ids[j]);
                }
            }
            if !rm.contains(ids.last()) {
                assert(!init.contains(ids.last())) by {
                    if init.contains(ids.last()) {
                        let i = choose|i: int| 0 <= i < init.len() && init[i] == ids.last();
                        assert(ids[i] == ids[ids.len() - 1]);
                    }
                }
                lemma_push_no_duplicates(rest, ids.last());
            }
        }
    }
}

/// Adding keeps every member of `ids` and of `add` and nothing else, and keeps
/// a set a set.
pub proof fn lemma_add_all(ids: Seq<Seq<u8>>, add: Seq<Seq<u8>>)
    ensures
        forall|x: Seq<u8>| #[trigger] add_all(ids, add).contains(x) <==> (ids.contains(x) || add.contains(x)),
        ids.no_duplicates() ==> add_all(ids, add).no_duplicates(),
    decreases add.len(),
{
    if add.len() > 0 {
        let init = add.drop_last();
        lemma_add_all(ids, init);
        let rest = add_all(ids, init);
        assert forall|x: Seq<u8>| add.contains(x) <==> (init.contains(x) || x == add.last()) by {
            if add.contains(x) {
                let i = choose|i: int| 0 <= i < add.len() && add[i] == x;
                if i < add.len() - 1 {
                    assert(init[i] == x);
                }
            }
            if init.contains(x) {
                let i = choose|i: int| 0 <= i < init.len() && init[i] == x;
                assert(add[i] == x);
            }
            if x == add.last() {
                assert(add[add.len() - 1] == x);
            }
        }
        assert forall|x: Seq<u8>| rest.push(add.last()).contains(x) <==> (rest.contains(x) || x == add.last()) by {
            let p = rest.push(add.last());
            if p.contains(x) {
                let i = choose|i: int| 0 <= i < p.len() && p[i] == x;
                if i < rest.len() {
                    assert(rest[i] == x);
                }
            }
            if rest.contains(x) {
                let i = choose|i: int| 0 <= i < rest.len() && rest[i] == x;
                assert(p[i] == x);
            }
            if x == add.last() {
                assert(p[rest.len() as int] == x);
            }
        }
        assert forall|x: Seq<u8>| #[trigger] add_all(ids, add).contains(x) <==> (ids.contains(x) || add.contains(x)) by {
            assert(rest.contains(x) <==> (ids.contains(x) || init.contains(x)));
        }
        if ids.no_duplicates() && !rest.contains(add.last()) {
            lemma_push_no_duplicates(rest, add.last());
        }
    }
}

/// Adding the members of a set to nothing gives that set, in its order.
pub proof fn lemma_add_all_to_empty(ids: Seq<Seq<u8>>)
    requires
        ids.no_duplicates(),
    ensures
        add_all(seq![], ids) == ids,
    decreases ids.len(),
{
    if ids.len() > 0 {
        let init = ids.drop_last();
        assert(init.no_duplicates()) by {
            assert forall|i: int, j: int| 0 <= i < init.len() && 0 <= j < init.len() && i != j implies init[i] != init[j] by {
                assert(init[i] == ids[i] && init[j] == ids[j]);
            }
        }
        lemma_add_all_to_empty(init);
        lemma_add_all(seq![], init);
        assert(!init.contains(ids.last())) by {
            if init.contains(ids.last()) {
                let i = choose|i: int| 0 <= i < init.len() && init[i] == ids.last();
                assert(ids[i] == ids[ids.len() - 1]);
            }
        }
        assert(!Seq::<Seq<u8>>::empty().contains(ids.last()));
        assert(init.push(ids.last()) =~= ids);
    }
}

/// Pushing a new member onto a set gives a set.
proof fn lemma_push_no_duplicates(s: Seq<Seq<u8>>, x: Seq<u8>)
    requires
        s.no_duplicates(),
        !s.contains(x),
    ensures
        s.push(x).no_duplicates(),
{
    let p = s.push(x);
    assert forall|i: int, j: int| 0 <= i < p.len() && 0 <= j < p.len() && i != j implies p[i] != p[j] by {
        if i < s.len() && j < s.len() {
            assert(p[i] == s[i] && p[j] == s[j]);
        } else if i < s.len() {
            assert(p[i] == s[i]);
        } else {
            assert(p[j] == s[j]);
        }
    }
}

/// Whether `x` is among the bound values of `ids`.
pub fn contains_value(ids: &Vec<BoundedValue>, x: &[u8]) -> (r: bool)
    ensures
        r == values_view(ids@).contains(x@),
{
    let mut i: usize = 0;
    while i < ids.len()
        invariant
            i <= ids@.len(),
            forall|j: int| 0 <= j < i ==> ids@[j]@ != x@,
        decreases ids@.len() - i,
    {
        if bytes_equal(ids[i].as_bytes(), x) {
            assert(values_view(ids@)[i as int] == x@);
            return true;
        }
        i += 1;
    }
    assert(!values_view(ids@).contains(x@)) by {
        if values_view(ids@).contains(x@) {
            let j = choose|j: int| 0 <= j < ids@.len() && values_view(ids@)[j] == x@;
            assert(ids@[j]@ == x@);
        }
    }
    false
}

/// Whether `x` is among the byte vectors of `raws`.
pub fn contains_raw(raws: &Vec<Vec<u8>>, x: &[u8]) -> (r: bool)
    ensures
        r == raw_view(raws@).contains(x@),
{
    let mut i: usize = 0;
    while i < raws.len()
        invariant
            i <= raws@.len(),
            forall|j: int| 0 <= j < i ==> raws@[j]@ != x@,
        decreases raws@.len() - i,
    {
        if bytes_equal(raws[i].as_slice(), x) {
            assert(raw_view(raws@)[i as int] == x@);
            return true;
        }
        i += 1;
    }
    assert(!raw_view(raws@).contains(x@)) by {
        if raw_view(raws@).contains(x@) {
            let j = choose|j: int| 0 <= j < raws@.len() && raw_view(raws@)[j] == x@;
            assert(raws@[j]@ == x@);
        }
    }
    false
}

/// Whether every byte vector of `raws` is at most `max` long.
pub fn all_fit(raws: &Vec<Vec<u8>>, max: u32) -> (r: bool)
    ensures
        r == all_within(raw_view(raws@), max as nat),
{
    let mut i: usize = 0;
    while i < raws.len()
        invariant
            i <= raws@.len(),
            forall|j: int| 0 <= j < i ==> raws@[j]@.len() <= max,
        decreases raws@.len() - i,
    {
        if raws[i].len() as u64 > max as u64 {
            assert(raw_view(raws@)[i as int].len() > max);
            return false;
        }
        i += 1;
    }
    assert forall|j: int| 0 <= j < raw_view(raws@).len() implies #[trigger] raw_view(raws@)[j].len() <= max by {
        assert(raws@[j]@.len() <= max);
    }
    true
}

/// A copy of `ids` without the members of `rm`, in their original order.
pub fn remove_values(ids: &Vec<BoundedValue>, rm: &Vec<Vec<u8>>) -> (r: Vec<BoundedValue>)
    ensures
        values_view(r@) == without(values_view(ids@), raw_view(rm@)),
{
    let ghost all = values_view(ids@);
    let ghost rmv = raw_view(rm@);
    let mut out: Vec<BoundedValue> = Vec::new();
    let mut i: usize = 0;
    while i < ids.len()
        invariant
            i <= ids@.len(),
            all == values_view(ids@),
            rmv == raw_view(rm@),
            values_view(out@) == without(all.take(i as int), rmv),
        decreases ids@.len() - i,
    {
        let item = &ids[i];
        assert(all.take(i + 1).drop_last() =~= all.take(i as int));
        assert(all.take(i + 1).last() == item@);
        if !contains_raw(rm, item.as_bytes()) {
            let ghost before = out@;
            out.push(item.duplicate());
            assert(values_view(out@) =~= values_view(before).push(item@));
        }
        i += 1;
    }
    assert(all.take(i as int) =~= all);
    out
}

/// `ids` followed by each member of `add`, bound to `max`, that is not already
/// there.
pub fn add_values(ids: Vec<BoundedValue>, add: &Vec<Vec<u8>>, max: u32) -> (r: Vec<BoundedValue>)
    requires
        all_within(raw_view(add@), max as nat),
    ensures
        values_view(r@) == add_all(values_view(ids@), raw_view(add@)),
{
    let ghost base = values_view(ids@);
    let ghost addv = raw_view(add@);
    let mut out = ids;
    let mut i: usize = 0;
    while i < add.len()
        invariant
            i <= add@.len(),
            addv == raw_view(add@),
            all_within(addv, max as nat),
            values_view(out@) == add_all(base, addv.take(i as int)),
        decreases add@.len() - i,
    {
        let raw = add[i].as_slice();
        assert(addv.take(i + 1).drop_last() =~= addv.take(i as int));
        assert(addv.take(i + 1).last() == raw@);
        assert(addv[i as int].len() <= max);
        if !contains_value(&out, raw) {
            let ghost before = out@;
            match crate::codec::bind(raw, max) {
                Ok(v) => {
                    out.push(v);
                    assert(values_view(out@) =~= values_view(before).push(raw@));
                },
                Err(_) => {},
            }
        }
        i += 1;
    }
    assert(addv.take(i as int) =~= addv);
    out
}

} // verus!
