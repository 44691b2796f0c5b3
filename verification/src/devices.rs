//! Receivers found on the network, and the order in which they are listed.

use crate::text::chars_of;
use vstd::prelude::*;
use vstd::string::*;

verus! {

/// A receiver. `key` finds what was discovered of it again.
pub struct Device {
    pub key: u64,
    pub name: String,
    pub hardware_address: String,
    pub features: u64,
}

#[verifier::ext_equal]
pub struct DeviceView {
    pub key: u64,
    pub name: Seq<char>,
    pub hardware_address: Seq<char>,
    pub features: u64,
}

impl View for Device {
    type V = DeviceView;

    open spec fn view(&self) -> DeviceView {
        DeviceView {
            key: self.key,
            name: self.name@,
            hardware_address: self.hardware_address@,
            features: self.features,
        }
    }
}

impl Device {
    /// A copy.
    pub fn copy(&self) -> (r: Device)
        ensures
            r@ == self@,
    {
        Device {
            key: self.key,
            name: self.name.clone(),
            hardware_address: self.hardware_address.clone(),
            features: self.features,
        }
    }
}

pub open spec fn device_views(devices: Seq<Device>) -> Seq<DeviceView> {
    devices.map_values(|device: Device| device@)
}

/// Whether `a` comes before `b`: character by character, a shorter text before its extensions.
pub open spec fn precedes(a: Seq<char>, b: Seq<char>) -> bool
    decreases b.len(),
{
    if b.len() == 0 {
        false
    } else if a.len() == 0 {
        true
    } else {
        a[0] < b[0] || (a[0] == b[0] && precedes(a.drop_first(), b.drop_first()))
    }
}

fn comes_before(a: &str, b: &str) -> (r: bool)
    ensures
        r == precedes(a@, b@),
{
    let left = chars_of(a);
    let right = chars_of(b);
    let mut at: usize = 0;
    assert(left@.skip(0) =~= a@);
    assert(right@.skip(0) =~= b@);
    loop
        invariant
            left@ == a@,
            right@ == b@,
            at <= left@.len(),
            at <= right@.len(),
            precedes(a@, b@) == precedes(left@.skip(at as int), right@.skip(at as int)),
        decreases left@.len() - at,
    {
        if at >= right.len() {
            return false;
        }
        if at >= left.len() {
            return true;
        }
        assert(left@.skip(at as int)[0] == left@[at as int]);
        assert(right@.skip(at as int)[0] == right@[at as int]);
        assert(left@.skip(at as int).drop_first() =~= left@.skip(at + 1));
        assert(right@.skip(at as int).drop_first() =~= right@.skip(at + 1));
        if left[at] != right[at] {
            return left[at] < right[at];
        }
        at = at + 1;
    }
}

/// Where a name goes in a list: behind all that come before it.
pub open spec fn place_of(list: Seq<DeviceView>, name: Seq<char>) -> nat
    decreases list.len(),
{
    if list.len() == 0 || !precedes(list[0].name, name) {
        0
    } else {
        1 + place_of(list.drop_first(), name)
    }
}

/// The devices in the order of their names, equal names in the order in which they were found.
pub open spec fn by_name(devices: Seq<DeviceView>) -> Seq<DeviceView>
    decreases devices.len(),
{
    if devices.len() == 0 {
        devices
    } else {
        let rest = by_name(devices.drop_first());
        rest.insert(place_of(rest, devices[0].name) as int, devices[0])
    }
}

proof fn lemma_place_range(list: Seq<DeviceView>, name: Seq<char>)
    ensures
        place_of(list, name) <= list.len(),
        forall|i: int| 0 <= i < place_of(list, name) ==> precedes((#[trigger] list[i]).name, name),
        place_of(list, name) < list.len() ==> !precedes(
            list[place_of(list, name) as int].name,
            name,
        ),
    decreases list.len(),
{
    if list.len() > 0 && precedes(list[0].name, name) {
        let rest = list.drop_first();
        lemma_place_range(rest, name);
        assert forall|i: int| 0 <= i < place_of(list, name) implies precedes(
            (#[trigger] list[i]).name,
            name,
        ) by {
            if i > 0 {
                assert(list[i] == rest[i - 1]);
            }
        }
    }
}

fn find_place(list: &Vec<Device>, name: &str) -> (r: usize)
    ensures
        r == place_of(device_views(list@), name@),
        r <= list@.len(),
{
    let ghost all = device_views(list@);
    let mut at: usize = 0;
    assert(all.skip(0) =~= all);
    while at < list.len()
        invariant
            at <= list@.len(),
            all == device_views(list@),
            place_of(all, name@) == at + place_of(all.skip(at as int), name@),
        decreases list@.len() - at,
    {
        assert(all.skip(at as int)[0] == list@[at as int]@);
        assert(all.skip(at as int).drop_first() =~= all.skip(at + 1));
        if !comes_before(list[at].name.as_str(), name) {
            return at;
        }
        at = at + 1;
    }
    at
}

/// Puts devices in the order of their names.
pub fn sort_by_name(devices: Vec<Device>) -> (r: Vec<Device>)
    ensures
        device_views(r@) == by_name(device_views(devices@)),
{
    let ghost all = device_views(devices@);
    let mut left = devices;
    let mut sorted: Vec<Device> = Vec::new();
    assert(device_views(sorted@) =~= by_name(all.skip(all.len() as int)));
    while left.len() > 0
        invariant
            all == device_views(devices@),
            left@.len() <= devices@.len(),
            left@ == devices@.take(left@.len() as int),
            device_views(sorted@) == by_name(all.skip(left@.len() as int)),
        decreases left@.len(),
    {
        let ghost count = left@.len() as int;
        let ghost rest = device_views(sorted@);
        if let Some(device) = left.pop() {
            assert(device == devices@[count - 1]);
            assert(left@ =~= devices@.take(count - 1));
            assert(all.skip(count - 1).drop_first() =~= all.skip(count));
            assert(all.skip(count - 1)[0] == device@);
            let place = find_place(&sorted, device.name.as_str());
            let ghost entry = device@;
            sorted.insert(place, device);
            assert(device_views(sorted@) =~= rest.insert(place as int, entry));
        }
    }
    assert(all.skip(0) =~= all);
    sorted
}

proof fn lemma_not_preceding_is_transitive(a: Seq<char>, b: Seq<char>, c: Seq<char>)
    requires
        !precedes(b, a),
        !precedes(c, b),
    ensures
        !precedes(c, a),
    decreases a.len(),
{
    if a.len() > 0 && b.len() > 0 && c.len() > 0 && a[0] == b[0] && b[0] == c[0] {
        lemma_not_preceding_is_transitive(a.drop_first(), b.drop_first(), c.drop_first());
    }
}

proof fn lemma_precedes_one_way(a: Seq<char>, b: Seq<char>)
    requires
        precedes(a, b),
    ensures
        !precedes(b, a),
    decreases b.len(),
{
    if a.len() > 0 && b.len() > 0 && a[0] == b[0] {
        lemma_precedes_one_way(a.drop_first(), b.drop_first());
    }
}

/// The listed devices are in the order of their names.
pub proof fn listing_is_ordered(devices: Seq<DeviceView>, i: int, j: int)
    requires
        0 <= i < j < by_name(devices).len(),
    ensures
        !precedes(by_name(devices)[j].name, by_name(devices)[i].name),
    decreases devices.len(),
{
    let first = devices[0];
    let rest = by_name(devices.drop_first());
    let place = place_of(rest, first.name) as int;
    let all = by_name(devices);
    lemma_place_range(rest, first.name);
    if i != place && j != place {
        let a = if i < place {
            i
        } else {
            i - 1
        };
        let b = if j < place {
            j
        } else {
            j - 1
        };
        assert(all[i] == rest[a] && all[j] == rest[b]);
        listing_is_ordered(devices.drop_first(), a, b);
    } else if j == place {
        assert(all[i] == rest[i]);
        lemma_precedes_one_way(rest[i].name, first.name);
    } else {
        assert(all[j] == rest[j - 1]);
        if j - 1 > place {
            listing_is_ordered(devices.drop_first(), place, j - 1);
            lemma_not_preceding_is_transitive(first.name, rest[place].name, rest[j - 1].name);
        }
    }
}

/// Listing loses no device and adds none.
pub proof fn listing_keeps_devices(devices: Seq<DeviceView>)
    ensures
        by_name(devices).to_multiset() == devices.to_multiset(),
        by_name(devices).len() == devices.len(),
    decreases devices.len(),
{
    broadcast use vstd::seq_lib::group_to_multiset_ensures;

    if devices.len() > 0 {
        let rest = devices.drop_first();
        listing_keeps_devices(rest);
        lemma_place_range(by_name(rest), devices[0].name);
        assert(devices =~= seq![devices[0]] + rest);
        assert(devices =~= rest.insert(0, devices[0]));
    }
}

/// Of devices with one name, the one found first is listed first.
pub proof fn listing_is_stable(devices: Seq<DeviceView>, name: Seq<char>)
    ensures
        by_name(devices).filter(|device: DeviceView| device.name == name) == devices.filter(
            |device: DeviceView| device.name == name,
        ),
    decreases devices.len(),
{
    let wanted = |device: DeviceView| device.name == name;
    if devices.len() > 0 {
        let first = devices[0];
        let rest = devices.drop_first();
        let list = by_name(rest);
        let place = place_of(list, first.name) as int;
        listing_is_stable(rest, name);
        lemma_place_range(list, first.name);
        let before = list.take(place);
        let behind = list.skip(place);
        assert(list =~= before + behind);
        assert(by_name(devices) =~= before + seq![first] + behind);
        assert(devices =~= seq![first] + rest);
        Seq::<DeviceView>::filter_distributes_over_add(before, behind, wanted);
        Seq::<DeviceView>::filter_distributes_over_add(
            before + seq![first],
            behind,
            wanted,
        );
        Seq::<DeviceView>::filter_distributes_over_add(before, seq![first], wanted);
        Seq::<DeviceView>::filter_distributes_over_add(seq![first], rest, wanted);
        if first.name == name {
            assert forall|i: int| 0 <= i < before.len() implies !wanted(#[trigger] before[i]) by {
                assert(precedes(list[i].name, first.name));
                if list[i].name == first.name {
                    lemma_precedes_one_way(list[i].name, first.name);
                }
            }
            lemma_filter_none(before, name);
            assert(before.filter(wanted) + seq![first].filter(wanted) + behind.filter(wanted)
                =~= seq![first].filter(wanted) + behind.filter(wanted));
            assert(list.filter(wanted) =~= behind.filter(wanted));
        } else {
            lemma_filter_none(seq![first], name);
            assert(before.filter(wanted) + seq![first].filter(wanted) + behind.filter(wanted)
                =~= before.filter(wanted) + behind.filter(wanted));
            assert(seq![first].filter(wanted) + rest.filter(wanted) =~= rest.filter(wanted));
        }
    }
}

proof fn lemma_filter_none(list: Seq<DeviceView>, name: Seq<char>)
    requires
        forall|i: int| 0 <= i < list.len() ==> (#[trigger] list[i]).name != name,
    ensures
        list.filter(|device: DeviceView| device.name == name).len() == 0,
    decreases list.len(),
{
    reveal(Seq::filter);
    if list.len() > 0 {
        lemma_filter_none(list.drop_last(), name);
    }
}

/// Up to `k` two names agree, and there the first of them ends or has the smaller character.
pub open spec fn differs_at(a: Seq<char>, b: Seq<char>, k: int) -> bool {
    &&& 0 <= k < b.len()
    &&& k <= a.len()
    &&& forall|i: int| 0 <= i < k ==> #[trigger] a[i] == b[i]
    &&& k == a.len() || a[k] < b[k]
}

/// Names are ordered as in a dictionary: by the first character in which they differ, a name
/// before those that go on from it.
pub proof fn names_are_ordered_by_their_first_difference(a: Seq<char>, b: Seq<char>)
    ensures
        precedes(a, b) <==> exists|k: int| differs_at(a, b, k),
    decreases a.len(),
{
    if b.len() > 0 && a.len() == 0 {
        assert(differs_at(a, b, 0));
    } else if b.len() > 0 {
        let (rest_a, rest_b) = (a.drop_first(), b.drop_first());
        names_are_ordered_by_their_first_difference(rest_a, rest_b);
        if a[0] < b[0] {
            assert(differs_at(a, b, 0));
        } else if precedes(a, b) {
            let k = choose|k: int| differs_at(rest_a, rest_b, k);
            assert forall|i: int| 0 <= i < k + 1 implies #[trigger] a[i] == b[i] by {
                if i > 0 {
                    assert(rest_a[i - 1] == rest_b[i - 1]);
                }
            }
            assert(differs_at(a, b, k + 1));
        }
        if exists|k: int| differs_at(a, b, k) {
            let k = choose|k: int| differs_at(a, b, k);
            if k > 0 {
                assert(a[0] == b[0]);
                assert forall|i: int| 0 <= i < k - 1 implies #[trigger] rest_a[i] == rest_b[i] by {
                    assert(a[i + 1] == b[i + 1]);
                }
                assert(differs_at(rest_a, rest_b, k - 1));
            }
        }
    }
}

} // verus!
