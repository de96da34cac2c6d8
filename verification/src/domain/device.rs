//! A writable block device, as shown to the user.

use crate::domain::paths::DevicePath;
use crate::domain::units::ByteSize;
use crate::text::{
    lemma_text_le_antisymmetric, lemma_text_le_total, lemma_text_le_transitive, text_le,
};
use vstd::multiset::Multiset;
use vstd::prelude::*;

verus! {

/// What a [`Device`] stands for.
pub struct DeviceView {
    pub name: Seq<char>,
    pub path: Seq<char>,
    pub size: nat,
    pub model: Option<Seq<char>>,
    pub serial: Option<Seq<char>>,
    pub tran: Option<Seq<char>>,
    pub removable: bool,
    pub hotplug: bool,
    pub ro: bool,
    pub mounted: bool,
    pub labels: Seq<Seq<char>>,
}

/// A whole disk that could receive an image.
#[derive(Debug)]
pub struct Device {
    pub name: String,
    pub path: DevicePath,
    pub size: ByteSize,
    pub model: Option<String>,
    pub serial: Option<String>,
    pub tran: Option<String>,
    pub removable: bool,
    pub hotplug: bool,
    pub ro: bool,
    pub mounted: bool,
    pub labels: Vec<String>,
}

impl View for Device {
    type V = DeviceView;

    open spec fn view(&self) -> DeviceView {
        DeviceView {
            name: self.name@,
            path: self.path@,
            size: self.size@,
            model: self.model.deep_view(),
            serial: self.serial.deep_view(),
            tran: self.tran.deep_view(),
            removable: self.removable,
            hotplug: self.hotplug,
            ro: self.ro,
            mounted: self.mounted,
            labels: self.labels.deep_view(),
        }
    }
}

impl DeepView for Device {
    type V = DeviceView;

    open spec fn deep_view(&self) -> DeviceView {
        self@
    }
}

impl Device {
    /// A device is a safe target when it is writable and nothing on it is
    /// mounted.
    pub fn is_safe_target(&self) -> (r: bool)
        ensures
            r == (!self.ro && !self.mounted),
    {
        !self.ro && !self.mounted
    }
}

impl Clone for Device {
    fn clone(&self) -> (r: Self)
        ensures
            r@ == self@,
    {
        let mut labels: Vec<String> = Vec::new();
        let mut i: usize = 0;
        while i < self.labels.len()
            invariant
                i <= self.labels@.len(),
                labels@.len() == i,
                forall|k: int| 0 <= k < i ==> labels@[k]@ == self.labels@[k]@,
            decreases self.labels@.len() - i,
        {
            labels.push(self.labels[i].clone());
            i += 1;
        }
        assert(labels.deep_view() =~= self.labels.deep_view());
        Device {
            name: self.name.clone(),
            path: self.path.clone(),
            size: self.size,
            model: crate::text::clone_optional(&self.model),
            serial: crate::text::clone_optional(&self.serial),
            tran: crate::text::clone_optional(&self.tran),
            removable: self.removable,
            hotplug: self.hotplug,
            ro: self.ro,
            mounted: self.mounted,
            labels,
        }
    }
}

/// The order in which devices are shown: hot-pluggable ones first, then
/// removable ones, then those with nothing mounted, then by name.
/// `ranks_before(a, b)` says that `a` may stand before `b`.
pub open spec fn ranks_before(a: DeviceView, b: DeviceView) -> bool {
    if a.hotplug != b.hotplug {
        a.hotplug
    } else if a.removable != b.removable {
        a.removable
    } else if a.mounted != b.mounted {
        b.mounted
    } else {
        text_le(a.name, b.name)
    }
}

/// Every device of `s` may stand before all that follow it.
pub open spec fn ranked(s: Seq<DeviceView>) -> bool {
    forall|i: int, j: int| 0 <= i < j < s.len() ==> ranks_before(#[trigger] s[i], #[trigger] s[j])
}

/// No two devices of `s` have the same name.
pub open spec fn distinct_names(s: Seq<DeviceView>) -> bool {
    forall|i: int, j: int| 0 <= i < j < s.len() ==> (#[trigger] s[i]).name != (#[trigger] s[j]).name
}

/// Of any two devices one may stand before the other.
pub proof fn lemma_rank_total(a: DeviceView, b: DeviceView)
    ensures
        ranks_before(a, b) || ranks_before(b, a),
{
    lemma_text_le_total(a.name, b.name);
}

/// The rank order is transitive.
pub proof fn lemma_rank_transitive(a: DeviceView, b: DeviceView, c: DeviceView)
    requires
        ranks_before(a, b),
        ranks_before(b, c),
    ensures
        ranks_before(a, c),
{
    if a.hotplug == b.hotplug && b.hotplug == c.hotplug && a.removable == b.removable
        && b.removable == c.removable && a.mounted == b.mounted && b.mounted == c.mounted {
        lemma_text_le_transitive(a.name, b.name, c.name);
    }
}

/// Two devices that may each stand before the other have the same name.
pub proof fn lemma_rank_ties_share_name(a: DeviceView, b: DeviceView)
    requires
        ranks_before(a, b),
        ranks_before(b, a),
    ensures
        a.name == b.name,
{
    lemma_text_le_antisymmetric(a.name, b.name);
}

/// The ranking of a set of devices with distinct names is unique: two
/// ranked lists of the same devices are the same list.
pub proof fn lemma_ranking_is_unique(x: Seq<DeviceView>, y: Seq<DeviceView>)
    requires
        ranked(x),
        ranked(y),
        distinct_names(x),
        distinct_names(y),
        forall|d: DeviceView| x.contains(d) <==> y.contains(d),
    ensures
        x == y,
    decreases x.len(),
{
    if x.len() == 0 {
        if y.len() > 0 {
            assert(y.contains(y[0]));
        }
        assert(x =~= y);
    } else {
        assert(x.contains(x[0]));
        assert(y.contains(x[0]));
        let j = choose|j: int| 0 <= j < y.len() && y[j] == x[0];
        assert(y.contains(y[0]));
        assert(x.contains(y[0]));
        let i = choose|i: int| 0 <= i < x.len() && x[i] == y[0];
        if i > 0 {
            assert(ranks_before(x[0], x[i]));
            if j > 0 {
                assert(ranks_before(y[0], y[j]));
            }
            lemma_rank_ties_share_name(x[0], x[i]);
            assert(false);
        }
        assert(x[0] == y[0]);
        let xs = x.drop_first();
        let ys = y.drop_first();
        assert forall|d: DeviceView| xs.contains(d) <==> ys.contains(d) by {
            if xs.contains(d) {
                let k = choose|k: int| 0 <= k < xs.len() && xs[k] == d;
                assert(x[k + 1] == d);
                assert(x.contains(d));
                let m = choose|m: int| 0 <= m < y.len() && y[m] == d;
                assert(x[0].name != x[k + 1].name);
                assert(m > 0);
                assert(ys[m - 1] == d);
            }
            if ys.contains(d) {
                let k = choose|k: int| 0 <= k < ys.len() && ys[k] == d;
                assert(y[k + 1] == d);
                assert(y.contains(d));
                let m = choose|m: int| 0 <= m < x.len() && x[m] == d;
                assert(y[0].name != y[k + 1].name);
                assert(m > 0);
                assert(xs[m - 1] == d);
            }
        }
        assert(ranked(xs)) by {
            assert forall|a: int, b: int| 0 <= a < b < xs.len() implies ranks_before(
                #[trigger] xs[a],
                #[trigger] xs[b],
            ) by {
                assert(ranks_before(x[a + 1], x[b + 1]));
            }
        }
        assert(ranked(ys)) by {
            assert forall|a: int, b: int| 0 <= a < b < ys.len() implies ranks_before(
                #[trigger] ys[a],
                #[trigger] ys[b],
            ) by {
                assert(ranks_before(y[a + 1], y[b + 1]));
            }
        }
        assert(distinct_names(xs)) by {
            assert forall|a: int, b: int| 0 <= a < b < xs.len() implies (#[trigger] xs[a]).name != (
            #[trigger] xs[b]).name by {
                assert(x[a + 1].name != x[b + 1].name);
            }
        }
        assert(distinct_names(ys)) by {
            assert forall|a: int, b: int| 0 <= a < b < ys.len() implies (#[trigger] ys[a]).name != (
            #[trigger] ys[b]).name by {
                assert(y[a + 1].name != y[b + 1].name);
            }
        }
        lemma_ranking_is_unique(xs, ys);
        assert(x =~= seq![x[0]] + xs);
        assert(y =~= seq![y[0]] + ys);
    }
}

/// A list that holds the devices of a list with distinct names, each as
/// often, has distinct names too.
pub proof fn lemma_distinct_names_of_same_devices(a: Seq<DeviceView>, b: Seq<DeviceView>)
    requires
        distinct_names(a),
        a.to_multiset() == b.to_multiset(),
    ensures
        distinct_names(b),
        forall|d: DeviceView| a.contains(d) <==> b.contains(d),
{
    broadcast use vstd::multiset::group_multiset_axioms;
    broadcast use vstd::seq_lib::group_to_multiset_ensures;

    assert forall|d: DeviceView| a.contains(d) <==> b.contains(d) by {
        vstd::seq_lib::to_multiset_contains(a, d);
        vstd::seq_lib::to_multiset_contains(b, d);
    }
    assert(a.no_duplicates()) by {
        assert forall|i: int, j: int| 0 <= i < a.len() && 0 <= j < a.len() && i != j implies a[i]
            != a[j] by {
            if i < j {
                assert(a[i].name != a[j].name);
            } else {
                assert(a[j].name != a[i].name);
            }
        }
    }
    a.lemma_multiset_has_no_duplicates();
    b.lemma_multiset_has_no_duplicates_conv();
    assert forall|i: int, j: int| 0 <= i < j < b.len() implies (#[trigger] b[i]).name != (
    #[trigger] b[j]).name by {
        assert(b.contains(b[i]));
        assert(b.contains(b[j]));
        let p = choose|p: int| 0 <= p < a.len() && a[p] == b[i];
        let q = choose|q: int| 0 <= q < a.len() && a[q] == b[j];
        assert(b[i] != b[j]);
        if p < q {
            assert(a[p].name != a[q].name);
        } else {
            assert(a[q].name != a[p].name);
        }
    }
}

/// The ranking does not depend on the order in which the devices were
/// found: two lists that hold the same devices, with distinct names, have
/// one and the same ranking.
pub proof fn lemma_rank_ignores_discovery_order(
    found: Seq<DeviceView>,
    found_otherwise: Seq<DeviceView>,
    first: Seq<DeviceView>,
    second: Seq<DeviceView>,
)
    requires
        distinct_names(found),
        found.to_multiset() == found_otherwise.to_multiset(),
        ranked(first),
        first.to_multiset() == found.to_multiset(),
        ranked(second),
        second.to_multiset() == found_otherwise.to_multiset(),
    ensures
        first == second,
{
    lemma_distinct_names_of_same_devices(found, first);
    lemma_distinct_names_of_same_devices(found, second);
    lemma_ranking_is_unique(first, second);
}

/// Whether `a` may stand before `b` in the ranking.
pub fn may_stand_before(a: &Device, b: &Device) -> (r: bool)
    ensures
        r == ranks_before(a@, b@),
{
    if a.hotplug != b.hotplug {
        a.hotplug
    } else if a.removable != b.removable {
        a.removable
    } else if a.mounted != b.mounted {
        b.mounted
    } else {
        crate::text::text_before_or_same(a.name.as_str(), b.name.as_str())
    }
}

/// Ranks devices: the result holds the same devices, each as often as
/// before, in rank order.
pub fn rank_devices(devices: Vec<Device>) -> (r: Vec<Device>)
    ensures
        ranked(r.deep_view()),
        r.deep_view().to_multiset() == devices.deep_view().to_multiset(),
{
    broadcast use vstd::multiset::group_multiset_axioms;
    broadcast use vstd::seq_lib::group_to_multiset_ensures;

    let mut rest = devices;
    let mut out: Vec<Device> = Vec::new();
    assert(out.deep_view() =~= Seq::<DeviceView>::empty());
    while rest.len() > 0
        invariant
            ranked(out.deep_view()),
            out.deep_view().to_multiset().add(rest.deep_view().to_multiset())
                == devices.deep_view().to_multiset(),
        decreases rest@.len(),
    {
        let ghost rest_before = rest.deep_view();
        let ghost out_before = out.deep_view();
        let x = rest.remove(0);
        proof {
            assert(rest.deep_view() =~= rest_before.remove(0));
            assert(rest_before[0] == x@);
            vstd::seq_lib::to_multiset_remove(rest_before, 0);
            assert(rest_before.contains(x@));
            vstd::seq_lib::to_multiset_contains(rest_before, x@);
        }
        let mut p: usize = 0;
        while p < out.len() && may_stand_before(&out[p], &x)
            invariant
                p <= out@.len(),
                out.deep_view() == out_before,
                forall|k: int| 0 <= k < p ==> ranks_before(#[trigger] out_before[k], x@),
            decreases out@.len() - p,
        {
            p += 1;
        }
        out.insert(p, x);
        proof {
            let now = out.deep_view();
            assert(now =~= out_before.insert(p as int, x@));
            vstd::seq_lib::to_multiset_insert(out_before, p as int, x@);
            assert forall|i: int, j: int| 0 <= i < j < now.len() implies ranks_before(
                #[trigger] now[i],
                #[trigger] now[j],
            ) by {
                if j < p {
                    assert(ranks_before(out_before[i], out_before[j]));
                } else if j == p {
                    assert(ranks_before(out_before[i], x@));
                } else if i == p {
                    lemma_rank_total(out_before[p as int], x@);
                    if j - 1 > p {
                        assert(ranks_before(out_before[p as int], out_before[j - 1]));
                        lemma_rank_transitive(x@, out_before[p as int], out_before[j - 1]);
                    }
                } else if i < p {
                    assert(ranks_before(out_before[i], out_before[j - 1]));
                } else {
                    assert(ranks_before(out_before[i - 1], out_before[j - 1]));
                }
            }
            assert(now.to_multiset() == out_before.to_multiset().insert(x@));
            assert(rest.deep_view().to_multiset() == rest_before.to_multiset().remove(x@));
            assert(rest_before.to_multiset().count(x@) > 0);
            assert(now.to_multiset().add(rest.deep_view().to_multiset()) =~= out_before.to_multiset().add(
                rest_before.to_multiset(),
            ));
        }
    }
    assert(rest.deep_view() =~= Seq::<DeviceView>::empty());
    assert(out.deep_view().to_multiset().add(Multiset::<DeviceView>::empty())
        =~= out.deep_view().to_multiset());
    out
}

/// A copy of a list of devices.
pub fn clone_devices(v: &Vec<Device>) -> (r: Vec<Device>)
    ensures
        r.deep_view() == v.deep_view(),
{
    let mut r: Vec<Device> = Vec::new();
    let mut i: usize = 0;
    while i < v.len()
        invariant
            i <= v@.len(),
            r@.len() == i,
            forall|k: int| 0 <= k < i ==> r@[k]@ == v@[k]@,
        decreases v@.len() - i,
    {
        r.push(v[i].clone());
        i += 1;
    }
    assert(r.deep_view() =~= v.deep_view());
    r
}

} // verus!
