//! Subnets grouped by network and availability zone, and the groups that
//! hold more subnets than a zone is expected to have.

use vstd::prelude::*;
use vstd::multiset::Multiset;
use crate::resources::{Subnet, SubnetView, subnet_views};
use crate::text::{lemma_lex_irreflexive, lemma_lex_total, lemma_lex_transitive, lex_before};
use crate::text::precedes;

verus! {

/// The most subnets that one zone of one network is expected to have.
pub const SUBNETS_PER_ZONE: usize = 2;

/// The group of a subnet: its network and its availability zone.
pub open spec fn group_of(subnet: SubnetView) -> (Seq<char>, Seq<char>) {
    (subnet.vpc_id, subnet.availability_zone)
}

/// The subnets of the group `key`.
pub open spec fn in_group(key: (Seq<char>, Seq<char>)) -> spec_fn(SubnetView) -> bool {
    |s: SubnetView| group_of(s) == key
}

/// The number of subnets in the group `key`. It depends on which subnets
/// there are and how often, not on their order.
pub open spec fn group_size(subnets: Seq<SubnetView>, key: (Seq<char>, Seq<char>)) -> nat {
    subnets.to_multiset().filter(in_group(key)).len()
}

/// The order of groups: by network, then by zone.
pub open spec fn group_before(a: (Seq<char>, Seq<char>), b: (Seq<char>, Seq<char>)) -> bool {
    lex_before(a.0, b.0) || (a.0 == b.0 && lex_before(a.1, b.1))
}

/// Each key comes before all that follow it.
pub open spec fn ascending(keys: Seq<(Seq<char>, Seq<char>)>) -> bool {
    forall|a: int, b: int| 0 <= a < b < keys.len() ==> group_before(keys[a], keys[b])
}

/// Model of a [`SubnetGroup`].
pub struct GroupView {
    pub vpc_id: Seq<char>,
    pub availability_zone: Seq<char>,
    pub count: nat,
}

impl GroupView {
    /// The network and zone of the group.
    pub open spec fn key(self) -> (Seq<char>, Seq<char>) {
        (self.vpc_id, self.availability_zone)
    }
}

/// A group of subnets: a network, one of its zones, and how many subnets it
/// has there.
#[derive(Debug, Clone, PartialEq, Eq)]
pub struct SubnetGroup {
    pub vpc_id: String,
    pub availability_zone: String,
    pub count: usize,
}

impl View for SubnetGroup {
    type V = GroupView;

    open spec fn view(&self) -> GroupView {
        GroupView {
            vpc_id: self.vpc_id@,
            availability_zone: self.availability_zone@,
            count: self.count as nat,
        }
    }
}

/// The models of the groups of `groups`.
pub open spec fn group_views(groups: Seq<SubnetGroup>) -> Seq<GroupView> {
    groups.map_values(|g: SubnetGroup| g@)
}

/// The keys of `listing`, in order.
pub open spec fn listing_keys(listing: Seq<GroupView>) -> Seq<(Seq<char>, Seq<char>)> {
    listing.map_values(|g: GroupView| g.key())
}

/// `listing` holds exactly the groups of `subnets` that have more subnets
/// than expected, each once and with its size, in ascending order.
pub open spec fn is_crowded_listing(subnets: Seq<SubnetView>, listing: Seq<GroupView>) -> bool {
    &&& ascending(listing_keys(listing))
    &&& forall|a: int|
        0 <= a < listing.len() ==> (#[trigger] listing[a]).count > SUBNETS_PER_ZONE
            && listing[a].count == group_size(subnets, listing[a].key())
    &&& forall|key: (Seq<char>, Seq<char>)|
        group_size(subnets, key) > SUBNETS_PER_ZONE ==> #[trigger] listing_keys(listing).contains(
            key,
        )
}

/// The listing of the crowded groups of `subnets`.
pub open spec fn crowded_groups(subnets: Seq<SubnetView>) -> Seq<GroupView> {
    choose|listing: Seq<GroupView>| is_crowded_listing(subnets, listing)
}

/// No group comes before itself.
pub proof fn lemma_group_irreflexive(a: (Seq<char>, Seq<char>))
    ensures
        !group_before(a, a),
{
    lemma_lex_irreflexive(a.0);
    lemma_lex_irreflexive(a.1);
}

/// The order of groups is transitive.
pub proof fn lemma_group_transitive(
    a: (Seq<char>, Seq<char>),
    b: (Seq<char>, Seq<char>),
    c: (Seq<char>, Seq<char>),
)
    requires
        group_before(a, b),
        group_before(b, c),
    ensures
        group_before(a, c),
{
    lemma_lex_irreflexive(a.0);
    lemma_lex_irreflexive(b.0);
    if lex_before(a.0, b.0) && lex_before(b.0, c.0) {
        lemma_lex_transitive(a.0, b.0, c.0);
    }
    if a.0 == b.0 && b.0 == c.0 {
        lemma_lex_transitive(a.1, b.1, c.1);
    }
}

/// Of two different groups, one comes before the other.
pub proof fn lemma_group_total(a: (Seq<char>, Seq<char>), b: (Seq<char>, Seq<char>))
    requires
        a != b,
    ensures
        group_before(a, b) || group_before(b, a),
{
    if a.0 != b.0 {
        lemma_lex_total(a.0, b.0);
    } else {
        lemma_lex_total(a.1, b.1);
    }
}

/// Two ascending lists that hold the same keys are the same list.
pub proof fn lemma_ascending_unique(
    x: Seq<(Seq<char>, Seq<char>)>,
    y: Seq<(Seq<char>, Seq<char>)>,
)
    requires
        ascending(x),
        ascending(y),
        forall|key: (Seq<char>, Seq<char>)| x.contains(key) <==> y.contains(key),
    ensures
        x == y,
    decreases x.len(),
{
    if x.len() == 0 {
        if y.len() > 0 {
            assert(y.contains(y[0]));
        }
        assert(x =~= y);
    } else {
        assert(x.contains(x[0]));
        let b = y.index_of(x[0]);
        assert(y.contains(y[0]));
        let a = x.index_of(y[0]);
        if x[0] != y[0] {
            lemma_group_transitive(x[0], y[0], x[0]);
            lemma_group_irreflexive(x[0]);
        }
        let xt = x.drop_first();
        let yt = y.drop_first();
        assert forall|key: (Seq<char>, Seq<char>)| xt.contains(key) <==> yt.contains(key) by {
            if xt.contains(key) {
                let i = xt.index_of(key);
                assert(x[i + 1] == key);
                lemma_group_irreflexive(key);
                assert(x.contains(key));
                let j = y.index_of(key);
                assert(yt[j - 1] == key);
            }
            if yt.contains(key) {
                let i = yt.index_of(key);
                assert(y[i + 1] == key);
                lemma_group_irreflexive(key);
                assert(y.contains(key));
                let j = x.index_of(key);
                assert(xt[j - 1] == key);
            }
        }
        lemma_ascending_unique(xt, yt);
        assert(x =~= seq![x[0]] + xt);
        assert(y =~= seq![y[0]] + yt);
    }
}

/// There is at most one listing of the crowded groups, and it is
/// `crowded_groups`.
pub proof fn lemma_crowded_listing_unique(subnets: Seq<SubnetView>, listing: Seq<GroupView>)
    requires
        is_crowded_listing(subnets, listing),
    ensures
        listing == crowded_groups(subnets),
{
    let other = crowded_groups(subnets);
    assert(is_crowded_listing(subnets, other));
    let x = listing_keys(listing);
    let y = listing_keys(other);
    assert forall|key: (Seq<char>, Seq<char>)| x.contains(key) <==> y.contains(key) by {
        if x.contains(key) {
            let a = x.index_of(key);
            assert(listing[a].key() == key);
        }
        if y.contains(key) {
            let a = y.index_of(key);
            assert(other[a].key() == key);
        }
    }
    lemma_ascending_unique(x, y);
    assert(listing.len() == x.len());
    assert(other.len() == y.len());
    assert forall|a: int| 0 <= a < listing.len() implies listing[a] == other[a] by {
        assert(x[a] == listing[a].key());
        assert(y[a] == other[a].key());
    }
    assert(listing =~= other);
}

/// No subnets, no group with a subnet in it.
pub proof fn lemma_group_size_empty(key: (Seq<char>, Seq<char>))
    ensures
        group_size(Seq::empty(), key) == 0,
{
    broadcast use vstd::multiset::group_multiset_axioms;

    let none = Seq::<SubnetView>::empty();
    assert(none.to_multiset() =~= Multiset::empty()) by {
        broadcast use vstd::seq_lib::group_to_multiset_ensures;

        assert(none.to_multiset().len() == 0);
    }
    assert(Multiset::<SubnetView>::empty().filter(in_group(key)) =~= Multiset::empty());
}

/// One more subnet makes its own group larger by one and leaves the others.
pub proof fn lemma_group_size_push(
    subnets: Seq<SubnetView>,
    subnet: SubnetView,
    key: (Seq<char>, Seq<char>),
)
    ensures
        group_size(subnets.push(subnet), key) == group_size(subnets, key) + if group_of(subnet)
            == key {
            1nat
        } else {
            0nat
        },
{
    broadcast use vstd::multiset::group_multiset_axioms;
    broadcast use vstd::seq_lib::to_multiset_build;

    let m = subnets.to_multiset();
    let f = in_group(key);
    assert(subnets.push(subnet).to_multiset() =~= m.insert(subnet));
    if group_of(subnet) == key {
        assert(m.insert(subnet).filter(f) =~= m.filter(f).insert(subnet));
    } else {
        assert(m.insert(subnet).filter(f) =~= m.filter(f));
    }
}

/// A group with a subnet in it is the group of one of the subnets.
pub proof fn lemma_group_has_member(subnets: Seq<SubnetView>, key: (Seq<char>, Seq<char>))
    requires
        group_size(subnets, key) > 0,
    ensures
        exists|k: int| 0 <= k < subnets.len() && group_of(#[trigger] subnets[k]) == key,
    decreases subnets.len(),
{
    if subnets.len() == 0 {
        assert(subnets =~= Seq::empty());
        lemma_group_size_empty(key);
    } else {
        let front = subnets.drop_last();
        assert(subnets =~= front.push(subnets.last()));
        lemma_group_size_push(front, subnets.last(), key);
        if group_of(subnets.last()) == key {
            assert(group_of(subnets[subnets.len() - 1]) == key);
        } else {
            lemma_group_has_member(front, key);
            let k = choose|k: int| 0 <= k < front.len() && group_of(#[trigger] front[k]) == key;
            assert(group_of(subnets[k]) == key);
        }
    }
}

/// `group` put into `listing` before the first group that does not come
/// before it.
pub open spec fn insert_sorted(listing: Seq<GroupView>, group: GroupView) -> Seq<GroupView>
    decreases listing.len(),
{
    if listing.len() == 0 {
        seq![group]
    } else if group_before(listing[0].key(), group.key()) {
        seq![listing[0]] + insert_sorted(listing.drop_first(), group)
    } else {
        seq![group] + listing
    }
}

/// Putting a group into a listing adds the group and nothing else.
pub proof fn lemma_insert_sorted_holds(listing: Seq<GroupView>, group: GroupView)
    ensures
        forall|a: int|
            0 <= a < insert_sorted(listing, group).len() ==> #[trigger] insert_sorted(
                listing,
                group,
            )[a] == group || listing.contains(insert_sorted(listing, group)[a]),
        forall|key: (Seq<char>, Seq<char>)| #[trigger]
            listing_keys(insert_sorted(listing, group)).contains(key) <==> key == group.key()
                || listing_keys(listing).contains(key),
    decreases listing.len(),
{
    let out = insert_sorted(listing, group);
    if listing.len() == 0 {
        assert(listing_keys(out)[0] == group.key());
    } else if group_before(listing[0].key(), group.key()) {
        let tail = listing.drop_first();
        let rest = insert_sorted(tail, group);
        lemma_insert_sorted_holds(tail, group);
        assert forall|a: int| 0 <= a < out.len() implies #[trigger] out[a] == group
            || listing.contains(out[a]) by {
            if a == 0 {
                assert(listing[0] == out[0]);
            } else {
                assert(out[a] == rest[a - 1]);
                if rest[a - 1] != group {
                    let j = tail.index_of(rest[a - 1]);
                    assert(listing[j + 1] == out[a]);
                }
            }
        }
        assert forall|key: (Seq<char>, Seq<char>)| #[trigger]
            listing_keys(out).contains(key) <==> key == group.key() || listing_keys(
                listing,
            ).contains(key) by {
            if listing_keys(out).contains(key) {
                let a = listing_keys(out).index_of(key);
                if a == 0 {
                    assert(listing_keys(listing)[0] == key);
                } else {
                    assert(listing_keys(rest)[a - 1] == key);
                    assert(listing_keys(rest).contains(key));
                    if key != group.key() {
                        let j = listing_keys(tail).index_of(key);
                        assert(listing_keys(listing)[j + 1] == key);
                    }
                }
            }
            if key == group.key() {
                assert(listing_keys(rest).contains(key));
                let j = listing_keys(rest).index_of(key);
                assert(listing_keys(out)[j + 1] == key);
            }
            if listing_keys(listing).contains(key) {
                let j = listing_keys(listing).index_of(key);
                if j == 0 {
                    assert(listing_keys(out)[0] == key);
                } else {
                    assert(listing_keys(tail)[j - 1] == key);
                    assert(listing_keys(rest).contains(key));
                    let i = listing_keys(rest).index_of(key);
                    assert(listing_keys(out)[i + 1] == key);
                }
            }
        }
    } else {
        assert forall|a: int| 0 <= a < out.len() implies #[trigger] out[a] == group
            || listing.contains(out[a]) by {
            if a > 0 {
                assert(listing[a - 1] == out[a]);
            }
        }
        assert forall|key: (Seq<char>, Seq<char>)| #[trigger]
            listing_keys(out).contains(key) <==> key == group.key() || listing_keys(
                listing,
            ).contains(key) by {
            if listing_keys(out).contains(key) {
                let a = listing_keys(out).index_of(key);
                if a > 0 {
                    assert(listing_keys(listing)[a - 1] == key);
                }
            }
            if key == group.key() {
                assert(listing_keys(out)[0] == key);
            }
            if listing_keys(listing).contains(key) {
                let j = listing_keys(listing).index_of(key);
                assert(listing_keys(out)[j + 1] == key);
            }
        }
    }
}

/// Putting a new group into an ascending listing leaves it ascending.
pub proof fn lemma_insert_sorted_ascending(listing: Seq<GroupView>, group: GroupView)
    requires
        ascending(listing_keys(listing)),
        !listing_keys(listing).contains(group.key()),
    ensures
        ascending(listing_keys(insert_sorted(listing, group))),
    decreases listing.len(),
{
    let out = insert_sorted(listing, group);
    let keys = listing_keys(listing);
    let out_keys = listing_keys(out);
    if listing.len() == 0 {
    } else if group_before(listing[0].key(), group.key()) {
        let tail = listing.drop_first();
        let rest = insert_sorted(tail, group);
        let tail_keys = listing_keys(tail);
        assert forall|a: int, b: int| 0 <= a < b < tail_keys.len() implies group_before(
            tail_keys[a],
            tail_keys[b],
        ) by {
            assert(tail_keys[a] == keys[a + 1]);
            assert(tail_keys[b] == keys[b + 1]);
        }
        if tail_keys.contains(group.key()) {
            let j = tail_keys.index_of(group.key());
            assert(keys[j + 1] == group.key());
        }
        lemma_insert_sorted_ascending(tail, group);
        lemma_insert_sorted_holds(tail, group);
        let rest_keys = listing_keys(rest);
        assert forall|a: int, b: int| 0 <= a < b < out_keys.len() implies group_before(
            out_keys[a],
            out_keys[b],
        ) by {
            assert(out_keys[b] == rest_keys[b - 1]);
            if a == 0 {
                assert(out_keys[0] == keys[0]);
                assert(rest_keys.contains(rest_keys[b - 1]));
                if rest_keys[b - 1] != group.key() {
                    let j = tail_keys.index_of(rest_keys[b - 1]);
                    assert(keys[j + 1] == rest_keys[b - 1]);
                }
            } else {
                assert(out_keys[a] == rest_keys[a - 1]);
            }
        }
    } else {
        assert(keys[0] == listing[0].key());
        lemma_group_total(group.key(), keys[0]);
        assert forall|a: int, b: int| 0 <= a < b < out_keys.len() implies group_before(
            out_keys[a],
            out_keys[b],
        ) by {
            assert(out_keys[b] == keys[b - 1]);
            if a == 0 {
                assert(out_keys[0] == group.key());
                if b > 1 {
                    lemma_group_transitive(group.key(), keys[0], keys[b - 1]);
                }
            } else {
                assert(out_keys[a] == keys[a - 1]);
            }
        }
    }
}

/// Every list of subnets has a listing of its crowded groups, and
/// `crowded_groups` is that listing.
pub proof fn lemma_crowded_groups_listed(subnets: Seq<SubnetView>)
    ensures
        is_crowded_listing(subnets, crowded_groups(subnets)),
    decreases subnets.len(),
{
    if subnets.len() == 0 {
        let none = Seq::<GroupView>::empty();
        assert(subnets =~= Seq::empty());
        assert forall|key: (Seq<char>, Seq<char>)| group_size(subnets, key)
            > SUBNETS_PER_ZONE implies #[trigger] listing_keys(none).contains(key) by {
            lemma_group_size_empty(key);
        }
        assert(is_crowded_listing(subnets, none));
    } else {
        let front = subnets.drop_last();
        let last = subnets.last();
        let key = group_of(last);
        assert(subnets =~= front.push(last));
        lemma_crowded_groups_listed(front);
        let listing = crowded_groups(front);
        let keys = listing_keys(listing);
        assert forall|other: (Seq<char>, Seq<char>)| #[trigger]
            group_size(subnets, other) == group_size(front, other) + if other == key {
                1nat
            } else {
                0nat
            } by {
            lemma_group_size_push(front, last, other);
        }
        let size = group_size(subnets, key);
        if size <= SUBNETS_PER_ZONE {
            assert forall|a: int| 0 <= a < listing.len() implies (#[trigger] listing[a]).count
                == group_size(subnets, listing[a].key()) by {
                assert(group_size(front, listing[a].key()) > SUBNETS_PER_ZONE);
            }
            assert forall|other: (Seq<char>, Seq<char>)|
                group_size(subnets, other) > SUBNETS_PER_ZONE implies #[trigger] keys.contains(
                    other,
                ) by {
                assert(group_size(front, other) > SUBNETS_PER_ZONE);
            }
            assert(is_crowded_listing(subnets, listing));
        } else if size == SUBNETS_PER_ZONE + 1 {
            let group = GroupView { vpc_id: key.0, availability_zone: key.1, count: size };
            assert(group.key() == key);
            if keys.contains(key) {
                let a = keys.index_of(key);
                assert(listing[a].key() == key);
                assert(group_size(front, key) > SUBNETS_PER_ZONE);
            }
            let grown = insert_sorted(listing, group);
            lemma_insert_sorted_ascending(listing, group);
            lemma_insert_sorted_holds(listing, group);
            assert forall|a: int| 0 <= a < grown.len() implies (#[trigger] grown[a]).count
                > SUBNETS_PER_ZONE && grown[a].count == group_size(subnets, grown[a].key()) by {
                if grown[a] != group {
                    let j = listing.index_of(grown[a]);
                    assert(keys[j] == listing[j].key());
                    assert(keys.contains(listing[j].key()));
                }
            }
            assert forall|other: (Seq<char>, Seq<char>)|
                group_size(subnets, other) > SUBNETS_PER_ZONE implies #[trigger] listing_keys(
                    grown,
                ).contains(other) by {
                if other != key {
                    assert(group_size(front, other) > SUBNETS_PER_ZONE);
                    assert(keys.contains(other));
                }
            }
            assert(is_crowded_listing(subnets, grown));
        } else {
            assert(group_size(front, key) > SUBNETS_PER_ZONE);
            assert(keys.contains(key));
            let at = keys.index_of(key);
            assert(listing[at].key() == key);
            let group = GroupView { vpc_id: key.0, availability_zone: key.1, count: size };
            let grown = listing.update(at, group);
            assert(listing_keys(grown) =~= keys);
            assert forall|a: int| 0 <= a < grown.len() implies (#[trigger] grown[a]).count
                > SUBNETS_PER_ZONE && grown[a].count == group_size(subnets, grown[a].key()) by {
                if a != at {
                    assert(grown[a] == listing[a]);
                    assert(keys[a] == listing[a].key());
                    if listing[a].key() == key {
                        if a < at {
                            assert(group_before(keys[a], keys[at]));
                        } else {
                            assert(group_before(keys[at], keys[a]));
                        }
                        lemma_group_irreflexive(key);
                    }
                }
            }
            assert forall|other: (Seq<char>, Seq<char>)|
                group_size(subnets, other) > SUBNETS_PER_ZONE implies #[trigger] listing_keys(
                    grown,
                ).contains(other) by {
                if other != key {
                    assert(group_size(front, other) > SUBNETS_PER_ZONE);
                    assert(keys.contains(other));
                }
            }
            assert(is_crowded_listing(subnets, grown));
        }
    }
}

/// Putting the same subnets in another order leaves the listing of the
/// crowded groups as it is.
pub proof fn lemma_crowded_groups_reordered(subnets: Seq<SubnetView>, reordered: Seq<SubnetView>)
    requires
        subnets.to_multiset() == reordered.to_multiset(),
    ensures
        crowded_groups(reordered) == crowded_groups(subnets),
{
    lemma_crowded_groups_listed(subnets);
    let listing = crowded_groups(subnets);
    assert(is_crowded_listing(reordered, listing));
    lemma_crowded_listing_unique(reordered, listing);
}

fn same_group(subnet: &Subnet, vpc_id: &String, zone: &String) -> (same: bool)
    ensures
        same == (group_of(subnet@) == (vpc_id@, zone@)),
{
    subnet.vpc_id == *vpc_id && subnet.availability_zone == *zone
}

fn comes_before(a_vpc: &String, a_zone: &String, b_vpc: &String, b_zone: &String) -> (before: bool)
    ensures
        before == group_before((a_vpc@, a_zone@), (b_vpc@, b_zone@)),
{
    precedes(a_vpc.as_str(), b_vpc.as_str()) || (*a_vpc == *b_vpc && precedes(
        a_zone.as_str(),
        b_zone.as_str(),
    ))
}

/// The number of subnets in the group of `vpc_id` and `zone`.
pub fn count_group(subnets: &Vec<Subnet>, vpc_id: &String, zone: &String) -> (count: usize)
    ensures
        count == group_size(subnet_views(subnets@), (vpc_id@, zone@)),
{
    let ghost sv = subnet_views(subnets@);
    let ghost key = (vpc_id@, zone@);
    let mut count: usize = 0;
    let mut j: usize = 0;
    proof {
        assert(sv.take(0) =~= Seq::empty());
        lemma_group_size_empty(key);
    }
    while j < subnets.len()
        invariant
            j <= subnets.len(),
            sv == subnet_views(subnets@),
            key == (vpc_id@, zone@),
            count <= j,
            count == group_size(sv.take(j as int), key),
        decreases subnets.len() - j,
    {
        proof {
            assert(sv.take(j + 1) =~= sv.take(j as int).push(sv[j as int]));
            lemma_group_size_push(sv.take(j as int), sv[j as int], key);
        }
        if same_group(&subnets[j], vpc_id, zone) {
            count = count + 1;
        }
        j = j + 1;
    }
    assert(sv.take(j as int) =~= sv);
    count
}

/// One of the first `n` subnets is in the group `key`.
pub open spec fn group_seen(subnets: Seq<SubnetView>, n: int, key: (Seq<char>, Seq<char>)) -> bool {
    exists|k: int| 0 <= k < n && k < subnets.len() && group_of(#[trigger] subnets[k]) == key
}

fn seen_before(subnets: &Vec<Subnet>, n: usize, vpc_id: &String, zone: &String) -> (seen: bool)
    requires
        n <= subnets.len(),
    ensures
        seen == group_seen(subnet_views(subnets@), n as int, (vpc_id@, zone@)),
{
    let ghost sv = subnet_views(subnets@);
    let mut k: usize = 0;
    while k < n
        invariant
            k <= n <= subnets.len(),
            sv == subnet_views(subnets@),
            forall|j: int| 0 <= j < k ==> group_of(#[trigger] sv[j]) != (vpc_id@, zone@),
        decreases n - k,
    {
        if same_group(&subnets[k], vpc_id, zone) {
            assert(group_of(sv[k as int]) == (vpc_id@, zone@));
            return true;
        }
        k = k + 1;
    }
    false
}

/// Lists the groups that have more subnets than a zone is expected to have,
/// each once and with its size, ordered by network and then by zone.
pub fn find_crowded_groups(subnets: &Vec<Subnet>) -> (listing: Vec<SubnetGroup>)
    ensures
        is_crowded_listing(subnet_views(subnets@), group_views(listing@)),
        group_views(listing@) == crowded_groups(subnet_views(subnets@)),
{
    let ghost sv = subnet_views(subnets@);
    let mut listing: Vec<SubnetGroup> = Vec::new();
    let mut i: usize = 0;
    while i < subnets.len()
        invariant
            i <= subnets.len(),
            sv == subnet_views(subnets@),
            ascending(listing_keys(group_views(listing@))),
            forall|a: int|
                0 <= a < listing@.len() ==> (#[trigger] group_views(listing@)[a]).count
                    > SUBNETS_PER_ZONE && group_views(listing@)[a].count == group_size(
                    sv,
                    group_views(listing@)[a].key(),
                ),
            forall|a: int|
                0 <= a < listing@.len() ==> group_seen(
                    sv,
                    i as int,
                    #[trigger] listing_keys(group_views(listing@))[a],
                ),
            forall|k: int|
                0 <= k < i && group_size(sv, group_of(#[trigger] sv[k])) > SUBNETS_PER_ZONE
                    ==> listing_keys(group_views(listing@)).contains(group_of(sv[k])),
        decreases subnets.len() - i,
    {
        let vpc_id = &subnets[i].vpc_id;
        let zone = &subnets[i].availability_zone;
        let ghost key = (vpc_id@, zone@);
        let ghost old_views = group_views(listing@);
        let ghost old_keys = listing_keys(old_views);
        assert(group_of(sv[i as int]) == key);
        proof {
            assert forall|a: int| 0 <= a < old_keys.len() implies group_seen(
                sv,
                i + 1,
                #[trigger] old_keys[a],
            ) by {
                assert(group_seen(sv, i as int, old_keys[a]));
                let k = choose|k: int|
                    0 <= k < i && k < sv.len() && group_of(#[trigger] sv[k]) == old_keys[a];
                assert(group_of(sv[k]) == old_keys[a]);
            }
        }
        let seen = seen_before(subnets, i, vpc_id, zone);
        if seen {
            proof {
                let k = choose|k: int| 0 <= k < i && k < sv.len() && group_of(#[trigger] sv[k]) == key;
                assert(group_of(sv[k]) == key);
            }
        } else {
            let count = count_group(subnets, vpc_id, zone);
            if count > SUBNETS_PER_ZONE {
                let mut p: usize = 0;
                while p < listing.len() && comes_before(
                    &listing[p].vpc_id,
                    &listing[p].availability_zone,
                    vpc_id,
                    zone,
                )
                    invariant
                        p <= listing.len(),
                        old_views == group_views(listing@),
                        old_keys == listing_keys(old_views),
                        key == (vpc_id@, zone@),
                        forall|a: int| 0 <= a < p ==> group_before(#[trigger] old_keys[a], key),
                    decreases listing.len() - p,
                {
                    assert(old_keys[p as int] == (
                        listing@[p as int].vpc_id@,
                        listing@[p as int].availability_zone@,
                    ));
                    p = p + 1;
                }
                proof {
                    if p < listing.len() {
                        assert(old_keys[p as int] == (
                            listing@[p as int].vpc_id@,
                            listing@[p as int].availability_zone@,
                        ));
                        assert(group_seen(sv, i as int, old_keys[p as int]));
                        lemma_group_total(key, old_keys[p as int]);
                        assert forall|b: int| p <= b < old_keys.len() implies group_before(
                            key,
                            #[trigger] old_keys[b],
                        ) by {
                            if b > p {
                                lemma_group_transitive(key, old_keys[p as int], old_keys[b]);
                            }
                        }
                    }
                }
                let group = SubnetGroup {
                    vpc_id: vpc_id.clone(),
                    availability_zone: zone.clone(),
                    count,
                };
                listing.insert(p, group);
                proof {
                    let new_views = group_views(listing@);
                    let new_keys = listing_keys(new_views);
                    assert(new_views =~= old_views.insert(p as int, group@));
                    assert(new_keys =~= old_keys.insert(p as int, key));
                    assert forall|a: int, b: int| 0 <= a < b < new_keys.len() implies group_before(
                        new_keys[a],
                        new_keys[b],
                    ) by {
                        if a < p && b > p {
                            assert(new_keys[a] == old_keys[a]);
                            assert(new_keys[b] == old_keys[b - 1]);
                        } else if a < p && b < p {
                            assert(new_keys[a] == old_keys[a]);
                            assert(new_keys[b] == old_keys[b]);
                        } else if a > p {
                            assert(new_keys[a] == old_keys[a - 1]);
                            assert(new_keys[b] == old_keys[b - 1]);
                        } else if a == p {
                            assert(new_keys[b] == old_keys[b - 1]);
                        }
                    }
                    assert forall|a: int| 0 <= a < new_keys.len() implies group_seen(
                        sv,
                        i + 1,
                        #[trigger] new_keys[a],
                    ) by {
                        if a < p {
                            assert(new_keys[a] == old_keys[a]);
                        } else if a > p {
                            assert(new_keys[a] == old_keys[a - 1]);
                        } else {
                            assert(group_of(sv[i as int]) == new_keys[a]);
                        }
                    }
                    assert forall|a: int| 0 <= a < new_views.len() implies (
                    #[trigger] new_views[a]).count > SUBNETS_PER_ZONE && new_views[a].count
                        == group_size(sv, new_views[a].key()) by {
                        if a < p {
                            assert(new_views[a] == old_views[a]);
                        } else if a > p {
                            assert(new_views[a] == old_views[a - 1]);
                        }
                    }
                    assert forall|k: int|
                        0 <= k < i + 1 && group_size(sv, group_of(#[trigger] sv[k]))
                            > SUBNETS_PER_ZONE implies new_keys.contains(group_of(sv[k])) by {
                        if k < i {
                            let a = old_keys.index_of(group_of(sv[k]));
                            if a < p {
                                assert(new_keys[a] == group_of(sv[k]));
                            } else {
                                assert(new_keys[a + 1] == group_of(sv[k]));
                            }
                        } else {
                            assert(new_keys[p as int] == key);
                        }
                    }
                }
            }
        }
        i = i + 1;
    }
    proof {
        let views = group_views(listing@);
        let keys = listing_keys(views);
        assert forall|key: (Seq<char>, Seq<char>)|
            group_size(sv, key) > SUBNETS_PER_ZONE implies #[trigger] keys.contains(key) by {
            lemma_group_has_member(sv, key);
            let k = choose|k: int| 0 <= k < sv.len() && group_of(#[trigger] sv[k]) == key;
            assert(keys.contains(group_of(sv[k])));
        }
        lemma_crowded_listing_unique(sv, views);
    }
    listing
}

} // verus!
