//! Localities and locality-grouped endpoint sets.
//!
//! A `Locality` is a (region, zone, sub-zone) triple. A `LocalityEndpoints`
//! groups a duplicate-free list of endpoints under an optional locality. A
//! `LocalitySet` keeps at most one group per distinct locality value and
//! merges the endpoint sets of groups inserted under an existing locality.

use vstd::prelude::*;

use crate::endpoint::{Endpoint, EpV, eps_view};

verus! {

/// The location of an endpoint: a geographic region, a zone within it, and a
/// sub-zone within the zone. Any of the three may be empty.
#[derive(Debug)]
pub struct Locality {
    pub region: String,
    pub zone: String,
    pub sub_zone: String,
}

/// The mathematical value of a locality: its three labels.
pub type LocalityV = (Seq<char>, Seq<char>, Seq<char>);

/// The key a group of endpoints is filed under: its locality's value, or
/// `None` for endpoints with no locality.
pub type LocKeyV = Option<LocalityV>;

impl View for Locality {
    type V = LocalityV;

    open spec fn view(&self) -> LocalityV {
        (self.region@, self.zone@, self.sub_zone@)
    }
}

/// The key value of an optional locality.
pub open spec fn loc_key(ol: Option<Locality>) -> LocKeyV {
    match ol {
        Some(l) => Some(l@),
        None => None,
    }
}

impl Locality {
    /// A locality from its three labels.
    pub fn new(region: String, zone: String, sub_zone: String) -> (r: Locality)
        ensures
            r@ == (region@, zone@, sub_zone@),
    {
        Locality { region, zone, sub_zone }
    }

    /// Executable value equality of localities.
    pub fn same(&self, other: &Locality) -> (r: bool)
        ensures
            r == (self@ == other@),
    {
        self.region == other.region && self.zone == other.zone && self.sub_zone == other.sub_zone
    }
}

impl Clone for Locality {
    /// A value-equal copy of the locality.
    fn clone(&self) -> (r: Self)
        ensures
            r@ == self@,
    {
        Locality {
            region: self.region.clone(),
            zone: self.zone.clone(),
            sub_zone: self.sub_zone.clone(),
        }
    }
}

/// Executable equality of the keys of two optional localities.
pub fn loc_key_same(a: &Option<Locality>, b: &Option<Locality>) -> (r: bool)
    ensures
        r == (loc_key(*a) == loc_key(*b)),
{
    match (a, b) {
        (None, None) => true,
        (Some(x), Some(y)) => x.same(y),
        _ => false,
    }
}

/// Copy of an optional locality with the same key value.
pub fn copy_opt_locality(a: &Option<Locality>) -> (r: Option<Locality>)
    ensures
        loc_key(r) == loc_key(*a),
{
    match a {
        None => None,
        Some(l) => Some(l.clone()),
    }
}

/// The endpoint values of `s` with duplicates removed, first occurrences kept
/// in order.
pub open spec fn dedup_eps(s: Seq<EpV>) -> Seq<EpV>
    decreases s.len(),
{
    if s.len() == 0 {
        Seq::empty()
    } else {
        let front = dedup_eps(s.drop_last());
        if front.contains(s.last()) {
            front
        } else {
            front.push(s.last())
        }
    }
}

/// `dst` extended, in order, by the values of `src` it does not yet hold.
pub open spec fn merge_eps(dst: Seq<EpV>, src: Seq<EpV>) -> Seq<EpV>
    decreases src.len(),
{
    if src.len() == 0 {
        dst
    } else {
        let m = merge_eps(dst, src.drop_last());
        if m.contains(src.last()) {
            m
        } else {
            m.push(src.last())
        }
    }
}

/// `s` with every occurrence of the value `e` removed, order kept.
pub open spec fn remove_ep(s: Seq<EpV>, e: EpV) -> Seq<EpV>
    decreases s.len(),
{
    if s.len() == 0 {
        s
    } else {
        let front = remove_ep(s.drop_last(), e);
        if s.last() == e {
            front
        } else {
            front.push(s.last())
        }
    }
}

/// Deduplication yields a duplicate-free sequence holding exactly the values
/// of its input.
pub proof fn lemma_dedup_eps(s: Seq<EpV>)
    ensures
        dedup_eps(s).no_duplicates(),
        forall|e: EpV| dedup_eps(s).contains(e) <==> s.contains(e),
    decreases s.len(),
{
    if s.len() > 0 {
        lemma_dedup_eps(s.drop_last());
        let front = dedup_eps(s.drop_last());
        assert forall|e: EpV| dedup_eps(s).contains(e) <==> s.contains(e) by {
            if s.contains(e) {
                let i = choose|i: int| 0 <= i < s.len() && s[i] == e;
                if i < s.len() - 1 {
                    assert(s.drop_last().contains(e)) by {
                        assert(s.drop_last()[i] == e);
                    }
                } else {
                    assert(s.last() == e);
                }
                if front.contains(e) {
                    if !dedup_eps(s).contains(e) {
                        let j = choose|j: int| 0 <= j < front.len() && front[j] == e;
                        assert(dedup_eps(s)[j] == e);
                    }
                } else {
                    assert(dedup_eps(s).last() == s.last());
                }
            }
            if dedup_eps(s).contains(e) {
                let i = choose|i: int| 0 <= i < dedup_eps(s).len() && dedup_eps(s)[i] == e;
                if front.contains(s.last()) {
                    assert(front.contains(e)) by {
                        assert(front[i] == e);
                    }
                    assert(s.drop_last().contains(e));
                    let j = choose|j: int| 0 <= j < s.drop_last().len() && s.drop_last()[j] == e;
                    assert(s[j] == e);
                } else {
                    if i < dedup_eps(s).len() - 1 {
                        assert(front[i] == e);
                        assert(s.drop_last().contains(e));
                        let j = choose|j: int| 0 <= j < s.drop_last().len() && s.drop_last()[j]
                            == e;
                        assert(s[j] == e);
                    } else {
                        assert(e == s.last());
                        assert(s[s.len() - 1] == e);
                    }
                }
            }
        }
    }
}

/// Merging into a duplicate-free sequence yields a duplicate-free sequence
/// holding exactly the union of the two value sets, with `dst` kept as a
/// prefix.
pub proof fn lemma_merge_eps(dst: Seq<EpV>, src: Seq<EpV>)
    requires
        dst.no_duplicates(),
    ensures
        merge_eps(dst, src).no_duplicates(),
        forall|e: EpV| merge_eps(dst, src).contains(e) <==> dst.contains(e) || src.contains(e),
        merge_eps(dst, src).len() >= dst.len(),
        forall|i: int| 0 <= i < dst.len() ==> merge_eps(dst, src)[i] == dst[i],
    decreases src.len(),
{
    if src.len() > 0 {
        lemma_merge_eps(dst, src.drop_last());
        let m = merge_eps(dst, src.drop_last());
        assert forall|e: EpV| merge_eps(dst, src).contains(e) <==> dst.contains(e) || src.contains(
            e,
        ) by {
            if dst.contains(e) || src.contains(e) {
                if src.contains(e) {
                    let i = choose|i: int| 0 <= i < src.len() && src[i] == e;
                    if i < src.len() - 1 {
                        assert(src.drop_last().contains(e)) by {
                            assert(src.drop_last()[i] == e);
                        }
                    }
                }
                if m.contains(e) {
                    let j = choose|j: int| 0 <= j < m.len() && m[j] == e;
                    assert(merge_eps(dst, src)[j] == e);
                } else {
                    assert(e == src.last());
                    assert(merge_eps(dst, src).last() == e);
                }
            }
            if merge_eps(dst, src).contains(e) {
                let i = choose|i: int|
                    0 <= i < merge_eps(dst, src).len() && merge_eps(dst, src)[i] == e;
                if m.contains(src.last()) {
                    assert(m[i] == e);
                    assert(m.contains(e));
                } else {
                    if i < merge_eps(dst, src).len() - 1 {
                        assert(m[i] == e);
                        assert(m.contains(e));
                    } else {
                        assert(e == src.last());
                        assert(src.contains(e)) by {
                            assert(src[src.len() - 1] == e);
                        }
                    }
                }
                if m.contains(e) {
                    assert(dst.contains(e) || src.drop_last().contains(e));
                    if src.drop_last().contains(e) {
                        let j = choose|j: int|
                            0 <= j < src.drop_last().len() && src.drop_last()[j] == e;
                        assert(src[j] == e);
                    }
                }
            }
        }
    }
}

/// Removal yields the same sequence minus every occurrence of the removed
/// value, and keeps duplicate-freedom.
pub proof fn lemma_remove_ep(s: Seq<EpV>, e: EpV)
    ensures
        forall|x: EpV| remove_ep(s, e).contains(x) <==> s.contains(x) && x != e,
        s.no_duplicates() ==> remove_ep(s, e).no_duplicates(),
    decreases s.len(),
{
    if s.len() > 0 {
        lemma_remove_ep(s.drop_last(), e);
        if s.no_duplicates() {
            assert(s.drop_last().no_duplicates());
        }
        let front = remove_ep(s.drop_last(), e);
        assert forall|x: EpV| remove_ep(s, e).contains(x) <==> s.contains(x) && x != e by {
            if s.contains(x) && x != e {
                let i = choose|i: int| 0 <= i < s.len() && s[i] == x;
                if i < s.len() - 1 {
                    assert(s.drop_last().contains(x)) by {
                        assert(s.drop_last()[i] == x);
                    }
                    let j = choose|j: int| 0 <= j < front.len() && front[j] == x;
                    assert(remove_ep(s, e)[j] == x);
                } else {
                    assert(s.last() == x);
                    assert(remove_ep(s, e).last() == x);
                }
            }
            if remove_ep(s, e).contains(x) {
                let i = choose|i: int| 0 <= i < remove_ep(s, e).len() && remove_ep(s, e)[i] == x;
                if s.last() == e {
                    assert(front[i] == x);
                    assert(front.contains(x));
                } else {
                    if i < remove_ep(s, e).len() - 1 {
                        assert(front[i] == x);
                        assert(front.contains(x));
                    } else {
                        assert(x == s.last());
                        assert(s.contains(x)) by {
                            assert(s[s.len() - 1] == x);
                        }
                    }
                }
                if front.contains(x) {
                    assert(s.drop_last().contains(x));
                    let j = choose|j: int| 0 <= j < s.drop_last().len() && s.drop_last()[j] == x;
                    assert(s[j] == x);
                }
            }
        }
        if s.no_duplicates() {
            if s.last() != e {
                assert forall|i: int, j: int|
                    0 <= i < j < remove_ep(s, e).len() implies remove_ep(s, e)[i] != remove_ep(
                    s,
                    e,
                )[j] by {
                    if j == remove_ep(s, e).len() - 1 {
                        assert(remove_ep(s, e)[j] == s.last());
                        assert(front.contains(remove_ep(s, e)[i]));
                        assert(s.drop_last().contains(remove_ep(s, e)[i]));
                        let k = choose|k: int|
                            0 <= k < s.drop_last().len() && s.drop_last()[k] == remove_ep(s, e)[i];
                        assert(s[k] == remove_ep(s, e)[i]);
                        assert(s[k] != s[s.len() - 1]);
                    }
                }
            }
        }
    }
}

/// Whether `v` holds an endpoint with value `e`.
pub fn contains_ep(v: &Vec<Endpoint>, e: &Endpoint) -> (r: bool)
    ensures
        r == eps_view(v@).contains(e@),
{
    let n = v.len();
    let mut i: usize = 0;
    while i < n
        invariant
            n == v.len(),
            0 <= i <= n,
            forall|k: int| 0 <= k < i ==> eps_view(v@)[k] != e@,
        decreases n - i,
    {
        if v[i].same(e) {
            assert(eps_view(v@)[i as int] == e@);
            return true;
        }
        i += 1;
    }
    assert(!eps_view(v@).contains(e@));
    false
}

/// A duplicate-free copy of `src`, first occurrences kept in order.
pub fn dedup_endpoints(src: &Vec<Endpoint>) -> (r: Vec<Endpoint>)
    ensures
        eps_view(r@) == dedup_eps(eps_view(src@)),
{
    let mut out: Vec<Endpoint> = Vec::new();
    let n = src.len();
    let mut i: usize = 0;
    while i < n
        invariant
            n == src.len(),
            0 <= i <= n,
            eps_view(out@) == dedup_eps(eps_view(src@).take(i as int)),
        decreases n - i,
    {
        proof {
            assert(eps_view(src@).take(i + 1 as int).drop_last() =~= eps_view(src@).take(i as int));
            assert(eps_view(src@).take(i + 1 as int).last() == src@[i as int]@);
        }
        if !contains_ep(&out, &src[i]) {
            let c = src[i].clone();
            out.push(c);
            proof {
                assert(eps_view(out@) =~= dedup_eps(eps_view(src@).take(i + 1 as int)));
            }
        }
        i += 1;
    }
    proof {
        assert(eps_view(src@).take(n as int) =~= eps_view(src@));
    }
    out
}

/// Extends `dst` by the endpoints of `src` whose values it does not yet hold.
pub fn merge_endpoints(dst: &mut Vec<Endpoint>, src: &Vec<Endpoint>)
    ensures
        eps_view(final(dst)@) == merge_eps(eps_view(old(dst)@), eps_view(src@)),
{
    let n = src.len();
    let mut i: usize = 0;
    while i < n
        invariant
            n == src.len(),
            0 <= i <= n,
            eps_view(dst@) == merge_eps(eps_view(old(dst)@), eps_view(src@).take(i as int)),
        decreases n - i,
    {
        proof {
            assert(eps_view(src@).take(i + 1 as int).drop_last() =~= eps_view(src@).take(i as int));
            assert(eps_view(src@).take(i + 1 as int).last() == src@[i as int]@);
        }
        if !contains_ep(dst, &src[i]) {
            let c = src[i].clone();
            dst.push(c);
            proof {
                assert(eps_view(dst@) =~= merge_eps(
                    eps_view(old(dst)@),
                    eps_view(src@).take(i + 1 as int),
                ));
            }
        }
        i += 1;
    }
    proof {
        assert(eps_view(src@).take(n as int) =~= eps_view(src@));
    }
}

/// A group of endpoints filed under an optional locality.
#[derive(Debug)]
pub struct LocalityEndpoints {
    pub locality: Option<Locality>,
    pub endpoints: Vec<Endpoint>,
}

/// The mathematical value of a group: its key and its endpoint values.
pub type GroupV = (LocKeyV, Seq<EpV>);

impl View for LocalityEndpoints {
    type V = GroupV;

    open spec fn view(&self) -> GroupV {
        (loc_key(self.locality), eps_view(self.endpoints@))
    }
}

impl LocalityEndpoints {
    /// The group's endpoint list is a set: it holds no duplicate values.
    pub open spec fn wf(self) -> bool {
        eps_view(self.endpoints@).no_duplicates()
    }

    /// A duplicate-free group of the given endpoints with no locality.
    pub fn new(endpoints: Vec<Endpoint>) -> (r: LocalityEndpoints)
        ensures
            r@ == (None::<LocalityV>, dedup_eps(eps_view(endpoints@))),
            r.wf(),
    {
        let deduped = dedup_endpoints(&endpoints);
        proof {
            lemma_dedup_eps(eps_view(endpoints@));
        }
        LocalityEndpoints { locality: None, endpoints: deduped }
    }

    /// The same endpoints filed under the given locality.
    pub fn with_locality(self, locality: Option<Locality>) -> (r: LocalityEndpoints)
        ensures
            r@ == (loc_key(locality), self@.1),
            self.wf() ==> r.wf(),
    {
        LocalityEndpoints { locality, endpoints: self.endpoints }
    }

    /// Removes every endpoint whose value equals `endpoint`'s.
    pub fn remove(&mut self, endpoint: &Endpoint)
        ensures
            final(self)@.0 == old(self)@.0,
            eps_view(final(self).endpoints@) == remove_ep(eps_view(old(self).endpoints@), endpoint@),
            old(self).wf() ==> final(self).wf(),
    {
        let n = self.endpoints.len();
        let mut out: Vec<Endpoint> = Vec::new();
        let mut i: usize = 0;
        while i < n
            invariant
                n == self.endpoints.len(),
                0 <= i <= n,
                eps_view(out@) == remove_ep(eps_view(self.endpoints@).take(i as int), endpoint@),
            decreases n - i,
        {
            proof {
                assert(eps_view(self.endpoints@).take(i + 1 as int).drop_last() =~= eps_view(
                    self.endpoints@,
                ).take(i as int));
                assert(eps_view(self.endpoints@).take(i + 1 as int).last() == self.endpoints@[
                    i as int]@);
            }
            if !self.endpoints[i].same(endpoint) {
                let c = self.endpoints[i].clone();
                out.push(c);
                proof {
                    assert(eps_view(out@) =~= remove_ep(
                        eps_view(self.endpoints@).take(i + 1 as int),
                        endpoint@,
                    ));
                }
            }
            i += 1;
        }
        proof {
            assert(eps_view(self.endpoints@).take(n as int) =~= eps_view(self.endpoints@));
            lemma_remove_ep(eps_view(self.endpoints@), endpoint@);
        }
        self.endpoints = out;
    }
}

impl LocalityEndpoints {
    /// Executable value equality of groups: same locality key and the same
    /// endpoint list.
    pub fn same(&self, other: &LocalityEndpoints) -> (r: bool)
        ensures
            r == (self@ == other@),
    {
        loc_key_same(&self.locality, &other.locality) && eps_same(
            &self.endpoints,
            &other.endpoints,
        )
    }
}

impl Clone for LocalityEndpoints {
    /// A value-equal copy of the group.
    fn clone(&self) -> (r: Self)
        ensures
            r@ == self@,
    {
        let mut endpoints: Vec<Endpoint> = Vec::new();
        let n = self.endpoints.len();
        let mut i: usize = 0;
        while i < n
            invariant
                n == self.endpoints.len(),
                0 <= i <= n,
                eps_view(endpoints@) == eps_view(self.endpoints@).take(i as int),
            decreases n - i,
        {
            let c = self.endpoints[i].clone();
            proof {
                assert(eps_view(self.endpoints@).take(i + 1 as int) =~= eps_view(
                    self.endpoints@,
                ).take(i as int).push(self.endpoints@[i as int]@));
            }
            endpoints.push(c);
            proof {
                assert(eps_view(endpoints@) =~= eps_view(self.endpoints@).take(i + 1 as int));
            }
            i += 1;
        }
        proof {
            assert(eps_view(self.endpoints@).take(n as int) =~= eps_view(self.endpoints@));
        }
        LocalityEndpoints { locality: copy_opt_locality(&self.locality), endpoints }
    }
}

/// Endpoint-list equality as executable code, pinned to view equality.
pub fn eps_same(a: &Vec<Endpoint>, b: &Vec<Endpoint>) -> (r: bool)
    ensures
        r == (eps_view(a@) == eps_view(b@)),
{
    if a.len() != b.len() {
        assert(eps_view(a@).len() != eps_view(b@).len());
        return false;
    }
    let n = a.len();
    let mut i: usize = 0;
    while i < n
        invariant
            n == a.len() == b.len(),
            0 <= i <= n,
            forall|k: int| 0 <= k < i ==> eps_view(a@)[k] == eps_view(b@)[k],
        decreases n - i,
    {
        if !a[i].same(&b[i]) {
            assert(eps_view(a@)[i as int] != eps_view(b@)[i as int]);
            return false;
        }
        i += 1;
    }
    proof {
        assert(eps_view(a@) =~= eps_view(b@));
    }
    true
}

/// The index of the first group filed under `k`, or `-1` if there is none.
pub open spec fn key_index(s: Seq<GroupV>, k: LocKeyV) -> int
    decreases s.len(),
{
    if s.len() == 0 {
        -1
    } else if s[0].0 == k {
        0
    } else {
        let r = key_index(s.drop_first(), k);
        if r < 0 {
            -1
        } else {
            r + 1
        }
    }
}

/// Whether some group is filed under `k`.
pub open spec fn has_key(s: Seq<GroupV>, k: LocKeyV) -> bool {
    exists|i: int| 0 <= i < s.len() && s[i].0 == k
}

/// The endpoint values filed under `k`, or the empty sequence if `k` is
/// absent.
pub open spec fn eps_at(s: Seq<GroupV>, k: LocKeyV) -> Seq<EpV> {
    if key_index(s, k) >= 0 {
        s[key_index(s, k)].1
    } else {
        Seq::empty()
    }
}

/// Inserting a group merges its endpoints into the group already filed under
/// the same key, or appends it (deduplicated) when the key is new.
pub open spec fn insert_group(s: Seq<GroupV>, g: GroupV) -> Seq<GroupV> {
    let i = key_index(s, g.0);
    if i < 0 {
        s.push((g.0, dedup_eps(g.1)))
    } else {
        s.update(i, (s[i].0, merge_eps(s[i].1, g.1)))
    }
}

/// At most one group per key, and each group's endpoint list duplicate-free.
pub open spec fn groups_wf(s: Seq<GroupV>) -> bool {
    &&& forall|i: int, j: int| 0 <= i < j < s.len() ==> s[i].0 != s[j].0
    &&& forall|i: int| 0 <= i < s.len() ==> s[i].1.no_duplicates()
}

/// `key_index` finds the first group filed under `k`, and `-1` exactly when
/// no group is.
pub proof fn lemma_key_index(s: Seq<GroupV>, k: LocKeyV)
    ensures
        key_index(s, k) >= 0 <==> has_key(s, k),
        key_index(s, k) >= 0 ==> key_index(s, k) < s.len() && s[key_index(s, k)].0 == k,
        forall|j: int| 0 <= j < key_index(s, k) ==> s[j].0 != k,
    decreases s.len(),
{
    if s.len() > 0 && s[0].0 != k {
        lemma_key_index(s.drop_first(), k);
        assert forall|i: int| 0 <= i < s.len() && s[i].0 == k implies key_index(s, k) >= 0 by {
            assert(s.drop_first()[i - 1] == s[i]);
            assert(has_key(s.drop_first(), k));
        }
        if key_index(s.drop_first(), k) >= 0 {
            let r = key_index(s.drop_first(), k);
            assert(s[r + 1] == s.drop_first()[r]);
            assert forall|j: int| 0 <= j < key_index(s, k) implies s[j].0 != k by {
                if j > 0 {
                    assert(s.drop_first()[j - 1] == s[j]);
                }
            }
        }
    }
}

/// Insertion preserves well-formedness.
pub proof fn lemma_insert_group_wf(s: Seq<GroupV>, g: GroupV)
    requires
        groups_wf(s),
    ensures
        groups_wf(insert_group(s, g)),
{
    lemma_key_index(s, g.0);
    let i = key_index(s, g.0);
    if i < 0 {
        lemma_dedup_eps(g.1);
        let s2 = insert_group(s, g);
        assert forall|p: int, q: int| 0 <= p < q < s2.len() implies s2[p].0 != s2[q].0 by {
            if q == s2.len() - 1 {
                assert(s2[q].0 == g.0);
                assert(s[p].0 != g.0) by {
                    if s[p].0 == g.0 {
                        assert(has_key(s, g.0));
                    }
                }
            }
        }
    } else {
        lemma_merge_eps(s[i].1, g.1);
    }
}

/// What insertion does, key by key: the inserted key's endpoint set becomes
/// the union of what was filed there and the new group's endpoints; every
/// other key's group is untouched; no key disappears and only the inserted
/// key may appear.
pub proof fn lemma_insert_group_semantics(s: Seq<GroupV>, g: GroupV)
    requires
        groups_wf(s),
    ensures
        forall|k: LocKeyV|
            #![trigger has_key(insert_group(s, g), k)]
            has_key(insert_group(s, g), k) <==> has_key(s, k) || k == g.0,
        forall|k: LocKeyV|
            #![trigger eps_at(insert_group(s, g), k)]
            k != g.0 ==> eps_at(insert_group(s, g), k) == eps_at(s, k),
        forall|e: EpV|
            #![trigger eps_at(insert_group(s, g), g.0).contains(e)]
            eps_at(insert_group(s, g), g.0).contains(e) <==> eps_at(s, g.0).contains(e)
                || g.1.contains(e),
        eps_at(insert_group(s, g), g.0).no_duplicates(),
{
    lemma_key_index(s, g.0);
    let i = key_index(s, g.0);
    let s2 = insert_group(s, g);
    if i < 0 {
        lemma_dedup_eps(g.1);
        assert(s2 =~= s.push((g.0, dedup_eps(g.1))));
        assert forall|k: LocKeyV| has_key(s2, k) <==> has_key(s, k) || k == g.0 by {
            if has_key(s2, k) {
                let p = choose|p: int| 0 <= p < s2.len() && s2[p].0 == k;
                if p < s.len() {
                    assert(s[p].0 == k);
                }
            }
            if has_key(s, k) {
                let p = choose|p: int| 0 <= p < s.len() && s[p].0 == k;
                assert(s2[p].0 == k);
            }
            if k == g.0 {
                assert(s2[s2.len() - 1].0 == k);
            }
        }
        assert forall|k: LocKeyV| k != g.0 implies eps_at(s2, k) == eps_at(s, k) by {
            lemma_key_index(s2, k);
            lemma_key_index(s, k);
            if has_key(s, k) {
                let p = key_index(s, k);
                assert(s2[p].0 == k);
                assert(key_index(s2, k) == p) by {
                    lemma_key_index_prefix(s, s2, k);
                }
            } else {
                if has_key(s2, k) {
                    let p = choose|p: int| 0 <= p < s2.len() && s2[p].0 == k;
                    if p < s.len() {
                        assert(s[p].0 == k);
                    } else {
                        assert(s2[p].0 == g.0);
                    }
                }
            }
        }
        assert(key_index(s2, g.0) == s.len()) by {
            lemma_key_index(s2, g.0);
            assert(s2[s.len() as int].0 == g.0);
            assert(has_key(s2, g.0));
            if key_index(s2, g.0) < s.len() {
                assert(s[key_index(s2, g.0)].0 == g.0);
                assert(has_key(s, g.0));
            }
        }
        assert(eps_at(s2, g.0) == dedup_eps(g.1));
    } else {
        assert(s[i].0 == g.0);
        lemma_merge_eps(s[i].1, g.1);
        assert(s2 =~= s.update(i, (s[i].0, merge_eps(s[i].1, g.1))));
        assert(s2.len() == s.len());
        assert(s2[i].0 == g.0);
        assert forall|k: LocKeyV| has_key(s2, k) <==> has_key(s, k) || k == g.0 by {
            if has_key(s2, k) {
                let p = choose|p: int| 0 <= p < s2.len() && s2[p].0 == k;
                assert(s[p].0 == k);
            }
            if has_key(s, k) {
                let p = choose|p: int| 0 <= p < s.len() && s[p].0 == k;
                assert(s2[p].0 == k);
            }
            if k == g.0 {
                assert(s2[i].0 == k);
            }
        }
        assert forall|k: LocKeyV| k != g.0 implies eps_at(s2, k) == eps_at(s, k) by {
            lemma_key_index(s2, k);
            lemma_key_index(s, k);
            if has_key(s, k) {
                let p = key_index(s, k);
                assert(p != i);
                assert(s2[p].0 == k);
                lemma_key_index_update(s, s2, k);
            } else {
                if has_key(s2, k) {
                    let p = choose|p: int| 0 <= p < s2.len() && s2[p].0 == k;
                    assert(s[p].0 == k);
                }
            }
        }
        assert(key_index(s2, g.0) == i) by {
            lemma_key_index(s2, g.0);
            let p = key_index(s2, g.0);
            assert(s2[p].0 == g.0);
            assert(p >= 0);
            if p != i {
                assert(s[p].0 == g.0);
                assert(s[i].0 == g.0);
                if p < i {
                    assert(s[p].0 != s[i].0);
                } else {
                    assert(s[i].0 != s[p].0);
                }
            }
        }
        assert(eps_at(s2, g.0) == merge_eps(s[i].1, g.1));
        assert(eps_at(s, g.0) == s[i].1);
    }
}

/// Two sequences that agree on the positions up to and including the first
/// occurrence of `k` in the shorter have the same first occurrence of `k`.
proof fn lemma_key_index_prefix(s: Seq<GroupV>, s2: Seq<GroupV>, k: LocKeyV)
    requires
        s.len() <= s2.len(),
        forall|i: int| 0 <= i < s.len() ==> s2[i] == s[i],
        has_key(s, k),
    ensures
        key_index(s2, k) == key_index(s, k),
    decreases s.len(),
{
    lemma_key_index(s, k);
    lemma_key_index(s2, k);
    let p = key_index(s, k);
    assert(s2[p].0 == k);
    assert(has_key(s2, k));
    let q = key_index(s2, k);
    if q < p {
        assert(s[q].0 == k);
    }
    if q > p {
        assert(s2[p].0 != k);
    }
}

/// Updating one position does not move the first occurrence of a key that
/// occurs at a different position.
proof fn lemma_key_index_update(s: Seq<GroupV>, s2: Seq<GroupV>, k: LocKeyV)
    requires
        s.len() == s2.len(),
        has_key(s, k),
        s2[key_index(s, k)] == s[key_index(s, k)],
        forall|j: int| 0 <= j < key_index(s, k) ==> s2[j].0 == s[j].0,
    ensures
        key_index(s2, k) == key_index(s, k),
{
    lemma_key_index(s, k);
    lemma_key_index(s2, k);
    let p = key_index(s, k);
    assert(s2[p].0 == k);
    assert(has_key(s2, k));
    let q = key_index(s2, k);
    if q < p {
        assert(s2[q].0 != k);
    }
    if q > p {
        assert(s2[p].0 != k);
    }
}

/// Inserting two groups that share a locality leaves a single group for that
/// locality, whose endpoint set is the union of what was already filed there
/// and both groups' endpoint sets; every other locality is untouched.
pub proof fn lemma_insert_merges_same_locality(s: Seq<GroupV>, a: GroupV, b: GroupV)
    requires
        groups_wf(s),
        a.0 == b.0,
    ensures
        groups_wf(insert_group(insert_group(s, a), b)),
        has_key(insert_group(insert_group(s, a), b), a.0),
        forall|i: int, j: int|
            0 <= i < j < insert_group(insert_group(s, a), b).len() ==> !(insert_group(
                insert_group(s, a),
                b,
            )[i].0 == a.0 && insert_group(insert_group(s, a), b)[j].0 == a.0),
        forall|e: EpV|
            eps_at(insert_group(insert_group(s, a), b), a.0).contains(e) <==> eps_at(
                s,
                a.0,
            ).contains(e) || a.1.contains(e) || b.1.contains(e),
        forall|k: LocKeyV|
            k != a.0 ==> eps_at(insert_group(insert_group(s, a), b), k) == eps_at(s, k),
{
    let s1 = insert_group(s, a);
    let s2 = insert_group(s1, b);
    lemma_insert_group_wf(s, a);
    lemma_insert_group_semantics(s, a);
    lemma_insert_group_wf(s1, b);
    lemma_insert_group_semantics(s1, b);
    assert(has_key(insert_group(s1, b), b.0));
    assert forall|e: EpV|
        eps_at(s2, a.0).contains(e) <==> eps_at(s, a.0).contains(e) || a.1.contains(e)
            || b.1.contains(e) by {
        assert(eps_at(insert_group(s1, b), b.0).contains(e) <==> eps_at(s1, b.0).contains(e)
            || b.1.contains(e));
        assert(eps_at(insert_group(s, a), a.0).contains(e) <==> eps_at(s, a.0).contains(e)
            || a.1.contains(e));
    }
    assert forall|k: LocKeyV| k != a.0 implies eps_at(s2, k) == eps_at(s, k) by {
        assert(eps_at(insert_group(s, a), k) == eps_at(s, k));
        assert(eps_at(insert_group(s1, b), k) == eps_at(s1, k));
    }
}

/// A set of endpoint groups holding at most one group per distinct locality
/// value. Groups inserted under an existing locality are merged into it.
#[derive(Debug)]
pub struct LocalitySet {
    entries: Vec<LocalityEndpoints>,
}

impl View for LocalitySet {
    type V = Seq<GroupV>;

    closed spec fn view(&self) -> Seq<GroupV> {
        self.entries@.map_values(|le: LocalityEndpoints| le@)
    }
}

/// All the groups of `gs`, inserted in order into `s`.
pub open spec fn insert_all(s: Seq<GroupV>, gs: Seq<GroupV>) -> Seq<GroupV>
    decreases gs.len(),
{
    if gs.len() == 0 {
        s
    } else {
        insert_group(insert_all(s, gs.drop_last()), gs.last())
    }
}

/// The position of the group filed under `key`'s value, if any.
fn find_key(entries: &Vec<LocalityEndpoints>, key: &Option<Locality>) -> (r: Option<usize>)
    ensures
        ({
            let gs = entries@.map_values(|le: LocalityEndpoints| le@);
            match r {
                Some(i) => 0 <= i < gs.len() && key_index(gs, loc_key(*key)) == i,
                None => !has_key(gs, loc_key(*key)),
            }
        }),
{
    let ghost gs = entries@.map_values(|le: LocalityEndpoints| le@);
    let n = entries.len();
    let mut i: usize = 0;
    while i < n
        invariant
            n == entries.len(),
            0 <= i <= n,
            gs == entries@.map_values(|le: LocalityEndpoints| le@),
            forall|j: int| 0 <= j < i ==> gs[j].0 != loc_key(*key),
        decreases n - i,
    {
        if loc_key_same(&entries[i].locality, key) {
            proof {
                assert(gs[i as int].0 == loc_key(*key));
                assert(has_key(gs, loc_key(*key)));
                lemma_key_index(gs, loc_key(*key));
                let p = key_index(gs, loc_key(*key));
                if p < i as int {
                    assert(gs[p].0 != loc_key(*key));
                }
                if p > i as int {
                    assert(gs[i as int].0 != loc_key(*key));
                }
            }
            return Some(i);
        }
        i += 1;
    }
    proof {
        assert(!has_key(gs, loc_key(*key)));
    }
    None
}

impl LocalitySet {
    /// Every locality value appears at most once and every group is
    /// duplicate-free.
    pub open spec fn wf(self) -> bool {
        groups_wf(self@)
    }

    /// An empty set of localities.
    pub fn empty() -> (r: LocalitySet)
        ensures
            r@ == Seq::<GroupV>::empty(),
            r.wf(),
    {
        let r = LocalitySet { entries: Vec::new() };
        proof {
            assert(r@ =~= Seq::<GroupV>::empty());
        }
        r
    }

    /// A set built by inserting the provided groups in order.
    pub fn new(set: Vec<LocalityEndpoints>) -> (r: LocalitySet)
        ensures
            r@ == insert_all(Seq::empty(), set@.map_values(|le: LocalityEndpoints| le@)),
            r.wf(),
    {
        let gs = Ghost(set@.map_values(|le: LocalityEndpoints| le@));
        let mut r = LocalitySet::empty();
        let n = set.len();
        let mut i: usize = 0;
        while i < n
            invariant
                n == set.len(),
                0 <= i <= n,
                gs@ == set@.map_values(|le: LocalityEndpoints| le@),
                r@ == insert_all(Seq::empty(), gs@.take(i as int)),
                r.wf(),
            decreases n - i,
        {
            proof {
                assert(gs@.take(i + 1 as int).drop_last() =~= gs@.take(i as int));
                assert(gs@.take(i + 1 as int).last() == set@[i as int]@);
            }
            let g = set[i].clone();
            r.insert(g);
            i += 1;
        }
        proof {
            assert(gs@.take(n as int) =~= gs@);
        }
        r
    }

    /// Inserts a group of endpoints, merging it into the group already filed
    /// under the same locality if there is one.
    pub fn insert(&mut self, locality: LocalityEndpoints)
        requires
            old(self).wf(),
        ensures
            final(self)@ == insert_group(old(self)@, locality@),
            final(self).wf(),
    {
        let ghost pre = self@;
        proof {
            lemma_insert_group_wf(pre, locality@);
            lemma_key_index(pre, locality@.0);
        }
        match find_key(&self.entries, &locality.locality) {
            Some(i) => {
                let mut entry = self.entries.remove(i);
                merge_endpoints(&mut entry.endpoints, &locality.endpoints);
                self.entries.insert(i, entry);
                proof {
                    assert(self@ =~= insert_group(pre, locality@));
                }
            },
            None => {
                let deduped = LocalityEndpoints::new(locality.endpoints).with_locality(
                    locality.locality,
                );
                self.entries.push(deduped);
                proof {
                    assert(self@ =~= insert_group(pre, locality@));
                }
            },
        }
    }

    /// Removes the group filed under the given locality (or under "no
    /// locality"), returning it if it was present.
    pub fn remove(&mut self, key: &Option<Locality>) -> (r: Option<LocalityEndpoints>)
        requires
            old(self).wf(),
        ensures
            final(self).wf(),
            has_key(old(self)@, loc_key(*key)) ==> (r matches Some(g) && g@ == old(self)@[
                key_index(old(self)@, loc_key(*key))] && final(self)@ == old(self)@.remove(
                key_index(old(self)@, loc_key(*key)),
            )),
            !has_key(old(self)@, loc_key(*key)) ==> r is None && final(self)@ == old(self)@,
    {
        let ghost pre = self@;
        proof {
            lemma_key_index(pre, loc_key(*key));
        }
        match find_key(&self.entries, key) {
            Some(i) => {
                let g = self.entries.remove(i);
                proof {
                    assert(self@ =~= pre.remove(i as int));
                    assert forall|p: int, q: int|
                        0 <= p < q < self@.len() implies self@[p].0 != self@[q].0 by {
                        assert(self@[p] == if p < i as int {
                            pre[p]
                        } else {
                            pre[p + 1]
                        });
                        assert(self@[q] == if q < i as int {
                            pre[q]
                        } else {
                            pre[q + 1]
                        });
                    }
                    assert forall|p: int|
                        0 <= p < self@.len() implies self@[p].1.no_duplicates() by {
                        assert(self@[p] == if p < i as int {
                            pre[p]
                        } else {
                            pre[p + 1]
                        });
                    }
                }
                Some(g)
            },
            None => None,
        }
    }

    /// Removes all localities.
    pub fn clear(&mut self)
        ensures
            final(self)@ == Seq::<GroupV>::empty(),
            final(self).wf(),
    {
        self.entries.clear();
        proof {
            assert(self@ =~= Seq::<GroupV>::empty());
        }
    }

    /// The groups of the set, in their stored order.
    pub fn iter(&self) -> (r: &Vec<LocalityEndpoints>)
        ensures
            r@.map_values(|le: LocalityEndpoints| le@) == self@,
    {
        &self.entries
    }

    /// The groups of the set, mutably. What the caller leaves in the
    /// returned vector is what the set then holds; well-formedness is the
    /// caller's to maintain and is demanded again by the operations that
    /// need it.
    pub fn iter_mut(&mut self) -> (r: &mut Vec<LocalityEndpoints>)
        ensures
            r@.map_values(|le: LocalityEndpoints| le@) == old(self)@,
            final(self)@ == final(r)@.map_values(|le: LocalityEndpoints| le@),
    {
        &mut self.entries
    }

    /// The number of distinct localities in the set.
    pub fn len(&self) -> (r: usize)
        ensures
            r == self@.len(),
    {
        self.entries.len()
    }
}

impl LocalitySet {
    /// Executable value equality of locality sets, group by group in stored
    /// order.
    pub fn same(&self, other: &LocalitySet) -> (r: bool)
        ensures
            r == (self@ == other@),
    {
        if self.entries.len() != other.entries.len() {
            assert(self@.len() != other@.len());
            return false;
        }
        let n = self.entries.len();
        let mut i: usize = 0;
        while i < n
            invariant
                n == self.entries.len() == other.entries.len(),
                0 <= i <= n,
                forall|k: int| 0 <= k < i ==> self@[k] == other@[k],
            decreases n - i,
        {
            if !self.entries[i].same(&other.entries[i]) {
                assert(self@[i as int] != other@[i as int]);
                return false;
            }
            i += 1;
        }
        proof {
            assert(self@ =~= other@);
        }
        true
    }
}

impl Clone for LocalitySet {
    /// A value-equal copy of the set.
    fn clone(&self) -> (r: Self)
        ensures
            r@ == self@,
    {
        let mut entries: Vec<LocalityEndpoints> = Vec::new();
        let n = self.entries.len();
        let mut i: usize = 0;
        while i < n
            invariant
                n == self.entries.len(),
                0 <= i <= n,
                entries@.map_values(|le: LocalityEndpoints| le@) == self@.take(i as int),
            decreases n - i,
        {
            let c = self.entries[i].clone();
            proof {
                assert(self@.take(i + 1 as int) =~= self@.take(i as int).push(
                    self.entries@[i as int]@,
                ));
            }
            entries.push(c);
            proof {
                assert(entries@.map_values(|le: LocalityEndpoints| le@) =~= self@.take(
                    i + 1 as int,
                ));
            }
            i += 1;
        }
        proof {
            assert(self@.take(n as int) =~= self@);
        }
        LocalitySet { entries }
    }
}

} // verus!
