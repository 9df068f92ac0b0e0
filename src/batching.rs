//! Coalescing of partitioned requests: one backing call per distinct
//! partition selector, results handed back in the callers' order.
use vstd::prelude::*;

verus! {

/// Which partitions (shards) a request targets.
#[derive(Clone, Debug)]
pub enum ShardSelector {
    Empty,
    All,
    ShardKey(u64),
    ShardKeys(Vec<u64>),
    ShardId(u32),
}

/// The value of a selector, as compared when requests are coalesced.
pub enum SelectorModel {
    Empty,
    All,
    ShardKey(u64),
    ShardKeys(Seq<u64>),
    ShardId(u32),
}

impl View for ShardSelector {
    type V = SelectorModel;

    open spec fn view(&self) -> SelectorModel {
        match self {
            ShardSelector::Empty => SelectorModel::Empty,
            ShardSelector::All => SelectorModel::All,
            ShardSelector::ShardKey(k) => SelectorModel::ShardKey(*k),
            ShardSelector::ShardKeys(ks) => SelectorModel::ShardKeys(ks@),
            ShardSelector::ShardId(id) => SelectorModel::ShardId(*id),
        }
    }
}

fn same_keys(a: &Vec<u64>, b: &Vec<u64>) -> (r: bool)
    ensures
        r == (a@ == b@),
{
    if a.len() != b.len() {
        return false;
    }
    let mut i: usize = 0;
    while i < a.len()
        invariant
            a@.len() == b@.len(),
            i <= a@.len(),
            forall|j: int| 0 <= j < i ==> a@[j] == b@[j],
        decreases a@.len() - i,
    {
        if a[i] != b[i] {
            return false;
        }
        i = i + 1;
    }
    assert(a@ =~= b@);
    true
}

impl ShardSelector {
    /// Selectors are equal by value.
    pub fn same_as(&self, other: &ShardSelector) -> (r: bool)
        ensures
            r == (self@ == other@),
    {
        match (self, other) {
            (ShardSelector::Empty, ShardSelector::Empty) => true,
            (ShardSelector::All, ShardSelector::All) => true,
            (ShardSelector::ShardKey(a), ShardSelector::ShardKey(b)) => *a == *b,
            (ShardSelector::ShardKeys(a), ShardSelector::ShardKeys(b)) => same_keys(a, b),
            (ShardSelector::ShardId(a), ShardSelector::ShardId(b)) => *a == *b,
            _ => false,
        }
    }
}

impl PartialEq for ShardSelector {
    fn eq(&self, other: &ShardSelector) -> (r: bool)
        ensures
            r == (self@ == other@),
    {
        self.same_as(other)
    }
}

impl vstd::std_specs::cmp::PartialEqSpecImpl for ShardSelector {
    open spec fn obeys_eq_spec() -> bool {
        true
    }

    open spec fn eq_spec(&self, other: &ShardSelector) -> bool {
        self@ == other@
    }
}

/// Where one request landed: its partition group and its place in it.
#[derive(Copy, Clone, Debug, PartialEq, Eq, Structural)]
pub struct Slot {
    pub group: usize,
    pub position: usize,
}

/// Requests grouped by partition. `groups[g]` lists, in input order, the
/// indices of the requests whose selector equals that of `groups[g][0]`;
/// `slots[i]` says where request `i` stands in `groups`.
pub struct Coalescing {
    pub groups: Vec<Vec<usize>>,
    pub slots: Vec<Slot>,
}

impl Coalescing {
    pub open spec fn group(&self, g: int) -> Seq<usize> {
        self.groups@[g]@
    }
}

/// `groups` and `slots` split positions `0..n` into non-empty groups, each
/// in increasing order, and `slots` is the inverse of `groups`.
pub open spec fn is_index_partition(c: Coalescing, n: nat) -> bool {
    &&& c.slots@.len() == n
    &&& forall|g: int| 0 <= g < c.groups@.len() ==> (#[trigger] c.group(g)).len() > 0
    &&& forall|g: int, p: int|
        0 <= g < c.groups@.len() && 0 <= p < c.group(g).len() ==> {
            &&& #[trigger] c.group(g)[p] < n
            &&& c.slots@[c.group(g)[p] as int] == Slot { group: g as usize, position: p as usize }
        }
    &&& forall|g: int, p: int, q: int|
        0 <= g < c.groups@.len() && 0 <= p < q < c.group(g).len() ==> #[trigger] c.group(g)[p]
            < #[trigger] c.group(g)[q]
    &&& forall|i: int|
        0 <= i < n ==> {
            let s = #[trigger] c.slots@[i];
            &&& s.group < c.groups@.len()
            &&& s.position < c.group(s.group as int).len()
            &&& c.group(s.group as int)[s.position as int] == i
        }
}

/// `c` coalesces requests with selectors `keys`: each group holds every
/// request of one selector value, in input order; distinct groups hold
/// distinct values; groups come in order of first appearance.
pub open spec fn is_coalescing(keys: Seq<SelectorModel>, c: Coalescing) -> bool {
    &&& is_index_partition(c, keys.len())
    &&& forall|g: int, p: int|
        0 <= g < c.groups@.len() && 0 <= p < c.group(g).len() ==> keys[#[trigger] c.group(g)[p] as int]
            == keys[c.group(g)[0] as int]
    &&& forall|g: int, h: int|
        0 <= g < h < c.groups@.len() ==> keys[(#[trigger] c.group(g))[0] as int] != keys[(
        #[trigger] c.group(h))[0] as int] && c.group(g)[0] < c.group(h)[0]
}

/// The selector values of a list of selectors.
pub open spec fn selector_values(keys: Seq<ShardSelector>) -> Seq<SelectorModel> {
    keys.map_values(|k: ShardSelector| k@)
}

/// Groups request positions by selector value, in order of first appearance.
pub fn coalesce(keys: &Vec<ShardSelector>) -> (r: Coalescing)
    ensures
        is_coalescing(selector_values(keys@), r),
{
    let ghost ks = selector_values(keys@);
    let n = keys.len();
    let mut c = Coalescing { groups: Vec::new(), slots: Vec::new() };
    let mut i: usize = 0;
    while i < n
        invariant
            n == keys@.len(),
            ks == selector_values(keys@),
            ks.len() == n,
            i <= n,
            is_coalescing(ks.take(i as int), c),
        decreases n - i,
    {
        let mut g: usize = 0;
        let ng = c.groups.len();
        let mut found = false;
        while g < ng && !found
            invariant
                n == keys@.len(),
                i < n,
                ks == selector_values(keys@),
                ks.len() == n,
                ng == c.groups@.len(),
                g <= ng,
                is_coalescing(ks.take(i as int), c),
                found ==> g < ng && ks[c.group(g as int)[0] as int] == ks[i as int],
                forall|h: int| 0 <= h < g ==> ks[(#[trigger] c.group(h))[0] as int] != ks[i as int],
            decreases ng - g + if found { 0int } else { 1int },
        {
            assert(c.group(g as int).len() > 0);
            assert(c.group(g as int)[0] < i);
            let first = c.groups[g][0];
            if keys[first].same_as(&keys[i]) {
                assert(ks[first as int] == keys@[first as int]@ && ks[i as int] == keys@[i as int]@);
                found = true;
            } else {
                assert(ks[first as int] == keys@[first as int]@ && ks[i as int] == keys@[i as int]@);
                g = g + 1;
            }
        }
        let ghost old_c = c;
        let ghost kt = ks.take(i as int + 1);
        assert(ks.take(i as int) =~= kt.take(i as int));
        if found {
            let mut members = c.groups.remove(g);
            let position = members.len();
            members.push(i);
            c.groups.insert(g, members);
            c.slots.push(Slot { group: g, position });
            assert(c.groups@ =~= old_c.groups@.update(g as int, c.groups@[g as int]));
            assert forall|h: int| 0 <= h < c.groups@.len() implies #[trigger] c.group(h) == if h
                == g {
                old_c.group(h).push(i)
            } else {
                old_c.group(h)
            } by {}
        } else {
            let mut members = Vec::new();
            members.push(i);
            c.groups.push(members);
            c.slots.push(Slot { group: ng, position: 0 });
            assert forall|h: int| 0 <= h < c.groups@.len() implies #[trigger] c.group(h) == if h
                == ng {
                seq![i]
            } else {
                old_c.group(h)
            } by {}
        }
        i = i + 1;
    }
    assert(ks.take(n as int) =~= ks);
    c
}

/// The requests of each group, in the group's order.
pub open spec fn distributed<R>(c: Coalescing, requests: Seq<R>) -> Seq<Seq<R>> {
    Seq::new(
        c.groups@.len(),
        |g: int| Seq::new(c.group(g).len(), |p: int| requests[c.group(g)[p] as int]),
    )
}

/// Per-group results put back in request order.
pub open spec fn realigned<T>(c: Coalescing, results: Seq<Seq<T>>) -> Seq<T> {
    Seq::new(
        c.slots@.len(),
        |i: int| results[c.slots@[i].group as int][c.slots@[i].position as int],
    )
}

/// Each group received exactly one result per request.
pub open spec fn fits_groups<T>(c: Coalescing, results: Seq<Seq<T>>) -> bool {
    &&& results.len() == c.groups@.len()
    &&& forall|g: int| 0 <= g < results.len() ==> (#[trigger] results[g]).len() == c.group(g).len()
}

/// Moves each request into the bucket of its group, keeping input order
/// within a bucket.
pub fn distribute<R>(c: &Coalescing, requests: Vec<R>) -> (r: Vec<Vec<R>>)
    requires
        is_index_partition(*c, requests@.len()),
    ensures
        r@.len() == c.groups@.len(),
        forall|g: int| 0 <= g < r@.len() ==> (#[trigger] r@[g])@ == distributed(*c, requests@)[g],
{
    let ghost orig = requests@;
    let n = requests.len();
    let mut requests = requests;
    let mut pending: Vec<Option<R>> = Vec::new();
    while requests.len() > 0
        invariant
            pending@.len() + requests@.len() == n,
            orig.len() == n,
            forall|j: int| 0 <= j < pending@.len() ==> #[trigger] pending@[j] == Some(orig[j]),
            requests@ == orig.subrange(pending@.len() as int, n as int),
        decreases requests@.len(),
    {
        let item = requests.remove(0);
        pending.push(Some(item));
    }
    let mut buckets: Vec<Vec<R>> = Vec::new();
    let ng = c.groups.len();
    let mut g: usize = 0;
    while g < ng
        invariant
            is_index_partition(*c, n as nat),
            orig.len() == n,
            ng == c.groups@.len(),
            g <= ng,
            pending@.len() == n,
            forall|j: int|
                0 <= j < n ==> #[trigger] pending@[j] == if c.slots@[j].group < g {
                    None
                } else {
                    Some(orig[j])
                },
            buckets@.len() == g,
            forall|h: int| 0 <= h < g ==> (#[trigger] buckets@[h])@ == distributed(*c, orig)[h],
        decreases ng - g,
    {
        let mut bucket: Vec<R> = Vec::new();
        let len = c.groups[g].len();
        let mut p: usize = 0;
        while p < len
            invariant
                is_index_partition(*c, n as nat),
                orig.len() == n,
                ng == c.groups@.len(),
                g < ng,
                len == c.group(g as int).len(),
                p <= len,
                pending@.len() == n,
                forall|j: int|
                    0 <= j < n ==> #[trigger] pending@[j] == if c.slots@[j].group < g || (
                    c.slots@[j].group == g && c.slots@[j].position < p) {
                        None
                    } else {
                        Some(orig[j])
                    },
                bucket@ == distributed(*c, orig)[g as int].take(p as int),
            decreases len - p,
        {
            let idx = c.groups[g][p];
            assert(c.group(g as int)[p as int] == idx);
            let item = pending.remove(idx);
            pending.insert(idx, None);
            let ghost before = bucket@;
            match item {
                Some(x) => {
                    bucket.push(x);
                },
                None => {
                    assert(false);
                },
            }
            assert(bucket@ =~= distributed(*c, orig)[g as int].take(p as int + 1));
            p = p + 1;
        }
        assert(bucket@ =~= distributed(*c, orig)[g as int]);
        buckets.push(bucket);
        g = g + 1;
    }
    buckets
}

/// The contents of each inner vector.
pub open spec fn nested_views<T>(v: Seq<Vec<T>>) -> Seq<Seq<T>> {
    Seq::new(v.len(), |i: int| v[i]@)
}

/// Puts per-group results back in request order: result `i` is the one at
/// request `i`'s slot. A group that came back with a different number of
/// results than it had requests gives `None`.
pub fn realign<T>(c: &Coalescing, results: Vec<Vec<T>>) -> (r: Option<Vec<T>>)
    requires
        is_index_partition(*c, c.slots@.len()),
    ensures
        r is Some <==> fits_groups(*c, nested_views(results@)),
        r matches Some(out) ==> out@ == realigned(*c, nested_views(results@)),
{
    let ghost orig = nested_views(results@);
    let n = c.slots.len();
    let ng = c.groups.len();
    if results.len() != ng {
        return None;
    }
    let mut remaining = results;
    let mut held: Vec<Vec<Option<T>>> = Vec::new();
    while remaining.len() > 0
        invariant
            held@.len() + remaining@.len() == ng,
            orig == nested_views(results@),
            orig.len() == ng,
            ng == c.groups@.len(),
            forall|h: int| 0 <= h < held@.len() ==> (#[trigger] held@[h])@.len() == c.group(h).len(),
            forall|h: int| 0 <= h < held@.len() ==> (#[trigger] orig[h]).len() == c.group(h).len(),
            forall|h: int, p: int|
                0 <= h < held@.len() && 0 <= p < held@[h]@.len() ==> #[trigger] held@[h]@[p] == Some(
                    orig[h][p],
                ),
            forall|h: int| 0 <= h < remaining@.len() ==> (#[trigger] remaining@[h])@ == orig[h + held@.len()],
        decreases remaining@.len(),
    {
        let h = held.len();
        let mut group = remaining.remove(0);
        if group.len() != c.groups[h].len() {
            assert(orig[h as int].len() != c.group(h as int).len());
            return None;
        }
        let glen = group.len();
        let mut slots_of_group: Vec<Option<T>> = Vec::new();
        while group.len() > 0
            invariant
                slots_of_group@.len() + group@.len() == glen,
                glen == orig[h as int].len(),
                forall|p: int| 0 <= p < slots_of_group@.len() ==> #[trigger] slots_of_group@[p] == Some(
                    orig[h as int][p],
                ),
                group@ == orig[h as int].subrange(slots_of_group@.len() as int, glen as int),
            decreases group@.len(),
        {
            let x = group.remove(0);
            slots_of_group.push(Some(x));
        }
        held.push(slots_of_group);
    }
    assert(fits_groups(*c, orig));
    let mut out: Vec<T> = Vec::new();
    let mut i: usize = 0;
    while i < n
        invariant
            is_index_partition(*c, n as nat),
            n == c.slots@.len(),
            ng == c.groups@.len(),
            fits_groups(*c, orig),
            orig == nested_views(results@),
            i <= n,
            held@.len() == ng,
            forall|h: int| 0 <= h < ng ==> (#[trigger] held@[h])@.len() == c.group(h).len(),
            forall|h: int, p: int|
                0 <= h < ng && 0 <= p < c.group(h).len() ==> #[trigger] held@[h]@[p] == if c.group(
                    h,
                )[p] < i {
                    None
                } else {
                    Some(orig[h][p])
                },
            out@ == realigned(*c, orig).take(i as int),
        decreases n - i,
    {
        let slot = c.slots[i];
        let g = slot.group;
        let p = slot.position;
        let ghost held_before = held@;
        let mut group = held.remove(g);
        let item = group.remove(p);
        group.insert(p, None);
        let ghost new_group = group;
        held.insert(g, group);
        assert(held@ =~= held_before.update(g as int, new_group));
        assert(held_before[g as int]@[p as int] == Some(orig[g as int][p as int]));
        match item {
            Some(x) => {
                out.push(x);
            },
            None => {
                assert(false);
            },
        }
        assert forall|h: int, q: int| 0 <= h < ng && 0 <= q < c.group(h).len() implies #[trigger] held@[h]@[q]
            == if c.group(h)[q] < i + 1 {
            None
        } else {
            Some(orig[h][q])
        } by {
            if c.group(h)[q] == i {
                assert(c.slots@[i as int] == Slot { group: h as usize, position: q as usize });
            }
        }
        assert(out@ =~= realigned(*c, orig).take(i as int + 1));
        i = i + 1;
    }
    assert(out@ =~= realigned(*c, orig));
    Some(out)
}

/// Batching is transparent: when each partition's backing call answers its
/// bucket request by request, in order, with `f`, putting the answers back
/// in request order gives `f` of each request in the original order.
pub proof fn lemma_batching_preserves_order<R, T>(
    keys: Seq<SelectorModel>,
    c: Coalescing,
    requests: Seq<R>,
    results: Seq<Seq<T>>,
    f: spec_fn(R) -> T,
)
    requires
        is_coalescing(keys, c),
        requests.len() == keys.len(),
        results.len() == c.groups@.len(),
        forall|g: int|
            0 <= g < results.len() ==> #[trigger] results[g] == distributed(c, requests)[g].map_values(
                f,
            ),
    ensures
        fits_groups(c, results),
        realigned(c, results) == requests.map_values(f),
{
    assert forall|g: int| 0 <= g < results.len() implies (#[trigger] results[g]).len()
        == c.group(g).len() by {
        assert(results[g] == distributed(c, requests)[g].map_values(f));
    }
    assert forall|i: int| 0 <= i < requests.len() implies #[trigger] realigned(c, results)[i]
        == requests.map_values(f)[i] by {
        let s = c.slots@[i];
        assert(results[s.group as int] == distributed(c, requests)[s.group as int].map_values(f));
    }
    assert(realigned(c, results) =~= requests.map_values(f));
}

/// Requests with equal selectors share one group, and so one backing call,
/// wherever they stand in the input.
pub proof fn lemma_equal_selectors_share_group(keys: Seq<SelectorModel>, c: Coalescing, i: int, j: int)
    requires
        is_coalescing(keys, c),
        0 <= i < keys.len(),
        0 <= j < keys.len(),
        keys[i] == keys[j],
    ensures
        c.slots@[i].group == c.slots@[j].group,
{
    let si = c.slots@[i];
    let sj = c.slots@[j];
    assert(keys[c.group(si.group as int)[si.position as int] as int] == keys[c.group(
        si.group as int,
    )[0] as int]);
    assert(keys[c.group(sj.group as int)[sj.position as int] as int] == keys[c.group(
        sj.group as int,
    )[0] as int]);
    if si.group < sj.group {
        assert(keys[c.group(si.group as int)[0] as int] != keys[c.group(sj.group as int)[0] as int]);
    } else if sj.group < si.group {
        assert(keys[c.group(sj.group as int)[0] as int] != keys[c.group(si.group as int)[0] as int]);
    }
}

/// No group is empty, so no backing call is made for an empty bucket; an
/// empty input gives no groups at all, and there are never more groups
/// than requests.
pub proof fn lemma_no_empty_groups(keys: Seq<SelectorModel>, c: Coalescing)
    requires
        is_coalescing(keys, c),
    ensures
        forall|g: int| 0 <= g < c.groups@.len() ==> (#[trigger] c.group(g)).len() > 0,
        c.groups@.len() <= keys.len(),
{
    // the first members of the groups are distinct positions below keys.len()
    assert forall|g: int| 0 <= g < c.groups@.len() implies (#[trigger] c.group(g))[0] >= g by {
        lemma_first_members_grow(keys, c, g);
    }
    if c.groups@.len() > keys.len() {
        let last = keys.len() as int;
        assert(c.group(last).len() > 0);
        assert(c.group(last)[0] >= last);
        assert(c.group(last)[0] < keys.len());
    }
}

proof fn lemma_first_members_grow(keys: Seq<SelectorModel>, c: Coalescing, g: int)
    requires
        is_coalescing(keys, c),
        0 <= g < c.groups@.len(),
    ensures
        c.group(g)[0] >= g,
    decreases g,
{
    assert(c.group(g).len() > 0);
    if g > 0 {
        lemma_first_members_grow(keys, c, g - 1);
        assert(c.group(g - 1)[0] < c.group(g)[0]);
    }
}

} // verus!
