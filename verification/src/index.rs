use vstd::prelude::*;
use std::collections::{HashMap, HashSet};

use crate::types::{ItemId, UserId};

verus! {

broadcast use vstd::std_specs::hash::group_hash_axioms;

/// The positions `i` of `keys` with `keys[i] == k`, in increasing order.
pub open spec fn positions_of(keys: Seq<u32>, k: u32) -> Seq<usize>
    decreases keys.len(),
{
    if keys.len() == 0 {
        Seq::empty()
    } else {
        let earlier = positions_of(keys.drop_last(), k);
        if keys.last() == k {
            earlier.push((keys.len() - 1) as usize)
        } else {
            earlier
        }
    }
}

/// The distinct values of `keys`, in order of first appearance.
pub open spec fn distinct_keys(keys: Seq<u32>) -> Seq<u32>
    decreases keys.len(),
{
    if keys.len() == 0 {
        Seq::empty()
    } else {
        let earlier = distinct_keys(keys.drop_last());
        if keys.drop_last().contains(keys.last()) {
            earlier
        } else {
            earlier.push(keys.last())
        }
    }
}

proof fn lemma_push_contains(s: Seq<usize>, x: usize, y: usize)
    ensures
        s.push(x).contains(y) <==> s.contains(y) || x == y,
{
    if s.push(x).contains(y) {
        let j = choose|j: int| 0 <= j < s.push(x).len() && s.push(x)[j] == y;
        if j < s.len() {
            assert(s[j] == y);
        }
    }
    if s.contains(y) {
        let j = choose|j: int| 0 <= j < s.len() && s[j] == y;
        assert(s.push(x)[j] == y);
    }
    if x == y {
        assert(s.push(x)[s.len() as int] == y);
    }
}

/// A position is listed under a key exactly when the key stands there.
pub proof fn lemma_positions_of(keys: Seq<u32>, k: u32, p: usize)
    requires
        keys.len() <= usize::MAX,
    ensures
        positions_of(keys, k).contains(p) <==> (p < keys.len() && keys[p as int] == k),
    decreases keys.len(),
{
    if keys.len() > 0 {
        lemma_positions_of(keys.drop_last(), k, p);
        let earlier = positions_of(keys.drop_last(), k);
        if keys.last() == k {
            lemma_push_contains(earlier, (keys.len() - 1) as usize, p);
        }
        if p < keys.len() - 1 {
            assert(keys.drop_last()[p as int] == keys[p as int]);
        }
    }
}

/// Every position listed under a key is a position of `keys`.
pub proof fn lemma_positions_below(keys: Seq<u32>, k: u32)
    requires
        keys.len() <= usize::MAX,
    ensures
        forall|j: int|
            0 <= j < positions_of(keys, k).len() ==> (#[trigger] positions_of(keys, k)[j])
                < keys.len(),
    decreases keys.len(),
{
    if keys.len() > 0 {
        lemma_positions_below(keys.drop_last(), k);
        let e = positions_of(keys.drop_last(), k);
        assert forall|j: int| 0 <= j < positions_of(keys, k).len() implies (#[trigger] positions_of(
            keys,
            k,
        )[j]) < keys.len() by {
            if j < e.len() {
                assert(positions_of(keys, k)[j] == e[j]);
            }
        }
    }
}

/// The ratings of a rating log grouped by user and by movie: for each user (movie)
/// the positions of its ratings in the log, in log order.
#[derive(Clone, Debug)]
pub struct RatingIndex {
    users: Vec<UserId>,
    items: Vec<ItemId>,
    user_order: Vec<UserId>,
    item_order: Vec<ItemId>,
    by_user: HashMap<UserId, Vec<usize>>,
    by_item: HashMap<ItemId, Vec<usize>>,
}

/// `groups` holds, for every key of `keys` and for nothing else, the positions of
/// that key; `order` lists the keys in order of first appearance.
pub open spec fn groups_of(keys: Seq<u32>, order: Seq<u32>, groups: Map<u32, Vec<usize>>) -> bool {
    &&& order == distinct_keys(keys)
    &&& forall|k: u32| #[trigger] groups.contains_key(k) <==> keys.contains(k)
    &&& forall|k: u32| #[trigger] groups.contains_key(k) ==> groups[k]@ == positions_of(keys, k)
}

fn group_positions(keys: &Vec<u32>) -> (res: (Vec<u32>, HashMap<u32, Vec<usize>>))
    ensures
        groups_of(keys@, res.0@, res.1@),
{
    let ghost n = keys.len();
    let mut order: Vec<u32> = Vec::new();
    let mut groups: HashMap<u32, Vec<usize>> = HashMap::new();
    for i in 0..keys.len()
        invariant
            groups_of(keys@.take(i as int), order@, groups@),
            n == keys@.len(),
            n <= usize::MAX,
    {
        let k = keys[i];
        let ghost prefix = keys@.take(i as int);
        let ghost next = keys@.take(i + 1);
        assert(next.drop_last() =~= prefix);
        assert(next.last() == k);
        assert(forall|x: u32| #[trigger] next.contains(x) <==> prefix.contains(x) || x == k) by {
            assert forall|x: u32| #[trigger] next.contains(x) implies prefix.contains(x) || x == k by {
                let j = choose|j: int| 0 <= j < next.len() && next[j] == x;
                if j < i {
                    assert(prefix[j] == x);
                }
            }
            assert forall|x: u32| prefix.contains(x) implies #[trigger] next.contains(x) by {
                let j = choose|j: int| 0 <= j < prefix.len() && prefix[j] == x;
                assert(next[j] == x);
            }
            assert(next[i as int] == k);
        }
        assert(forall|x: u32| x != k ==> positions_of(next, x) == positions_of(prefix, x));
        match groups.remove(&k) {
            Some(mut v) => {
                assert(prefix.contains(k));
                v.push(i);
                groups.insert(k, v);
            },
            None => {
                assert(!prefix.contains(k));
                assert(positions_of(prefix, k) =~= Seq::<usize>::empty()) by {
                    lemma_positions_below(prefix, k);
                    if positions_of(prefix, k).len() > 0 {
                        let p = positions_of(prefix, k)[0];
                        lemma_positions_of(prefix, k, p);
                    }
                }
                let mut v: Vec<usize> = Vec::new();
                v.push(i);
                groups.insert(k, v);
                order.push(k);
            },
        }
    }
    assert(keys@.take(keys.len() as int) =~= keys@);
    (order, groups)
}

/// A copy of a vector of positions.
fn copy_positions(v: &Vec<usize>) -> (out: Vec<usize>)
    ensures
        out@ == v@,
{
    let mut out: Vec<usize> = Vec::new();
    for i in 0..v.len()
        invariant
            out@ == v@.take(i as int),
    {
        out.push(v[i]);
        assert(v@.take(i + 1) =~= v@.take(i as int).push(v@[i as int]));
    }
    assert(v@.take(v.len() as int) =~= v@);
    out
}

impl RatingIndex {
    /// The index is built from the log it indexes.
    pub closed spec fn well_formed(&self) -> bool {
        &&& self.users@.len() == self.items@.len()
        &&& self.users@.len() <= usize::MAX
        &&& groups_of(self.users@, self.user_order@, self.by_user@)
        &&& groups_of(self.items@, self.item_order@, self.by_item@)
    }

    /// The user of each rating of the log, in log order.
    pub closed spec fn user_log(&self) -> Seq<UserId> {
        self.users@
    }

    /// The movie of each rating of the log, in log order.
    pub closed spec fn item_log(&self) -> Seq<ItemId> {
        self.items@
    }

    /// Groups a rating log, given as the user and the movie of each rating.
    pub fn new(users: Vec<UserId>, items: Vec<ItemId>) -> (index: Self)
        requires
            users@.len() == items@.len(),
        ensures
            index.well_formed(),
            index.user_log() == users@,
            index.item_log() == items@,
    {
        let n = users.len();
        assert(users@.len() <= usize::MAX);
        let (user_order, by_user) = group_positions(&users);
        let (item_order, by_item) = group_positions(&items);
        RatingIndex { users, items, user_order, item_order, by_user, by_item }
    }

    /// The distinct users of the log, in order of first appearance.
    pub fn user_ids(&self) -> (ids: Vec<UserId>)
        requires
            self.well_formed(),
        ensures
            ids@ == distinct_keys(self.user_log()),
    {
        self.user_order.clone()
    }

    /// The distinct movies of the log, in order of first appearance.
    pub fn item_ids(&self) -> (ids: Vec<ItemId>)
        requires
            self.well_formed(),
        ensures
            ids@ == distinct_keys(self.item_log()),
    {
        self.item_order.clone()
    }

    /// The positions in the log of the ratings of a user, in log order.
    pub fn user_positions(&self, user_id: UserId) -> (pos: Vec<usize>)
        requires
            self.well_formed(),
        ensures
            pos@ == positions_of(self.user_log(), user_id),
    {
        match self.by_user.get(&user_id) {
            Some(v) => copy_positions(v),
            None => {
                proof {
                    lemma_no_positions(self.users@, user_id);
                }
                Vec::new()
            },
        }
    }

    /// The positions in the log of the ratings of a movie, in log order.
    pub fn item_positions(&self, item_id: ItemId) -> (pos: Vec<usize>)
        requires
            self.well_formed(),
        ensures
            pos@ == positions_of(self.item_log(), item_id),
    {
        match self.by_item.get(&item_id) {
            Some(v) => copy_positions(v),
            None => {
                proof {
                    lemma_no_positions(self.items@, item_id);
                }
                Vec::new()
            },
        }
    }

    /// The number of ratings a user gave.
    pub fn user_count(&self, user_id: UserId) -> (n: usize)
        requires
            self.well_formed(),
        ensures
            n == positions_of(self.user_log(), user_id).len(),
    {
        match self.by_user.get(&user_id) {
            Some(v) => v.len(),
            None => {
                proof {
                    lemma_no_positions(self.users@, user_id);
                }
                0
            },
        }
    }

    /// The number of ratings a movie received.
    pub fn item_count(&self, item_id: ItemId) -> (n: usize)
        requires
            self.well_formed(),
        ensures
            n == positions_of(self.item_log(), item_id).len(),
    {
        match self.by_item.get(&item_id) {
            Some(v) => v.len(),
            None => {
                proof {
                    lemma_no_positions(self.items@, item_id);
                }
                0
            },
        }
    }

    /// The movies a user has rated.
    pub fn user_seen(&self, user_id: UserId) -> (seen: HashSet<ItemId>)
        requires
            self.well_formed(),
        ensures
            forall|m: ItemId|
                #[trigger] seen@.contains(m) <==> exists|i: int|
                    0 <= i < self.user_log().len() && self.user_log()[i] == user_id
                        && self.item_log()[i] == m,
    {
        let pos = self.user_positions(user_id);
        let mut seen: HashSet<ItemId> = HashSet::new();
        proof {
            lemma_positions_below(self.users@, user_id);
        }
        for j in 0..pos.len()
            invariant
                self.well_formed(),
                pos@ == positions_of(self.users@, user_id),
                forall|p: int| 0 <= p < pos@.len() ==> (#[trigger] pos@[p]) < self.users@.len(),
                forall|m: ItemId|
                    #[trigger] seen@.contains(m) <==> exists|p: int|
                        0 <= p < j && self.items@[pos@[p] as int] == m,
        {
            let p = pos[j];
            seen.insert(self.items[p]);
        }
        assert forall|m: ItemId| #[trigger] seen@.contains(m) <==> exists|i: int|
            0 <= i < self.users@.len() && self.users@[i] == user_id && self.items@[i] == m by {
            if seen@.contains(m) {
                let p = choose|p: int| 0 <= p < pos@.len() && self.items@[pos@[p] as int] == m;
                lemma_positions_of(self.users@, user_id, pos@[p]);
                assert(pos@.contains(pos@[p]));
            }
            if exists|i: int|
                0 <= i < self.users@.len() && self.users@[i] == user_id && self.items@[i] == m {
                let i = choose|i: int|
                    0 <= i < self.users@.len() && self.users@[i] == user_id && self.items@[i]
                        == m;
                lemma_positions_of(self.users@, user_id, i as usize);
                let p = choose|p: int| 0 <= p < pos@.len() && pos@[p] == i as usize;
                assert(self.items@[pos@[p] as int] == m);
            }
        }
        seen
    }
}

/// The catalogue ids a user has not rated, in the given order.
pub open spec fn unseen_spec(ids: Seq<ItemId>, seen: Set<ItemId>) -> Seq<ItemId>
    decreases ids.len(),
{
    if ids.len() == 0 {
        Seq::empty()
    } else if seen.contains(ids.last()) {
        unseen_spec(ids.drop_last(), seen)
    } else {
        unseen_spec(ids.drop_last(), seen).push(ids.last())
    }
}

/// No id of the unseen candidates is a seen one, and each is one of the ids.
pub proof fn lemma_unseen_excludes_seen(ids: Seq<ItemId>, seen: Set<ItemId>)
    ensures
        forall|j: int| 0 <= j < unseen_spec(ids, seen).len() ==> !seen.contains(
            #[trigger] unseen_spec(ids, seen)[j],
        ) && ids.contains(unseen_spec(ids, seen)[j]),
    decreases ids.len(),
{
    if ids.len() > 0 {
        lemma_unseen_excludes_seen(ids.drop_last(), seen);
        let e = unseen_spec(ids.drop_last(), seen);
        assert forall|j: int| 0 <= j < unseen_spec(ids, seen).len() implies !seen.contains(
            #[trigger] unseen_spec(ids, seen)[j],
        ) && ids.contains(unseen_spec(ids, seen)[j]) by {
            if j < e.len() {
                assert(unseen_spec(ids, seen)[j] == e[j]);
                let k = choose|k: int| 0 <= k < ids.drop_last().len() && ids.drop_last()[k] == e[j];
                assert(ids[k] == e[j]);
            } else {
                assert(ids[ids.len() - 1] == ids.last());
            }
        }
    }
}

/// Every id that is not seen is a candidate: the candidates are exactly the ids
/// (of `ids`) that are not in `seen`.
pub proof fn lemma_unseen_complete(ids: Seq<ItemId>, seen: Set<ItemId>)
    ensures
        forall|x: ItemId|
            #[trigger] unseen_spec(ids, seen).contains(x) <==> (ids.contains(x) && !seen.contains(x)),
        forall|j: int|
            0 <= j < ids.len() && !seen.contains(#[trigger] ids[j]) ==> unseen_spec(ids, seen).contains(ids[j]),
    decreases ids.len(),
{
    lemma_unseen_excludes_seen(ids, seen);
    if ids.len() > 0 {
        let init = ids.drop_last();
        lemma_unseen_complete(init, seen);
        let e = unseen_spec(init, seen);
        let u = unseen_spec(ids, seen);
        assert forall|x: ItemId| ids.contains(x) && !seen.contains(x) implies #[trigger] u.contains(x) by {
            let j = choose|j: int| 0 <= j < ids.len() && ids[j] == x;
            if j < ids.len() - 1 {
                assert(init[j] == x);
                assert(e.contains(x));
                let k = choose|k: int| 0 <= k < e.len() && e[k] == x;
                if !seen.contains(ids.last()) {
                    assert(u[k] == x);
                }
            } else {
                assert(ids.last() == x);
                assert(u[e.len() as int] == x);
            }
        }
        assert forall|x: ItemId| #[trigger] u.contains(x) implies ids.contains(x) && !seen.contains(x) by {
            let k = choose|k: int| 0 <= k < u.len() && u[k] == x;
        }
    }
}

/// The candidates for recommendation: the catalogue ids the user has not rated.
pub fn unseen_items(ids: &Vec<ItemId>, seen: &HashSet<ItemId>) -> (candidates: Vec<ItemId>)
    ensures
        candidates@ == unseen_spec(ids@, seen@),
        forall|x: ItemId|
            #[trigger] candidates@.contains(x) <==> (ids@.contains(x) && !seen@.contains(x)),
{
    proof {
        lemma_unseen_complete(ids@, seen@);
    }
    let mut out: Vec<ItemId> = Vec::new();
    for i in 0..ids.len()
        invariant
            out@ == unseen_spec(ids@.take(i as int), seen@),
    {
        assert(ids@.take(i + 1).drop_last() =~= ids@.take(i as int));
        if !seen.contains(&ids[i]) {
            out.push(ids[i]);
        }
    }
    assert(ids@.take(ids.len() as int) =~= ids@);
    out
}

proof fn lemma_no_positions(keys: Seq<u32>, k: u32)
    requires
        !keys.contains(k),
    ensures
        positions_of(keys, k) == Seq::<usize>::empty(),
    decreases keys.len(),
{
    if keys.len() > 0 {
        assert(!keys.drop_last().contains(k)) by {
            if keys.drop_last().contains(k) {
                let j = choose|j: int| 0 <= j < keys.drop_last().len() && keys.drop_last()[j] == k;
                assert(keys[j] == k);
            }
        }
        lemma_no_positions(keys.drop_last(), k);
        assert(keys[keys.len() - 1] != k);
    }
}

} // verus!
