use vstd::prelude::*;
use std::collections::VecDeque;

verus! {

/// Number of recent positions kept per fingertip.
pub const TRAIL_LEN: usize = 24;

/// Recent positions of one fingertip, oldest first.
pub struct Trail<T> {
    pub hand_id: u32,
    pub finger: u8,
    pub points: VecDeque<T>,
}

/// Model of a trail: its key and its points.
pub struct TrailModel<T> {
    pub hand_id: u32,
    pub finger: u8,
    pub points: Seq<T>,
}

/// Fading fingertip trails, one per (hand id, finger).
pub struct TrailMap<T> {
    trails: Vec<Trail<T>>,
}

pub open spec fn trail_view<T>(t: Trail<T>) -> TrailModel<T> {
    TrailModel { hand_id: t.hand_id, finger: t.finger, points: t.points@ }
}

/// The newest `TRAIL_LEN` points of `s`.
pub open spec fn keep_recent<T>(s: Seq<T>) -> Seq<T> {
    if s.len() > TRAIL_LEN {
        s.subrange(s.len() - TRAIL_LEN, s.len() as int)
    } else {
        s
    }
}

pub open spec fn trail_keys_unique<T>(ts: Seq<TrailModel<T>>) -> bool {
    forall|i: int, j: int|
        0 <= i < ts.len() && 0 <= j < ts.len() && i != j ==> !((#[trigger] ts[i]).hand_id == (#[trigger] ts[j]).hand_id
            && ts[i].finger == ts[j].finger)
}

pub open spec fn trails_short<T>(ts: Seq<TrailModel<T>>) -> bool {
    forall|i: int| 0 <= i < ts.len() ==> (#[trigger] ts[i]).points.len() <= TRAIL_LEN
}

/// The points recorded for (hand_id, finger), if it has a trail.
pub open spec fn points_of<T>(ts: Seq<TrailModel<T>>, hand_id: u32, finger: u8) -> Option<Seq<T>> {
    if exists|i: int| 0 <= i < ts.len() && (#[trigger] ts[i]).hand_id == hand_id && ts[i].finger == finger {
        let i = choose|i: int| 0 <= i < ts.len() && (#[trigger] ts[i]).hand_id == hand_id && ts[i].finger == finger;
        Some(ts[i].points)
    } else {
        None
    }
}

impl<T> TrailMap<T> {
    pub closed spec fn model(&self) -> Seq<TrailModel<T>> {
        self.trails@.map_values(|t: Trail<T>| trail_view(t))
    }

    /// Every fingertip has at most one trail, of at most `TRAIL_LEN` points.
    pub open spec fn wf(&self) -> bool {
        trail_keys_unique(self.model()) && trails_short(self.model())
    }

    pub fn new() -> (m: TrailMap<T>)
        ensures
            m.wf(),
            m.model().len() == 0,
    {
        let m = TrailMap { trails: Vec::new() };
        assert(m.model() =~= Seq::<TrailModel<T>>::empty());
        m
    }

    fn find(&self, hand_id: u32, finger: u8) -> (r: Option<usize>)
        requires
            self.wf(),
        ensures
            match r {
                Some(i) => i < self.model().len() && self.model()[i as int].hand_id == hand_id
                    && self.model()[i as int].finger == finger,
                None => points_of(self.model(), hand_id, finger) is None,
            },
    {
        let n = self.trails.len();
        let mut i: usize = 0;
        while i < n
            invariant
                n == self.trails.len(),
                n == self.model().len(),
                i <= n,
                forall|j: int| 0 <= j < i ==> !((#[trigger] self.model()[j]).hand_id == hand_id && self.model()[j].finger
                    == finger),
            decreases n - i,
        {
            if self.trails[i].hand_id == hand_id && self.trails[i].finger == finger {
                return Some(i);
            }
            i = i + 1;
        }
        None
    }

    /// Appends a fingertip position to its trail (starting the trail if
    /// needed), dropping the oldest points beyond `TRAIL_LEN`.
    pub fn record(&mut self, hand_id: u32, finger: u8, point: T)
        requires
            old(self).wf(),
        ensures
            final(self).wf(),
            points_of(final(self).model(), hand_id, finger) == Some(
                keep_recent(
                    match points_of(old(self).model(), hand_id, finger) {
                        Some(s) => s,
                        None => Seq::<T>::empty(),
                    }.push(point),
                ),
            ),
            forall|h: u32, f: u8|
                !(h == hand_id && f == finger) ==> #[trigger] points_of(final(self).model(), h, f) == points_of(
                    old(self).model(),
                    h,
                    f,
                ),
    {
        let ghost ts = self.model();
        match self.find(hand_id, finger) {
            Some(i) => {
                proof {
                    lemma_points_at(ts, hand_id, finger, i as int);
                }
                self.trails[i].points.push_back(point);
                if self.trails[i].points.len() > TRAIL_LEN {
                    self.trails[i].points.pop_front();
                }
                let ghost ts2 = self.model();
                assert(ts2 =~= ts.update(
                    i as int,
                    TrailModel { hand_id, finger, points: keep_recent(ts[i as int].points.push(point)) },
                )) by {
                    assert(ts2[i as int].points =~= keep_recent(ts[i as int].points.push(point)));
                }
                proof {
                    assert forall|x: int, y: int| 0 <= x < ts2.len() && 0 <= y < ts2.len() && x != y implies !((
                    #[trigger] ts2[x]).hand_id == (#[trigger] ts2[y]).hand_id && ts2[x].finger == ts2[y].finger) by {
                        assert(ts2[x].hand_id == ts[x].hand_id && ts2[x].finger == ts[x].finger);
                        assert(ts2[y].hand_id == ts[y].hand_id && ts2[y].finger == ts[y].finger);
                    }
                    lemma_points_at(ts2, hand_id, finger, i as int);
                    assert forall|h: u32, f: u8| !(h == hand_id && f == finger) implies #[trigger] points_of(ts2, h, f)
                        == points_of(ts, h, f) by {
                        lemma_points_other(ts, ts2, h, f, i as int);
                    }
                }
            },
            None => {
                let mut q: VecDeque<T> = VecDeque::new();
                q.push_back(point);
                self.trails.push(Trail { hand_id, finger, points: q });
                let ghost ts2 = self.model();
                let ghost fresh = TrailModel { hand_id, finger, points: seq![point] };
                assert(ts2 =~= ts.push(fresh));
                proof {
                    assert forall|x: int| 0 <= x < ts.len() implies !((#[trigger] ts[x]).hand_id == hand_id && ts[x].finger
                        == finger) by {
                        if ts[x].hand_id == hand_id && ts[x].finger == finger {
                            assert(points_of(ts, hand_id, finger) is Some);
                        }
                    }
                    assert forall|x: int, y: int| 0 <= x < ts2.len() && 0 <= y < ts2.len() && x != y implies !((
                    #[trigger] ts2[x]).hand_id == (#[trigger] ts2[y]).hand_id && ts2[x].finger == ts2[y].finger) by {
                        if x < ts.len() && y < ts.len() {
                            assert(ts2[x] == ts[x] && ts2[y] == ts[y]);
                        } else if x < ts.len() {
                            assert(ts2[x] == ts[x]);
                        } else {
                            assert(ts2[y] == ts[y]);
                        }
                    }
                    lemma_points_at(ts2, hand_id, finger, ts.len() as int);
                    assert(keep_recent(Seq::<T>::empty().push(point)) =~= seq![point]);
                    assert forall|h: u32, f: u8| !(h == hand_id && f == finger) implies #[trigger] points_of(ts2, h, f)
                        == points_of(ts, h, f) by {
                        lemma_points_pushed(ts, fresh, h, f);
                    }
                }
            },
        }
    }

    /// The trail recorded for (hand_id, finger), oldest point first.
    pub fn trail(&self, hand_id: u32, finger: u8) -> (r: Option<&VecDeque<T>>)
        requires
            self.wf(),
        ensures
            match r {
                Some(q) => points_of(self.model(), hand_id, finger) == Some(q@),
                None => points_of(self.model(), hand_id, finger) is None,
            },
    {
        match self.find(hand_id, finger) {
            Some(i) => {
                proof {
                    lemma_points_at(self.model(), hand_id, finger, i as int);
                }
                Some(&self.trails[i].points)
            },
            None => None,
        }
    }

    /// Drops the trails of hands not in `hand_ids`.
    pub fn forget_absent(&mut self, hand_ids: &Vec<u32>)
        requires
            old(self).wf(),
        ensures
            final(self).wf(),
            forall|h: u32, f: u8|
                #[trigger] points_of(final(self).model(), h, f) == if hand_ids@.contains(h) {
                    points_of(old(self).model(), h, f)
                } else {
                    None
                },
    {
        let ghost ts = self.model();
        let mut rest: Vec<Trail<T>> = Vec::new();
        std::mem::swap(&mut rest, &mut self.trails);
        assert(rest@.map_values(|t: Trail<T>| trail_view(t)) == ts);
        assert(self.model() =~= Seq::<TrailModel<T>>::empty());
        while rest.len() > 0
            invariant
                ts.len() >= rest.len(),
                forall|j: int| 0 <= j < rest.len() ==> trail_view(#[trigger] rest@[j]) == ts[j],
                trail_keys_unique(ts),
                trails_short(ts),
                trail_keys_unique(self.model()),
                forall|a: int|
                    0 <= a < self.model().len() ==> #[trigger] kept_from(ts, rest.len() as int, hand_ids@, self.model()[a]),
                forall|j: int|
                    rest.len() <= j < ts.len() && hand_ids@.contains(ts[j].hand_id) ==> #[trigger] kept_in(
                        self.model(),
                        ts[j],
                    ),
            decreases rest.len(),
        {
            let ghost k = self.model();
            let t = rest.pop().unwrap();
            let ghost j0 = rest.len() as int;
            assert(trail_view(t) == ts[j0]);
            if contains(hand_ids, t.hand_id) {
                self.trails.push(t);
                let ghost k2 = self.model();
                assert(k2 =~= k.push(ts[j0]));
                assert forall|a: int| 0 <= a < k2.len() implies #[trigger] kept_from(ts, j0, hand_ids@, k2[a]) by {
                    if a < k.len() {
                        assert(k2[a] == k[a]);
                        assert(kept_from(ts, j0 + 1, hand_ids@, k[a]));
                    } else {
                        assert(k2[a] == ts[j0]);
                    }
                }
                assert forall|x: int, y: int| 0 <= x < k2.len() && 0 <= y < k2.len() && x != y implies !((
                #[trigger] k2[x]).hand_id == (#[trigger] k2[y]).hand_id && k2[x].finger == k2[y].finger) by {
                    if x < k.len() && y < k.len() {
                        assert(k2[x] == k[x] && k2[y] == k[y]);
                    } else if x < k.len() {
                        assert(k2[x] == k[x]);
                        assert(kept_from(ts, j0 + 1, hand_ids@, k[x]));
                        let jx = choose|jx: int| j0 + 1 <= jx < ts.len() && #[trigger] ts[jx] == k[x];
                        assert(!(ts[jx].hand_id == ts[j0].hand_id && ts[jx].finger == ts[j0].finger));
                    } else {
                        assert(k2[y] == k[y]);
                        assert(kept_from(ts, j0 + 1, hand_ids@, k[y]));
                        let jy = choose|jy: int| j0 + 1 <= jy < ts.len() && #[trigger] ts[jy] == k[y];
                        assert(!(ts[jy].hand_id == ts[j0].hand_id && ts[jy].finger == ts[j0].finger));
                    }
                }
                assert forall|j: int| j0 <= j < ts.len() && hand_ids@.contains(ts[j].hand_id) implies #[trigger] kept_in(
                    k2,
                    ts[j],
                ) by {
                    if j == j0 {
                        assert(k2[k.len() as int] == ts[j0]);
                    } else {
                        assert(kept_in(k, ts[j]));
                        let a = choose|a: int| 0 <= a < k.len() && #[trigger] k[a] == ts[j];
                        assert(k2[a] == k[a]);
                    }
                }
            } else {
                assert forall|a: int| 0 <= a < k.len() implies #[trigger] kept_from(ts, j0, hand_ids@, k[a]) by {
                    assert(kept_from(ts, j0 + 1, hand_ids@, k[a]));
                }
                assert forall|j: int| j0 <= j < ts.len() && hand_ids@.contains(ts[j].hand_id) implies #[trigger] kept_in(
                    k,
                    ts[j],
                ) by {
                    if j > j0 {
                        assert(kept_in(k, ts[j]));
                    }
                }
            }
        }
        let ghost k = self.model();
        assert forall|x: int| 0 <= x < k.len() implies (#[trigger] k[x]).points.len() <= TRAIL_LEN by {
            assert(kept_from(ts, 0, hand_ids@, k[x]));
        }
        assert forall|h: u32, f: u8|
            #[trigger] points_of(k, h, f) == if hand_ids@.contains(h) {
                points_of(ts, h, f)
            } else {
                None
            } by {
            if exists|x: int| 0 <= x < k.len() && (#[trigger] k[x]).hand_id == h && k[x].finger == f {
                let x = choose|x: int| 0 <= x < k.len() && (#[trigger] k[x]).hand_id == h && k[x].finger == f;
                assert(kept_from(ts, 0, hand_ids@, k[x]));
                let j = choose|j: int| 0 <= j < ts.len() && #[trigger] ts[j] == k[x];
                lemma_points_at(k, h, f, x);
                lemma_points_at(ts, h, f, j);
            } else if hand_ids@.contains(h) {
                if exists|j: int| 0 <= j < ts.len() && (#[trigger] ts[j]).hand_id == h && ts[j].finger == f {
                    let j = choose|j: int| 0 <= j < ts.len() && (#[trigger] ts[j]).hand_id == h && ts[j].finger == f;
                    assert(kept_in(k, ts[j]));
                    let a = choose|a: int| 0 <= a < k.len() && #[trigger] k[a] == ts[j];
                    assert(k[a].hand_id == h && k[a].finger == f);
                }
            }
        }
    }
}

/// `x` is one of the entries of `ts` from index `from` on, of a hand in `ids`.
pub open spec fn kept_from<T>(ts: Seq<TrailModel<T>>, from: int, ids: Seq<u32>, x: TrailModel<T>) -> bool {
    exists|j: int| from <= j < ts.len() && #[trigger] ts[j] == x && ids.contains(x.hand_id)
}

pub open spec fn kept_in<T>(k: Seq<TrailModel<T>>, x: TrailModel<T>) -> bool {
    exists|a: int| 0 <= a < k.len() && #[trigger] k[a] == x
}

fn contains(ids: &Vec<u32>, id: u32) -> (r: bool)
    ensures
        r == ids@.contains(id),
{
    let n = ids.len();
    let mut i: usize = 0;
    while i < n
        invariant
            n == ids.len(),
            i <= n,
            forall|j: int| 0 <= j < i ==> ids@[j] != id,
        decreases n - i,
    {
        if ids[i] == id {
            assert(ids@[i as int] == id);
            return true;
        }
        i = i + 1;
    }
    false
}

/// With unique keys, the trail found for a key is the one at its index.
proof fn lemma_points_at<T>(ts: Seq<TrailModel<T>>, hand_id: u32, finger: u8, i: int)
    requires
        trail_keys_unique(ts),
        0 <= i < ts.len(),
        ts[i].hand_id == hand_id,
        ts[i].finger == finger,
    ensures
        points_of(ts, hand_id, finger) == Some(ts[i].points),
{
    let c = choose|c: int| 0 <= c < ts.len() && (#[trigger] ts[c]).hand_id == hand_id && ts[c].finger == finger;
    assert(ts[i].hand_id == hand_id);
    if c != i {
        assert(!(ts[c].hand_id == ts[i].hand_id && ts[c].finger == ts[i].finger));
    }
}

/// Replacing the trail at `i` leaves every other key's trail as it was.
proof fn lemma_points_other<T>(ts: Seq<TrailModel<T>>, ts2: Seq<TrailModel<T>>, h: u32, f: u8, i: int)
    requires
        trail_keys_unique(ts),
        trail_keys_unique(ts2),
        ts2.len() == ts.len(),
        0 <= i < ts.len(),
        !(ts[i].hand_id == h && ts[i].finger == f),
        ts2[i].hand_id == ts[i].hand_id && ts2[i].finger == ts[i].finger,
        forall|x: int| 0 <= x < ts.len() && x != i ==> #[trigger] ts2[x] == ts[x],
    ensures
        points_of(ts2, h, f) == points_of(ts, h, f),
{
    if exists|x: int| 0 <= x < ts.len() && (#[trigger] ts[x]).hand_id == h && ts[x].finger == f {
        let x = choose|x: int| 0 <= x < ts.len() && (#[trigger] ts[x]).hand_id == h && ts[x].finger == f;
        assert(ts2[x] == ts[x]);
        lemma_points_at(ts, h, f, x);
        lemma_points_at(ts2, h, f, x);
    } else {
        if exists|x: int| 0 <= x < ts2.len() && (#[trigger] ts2[x]).hand_id == h && ts2[x].finger == f {
            let x = choose|x: int| 0 <= x < ts2.len() && (#[trigger] ts2[x]).hand_id == h && ts2[x].finger == f;
            if x != i {
                assert(ts2[x] == ts[x]);
            }
        }
    }
}

/// Appending a trail for a new key leaves every other key's trail as it was.
proof fn lemma_points_pushed<T>(ts: Seq<TrailModel<T>>, t: TrailModel<T>, h: u32, f: u8)
    requires
        trail_keys_unique(ts),
        trail_keys_unique(ts.push(t)),
        !(t.hand_id == h && t.finger == f),
    ensures
        points_of(ts.push(t), h, f) == points_of(ts, h, f),
{
    let ts2 = ts.push(t);
    if exists|x: int| 0 <= x < ts.len() && (#[trigger] ts[x]).hand_id == h && ts[x].finger == f {
        let x = choose|x: int| 0 <= x < ts.len() && (#[trigger] ts[x]).hand_id == h && ts[x].finger == f;
        assert(ts2[x] == ts[x]);
        lemma_points_at(ts, h, f, x);
        lemma_points_at(ts2, h, f, x);
    } else {
        if exists|x: int| 0 <= x < ts2.len() && (#[trigger] ts2[x]).hand_id == h && ts2[x].finger == f {
            let x = choose|x: int| 0 <= x < ts2.len() && (#[trigger] ts2[x]).hand_id == h && ts2[x].finger == f;
            if x < ts.len() {
                assert(ts2[x] == ts[x]);
            }
        }
    }
}

} // verus!
