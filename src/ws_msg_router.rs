use vstd::prelude::*;

use crate::branch::{branch_set, clone_branches, union_branches, BranchKey, BranchKeyView};

verus! {

/// The branches that registrations `routes` give to the subscription `id`.
pub open spec fn routed_branches(routes: Seq<(String, Vec<BranchKey>)>, id: Seq<char>) -> Set<
    BranchKeyView,
> {
    Set::new(
        |b: BranchKeyView|
            exists|i: int|
                0 <= i < routes.len() && routes[i].0@ == id && branch_set(routes[i].1@).contains(b),
    )
}

pub open spec fn has_route(routes: Seq<(String, Vec<BranchKey>)>, id: Seq<char>) -> bool {
    exists|i: int| 0 <= i < routes.len() && routes[i].0@ == id
}

fn route_index(routes: &Vec<(String, Vec<BranchKey>)>, id: &String) -> (r: Option<usize>)
    ensures
        match r {
            Some(i) => i < routes@.len() && routes@[i as int].0@ == id@,
            None => forall|j: int| 0 <= j < routes@.len() ==> routes@[j].0@ != id@,
        },
{
    let mut i: usize = 0;
    while i < routes.len()
        invariant
            i <= routes@.len(),
            forall|j: int| 0 <= j < i ==> routes@[j].0@ != id@,
        decreases routes@.len() - i,
    {
        if routes[i].0 == *id {
            return Some(i);
        }
        i = i + 1;
    }
    None
}

/// Maps the subscription ids of a realtime connection to the branches whose
/// traffic they carry.
pub struct WsMsgRouter {
    routes: Vec<(String, Vec<BranchKey>)>,
}

impl View for WsMsgRouter {
    type V = Map<Seq<char>, Set<BranchKeyView>>;

    closed spec fn view(&self) -> Map<Seq<char>, Set<BranchKeyView>> {
        Map::new(
            |id: Seq<char>| has_route(self.routes@, id),
            |id: Seq<char>| routed_branches(self.routes@, id),
        )
    }
}

impl WsMsgRouter {
    pub fn new() -> (r: WsMsgRouter)
        ensures
            r@ == Map::<Seq<char>, Set<BranchKeyView>>::empty(),
    {
        let r = WsMsgRouter { routes: Vec::new() };
        assert(r@ =~= Map::<Seq<char>, Set<BranchKeyView>>::empty());
        r
    }

    /// Registers `branches` for the subscription `channel_id`, adding to any
    /// branches it already has.
    pub fn extend(&mut self, channel_id: String, branches: Vec<BranchKey>)
        ensures
            final(self)@ == old(self)@.insert(
                channel_id@,
                if old(self)@.contains_key(channel_id@) {
                    old(self)@[channel_id@].union(branch_set(branches@))
                } else {
                    branch_set(branches@)
                },
            ),
    {
        let ghost id = channel_id@;
        let ghost before = self.routes@;
        let ghost m0 = self@;
        if let Some(i) = route_index(&self.routes, &channel_id) {
                let mut merged = clone_branches(&self.routes[i].1);
                union_branches(&mut merged, &branches);
                let ghost old_entry = before[i as int];
                self.routes.set(i, (channel_id, merged));
                proof {
                    let after = self.routes@;
                    assert(before[i as int].0@ == id);
                    assert(has_route(before, id));
                    assert(m0.contains_key(id));
                    assert forall|b: BranchKeyView|
                        routed_branches(after, id).contains(b) == m0[id].union(
                            branch_set(branches@),
                        ).contains(b) by {
                        if routed_branches(after, id).contains(b) {
                            let j = choose|j: int|
                                0 <= j < after.len() && after[j].0@ == id && branch_set(
                                    after[j].1@,
                                ).contains(b);
                            if j != i {
                                assert(before[j] == after[j]);
                            }
                        }
                        if m0[id].contains(b) {
                            let j = choose|j: int|
                                0 <= j < before.len() && before[j].0@ == id && branch_set(
                                    before[j].1@,
                                ).contains(b);
                            if j != i {
                                assert(before[j] == after[j]);
                            } else {
                                assert(branch_set(after[j].1@).contains(b));
                            }
                        }
                        if branch_set(branches@).contains(b) {
                            assert(branch_set(after[i as int].1@).contains(b));
                        }
                    }
                    assert forall|x: Seq<char>| x != id implies routed_branches(after, x)
                        =~= routed_branches(before, x) by {
                        assert forall|b: BranchKeyView|
                            routed_branches(after, x).contains(b) implies routed_branches(
                                before,
                                x,
                            ).contains(b) by {
                            let j = choose|j: int|
                                0 <= j < after.len() && after[j].0@ == x && branch_set(
                                    after[j].1@,
                                ).contains(b);
                            assert(before[j] == after[j]);
                        }
                        assert forall|b: BranchKeyView|
                            routed_branches(before, x).contains(b) implies routed_branches(
                                after,
                                x,
                            ).contains(b) by {
                            let j = choose|j: int|
                                0 <= j < before.len() && before[j].0@ == x && branch_set(
                                    before[j].1@,
                                ).contains(b);
                            assert(before[j] == after[j]);
                        }
                    }
                    assert(routed_branches(after, id) =~= m0[id].union(branch_set(branches@)));
                    assert forall|x: Seq<char>|
                        #[trigger] has_route(after, x) == (has_route(before, x) || x == id) by {
                        if exists|j: int| 0 <= j < before.len() && before[j].0@ == x {
                            let j = choose|j: int| 0 <= j < before.len() && before[j].0@ == x;
                            if j != i {
                                assert(after[j] == before[j]);
                            } else {
                                assert(after[j].0@ == x);
                            }
                        }
                        if exists|j: int| 0 <= j < after.len() && after[j].0@ == x {
                            let j = choose|j: int| 0 <= j < after.len() && after[j].0@ == x;
                            if j != i {
                                assert(after[j] == before[j]);
                            }
                        }
                    }
                    assert(self@ =~= m0.insert(id, m0[id].union(branch_set(branches@))));
                }
                return;
        }
        let ghost bs = branch_set(branches@);
        self.routes.push((channel_id, branches));
        proof {
            let after = self.routes@;
            assert(!m0.contains_key(id));
            assert forall|b: BranchKeyView| routed_branches(after, id).contains(b) == bs.contains(b) by {
                if routed_branches(after, id).contains(b) {
                    let j = choose|j: int|
                        0 <= j < after.len() && after[j].0@ == id && branch_set(after[j].1@).contains(b);
                    assert(j == before.len());
                }
                if bs.contains(b) {
                    assert(after[before.len() as int].0@ == id);
                }
            }
            assert(routed_branches(after, id) =~= bs);
            assert forall|x: Seq<char>| x != id implies routed_branches(after, x) =~= routed_branches(
                before,
                x,
            ) by {
                assert forall|b: BranchKeyView|
                    routed_branches(after, x).contains(b) implies routed_branches(before, x).contains(
                        b,
                    ) by {
                    let j = choose|j: int|
                        0 <= j < after.len() && after[j].0@ == x && branch_set(after[j].1@).contains(b);
                    assert(before[j] == after[j]);
                }
                assert forall|b: BranchKeyView|
                    routed_branches(before, x).contains(b) implies routed_branches(after, x).contains(
                        b,
                    ) by {
                    let j = choose|j: int|
                        0 <= j < before.len() && before[j].0@ == x && branch_set(before[j].1@).contains(b);
                    assert(before[j] == after[j]);
                }
            }
            assert forall|x: Seq<char>|
                #[trigger] has_route(after, x) == (has_route(before, x) || x == id) by {
                if exists|j: int| 0 <= j < before.len() && before[j].0@ == x {
                    let j = choose|j: int| 0 <= j < before.len() && before[j].0@ == x;
                    assert(after[j] == before[j]);
                }
                if x == id {
                    assert(after[before.len() as int].0@ == x);
                }
            }
            assert(self@ =~= m0.insert(id, bs));
        }
    }

    /// Whether branches were registered for the subscription `channel_id`.
    pub fn knows(&self, channel_id: &str) -> (r: bool)
        ensures
            r == self@.contains_key(channel_id@),
    {
        let target = channel_id.to_string();
        match route_index(&self.routes, &target) {
            Some(i) => {
                assert(has_route(self.routes@, channel_id@));
                true
            },
            None => false,
        }
    }

    /// The branches registered for the subscription `channel_id`; none for an unknown id.
    pub fn solve_branches(&self, channel_id: &str) -> (r: Vec<BranchKey>)
        ensures
            branch_set(r@) == if self@.contains_key(channel_id@) {
                self@[channel_id@]
            } else {
                Set::<BranchKeyView>::empty()
            },
    {
        let target = channel_id.to_string();
        let mut r: Vec<BranchKey> = Vec::new();
        let mut i: usize = 0;
        assert(branch_set(r@) =~= routed_branches(self.routes@.subrange(0, 0), channel_id@));
        while i < self.routes.len()
            invariant
                target@ == channel_id@,
                i <= self.routes@.len(),
                branch_set(r@) == routed_branches(self.routes@.subrange(0, i as int), channel_id@),
            decreases self.routes@.len() - i,
        {
            let ghost prev = branch_set(r@);
            if self.routes[i].0 == target {
                union_branches(&mut r, &self.routes[i].1);
            }
            proof {
                let s0 = self.routes@.subrange(0, i as int);
                let s1 = self.routes@.subrange(0, i + 1);
                assert forall|b: BranchKeyView|
                    routed_branches(s1, channel_id@).contains(b) == branch_set(r@).contains(b) by {
                    if routed_branches(s1, channel_id@).contains(b) {
                        let j = choose|j: int|
                            0 <= j < s1.len() && s1[j].0@ == channel_id@ && branch_set(s1[j].1@).contains(b);
                        if j < i {
                            assert(s0[j] == s1[j]);
                        }
                    }
                    if prev.contains(b) {
                        let j = choose|j: int|
                            0 <= j < s0.len() && s0[j].0@ == channel_id@ && branch_set(s0[j].1@).contains(b);
                        assert(s0[j] == s1[j]);
                    }
                    if self.routes@[i as int].0@ == channel_id@ && branch_set(
                        self.routes@[i as int].1@,
                    ).contains(b) {
                        assert(s1[i as int] == self.routes@[i as int]);
                    }
                }
                assert(branch_set(r@) =~= routed_branches(s1, channel_id@));
            }
            i = i + 1;
        }
        assert(self.routes@.subrange(0, self.routes@.len() as int) == self.routes@);
        proof {
            if !self@.contains_key(channel_id@) {
                assert(branch_set(r@) =~= Set::<BranchKeyView>::empty());
            }
        }
        r
    }
}

} // verus!
