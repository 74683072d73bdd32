use vstd::prelude::*;

use crate::host::Host;

verus! {

/// Which stream of a server a branch follows.
#[derive(Debug)]
pub enum BranchTimeline {
    Home,
    Local,
    Channel(String),
    Antenna(String),
}

/// One subscribed view that a note can belong to: a server and one of its timelines.
#[derive(Debug)]
pub struct BranchKey {
    pub host: Host,
    pub timeline: BranchTimeline,
}

pub type Branch = BranchKey;

pub ghost enum TimelineView {
    Home,
    Local,
    Channel(Seq<char>),
    Antenna(Seq<char>),
}

pub ghost struct BranchKeyView {
    pub host: Seq<char>,
    pub timeline: TimelineView,
}

impl View for BranchTimeline {
    type V = TimelineView;

    open spec fn view(&self) -> TimelineView {
        match self {
            BranchTimeline::Home => TimelineView::Home,
            BranchTimeline::Local => TimelineView::Local,
            BranchTimeline::Channel(id) => TimelineView::Channel(id@),
            BranchTimeline::Antenna(id) => TimelineView::Antenna(id@),
        }
    }
}

impl View for BranchKey {
    type V = BranchKeyView;

    open spec fn view(&self) -> BranchKeyView {
        BranchKeyView { host: self.host@, timeline: self.timeline@ }
    }
}

impl PartialEq for BranchTimeline {
    fn eq(&self, o: &BranchTimeline) -> (r: bool) {
        match self {
            BranchTimeline::Home => match o {
                BranchTimeline::Home => true,
                _ => false,
            },
            BranchTimeline::Local => match o {
                BranchTimeline::Local => true,
                _ => false,
            },
            BranchTimeline::Channel(a) => match o {
                BranchTimeline::Channel(b) => *a == *b,
                _ => false,
            },
            BranchTimeline::Antenna(a) => match o {
                BranchTimeline::Antenna(b) => *a == *b,
                _ => false,
            },
        }
    }
}

impl vstd::std_specs::cmp::PartialEqSpecImpl for BranchTimeline {
    open spec fn obeys_eq_spec() -> bool {
        true
    }

    open spec fn eq_spec(&self, o: &BranchTimeline) -> bool {
        self@ == o@
    }
}

impl PartialEq for BranchKey {
    fn eq(&self, o: &BranchKey) -> (r: bool) {
        self.host.0 == o.host.0 && self.timeline == o.timeline
    }
}

impl vstd::std_specs::cmp::PartialEqSpecImpl for BranchKey {
    open spec fn obeys_eq_spec() -> bool {
        true
    }

    open spec fn eq_spec(&self, o: &BranchKey) -> bool {
        self@ == o@
    }
}

impl Clone for BranchTimeline {
    fn clone(&self) -> (r: BranchTimeline)
        ensures
            r@ == self@,
    {
        match self {
            BranchTimeline::Home => BranchTimeline::Home,
            BranchTimeline::Local => BranchTimeline::Local,
            BranchTimeline::Channel(id) => BranchTimeline::Channel(id.clone()),
            BranchTimeline::Antenna(id) => BranchTimeline::Antenna(id.clone()),
        }
    }
}

impl Clone for BranchKey {
    fn clone(&self) -> (r: BranchKey)
        ensures
            r@ == self@,
    {
        BranchKey { host: self.host.clone(), timeline: self.timeline.clone() }
    }
}

impl Eq for BranchTimeline {}

impl Eq for BranchKey {}

/// The set of branches that a list of branch keys stands for.
pub open spec fn branch_set(bs: Seq<BranchKey>) -> Set<BranchKeyView> {
    Set::new(|k: BranchKeyView| exists|i: int| 0 <= i < bs.len() && bs[i]@ == k)
}

/// No branch occurs twice in the list.
pub open spec fn distinct_branches(bs: Seq<BranchKey>) -> bool {
    forall|i: int, j: int| 0 <= i < j < bs.len() ==> bs[i]@ != bs[j]@
}

pub proof fn lemma_branch_set_push(bs: Seq<BranchKey>, b: BranchKey)
    ensures
        branch_set(bs.push(b)) == branch_set(bs).insert(b@),
{
    let s = bs.push(b);
    assert forall|k: BranchKeyView| branch_set(s).contains(k) implies branch_set(bs).insert(
        b@,
    ).contains(k) by {
        let i = choose|i: int| 0 <= i < s.len() && s[i]@ == k;
        if i < bs.len() {
            assert(bs[i]@ == k);
        }
    }
    assert forall|k: BranchKeyView| branch_set(bs).insert(b@).contains(k) implies branch_set(
        s,
    ).contains(k) by {
        if k == b@ {
            assert(s[bs.len() as int]@ == k);
        } else {
            let i = choose|i: int| 0 <= i < bs.len() && bs[i]@ == k;
            assert(s[i]@ == k);
        }
    }
    assert(branch_set(s) =~= branch_set(bs).insert(b@));
}

/// Whether `b` occurs in `bs`.
pub fn contains_branch(bs: &Vec<BranchKey>, b: &BranchKey) -> (r: bool)
    ensures
        r == branch_set(bs@).contains(b@),
{
    let mut i: usize = 0;
    while i < bs.len()
        invariant
            i <= bs@.len(),
            forall|j: int| 0 <= j < i ==> bs@[j]@ != b@,
        decreases bs@.len() - i,
    {
        if bs[i] == *b {
            return true;
        }
        i = i + 1;
    }
    false
}

/// Adds to `acc` each branch of `more` that it lacks, keeping the list free of repeats.
pub fn union_branches(acc: &mut Vec<BranchKey>, more: &Vec<BranchKey>)
    ensures
        distinct_branches(old(acc)@) ==> distinct_branches(final(acc)@),
        branch_set(final(acc)@) == branch_set(old(acc)@).union(branch_set(more@)),
{
    let mut i: usize = 0;
    while i < more.len()
        invariant
            i <= more@.len(),
            distinct_branches(old(acc)@) ==> distinct_branches(acc@),
            branch_set(acc@) == branch_set(old(acc)@).union(branch_set(more@.subrange(0, i as int))),
        decreases more@.len() - i,
    {
        let b = &more[i];
        proof {
            lemma_branch_set_push(more@.subrange(0, i as int), more@[i as int]);
            assert(more@.subrange(0, i + 1) =~= more@.subrange(0, i as int).push(more@[i as int]));
        }
        if !contains_branch(acc, b) {
            let ghost prev = acc@;
            let c = b.clone();
            acc.push(c);
            proof {
                lemma_branch_set_push(prev, c);
                assert forall|x: int, y: int|
                    distinct_branches(old(acc)@) && 0 <= x < y < acc@.len() implies acc@[x]@
                    != acc@[y]@ by {
                    if y == prev.len() {
                        assert(prev[x]@ != b@);
                    }
                }
            }
        }
        assert(branch_set(acc@) =~= branch_set(old(acc)@).union(
            branch_set(more@.subrange(0, i + 1)),
        ));
        i = i + 1;
    }
    assert(more@.subrange(0, more@.len() as int) == more@);
}

/// A copy of a list of branch keys, entry by entry.
pub fn clone_branches(bs: &Vec<BranchKey>) -> (r: Vec<BranchKey>)
    ensures
        r@.len() == bs@.len(),
        forall|i: int| 0 <= i < bs@.len() ==> r@[i]@ == bs@[i]@,
        branch_set(r@) == branch_set(bs@),
        distinct_branches(bs@) ==> distinct_branches(r@),
{
    let mut r: Vec<BranchKey> = Vec::new();
    let mut i: usize = 0;
    while i < bs.len()
        invariant
            i <= bs@.len(),
            r@.len() == i,
            forall|j: int| 0 <= j < i ==> r@[j]@ == bs@[j]@,
        decreases bs@.len() - i,
    {
        r.push(bs[i].clone());
        i = i + 1;
    }
    assert(branch_set(r@) =~= branch_set(bs@)) by {
        assert forall|k: BranchKeyView| branch_set(bs@).contains(k) implies branch_set(r@).contains(k) by {
            let j = choose|j: int| 0 <= j < bs@.len() && bs@[j]@ == k;
            assert(r@[j]@ == k);
        }
    }
    r
}

} // verus!
