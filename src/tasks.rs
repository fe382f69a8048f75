//! Task identifiers, sets of them, task records and the recently used list.
use vstd::prelude::*;

verus! {

/// The identifier of a task.
#[derive(Clone, Copy, Debug, PartialEq, Eq, Structural, PartialOrd, Ord, Hash, Default)]
pub struct TaskID(pub u32);

/// The kind of work a task stands for.
#[derive(Clone, Copy, Debug, PartialEq, Eq, Structural, Default)]
pub enum StoryType {
    #[default]
    Feature,
    Bug,
    Chore,
}

/// A task as the task store keeps it.
#[derive(Clone, Debug, PartialEq, Eq, Default)]
pub struct Task {
    pub id: TaskID,
    pub shortcut_id: Option<u32>,
    pub title: String,
    pub description: String,
    pub story_type: StoryType,
    pub starred: bool,
}

/// Whether every element of `s` is smaller than every later one.
pub open spec fn strictly_increasing(s: Seq<u32>) -> bool {
    forall|i: int, j: int| 0 <= i < j < s.len() ==> s[i] < s[j]
}

/// Lexicographic order of two sequences: the first position where they
/// differ decides, and a proper prefix comes first.
pub open spec fn lex_cmp(a: Seq<u32>, b: Seq<u32>) -> core::cmp::Ordering
    decreases a.len(),
{
    if a.len() == 0 {
        if b.len() == 0 {
            core::cmp::Ordering::Equal
        } else {
            core::cmp::Ordering::Less
        }
    } else if b.len() == 0 {
        core::cmp::Ordering::Greater
    } else if a[0] < b[0] {
        core::cmp::Ordering::Less
    } else if a[0] > b[0] {
        core::cmp::Ordering::Greater
    } else {
        lex_cmp(a.skip(1), b.skip(1))
    }
}

/// `lex_cmp` is antisymmetric, and says `Equal` of equal sequences only.
pub proof fn lemma_lex_cmp_flip(a: Seq<u32>, b: Seq<u32>)
    ensures
        (lex_cmp(a, b) == core::cmp::Ordering::Less) <==> (lex_cmp(b, a)
            == core::cmp::Ordering::Greater),
        (lex_cmp(a, b) == core::cmp::Ordering::Equal) <==> a == b,
    decreases a.len(),
{
    if a.len() > 0 && b.len() > 0 && a[0] == b[0] {
        lemma_lex_cmp_flip(a.skip(1), b.skip(1));
        if a.skip(1) == b.skip(1) {
            assert(a =~= seq![a[0]] + a.skip(1));
            assert(b =~= seq![b[0]] + b.skip(1));
        }
        if a == b {
            assert(a.skip(1) == b.skip(1));
        }
    }
    if a.len() == 0 && b.len() == 0 {
        assert(a =~= b);
    }
}

/// `lex_cmp` orders transitively.
pub proof fn lemma_lex_cmp_transitive(a: Seq<u32>, b: Seq<u32>, c: Seq<u32>)
    requires
        lex_cmp(a, b) == core::cmp::Ordering::Less,
        lex_cmp(b, c) == core::cmp::Ordering::Less,
    ensures
        lex_cmp(a, c) == core::cmp::Ordering::Less,
    decreases a.len(),
{
    if a.len() > 0 && b.len() > 0 && c.len() > 0 && a[0] == b[0] && b[0] == c[0] {
        lemma_lex_cmp_transitive(a.skip(1), b.skip(1), c.skip(1));
    }
}

/// A set of task identifiers, kept as a strictly increasing sequence.
#[derive(Debug)]
pub struct TaskSet {
    ids: Vec<u32>,
}

impl View for TaskSet {
    type V = Seq<u32>;

    closed spec fn view(&self) -> Seq<u32> {
        self.ids@
    }
}

impl Clone for TaskSet {
    fn clone(&self) -> (r: Self)
        ensures
            r@ == self@,
    {
        let mut ids: Vec<u32> = Vec::new();
        let mut i: usize = 0;
        while i < self.ids.len()
            invariant
                i <= self.ids@.len(),
                ids@ == self.ids@.take(i as int),
            decreases self.ids@.len() - i,
        {
            ids.push(self.ids[i]);
            i += 1;
            assert(ids@ =~= self.ids@.take(i as int));
        }
        assert(ids@ =~= self.ids@);
        TaskSet { ids }
    }
}

impl TaskSet {
    /// The identifiers are strictly increasing.
    pub open spec fn wf(&self) -> bool {
        strictly_increasing(self@)
    }

    /// The set of identifiers held.
    pub open spec fn members(&self) -> Set<u32> {
        self@.to_set()
    }

    /// The empty set.
    pub fn new() -> (r: TaskSet)
        ensures
            r.wf(),
            r@ == Seq::<u32>::empty(),
    {
        TaskSet { ids: Vec::new() }
    }

    /// Adds `id`; the set stays sorted and holds each identifier once.
    pub fn insert(&mut self, id: TaskID)
        requires
            old(self).wf(),
        ensures
            final(self).wf(),
            final(self).members() == old(self).members().insert(id.0),
    {
        let mut i: usize = 0;
        while i < self.ids.len() && self.ids[i] < id.0
            invariant
                i <= self.ids@.len(),
                forall|j: int| 0 <= j < i ==> self.ids@[j] < id.0,
            decreases self.ids@.len() - i,
        {
            i += 1;
        }
        if i < self.ids.len() && self.ids[i] == id.0 {
            assert(old(self).members().insert(id.0) =~= old(self).members());
            return ;
        }
        let ghost before = self.ids@;
        self.ids.insert(i, id.0);
        assert(self.ids@ =~= before.insert(i as int, id.0));
        assert forall|a: int, b: int| 0 <= a < b < self.ids@.len() implies self.ids@[a]
            < self.ids@[b] by {
            if b < i {
            } else if a > i {
                assert(self.ids@[a] == before[a - 1]);
                assert(self.ids@[b] == before[b - 1]);
            } else if a == i {
                assert(self.ids@[b] == before[b - 1]);
                assert(before[i as int] >= id.0);
                if b - 1 > i {
                    assert(before[i as int] < before[b - 1]);
                }
            } else {
                if b > i {
                    assert(self.ids@[b] == before[b - 1]);
                    if b - 1 > a {
                        assert(before[a] < before[b - 1]);
                    }
                }
            }
        }
        assert forall|x: u32| self.members().contains(x) <==> old(self).members().insert(
            id.0,
        ).contains(x) by {
            if self.members().contains(x) {
                let k = choose|k: int| 0 <= k < self.ids@.len() && self.ids@[k] == x;
                if k < i {
                    assert(before[k] == x);
                } else if k > i {
                    assert(before[k - 1] == x);
                }
            }
            if before.contains(x) {
                let k = choose|k: int| 0 <= k < before.len() && before[k] == x;
                if k < i {
                    assert(self.ids@[k] == x);
                } else {
                    assert(self.ids@[k + 1] == x);
                }
            }
            if x == id.0 {
                assert(self.ids@[i as int] == x);
            }
        }
        assert(self.members() =~= old(self).members().insert(id.0));
    }

    /// Whether `id` is in the set.
    pub fn contains(&self, id: TaskID) -> (r: bool)
        ensures
            r == self@.contains(id.0),
    {
        let mut i: usize = 0;
        while i < self.ids.len()
            invariant
                i <= self.ids@.len(),
                forall|j: int| 0 <= j < i ==> self.ids@[j] != id.0,
            decreases self.ids@.len() - i,
        {
            if self.ids[i] == id.0 {
                return true;
            }
            i += 1;
        }
        false
    }

    /// The number of identifiers in the set.
    pub fn len(&self) -> (r: usize)
        ensures
            r == self@.len(),
    {
        self.ids.len()
    }

    /// The identifiers, smallest first.
    pub fn to_vec(&self) -> (r: Vec<TaskID>)
        ensures
            r@.len() == self@.len(),
            forall|i: int| 0 <= i < r@.len() ==> r@[i].0 == self@[i],
    {
        let mut r: Vec<TaskID> = Vec::new();
        let mut i: usize = 0;
        while i < self.ids.len()
            invariant
                i <= self.ids@.len(),
                r@.len() == i,
                forall|j: int| 0 <= j < i ==> r@[j].0 == self.ids@[j],
            decreases self.ids@.len() - i,
        {
            r.push(TaskID(self.ids[i]));
            i += 1;
        }
        r
    }

    /// The identifier at position `i` in increasing order.
    pub(crate) fn id_at(&self, i: usize) -> (r: u32)
        requires
            i < self@.len(),
        ensures
            r == self@[i as int],
    {
        self.ids[i]
    }

    /// Compares two sets as `BTreeSet` does: lexicographically by their
    /// elements in increasing order.
    pub fn compare(&self, other: &TaskSet) -> (r: core::cmp::Ordering)
        ensures
            r == lex_cmp(self@, other@),
    {
        let a = &self.ids;
        let b = &other.ids;
        let mut i: usize = 0;
        assert(a@.skip(0) =~= a@);
        assert(b@.skip(0) =~= b@);
        while i < a.len() && i < b.len()
            invariant
                i <= a@.len(),
                i <= b@.len(),
                a@ == self@,
                b@ == other@,
                lex_cmp(a@, b@) == lex_cmp(a@.skip(i as int), b@.skip(i as int)),
            decreases a@.len() - i,
        {
            assert(a@.skip(i as int)[0] == a@[i as int]);
            assert(b@.skip(i as int)[0] == b@[i as int]);
            if a[i] < b[i] {
                assert(lex_cmp(a@.skip(i as int), b@.skip(i as int)) == core::cmp::Ordering::Less);
                return core::cmp::Ordering::Less;
            }
            if a[i] > b[i] {
                assert(lex_cmp(a@.skip(i as int), b@.skip(i as int))
                    == core::cmp::Ordering::Greater);
                return core::cmp::Ordering::Greater;
            }
            assert(a@.skip(i as int).skip(1) =~= a@.skip(i + 1));
            assert(b@.skip(i as int).skip(1) =~= b@.skip(i + 1));
            i += 1;
        }
        if i < a.len() {
            core::cmp::Ordering::Greater
        } else if i < b.len() {
            core::cmp::Ordering::Less
        } else {
            core::cmp::Ordering::Equal
        }
    }
}

/// `s` without any occurrence of `id`.
pub open spec fn without(s: Seq<TaskID>, id: TaskID) -> Seq<TaskID> {
    s.filter(|x: TaskID| x != id)
}

fn remove_id(v: &Vec<TaskID>, id: TaskID) -> (r: Vec<TaskID>)
    ensures
        r@ == without(v@, id),
{
    let mut r: Vec<TaskID> = Vec::new();
    let mut i: usize = 0;
    while i < v.len()
        invariant
            i <= v@.len(),
            r@ == without(v@.take(i as int), id),
        decreases v@.len() - i,
    {
        let ghost next = v@.take(i + 1);
        assert(next.drop_last() =~= v@.take(i as int));
        assert(next.last() == v@[i as int]);
        assert(next.len() > 0);
        proof {
            reveal(Seq::filter);
        }
        if v[i] != id {
            r.push(v[i]);
        }
        assert(r@ == without(next, id));
        i += 1;
    }
    assert(v@.take(i as int) =~= v@);
    r
}

/// The recently used tasks, starred ones apart, each list oldest first.
#[derive(Clone, Debug, PartialEq, Eq)]
pub struct Recents {
    pub starred: Vec<TaskID>,
    pub other: Vec<TaskID>,
}

impl Recents {
    /// Both lists empty.
    pub fn new() -> (r: Recents)
        ensures
            r.starred@ == Seq::<TaskID>::empty(),
            r.other@ == Seq::<TaskID>::empty(),
    {
        Recents { starred: Vec::new(), other: Vec::new() }
    }

    /// Moves `id` to the end of the starred list or of the other one, and out
    /// of the list it was in before.
    pub fn make_recent(&mut self, id: TaskID, starred: bool)
        ensures
            final(self).starred@ == if starred {
                without(old(self).starred@, id).push(id)
            } else {
                without(old(self).starred@, id)
            },
            final(self).other@ == if starred {
                without(old(self).other@, id)
            } else {
                without(old(self).other@, id).push(id)
            },
    {
        self.starred = remove_id(&self.starred, id);
        self.other = remove_id(&self.other, id);
        if starred {
            self.starred.push(id);
        } else {
            self.other.push(id);
        }
    }

    /// Takes `id` out of both lists.
    pub fn archive(&mut self, id: TaskID)
        ensures
            final(self).starred@ == without(old(self).starred@, id),
            final(self).other@ == without(old(self).other@, id),
    {
        self.starred = remove_id(&self.starred, id);
        self.other = remove_id(&self.other, id);
    }
}

} // verus!
