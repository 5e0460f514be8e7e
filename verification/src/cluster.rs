//! The local test cluster: its names, and what its tools' answers mean.
use crate::text::{chars_of, lemma_split_nonempty, lemma_split_step, split, trim, trim_bounds};
use vstd::prelude::*;
use vstd::string::*;

verus! {

pub const CLUSTER_NAME: &'static str = "face-it";

pub const API_NAMESPACE: &'static str = "face-it-api";

pub const WORKER_NAMESPACE: &'static str = "face-it-workers";

/// The lines of `text`: its pieces between line feeds, where a final line
/// feed ends the last line and opens no further one.
pub open spec fn lines(text: Seq<char>) -> Seq<Seq<char>> {
    let pieces = split(text, '\n');
    if pieces.last().len() == 0 {
        pieces.drop_last()
    } else {
        pieces
    }
}

/// Some line of `listing` reads `name`, white space around it aside.
pub open spec fn names_line(listing: Seq<char>, name: Seq<char>) -> bool {
    exists|i: int| 0 <= i < lines(listing).len() && trim(#[trigger] lines(listing)[i]) == name
}

/// One condition of a pod's status, as the directory reports it: its type
/// and whether it holds.
pub struct PodCondition {
    pub type_: String,
    pub status: String,
}

/// Some condition says that the pod is ready.
pub open spec fn reports_ready(conditions: Seq<PodCondition>) -> bool {
    exists|i: int|
        0 <= i < conditions.len() && (#[trigger] conditions[i]).type_@ == "Ready"@
            && conditions[i].status@ == "True"@
}

/// Whether a pod with these conditions is ready to take requests.
pub fn is_pod_ready(conditions: &Vec<PodCondition>) -> (ready: bool)
    ensures
        ready == reports_ready(conditions@),
{
    let wanted_type = String::from_str("Ready");
    let wanted_status = String::from_str("True");
    let mut i: usize = 0;
    while i < conditions.len()
        invariant
            i <= conditions.len(),
            wanted_type@ == "Ready"@,
            wanted_status@ == "True"@,
            forall|k: int|
                0 <= k < i ==> !((#[trigger] conditions@[k]).type_@ == "Ready"@
                    && conditions@[k].status@ == "True"@),
        decreases conditions.len() - i,
    {
        if conditions[i].type_ == wanted_type && conditions[i].status == wanted_status {
            return true;
        }
        i += 1;
    }
    false
}

/// A `kind` cluster, known by its name.
#[derive(Debug)]
pub struct KindCluster {
    cluster_name: String,
}

impl KindCluster {
    /// The cluster called `cluster_name`.
    pub fn named(cluster_name: String) -> (cluster: Self)
        ensures
            cluster.name() == cluster_name@,
    {
        KindCluster { cluster_name }
    }

    /// The cluster's name.
    pub closed spec fn name(&self) -> Seq<char> {
        self.cluster_name@
    }

    /// The cluster's name.
    pub fn cluster_name(&self) -> (name: &String)
        ensures
            name@ == self.name(),
    {
        &self.cluster_name
    }

    /// The name of the `kubectl` context that reaches the cluster: the
    /// cluster's name behind `kind-`.
    pub fn context_name(&self) -> (context: String)
        ensures
            context@ == "kind-"@ + self.name(),
    {
        let mut context = String::from_str("kind-");
        context.append(self.cluster_name.as_str());
        context
    }

    /// Whether `listing`, the answer of `kind get clusters`, names this
    /// cluster on one of its lines.
    pub fn is_listed(&self, listing: &str) -> (listed: bool)
        ensures
            listed == names_line(listing@, self.name()),
    {
        let chars = chars_of(listing);
        let n = chars.len();
        let mut start: usize = 0;
        let mut i: usize = 0;
        assert(chars@.take(0) =~= Seq::<char>::empty());
        assert(chars@.subrange(0, 0) =~= Seq::<char>::empty());
        while i < n
            invariant
                chars@ == listing@,
                n == chars.len(),
                start <= i <= n,
                split(chars@.take(i as int), '\n').len() >= 1,
                split(chars@.take(i as int), '\n').last() == chars@.subrange(
                    start as int,
                    i as int,
                ),
                forall|p: int|
                    0 <= p < split(chars@.take(i as int), '\n').len() - 1 ==> trim(
                        #[trigger] split(chars@.take(i as int), '\n')[p],
                    ) != self.name(),
            decreases n - i,
        {
            proof {
                lemma_split_step(chars@, i as int, '\n');
            }
            let ghost before = split(chars@.take(i as int), '\n');
            let ghost after = split(chars@.take(i + 1), '\n');
            if chars[i] == '\n' {
                if self.reads(listing, &chars, start, i) {
                    proof {
                        crate::text::lemma_split_prefix(chars@, i + 1, '\n');
                        lemma_split_nonempty(chars@, '\n');
                        let p = before.len() - 1;
                        assert(after[p] == before[p]);
                        assert(split(chars@, '\n')[p] == after[p]);
                        assert(lines(chars@)[p] == split(chars@, '\n')[p]);
                    }
                    return true;
                }
                start = i + 1;
                assert(chars@.subrange(i + 1, i + 1) =~= Seq::<char>::empty());
                assert forall|p: int| 0 <= p < after.len() - 1 implies trim(#[trigger] after[p])
                    != self.name() by {
                    assert(after[p] == before[p]);
                }
            } else {
                assert(before.last().push(chars@[i as int]) =~= chars@.subrange(
                    start as int,
                    i + 1,
                ));
                assert forall|p: int| 0 <= p < after.len() - 1 implies trim(#[trigger] after[p])
                    != self.name() by {
                    assert(after[p] == before[p]);
                }
            }
            i += 1;
        }
        assert(chars@.take(n as int) =~= chars@);
        let ghost pieces = split(chars@, '\n');
        if start == n {
            assert(pieces.last().len() == 0);
            assert forall|p: int| 0 <= p < lines(chars@).len() implies trim(
                #[trigger] lines(chars@)[p],
            ) != self.name() by {
                assert(lines(chars@)[p] == pieces[p]);
            }
            return false;
        }
        let last = self.reads(listing, &chars, start, n);
        proof {
            assert(pieces.last().len() > 0);
            assert(lines(chars@) == pieces);
            if last {
                assert(pieces[pieces.len() - 1] == pieces.last());
            } else {
                assert forall|p: int| 0 <= p < pieces.len() implies trim(#[trigger] pieces[p])
                    != self.name() by {
                    if p == pieces.len() - 1 {
                        assert(pieces[p] == pieces.last());
                    }
                }
            }
        }
        last
    }

    /// Whether the window `lo..hi` of `listing` reads the cluster's name.
    fn reads(&self, listing: &str, chars: &Vec<char>, lo: usize, hi: usize) -> (same: bool)
        requires
            chars@ == listing@,
            lo <= hi <= chars.len(),
        ensures
            same == (trim(chars@.subrange(lo as int, hi as int)) == self.name()),
    {
        let (from, to) = trim_bounds(chars, lo, hi);
        let line = listing.substring_char(from, to).to_owned();
        line == self.cluster_name
    }
}

} // verus!
