//! The most-recent query of a folder: the newest unique ids and their subjects.
use crate::words::{decode_words, display_text};
use vstd::prelude::*;

verus! {

/// How many messages the most-recent query reports at most.
pub const RECENT_LIMIT: usize = 100;

/// Each item is at most the next.
pub open spec fn ascending(s: Seq<u32>) -> bool {
    forall|a: int, b: int| 0 <= a <= b < s.len() ==> s[a] <= s[b]
}

/// Relies on `slice::sort_unstable`, which orders the items ascending and
/// keeps each of them.
#[verifier::external_body]
fn sort_ascending(v: &mut Vec<u32>)
    ensures
        ascending(final(v)@),
        final(v)@.to_multiset() == old(v)@.to_multiset(),
{
    v.sort_unstable()
}

/// `r` holds the `cap` largest of `uids` (all of them when there are fewer),
/// largest first.
pub open spec fn newest_first(uids: Seq<u32>, cap: nat, r: Seq<u32>) -> bool {
    &&& r.len() == if uids.len() < cap { uids.len() } else { cap }
    &&& forall|a: int, b: int| 0 <= a < b < r.len() ==> r[a] > r[b]
    &&& forall|k: int| 0 <= k < r.len() ==> uids.contains(#[trigger] r[k])
    &&& forall|u: u32| r.len() > 0 && uids.contains(u) && !r.contains(u) ==> u < r.last()
}

/// The unique ids of the `cap` newest messages, newest first. Unique ids
/// grow with arrival, so the newest are the largest.
pub fn recent_uids(uids: &Vec<u32>, cap: usize) -> (r: Vec<u32>)
    requires
        uids@.no_duplicates(),
    ensures
        newest_first(uids@, cap as nat, r@),
{
    let mut s = uids.clone();
    sort_ascending(&mut s);
    let n = s.len();
    proof {
        uids@.to_multiset_ensures();
        s@.to_multiset_ensures();
        uids@.lemma_multiset_has_no_duplicates();
        s@.lemma_multiset_has_no_duplicates_conv();
        assert forall|a: int, b: int| 0 <= a < b < n implies s@[a] < s@[b] by {
            assert(s@[a] <= s@[b]);
        }
    }
    let take = if n < cap { n } else { cap };
    let mut r: Vec<u32> = Vec::new();
    let mut k: usize = 0;
    while k < take
        invariant
            n == s@.len(),
            take <= n,
            k <= take,
            r@.len() == k,
            forall|j: int| 0 <= j < k ==> #[trigger] r@[j] == s@[n - 1 - j],
        decreases take - k,
    {
        r.push(s[n - 1 - k]);
        k = k + 1;
    }
    proof {
        assert forall|a: int, b: int| 0 <= a < b < n implies s@[a] < s@[b] by {
            assert(s@[a] <= s@[b]);
            assert(s@[a] != s@[b]);
        }
        assert forall|j: int| 0 <= j < r@.len() implies uids@.contains(#[trigger] r@[j]) by {
            assert(s@.contains(s@[n - 1 - j]));
            assert(s@.to_multiset().count(s@[n - 1 - j]) > 0);
            assert(uids@.to_multiset().count(r@[j]) > 0);
        }
        assert forall|u: u32| r@.len() > 0 && uids@.contains(u) && !r@.contains(u) implies u < r@.last() by {
            assert(uids@.to_multiset().count(u) > 0);
            assert(s@.to_multiset().count(u) > 0);
            assert(s@.contains(u));
            let j = choose|j: int| 0 <= j < n && s@[j] == u;
            if j >= n - take {
                assert(r@[n - 1 - j] == u);
            }
            assert(r@.last() == s@[n - take]);
        }
    }
    r
}

/// The subject found for `uid` among the fetched (unique id, subject) pairs:
/// that of the first pair with this id.
pub open spec fn subject_for(fetched: Seq<(u32, Seq<char>)>, uid: u32) -> Option<Seq<char>>
    decreases fetched.len(),
{
    if fetched.len() == 0 {
        None
    } else if fetched[0].0 == uid {
        Some(fetched[0].1)
    } else {
        subject_for(fetched.drop_first(), uid)
    }
}

/// The display subjects of the ids in `order`, in that order; an id that
/// was not fetched gives nothing.
pub open spec fn subjects_in_order(order: Seq<u32>, fetched: Seq<(u32, Seq<char>)>) -> Seq<Seq<char>>
    decreases order.len(),
{
    if order.len() == 0 {
        Seq::empty()
    } else {
        let init = subjects_in_order(order.drop_last(), fetched);
        match subject_for(fetched, order.last()) {
            Some(s) => init.push(display_text(s)),
            None => init,
        }
    }
}

proof fn lemma_subject_at(f: Seq<(u32, Seq<char>)>, uid: u32, i: int)
    requires
        0 <= i <= f.len(),
        forall|m: int| 0 <= m < i ==> f[m].0 != uid,
    ensures
        i < f.len() && f[i].0 == uid ==> subject_for(f, uid) == Some(f[i].1),
        i == f.len() ==> subject_for(f, uid) is None,
    decreases i,
{
    if i > 0 {
        lemma_subject_at(f.drop_first(), uid, i - 1);
    }
}

fn find_subject(fetched: &Vec<(u32, String)>, uid: u32) -> (r: Option<&String>)
    ensures
        match r {
            Some(s) => subject_for(fetched@.map_values(|p: (u32, String)| (p.0, p.1@)), uid) == Some(s@),
            None => subject_for(fetched@.map_values(|p: (u32, String)| (p.0, p.1@)), uid) is None,
        },
{
    let ghost f = fetched@.map_values(|p: (u32, String)| (p.0, p.1@));
    let mut i: usize = 0;
    while i < fetched.len()
        invariant
            i <= fetched@.len(),
            f == fetched@.map_values(|p: (u32, String)| (p.0, p.1@)),
            forall|m: int| 0 <= m < i ==> #[trigger] f[m].0 != uid,
        decreases fetched.len() - i,
    {
        assert(f[i as int] == (fetched@[i as int].0, fetched@[i as int].1@));
        if fetched[i].0 == uid {
            proof { lemma_subject_at(f, uid, i as int); }
            return Some(&fetched[i].1);
        }
        i = i + 1;
    }
    proof { lemma_subject_at(f, uid, i as int); }
    None
}

/// Puts the fetched subjects in the order of `order`, decoding each.
pub fn subjects_by_uid(order: &Vec<u32>, fetched: &Vec<(u32, String)>) -> (r: Vec<String>)
    ensures
        r@.map_values(|s: String| s@) == subjects_in_order(order@, fetched@.map_values(|p: (u32, String)| (p.0, p.1@))),
{
    let ghost f = fetched@.map_values(|p: (u32, String)| (p.0, p.1@));
    let mut out: Vec<String> = Vec::new();
    let mut i: usize = 0;
    proof {
        assert(order@.take(0) =~= Seq::<u32>::empty());
    }
    while i < order.len()
        invariant
            i <= order@.len(),
            f == fetched@.map_values(|p: (u32, String)| (p.0, p.1@)),
            out@.map_values(|s: String| s@) == subjects_in_order(order@.take(i as int), f),
        decreases order.len() - i,
    {
        proof {
            assert(order@.take(i + 1).drop_last() =~= order@.take(i as int));
            assert(order@.take(i + 1).last() == order@[i as int]);
        }
        match find_subject(fetched, order[i]) {
            Some(s) => {
                let d = decode_words(s.as_str());
                let ghost prev = out@;
                out.push(d);
                assert(out@.map_values(|s: String| s@) =~= prev.map_values(|s: String| s@).push(d@));
            },
            None => {},
        }
        i = i + 1;
    }
    assert(order@.take(order@.len() as int) =~= order@);
    out
}

proof fn lemma_all_fetched(order: Seq<u32>, fetched: Seq<(u32, Seq<char>)>)
    requires
        forall|k: int| 0 <= k < order.len() ==> subject_for(fetched, #[trigger] order[k]) is Some,
    ensures
        subjects_in_order(order, fetched).len() == order.len(),
        forall|k: int| 0 <= k < order.len() ==> #[trigger] subjects_in_order(order, fetched)[k]
            == display_text(subject_for(fetched, order[k])->Some_0),
    decreases order.len(),
{
    if order.len() > 0 {
        let init = order.drop_last();
        assert forall|k: int| 0 <= k < init.len() implies subject_for(fetched, #[trigger] init[k]) is Some by {
            assert(init[k] == order[k]);
        }
        lemma_all_fetched(init, fetched);
        assert(subject_for(fetched, order[order.len() - 1]) is Some);
        assert forall|k: int| 0 <= k < order.len() implies #[trigger] subjects_in_order(order, fetched)[k]
            == display_text(subject_for(fetched, order[k])->Some_0) by {
            if k < order.len() - 1 {
                assert(init[k] == order[k]);
            }
        }
    }
}

/// The most-recent query over a folder whose unique ids are `uids`: when
/// `order` holds the `cap` newest ids, newest first, and every one of them
/// was fetched, the result is the display subject of each, newest first,
/// one for each of the `min(cap, |uids|)` newest messages.
pub proof fn lemma_most_recent_subjects(
    uids: Seq<u32>,
    cap: nat,
    order: Seq<u32>,
    fetched: Seq<(u32, Seq<char>)>,
)
    requires
        newest_first(uids, cap, order),
        forall|k: int| 0 <= k < order.len() ==> subject_for(fetched, #[trigger] order[k]) is Some,
    ensures
        subjects_in_order(order, fetched).len() == if uids.len() < cap { uids.len() } else { cap },
        forall|k: int| 0 <= k < order.len() ==> #[trigger] subjects_in_order(order, fetched)[k]
            == display_text(subject_for(fetched, order[k])->Some_0),
        forall|a: int, b: int| 0 <= a < b < order.len() ==> order[a] > order[b],
{
    lemma_all_fetched(order, fetched);
}

} // verus!
