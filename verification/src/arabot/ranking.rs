use vstd::prelude::*;
use crate::arabot::message::pair_views;
use crate::arabot::text::{read_time, time_value};

verus! {

/// A scored guess: how far (in seconds) it lies above the result, the guess as written, and
/// who made it.
pub type Scored = (u64, Seq<char>, Seq<char>);

/// Each vote `(user, time)` scored against `winning`: `time`'s seconds minus `winning`.
/// `None` where a time cannot be read, or lies below `winning`.
pub open spec fn scores(times: Seq<(Seq<char>, Seq<char>)>, winning: u64) -> Option<Seq<Scored>>
    decreases times.len(),
{
    if times.len() == 0 {
        Some(Seq::empty())
    } else {
        match scores(times.drop_last(), winning) {
            None => None,
            Some(rest) => match time_value(times.last().1) {
                Some(v) if v >= winning => Some(
                    rest.push(((v - winning) as u64, times.last().1, times.last().0)),
                ),
                _ => None,
            },
        }
    }
}

/// Where `x` goes among `s`: after every entry whose score is at most that of `x`.
pub open spec fn insert_pos(s: Seq<Scored>, score: u64) -> int
    decreases s.len(),
{
    if s.len() == 0 || s.last().0 <= score {
        s.len() as int
    } else {
        insert_pos(s.drop_last(), score)
    }
}

/// `s` sorted by score; guesses with the same score keep their order.
pub open spec fn sort_by_score(s: Seq<Scored>) -> Seq<Scored>
    decreases s.len(),
{
    if s.len() == 0 {
        s
    } else {
        let sorted = sort_by_score(s.drop_last());
        sorted.insert(insert_pos(sorted, s.last().0), s.last())
    }
}

/// The votes ranked against the result `winning`, closest first.
pub open spec fn ranking(times: Seq<(Seq<char>, Seq<char>)>, winning: u64) -> Option<Seq<Scored>> {
    match scores(times, winning) {
        Some(s) => Some(sort_by_score(s)),
        None => None,
    }
}

pub open spec fn sorted_by_score(s: Seq<Scored>) -> bool {
    forall|i: int, j: int| 0 <= i <= j < s.len() ==> s[i].0 <= s[j].0
}

pub open spec fn scored_views(v: Seq<(u64, String, String)>) -> Seq<Scored> {
    v.map_values(|e: (u64, String, String)| (e.0, e.1@, e.2@))
}

proof fn lemma_insert_pos(s: Seq<Scored>, score: u64)
    requires
        sorted_by_score(s),
    ensures
        0 <= insert_pos(s, score) <= s.len(),
        forall|i: int| 0 <= i < insert_pos(s, score) ==> s[i].0 <= score,
        forall|i: int| insert_pos(s, score) <= i < s.len() ==> s[i].0 > score,
    decreases s.len(),
{
    if s.len() > 0 && s.last().0 > score {
        lemma_insert_pos(s.drop_last(), score);
        assert forall|i: int| insert_pos(s, score) <= i < s.len() implies s[i].0 > score by {
            if i < s.len() - 1 {
                assert(s[i] == s.drop_last()[i]);
            }
        }
        assert forall|i: int| 0 <= i < insert_pos(s, score) implies s[i].0 <= score by {
            assert(s[i] == s.drop_last()[i]);
        }
    } else if s.len() > 0 {
        assert forall|i: int| 0 <= i < insert_pos(s, score) implies s[i].0 <= score by {
            assert(s[i].0 <= s[s.len() - 1].0);
        }
    }
}

proof fn lemma_sort_by_score(s: Seq<Scored>)
    ensures
        sorted_by_score(sort_by_score(s)),
        sort_by_score(s).to_multiset() == s.to_multiset(),
        sort_by_score(s).len() == s.len(),
    decreases s.len(),
{
    broadcast use vstd::seq_lib::to_multiset_insert, vstd::seq_lib::to_multiset_build;

    if s.len() > 0 {
        let sorted = sort_by_score(s.drop_last());
        lemma_sort_by_score(s.drop_last());
        let x = s.last();
        lemma_insert_pos(sorted, x.0);
        let p = insert_pos(sorted, x.0);
        let t = sorted.insert(p, x);
        assert forall|i: int, j: int| 0 <= i <= j < t.len() implies t[i].0 <= t[j].0 by {
            if i < p && j > p {
                assert(t[j] == sorted[j - 1]);
            }
        }
        assert(s.drop_last().push(x) == s);
    }
}

/// Ranking lists every vote, ordered by score from the closest guess up.
pub proof fn lemma_ranking_sorted_permutation(times: Seq<(Seq<char>, Seq<char>)>, winning: u64)
    requires
        scores(times, winning) is Some,
    ensures
        ranking(times, winning) is Some,
        sorted_by_score(ranking(times, winning).unwrap()),
        ranking(times, winning).unwrap().to_multiset() == scores(
            times,
            winning,
        ).unwrap().to_multiset(),
        ranking(times, winning).unwrap().len() == times.len(),
{
    lemma_sort_by_score(scores(times, winning).unwrap());
    lemma_scores_len(times, winning);
}

proof fn lemma_scores_len(times: Seq<(Seq<char>, Seq<char>)>, winning: u64)
    requires
        scores(times, winning) is Some,
    ensures
        scores(times, winning).unwrap().len() == times.len(),
    decreases times.len(),
{
    if times.len() > 0 {
        lemma_scores_len(times.drop_last(), winning);
    }
}

/// Scores the votes against `winning` and sorts them by score, keeping the order of equal
/// scores. `None` where a vote's time cannot be read or lies below `winning`.
pub fn rank_votes(times: &Vec<(String, String)>, winning: u64) -> (r: Option<Vec<(u64, String, String)>>)
    ensures
        match r {
            Some(v) => ranking(pair_views(times@), winning) == Some(scored_views(v@)),
            None => ranking(pair_views(times@), winning) is None,
        },
{
    let ghost tv = pair_views(times@);
    let n = times.len();
    let mut sorted: Vec<(u64, String, String)> = Vec::new();
    let mut i: usize = 0;
    assert(tv.subrange(0, 0) == Seq::<(Seq<char>, Seq<char>)>::empty());
    while i < n
        invariant
            i <= n == times@.len(),
            tv == pair_views(times@),
            scores(tv.subrange(0, i as int), winning) is Some,
            scored_views(sorted@) == sort_by_score(scores(tv.subrange(0, i as int), winning).unwrap()),
        decreases n - i,
    {
        let ghost prefix = tv.subrange(0, i as int);
        let ghost next = tv.subrange(0, i + 1);
        assert(next.drop_last() == prefix);
        let user = &times[i].0;
        let time = &times[i].1;
        let value = match read_time(time.as_str()) {
            Some(v) => v,
            None => {
                proof {
                    assert(next.last() == tv[i as int]);
                    lemma_scores_prefix_none(tv, i + 1, n as int, winning);
                    assert(tv.subrange(0, n as int) == tv);
                }
                return None;
            },
        };
        if value < winning {
            proof {
                assert(next.last() == tv[i as int]);
                lemma_scores_prefix_none(tv, i + 1, n as int, winning);
                assert(tv.subrange(0, n as int) == tv);
            }
            return None;
        }
        let score = value - winning;
        let ghost x: Scored = (score, time@, user@);
        assert(next.last() == tv[i as int]);
        assert(scores(next, winning) == Some(scores(prefix, winning).unwrap().push(x)));
        let ghost old_sorted = scored_views(sorted@);
        let mut p = sorted.len();
        assert(old_sorted.subrange(0, p as int) == old_sorted);
        while p > 0 && sorted[p - 1].0 > score
            invariant
                p <= sorted@.len(),
                old_sorted == scored_views(sorted@),
                insert_pos(old_sorted, score) == insert_pos(old_sorted.subrange(0, p as int), score),
            decreases p,
        {
            assert(old_sorted.subrange(0, p as int).drop_last() == old_sorted.subrange(0, p - 1));
            p = p - 1;
        }
        assert(insert_pos(old_sorted.subrange(0, p as int), score) == p);
        let ghost old_vec = sorted@;
        let entry = (score, time.clone(), user.clone());
        assert(entry.1@ == time@ && entry.2@ == user@);
        sorted.insert(p, entry);
        assert(scored_views(sorted@) =~= old_sorted.insert(p as int, x)) by {
            assert forall|k: int| 0 <= k < sorted@.len() implies #[trigger] scored_views(sorted@)[k]
                == old_sorted.insert(p as int, x)[k] by {
                if k < p {
                    assert(sorted@[k] == old_vec[k]);
                } else if k > p {
                    assert(sorted@[k] == old_vec[k - 1]);
                }
            }
        }
        proof {
            let rest = scores(prefix, winning).unwrap();
            assert(rest.push(x).drop_last() == rest);
            assert(rest.push(x).last() == x);
        }
        i = i + 1;
    }
    assert(tv.subrange(0, n as int) == tv);
    Some(sorted)
}

/// Where a prefix of the votes cannot be scored, neither can a longer one.
proof fn lemma_scores_prefix_none(
    tv: Seq<(Seq<char>, Seq<char>)>,
    k: int,
    m: int,
    winning: u64,
)
    requires
        0 <= k <= m <= tv.len(),
        scores(tv.subrange(0, k), winning) is None,
    ensures
        scores(tv.subrange(0, m), winning) is None,
    decreases m - k,
{
    if k < m {
        assert(tv.subrange(0, k + 1).drop_last() == tv.subrange(0, k));
        lemma_scores_prefix_none(tv, k + 1, m, winning);
    }
}


/// The vote `time` can be ranked against the result `winning`: it reads as a number of
/// seconds that is at least `winning`.
pub open spec fn rankable(time: Seq<char>, winning: u64) -> bool {
    time_value(time) matches Some(v) && v >= winning
}

/// Every vote is scored exactly when every vote can be ranked against the result.
pub proof fn lemma_scores_some(times: Seq<(Seq<char>, Seq<char>)>, winning: u64)
    ensures
        scores(times, winning) is Some <==> forall|i: int|
            0 <= i < times.len() ==> #[trigger] rankable(times[i].1, winning),
    decreases times.len(),
{
    if times.len() > 0 {
        let prev = times.drop_last();
        lemma_scores_some(prev, winning);
        assert forall|i: int| 0 <= i < prev.len() implies prev[i] == times[i] by {}
        if !rankable(times.last().1, winning) {
            assert(!rankable(times[times.len() - 1].1, winning));
        }
        if scores(prev, winning) is None {
            let j = choose|j: int| 0 <= j < prev.len() && !#[trigger] rankable(prev[j].1, winning);
            assert(!rankable(times[j].1, winning));
        }
    }
}

} // verus!
