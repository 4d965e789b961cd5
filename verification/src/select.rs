//! Choosing among a list of candidate tags the one that matches a wanted
//! tag best.

use crate::bstr::str_equal;
use crate::score::{
    calculate_score, lemma_score_at_most_max, lemma_score_reflexive, tag_score, SCORE_MAX,
};
use crate::tag::{parsed_tag, LangTag};
use vstd::prelude::*;

verus! {

/// The candidates as texts; an entry that is no text stays in its place.
pub open spec fn texts(langs: &[Option<&str>]) -> Seq<Option<Seq<char>>> {
    Seq::new(
        langs@.len(),
        |i: int|
            match langs@[i] {
                Some(lang) => Some(lang@),
                None => None,
            },
    )
}

/// What the candidate at `index` scores against `target`, if it counts at
/// all. Where both are well-formed tags it is the score of the tags minus
/// the index, so that of two equally good candidates the earlier wins.
/// Else the candidate counts only where it is written exactly as the
/// target, and then as an exact match.
pub open spec fn candidate_score(candidate: Option<Seq<char>>, index: int, target: Seq<char>) -> Option<
    int,
> {
    match candidate {
        None => None,
        Some(lang) => match (parsed_tag(lang), parsed_tag(target)) {
            (Some(lang_tag), Some(target_tag)) => Some(tag_score(lang_tag, target_tag) - index),
            _ => if lang == target {
                Some(SCORE_MAX as int)
            } else {
                None
            },
        },
    }
}

/// The higher of two scores, each of which may be absent.
pub open spec fn higher(a: Option<int>, b: Option<int>) -> Option<int> {
    match (a, b) {
        (Some(x), Some(y)) => if y > x {
            b
        } else {
            a
        },
        (None, _) => b,
        (_, None) => a,
    }
}

/// The best score among the first `n` candidates, if any of them counts.
pub open spec fn best_of(langs: Seq<Option<Seq<char>>>, target: Seq<char>, n: int) -> Option<int>
    decreases n,
{
    if n <= 0 {
        None
    } else {
        higher(best_of(langs, target, n - 1), candidate_score(langs[n - 1], n - 1, target))
    }
}

/// The score of the best candidate: 0 where the list or the target is
/// absent, where the target is empty, and where no candidate counts.
pub open spec fn match_score(langs: Option<Seq<Option<Seq<char>>>>, target: Option<Seq<char>>) -> int {
    match (langs, target) {
        (Some(langs), Some(target)) => if target.len() == 0 {
            0
        } else {
            match best_of(langs, target, langs.len() as int) {
                Some(score) => score,
                None => 0,
            }
        },
        _ => 0,
    }
}

/// The best score among the first `n` candidates is the score of one of
/// them and no other of them scores higher; there is none exactly where
/// none of them counts.
pub proof fn lemma_best_of(langs: Seq<Option<Seq<char>>>, target: Seq<char>, n: int)
    requires
        0 <= n <= langs.len(),
    ensures
        match best_of(langs, target, n) {
            Some(best) => (exists|i: int|
                0 <= i < n && #[trigger] candidate_score(langs[i], i, target) == Some(best))
                && forall|j: int|
                0 <= j < n ==> (#[trigger] candidate_score(langs[j], j, target) matches Some(s)
                    ==> s <= best),
            None => forall|j: int|
                0 <= j < n ==> #[trigger] candidate_score(langs[j], j, target) is None,
        },
    decreases n,
{
    if n > 0 {
        lemma_best_of(langs, target, n - 1);
        let earlier = best_of(langs, target, n - 1);
        let last = candidate_score(langs[n - 1], n - 1, target);
        match best_of(langs, target, n) {
            Some(best) => {
                if last == Some(best) {
                    assert(candidate_score(langs[n - 1], n - 1, target) == Some(best));
                } else {
                    let i = choose|i: int|
                        0 <= i < n - 1 && #[trigger] candidate_score(langs[i], i, target) == Some(
                            best,
                        );
                    assert(candidate_score(langs[i], i, target) == Some(best));
                }
            },
            None => {},
        }
    }
}

/// Scores how well the best of the candidates `langs` matches `target`.
/// The highest score stands for an exact match, 0 for no match at all. An
/// absent list, an absent or empty target and a list without a candidate
/// that counts all give 0; an entry that is no text is passed over and
/// keeps its place in the list.
pub fn mp_match_lang(langs: Option<&[Option<&str>]>, target: Option<&str>) -> (score: i128)
    ensures
        score == match_score(
            match langs {
                Some(langs) => Some(texts(langs)),
                None => None,
            },
            match target {
                Some(target) => Some(target@),
                None => None,
            },
        ),
{
    let (langs, target) = match (langs, target) {
        (Some(langs), Some(target)) => (langs, target),
        _ => {
            return 0;
        },
    };
    if target.is_empty() {
        return 0;
    }
    let target_tag = LangTag::parse(target);
    let mut best: Option<i128> = None;
    let mut i: usize = 0;
    while i < langs.len()
        invariant
            0 <= i <= langs@.len(),
            match target_tag {
                Some(tag) => parsed_tag(target@) == Some(tag@),
                None => parsed_tag(target@) is None,
            },
            match best {
                Some(score) => best_of(texts(langs), target@, i as int) == Some(score as int),
                None => best_of(texts(langs), target@, i as int) is None,
            },
        decreases langs@.len() - i,
    {
        let counted: Option<i128> = match langs[i] {
            None => None,
            Some(lang) => match (LangTag::parse(lang), &target_tag) {
                (Some(lang_tag), Some(target_tag)) => Some(
                    calculate_score(&lang_tag, target_tag) - (i as i128),
                ),
                _ => if str_equal(lang, target) {
                    Some(SCORE_MAX)
                } else {
                    None
                },
            },
        };
        assert(match counted {
            Some(score) => candidate_score(texts(langs)[i as int], i as int, target@) == Some(
                score as int,
            ),
            None => candidate_score(texts(langs)[i as int], i as int, target@) is None,
        });
        best = match (best, counted) {
            (Some(x), Some(y)) => if y > x {
                counted
            } else {
                best
            },
            (None, _) => counted,
            (_, None) => best,
        };
        i += 1;
    }
    match best {
        Some(score) => score,
        None => 0,
    }
}

/// Without candidates nothing matches.
pub proof fn lemma_no_candidates(target: Option<Seq<char>>)
    ensures
        match_score(Some(Seq::empty()), target) == 0,
        match_score(None, target) == 0,
{
}

/// No list scores above an exact match.
pub proof fn lemma_match_at_most_max(langs: Seq<Option<Seq<char>>>, target: Seq<char>)
    ensures
        match_score(Some(langs), Some(target)) <= SCORE_MAX,
{
    lemma_best_of(langs, target, langs.len() as int);
    match best_of(langs, target, langs.len() as int) {
        Some(best) => {
            let i = choose|i: int|
                0 <= i < langs.len() && #[trigger] candidate_score(langs[i], i, target) == Some(
                    best,
                );
            match (parsed_tag(langs[i]->0), parsed_tag(target)) {
                (Some(lang_tag), Some(target_tag)) => {
                    lemma_score_at_most_max(lang_tag, target_tag);
                },
                _ => {},
            }
        },
        None => {},
    }
}

/// Of two well-formed candidates that match a well-formed target equally
/// well, the one that stands earlier in the list scores higher.
pub proof fn lemma_earlier_wins(langs: Seq<Option<Seq<char>>>, target: Seq<char>, i: int, j: int)
    requires
        0 <= i < j < langs.len(),
        parsed_tag(target) is Some,
        langs[i] is Some && parsed_tag(langs[i]->0) is Some,
        langs[j] is Some && parsed_tag(langs[j]->0) is Some,
        tag_score(parsed_tag(langs[i]->0)->0, parsed_tag(target)->0) == tag_score(
            parsed_tag(langs[j]->0)->0,
            parsed_tag(target)->0,
        ),
    ensures
        candidate_score(langs[i], i, target)->0 > candidate_score(langs[j], j, target)->0,
{
}

/// A first candidate that is written as the non-empty target wins with the
/// score of an exact match.
pub proof fn lemma_first_exact_wins(langs: Seq<Option<Seq<char>>>, target: Seq<char>)
    requires
        langs.len() > 0,
        langs[0] == Some(target),
        target.len() > 0,
    ensures
        match_score(Some(langs), Some(target)) == SCORE_MAX,
{
    lemma_best_of(langs, target, langs.len() as int);
    lemma_match_at_most_max(langs, target);
    match parsed_tag(target) {
        Some(tag) => {
            lemma_score_reflexive(tag);
        },
        None => {},
    }
    assert(candidate_score(langs[0], 0, target) == Some(SCORE_MAX as int));
}

} // verus!
