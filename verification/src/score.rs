//! How well a language tag matches a wanted one.
//!
//! A score is the highest score minus a penalty for each part of the wanted
//! tag that the candidate does not have. It is not symmetric: parts that
//! only the candidate has cost nothing.

use crate::bstr::str_equal;
use crate::iso639::{iso639_language, resolve_iso639};
use crate::tag::{canonical_or_same, same_optional, Field, LangTag, TagView};
use vstd::prelude::*;

verus! {

/// The score of an exact match.
pub const SCORE_MAX: i128 = 2147483647;

/// What each part of the wanted tag costs that the candidate lacks.
pub const PENALTY: i128 = 1000;

/// The parts that hold at most one value, each with what it costs where
/// the wanted tag has it and the candidate has another value or none.
pub open spec fn checks() -> Seq<(Field, int)> {
    seq![
        (Field::Region, PENALTY as int),
        (Field::Script, PENALTY as int),
        (Field::ExtendedLanguage, PENALTY as int),
        (Field::PrivateUse, PENALTY as int),
    ]
}

/// What one check costs the candidate `lang` against the wanted `target`.
pub open spec fn check_penalty(check: (Field, int), lang: TagView, target: TagView) -> int {
    if target.field(check.0) is Some && lang.field(check.0) != target.field(check.0) {
        check.1
    } else {
        0
    }
}

/// What the first `n` checks cost together.
pub open spec fn checks_penalty(lang: TagView, target: TagView, n: int) -> int
    decreases n,
{
    if n <= 0 {
        0
    } else {
        checks_penalty(lang, target, n - 1) + check_penalty(checks()[n - 1], lang, target)
    }
}

/// How many different items of `target` do not occur in `lang`.
pub open spec fn missing<A>(target: Seq<A>, lang: Seq<A>) -> nat {
    target.to_set().difference(lang.to_set()).len()
}

/// The whole penalty of the candidate `lang` against the wanted `target`.
pub open spec fn penalty(lang: TagView, target: TagView) -> int {
    checks_penalty(lang, target, checks().len() as int) + PENALTY * missing(
        target.variants,
        lang.variants,
    ) + PENALTY * missing(target.extensions, lang.extensions)
}

/// Whether two primary languages are related: they are written the same,
/// or both are known to ISO 639 as one language. `lang_code` and
/// `target_code` are what ISO 639 knows of each.
pub open spec fn related(
    lang: Seq<char>,
    target: Seq<char>,
    lang_code: Option<usize>,
    target_code: Option<usize>,
) -> bool {
    lang == target || (lang_code is Some && lang_code == target_code)
}

/// The score of two tags that are in canonical form already, given what
/// ISO 639 knows of their primary languages.
pub open spec fn resolved_score(
    lang: TagView,
    target: TagView,
    lang_code: Option<usize>,
    target_code: Option<usize>,
) -> int {
    if lang == target {
        SCORE_MAX as int
    } else if !related(lang.language, target.language, lang_code, target_code) {
        0
    } else {
        SCORE_MAX - penalty(lang, target)
    }
}

/// The score of two tags that are in canonical form already.
pub open spec fn canonical_score(lang: TagView, target: TagView) -> int {
    resolved_score(
        lang,
        target,
        iso639_language(lang.language),
        iso639_language(target.language),
    )
}

/// The score of the candidate `lang` against the wanted `target`: that of
/// their canonical forms.
pub open spec fn tag_score(lang: TagView, target: TagView) -> int {
    canonical_score(canonical_or_same(lang), canonical_or_same(target))
}

/// One more item of `target` adds one to the count where it occurs
/// neither in `lang` nor earlier in `target`, and nothing otherwise.
pub proof fn lemma_missing_step<A>(target: Seq<A>, lang: Seq<A>, i: int)
    requires
        0 <= i < target.len(),
    ensures
        missing(target.take(i + 1), lang) == missing(target.take(i), lang) + (if lang.contains(
            target[i],
        ) || target.take(i).contains(target[i]) {
            0nat
        } else {
            1nat
        }),
{
    let before = target.take(i);
    let x = target[i];
    assert(target.take(i + 1) =~= before.push(x));
    before.lemma_push_to_set_commute(x);
    vstd::seq_lib::seq_to_set_is_finite(before);
    let old_set = before.to_set().difference(lang.to_set());
    let new_set = before.to_set().insert(x).difference(lang.to_set());
    if lang.contains(x) {
        assert(new_set =~= old_set);
    } else {
        assert(new_set =~= old_set.insert(x));
    }
}

/// Nothing is missing of an empty list.
pub proof fn lemma_missing_none<A>(target: Seq<A>, lang: Seq<A>)
    requires
        target.len() == 0,
    ensures
        missing(target, lang) == 0,
{
    assert(target.to_set().difference(lang.to_set()) =~= Set::<A>::empty());
}

/// Whether `subtag` occurs among the first `end` items of `list`.
fn subtag_among(list: &Vec<String>, end: usize, subtag: &String) -> (found: bool)
    requires
        end <= list@.len(),
    ensures
        found == list.deep_view().take(end as int).contains(subtag@),
{
    let ghost items = list.deep_view().take(end as int);
    let mut i: usize = 0;
    while i < end
        invariant
            end <= list@.len(),
            0 <= i <= end,
            items == list.deep_view().take(end as int),
            forall|k: int| 0 <= k < i ==> items[k] != subtag@,
        decreases end - i,
    {
        if list[i] == *subtag {
            assert(items[i as int] == subtag@);
            return true;
        }
        i += 1;
    }
    false
}

/// Whether `extension` occurs among the first `end` items of `list`.
fn extension_among(list: &Vec<(char, String)>, end: usize, extension: &(char, String)) -> (found:
    bool)
    requires
        end <= list@.len(),
    ensures
        found == list.deep_view().take(end as int).contains(extension.deep_view()),
{
    let ghost items = list.deep_view().take(end as int);
    let mut i: usize = 0;
    while i < end
        invariant
            end <= list@.len(),
            0 <= i <= end,
            items == list.deep_view().take(end as int),
            forall|k: int| 0 <= k < i ==> items[k] != extension.deep_view(),
        decreases end - i,
    {
        if list[i].0 == extension.0 && list[i].1 == extension.1 {
            assert(items[i as int] == extension.deep_view());
            return true;
        }
        i += 1;
    }
    false
}

/// Counts the different variant subtags of `target` that `lang` lacks.
pub fn count_missing_variants(target: &Vec<String>, lang: &Vec<String>) -> (count: usize)
    ensures
        count == missing(target.deep_view(), lang.deep_view()),
{
    let mut count: usize = 0;
    let mut i: usize = 0;
    proof {
        lemma_missing_none(target.deep_view().take(0), lang.deep_view());
    }
    while i < target.len()
        invariant
            0 <= count <= i <= target@.len(),
            count == missing(target.deep_view().take(i as int), lang.deep_view()),
        decreases target@.len() - i,
    {
        proof {
            lemma_missing_step(target.deep_view(), lang.deep_view(), i as int);
            assert(lang.deep_view().take(lang@.len() as int) =~= lang.deep_view());
        }
        if !subtag_among(lang, lang.len(), &target[i]) && !subtag_among(target, i, &target[i]) {
            count += 1;
        }
        i += 1;
    }
    assert(target.deep_view().take(i as int) =~= target.deep_view());
    count
}

/// Counts the different extensions of `target` that `lang` lacks.
pub fn count_missing_extensions(target: &Vec<(char, String)>, lang: &Vec<(char, String)>) -> (count:
    usize)
    ensures
        count == missing(target.deep_view(), lang.deep_view()),
{
    let mut count: usize = 0;
    let mut i: usize = 0;
    proof {
        lemma_missing_none(target.deep_view().take(0), lang.deep_view());
    }
    while i < target.len()
        invariant
            0 <= count <= i <= target@.len(),
            count == missing(target.deep_view().take(i as int), lang.deep_view()),
        decreases target@.len() - i,
    {
        proof {
            lemma_missing_step(target.deep_view(), lang.deep_view(), i as int);
            assert(lang.deep_view().take(lang@.len() as int) =~= lang.deep_view());
        }
        if !extension_among(lang, lang.len(), &target[i]) && !extension_among(
            target,
            i,
            &target[i],
        ) {
            count += 1;
        }
        i += 1;
    }
    assert(target.deep_view().take(i as int) =~= target.deep_view());
    count
}

/// The table of checks.
pub fn check_table() -> (table: [(Field, i128); 4])
    ensures
        table@.len() == checks().len(),
        forall|k: int|
            0 <= k < 4 ==> (#[trigger] table@[k]).0 == checks()[k].0 && table@[k].1
                == checks()[k].1,
{
    [
        (Field::Region, PENALTY),
        (Field::Script, PENALTY),
        (Field::ExtendedLanguage, PENALTY),
        (Field::PrivateUse, PENALTY),
    ]
}

/// Scores two tags that are in canonical form already. `lang_code` and
/// `target_code` are what ISO 639 knows of their primary languages.
pub fn score_resolved(
    lang: &LangTag,
    target: &LangTag,
    lang_code: Option<usize>,
    target_code: Option<usize>,
) -> (score: i128)
    ensures
        score == resolved_score(lang@, target@, lang_code, target_code),
        SCORE_MAX - PENALTY * (4 + 2 * usize::MAX) <= score <= SCORE_MAX,
{
    if lang.same(target) {
        return SCORE_MAX;
    }
    let same_code = match (lang_code, target_code) {
        (Some(a), Some(b)) => a == b,
        _ => false,
    };
    if !str_equal(lang.primary_language(), target.primary_language()) && !same_code {
        return 0;
    }
    let mut score: i128 = SCORE_MAX;
    let table = check_table();
    let mut k: usize = 0;
    while k < 4
        invariant
            0 <= k <= 4,
            table@.len() == 4,
            forall|j: int|
                0 <= j < 4 ==> (#[trigger] table@[j]).0 == checks()[j].0 && table@[j].1
                    == checks()[j].1,
            score == SCORE_MAX - checks_penalty(lang@, target@, k as int),
            0 <= checks_penalty(lang@, target@, k as int) <= k * PENALTY,
        decreases 4 - k,
    {
        let (field, cost) = table[k];
        let wanted = target.field(field);
        if wanted.is_some() && !same_optional(lang.field(field), wanted) {
            score = score - cost;
        }
        k += 1;
    }
    let variants = count_missing_variants(target.variant_subtags(), lang.variant_subtags());
    let extensions = count_missing_extensions(
        target.extension_subtags(),
        lang.extension_subtags(),
    );
    score = score - PENALTY * (variants as i128);
    score = score - PENALTY * (extensions as i128);
    score
}

/// Scores the candidate `lang` against the wanted `target`. Both are
/// brought into canonical form first; one that has no canonical form is
/// taken as it is.
pub fn calculate_score(lang: &LangTag, target: &LangTag) -> (score: i128)
    ensures
        score == tag_score(lang@, target@),
        SCORE_MAX - PENALTY * (4 + 2 * usize::MAX) <= score <= SCORE_MAX,
{
    let lang_canonical = lang.canonicalize();
    let target_canonical = target.canonicalize();
    let lang = match &lang_canonical {
        Some(canonical) => canonical,
        None => lang,
    };
    let target = match &target_canonical {
        Some(canonical) => canonical,
        None => target,
    };
    let lang_code = resolve_iso639(lang.primary_language());
    let target_code = resolve_iso639(target.primary_language());
    score_resolved(lang, target, lang_code, target_code)
}

/// The checks never add to a score: what they cost together lies between
/// nothing and the cost of all of them.
pub proof fn lemma_checks_penalty_bounds(lang: TagView, target: TagView, n: int)
    requires
        0 <= n <= checks().len(),
    ensures
        0 <= checks_penalty(lang, target, n) <= n * PENALTY,
    decreases n,
{
    if n > 0 {
        lemma_checks_penalty_bounds(lang, target, n - 1);
    }
}

/// A tag matches itself exactly.
pub proof fn lemma_score_reflexive(tag: TagView)
    ensures
        tag_score(tag, tag) == SCORE_MAX,
{
}

/// No score is above that of an exact match.
pub proof fn lemma_score_at_most_max(lang: TagView, target: TagView)
    ensures
        tag_score(lang, target) <= SCORE_MAX,
{
    lemma_checks_penalty_bounds(
        canonical_or_same(lang),
        canonical_or_same(target),
        checks().len() as int,
    );
}

/// Tags whose canonical forms differ and whose primary languages are
/// neither written the same nor known to ISO 639 as one language score 0.
pub proof fn lemma_unrelated_scores_zero(lang: TagView, target: TagView)
    requires
        canonical_or_same(lang) != canonical_or_same(target),
        canonical_or_same(lang).language != canonical_or_same(target).language,
        iso639_language(canonical_or_same(lang).language) is None || iso639_language(
            canonical_or_same(lang).language,
        ) != iso639_language(canonical_or_same(target).language),
    ensures
        tag_score(lang, target) == 0,
{
}

/// Only what the wanted tag asks for can cost anything: against a wanted
/// tag that is a bare language, every candidate of a related language
/// scores as an exact match, whatever else the candidate holds.
pub proof fn lemma_bare_target_costs_nothing(lang: TagView, target: TagView)
    requires
        target.region is None,
        target.script is None,
        target.extlang is None,
        target.private_use is None,
        target.variants.len() == 0,
        target.extensions.len() == 0,
    ensures
        penalty(lang, target) == 0,
        related(
            lang.language,
            target.language,
            iso639_language(lang.language),
            iso639_language(target.language),
        ) ==> canonical_score(lang, target) == SCORE_MAX,
{
    reveal_with_fuel(checks_penalty, 5);
    lemma_missing_none(target.variants, lang.variants);
    lemma_missing_none(target.extensions, lang.extensions);
}

/// Each optional part that the wanted tag has and the candidate has
/// otherwise or not at all costs one penalty, and so does each different
/// variant and each different extension of the wanted tag that the
/// candidate lacks.
pub proof fn lemma_penalty_counts(lang: TagView, target: TagView)
    ensures
        penalty(lang, target) == PENALTY * ((if target.region is Some && lang.region
            != target.region {
            1int
        } else {
            0int
        }) + (if target.script is Some && lang.script != target.script {
            1int
        } else {
            0int
        }) + (if target.extlang is Some && lang.extlang != target.extlang {
            1int
        } else {
            0int
        }) + (if target.private_use is Some && lang.private_use != target.private_use {
            1int
        } else {
            0int
        }) + missing(target.variants, lang.variants) + missing(
            target.extensions,
            lang.extensions,
        )),
{
    reveal_with_fuel(checks_penalty, 5);
}

} // verus!
