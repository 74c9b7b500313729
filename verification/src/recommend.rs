//! The recommendation engine.
//!
//! Given a candidate's skill names, every (vacancy, coefficient) pair of
//! every requested skill is accumulated into one score per vacancy name, in
//! order of first mention. A requested name the schema does not know fails
//! the whole request; it is never silently skipped or zero-filled. The
//! result is exact integer arithmetic, so the caller must ask only for
//! requests whose running totals fit the score type.

use vstd::prelude::*;

use crate::models::{Skill, SkillView};
use crate::schema::{CoefficientScheme, skill_lookup, lemma_skill_lookup_skip};
use crate::api::AppError;

verus! {

/// The mathematical content of an accumulated score list.
pub open spec fn result_view(s: Seq<(String, i64)>) -> Seq<(Seq<char>, int)> {
    Seq::new(s.len(), |i: int| (s[i].0@, s[i].1 as int))
}

/// The first requested skill name that the schema does not know.
pub open spec fn missing_skill(skills: Seq<SkillView>, names: Seq<Seq<char>>) -> Option<Seq<char>>
    decreases names,
{
    if names.len() == 0 {
        None
    } else if skill_lookup(skills, names[0]) is None {
        Some(names[0])
    } else {
        missing_skill(skills, names.drop_first())
    }
}

pub proof fn lemma_missing_skill_skip(skills: Seq<SkillView>, names: Seq<Seq<char>>, i: int)
    requires
        0 <= i <= names.len(),
        forall|j: int| 0 <= j < i ==> skill_lookup(skills, #[trigger] names[j]) is Some,
    ensures
        missing_skill(skills, names) == missing_skill(skills, names.skip(i)),
    decreases i,
{
    if i > 0 {
        lemma_missing_skill_skip(skills, names.drop_first(), i - 1);
        assert(names.drop_first().skip(i - 1) =~= names.skip(i));
    } else {
        assert(names.skip(0) =~= names);
    }
}

/// Every (vacancy, coefficient) pair the requested skills contribute, in
/// request order. An unknown name contributes nothing here; the engine
/// fails on it instead of reaching this far.
pub open spec fn requested_pairs(
    skills: Seq<SkillView>,
    names: Seq<Seq<char>>,
) -> Seq<(Seq<char>, int)>
    decreases names,
{
    if names.len() == 0 {
        Seq::empty()
    } else {
        requested_pairs(skills, names.drop_last()) + match skill_lookup(skills, names.last()) {
            Some(sk) => sk.coefficients,
            None => Seq::empty(),
        }
    }
}

pub proof fn lemma_requested_pairs_concat(
    skills: Seq<SkillView>,
    a: Seq<Seq<char>>,
    b: Seq<Seq<char>>,
)
    ensures
        requested_pairs(skills, a + b) == requested_pairs(skills, a) + requested_pairs(skills, b),
    decreases b,
{
    if b.len() == 0 {
        assert(a + b =~= a);
        assert(requested_pairs(skills, a) + requested_pairs(skills, b)
            =~= requested_pairs(skills, a));
    } else {
        assert((a + b).drop_last() =~= a + b.drop_last());
        assert((a + b).last() == b.last());
        lemma_requested_pairs_concat(skills, a, b.drop_last());
        assert(requested_pairs(skills, a + b)
            =~= requested_pairs(skills, a) + requested_pairs(skills, b));
    }
}

/// The first score recorded for a vacancy name.
pub open spec fn acc_value(acc: Seq<(Seq<char>, int)>, key: Seq<char>) -> Option<int>
    decreases acc,
{
    if acc.len() == 0 {
        None
    } else if acc[0].0 == key {
        Some(acc[0].1)
    } else {
        acc_value(acc.drop_first(), key)
    }
}

pub proof fn lemma_acc_value_skip(acc: Seq<(Seq<char>, int)>, key: Seq<char>, i: int)
    requires
        0 <= i <= acc.len(),
        forall|j: int| 0 <= j < i ==> acc[j].0 != key,
    ensures
        acc_value(acc, key) == acc_value(acc.skip(i), key),
    decreases i,
{
    if i > 0 {
        lemma_acc_value_skip(acc.drop_first(), key, i - 1);
        assert(acc.drop_first().skip(i - 1) =~= acc.skip(i));
    } else {
        assert(acc.skip(0) =~= acc);
    }
}

/// Adding one coefficient: the first entry of its vacancy grows by it, or a
/// new entry is appended at the back.
pub open spec fn upsert(acc: Seq<(Seq<char>, int)>, key: Seq<char>, c: int) -> Seq<(Seq<char>, int)>
    decreases acc,
{
    if acc.len() == 0 {
        seq![(key, c)]
    } else if acc[0].0 == key {
        seq![(acc[0].0, acc[0].1 + c)] + acc.drop_first()
    } else {
        seq![acc[0]] + upsert(acc.drop_first(), key, c)
    }
}

/// The accumulated scores of a pair list.
pub open spec fn tally(pairs: Seq<(Seq<char>, int)>) -> Seq<(Seq<char>, int)>
    decreases pairs,
{
    if pairs.len() == 0 {
        Seq::empty()
    } else {
        upsert(tally(pairs.drop_last()), pairs.last().0, pairs.last().1)
    }
}

/// Whether adding one more coefficient stays within the score type.
pub open spec fn upsert_fits(acc: Seq<(Seq<char>, int)>, key: Seq<char>, c: int) -> bool {
    match acc_value(acc, key) {
        Some(v) => i64::MIN <= v + c <= i64::MAX,
        None => i64::MIN <= c <= i64::MAX,
    }
}

/// Whether the whole accumulation stays within the score type, step by step.
pub open spec fn tally_fits(pairs: Seq<(Seq<char>, int)>) -> bool
    decreases pairs,
{
    if pairs.len() == 0 {
        true
    } else {
        tally_fits(pairs.drop_last()) && upsert_fits(
            tally(pairs.drop_last()),
            pairs.last().0,
            pairs.last().1,
        )
    }
}

pub proof fn lemma_tally_fits_prefix(pairs: Seq<(Seq<char>, int)>, i: int)
    requires
        tally_fits(pairs),
        0 <= i <= pairs.len(),
    ensures
        tally_fits(pairs.take(i)),
    decreases pairs,
{
    if i == pairs.len() {
        assert(pairs.take(i) =~= pairs);
    } else {
        assert(pairs.drop_last().take(i) =~= pairs.take(i));
        lemma_tally_fits_prefix(pairs.drop_last(), i);
    }
}

proof fn lemma_upsert_update(acc: Seq<(Seq<char>, int)>, key: Seq<char>, c: int, i: int)
    requires
        0 <= i < acc.len(),
        acc[i].0 == key,
        forall|j: int| 0 <= j < i ==> acc[j].0 != key,
    ensures
        upsert(acc, key, c) == acc.update(i, (acc[i].0, acc[i].1 + c)),
    decreases i,
{
    if i == 0 {
        assert(upsert(acc, key, c) =~= acc.update(0, (acc[0].0, acc[0].1 + c)));
    } else {
        lemma_upsert_update(acc.drop_first(), key, c, i - 1);
        assert(acc.update(i, (acc[i].0, acc[i].1 + c)).drop_first()
            =~= acc.drop_first().update(i - 1, (acc[i].0, acc[i].1 + c)));
        assert(upsert(acc, key, c) =~= acc.update(i, (acc[i].0, acc[i].1 + c)));
    }
}

proof fn lemma_upsert_append(acc: Seq<(Seq<char>, int)>, key: Seq<char>, c: int)
    requires
        forall|j: int| 0 <= j < acc.len() ==> acc[j].0 != key,
    ensures
        upsert(acc, key, c) == acc.push((key, c)),
    decreases acc,
{
    if acc.len() == 0 {
        assert(upsert(acc, key, c) =~= acc.push((key, c)));
    } else {
        lemma_upsert_append(acc.drop_first(), key, c);
        assert(upsert(acc, key, c) =~= acc.push((key, c)));
    }
}

// ---------------------------------------------------------------------------
// The accumulated score of a vacancy is the plain sum of its coefficients.
// ---------------------------------------------------------------------------

pub open spec fn pair_has(pairs: Seq<(Seq<char>, int)>, key: Seq<char>) -> bool {
    exists|i: int| 0 <= i < pairs.len() && pairs[i].0 == key
}

/// The sum of every coefficient a pair list carries for one vacancy.
pub open spec fn pair_sum(pairs: Seq<(Seq<char>, int)>, key: Seq<char>) -> int
    decreases pairs,
{
    if pairs.len() == 0 {
        0
    } else {
        pair_sum(pairs.drop_last(), key) + if pairs.last().0 == key {
            pairs.last().1
        } else {
            0int
        }
    }
}

/// The sum of the coefficients the requested skills carry for one vacancy.
pub open spec fn skill_sum(skills: Seq<SkillView>, names: Seq<Seq<char>>, key: Seq<char>) -> int
    decreases names,
{
    if names.len() == 0 {
        0
    } else {
        skill_sum(skills, names.drop_last(), key) + match skill_lookup(skills, names.last()) {
            Some(sk) => pair_sum(sk.coefficients, key),
            None => 0int,
        }
    }
}

proof fn lemma_pair_has_push(pairs: Seq<(Seq<char>, int)>, x: (Seq<char>, int), key: Seq<char>)
    ensures
        pair_has(pairs.push(x), key) <==> pair_has(pairs, key) || x.0 == key,
{
    if pair_has(pairs.push(x), key) {
        let k = choose|k: int| 0 <= k < pairs.push(x).len() && pairs.push(x)[k].0 == key;
        if k < pairs.len() {
            assert(pairs[k].0 == key);
        }
    }
    if pair_has(pairs, key) {
        let k = choose|k: int| 0 <= k < pairs.len() && pairs[k].0 == key;
        assert(pairs.push(x)[k].0 == key);
    }
    if x.0 == key {
        assert(pairs.push(x)[pairs.len() as int].0 == key);
    }
}

proof fn lemma_upsert_value(acc: Seq<(Seq<char>, int)>, key: Seq<char>, c: int, key2: Seq<char>)
    ensures
        acc_value(upsert(acc, key, c), key2) == (if key2 == key {
            match acc_value(acc, key) {
                Some(v) => Some(v + c),
                None => Some(c),
            }
        } else {
            acc_value(acc, key2)
        }),
    decreases acc,
{
    let r = upsert(acc, key, c);
    if acc.len() == 0 {
        assert(r == seq![(key, c)]);
        assert(r[0] == (key, c));
        assert(r.drop_first() =~= Seq::<(Seq<char>, int)>::empty());
        if key2 == key {
            assert(acc_value(r, key2) == Some(c));
        } else {
            assert(acc_value(r, key2) == acc_value(r.drop_first(), key2));
            assert(acc_value(r, key2) is None);
        }
    } else if acc[0].0 == key {
        assert(r == seq![(acc[0].0, acc[0].1 + c)] + acc.drop_first());
        assert(r[0] == (acc[0].0, acc[0].1 + c));
        assert(r.drop_first() =~= acc.drop_first());
        if key2 == key {
            assert(acc_value(r, key2) == Some(acc[0].1 + c));
            assert(acc_value(acc, key) == Some(acc[0].1));
        } else {
            assert(acc_value(r, key2) == acc_value(acc.drop_first(), key2));
            assert(acc_value(acc, key2) == acc_value(acc.drop_first(), key2));
        }
    } else {
        assert(r == seq![acc[0]] + upsert(acc.drop_first(), key, c));
        lemma_upsert_value(acc.drop_first(), key, c, key2);
        assert(upsert(acc.drop_first(), key, c).len() >= 1);
        assert(r.len() >= 1);
        assert(r[0] == acc[0]);
        assert(r.drop_first() =~= upsert(acc.drop_first(), key, c));
        if acc[0].0 == key2 {
            assert(acc_value(r, key2) == Some(acc[0].1));
            assert(acc_value(acc, key2) == Some(acc[0].1));
        } else {
            assert(acc_value(r, key2) == acc_value(upsert(acc.drop_first(), key, c), key2));
            assert(acc_value(acc, key2) == acc_value(acc.drop_first(), key2));
        }
    }
}

proof fn lemma_pair_sum_absent(pairs: Seq<(Seq<char>, int)>, key: Seq<char>)
    requires
        !pair_has(pairs, key),
    ensures
        pair_sum(pairs, key) == 0,
    decreases pairs,
{
    if pairs.len() > 0 {
        assert(!pair_has(pairs.drop_last(), key)) by {
            if pair_has(pairs.drop_last(), key) {
                let k = choose|k: int|
                    0 <= k < pairs.drop_last().len() && pairs.drop_last()[k].0 == key;
                assert(pairs[k].0 == key);
            }
        }
        assert(pairs.last().0 != key) by {
            if pairs.last().0 == key {
                assert(pairs[pairs.len() - 1].0 == key);
            }
        }
        lemma_pair_sum_absent(pairs.drop_last(), key);
    }
}

/// The score a pair list tallies for one vacancy is exactly the sum of its
/// coefficients for that vacancy, and a vacancy no pair mentions gets no
/// entry at all.
pub proof fn lemma_tally_value(pairs: Seq<(Seq<char>, int)>, key: Seq<char>)
    ensures
        pair_has(pairs, key) ==> acc_value(tally(pairs), key) == Some(pair_sum(pairs, key)),
        !pair_has(pairs, key) ==> acc_value(tally(pairs), key) is None,
    decreases pairs,
{
    if pairs.len() > 0 {
        let dl = pairs.drop_last();
        let x = pairs.last();
        lemma_tally_value(dl, key);
        lemma_upsert_value(tally(dl), x.0, x.1, key);
        assert(dl.push(x) =~= pairs);
        lemma_pair_has_push(dl, x, key);
        if key == x.0 {
            if !pair_has(dl, key) {
                lemma_pair_sum_absent(dl, key);
            }
            assert(pair_sum(pairs, key) == pair_sum(dl, key) + x.1);
        } else {
            assert(pair_sum(pairs, key) == pair_sum(dl, key));
        }
    }
}

proof fn lemma_pair_sum_concat(a: Seq<(Seq<char>, int)>, b: Seq<(Seq<char>, int)>, key: Seq<char>)
    ensures
        pair_sum(a + b, key) == pair_sum(a, key) + pair_sum(b, key),
    decreases b,
{
    if b.len() == 0 {
        assert(a + b =~= a);
    } else {
        assert((a + b).drop_last() =~= a + b.drop_last());
        assert((a + b).last() == b.last());
        lemma_pair_sum_concat(a, b.drop_last(), key);
    }
}

proof fn lemma_requested_pairs_sum(skills: Seq<SkillView>, names: Seq<Seq<char>>, key: Seq<char>)
    ensures
        pair_sum(requested_pairs(skills, names), key) == skill_sum(skills, names, key),
    decreases names,
{
    if names.len() > 0 {
        lemma_requested_pairs_sum(skills, names.drop_last(), key);
        match skill_lookup(skills, names.last()) {
            Some(sk) => {
                lemma_pair_sum_concat(
                    requested_pairs(skills, names.drop_last()),
                    sk.coefficients,
                    key,
                );
            },
            None => {
                lemma_pair_sum_concat(
                    requested_pairs(skills, names.drop_last()),
                    Seq::empty(),
                    key,
                );
            },
        }
    }
}

/// For every vacancy, the recommended score is the exact integer sum of the
/// matching coefficients of the requested skills, and a vacancy that no
/// requested skill mentions gets no entry.
pub proof fn lemma_recommend_exact(
    skills: Seq<SkillView>,
    names: Seq<Seq<char>>,
    vacancy: Seq<char>,
)
    ensures
        pair_has(requested_pairs(skills, names), vacancy) ==> acc_value(
            tally(requested_pairs(skills, names)),
            vacancy,
        ) == Some(skill_sum(skills, names, vacancy)),
        !pair_has(requested_pairs(skills, names), vacancy) ==> acc_value(
            tally(requested_pairs(skills, names)),
            vacancy,
        ) is None,
{
    lemma_tally_value(requested_pairs(skills, names), vacancy);
    lemma_requested_pairs_sum(skills, names, vacancy);
}

// ---------------------------------------------------------------------------
// The executable engine.
// ---------------------------------------------------------------------------

fn find_skill<'a>(skills: &'a Vec<Skill>, name: &String) -> (r: Option<&'a Skill>)
    ensures
        match r {
            Some(sk) => skill_lookup(skills.deep_view(), name@) == Some(sk@),
            None => skill_lookup(skills.deep_view(), name@) is None,
        },
{
    let n = skills.len();
    let ghost sv = skills.deep_view();
    let mut i: usize = 0;
    while i < n
        invariant
            n == skills@.len(),
            sv == skills.deep_view(),
            sv.len() == n,
            forall|j: int| 0 <= j < sv.len() ==> sv[j] == skills@[j]@,
            0 <= i <= n,
            forall|j: int| 0 <= j < i ==> sv[j].name != name@,
        decreases n - i,
    {
        if skills[i].name == *name {
            proof {
                lemma_skill_lookup_skip(sv, name@, i as int);
                assert(sv.skip(i as int)[0] == sv[i as int]);
            }
            return Some(&skills[i]);
        }
        i = i + 1;
    }
    proof {
        lemma_skill_lookup_skip(sv, name@, n as int);
        assert(sv.skip(n as int) =~= Seq::<SkillView>::empty());
    }
    None
}

fn apply_coefficient(out: &mut Vec<(String, i64)>, key: &String, c: i64)
    requires
        upsert_fits(result_view(old(out)@), key@, c as int),
    ensures
        result_view(final(out)@) == upsert(result_view(old(out)@), key@, c as int),
{
    let n = out.len();
    let ghost acc = result_view(out@);
    let mut t: usize = 0;
    while t < n
        invariant
            n == out@.len(),
            out@ == old(out)@,
            acc == result_view(out@),
            0 <= t <= n,
            forall|j: int| 0 <= j < t ==> out@[j].0@ != key@,
            upsert_fits(acc, key@, c as int),
        decreases n - t,
    {
        if out[t].0 == *key {
            proof {
                assert forall|j: int| 0 <= j < t implies acc[j].0 != key@ by {
                    assert(acc[j] == (out@[j].0@, out@[j].1 as int));
                }
                lemma_acc_value_skip(acc, key@, t as int);
                assert(acc.skip(t as int)[0] == acc[t as int]);
                assert(acc[t as int] == (out@[t as int].0@, out@[t as int].1 as int));
                lemma_upsert_update(acc, key@, c as int, t as int);
            }
            let key_copy = out[t].0.clone();
            let newv = out[t].1 + c;
            out.set(t, (key_copy, newv));
            proof {
                assert(result_view(out@)
                    =~= acc.update(t as int, (acc[t as int].0, acc[t as int].1 + c)));
            }
            return;
        }
        t = t + 1;
    }
    proof {
        assert forall|j: int| 0 <= j < acc.len() implies acc[j].0 != key@ by {
            assert(acc[j] == (out@[j].0@, out@[j].1 as int));
        }
        lemma_upsert_append(acc, key@, c as int);
    }
    out.push((key.clone(), c));
    proof {
        assert(result_view(out@) =~= acc.push((key@, c as int)));
    }
}

impl CoefficientScheme {
    /// Accumulates, for each requested skill in order, every coefficient it
    /// carries, into one exact integer score per vacancy name. Fails on the
    /// first requested name the schema does not know. The request must be
    /// one whose running totals fit the score type.
    pub fn recommend_for_skills(&self, skill_names: &Vec<String>) -> (r: Result<
        Vec<(String, i64)>,
        AppError,
    >)
        requires
            tally_fits(requested_pairs(self@.skills, skill_names.deep_view())),
        ensures
            r is Err <==> missing_skill(self@.skills, skill_names.deep_view()) is Some,
            r matches Ok(scores) ==> result_view(scores@) == tally(
                requested_pairs(self@.skills, skill_names.deep_view()),
            ),
            r matches Err(e) ==> (e matches AppError::Custom { name, description }
                && name@ == "Not Found"@ && description@ == "Skill not found in schema"@),
    {
        let ghost skills_v = self@.skills;
        let ghost names_v = skill_names.deep_view();
        let ghost full = requested_pairs(skills_v, names_v);
        let skills = self.get_skills();
        let n = skill_names.len();
        let mut out: Vec<(String, i64)> = Vec::new();
        let ghost mut pairs_done: Seq<(Seq<char>, int)> = Seq::empty();
        let mut k: usize = 0;
        proof {
            assert(result_view(out@) =~= Seq::<(Seq<char>, int)>::empty());
        }
        while k < n
            invariant
                n == skill_names@.len(),
                skills_v == self@.skills,
                skills.deep_view() == skills_v,
                names_v == skill_names.deep_view(),
                names_v.len() == n,
                forall|j: int| 0 <= j < names_v.len() ==> names_v[j] == skill_names@[j]@,
                full == requested_pairs(skills_v, names_v),
                tally_fits(full),
                0 <= k <= n,
                forall|j: int| 0 <= j < k ==> skill_lookup(skills_v, #[trigger] names_v[j])
                    is Some,
                pairs_done == requested_pairs(skills_v, names_v.take(k as int)),
                result_view(out@) == tally(pairs_done),
            decreases n - k,
        {
            proof {
                assert(names_v.take(k + 1).drop_last() =~= names_v.take(k as int));
                assert(names_v.take(k + 1).last() == names_v[k as int]);
            }
            match find_skill(skills, &skill_names[k]) {
                None => {
                    proof {
                        lemma_missing_skill_skip(skills_v, names_v, k as int);
                        assert(names_v.skip(k as int)[0] == names_v[k as int]);
                    }
                    return Err(
                        AppError::Custom {
                            name: "Not Found".to_owned(),
                            description: "Skill not found in schema".to_owned(),
                        },
                    );
                },
                Some(skill) => {
                    let ghost skv = skill@;
                    let coeffs = skill.get_vacancies_coefficient();
                    let m = coeffs.len();
                    let mut j: usize = 0;
                    while j < m
                        invariant
                            m == coeffs@.len(),
                            skills_v == self@.skills,
                            names_v == skill_names.deep_view(),
                            full == requested_pairs(skills_v, names_v),
                            tally_fits(full),
                            0 <= k < names_v.len(),
                            skill_lookup(skills_v, names_v[k as int]) == Some(skv),
                            coeffs.deep_view() == skv.coefficients,
                            skv.coefficients.len() == m,
                            forall|t: int| 0 <= t < m ==> skv.coefficients[t] == coeffs@[t]@,
                            0 <= j <= m,
                            pairs_done == requested_pairs(skills_v, names_v.take(k as int))
                                + skv.coefficients.take(j as int),
                            result_view(out@) == tally(pairs_done),
                        decreases m - j,
                    {
                        let vac_name = coeffs[j].get_vacancy_name();
                        let coef = coeffs[j].get_coefficient();
                        proof {
                            // The pairs done so far are a strict prefix of the
                            // whole request, so the next addition fits.
                            assert(names_v =~= names_v.take(k + 1) + names_v.skip(k + 1));
                            lemma_requested_pairs_concat(
                                skills_v,
                                names_v.take(k + 1),
                                names_v.skip(k + 1),
                            );
                            assert(names_v.take(k + 1).drop_last() =~= names_v.take(k as int));
                            assert(names_v.take(k + 1).last() == names_v[k as int]);
                            assert(requested_pairs(skills_v, names_v.take(k + 1))
                                == requested_pairs(skills_v, names_v.take(k as int))
                                + skv.coefficients);
                            assert(skv.coefficients =~= skv.coefficients.take(j as int)
                                + skv.coefficients.skip(j as int));
                            let p = pairs_done.len() as int;
                            assert(full.take(p + 1) =~= pairs_done.push(
                                skv.coefficients[j as int],
                            ));
                            lemma_tally_fits_prefix(full, p + 1);
                            assert(full.take(p + 1).drop_last() =~= pairs_done);
                            assert(skv.coefficients[j as int] == (vac_name@, coef as int));
                            assert(upsert_fits(tally(pairs_done), vac_name@, coef as int));
                        }
                        apply_coefficient(&mut out, &vac_name, coef);
                        proof {
                            pairs_done = pairs_done.push((vac_name@, coef as int));
                            assert(pairs_done.drop_last() =~= requested_pairs(
                                skills_v,
                                names_v.take(k as int),
                            ) + skv.coefficients.take(j as int));
                            assert(pairs_done =~= requested_pairs(
                                skills_v,
                                names_v.take(k as int),
                            ) + skv.coefficients.take(j + 1));
                            assert(result_view(out@) == tally(pairs_done));
                        }
                        j = j + 1;
                    }
                    proof {
                        assert(skv.coefficients.take(m as int) =~= skv.coefficients);
                        assert(names_v.take(k + 1).drop_last() =~= names_v.take(k as int));
                        assert(names_v.take(k + 1).last() == names_v[k as int]);
                        assert(pairs_done =~= requested_pairs(skills_v, names_v.take(k + 1)));
                    }
                },
            }
            k = k + 1;
        }
        proof {
            assert(names_v.take(n as int) =~= names_v);
            lemma_missing_skill_skip(skills_v, names_v, n as int);
            assert(names_v.skip(n as int) =~= Seq::<Seq<char>>::empty());
        }
        Ok(out)
    }
}

} // verus!

