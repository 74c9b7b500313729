//! The quiz scoring engine.
//!
//! A submission names a question by identifier and lists the chosen answer
//! contents. A submission is correct exactly when its question exists and
//! every chosen content is a registered variant marked correct; choosing a
//! strict subset of the correct variants still counts as fully correct. A
//! submission for an unknown question is skipped — it earns nothing but
//! still counts toward the total. The score is correct count over total; an
//! empty submission list has no score at all.

use vstd::prelude::*;

use crate::models::{Question, QuestionView, AnswerVariant};
use crate::schema::{
    CoefficientScheme, question_lookup, variant_lookup, lemma_question_lookup_skip,
    lemma_variant_lookup_skip,
};
use crate::score::Ratio;

verus! {

/// One quiz submission: the question asked and the answer contents chosen.
pub struct QuestionAnswerResponse {
    pub question_uuid: String,
    pub answers: Vec<String>,
}

/// The mathematical content of a `QuestionAnswerResponse`.
pub struct QAView {
    pub question_uuid: Seq<char>,
    pub answers: Seq<Seq<char>>,
}

impl View for QuestionAnswerResponse {
    type V = QAView;

    open spec fn view(&self) -> QAView {
        QAView { question_uuid: self.question_uuid@, answers: self.answers.deep_view() }
    }
}

impl DeepView for QuestionAnswerResponse {
    type V = QAView;

    open spec fn deep_view(&self) -> QAView {
        self@
    }
}

/// Whether one submission is correct: its question exists and every chosen
/// content is a variant of that question marked correct.
pub open spec fn submission_correct(qs: Seq<QuestionView>, sub: QAView) -> bool {
    match question_lookup(qs, sub.question_uuid) {
        Some(q) => forall|i: int| 0 <= i < sub.answers.len() ==> variant_lookup(
            q.variants,
            #[trigger] sub.answers[i],
        ) == Some(true),
        None => false,
    }
}

/// How many submissions are correct.
pub open spec fn quiz_correct_count(qs: Seq<QuestionView>, subs: Seq<QAView>) -> int
    decreases subs,
{
    if subs.len() == 0 {
        0
    } else {
        quiz_correct_count(qs, subs.drop_last()) + if submission_correct(qs, subs.last()) {
            1int
        } else {
            0int
        }
    }
}

/// The correct count never exceeds the number of submissions.
pub proof fn lemma_quiz_count_bounds(qs: Seq<QuestionView>, subs: Seq<QAView>)
    ensures
        0 <= quiz_correct_count(qs, subs) <= subs.len(),
    decreases subs,
{
    if subs.len() > 0 {
        lemma_quiz_count_bounds(qs, subs.drop_last());
    }
}

/// When every submission is correct, the correct count is the total: the
/// score is exactly one.
pub proof fn lemma_quiz_all_correct(qs: Seq<QuestionView>, subs: Seq<QAView>)
    requires
        forall|k: int| 0 <= k < subs.len() ==> submission_correct(qs, #[trigger] subs[k]),
    ensures
        quiz_correct_count(qs, subs) == subs.len(),
    decreases subs,
{
    if subs.len() > 0 {
        lemma_quiz_all_correct(qs, subs.drop_last());
    }
}

/// One incorrect submission is enough to keep the score below one.
pub proof fn lemma_quiz_not_all_correct(qs: Seq<QuestionView>, subs: Seq<QAView>, k: int)
    requires
        0 <= k < subs.len(),
        !submission_correct(qs, subs[k]),
    ensures
        quiz_correct_count(qs, subs) < subs.len(),
    decreases subs,
{
    if k == subs.len() - 1 {
        lemma_quiz_count_bounds(qs, subs.drop_last());
    } else {
        lemma_quiz_not_all_correct(qs, subs.drop_last(), k);
    }
}

/// A chosen content that is no variant of the question, or one marked
/// incorrect, makes the whole submission incorrect.
pub proof fn lemma_incorrect_choice(qs: Seq<QuestionView>, sub: QAView, j: int)
    requires
        0 <= j < sub.answers.len(),
        question_lookup(qs, sub.question_uuid) matches Some(q) ==> variant_lookup(
            q.variants,
            sub.answers[j],
        ) != Some(true),
    ensures
        !submission_correct(qs, sub),
{
}

/// With unique contents, looking a variant's own content up finds exactly
/// that variant.
pub proof fn lemma_variant_lookup_unique(vs: Seq<(Seq<char>, bool)>, t: int)
    requires
        forall|a: int, b: int|
            #![trigger vs[a], vs[b]]
            0 <= a < b < vs.len() ==> vs[a].0 != vs[b].0,
        0 <= t < vs.len(),
    ensures
        variant_lookup(vs, vs[t].0) == Some(vs[t].1),
    decreases vs,
{
    if t > 0 {
        assert(vs[0].0 != vs[t].0);
        assert forall|a: int, b: int|
            #![trigger vs.drop_first()[a], vs.drop_first()[b]]
            0 <= a < b < vs.drop_first().len() implies vs.drop_first()[a].0
            != vs.drop_first()[b].0 by {
            assert(vs.drop_first()[a] == vs[a + 1]);
            assert(vs.drop_first()[b] == vs[b + 1]);
        }
        lemma_variant_lookup_unique(vs.drop_first(), t - 1);
        assert(vs.drop_first()[t - 1] == vs[t]);
    }
}

/// A submission whose every chosen content is the content of some variant
/// marked correct is itself correct — in particular, submitting exactly the
/// correct variants of an existing question is. The question's variant
/// contents must be unique, as they are in every loaded schema.
pub proof fn lemma_exact_choice_correct(qs: Seq<QuestionView>, sub: QAView)
    requires
        question_lookup(qs, sub.question_uuid) is Some,
        ({
            let q = question_lookup(qs, sub.question_uuid)->0;
            &&& forall|a: int, b: int|
                #![trigger q.variants[a], q.variants[b]]
                0 <= a < b < q.variants.len() ==> q.variants[a].0 != q.variants[b].0
            &&& forall|i: int| 0 <= i < sub.answers.len() ==> exists|t: int|
                0 <= t < q.variants.len() && #[trigger] q.variants[t] == (
                #[trigger] sub.answers[i],
                true,
                )
        }),
    ensures
        submission_correct(qs, sub),
{
    let q = question_lookup(qs, sub.question_uuid)->0;
    assert forall|i: int| 0 <= i < sub.answers.len() implies variant_lookup(
        q.variants,
        #[trigger] sub.answers[i],
    ) == Some(true) by {
        let t = choose|t: int|
            0 <= t < q.variants.len() && #[trigger] q.variants[t] == (sub.answers[i], true);
        lemma_variant_lookup_unique(q.variants, t);
    }
}

fn variant_state(variants: &Vec<AnswerVariant>, content: &String) -> (r: Option<bool>)
    ensures
        r == variant_lookup(variants.deep_view(), content@),
{
    let n = variants.len();
    let ghost vs = variants.deep_view();
    proof {
        assert(vs.len() == variants@.len());
    }
    let mut i: usize = 0;
    while i < n
        invariant
            n == variants@.len(),
            vs == variants.deep_view(),
            vs.len() == n,
            forall|j: int| 0 <= j < vs.len() ==> vs[j] == variants@[j]@,
            0 <= i <= n,
            forall|j: int| 0 <= j < i ==> vs[j].0 != content@,
        decreases n - i,
    {
        if *variants[i].get_content() == *content {
            proof {
                lemma_variant_lookup_skip(vs, content@, i as int);
                assert(vs.skip(i as int)[0] == vs[i as int]);
            }
            return Some(variants[i].get_answer_state());
        }
        i = i + 1;
    }
    proof {
        lemma_variant_lookup_skip(vs, content@, n as int);
        assert(vs.skip(n as int) =~= Seq::<(Seq<char>, bool)>::empty());
    }
    None
}

fn check_submission(questions: &Vec<Question>, sub: &QuestionAnswerResponse) -> (r: bool)
    ensures
        r == submission_correct(questions.deep_view(), sub@),
{
    let n = questions.len();
    let ghost qs = questions.deep_view();
    let mut i: usize = 0;
    while i < n
        invariant
            n == questions@.len(),
            qs == questions.deep_view(),
            qs.len() == n,
            forall|j: int| 0 <= j < qs.len() ==> qs[j] == questions@[j]@,
            0 <= i <= n,
            forall|j: int| 0 <= j < i ==> qs[j].uuid != sub.question_uuid@,
        decreases n - i,
    {
        if *questions[i].get_uuid() == sub.question_uuid {
            proof {
                lemma_question_lookup_skip(qs, sub.question_uuid@, i as int);
                assert(qs.skip(i as int)[0] == qs[i as int]);
            }
            let variants = questions[i].get_variants();
            let m = sub.answers.len();
            let mut k: usize = 0;
            while k < m
                invariant
                    m == sub.answers@.len(),
                    qs == questions.deep_view(),
                    0 <= i < qs.len(),
                    question_lookup(qs, sub.question_uuid@) == Some(qs[i as int]),
                    variants.deep_view() == qs[i as int].variants,
                    0 <= k <= m,
                    forall|j: int| 0 <= j < k ==> variant_lookup(
                        qs[i as int].variants,
                        #[trigger] sub.answers.deep_view()[j],
                    ) == Some(true),
                decreases m - k,
            {
                let state = variant_state(variants, &sub.answers[k]);
                let ok = match state {
                    Some(true) => true,
                    _ => false,
                };
                if !ok {
                    proof {
                        assert(sub.answers.deep_view()[k as int] == sub.answers@[k as int]@);
                        assert(variant_lookup(
                            qs[i as int].variants,
                            sub@.answers[k as int],
                        ) != Some(true));
                    }
                    return false;
                }
                k = k + 1;
            }
            return true;
        }
        i = i + 1;
    }
    proof {
        lemma_question_lookup_skip(qs, sub.question_uuid@, n as int);
        assert(qs.skip(n as int) =~= Seq::<QuestionView>::empty());
    }
    false
}

impl CoefficientScheme {
    /// Scores a quiz: the number of correct submissions over the number of
    /// submissions. A submission naming an unknown question earns nothing
    /// but still counts toward the total. An empty submission list would
    /// divide by zero, so it has no score.
    pub fn score_quiz(&self, answers: &Vec<QuestionAnswerResponse>) -> (r: Option<Ratio>)
        ensures
            r is Some <==> answers@.len() > 0,
            r matches Some(score) ==> ({
                &&& score.num as int == quiz_correct_count(self@.questions, answers.deep_view())
                &&& score.den == answers@.len()
                &&& score.num <= score.den
                &&& score.wf()
            }),
    {
        let n = answers.len();
        if n == 0 {
            return None;
        }
        let ghost qs = self@.questions;
        let ghost subs = answers.deep_view();
        let questions = self.get_questions();
        let mut correct: usize = 0;
        let mut i: usize = 0;
        while i < n
            invariant
                n == answers@.len(),
                qs == self@.questions,
                questions.deep_view() == qs,
                subs == answers.deep_view(),
                subs.len() == n,
                forall|j: int| 0 <= j < subs.len() ==> subs[j] == answers@[j]@,
                0 <= i <= n,
                correct <= i,
                correct as int == quiz_correct_count(qs, subs.take(i as int)),
            decreases n - i,
        {
            proof {
                assert(subs.take(i + 1).drop_last() =~= subs.take(i as int));
                assert(subs.take(i + 1).last() == subs[i as int]);
            }
            if check_submission(questions, &answers[i]) {
                correct = correct + 1;
            }
            i = i + 1;
        }
        proof {
            assert(subs.take(n as int) =~= subs);
        }
        Some(Ratio { num: correct as u64, den: n as u64 })
    }
}

} // verus!
