//! The application-facing layer: the loaded application state, the request
//! and response shapes of the exposed operations, and the single mutable
//! results slot.

use vstd::prelude::*;

use crate::document::ConfigValue;
use crate::models::{Vacancy, Skill, Company, Question};
use crate::schema::{
    CoefficientScheme, SchemaError, SchemeView, scheme_doc_ok, scheme_view_ok, company_lookup,
};
use crate::score::Ratio;
use crate::recommend::{missing_skill, requested_pairs, tally, tally_fits, result_view};
use crate::placement::{placement_score, placement_fits};
use crate::quiz::{QuestionAnswerResponse, quiz_correct_count};

verus! {

/// An application-level failure: a load failure, or a lookup failure with a
/// human-readable name and description.
#[derive(Debug)]
pub enum AppError {
    SchemaError(SchemaError),
    Custom { name: String, description: String },
}

impl From<SchemaError> for AppError {
    fn from(value: SchemaError) -> (r: Self)
        ensures
            r == AppError::SchemaError(value),
    {
        AppError::SchemaError(value)
    }
}

impl vstd::std_specs::convert::FromSpecImpl<SchemaError> for AppError {
    open spec fn obeys_from_spec() -> bool {
        true
    }

    open spec fn from_spec(value: SchemaError) -> Self {
        AppError::SchemaError(value)
    }
}

/// A candidate and the skills they claim.
pub struct WorkerRequest {
    pub name: String,
    pub skills: Vec<String>,
}

/// The candidate's name and the per-vacancy scores their skills earn, in
/// order of first mention by the requested skills.
pub struct WorkerResponse {
    pub name: String,
    pub vacancies: Vec<(String, i64)>,
}

/// The loaded application state: the schema, built once at startup.
pub struct ManagementApp {
    schema: CoefficientScheme,
}

impl View for ManagementApp {
    type V = SchemeView;

    closed spec fn view(&self) -> SchemeView {
        self.schema@
    }
}

impl ManagementApp {
    /// Builds the application state from a configuration document; a load
    /// failure is fatal and no partial state is ever returned.
    pub fn new(document: &ConfigValue) -> (r: Result<Self, AppError>)
        ensures
            r is Ok <==> scheme_doc_ok(document@),
            r matches Ok(app) ==> scheme_view_ok(document@, app@),
            r matches Err(e) ==> e is SchemaError,
    {
        match CoefficientScheme::new(document) {
            Ok(schema) => Ok(ManagementApp { schema }),
            Err(e) => Err(AppError::SchemaError(e)),
        }
    }

    pub fn get_skills(&self) -> (r: &Vec<Skill>)
        ensures
            r.deep_view() == self@.skills,
    {
        self.schema.get_skills()
    }

    pub fn get_vacancies(&self) -> (r: &Vec<Vacancy>)
        ensures
            r.deep_view() == self@.vacancies,
    {
        self.schema.get_vacancies()
    }

    pub fn get_questions(&self) -> (r: &Vec<Question>)
        ensures
            r.deep_view() == self@.questions,
    {
        self.schema.get_questions()
    }

    /// The names of all companies, in schema order.
    pub fn get_companies(&self) -> (r: Vec<String>)
        ensures
            r.deep_view().len() == self@.companies.len(),
            forall|j: int| 0 <= j < self@.companies.len() ==> r.deep_view()[j]
                == self@.companies[j].name,
    {
        let companies = self.schema.get_companies();
        let n = companies.len();
        let mut out: Vec<String> = Vec::new();
        let mut i: usize = 0;
        while i < n
            invariant
                n == companies@.len(),
                companies.deep_view() == self@.companies,
                self@.companies.len() == n,
                forall|j: int| 0 <= j < n ==> self@.companies[j] == companies@[j]@,
                0 <= i <= n,
                out@.len() == i,
                forall|j: int| 0 <= j < i ==> out@[j]@ == self@.companies[j].name,
            decreases n - i,
        {
            out.push(companies[i].name().clone());
            i = i + 1;
        }
        proof {
            assert forall|j: int| 0 <= j < n implies out.deep_view()[j]
                == self@.companies[j].name by {
                assert(out.deep_view()[j] == out@[j]@);
            }
        }
        out
    }

    /// The company of that name, cloned for the caller, or nothing.
    pub fn get_current_company(&self, company_name: &String) -> (r: Option<Company>)
        ensures
            match r {
                Some(c) => company_lookup(self@.companies, company_name@) == Some(c@),
                None => company_lookup(self@.companies, company_name@) is None,
            },
    {
        match self.schema.get_current_company(company_name) {
            Some(c) => Some(c.clone()),
            None => None,
        }
    }

    /// Scores the candidate's skills against every vacancy; the response
    /// keeps the candidate's name. Fails on the first unknown skill name.
    pub fn get_vacancies_for_worker(&self, worker: WorkerRequest) -> (r: Result<
        WorkerResponse,
        AppError,
    >)
        requires
            tally_fits(requested_pairs(self@.skills, worker.skills.deep_view())),
        ensures
            r is Err <==> missing_skill(self@.skills, worker.skills.deep_view()) is Some,
            r matches Ok(resp) ==> resp.name@ == worker.name@ && result_view(resp.vacancies@)
                == tally(requested_pairs(self@.skills, worker.skills.deep_view())),
            r matches Err(e) ==> (e matches AppError::Custom { name, description }
                && name@ == "Not Found"@ && description@ == "Skill not found in schema"@),
    {
        let WorkerRequest { name, skills } = worker;
        match self.schema.recommend_for_skills(&skills) {
            Ok(vacancies) => Ok(WorkerResponse { name, vacancies }),
            Err(e) => Err(e),
        }
    }

    /// Scores a placement submission against the named company's role tree.
    pub fn check_placement(
        &self,
        company_name: &String,
        placements: &Vec<(String, Vec<String>)>,
    ) -> (r: Ratio)
        requires
            placement_fits(self@, company_name@, placements.deep_view()),
        ensures
            r.num as int == placement_score(self@, company_name@, placements.deep_view()).0,
            r.den as int == placement_score(self@, company_name@, placements.deep_view()).1,
            r.wf(),
    {
        self.schema.score_placement(company_name, placements)
    }

    /// Scores a quiz: correct submissions over total submissions. An empty
    /// submission list would divide by zero and is a caller error instead.
    pub fn get_questions_answers(&self, answers: &Vec<QuestionAnswerResponse>) -> (r: Result<
        Ratio,
        AppError,
    >)
        ensures
            r is Ok <==> answers@.len() > 0,
            r matches Ok(score) ==> ({
                &&& score.num as int == quiz_correct_count(self@.questions, answers.deep_view())
                &&& score.den == answers@.len()
                &&& score.num <= score.den
                &&& score.wf()
            }),
    {
        match self.schema.score_quiz(answers) {
            Some(score) => Ok(score),
            None => Err(
                AppError::Custom {
                    name: "Division by zero".to_owned(),
                    description: "there are no submissions to score".to_owned(),
                },
            ),
        }
    }

    /// The question with the given identifier; it must exist in the schema.
    pub fn get_question_by_uuid(&self, uuid: &String) -> (r: Question)
        requires
            crate::schema::question_lookup(self@.questions, uuid@) is Some,
        ensures
            crate::schema::question_lookup(self@.questions, uuid@) == Some(r@),
    {
        self.schema.get_question_by_uuid(uuid)
    }
}

// ---------------------------------------------------------------------------
// The single mutable results slot.
// ---------------------------------------------------------------------------

/// One answered question and whether the answer was counted correct.
pub struct AnswerResultRequest {
    pub question_uuid: String,
    pub answer_result: bool,
}

impl View for AnswerResultRequest {
    type V = (Seq<char>, bool);

    open spec fn view(&self) -> (Seq<char>, bool) {
        (self.question_uuid@, self.answer_result)
    }
}

impl DeepView for AnswerResultRequest {
    type V = (Seq<char>, bool);

    open spec fn deep_view(&self) -> (Seq<char>, bool) {
        self@
    }
}

/// One candidate's saved results: quiz outcomes and the vacancy score.
pub struct UserSaveResult {
    pub name: String,
    pub test_results: Option<Vec<AnswerResultRequest>>,
    pub vacancy_results: Option<Ratio>,
}

/// The mathematical content of a `UserSaveResult`.
pub struct UserSaveView {
    pub name: Seq<char>,
    pub test_results: Option<Seq<(Seq<char>, bool)>>,
    pub vacancy_results: Option<Ratio>,
}

pub open spec fn opt_results_view(
    o: Option<Vec<AnswerResultRequest>>,
) -> Option<Seq<(Seq<char>, bool)>> {
    match o {
        Some(v) => Some(v.deep_view()),
        None => None,
    }
}

impl View for UserSaveResult {
    type V = UserSaveView;

    open spec fn view(&self) -> UserSaveView {
        UserSaveView {
            name: self.name@,
            test_results: opt_results_view(self.test_results),
            vacancy_results: self.vacancy_results,
        }
    }
}

impl DeepView for UserSaveResult {
    type V = UserSaveView;

    open spec fn deep_view(&self) -> UserSaveView {
        self@
    }
}

/// Everything saved by the most recent submission.
pub struct AllSave(pub Vec<UserSaveResult>);

/// The single mutable slot holding the most recent submitted results. It
/// starts empty; every save overwrites the whole slot with one candidate's
/// results; a read hands the most recent save back and requires one.
pub struct ResultsCache {
    saved: Option<AllSave>,
}

impl View for ResultsCache {
    type V = Option<Seq<UserSaveView>>;

    closed spec fn view(&self) -> Option<Seq<UserSaveView>> {
        match self.saved {
            Some(ref a) => Some(a.0.deep_view()),
            None => None,
        }
    }
}

impl ResultsCache {
    /// A cache with nothing saved yet.
    pub fn empty() -> (r: ResultsCache)
        ensures
            r@ is None,
    {
        ResultsCache { saved: None }
    }

    /// Overwrites the slot with one candidate's results.
    pub fn save_test(
        &mut self,
        name: String,
        test_results: Option<Vec<AnswerResultRequest>>,
        vacancy_results: Option<Ratio>,
    )
        ensures
            final(self)@ matches Some(s) && s.len() == 1 && s[0] == (UserSaveView {
                name: name@,
                test_results: opt_results_view(test_results),
                vacancy_results,
            }),
    {
        let entry = UserSaveResult { name, test_results, vacancy_results };
        let mut all: Vec<UserSaveResult> = Vec::new();
        all.push(entry);
        self.saved = Some(AllSave(all));
        proof {
            let s = self@->0;
            assert(s[0] == all@[0]@);
        }
    }

    /// The most recent save; something must have been saved.
    pub fn get_saved_result(&self) -> (r: &AllSave)
        requires
            self@ is Some,
        ensures
            Some(r.0.deep_view()) == self@,
    {
        match &self.saved {
            Some(a) => a,
            None => unreached(),
        }
    }
}

} // verus!
