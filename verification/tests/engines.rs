use management_core::api::{ManagementApp, AppError, WorkerRequest, ResultsCache};
use management_core::document::ConfigValue;
use management_core::quiz::QuestionAnswerResponse;
use management_core::score::Ratio;

fn txt(s: &str) -> ConfigValue {
    ConfigValue::Text(s.to_string())
}

fn obj(entries: Vec<(&str, ConfigValue)>) -> ConfigValue {
    ConfigValue::Object(entries.into_iter().map(|(k, v)| (k.to_string(), v)).collect())
}

fn arr(items: Vec<ConfigValue>) -> ConfigValue {
    ConfigValue::Array(items)
}

fn variant(content: &str, is_answer: bool) -> ConfigValue {
    obj(vec![("content", txt(content)), ("is_answer", ConfigValue::Bool(is_answer))])
}

fn leaf(role: &str, target: &str) -> ConfigValue {
    obj(vec![("label", obj(vec![(role, txt(target))]))])
}

fn node(role: &str, target: &str, children: Vec<ConfigValue>) -> ConfigValue {
    obj(vec![("label", obj(vec![(role, txt(target))])), ("children", arr(children))])
}

fn sample_app() -> ManagementApp {
    let doc = obj(vec![
        ("vacancies", arr(vec![txt("v1"), txt("v2")])),
        (
            "skills",
            obj(vec![
                (
                    "A",
                    obj(vec![("v1", ConfigValue::Int(3)), ("v2", ConfigValue::Int(1))]),
                ),
                ("B", obj(vec![("v2", ConfigValue::Int(5))])),
            ]),
        ),
        (
            "jobs",
            obj(vec![(
                "companies",
                obj(vec![
                    ("single", leaf("roleX", "v1")),
                    (
                        "triple",
                        node("root", "v1", vec![leaf("a", "v2"), leaf("b", "v1")]),
                    ),
                ]),
            )]),
        ),
        (
            "questions",
            arr(vec![
                obj(vec![
                    ("uuid", txt("q-1")),
                    ("title", txt("first")),
                    (
                        "variants",
                        arr(vec![variant("yes", true), variant("also", true), variant("no", false)]),
                    ),
                ]),
                obj(vec![
                    ("uuid", txt("q-2")),
                    ("title", txt("second")),
                    ("variants", arr(vec![variant("da", true), variant("net", false)])),
                ]),
            ]),
        ),
    ]);
    ManagementApp::new(&doc).unwrap()
}

fn placements(entries: Vec<(&str, Vec<&str>)>) -> Vec<(String, Vec<String>)> {
    entries
        .into_iter()
        .map(|(role, vs)| (role.to_string(), vs.into_iter().map(|v| v.to_string()).collect()))
        .collect()
}

fn answers(entries: Vec<(&str, Vec<&str>)>) -> Vec<QuestionAnswerResponse> {
    entries
        .into_iter()
        .map(|(uuid, chosen)| QuestionAnswerResponse {
            question_uuid: uuid.to_string(),
            answers: chosen.into_iter().map(|c| c.to_string()).collect(),
        })
        .collect()
}

fn as_f64(r: Ratio) -> f64 {
    r.num as f64 / r.den as f64
}

#[test]
fn recommend_single_skill_exact_sums() {
    let app = sample_app();
    let resp = app
        .get_vacancies_for_worker(WorkerRequest {
            name: "candidate".to_string(),
            skills: vec!["A".to_string()],
        })
        .unwrap();
    assert_eq!(resp.name, "candidate");
    assert_eq!(resp.vacancies.len(), 2);
    assert_eq!(resp.vacancies[0], ("v1".to_string(), 3));
    assert_eq!(resp.vacancies[1], ("v2".to_string(), 1));
}

#[test]
fn recommend_accumulates_across_skills() {
    let app = sample_app();
    let resp = app
        .get_vacancies_for_worker(WorkerRequest {
            name: "candidate".to_string(),
            skills: vec!["A".to_string(), "B".to_string(), "A".to_string()],
        })
        .unwrap();
    assert_eq!(resp.vacancies.len(), 2);
    assert_eq!(resp.vacancies[0], ("v1".to_string(), 6));
    assert_eq!(resp.vacancies[1], ("v2".to_string(), 7));
}

#[test]
fn recommend_unknown_skill_fails() {
    let app = sample_app();
    let r = app.get_vacancies_for_worker(WorkerRequest {
        name: "candidate".to_string(),
        skills: vec!["A".to_string(), "unheard-of".to_string()],
    });
    match r {
        Err(AppError::Custom { name, description }) => {
            assert_eq!(name, "Not Found");
            assert_eq!(description, "Skill not found in schema");
        },
        _ => panic!("an unknown skill must fail, never zero-fill"),
    }
}

#[test]
fn placement_single_role_first_choice_scores_quarter() {
    let app = sample_app();
    let score = app.check_placement(
        &"single".to_string(),
        &placements(vec![("roleX", vec!["v1"])]),
    );
    assert_eq!(score, Ratio { num: 1, den: 4 });
    assert_eq!(as_f64(score), 0.25);
}

#[test]
fn placement_full_cover_first_choice_scores_quarter() {
    let app = sample_app();
    let score = app.check_placement(
        &"triple".to_string(),
        &placements(vec![
            ("root", vec!["v1", "v2"]),
            ("a", vec!["v2", "v1"]),
            ("b", vec!["v1", "v2"]),
        ]),
    );
    // Three nodes, each matched exactly at rank zero: correctness equals the
    // node count, so the score is exactly one quarter.
    assert_eq!(score, Ratio { num: 3, den: 12 });
    assert_eq!(as_f64(score), 0.25);
}

#[test]
fn placement_empty_scores_zero_without_failing() {
    let app = sample_app();
    let score = app.check_placement(&"triple".to_string(), &placements(vec![]));
    assert_eq!(score, Ratio { num: 0, den: 1 });
    assert_eq!(as_f64(score), 0.0);
}

#[test]
fn placement_unknown_company_scores_zero() {
    let app = sample_app();
    let score = app.check_placement(&"nowhere".to_string(), &placements(vec![("roleX", vec!["v1"])]));
    assert_eq!(score, Ratio { num: 0, den: 1 });
}

#[test]
fn placement_second_rank_scores_half_weight() {
    let app = sample_app();
    let score = app.check_placement(
        &"single".to_string(),
        &placements(vec![("roleX", vec!["v2", "v1"])]),
    );
    // One node, matched at rank one: correctness 1/2, score (1/2) / 4.
    assert_eq!(score, Ratio { num: 1, den: 8 });
    assert_eq!(as_f64(score), 0.125);
}

#[test]
fn placement_repeated_matches_accumulate() {
    let app = sample_app();
    let score = app.check_placement(
        &"single".to_string(),
        &placements(vec![("roleX", vec!["v1", "v1"])]),
    );
    // Matches at rank zero and rank one both accumulate: 1 + 1/2 = 3/2,
    // so the score is (3/2) / 4 = 3/8.
    assert_eq!(score, Ratio { num: 3, den: 8 });
}

#[test]
fn placement_skips_roles_without_submission() {
    let app = sample_app();
    let score = app.check_placement(
        &"triple".to_string(),
        &placements(vec![("a", vec!["v2"])]),
    );
    // Only one node had a submission: it neither helps nor hurts the others.
    assert_eq!(score, Ratio { num: 1, den: 4 });
}

#[test]
fn quiz_all_correct_scores_one() {
    let app = sample_app();
    let score = app
        .get_questions_answers(&answers(vec![
            ("q-1", vec!["yes", "also"]),
            ("q-2", vec!["da"]),
        ]))
        .unwrap();
    assert_eq!(score, Ratio { num: 2, den: 2 });
    assert_eq!(as_f64(score), 1.0);
}

#[test]
fn quiz_subset_of_correct_variants_still_counts() {
    let app = sample_app();
    let score = app
        .get_questions_answers(&answers(vec![("q-1", vec!["yes"])]))
        .unwrap();
    assert_eq!(score, Ratio { num: 1, den: 1 });
}

#[test]
fn quiz_one_incorrect_content_fails_that_question() {
    let app = sample_app();
    let score = app
        .get_questions_answers(&answers(vec![
            ("q-1", vec!["yes", "no"]),
            ("q-2", vec!["da"]),
        ]))
        .unwrap();
    assert_eq!(score, Ratio { num: 1, den: 2 });
    assert_eq!(as_f64(score), 0.5);
}

#[test]
fn quiz_unregistered_content_fails_that_question() {
    let app = sample_app();
    let score = app
        .get_questions_answers(&answers(vec![("q-2", vec!["da", "absent"])]))
        .unwrap();
    assert_eq!(score, Ratio { num: 0, den: 1 });
}

#[test]
fn quiz_unknown_question_counts_in_total_only() {
    let app = sample_app();
    let score = app
        .get_questions_answers(&answers(vec![
            ("q-unknown", vec!["yes"]),
            ("q-2", vec!["da"]),
        ]))
        .unwrap();
    assert_eq!(score, Ratio { num: 1, den: 2 });
}

#[test]
fn quiz_empty_submission_list_fails() {
    let app = sample_app();
    assert!(app.get_questions_answers(&answers(vec![])).is_err());
}

#[test]
fn get_companies_lists_names_in_schema_order() {
    let app = sample_app();
    assert_eq!(app.get_companies(), vec!["single".to_string(), "triple".to_string()]);
}

#[test]
fn get_current_company_finds_and_misses() {
    let app = sample_app();
    let c = app.get_current_company(&"single".to_string()).unwrap();
    assert_eq!(c.name(), "single");
    assert!(app.get_current_company(&"nowhere".to_string()).is_none());
}

#[test]
fn results_cache_saves_and_reads_back() {
    let mut cache = ResultsCache::empty();
    cache.save_test(
        "candidate".to_string(),
        None,
        Some(Ratio { num: 1, den: 4 }),
    );
    let saved = cache.get_saved_result();
    assert_eq!(saved.0.len(), 1);
    assert_eq!(saved.0[0].name, "candidate");
    assert!(saved.0[0].test_results.is_none());
    assert_eq!(saved.0[0].vacancy_results, Some(Ratio { num: 1, den: 4 }));
}

#[test]
fn results_cache_overwrites_previous_save() {
    let mut cache = ResultsCache::empty();
    cache.save_test("first".to_string(), None, None);
    cache.save_test("second".to_string(), None, Some(Ratio { num: 1, den: 2 }));
    let saved = cache.get_saved_result();
    assert_eq!(saved.0.len(), 1);
    assert_eq!(saved.0[0].name, "second");
}

#[test]
fn app_load_failure_is_schema_error() {
    let bad = obj(vec![("vacancies", txt("not-an-array"))]);
    match ManagementApp::new(&bad) {
        Err(AppError::SchemaError(_)) => {},
        _ => panic!("a structural mismatch must fail the whole load"),
    }
}

#[test]
fn question_lookup_by_uuid_via_app() {
    let app = sample_app();
    let q = app.get_question_by_uuid(&"q-2".to_string());
    assert_eq!(q.get_title(), "second");
}
