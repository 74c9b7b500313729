use management_core::document::ConfigValue;
use management_core::schema::CoefficientScheme;

fn txt(s: &str) -> ConfigValue {
    ConfigValue::Text(s.to_string())
}

fn obj(entries: Vec<(&str, ConfigValue)>) -> ConfigValue {
    ConfigValue::Object(entries.into_iter().map(|(k, v)| (k.to_string(), v)).collect())
}

fn arr(items: Vec<ConfigValue>) -> ConfigValue {
    ConfigValue::Array(items)
}

fn variant(content: &str, is_answer: bool) -> ConfigValue {
    obj(vec![("content", txt(content)), ("is_answer", ConfigValue::Bool(is_answer))])
}

fn leaf(role: &str, target: &str) -> ConfigValue {
    obj(vec![("label", obj(vec![(role, txt(target))]))])
}

fn node(role: &str, target: &str, children: Vec<ConfigValue>) -> ConfigValue {
    obj(vec![("label", obj(vec![(role, txt(target))])), ("children", arr(children))])
}

fn sample_doc() -> ConfigValue {
    obj(vec![
        ("vacancies", arr(vec![txt("v1"), txt("v2")])),
        (
            "skills",
            obj(vec![(
                "A",
                obj(vec![("v1", ConfigValue::Int(3)), ("v2", ConfigValue::Int(1))]),
            )]),
        ),
        (
            "jobs",
            obj(vec![(
                "companies",
                obj(vec![("c1", node("roleX", "v1", vec![leaf("roleY", "v2")]))]),
            )]),
        ),
        (
            "questions",
            arr(vec![obj(vec![
                ("uuid", txt("q-1")),
                ("title", txt("first question")),
                ("variants", arr(vec![variant("yes", true), variant("no", false)])),
            ])]),
        ),
    ])
}

#[test]
fn load_sample_and_read_back() {
    let scheme = CoefficientScheme::new(&sample_doc()).unwrap();

    let vacancies = scheme.get_vacancies();
    assert_eq!(vacancies.len(), 2);
    assert_eq!(vacancies[0].0, "v1");
    assert_eq!(vacancies[1].0, "v2");

    let skills = scheme.get_skills();
    assert_eq!(skills.len(), 1);
    assert_eq!(skills[0].name, "A");
    let coeffs = skills[0].get_vacancies_coefficient();
    assert_eq!(coeffs.len(), 2);
    assert_eq!(coeffs[0].get_vacancy_name(), "v1");
    assert_eq!(coeffs[0].get_coefficient(), 3);
    assert_eq!(coeffs[1].get_vacancy_name(), "v2");
    assert_eq!(coeffs[1].get_coefficient(), 1);

    let companies = scheme.get_companies();
    assert_eq!(companies.len(), 1);
    assert_eq!(companies[0].name(), "c1");
    let root = companies[0].tree();
    assert_eq!(root.label().0, "roleX");
    assert_eq!(root.label().1, "v1");

    let questions = scheme.get_questions();
    assert_eq!(questions.len(), 1);
    assert_eq!(questions[0].get_uuid(), "q-1");
    assert_eq!(questions[0].get_title(), "first question");
    assert_eq!(questions[0].get_variants().len(), 2);
}

#[test]
fn vacancy_duplicates_keep_first() {
    let doc = obj(vec![
        ("vacancies", arr(vec![txt("v1"), txt("v2"), txt("v1")])),
        ("skills", obj(vec![])),
        ("jobs", obj(vec![("companies", obj(vec![]))])),
        ("questions", arr(vec![])),
    ]);
    let scheme = CoefficientScheme::new(&doc).unwrap();
    let vacancies = scheme.get_vacancies();
    assert_eq!(vacancies.len(), 2);
    assert_eq!(vacancies[0].0, "v1");
    assert_eq!(vacancies[1].0, "v2");
}

#[test]
fn skill_duplicates_keep_first() {
    let doc = obj(vec![
        ("vacancies", arr(vec![txt("v1")])),
        (
            "skills",
            obj(vec![
                ("A", obj(vec![("v1", ConfigValue::Int(3))])),
                ("A", obj(vec![("v1", ConfigValue::Int(9))])),
            ]),
        ),
        ("jobs", obj(vec![("companies", obj(vec![]))])),
        ("questions", arr(vec![])),
    ]);
    let scheme = CoefficientScheme::new(&doc).unwrap();
    let skills = scheme.get_skills();
    assert_eq!(skills.len(), 1);
    assert_eq!(skills[0].get_vacancies_coefficient()[0].get_coefficient(), 3);
}

#[test]
fn vacancies_missing_fails() {
    let doc = obj(vec![
        ("skills", obj(vec![])),
        ("jobs", obj(vec![("companies", obj(vec![]))])),
        ("questions", arr(vec![])),
    ]);
    assert!(CoefficientScheme::new(&doc).is_err());
}

#[test]
fn vacancies_not_array_fails() {
    let doc = obj(vec![
        ("vacancies", obj(vec![])),
        ("skills", obj(vec![])),
        ("jobs", obj(vec![("companies", obj(vec![]))])),
        ("questions", arr(vec![])),
    ]);
    assert!(CoefficientScheme::new(&doc).is_err());
}

#[test]
fn vacancy_not_text_fails() {
    let doc = obj(vec![
        ("vacancies", arr(vec![txt("v1"), ConfigValue::Int(7)])),
        ("skills", obj(vec![])),
        ("jobs", obj(vec![("companies", obj(vec![]))])),
        ("questions", arr(vec![])),
    ]);
    assert!(CoefficientScheme::new(&doc).is_err());
}

#[test]
fn skills_not_object_fails() {
    let doc = obj(vec![
        ("vacancies", arr(vec![txt("v1")])),
        ("skills", arr(vec![])),
        ("jobs", obj(vec![("companies", obj(vec![]))])),
        ("questions", arr(vec![])),
    ]);
    assert!(CoefficientScheme::new(&doc).is_err());
}

#[test]
fn skill_referencing_unknown_vacancy_fails() {
    let doc = obj(vec![
        ("vacancies", arr(vec![txt("v1")])),
        ("skills", obj(vec![("A", obj(vec![("ghost-vacancy", ConfigValue::Int(2))]))])),
        ("jobs", obj(vec![("companies", obj(vec![]))])),
        ("questions", arr(vec![])),
    ]);
    assert!(CoefficientScheme::new(&doc).is_err());
}

#[test]
fn skill_coefficient_not_integer_fails() {
    let doc = obj(vec![
        ("vacancies", arr(vec![txt("v1")])),
        ("skills", obj(vec![("A", obj(vec![("v1", txt("three"))]))])),
        ("jobs", obj(vec![("companies", obj(vec![]))])),
        ("questions", arr(vec![])),
    ]);
    assert!(CoefficientScheme::new(&doc).is_err());
}

#[test]
fn companies_not_object_fails() {
    let doc = obj(vec![
        ("vacancies", arr(vec![txt("v1")])),
        ("skills", obj(vec![])),
        ("jobs", obj(vec![("companies", arr(vec![]))])),
        ("questions", arr(vec![])),
    ]);
    assert!(CoefficientScheme::new(&doc).is_err());
}

#[test]
fn jobs_missing_fails() {
    let doc = obj(vec![
        ("vacancies", arr(vec![txt("v1")])),
        ("skills", obj(vec![])),
        ("questions", arr(vec![])),
    ]);
    assert!(CoefficientScheme::new(&doc).is_err());
}

#[test]
fn company_label_missing_fails() {
    let doc = obj(vec![
        ("vacancies", arr(vec![txt("v1")])),
        ("skills", obj(vec![])),
        ("jobs", obj(vec![("companies", obj(vec![("c1", obj(vec![]))]))])),
        ("questions", arr(vec![])),
    ]);
    assert!(CoefficientScheme::new(&doc).is_err());
}

#[test]
fn company_label_with_two_entries_fails() {
    let bad = obj(vec![("label", obj(vec![("roleX", txt("v1")), ("roleY", txt("v1"))]))]);
    let doc = obj(vec![
        ("vacancies", arr(vec![txt("v1")])),
        ("skills", obj(vec![])),
        ("jobs", obj(vec![("companies", obj(vec![("c1", bad)]))])),
        ("questions", arr(vec![])),
    ]);
    assert!(CoefficientScheme::new(&doc).is_err());
}

#[test]
fn company_children_not_array_fails() {
    let bad = obj(vec![
        ("label", obj(vec![("roleX", txt("v1"))])),
        ("children", txt("nothing")),
    ]);
    let doc = obj(vec![
        ("vacancies", arr(vec![txt("v1")])),
        ("skills", obj(vec![])),
        ("jobs", obj(vec![("companies", obj(vec![("c1", bad)]))])),
        ("questions", arr(vec![])),
    ]);
    assert!(CoefficientScheme::new(&doc).is_err());
}

#[test]
fn company_children_null_reads_as_leaf() {
    let with_null = obj(vec![
        ("label", obj(vec![("roleX", txt("v1"))])),
        ("children", ConfigValue::Null),
    ]);
    let doc = obj(vec![
        ("vacancies", arr(vec![txt("v1")])),
        ("skills", obj(vec![])),
        ("jobs", obj(vec![("companies", obj(vec![("c1", with_null)]))])),
        ("questions", arr(vec![])),
    ]);
    let scheme = CoefficientScheme::new(&doc).unwrap();
    let nodes = scheme.get_companies()[0].tree().get_iter();
    assert_eq!(nodes.len(), 1);
}

#[test]
fn questions_not_array_fails() {
    let doc = obj(vec![
        ("vacancies", arr(vec![txt("v1")])),
        ("skills", obj(vec![])),
        ("jobs", obj(vec![("companies", obj(vec![]))])),
        ("questions", obj(vec![])),
    ]);
    assert!(CoefficientScheme::new(&doc).is_err());
}

#[test]
fn question_missing_title_fails() {
    let doc = obj(vec![
        ("vacancies", arr(vec![txt("v1")])),
        ("skills", obj(vec![])),
        ("jobs", obj(vec![("companies", obj(vec![]))])),
        ("questions", arr(vec![obj(vec![("variants", arr(vec![]))])])),
    ]);
    assert!(CoefficientScheme::new(&doc).is_err());
}

#[test]
fn question_variant_missing_content_fails() {
    let bad_variant = obj(vec![("is_answer", ConfigValue::Bool(true))]);
    let doc = obj(vec![
        ("vacancies", arr(vec![txt("v1")])),
        ("skills", obj(vec![])),
        ("jobs", obj(vec![("companies", obj(vec![]))])),
        (
            "questions",
            arr(vec![obj(vec![("title", txt("t")), ("variants", arr(vec![bad_variant]))])]),
        ),
    ]);
    assert!(CoefficientScheme::new(&doc).is_err());
}

#[test]
fn question_uuid_not_text_fails() {
    let doc = obj(vec![
        ("vacancies", arr(vec![txt("v1")])),
        ("skills", obj(vec![])),
        ("jobs", obj(vec![("companies", obj(vec![]))])),
        (
            "questions",
            arr(vec![obj(vec![
                ("uuid", ConfigValue::Int(5)),
                ("title", txt("t")),
                ("variants", arr(vec![])),
            ])]),
        ),
    ]);
    assert!(CoefficientScheme::new(&doc).is_err());
}

#[test]
fn question_without_uuid_gets_generated_identifier() {
    let doc = obj(vec![
        ("vacancies", arr(vec![txt("v1")])),
        ("skills", obj(vec![])),
        ("jobs", obj(vec![("companies", obj(vec![]))])),
        (
            "questions",
            arr(vec![obj(vec![
                ("title", txt("t")),
                ("variants", arr(vec![variant("yes", true)])),
            ])]),
        ),
    ]);
    let scheme = CoefficientScheme::new(&doc).unwrap();
    let questions = scheme.get_questions();
    assert_eq!(questions.len(), 1);
    // A generated identifier is the 36-character hyphenated rendering.
    assert_eq!(questions[0].get_uuid().len(), 36);
    assert_eq!(questions[0].get_uuid().matches('-').count(), 4);
}

#[test]
fn questions_with_same_uuid_keep_first() {
    let q = |title: &str| {
        obj(vec![
            ("uuid", txt("q-1")),
            ("title", txt(title)),
            ("variants", arr(vec![])),
        ])
    };
    let doc = obj(vec![
        ("vacancies", arr(vec![txt("v1")])),
        ("skills", obj(vec![])),
        ("jobs", obj(vec![("companies", obj(vec![]))])),
        ("questions", arr(vec![q("first"), q("second")])),
    ]);
    let scheme = CoefficientScheme::new(&doc).unwrap();
    let questions = scheme.get_questions();
    assert_eq!(questions.len(), 1);
    assert_eq!(questions[0].get_title(), "first");
}

#[test]
fn variant_duplicates_keep_first() {
    let doc = obj(vec![
        ("vacancies", arr(vec![txt("v1")])),
        ("skills", obj(vec![])),
        ("jobs", obj(vec![("companies", obj(vec![]))])),
        (
            "questions",
            arr(vec![obj(vec![
                ("uuid", txt("q-1")),
                ("title", txt("t")),
                ("variants", arr(vec![variant("yes", true), variant("yes", false)])),
            ])]),
        ),
    ]);
    let scheme = CoefficientScheme::new(&doc).unwrap();
    let variants = scheme.get_questions()[0].get_variants();
    assert_eq!(variants.len(), 1);
    assert!(variants[0].get_answer_state());
}

#[test]
fn get_question_by_uuid_finds_the_question() {
    let scheme = CoefficientScheme::new(&sample_doc()).unwrap();
    let q = scheme.get_question_by_uuid(&"q-1".to_string());
    assert_eq!(q.get_title(), "first question");
}

#[test]
fn get_iter_flattens_in_preorder() {
    let tree = node(
        "root",
        "v1",
        vec![node("a", "v1", vec![leaf("a1", "v2")]), leaf("b", "v2")],
    );
    let doc = obj(vec![
        ("vacancies", arr(vec![txt("v1"), txt("v2")])),
        ("skills", obj(vec![])),
        ("jobs", obj(vec![("companies", obj(vec![("c1", tree)]))])),
        ("questions", arr(vec![])),
    ]);
    let scheme = CoefficientScheme::new(&doc).unwrap();
    let nodes = scheme.get_companies()[0].tree().get_iter();
    let roles: Vec<&str> = nodes.iter().map(|n| n.label().0.as_str()).collect();
    assert_eq!(roles, vec!["root", "a", "a1", "b"]);
}
