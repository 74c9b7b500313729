//! The schema loader and the loaded schema.
//!
//! `CoefficientScheme::new` builds the whole model from a configuration
//! document in four stages — vacancies, skills (resolved against the
//! vacancies), companies, questions — and fails with a `SchemaError` on the
//! first structural mismatch. The spec functions in this module state
//! exactly which documents load and what model they produce; the executable
//! parsers are verified against them.

use vstd::prelude::*;

use crate::document::{
    ConfigValue, DocValue, doc_view, docs_view, entries_view, obj_lookup, entries_lookup,
    doc_index, lemma_docs_view, lemma_entries_view,
};
use crate::models::{
    Vacancy, VacancyCoefficient, Skill, SkillView, JobLevel, LevelView, levels_view, Company,
    CompanyView, AnswerVariant, Question, QuestionView, deep_seq, lemma_deep_seq_push,
    lemma_push_contains,
};

verus! {

// ---------------------------------------------------------------------------
// Document heights: the termination measure for walking a role tree.
// ---------------------------------------------------------------------------

pub open spec fn doc_height(d: DocValue) -> nat
    decreases d,
{
    match d {
        DocValue::Array(items) => docs_height(items) + 1,
        DocValue::Object(entries) => entries_height(entries) + 1,
        _ => 1,
    }
}

pub open spec fn docs_height(items: Seq<DocValue>) -> nat
    decreases items,
{
    if items.len() == 0 {
        1
    } else {
        docs_height(items.drop_last()) + doc_height(items.last())
    }
}

pub open spec fn entries_height(entries: Seq<(Seq<char>, DocValue)>) -> nat
    decreases entries,
{
    if entries.len() == 0 {
        1
    } else {
        entries_height(entries.drop_last()) + doc_height(entries.last().1)
    }
}

proof fn lemma_doc_height_pos(d: DocValue)
    ensures
        doc_height(d) >= 1,
{
}

proof fn lemma_docs_height_pos(items: Seq<DocValue>)
    ensures
        docs_height(items) >= 1,
    decreases items,
{
    if items.len() > 0 {
        lemma_docs_height_pos(items.drop_last());
    }
}

proof fn lemma_entries_height_pos(entries: Seq<(Seq<char>, DocValue)>)
    ensures
        entries_height(entries) >= 1,
    decreases entries,
{
    if entries.len() > 0 {
        lemma_entries_height_pos(entries.drop_last());
    }
}

proof fn lemma_docs_height_mem(items: Seq<DocValue>, i: int)
    requires
        0 <= i < items.len(),
    ensures
        doc_height(items[i]) < docs_height(items),
    decreases items,
{
    if i == items.len() - 1 {
        lemma_docs_height_pos(items.drop_last());
    } else {
        lemma_docs_height_mem(items.drop_last(), i);
        lemma_doc_height_pos(items.last());
    }
}

proof fn lemma_entries_height_mem(entries: Seq<(Seq<char>, DocValue)>, i: int)
    requires
        0 <= i < entries.len(),
    ensures
        doc_height(entries[i].1) < entries_height(entries),
    decreases entries,
{
    if i == entries.len() - 1 {
        lemma_entries_height_pos(entries.drop_last());
    } else {
        lemma_entries_height_mem(entries.drop_last(), i);
        lemma_doc_height_pos(entries.last().1);
    }
}

proof fn lemma_entries_height_drop_first(entries: Seq<(Seq<char>, DocValue)>)
    requires
        entries.len() > 0,
    ensures
        entries_height(entries.drop_first()) < entries_height(entries),
    decreases entries,
{
    if entries.len() == 1 {
        assert(entries.drop_first() =~= Seq::<(Seq<char>, DocValue)>::empty());
        assert(entries.drop_last() =~= Seq::<(Seq<char>, DocValue)>::empty());
        lemma_doc_height_pos(entries.last().1);
    } else {
        assert(entries.drop_first().drop_last() =~= entries.drop_last().drop_first());
        assert(entries.drop_first().last() == entries.last());
        lemma_entries_height_drop_first(entries.drop_last());
    }
}

proof fn lemma_entries_lookup_height(entries: Seq<(Seq<char>, DocValue)>, key: Seq<char>)
    ensures
        entries_lookup(entries, key) matches Some(v) ==> doc_height(v) < entries_height(entries),
    decreases entries,
{
    if entries.len() > 0 {
        if entries[0].0 == key {
            lemma_entries_height_mem(entries, 0);
        } else {
            lemma_entries_lookup_height(entries.drop_first(), key);
            lemma_entries_height_drop_first(entries);
        }
    }
}

pub proof fn lemma_obj_lookup_height(d: DocValue, key: Seq<char>)
    ensures
        obj_lookup(d, key) matches Some(v) ==> doc_height(v) < doc_height(d),
{
    match d {
        DocValue::Object(entries) => {
            lemma_entries_lookup_height(entries, key);
        },
        _ => {},
    }
}

// ---------------------------------------------------------------------------
// What each document stage parses to. `None` is the load error.
// ---------------------------------------------------------------------------

/// The strings of an array of texts; `None` when some element is not text.
pub open spec fn texts_of(items: Seq<DocValue>) -> Option<Seq<Seq<char>>>
    decreases items,
{
    if items.len() == 0 {
        Some(Seq::empty())
    } else {
        match texts_of(items.drop_last()) {
            Some(pre) => match items.last() {
                DocValue::Text(s) => Some(pre.push(s)),
                _ => None,
            },
            None => None,
        }
    }
}

/// Keeps the first occurrence of every name, in order of first occurrence.
pub open spec fn dedup_names(s: Seq<Seq<char>>) -> Seq<Seq<char>>
    decreases s,
{
    if s.len() == 0 {
        s
    } else {
        let pre = dedup_names(s.drop_last());
        if pre.contains(s.last()) {
            pre
        } else {
            pre.push(s.last())
        }
    }
}

/// The vacancy list a document's `vacancies` field parses to.
pub open spec fn vacancies_spec(d: DocValue) -> Option<Seq<Seq<char>>> {
    match d {
        DocValue::Array(items) => match texts_of(items) {
            Some(names) => Some(dedup_names(names)),
            None => None,
        },
        _ => None,
    }
}

/// The coefficient list one skill's object parses to: every value must be an
/// integer and every key must name a known vacancy.
pub open spec fn coeffs_spec(
    centries: Seq<(Seq<char>, DocValue)>,
    vacancies: Seq<Seq<char>>,
) -> Option<Seq<(Seq<char>, int)>>
    decreases centries,
{
    if centries.len() == 0 {
        Some(Seq::empty())
    } else {
        match coeffs_spec(centries.drop_last(), vacancies) {
            Some(pre) => match centries.last().1 {
                DocValue::Int(c) => if vacancies.contains(centries.last().0) {
                    Some(pre.push((centries.last().0, c)))
                } else {
                    None
                },
                _ => None,
            },
            None => None,
        }
    }
}

pub open spec fn has_skill(skills: Seq<SkillView>, name: Seq<char>) -> bool {
    exists|i: int| 0 <= i < skills.len() && skills[i].name == name
}

pub open spec fn skills_entries_spec(
    entries: Seq<(Seq<char>, DocValue)>,
    vacancies: Seq<Seq<char>>,
) -> Option<Seq<SkillView>>
    decreases entries,
{
    if entries.len() == 0 {
        Some(Seq::empty())
    } else {
        match skills_entries_spec(entries.drop_last(), vacancies) {
            Some(pre) => match entries.last().1 {
                DocValue::Object(centries) => match coeffs_spec(centries, vacancies) {
                    Some(cs) => if has_skill(pre, entries.last().0) {
                        Some(pre)
                    } else {
                        Some(pre.push(SkillView { name: entries.last().0, coefficients: cs }))
                    },
                    None => None,
                },
                _ => None,
            },
            None => None,
        }
    }
}

/// The skill list a document's `skills` field parses to, resolved against
/// the already-parsed vacancy names.
pub open spec fn skills_spec(d: DocValue, vacancies: Seq<Seq<char>>) -> Option<Seq<SkillView>> {
    match d {
        DocValue::Object(entries) => skills_entries_spec(entries, vacancies),
        _ => None,
    }
}

/// The role-tree node a document value parses to: an object whose `label`
/// holds exactly one role-to-vacancy text entry, and whose optional
/// `children` is an array of nodes (an explicit null reads as no children).
pub open spec fn level_spec(d: DocValue) -> Option<LevelView>
    decreases doc_height(d), 1nat,
        via level_spec_dec
{
    match obj_lookup(d, "label"@) {
        Some(lv) => match lv {
            DocValue::Object(lentries) => if lentries.len() == 1 {
                match lentries[0].1 {
                    DocValue::Text(target) => {
                        let role = lentries[0].0;
                        match obj_lookup(d, "children"@) {
                            None => Some(LevelView { role, target, children: Seq::empty() }),
                            Some(cv) => match cv {
                                DocValue::Null => Some(
                                    LevelView { role, target, children: Seq::empty() },
                                ),
                                DocValue::Array(items) => match levels_spec(items) {
                                    Some(cs) => Some(LevelView { role, target, children: cs }),
                                    None => None,
                                },
                                _ => None,
                            },
                        }
                    },
                    _ => None,
                }
            } else {
                None
            },
            _ => None,
        },
        None => None,
    }
}

pub open spec fn levels_spec(items: Seq<DocValue>) -> Option<Seq<LevelView>>
    decreases docs_height(items), 0nat,
        via levels_spec_dec
{
    if items.len() == 0 {
        Some(Seq::empty())
    } else {
        match levels_spec(items.drop_last()) {
            Some(pre) => match level_spec(items.last()) {
                Some(l) => Some(pre.push(l)),
                None => None,
            },
            None => None,
        }
    }
}

#[via_fn]
proof fn level_spec_dec(d: DocValue) {
    lemma_obj_lookup_height(d, "children"@);
}

#[via_fn]
proof fn levels_spec_dec(items: Seq<DocValue>) {
    if items.len() > 0 {
        lemma_docs_height_pos(items.drop_last());
        lemma_docs_height_mem(items, items.len() - 1);
        lemma_doc_height_pos(items.last());
    }
}

pub open spec fn has_company(cs: Seq<CompanyView>, name: Seq<char>) -> bool {
    exists|i: int| 0 <= i < cs.len() && cs[i].name == name
}

pub open spec fn companies_entries_spec(
    entries: Seq<(Seq<char>, DocValue)>,
) -> Option<Seq<CompanyView>>
    decreases entries,
{
    if entries.len() == 0 {
        Some(Seq::empty())
    } else {
        match companies_entries_spec(entries.drop_last()) {
            Some(pre) => match level_spec(entries.last().1) {
                Some(tree) => if has_company(pre, entries.last().0) {
                    Some(pre)
                } else {
                    Some(pre.push(CompanyView { name: entries.last().0, tree }))
                },
                None => None,
            },
            None => None,
        }
    }
}

/// The company list a document's `jobs.companies` field parses to.
pub open spec fn companies_spec(d: DocValue) -> Option<Seq<CompanyView>> {
    match d {
        DocValue::Object(entries) => companies_entries_spec(entries),
        _ => None,
    }
}

pub open spec fn has_variant(vs: Seq<(Seq<char>, bool)>, content: Seq<char>) -> bool {
    exists|i: int| 0 <= i < vs.len() && vs[i].0 == content
}

/// The answer variants a question's `variants` array parses to: each element
/// an object with text `content` and boolean `is_answer`; duplicate contents
/// resolve in favour of the first occurrence.
pub open spec fn variants_spec(items: Seq<DocValue>) -> Option<Seq<(Seq<char>, bool)>>
    decreases items,
{
    if items.len() == 0 {
        Some(Seq::empty())
    } else {
        match variants_spec(items.drop_last()) {
            Some(pre) => match (
                obj_lookup(items.last(), "content"@),
                obj_lookup(items.last(), "is_answer"@),
            ) {
                (Some(DocValue::Text(content)), Some(DocValue::Bool(b))) => if has_variant(
                    pre,
                    content,
                ) {
                    Some(pre)
                } else {
                    Some(pre.push((content, b)))
                },
                _ => None,
            },
            None => None,
        }
    }
}

/// A question as the document states it: the identifier may be absent, in
/// which case the loader generates one.
pub struct RawQuestionView {
    pub uuid: Option<Seq<char>>,
    pub title: Seq<char>,
    pub variants: Seq<(Seq<char>, bool)>,
}

pub open spec fn question_spec(d: DocValue) -> Option<RawQuestionView> {
    match (obj_lookup(d, "title"@), obj_lookup(d, "variants"@)) {
        (Some(DocValue::Text(title)), Some(DocValue::Array(vitems))) => match variants_spec(
            vitems,
        ) {
            Some(vs) => match obj_lookup(d, "uuid"@) {
                None => Some(RawQuestionView { uuid: None, title, variants: vs }),
                Some(DocValue::Text(u)) => Some(
                    RawQuestionView { uuid: Some(u), title, variants: vs },
                ),
                Some(_) => None,
            },
            None => None,
        },
        _ => None,
    }
}

pub open spec fn questions_items_spec(items: Seq<DocValue>) -> Option<Seq<RawQuestionView>>
    decreases items,
{
    if items.len() == 0 {
        Some(Seq::empty())
    } else {
        match questions_items_spec(items.drop_last()) {
            Some(pre) => match question_spec(items.last()) {
                Some(q) => Some(pre.push(q)),
                None => None,
            },
            None => None,
        }
    }
}

/// The raw question list a document's `questions` field parses to.
pub open spec fn questions_raw_spec(d: DocValue) -> Option<Seq<RawQuestionView>> {
    match d {
        DocValue::Array(items) => questions_items_spec(items),
        _ => None,
    }
}

/// Whether `us` is an admissible choice of identifiers for `raw`: each given
/// identifier is kept, and each generated one is a 36-character rendering of
/// a fresh version-4 identifier.
pub open spec fn uuid_fill_ok(raw: Seq<RawQuestionView>, us: Seq<Seq<char>>) -> bool {
    &&& us.len() == raw.len()
    &&& forall|i: int| 0 <= i < raw.len() ==> match #[trigger] raw[i].uuid {
        Some(u) => us[i] == u,
        None => us[i].len() == 36,
    }
}

pub open spec fn fill_uuids(raw: Seq<RawQuestionView>, us: Seq<Seq<char>>) -> Seq<QuestionView> {
    Seq::new(
        raw.len(),
        |i: int| QuestionView { uuid: us[i], title: raw[i].title, variants: raw[i].variants },
    )
}

pub open spec fn has_question(qs: Seq<QuestionView>, uuid: Seq<char>) -> bool {
    exists|i: int| 0 <= i < qs.len() && qs[i].uuid == uuid
}

/// What a successfully parsed question list is: the document's raw
/// questions, their absent identifiers filled by some admissible generated
/// choice, deduplicated by identifier.
pub open spec fn questions_ok(d: DocValue, qsv: Seq<QuestionView>) -> bool {
    questions_raw_spec(d) matches Some(raw) && exists|us: Seq<Seq<char>>|
        uuid_fill_ok(raw, us) && qsv == dedup_questions(#[trigger] fill_uuids(raw, us))
}

/// Keeps the first question of every identifier, in order of first
/// occurrence; identity is the identifier alone.
pub open spec fn dedup_questions(qs: Seq<QuestionView>) -> Seq<QuestionView>
    decreases qs,
{
    if qs.len() == 0 {
        qs
    } else {
        let pre = dedup_questions(qs.drop_last());
        if has_question(pre, qs.last().uuid) {
            pre
        } else {
            pre.push(qs.last())
        }
    }
}

// ---------------------------------------------------------------------------
// The loaded schema as a whole.
// ---------------------------------------------------------------------------

/// The mathematical content of a `CoefficientScheme`.
pub struct SchemeView {
    pub vacancies: Seq<Seq<char>>,
    pub skills: Seq<SkillView>,
    pub companies: Seq<CompanyView>,
    pub questions: Seq<QuestionView>,
}

/// Whether a whole document loads: all four stages parse.
pub open spec fn scheme_doc_ok(doc: DocValue) -> bool {
    &&& vacancies_spec(doc_index(doc, "vacancies"@)) matches Some(vnames)
    &&& skills_spec(doc_index(doc, "skills"@), vnames) is Some
    &&& companies_spec(doc_index(doc_index(doc, "jobs"@), "companies"@)) is Some
    &&& questions_raw_spec(doc_index(doc, "questions"@)) is Some
}

/// What a loaded schema is, stage by stage, and that it is well formed.
pub open spec fn scheme_view_ok(doc: DocValue, sv: SchemeView) -> bool {
    &&& vacancies_spec(doc_index(doc, "vacancies"@)) == Some(sv.vacancies)
    &&& skills_spec(doc_index(doc, "skills"@), sv.vacancies) == Some(sv.skills)
    &&& companies_spec(doc_index(doc_index(doc, "jobs"@), "companies"@)) == Some(sv.companies)
    &&& questions_ok(doc_index(doc, "questions"@), sv.questions)
    &&& scheme_wf(sv)
}

// ---------------------------------------------------------------------------
// Lookups over the loaded schema: always the first match.
// ---------------------------------------------------------------------------

pub open spec fn skill_lookup(skills: Seq<SkillView>, name: Seq<char>) -> Option<SkillView>
    decreases skills,
{
    if skills.len() == 0 {
        None
    } else if skills[0].name == name {
        Some(skills[0])
    } else {
        skill_lookup(skills.drop_first(), name)
    }
}

pub open spec fn company_lookup(cs: Seq<CompanyView>, name: Seq<char>) -> Option<CompanyView>
    decreases cs,
{
    if cs.len() == 0 {
        None
    } else if cs[0].name == name {
        Some(cs[0])
    } else {
        company_lookup(cs.drop_first(), name)
    }
}

pub open spec fn question_lookup(qs: Seq<QuestionView>, uuid: Seq<char>) -> Option<QuestionView>
    decreases qs,
{
    if qs.len() == 0 {
        None
    } else if qs[0].uuid == uuid {
        Some(qs[0])
    } else {
        question_lookup(qs.drop_first(), uuid)
    }
}

pub open spec fn variant_lookup(vs: Seq<(Seq<char>, bool)>, content: Seq<char>) -> Option<bool>
    decreases vs,
{
    if vs.len() == 0 {
        None
    } else if vs[0].0 == content {
        Some(vs[0].1)
    } else {
        variant_lookup(vs.drop_first(), content)
    }
}

pub proof fn lemma_skill_lookup_skip(skills: Seq<SkillView>, name: Seq<char>, i: int)
    requires
        0 <= i <= skills.len(),
        forall|j: int| 0 <= j < i ==> skills[j].name != name,
    ensures
        skill_lookup(skills, name) == skill_lookup(skills.skip(i), name),
    decreases i,
{
    if i > 0 {
        lemma_skill_lookup_skip(skills.drop_first(), name, i - 1);
        assert(skills.drop_first().skip(i - 1) =~= skills.skip(i));
    } else {
        assert(skills.skip(0) =~= skills);
    }
}

pub proof fn lemma_company_lookup_skip(cs: Seq<CompanyView>, name: Seq<char>, i: int)
    requires
        0 <= i <= cs.len(),
        forall|j: int| 0 <= j < i ==> cs[j].name != name,
    ensures
        company_lookup(cs, name) == company_lookup(cs.skip(i), name),
    decreases i,
{
    if i > 0 {
        lemma_company_lookup_skip(cs.drop_first(), name, i - 1);
        assert(cs.drop_first().skip(i - 1) =~= cs.skip(i));
    } else {
        assert(cs.skip(0) =~= cs);
    }
}

pub proof fn lemma_question_lookup_skip(qs: Seq<QuestionView>, uuid: Seq<char>, i: int)
    requires
        0 <= i <= qs.len(),
        forall|j: int| 0 <= j < i ==> qs[j].uuid != uuid,
    ensures
        question_lookup(qs, uuid) == question_lookup(qs.skip(i), uuid),
    decreases i,
{
    if i > 0 {
        lemma_question_lookup_skip(qs.drop_first(), uuid, i - 1);
        assert(qs.drop_first().skip(i - 1) =~= qs.skip(i));
    } else {
        assert(qs.skip(0) =~= qs);
    }
}

pub proof fn lemma_variant_lookup_skip(vs: Seq<(Seq<char>, bool)>, content: Seq<char>, i: int)
    requires
        0 <= i <= vs.len(),
        forall|j: int| 0 <= j < i ==> vs[j].0 != content,
    ensures
        variant_lookup(vs, content) == variant_lookup(vs.skip(i), content),
    decreases i,
{
    if i > 0 {
        lemma_variant_lookup_skip(vs.drop_first(), content, i - 1);
        assert(vs.drop_first().skip(i - 1) =~= vs.skip(i));
    } else {
        assert(vs.skip(0) =~= vs);
    }
}

/// Well-formedness of a loaded schema: names and identifiers are unique at
/// every level, and every coefficient references a vacancy of the schema.
pub open spec fn scheme_wf(s: SchemeView) -> bool {
    &&& forall|i: int, j: int| 0 <= i < j < s.vacancies.len() ==> s.vacancies[i]
        != s.vacancies[j]
    &&& forall|i: int, j: int| 0 <= i < j < s.skills.len() ==> s.skills[i].name
        != s.skills[j].name
    &&& forall|i: int, j: int| 0 <= i < j < s.companies.len() ==> s.companies[i].name
        != s.companies[j].name
    &&& forall|i: int, j: int| 0 <= i < j < s.questions.len() ==> s.questions[i].uuid
        != s.questions[j].uuid
    &&& forall|i: int, k: int|
        0 <= i < s.skills.len() && 0 <= k < s.skills[i].coefficients.len()
            ==> s.vacancies.contains(#[trigger] s.skills[i].coefficients[k].0)
    &&& forall|i: int, a: int, b: int|
        #![trigger s.questions[i].variants[a], s.questions[i].variants[b]]
        0 <= i < s.questions.len() && 0 <= a < b < s.questions[i].variants.len()
            ==> s.questions[i].variants[a].0 != s.questions[i].variants[b].0
}

// ---------------------------------------------------------------------------
// The parse results are well formed.
// ---------------------------------------------------------------------------

proof fn lemma_dedup_names_props(s: Seq<Seq<char>>)
    ensures
        forall|i: int, j: int| 0 <= i < j < dedup_names(s).len() ==> dedup_names(s)[i]
            != dedup_names(s)[j],
        forall|n: Seq<char>| dedup_names(s).contains(n) <==> s.contains(n),
    decreases s,
{
    if s.len() > 0 {
        lemma_dedup_names_props(s.drop_last());
        let pre = dedup_names(s.drop_last());
        let x = s.last();
        assert(s.drop_last().push(x) =~= s);
        lemma_push_contains(s.drop_last(), x, x);
        assert forall|n: Seq<char>| dedup_names(s).contains(n) <==> s.contains(n) by {
            lemma_push_contains(s.drop_last(), x, n);
            if !pre.contains(x) {
                lemma_push_contains(pre, x, n);
            }
        }
        if !pre.contains(x) {
            assert forall|i: int, j: int|
                0 <= i < j < dedup_names(s).len() implies dedup_names(s)[i]
                != dedup_names(s)[j] by {
                if j == dedup_names(s).len() - 1 {
                    assert(pre[i] == dedup_names(s)[i]);
                    assert(pre.contains(pre[i]));
                }
            }
        }
    }
}

proof fn lemma_coeffs_props(centries: Seq<(Seq<char>, DocValue)>, vacancies: Seq<Seq<char>>)
    ensures
        coeffs_spec(centries, vacancies) matches Some(cs) ==> forall|k: int|
            0 <= k < cs.len() ==> vacancies.contains(#[trigger] cs[k].0),
    decreases centries,
{
    if centries.len() > 0 {
        lemma_coeffs_props(centries.drop_last(), vacancies);
    }
}

proof fn lemma_skills_entries_props(
    entries: Seq<(Seq<char>, DocValue)>,
    vacancies: Seq<Seq<char>>,
)
    ensures
        skills_entries_spec(entries, vacancies) matches Some(sks) ==> ({
            &&& forall|i: int, j: int| 0 <= i < j < sks.len() ==> sks[i].name != sks[j].name
            &&& forall|i: int, k: int|
                0 <= i < sks.len() && 0 <= k < sks[i].coefficients.len()
                    ==> vacancies.contains(#[trigger] sks[i].coefficients[k].0)
        }),
    decreases entries,
{
    if entries.len() > 0 {
        lemma_skills_entries_props(entries.drop_last(), vacancies);
        if skills_entries_spec(entries, vacancies) is Some {
            let sks = skills_entries_spec(entries, vacancies)->0;
            let pre = skills_entries_spec(entries.drop_last(), vacancies)->0;
            match entries.last().1 {
                DocValue::Object(centries) => {
                    lemma_coeffs_props(centries, vacancies);
                    if !has_skill(pre, entries.last().0) {
                        assert forall|i: int, j: int|
                            0 <= i < j < sks.len() implies sks[i].name != sks[j].name by {
                            if j == sks.len() - 1 {
                                assert(sks[i] == pre[i]);
                            }
                        }
                    }
                },
                _ => {},
            }
        }
    }
}

proof fn lemma_companies_entries_props(entries: Seq<(Seq<char>, DocValue)>)
    ensures
        companies_entries_spec(entries) matches Some(cs) ==> forall|i: int, j: int|
            0 <= i < j < cs.len() ==> cs[i].name != cs[j].name,
    decreases entries,
{
    if entries.len() > 0 {
        lemma_companies_entries_props(entries.drop_last());
        if companies_entries_spec(entries) is Some {
            let cs = companies_entries_spec(entries)->0;
            let pre = companies_entries_spec(entries.drop_last())->0;
            if level_spec(entries.last().1) is Some && !has_company(pre, entries.last().0) {
                assert forall|i: int, j: int|
                    0 <= i < j < cs.len() implies cs[i].name != cs[j].name by {
                    if j == cs.len() - 1 {
                        assert(cs[i] == pre[i]);
                    }
                }
            }
        }
    }
}

proof fn lemma_variants_spec_unique(items: Seq<DocValue>)
    ensures
        variants_spec(items) matches Some(vs) ==> forall|a: int, b: int|
            #![trigger vs[a], vs[b]]
            0 <= a < b < vs.len() ==> vs[a].0 != vs[b].0,
    decreases items,
{
    if items.len() > 0 {
        lemma_variants_spec_unique(items.drop_last());
        if variants_spec(items) is Some {
            let vs = variants_spec(items)->0;
            let pre = variants_spec(items.drop_last())->0;
            match (
                obj_lookup(items.last(), "content"@),
                obj_lookup(items.last(), "is_answer"@),
            ) {
                (Some(DocValue::Text(content)), Some(DocValue::Bool(flag))) => {
                    if !has_variant(pre, content) {
                        assert(vs == pre.push((content, flag)));
                        assert forall|a: int, b: int|
                            #![trigger vs[a], vs[b]]
                            0 <= a < b < vs.len() implies vs[a].0 != vs[b].0 by {
                            if b == vs.len() - 1 {
                                assert(vs[a] == pre[a]);
                                assert(pre[a].0 != content) by {
                                    if pre[a].0 == content {
                                        assert(has_variant(pre, content));
                                    }
                                }
                            } else {
                                assert(vs[a] == pre[a]);
                                assert(vs[b] == pre[b]);
                            }
                        }
                    }
                },
                _ => {},
            }
        }
    }
}

proof fn lemma_questions_raw_variants_unique(items: Seq<DocValue>)
    ensures
        questions_items_spec(items) matches Some(raw) ==> forall|k: int, a: int, b: int|
            #![trigger raw[k].variants[a], raw[k].variants[b]]
            0 <= k < raw.len() && 0 <= a < b < raw[k].variants.len() ==> raw[k].variants[a].0
                != raw[k].variants[b].0,
    decreases items,
{
    if items.len() > 0 {
        lemma_questions_raw_variants_unique(items.drop_last());
        if questions_items_spec(items) is Some {
            let raw = questions_items_spec(items)->0;
            let pre = questions_items_spec(items.drop_last())->0;
            match (
                obj_lookup(items.last(), "title"@),
                obj_lookup(items.last(), "variants"@),
            ) {
                (Some(DocValue::Text(_)), Some(DocValue::Array(vitems))) => {
                    lemma_variants_spec_unique(vitems);
                    assert forall|k: int, a: int, b: int|
                        #![trigger raw[k].variants[a], raw[k].variants[b]]
                        0 <= k < raw.len() && 0 <= a < b < raw[k].variants.len()
                        implies raw[k].variants[a].0 != raw[k].variants[b].0 by {
                        if k < pre.len() {
                            assert(raw[k] == pre[k]);
                        } else {
                            assert(raw[k].variants == variants_spec(vitems)->0);
                        }
                    }
                },
                _ => {},
            }
        }
    }
}

proof fn lemma_dedup_questions_mem(qs: Seq<QuestionView>)
    ensures
        forall|k: int| 0 <= k < dedup_questions(qs).len() ==> exists|t: int|
            0 <= t < qs.len() && #[trigger] dedup_questions(qs)[k] == qs[t],
    decreases qs,
{
    if qs.len() > 0 {
        lemma_dedup_questions_mem(qs.drop_last());
        let pre = dedup_questions(qs.drop_last());
        assert forall|k: int| 0 <= k < dedup_questions(qs).len() implies exists|t: int|
            0 <= t < qs.len() && #[trigger] dedup_questions(qs)[k] == qs[t] by {
            if k < pre.len() {
                assert(dedup_questions(qs)[k] == pre[k]);
                let t = choose|t: int|
                    0 <= t < qs.drop_last().len() && #[trigger] pre[k] == qs.drop_last()[t];
                assert(dedup_questions(qs)[k] == qs[t]);
            } else {
                assert(dedup_questions(qs)[k] == qs.last());
                assert(dedup_questions(qs)[k] == qs[qs.len() - 1]);
            }
        }
    }
}

proof fn lemma_dedup_questions_props(qs: Seq<QuestionView>)
    ensures
        forall|i: int, j: int| 0 <= i < j < dedup_questions(qs).len() ==> dedup_questions(
            qs,
        )[i].uuid != dedup_questions(qs)[j].uuid,
    decreases qs,
{
    if qs.len() > 0 {
        lemma_dedup_questions_props(qs.drop_last());
        let pre = dedup_questions(qs.drop_last());
        if !has_question(pre, qs.last().uuid) {
            assert forall|i: int, j: int|
                0 <= i < j < dedup_questions(qs).len() implies dedup_questions(qs)[i].uuid
                != dedup_questions(qs)[j].uuid by {
                if j == dedup_questions(qs).len() - 1 {
                    assert(dedup_questions(qs)[i] == pre[i]);
                }
            }
        }
    }
}

// ---------------------------------------------------------------------------
// Loading loses nothing: the round trip from document to model.
// ---------------------------------------------------------------------------

proof fn lemma_texts_of_props(items: Seq<DocValue>)
    ensures
        texts_of(items) matches Some(ts) ==> ts.len() == items.len() && forall|i: int|
            0 <= i < items.len() ==> items[i] == DocValue::Text(#[trigger] ts[i]),
    decreases items,
{
    if items.len() > 0 {
        lemma_texts_of_props(items.drop_last());
    }
}

proof fn lemma_entries_lookup_push(
    s: Seq<(Seq<char>, DocValue)>,
    x: (Seq<char>, DocValue),
    key: Seq<char>,
)
    ensures
        entries_lookup(s.push(x), key) == (if entries_lookup(s, key) is Some {
            entries_lookup(s, key)
        } else if x.0 == key {
            Some(x.1)
        } else {
            None
        }),
    decreases s,
{
    if s.len() == 0 {
        assert(s.push(x)[0] == x);
        assert(s.push(x).drop_first() =~= Seq::<(Seq<char>, DocValue)>::empty());
    } else {
        assert(s.push(x)[0] == s[0]);
        assert(s.push(x).drop_first() =~= s.drop_first().push(x));
        lemma_entries_lookup_push(s.drop_first(), x, key);
    }
}

proof fn lemma_skill_lookup_push(s: Seq<SkillView>, x: SkillView, key: Seq<char>)
    ensures
        skill_lookup(s.push(x), key) == (if skill_lookup(s, key) is Some {
            skill_lookup(s, key)
        } else if x.name == key {
            Some(x)
        } else {
            None
        }),
    decreases s,
{
    if s.len() == 0 {
        assert(s.push(x)[0] == x);
        assert(s.push(x).drop_first() =~= Seq::<SkillView>::empty());
    } else {
        assert(s.push(x)[0] == s[0]);
        assert(s.push(x).drop_first() =~= s.drop_first().push(x));
        lemma_skill_lookup_push(s.drop_first(), x, key);
    }
}

proof fn lemma_skill_lookup_has(s: Seq<SkillView>, name: Seq<char>)
    ensures
        (skill_lookup(s, name) is Some) == has_skill(s, name),
        skill_lookup(s, name) matches Some(sk) ==> sk.name == name,
    decreases s,
{
    if s.len() > 0 {
        lemma_skill_lookup_has(s.drop_first(), name);
        if s[0].name == name {
            assert(has_skill(s, name));
        } else {
            if has_skill(s, name) {
                let k = choose|k: int| 0 <= k < s.len() && s[k].name == name;
                assert(k > 0);
                assert(s.drop_first()[k - 1].name == name);
                assert(has_skill(s.drop_first(), name));
            }
            if has_skill(s.drop_first(), name) {
                let k = choose|k: int|
                    0 <= k < s.drop_first().len() && s.drop_first()[k].name == name;
                assert(s[k + 1].name == name);
                assert(has_skill(s, name));
            }
        }
    }
}

proof fn lemma_skills_round_trip(
    entries: Seq<(Seq<char>, DocValue)>,
    vacancies: Seq<Seq<char>>,
    key: Seq<char>,
)
    requires
        skills_entries_spec(entries, vacancies) is Some,
    ensures
        ({
            let sks = skills_entries_spec(entries, vacancies)->0;
            match entries_lookup(entries, key) {
                Some(v) => v matches DocValue::Object(centries) && skill_lookup(sks, key)
                    == Some(
                    SkillView { name: key, coefficients: coeffs_spec(centries, vacancies)->0 },
                ),
                None => skill_lookup(sks, key) is None,
            }
        }),
    decreases entries,
{
    let sks = skills_entries_spec(entries, vacancies)->0;
    if entries.len() == 0 {
        assert(entries_lookup(entries, key) is None);
        assert(sks =~= Seq::<SkillView>::empty());
    } else {
        let dl = entries.drop_last();
        let x = entries.last();
        let pre = skills_entries_spec(dl, vacancies)->0;
        lemma_skills_round_trip(dl, vacancies, key);
        assert(dl.push(x) =~= entries);
        lemma_entries_lookup_push(dl, x, key);
        lemma_skill_lookup_has(pre, x.0);
        lemma_skill_lookup_has(pre, key);
        let centries = match x.1 {
            DocValue::Object(c) => c,
            _ => Seq::empty(),
        };
        let newsk = SkillView { name: x.0, coefficients: coeffs_spec(centries, vacancies)->0 };
        if !has_skill(pre, x.0) {
            assert(sks == pre.push(newsk));
            lemma_skill_lookup_push(pre, newsk, key);
        } else {
            assert(sks == pre);
        }
    }
}

/// Loading loses nothing. The vacancy names read back are exactly the names
/// in the document's vacancies array, and looking any key of the document's
/// skills object up in the loaded skills yields exactly the coefficient list
/// of that key's first occurrence; a key the document does not have finds no
/// skill.
pub proof fn lemma_load_round_trip(doc: DocValue, sv: SchemeView)
    requires
        scheme_view_ok(doc, sv),
    ensures
        doc_index(doc, "vacancies"@) matches DocValue::Array(items) && (forall|n: Seq<char>|
            #[trigger] sv.vacancies.contains(n) <==> exists|i: int|
                0 <= i < items.len() && items[i] == DocValue::Text(n)),
        doc_index(doc, "skills"@) matches DocValue::Object(entries) && (forall|key: Seq<char>|
            match #[trigger] entries_lookup(entries, key) {
                Some(v) => v matches DocValue::Object(centries) && skill_lookup(sv.skills, key)
                    == Some(
                    SkillView { name: key, coefficients: coeffs_spec(centries, sv.vacancies)->0 },
                ),
                None => skill_lookup(sv.skills, key) is None,
            }),
{
    match doc_index(doc, "vacancies"@) {
        DocValue::Array(items) => {
            let ts = texts_of(items)->0;
            lemma_texts_of_props(items);
            lemma_dedup_names_props(ts);
            assert forall|n: Seq<char>| #[trigger] sv.vacancies.contains(n) <==> exists|i: int|
                0 <= i < items.len() && items[i] == DocValue::Text(n) by {
                if sv.vacancies.contains(n) {
                    assert(ts.contains(n));
                    let i = choose|i: int| 0 <= i < ts.len() && ts[i] == n;
                    assert(items[i] == DocValue::Text(n));
                }
                if exists|i: int| 0 <= i < items.len() && items[i] == DocValue::Text(n) {
                    let i = choose|i: int| 0 <= i < items.len() && items[i] == DocValue::Text(n);
                    assert(ts[i] == n);
                    assert(ts.contains(n));
                }
            }
        },
        _ => {},
    }
    match doc_index(doc, "skills"@) {
        DocValue::Object(entries) => {
            assert forall|key: Seq<char>|
                match #[trigger] entries_lookup(entries, key) {
                    Some(v) => v matches DocValue::Object(centries) && skill_lookup(
                        sv.skills,
                        key,
                    ) == Some(
                        SkillView {
                            name: key,
                            coefficients: coeffs_spec(centries, sv.vacancies)->0,
                        },
                    ),
                    None => skill_lookup(sv.skills, key) is None,
                } by {
                lemma_skills_round_trip(entries, sv.vacancies, key);
            }
        },
        _ => {},
    }
}

// ---------------------------------------------------------------------------
// Errors and trusted identifier generation.
// ---------------------------------------------------------------------------

/// A load failure: a structural mismatch with a human-readable name and
/// description. Load errors are fatal; a schema is never built partially.
#[derive(Debug)]
pub enum SchemaError {
    Custom { name: String, description: String },
}

fn structural_error(name: &str, description: &str) -> SchemaError {
    SchemaError::Custom { name: name.to_owned(), description: description.to_owned() }
}

/// Relies on `uuid::Uuid::new_v4` and its display rendering: a version-4
/// identifier formats as 36 hyphenated lowercase hexadecimal characters.
#[verifier::external_body]
fn fresh_uuid() -> (r: String)
    ensures
        r@.len() == 36,
{
    uuid::Uuid::new_v4().to_string()
}

/// The document value an optional field reading hands the parsers: absence
/// reads as `Null`, exactly as indexing a document does.
pub open spec fn opt_doc(v: Option<&ConfigValue>) -> DocValue {
    match v {
        Some(c) => c@,
        None => DocValue::Null,
    }
}

// ---------------------------------------------------------------------------
// A failed prefix fails the whole stage.
// ---------------------------------------------------------------------------

proof fn lemma_texts_of_prefix_none(items: Seq<DocValue>, i: int)
    requires
        0 <= i <= items.len(),
        texts_of(items.take(i)) is None,
    ensures
        texts_of(items) is None,
    decreases items.len() - i,
{
    if i == items.len() {
        assert(items.take(i) =~= items);
    } else {
        assert(items.take(i + 1).drop_last() =~= items.take(i));
        lemma_texts_of_prefix_none(items, i + 1);
    }
}

proof fn lemma_coeffs_prefix_none(
    centries: Seq<(Seq<char>, DocValue)>,
    vacancies: Seq<Seq<char>>,
    i: int,
)
    requires
        0 <= i <= centries.len(),
        coeffs_spec(centries.take(i), vacancies) is None,
    ensures
        coeffs_spec(centries, vacancies) is None,
    decreases centries.len() - i,
{
    if i == centries.len() {
        assert(centries.take(i) =~= centries);
    } else {
        assert(centries.take(i + 1).drop_last() =~= centries.take(i));
        lemma_coeffs_prefix_none(centries, vacancies, i + 1);
    }
}

proof fn lemma_skills_prefix_none(
    entries: Seq<(Seq<char>, DocValue)>,
    vacancies: Seq<Seq<char>>,
    i: int,
)
    requires
        0 <= i <= entries.len(),
        skills_entries_spec(entries.take(i), vacancies) is None,
    ensures
        skills_entries_spec(entries, vacancies) is None,
    decreases entries.len() - i,
{
    if i == entries.len() {
        assert(entries.take(i) =~= entries);
    } else {
        assert(entries.take(i + 1).drop_last() =~= entries.take(i));
        lemma_skills_prefix_none(entries, vacancies, i + 1);
    }
}

fn find_vacancy<'a>(v: &'a Vec<Vacancy>, name: &String) -> (r: Option<&'a Vacancy>)
    ensures
        match r {
            Some(found) => found@ == name@ && v.deep_view().contains(name@),
            None => !v.deep_view().contains(name@),
        },
{
    let n = v.len();
    let mut i: usize = 0;
    while i < n
        invariant
            n == v@.len(),
            0 <= i <= n,
            forall|j: int| 0 <= j < i ==> v@[j]@ != name@,
        decreases n - i,
    {
        if v[i].0 == *name {
            proof {
                assert(v.deep_view()[i as int] == name@);
            }
            return Some(&v[i]);
        }
        i = i + 1;
    }
    proof {
        assert forall|k: int| 0 <= k < v.deep_view().len() implies v.deep_view()[k] != name@ by {
            assert(v.deep_view()[k] == v@[k]@);
        }
    }
    None
}

fn contains_skill(v: &Vec<Skill>, name: &String) -> (r: bool)
    ensures
        r == has_skill(v.deep_view(), name@),
{
    let n = v.len();
    let mut i: usize = 0;
    while i < n
        invariant
            n == v@.len(),
            0 <= i <= n,
            forall|j: int| 0 <= j < i ==> v@[j]@.name != name@,
        decreases n - i,
    {
        if v[i].name == *name {
            proof {
                assert(v.deep_view()[i as int].name == name@);
            }
            return true;
        }
        i = i + 1;
    }
    proof {
        assert forall|k: int| 0 <= k < v.deep_view().len() implies v.deep_view()[k].name != name@
        by {
            assert(v.deep_view()[k] == v@[k]@);
        }
    }
    false
}

proof fn lemma_levels_prefix_none(items: Seq<DocValue>, i: int)
    requires
        0 <= i <= items.len(),
        levels_spec(items.take(i)) is None,
    ensures
        levels_spec(items) is None,
    decreases items.len() - i,
{
    if i == items.len() {
        assert(items.take(i) =~= items);
    } else {
        assert(items.take(i + 1).drop_last() =~= items.take(i));
        lemma_levels_prefix_none(items, i + 1);
    }
}

proof fn lemma_companies_prefix_none(entries: Seq<(Seq<char>, DocValue)>, i: int)
    requires
        0 <= i <= entries.len(),
        companies_entries_spec(entries.take(i)) is None,
    ensures
        companies_entries_spec(entries) is None,
    decreases entries.len() - i,
{
    if i == entries.len() {
        assert(entries.take(i) =~= entries);
    } else {
        assert(entries.take(i + 1).drop_last() =~= entries.take(i));
        lemma_companies_prefix_none(entries, i + 1);
    }
}

fn contains_company(v: &Vec<Company>, name: &String) -> (r: bool)
    ensures
        r == has_company(v.deep_view(), name@),
{
    let n = v.len();
    let mut i: usize = 0;
    while i < n
        invariant
            n == v@.len(),
            0 <= i <= n,
            forall|j: int| 0 <= j < i ==> v@[j]@.name != name@,
        decreases n - i,
    {
        if v[i].name == *name {
            proof {
                assert(v.deep_view()[i as int].name == name@);
            }
            return true;
        }
        i = i + 1;
    }
    proof {
        assert forall|k: int| 0 <= k < v.deep_view().len() implies v.deep_view()[k].name != name@
        by {
            assert(v.deep_view()[k] == v@[k]@);
        }
    }
    false
}

proof fn lemma_variants_prefix_none(items: Seq<DocValue>, i: int)
    requires
        0 <= i <= items.len(),
        variants_spec(items.take(i)) is None,
    ensures
        variants_spec(items) is None,
    decreases items.len() - i,
{
    if i == items.len() {
        assert(items.take(i) =~= items);
    } else {
        assert(items.take(i + 1).drop_last() =~= items.take(i));
        lemma_variants_prefix_none(items, i + 1);
    }
}

proof fn lemma_questions_prefix_none(items: Seq<DocValue>, i: int)
    requires
        0 <= i <= items.len(),
        questions_items_spec(items.take(i)) is None,
    ensures
        questions_items_spec(items) is None,
    decreases items.len() - i,
{
    if i == items.len() {
        assert(items.take(i) =~= items);
    } else {
        assert(items.take(i + 1).drop_last() =~= items.take(i));
        lemma_questions_prefix_none(items, i + 1);
    }
}

proof fn lemma_fill_push(raw: Seq<RawQuestionView>, us: Seq<Seq<char>>, rq: RawQuestionView, qv: QuestionView)
    requires
        us.len() == raw.len(),
        qv.title == rq.title,
        qv.variants == rq.variants,
    ensures
        fill_uuids(raw.push(rq), us.push(qv.uuid)) == fill_uuids(raw, us).push(qv),
{
    assert(fill_uuids(raw.push(rq), us.push(qv.uuid)) =~= fill_uuids(raw, us).push(qv));
}

fn contains_variant(v: &Vec<AnswerVariant>, content: &String) -> (r: bool)
    ensures
        r == has_variant(v.deep_view(), content@),
{
    let n = v.len();
    let mut i: usize = 0;
    while i < n
        invariant
            n == v@.len(),
            0 <= i <= n,
            forall|j: int| 0 <= j < i ==> v@[j]@.0 != content@,
        decreases n - i,
    {
        if *v[i].get_content() == *content {
            proof {
                assert(v.deep_view()[i as int].0 == content@);
            }
            return true;
        }
        i = i + 1;
    }
    proof {
        assert forall|k: int| 0 <= k < v.deep_view().len() implies v.deep_view()[k].0 != content@
        by {
            assert(v.deep_view()[k] == v@[k]@);
        }
    }
    false
}

fn contains_question(v: &Vec<Question>, uuid: &String) -> (r: bool)
    ensures
        r == has_question(v.deep_view(), uuid@),
{
    let n = v.len();
    let mut i: usize = 0;
    while i < n
        invariant
            n == v@.len(),
            0 <= i <= n,
            forall|j: int| 0 <= j < i ==> v@[j]@.uuid != uuid@,
        decreases n - i,
    {
        if *v[i].get_uuid() == *uuid {
            proof {
                assert(v.deep_view()[i as int].uuid == uuid@);
            }
            return true;
        }
        i = i + 1;
    }
    proof {
        assert forall|k: int| 0 <= k < v.deep_view().len() implies v.deep_view()[k].uuid != uuid@
        by {
            assert(v.deep_view()[k] == v@[k]@);
        }
    }
    false
}

fn contains_name(v: &Vec<Vacancy>, name: &String) -> (r: bool)
    ensures
        r == v.deep_view().contains(name@),
{
    let n = v.len();
    let mut i: usize = 0;
    while i < n
        invariant
            n == v@.len(),
            0 <= i <= n,
            forall|j: int| 0 <= j < i ==> v@[j]@ != name@,
        decreases n - i,
    {
        if v[i].0 == *name {
            proof {
                assert(v.deep_view()[i as int] == name@);
            }
            return true;
        }
        i = i + 1;
    }
    proof {
        assert forall|k: int| 0 <= k < v.deep_view().len() implies v.deep_view()[k] != name@ by {
            assert(v.deep_view()[k] == v@[k]@);
        }
    }
    false
}

/// The loaded schema: the vacancy, skill, company and question sets, built
/// once from a configuration document and read-only afterwards.
pub struct CoefficientScheme {
    vacancies: Vec<Vacancy>,
    skills: Vec<Skill>,
    companies: Vec<Company>,
    questions: Vec<Question>,
}

impl View for CoefficientScheme {
    type V = SchemeView;

    closed spec fn view(&self) -> SchemeView {
        SchemeView {
            vacancies: self.vacancies.deep_view(),
            skills: self.skills.deep_view(),
            companies: self.companies.deep_view(),
            questions: self.questions.deep_view(),
        }
    }
}

impl CoefficientScheme {
    pub fn get_vacancies(&self) -> (r: &Vec<Vacancy>)
        ensures
            r.deep_view() == self@.vacancies,
    {
        &self.vacancies
    }

    pub fn get_skills(&self) -> (r: &Vec<Skill>)
        ensures
            r.deep_view() == self@.skills,
    {
        &self.skills
    }

    pub fn get_companies(&self) -> (r: &Vec<Company>)
        ensures
            r.deep_view() == self@.companies,
    {
        &self.companies
    }

    pub fn get_questions(&self) -> (r: &Vec<Question>)
        ensures
            r.deep_view() == self@.questions,
    {
        &self.questions
    }

    fn parse_vacancies(value: Option<&ConfigValue>) -> (r: Result<Vec<Vacancy>, SchemaError>)
        ensures
            r matches Ok(vs) ==> vacancies_spec(opt_doc(value)) == Some(vs.deep_view()),
            r is Err ==> vacancies_spec(opt_doc(value)) is None,
    {
        let v = match value {
            Some(v) => v,
            None => return Err(
                structural_error("vacancies missing", "the document has no vacancies field"),
            ),
        };
        match v {
            ConfigValue::Array(items) => {
                let ghost dv = docs_view(items@);
                proof {
                    lemma_docs_view(items@);
                }
                let n = items.len();
                let mut out: Vec<Vacancy> = Vec::new();
                let ghost mut ts: Seq<Seq<char>> = Seq::empty();
                let mut i: usize = 0;
                while i < n
                    invariant
                        n == items@.len(),
                        dv == docs_view(items@),
                        dv.len() == items@.len(),
                        forall|j: int| 0 <= j < items@.len() ==> dv[j] == doc_view(items@[j]),
                        0 <= i <= n,
                        texts_of(dv.take(i as int)) == Some(ts),
                        out.deep_view() == dedup_names(ts),
                        opt_doc(value) == DocValue::Array(dv),
                    decreases n - i,
                {
                    proof {
                        assert(dv.take(i + 1).drop_last() =~= dv.take(i as int));
                        assert(dv.take(i + 1).last() == dv[i as int]);
                    }
                    match &items[i] {
                        ConfigValue::Text(s) => {
                            let ghost old_dv = out.deep_view();
                            let ghost old_vs = out@;
                            let dup = contains_name(&out, s);
                            if !dup {
                                out.push(Vacancy(s.clone()));
                                proof {
                                    lemma_deep_seq_push(old_vs, out@.last());
                                    assert(out@ =~= old_vs.push(out@.last()));
                                    assert(deep_seq(old_vs) =~= old_dv);
                                    assert(out.deep_view() =~= deep_seq(out@));
                                    assert(out.deep_view() == old_dv.push(s@));
                                }
                            }
                            proof {
                                let ghost ts_old = ts;
                                ts = ts.push(s@);
                                assert(ts.drop_last() =~= ts_old);
                                assert(out.deep_view() == dedup_names(ts));
                            }
                        },
                        _ => {
                            proof {
                                assert(texts_of(dv.take(i + 1)) is None);
                                lemma_texts_of_prefix_none(dv, i + 1);
                            }
                            return Err(
                                structural_error(
                                    "vacancy not text",
                                    "a vacancies element is not a string",
                                ),
                            );
                        },
                    }
                    i = i + 1;
                }
                proof {
                    assert(dv.take(n as int) =~= dv);
                }
                Ok(out)
            },
            _ => Err(
                structural_error("vacancies not array", "the vacancies field is not an array"),
            ),
        }
    }

    fn parse_skills(value: Option<&ConfigValue>, vacancies: &Vec<Vacancy>) -> (r: Result<
        Vec<Skill>,
        SchemaError,
    >)
        ensures
            r matches Ok(sks) ==> skills_spec(opt_doc(value), vacancies.deep_view())
                == Some(sks.deep_view()),
            r is Err ==> skills_spec(opt_doc(value), vacancies.deep_view()) is None,
    {
        let ghost vdv = vacancies.deep_view();
        let v = match value {
            Some(v) => v,
            None => return Err(
                structural_error("skills missing", "the document has no skills field"),
            ),
        };
        match v {
            ConfigValue::Object(entries) => {
                let ghost ev = entries_view(entries@);
                proof {
                    lemma_entries_view(entries@);
                }
                let n = entries.len();
                let mut out: Vec<Skill> = Vec::new();
                let mut k: usize = 0;
                while k < n
                    invariant
                        n == entries@.len(),
                        ev == entries_view(entries@),
                        ev.len() == entries@.len(),
                        forall|j: int| 0 <= j < entries@.len() ==> ev[j]
                            == (entries@[j].0@, doc_view(entries@[j].1)),
                        0 <= k <= n,
                        vdv == vacancies.deep_view(),
                        skills_entries_spec(ev.take(k as int), vdv) == Some(out.deep_view()),
                        opt_doc(value) == DocValue::Object(ev),
                    decreases n - k,
                {
                    proof {
                        assert(ev.take(k + 1).drop_last() =~= ev.take(k as int));
                        assert(ev.take(k + 1).last() == ev[k as int]);
                    }
                    match &entries[k].1 {
                        ConfigValue::Object(centries) => {
                            let ghost cev = entries_view(centries@);
                            proof {
                                lemma_entries_view(centries@);
                            }
                            let m = centries.len();
                            let mut coeffs: Vec<VacancyCoefficient> = Vec::new();
                            let mut j: usize = 0;
                            while j < m
                                invariant
                                    m == centries@.len(),
                                    cev == entries_view(centries@),
                                    cev.len() == centries@.len(),
                                    forall|t: int| 0 <= t < centries@.len() ==> cev[t]
                                        == (centries@[t].0@, doc_view(centries@[t].1)),
                                    0 <= j <= m,
                                    vdv == vacancies.deep_view(),
                                    coeffs_spec(cev.take(j as int), vdv)
                                        == Some(coeffs.deep_view()),
                                    0 <= k < ev.len(),
                                    ev[k as int].1 == DocValue::Object(cev),
                                    skills_entries_spec(ev.take(k as int), vdv)
                                        == Some(out.deep_view()),
                                    opt_doc(value) == DocValue::Object(ev),
                                decreases m - j,
                            {
                                proof {
                                    assert(cev.take(j + 1).drop_last() =~= cev.take(j as int));
                                    assert(cev.take(j + 1).last() == cev[j as int]);
                                }
                                match &centries[j].1 {
                                    ConfigValue::Int(c) => {
                                        match find_vacancy(vacancies, &centries[j].0) {
                                            Some(vac) => {
                                                let ghost old_vs = coeffs@;
                                                let ghost old_dv = coeffs.deep_view();
                                                coeffs.push(VacancyCoefficient::new(vac, *c));
                                                proof {
                                                    lemma_deep_seq_push(old_vs, coeffs@.last());
                                                    assert(coeffs@ =~= old_vs.push(
                                                        coeffs@.last(),
                                                    ));
                                                    assert(deep_seq(old_vs) =~= old_dv);
                                                    assert(coeffs.deep_view() =~= deep_seq(
                                                        coeffs@,
                                                    ));
                                                    assert(coeffs_spec(cev.take(j + 1), vdv)
                                                        == Some(coeffs.deep_view()));
                                                }
                                            },
                                            None => {
                                                proof {
                                                    assert(coeffs_spec(cev.take(j + 1), vdv)
                                                        is None);
                                                    lemma_coeffs_prefix_none(cev, vdv, j + 1);
                                                    assert(ev.take(k + 1).drop_last()
                                                        =~= ev.take(k as int));
                                                    assert(ev.take(k + 1).last()
                                                        == ev[k as int]);
                                                    assert(skills_entries_spec(
                                                        ev.take(k + 1),
                                                        vdv,
                                                    ) is None);
                                                    lemma_skills_prefix_none(ev, vdv, k + 1);
                                                }
                                                return Err(
                                                    structural_error(
                                                        "vacancy not found",
                                                        "a skill references a vacancy that is not in the vacancy set",
                                                    ),
                                                );
                                            },
                                        }
                                    },
                                    _ => {
                                        proof {
                                            assert(coeffs_spec(cev.take(j + 1), vdv) is None);
                                            lemma_coeffs_prefix_none(cev, vdv, j + 1);
                                            assert(ev.take(k + 1).drop_last()
                                                =~= ev.take(k as int));
                                            assert(ev.take(k + 1).last() == ev[k as int]);
                                            assert(skills_entries_spec(ev.take(k + 1), vdv)
                                                is None);
                                            lemma_skills_prefix_none(ev, vdv, k + 1);
                                        }
                                        return Err(
                                            structural_error(
                                                "coefficient not integer",
                                                "a skill coefficient is not an integer",
                                            ),
                                        );
                                    },
                                }
                                j = j + 1;
                            }
                            proof {
                                assert(cev.take(m as int) =~= cev);
                            }
                            let name = entries[k].0.clone();
                            let ghost old_vs = out@;
                            let ghost old_dv = out.deep_view();
                            let dup = contains_skill(&out, &name);
                            if !dup {
                                out.push(Skill { name, vacancies_coefficient: coeffs });
                                proof {
                                    lemma_deep_seq_push(old_vs, out@.last());
                                    assert(out@ =~= old_vs.push(out@.last()));
                                    assert(deep_seq(old_vs) =~= old_dv);
                                    assert(out.deep_view() =~= deep_seq(out@));
                                }
                            }
                            proof {
                                assert(skills_entries_spec(ev.take(k + 1), vdv)
                                    == Some(out.deep_view()));
                            }
                        },
                        _ => {
                            proof {
                                assert(skills_entries_spec(ev.take(k + 1), vdv) is None);
                                lemma_skills_prefix_none(ev, vdv, k + 1);
                            }
                            return Err(
                                structural_error(
                                    "skill not object",
                                    "a skills entry is not an object of coefficients",
                                ),
                            );
                        },
                    }
                    k = k + 1;
                }
                proof {
                    assert(ev.take(n as int) =~= ev);
                }
                Ok(out)
            },
            _ => Err(
                structural_error("skills not object", "the skills field is not an object"),
            ),
        }
    }

    fn parse_level(v: &ConfigValue) -> (r: Result<JobLevel, SchemaError>)
        ensures
            r matches Ok(l) ==> level_spec(v@) == Some(l@),
            r is Err ==> level_spec(v@) is None,
        decreases doc_height(v@), 1nat,
    {
        let lkey: String = "label".to_owned();
        match v.get_field(&lkey) {
            Some(lv) => match lv {
                ConfigValue::Object(lentries) => {
                    proof {
                        lemma_entries_view(lentries@);
                    }
                    if lentries.len() == 1 {
                        match &lentries[0].1 {
                            ConfigValue::Text(target_s) => {
                                let role = lentries[0].0.clone();
                                let target = target_s.clone();
                                let ckey: String = "children".to_owned();
                                match v.get_field(&ckey) {
                                    None => Ok(JobLevel::make(role, target, None)),
                                    Some(cv) => match cv {
                                        ConfigValue::Null => Ok(
                                            JobLevel::make(role, target, None),
                                        ),
                                        ConfigValue::Array(items) => {
                                            proof {
                                                lemma_obj_lookup_height(v@, "children"@);
                                            }
                                            match Self::parse_levels(items) {
                                                Ok(children) => Ok(
                                                    JobLevel::make(
                                                        role,
                                                        target,
                                                        Some(children),
                                                    ),
                                                ),
                                                Err(e) => Err(e),
                                            }
                                        },
                                        _ => Err(
                                            structural_error(
                                                "children malformed",
                                                "a role node's children is neither an array nor null",
                                            ),
                                        ),
                                    },
                                }
                            },
                            _ => Err(
                                structural_error(
                                    "label not text",
                                    "a role node's label value is not a string",
                                ),
                            ),
                        }
                    } else {
                        Err(
                            structural_error(
                                "label not single",
                                "a role node's label must hold exactly one entry",
                            ),
                        )
                    }
                },
                _ => Err(
                    structural_error(
                        "label not object",
                        "a role node's label is not an object",
                    ),
                ),
            },
            None => Err(
                structural_error("label missing", "a role node has no label"),
            ),
        }
    }

    fn parse_levels(items: &Vec<ConfigValue>) -> (r: Result<Vec<JobLevel>, SchemaError>)
        ensures
            r matches Ok(ls) ==> levels_spec(docs_view(items@)) == Some(levels_view(ls@)),
            r is Err ==> levels_spec(docs_view(items@)) is None,
        decreases docs_height(docs_view(items@)), 0nat,
    {
        let ghost dv = docs_view(items@);
        proof {
            lemma_docs_view(items@);
        }
        let n = items.len();
        let mut out: Vec<JobLevel> = Vec::new();
        let mut i: usize = 0;
        while i < n
            invariant
                n == items@.len(),
                dv == docs_view(items@),
                dv.len() == items@.len(),
                forall|j: int| 0 <= j < items@.len() ==> dv[j] == doc_view(items@[j]),
                0 <= i <= n,
                levels_spec(dv.take(i as int)) == Some(levels_view(out@)),
            decreases n - i,
        {
            proof {
                assert(dv.take(i + 1).drop_last() =~= dv.take(i as int));
                assert(dv.take(i + 1).last() == dv[i as int]);
                lemma_docs_height_mem(dv, i as int);
            }
            match Self::parse_level(&items[i]) {
                Ok(l) => {
                    let ghost old_vs = out@;
                    out.push(l);
                    proof {
                        assert(out@.drop_last() =~= old_vs);
                        assert(levels_spec(dv.take(i + 1)) == Some(levels_view(out@)));
                    }
                },
                Err(e) => {
                    proof {
                        assert(levels_spec(dv.take(i + 1)) is None);
                        lemma_levels_prefix_none(dv, i + 1);
                    }
                    return Err(e);
                },
            }
            i = i + 1;
        }
        proof {
            assert(dv.take(n as int) =~= dv);
        }
        Ok(out)
    }

    fn parse_companies(value: Option<&ConfigValue>) -> (r: Result<Vec<Company>, SchemaError>)
        ensures
            r matches Ok(cs) ==> companies_spec(opt_doc(value)) == Some(cs.deep_view()),
            r is Err ==> companies_spec(opt_doc(value)) is None,
    {
        let v = match value {
            Some(v) => v,
            None => return Err(
                structural_error("companies missing", "the document has no jobs.companies field"),
            ),
        };
        match v {
            ConfigValue::Object(entries) => {
                let ghost ev = entries_view(entries@);
                proof {
                    lemma_entries_view(entries@);
                }
                let n = entries.len();
                let mut out: Vec<Company> = Vec::new();
                let mut k: usize = 0;
                while k < n
                    invariant
                        n == entries@.len(),
                        ev == entries_view(entries@),
                        ev.len() == entries@.len(),
                        forall|j: int| 0 <= j < entries@.len() ==> ev[j]
                            == (entries@[j].0@, doc_view(entries@[j].1)),
                        0 <= k <= n,
                        companies_entries_spec(ev.take(k as int)) == Some(out.deep_view()),
                        opt_doc(value) == DocValue::Object(ev),
                    decreases n - k,
                {
                    proof {
                        assert(ev.take(k + 1).drop_last() =~= ev.take(k as int));
                        assert(ev.take(k + 1).last() == ev[k as int]);
                    }
                    match Self::parse_level(&entries[k].1) {
                        Ok(tree) => {
                            let name = entries[k].0.clone();
                            let ghost old_vs = out@;
                            let ghost old_dv = out.deep_view();
                            let dup = contains_company(&out, &name);
                            if !dup {
                                out.push(Company { name, tree });
                                proof {
                                    lemma_deep_seq_push(old_vs, out@.last());
                                    assert(out@ =~= old_vs.push(out@.last()));
                                    assert(deep_seq(old_vs) =~= old_dv);
                                    assert(out.deep_view() =~= deep_seq(out@));
                                }
                            }
                            proof {
                                assert(companies_entries_spec(ev.take(k + 1))
                                    == Some(out.deep_view()));
                            }
                        },
                        Err(e) => {
                            proof {
                                assert(companies_entries_spec(ev.take(k + 1)) is None);
                                lemma_companies_prefix_none(ev, k + 1);
                            }
                            return Err(e);
                        },
                    }
                    k = k + 1;
                }
                proof {
                    assert(ev.take(n as int) =~= ev);
                }
                Ok(out)
            },
            _ => Err(
                structural_error(
                    "companies not object",
                    "the jobs.companies field is not an object",
                ),
            ),
        }
    }

    fn parse_question(v: &ConfigValue) -> (r: Result<Question, SchemaError>)
        ensures
            r matches Ok(q) ==> (question_spec(v@) matches Some(rq) && q@.title == rq.title
                && q@.variants == rq.variants && match rq.uuid {
                    Some(u) => q@.uuid == u,
                    None => q@.uuid.len() == 36,
                }),
            r is Err ==> question_spec(v@) is None,
    {
        let tkey: String = "title".to_owned();
        let title = match v.get_field(&tkey) {
            Some(tv) => match tv {
                ConfigValue::Text(t) => t.clone(),
                _ => return Err(
                    structural_error("title not text", "a question's title is not a string"),
                ),
            },
            None => return Err(
                structural_error("title missing", "a question has no title"),
            ),
        };
        let vkey: String = "variants".to_owned();
        let vitems = match v.get_field(&vkey) {
            Some(vv) => match vv {
                ConfigValue::Array(vitems) => vitems,
                _ => return Err(
                    structural_error(
                        "variants not array",
                        "a question's variants is not an array",
                    ),
                ),
            },
            None => return Err(
                structural_error("variants missing", "a question has no variants"),
            ),
        };
        let ghost dv = docs_view(vitems@);
        proof {
            lemma_docs_view(vitems@);
        }
        let n = vitems.len();
        let mut variants: Vec<AnswerVariant> = Vec::new();
        let mut i: usize = 0;
        while i < n
            invariant
                n == vitems@.len(),
                dv == docs_view(vitems@),
                dv.len() == vitems@.len(),
                forall|j: int| 0 <= j < vitems@.len() ==> dv[j] == doc_view(vitems@[j]),
                0 <= i <= n,
                variants_spec(dv.take(i as int)) == Some(variants.deep_view()),
                obj_lookup(v@, "variants"@) == Some(DocValue::Array(dv)),
                obj_lookup(v@, "title"@) matches Some(tv2) && tv2 is Text,
            decreases n - i,
        {
            proof {
                assert(dv.take(i + 1).drop_last() =~= dv.take(i as int));
                assert(dv.take(i + 1).last() == dv[i as int]);
            }
            let ckey: String = "content".to_owned();
            let akey: String = "is_answer".to_owned();
            let content = match vitems[i].get_field(&ckey) {
                Some(cv) => match cv {
                    ConfigValue::Text(c) => c.clone(),
                    _ => {
                        proof {
                            assert(variants_spec(dv.take(i + 1)) is None);
                            lemma_variants_prefix_none(dv, i + 1);
                        }
                        return Err(
                            structural_error(
                                "content not text",
                                "an answer variant's content is not a string",
                            ),
                        );
                    },
                },
                None => {
                    proof {
                        assert(variants_spec(dv.take(i + 1)) is None);
                        lemma_variants_prefix_none(dv, i + 1);
                    }
                    return Err(
                        structural_error("content missing", "an answer variant has no content"),
                    );
                },
            };
            let is_answer = match vitems[i].get_field(&akey) {
                Some(av) => match av {
                    ConfigValue::Bool(b) => *b,
                    _ => {
                        proof {
                            assert(variants_spec(dv.take(i + 1)) is None);
                            lemma_variants_prefix_none(dv, i + 1);
                        }
                        return Err(
                            structural_error(
                                "is_answer not boolean",
                                "an answer variant's is_answer is not a boolean",
                            ),
                        );
                    },
                },
                None => {
                    proof {
                        assert(variants_spec(dv.take(i + 1)) is None);
                        lemma_variants_prefix_none(dv, i + 1);
                    }
                    return Err(
                        structural_error(
                            "is_answer missing",
                            "an answer variant has no is_answer",
                        ),
                    );
                },
            };
            let ghost old_vs = variants@;
            let ghost old_dv = variants.deep_view();
            let dup = contains_variant(&variants, &content);
            if !dup {
                variants.push(AnswerVariant::make(content, is_answer));
                proof {
                    lemma_deep_seq_push(old_vs, variants@.last());
                    assert(variants@ =~= old_vs.push(variants@.last()));
                    assert(deep_seq(old_vs) =~= old_dv);
                    assert(variants.deep_view() =~= deep_seq(variants@));
                }
            }
            proof {
                assert(variants_spec(dv.take(i + 1)) == Some(variants.deep_view()));
            }
            i = i + 1;
        }
        proof {
            assert(dv.take(n as int) =~= dv);
        }
        let ukey: String = "uuid".to_owned();
        let uuid = match v.get_field(&ukey) {
            None => fresh_uuid(),
            Some(uv) => match uv {
                ConfigValue::Text(u) => u.clone(),
                _ => return Err(
                    structural_error("uuid not text", "a question's uuid is not a string"),
                ),
            },
        };
        Ok(Question::make(uuid, title, variants))
    }

    fn parse_questions(value: Option<&ConfigValue>) -> (r: Result<Vec<Question>, SchemaError>)
        ensures
            r matches Ok(qs) ==> questions_ok(opt_doc(value), qs.deep_view()),
            r is Err ==> questions_raw_spec(opt_doc(value)) is None,
    {
        let v = match value {
            Some(v) => v,
            None => return Err(
                structural_error("questions missing", "the document has no questions field"),
            ),
        };
        match v {
            ConfigValue::Array(items) => {
                let ghost dv = docs_view(items@);
                proof {
                    lemma_docs_view(items@);
                }
                let n = items.len();
                let mut out: Vec<Question> = Vec::new();
                let ghost mut raw: Seq<RawQuestionView> = Seq::empty();
                let ghost mut us: Seq<Seq<char>> = Seq::empty();
                let mut i: usize = 0;
                while i < n
                    invariant
                        n == items@.len(),
                        dv == docs_view(items@),
                        dv.len() == items@.len(),
                        forall|j: int| 0 <= j < items@.len() ==> dv[j] == doc_view(items@[j]),
                        0 <= i <= n,
                        questions_items_spec(dv.take(i as int)) == Some(raw),
                        uuid_fill_ok(raw, us),
                        out.deep_view() == dedup_questions(fill_uuids(raw, us)),
                        opt_doc(value) == DocValue::Array(dv),
                    decreases n - i,
                {
                    proof {
                        assert(dv.take(i + 1).drop_last() =~= dv.take(i as int));
                        assert(dv.take(i + 1).last() == dv[i as int]);
                    }
                    match Self::parse_question(&items[i]) {
                        Ok(q) => {
                            let ghost rq = question_spec(dv[i as int])->0;
                            let ghost old_vs = out@;
                            let ghost old_dv = out.deep_view();
                            let ghost old_raw = raw;
                            let ghost old_us = us;
                            let dup = contains_question(&out, q.get_uuid());
                            proof {
                                raw = raw.push(rq);
                                us = us.push(q@.uuid);
                                lemma_fill_push(old_raw, old_us, rq, q@);
                                assert(fill_uuids(raw, us).drop_last()
                                    =~= fill_uuids(old_raw, old_us));
                                assert(uuid_fill_ok(raw, us)) by {
                                    assert forall|j: int| 0 <= j < raw.len() implies match
                                        #[trigger] raw[j].uuid {
                                        Some(u) => us[j] == u,
                                        None => us[j].len() == 36,
                                    } by {
                                        if j < old_raw.len() {
                                            assert(raw[j] == old_raw[j]);
                                            assert(us[j] == old_us[j]);
                                        }
                                    }
                                }
                            }
                            if !dup {
                                out.push(q);
                                proof {
                                    lemma_deep_seq_push(old_vs, out@.last());
                                    assert(out@ =~= old_vs.push(out@.last()));
                                    assert(deep_seq(old_vs) =~= old_dv);
                                    assert(out.deep_view() =~= deep_seq(out@));
                                }
                            }
                            proof {
                                assert(out.deep_view() == dedup_questions(fill_uuids(raw, us)));
                            }
                        },
                        Err(e) => {
                            proof {
                                assert(questions_items_spec(dv.take(i + 1)) is None);
                                lemma_questions_prefix_none(dv, i + 1);
                            }
                            return Err(e);
                        },
                    }
                    i = i + 1;
                }
                proof {
                    assert(dv.take(n as int) =~= dv);
                    assert(questions_ok(opt_doc(value), out.deep_view())) by {
                        let raw2 = questions_raw_spec(opt_doc(value))->0;
                        assert(raw2 == raw);
                        assert(uuid_fill_ok(raw2, us) && out.deep_view() == dedup_questions(
                            fill_uuids(raw2, us),
                        ));
                        assert(exists|us2: Seq<Seq<char>>|
                            uuid_fill_ok(raw2, us2) && out.deep_view() == dedup_questions(
                                #[trigger] fill_uuids(raw2, us2),
                            ));
                    }
                }
                Ok(out)
            },
            _ => Err(
                structural_error("questions not array", "the questions field is not an array"),
            ),
        }
    }

    /// Builds the whole schema from a configuration document: vacancies,
    /// then skills resolved against them, then companies, then questions.
    /// Fails on the first structural mismatch; a schema is never partial.
    pub fn new(document: &ConfigValue) -> (r: Result<CoefficientScheme, SchemaError>)
        ensures
            r is Ok <==> scheme_doc_ok(document@),
            r matches Ok(s) ==> scheme_view_ok(document@, s@),
    {
        let vkey: String = "vacancies".to_owned();
        let vacancies = match Self::parse_vacancies(document.get_field(&vkey)) {
            Ok(v) => v,
            Err(e) => return Err(e),
        };
        let skey: String = "skills".to_owned();
        let skills = match Self::parse_skills(document.get_field(&skey), &vacancies) {
            Ok(v) => v,
            Err(e) => return Err(e),
        };
        let jkey: String = "jobs".to_owned();
        let ckey: String = "companies".to_owned();
        let jobs_field = document.get_field(&jkey);
        let companies_field = match jobs_field {
            Some(j) => j.get_field(&ckey),
            None => None,
        };
        let companies = match Self::parse_companies(companies_field) {
            Ok(v) => v,
            Err(e) => return Err(e),
        };
        let qkey: String = "questions".to_owned();
        let questions = match Self::parse_questions(document.get_field(&qkey)) {
            Ok(v) => v,
            Err(e) => return Err(e),
        };
        let scheme = CoefficientScheme { vacancies, skills, companies, questions };
        proof {
            let doc = document@;
            match doc_index(doc, "vacancies"@) {
                DocValue::Array(items) => match texts_of(items) {
                    Some(names) => lemma_dedup_names_props(names),
                    None => {},
                },
                _ => {},
            }
            assert forall|i: int, j: int|
                0 <= i < j < scheme@.skills.len() implies scheme@.skills[i].name
                != scheme@.skills[j].name by {
                match doc_index(doc, "skills"@) {
                    DocValue::Object(entries) => {
                        lemma_skills_entries_props(entries, scheme@.vacancies);
                        let sks = skills_entries_spec(entries, scheme@.vacancies)->0;
                        assert(sks == scheme@.skills);
                        assert(sks[i].name != sks[j].name);
                    },
                    _ => {},
                }
            }
            assert forall|i: int, k: int|
                0 <= i < scheme@.skills.len() && 0 <= k < scheme@.skills[i].coefficients.len()
                implies scheme@.vacancies.contains(
                #[trigger] scheme@.skills[i].coefficients[k].0,
            ) by {
                match doc_index(doc, "skills"@) {
                    DocValue::Object(entries) => {
                        lemma_skills_entries_props(entries, scheme@.vacancies);
                        let sks = skills_entries_spec(entries, scheme@.vacancies)->0;
                        assert(sks == scheme@.skills);
                        assert(scheme@.vacancies.contains(sks[i].coefficients[k].0));
                    },
                    _ => {},
                }
            }
            assert forall|i: int, j: int|
                0 <= i < j < scheme@.companies.len() implies scheme@.companies[i].name
                != scheme@.companies[j].name by {
                match doc_index(doc_index(doc, "jobs"@), "companies"@) {
                    DocValue::Object(entries) => {
                        lemma_companies_entries_props(entries);
                        let cs = companies_entries_spec(entries)->0;
                        assert(cs == scheme@.companies);
                        assert(cs[i].name != cs[j].name);
                    },
                    _ => {},
                }
            }
            let qd = doc_index(doc, "questions"@);
            assert(questions_ok(qd, scheme@.questions));
            let raw = questions_raw_spec(qd)->0;
            let us = choose|us: Seq<Seq<char>>|
                uuid_fill_ok(raw, us) && scheme@.questions == dedup_questions(
                    #[trigger] fill_uuids(raw, us),
                );
            lemma_dedup_questions_props(fill_uuids(raw, us));
            assert forall|i: int, a: int, b: int|
                #![trigger scheme@.questions[i].variants[a], scheme@.questions[i].variants[b]]
                0 <= i < scheme@.questions.len() && 0 <= a < b
                    < scheme@.questions[i].variants.len()
                implies scheme@.questions[i].variants[a].0
                != scheme@.questions[i].variants[b].0 by {
                match qd {
                    DocValue::Array(qitems) => {
                        lemma_questions_raw_variants_unique(qitems);
                        lemma_dedup_questions_mem(fill_uuids(raw, us));
                        let t = choose|t: int|
                            0 <= t < fill_uuids(raw, us).len() && #[trigger] dedup_questions(
                                fill_uuids(raw, us),
                            )[i] == fill_uuids(raw, us)[t];
                        assert(fill_uuids(raw, us)[t].variants == raw[t].variants);
                        assert(scheme@.questions[i] == fill_uuids(raw, us)[t]);
                    },
                    _ => {},
                }
            }
        }
        Ok(scheme)
    }

    /// The question with the given identifier. The identifier must name a
    /// question of the schema: asking for an unknown one is a caller error.
    pub fn get_question_by_uuid(&self, uuid: &String) -> (r: Question)
        requires
            question_lookup(self@.questions, uuid@) is Some,
        ensures
            question_lookup(self@.questions, uuid@) == Some(r@),
    {
        let n = self.questions.len();
        let ghost qs = self@.questions;
        let mut i: usize = 0;
        while i < n
            invariant
                n == self.questions@.len(),
                qs == self@.questions,
                qs.len() == n,
                forall|j: int| 0 <= j < qs.len() ==> qs[j] == self.questions@[j]@,
                0 <= i <= n,
                forall|j: int| 0 <= j < i ==> qs[j].uuid != uuid@,
                question_lookup(qs, uuid@) is Some,
            decreases n - i,
        {
            if *self.questions[i].get_uuid() == *uuid {
                proof {
                    lemma_question_lookup_skip(qs, uuid@, i as int);
                    assert(qs.skip(i as int)[0] == qs[i as int]);
                }
                return self.questions[i].clone();
            }
            i = i + 1;
        }
        proof {
            lemma_question_lookup_skip(qs, uuid@, n as int);
            assert(qs.skip(n as int) =~= Seq::<QuestionView>::empty());
            assert(false);
        }
        unreached()
    }
}

} // verus!
