//! The schema model: vacancies, skills with per-vacancy weights, companies
//! with their role trees, and quiz questions with their answer variants.
//!
//! Every type carries a mathematical view over sequences of characters, so
//! that contracts never depend on pointer identity or on `std` trait impls.

use vstd::prelude::*;

verus! {

/// The element-wise deep view of a sequence; `v.deep_view()` of a `Vec` is
/// exactly `deep_seq(v@)`.
pub open spec fn deep_seq<T: DeepView>(s: Seq<T>) -> Seq<T::V> {
    Seq::new(s.len(), |i: int| s[i].deep_view())
}

pub proof fn lemma_deep_seq_push<T: DeepView>(s: Seq<T>, x: T)
    ensures
        deep_seq(s.push(x)) == deep_seq(s).push(x.deep_view()),
{
    assert(deep_seq(s.push(x)) =~= deep_seq(s).push(x.deep_view()));
}

pub proof fn lemma_push_contains<T>(s: Seq<T>, x: T, y: T)
    ensures
        s.push(x).contains(y) <==> s.contains(y) || x == y,
{
    if s.push(x).contains(y) {
        let k = choose|k: int| 0 <= k < s.push(x).len() && s.push(x)[k] == y;
        if k < s.len() {
            assert(s[k] == y);
        }
    }
    if s.contains(y) {
        let k = choose|k: int| 0 <= k < s.len() && s[k] == y;
        assert(s.push(x)[k] == y);
    }
    if x == y {
        assert(s.push(x)[s.len() as int] == y);
    }
}

/// A named target role archetype. Identity is the name alone.
pub struct Vacancy(pub String);

impl View for Vacancy {
    type V = Seq<char>;

    open spec fn view(&self) -> Seq<char> {
        self.0@
    }
}

impl DeepView for Vacancy {
    type V = Seq<char>;

    open spec fn deep_view(&self) -> Seq<char> {
        self@
    }
}

impl Clone for Vacancy {
    fn clone(&self) -> (r: Self)
        ensures
            r@ == self@,
    {
        Vacancy(self.0.clone())
    }
}

impl From<String> for Vacancy {
    fn from(value: String) -> (r: Self)
        ensures
            r@ == value@,
    {
        Vacancy(value)
    }
}

impl vstd::std_specs::convert::FromSpecImpl<String> for Vacancy {
    open spec fn obeys_from_spec() -> bool {
        true
    }

    open spec fn from_spec(value: String) -> Self {
        Vacancy(value)
    }
}

/// The weight one skill contributes toward one vacancy. The vacancy is held
/// as an owned copy of its name, never as a reference into the vacancy set.
pub struct VacancyCoefficient(String, i64);

impl View for VacancyCoefficient {
    type V = (Seq<char>, int);

    closed spec fn view(&self) -> (Seq<char>, int) {
        (self.0@, self.1 as int)
    }
}

impl DeepView for VacancyCoefficient {
    type V = (Seq<char>, int);

    open spec fn deep_view(&self) -> (Seq<char>, int) {
        self@
    }
}

impl Clone for VacancyCoefficient {
    fn clone(&self) -> (r: Self)
        ensures
            r@ == self@,
    {
        VacancyCoefficient(self.0.clone(), self.1)
    }
}

impl VacancyCoefficient {
    pub fn new(vacancy: &Vacancy, coefficient: i64) -> (r: Self)
        ensures
            r@ == (vacancy@, coefficient as int),
    {
        VacancyCoefficient(vacancy.0.clone(), coefficient)
    }

    pub fn get_vacancy_name(&self) -> (r: String)
        ensures
            r@ == self@.0,
    {
        self.0.clone()
    }

    pub fn get_coefficient(&self) -> (r: i64)
        ensures
            r as int == self@.1,
    {
        self.1
    }
}

/// The mathematical content of a `Skill`.
pub struct SkillView {
    pub name: Seq<char>,
    pub coefficients: Seq<(Seq<char>, int)>,
}

/// A named competency and the ordered list of weights it contributes toward
/// vacancies. Identity is the name alone; the weights are not part of it.
pub struct Skill {
    pub name: String,
    pub vacancies_coefficient: Vec<VacancyCoefficient>,
}

impl View for Skill {
    type V = SkillView;

    open spec fn view(&self) -> SkillView {
        SkillView { name: self.name@, coefficients: self.vacancies_coefficient.deep_view() }
    }
}

impl DeepView for Skill {
    type V = SkillView;

    open spec fn deep_view(&self) -> SkillView {
        self@
    }
}

impl Clone for Skill {
    fn clone(&self) -> (r: Self)
        ensures
            r@ == self@,
    {
        let mut coeffs: Vec<VacancyCoefficient> = Vec::new();
        let mut i: usize = 0;
        while i < self.vacancies_coefficient.len()
            invariant
                0 <= i <= self.vacancies_coefficient.len(),
                coeffs@.len() == i,
                forall|j: int| 0 <= j < i ==> coeffs@[j]@ == self.vacancies_coefficient@[j]@,
            decreases self.vacancies_coefficient.len() - i,
        {
            coeffs.push(self.vacancies_coefficient[i].clone());
            i = i + 1;
        }
        proof {
            assert forall|j: int| 0 <= j < coeffs@.len() implies
                coeffs.deep_view()[j] == self.vacancies_coefficient.deep_view()[j] by {
                assert(coeffs.deep_view()[j] == coeffs@[j].deep_view());
                assert(self.vacancies_coefficient.deep_view()[j]
                    == self.vacancies_coefficient@[j].deep_view());
            }
            assert(coeffs.deep_view() =~= self.vacancies_coefficient.deep_view());
        }
        Skill { name: self.name.clone(), vacancies_coefficient: coeffs }
    }
}

impl Skill {
    pub fn get_vacancies_coefficient(&self) -> (r: &Vec<VacancyCoefficient>)
        ensures
            r.deep_view() == self@.coefficients,
    {
        &self.vacancies_coefficient
    }
}

/// A bare named job; kept for schema producers that list jobs on their own.
pub struct Job(pub String);

impl View for Job {
    type V = Seq<char>;

    open spec fn view(&self) -> Seq<char> {
        self.0@
    }
}

/// The mathematical content of a `JobLevel`: one role-to-vacancy label and
/// the subtrees beneath it.
pub struct LevelView {
    pub role: Seq<char>,
    pub target: Seq<char>,
    pub children: Seq<LevelView>,
}

/// One node of a company's role tree. The label maps exactly one internal
/// role name to the vacancy archetype it corresponds to; a document whose
/// label does not hold exactly one entry is rejected at load time.
pub struct JobLevel {
    pub(crate) label: (String, String),
    pub(crate) children: Option<Vec<JobLevel>>,
}

pub closed spec fn level_view(l: JobLevel) -> LevelView
    decreases l,
{
    LevelView {
        role: l.label.0@,
        target: l.label.1@,
        children: match l.children {
            Option::None => Seq::empty(),
            Option::Some(v) => levels_view(v@),
        },
    }
}

pub open spec fn levels_view(s: Seq<JobLevel>) -> Seq<LevelView>
    decreases s,
{
    if s.len() == 0 {
        Seq::empty()
    } else {
        levels_view(s.drop_last()).push(level_view(s.last()))
    }
}

pub proof fn lemma_levels_view(s: Seq<JobLevel>)
    ensures
        levels_view(s).len() == s.len(),
        forall|i: int| 0 <= i < s.len() ==> levels_view(s)[i] == level_view(s[i]),
    decreases s,
{
    if s.len() > 0 {
        lemma_levels_view(s.drop_last());
    }
}

/// Every node of a role tree in pre-order: the node itself first, then the
/// flattened subtrees of its children, left to right.
pub open spec fn preorder(l: LevelView) -> Seq<LevelView>
    decreases l,
{
    seq![l] + preorder_forest(l.children)
}

pub open spec fn preorder_forest(ls: Seq<LevelView>) -> Seq<LevelView>
    decreases ls,
{
    if ls.len() == 0 {
        Seq::empty()
    } else {
        preorder(ls[0]) + preorder_forest(ls.drop_first())
    }
}

pub proof fn lemma_preorder_forest_push(s: Seq<LevelView>, x: LevelView)
    ensures
        preorder_forest(s.push(x)) == preorder_forest(s) + preorder(x),
    decreases s,
{
    if s.len() == 0 {
        assert(s.push(x)[0] == x);
        assert(s.push(x).drop_first() =~= Seq::<LevelView>::empty());
        assert(preorder_forest(s.push(x))
            == preorder(x) + preorder_forest(Seq::<LevelView>::empty()));
        assert(preorder_forest(s.push(x)) =~= preorder_forest(s) + preorder(x));
    } else {
        assert(s.push(x)[0] == s[0]);
        assert(s.push(x).drop_first() =~= s.drop_first().push(x));
        lemma_preorder_forest_push(s.drop_first(), x);
        assert(preorder_forest(s.push(x)) =~= preorder_forest(s) + preorder(x));
    }
}

pub proof fn lemma_levels_view_concat(a: Seq<JobLevel>, b: Seq<JobLevel>)
    ensures
        levels_view(a + b) == levels_view(a) + levels_view(b),
    decreases b,
{
    if b.len() == 0 {
        assert(a + b =~= a);
        assert(levels_view(a) + levels_view(b) =~= levels_view(a));
    } else {
        assert((a + b).drop_last() =~= a + b.drop_last());
        assert((a + b).last() == b.last());
        lemma_levels_view_concat(a, b.drop_last());
        assert(levels_view(a + b) =~= levels_view(a) + levels_view(b));
    }
}

impl View for JobLevel {
    type V = LevelView;

    open spec fn view(&self) -> LevelView {
        level_view(*self)
    }
}

impl DeepView for JobLevel {
    type V = LevelView;

    open spec fn deep_view(&self) -> LevelView {
        self@
    }
}

fn clone_level(l: &JobLevel) -> (r: JobLevel)
    ensures
        r@ == l@,
    decreases *l, 1nat,
{
    let role = l.label.0.clone();
    let target = l.label.1.clone();
    let children: Option<Vec<JobLevel>> = match &l.children {
        Option::None => Option::None,
        Option::Some(v) => Option::Some(clone_forest(l, v)),
    };
    JobLevel { label: (role, target), children }
}

fn clone_forest(parent: &JobLevel, v: &Vec<JobLevel>) -> (r: Vec<JobLevel>)
    requires
        parent.children == Option::Some(*v),
    ensures
        r@.len() == v@.len(),
        forall|j: int| 0 <= j < v@.len() ==> r@[j]@ == v@[j]@,
        levels_view(r@) == levels_view(v@),
    decreases *parent, 0nat,
{
    let mut out: Vec<JobLevel> = Vec::new();
    let mut i: usize = 0;
    while i < v.len()
        invariant
            parent.children == Option::Some(*v),
            0 <= i <= v@.len(),
            out@.len() == i,
            forall|j: int| 0 <= j < i ==> out@[j]@ == v@[j]@,
        decreases v@.len() - i,
    {
        proof {
            assert(decreases_to!(*parent => parent.children));
            assert(decreases_to!(parent.children => parent.children->0));
            assert(decreases_to!(*v => v@));
            assert(decreases_to!(v@ => v@[i as int]));
            assert(decreases_to!(*parent => v@[i as int]));
        }
        out.push(clone_level(&v[i]));
        i = i + 1;
    }
    proof {
        lemma_levels_view(out@);
        lemma_levels_view(v@);
        assert(levels_view(out@) =~= levels_view(v@));
    }
    out
}

impl Clone for JobLevel {
    fn clone(&self) -> (r: Self)
        ensures
            r@ == self@,
    {
        clone_level(self)
    }
}

impl JobLevel {
    pub(crate) fn make(role: String, target: String, children: Option<Vec<JobLevel>>)
        -> (r: JobLevel)
        ensures
            r@ == (LevelView {
                role: role@,
                target: target@,
                children: match children {
                    Option::None => Seq::<LevelView>::empty(),
                    Option::Some(v) => levels_view(v@),
                },
            }),
    {
        JobLevel { label: (role, target), children }
    }

    /// Flattens the tree rooted here into its full node list by pre-order
    /// traversal; every node, this one included, appears exactly once.
    pub fn get_iter(&self) -> (r: Vec<JobLevel>)
        ensures
            levels_view(r@) == preorder(self@),
        decreases *self, 2nat,
    {
        let mut out: Vec<JobLevel> = Vec::new();
        let c = self.clone();
        proof {
            assert(c@ == self@);
        }
        out.push(c);
        proof {
            assert(out@.len() == 1);
            assert(out@.drop_last() =~= Seq::<JobLevel>::empty());
            assert(out@.last()@ == self@);
            assert(levels_view(out@)
                == levels_view(out@.drop_last()).push(level_view(out@.last())));
            assert(levels_view(out@) =~= seq![self@]);
        }
        match &self.children {
            Option::None => {
                proof {
                    assert(levels_view(out@) =~= preorder(self@));
                }
            },
            Option::Some(v) => {
                let ghost cv = levels_view(v@);
                proof {
                    lemma_levels_view(v@);
                }
                let n = v.len();
                let mut i: usize = 0;
                while i < n
                    invariant
                        self.children == Option::Some(*v),
                        cv == levels_view(v@),
                        cv.len() == v@.len(),
                        forall|j: int| 0 <= j < v@.len() ==> cv[j] == level_view(v@[j]),
                        n == v@.len(),
                        0 <= i <= n,
                        levels_view(out@) == seq![self@]
                            + preorder_forest(cv.subrange(0, i as int)),
                    decreases n - i,
                {
                    proof {
                        assert(decreases_to!(*self => v@[i as int]));
                    }
                    let ghost out_before = out@;
                    let mut sub = v[i].get_iter();
                    let ghost sub_snap = sub@;
                    out.append(&mut sub);
                    proof {
                        lemma_levels_view_concat(out_before, sub_snap);
                        lemma_preorder_forest_push(cv.subrange(0, i as int), cv[i as int]);
                        assert(cv.subrange(0, (i + 1) as int)
                            =~= cv.subrange(0, i as int).push(cv[i as int]));
                        assert(levels_view(out@) =~= seq![self@]
                            + preorder_forest(cv.subrange(0, (i + 1) as int)));
                    }
                    i = i + 1;
                }
                proof {
                    assert(cv.subrange(0, n as int) =~= cv);
                    assert(levels_view(out@) =~= preorder(self@));
                }
            },
        }
        out
    }

    /// The single label entry: this company's role name paired with the
    /// vacancy archetype it corresponds to.
    pub fn label(&self) -> (r: &(String, String))
        ensures
            r.0@ == self@.role,
            r.1@ == self@.target,
    {
        &self.label
    }

    /// The child nodes beneath this one, `None` for a leaf.
    pub fn get_children(&self) -> (r: &Option<Vec<JobLevel>>)
        ensures
            match r {
                Option::Some(v) => self@.children == levels_view(v@),
                Option::None => self@.children == Seq::<LevelView>::empty(),
            },
    {
        &self.children
    }
}

/// The mathematical content of a `Company`.
pub struct CompanyView {
    pub name: Seq<char>,
    pub tree: LevelView,
}

/// An organization: a unique name and the root of its role tree.
pub struct Company {
    pub name: String,
    pub tree: JobLevel,
}

impl View for Company {
    type V = CompanyView;

    open spec fn view(&self) -> CompanyView {
        CompanyView { name: self.name@, tree: self.tree@ }
    }
}

impl DeepView for Company {
    type V = CompanyView;

    open spec fn deep_view(&self) -> CompanyView {
        self@
    }
}

impl Clone for Company {
    fn clone(&self) -> (r: Self)
        ensures
            r@ == self@,
    {
        Company { name: self.name.clone(), tree: self.tree.clone() }
    }
}

impl Company {
    pub fn name(&self) -> (r: &String)
        ensures
            r@ == self@.name,
    {
        &self.name
    }

    pub fn tree(&self) -> (r: &JobLevel)
        ensures
            r@ == self@.tree,
    {
        &self.tree
    }
}

/// One selectable answer of a question: its text and whether selecting it
/// counts as correct. Identity is the content alone.
pub struct AnswerVariant {
    pub(crate) content: String,
    pub(crate) is_answer: bool,
}

impl View for AnswerVariant {
    type V = (Seq<char>, bool);

    closed spec fn view(&self) -> (Seq<char>, bool) {
        (self.content@, self.is_answer)
    }
}

impl DeepView for AnswerVariant {
    type V = (Seq<char>, bool);

    open spec fn deep_view(&self) -> (Seq<char>, bool) {
        self@
    }
}

impl Clone for AnswerVariant {
    fn clone(&self) -> (r: Self)
        ensures
            r@ == self@,
    {
        AnswerVariant { content: self.content.clone(), is_answer: self.is_answer }
    }
}

impl AnswerVariant {
    pub(crate) fn make(content: String, is_answer: bool) -> (r: AnswerVariant)
        ensures
            r@ == (content@, is_answer),
    {
        AnswerVariant { content, is_answer }
    }

    pub fn get_content(&self) -> (r: &String)
        ensures
            r@ == self@.0,
    {
        &self.content
    }

    pub fn get_answer_state(&self) -> (r: bool)
        ensures
            r == self@.1,
    {
        self.is_answer
    }
}

/// The mathematical content of a `Question`.
pub struct QuestionView {
    pub uuid: Seq<char>,
    pub title: Seq<char>,
    pub variants: Seq<(Seq<char>, bool)>,
}

/// A quiz item: a unique identifier (generated at load time when the
/// document gives none), a title, and its answer variants. Identity is the
/// identifier; the title takes no part in it.
pub struct Question {
    pub(crate) uuid: String,
    pub(crate) title: String,
    pub(crate) variants: Vec<AnswerVariant>,
}

impl View for Question {
    type V = QuestionView;

    closed spec fn view(&self) -> QuestionView {
        QuestionView { uuid: self.uuid@, title: self.title@, variants: self.variants.deep_view() }
    }
}

impl DeepView for Question {
    type V = QuestionView;

    open spec fn deep_view(&self) -> QuestionView {
        self@
    }
}

impl Clone for Question {
    fn clone(&self) -> (r: Self)
        ensures
            r@ == self@,
    {
        let mut variants: Vec<AnswerVariant> = Vec::new();
        let mut i: usize = 0;
        while i < self.variants.len()
            invariant
                0 <= i <= self.variants.len(),
                variants@.len() == i,
                forall|j: int| 0 <= j < i ==> variants@[j]@ == self.variants@[j]@,
            decreases self.variants.len() - i,
        {
            variants.push(self.variants[i].clone());
            i = i + 1;
        }
        proof {
            assert forall|j: int| 0 <= j < variants@.len() implies
                variants.deep_view()[j] == self.variants.deep_view()[j] by {
                assert(variants.deep_view()[j] == variants@[j].deep_view());
                assert(self.variants.deep_view()[j] == self.variants@[j].deep_view());
            }
            assert(variants.deep_view() =~= self.variants.deep_view());
        }
        Question { uuid: self.uuid.clone(), title: self.title.clone(), variants }
    }
}

impl Question {
    pub(crate) fn make(uuid: String, title: String, variants: Vec<AnswerVariant>)
        -> (r: Question)
        ensures
            r@ == (QuestionView {
                uuid: uuid@,
                title: title@,
                variants: variants.deep_view(),
            }),
    {
        Question { uuid, title, variants }
    }

    pub fn get_uuid(&self) -> (r: &String)
        ensures
            r@ == self@.uuid,
    {
        &self.uuid
    }

    pub fn get_variants(&self) -> (r: &Vec<AnswerVariant>)
        ensures
            r.deep_view() == self@.variants,
    {
        &self.variants
    }

    pub fn get_title(&self) -> (r: &String)
        ensures
            r@ == self@.title,
    {
        &self.title
    }
}

} // verus!
