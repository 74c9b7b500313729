//! The placement scoring engine.
//!
//! A candidate submits, per company role, a ranked list of vacancy
//! archetypes. The engine walks the company's role tree in pre-order; a
//! node whose role has no submission is skipped entirely, every other node
//! counts toward the denominator and contributes `1 / (1 + rank)` for every
//! position of its ranked list that names the node's target vacancy. The
//! final score is `correctness / 4` divided by the number of counted nodes,
//! kept as an exact rational: the correctness fraction is accumulated as an
//! exact numerator and denominator pair. An unknown company, or a walk in
//! which no node counted, scores zero instead of dividing by zero.

use vstd::prelude::*;

use crate::models::{
    Company, CompanyView, LevelView, preorder, levels_view, lemma_levels_view,
};
use crate::schema::{CoefficientScheme, SchemeView, company_lookup, lemma_company_lookup_skip};
use crate::score::Ratio;

verus! {

/// The ranked list a candidate submitted for a role; the first entry wins.
pub open spec fn placement_lookup(
    ps: Seq<(Seq<char>, Seq<Seq<char>>)>,
    role: Seq<char>,
) -> Option<Seq<Seq<char>>>
    decreases ps,
{
    if ps.len() == 0 {
        None
    } else if ps[0].0 == role {
        Some(ps[0].1)
    } else {
        placement_lookup(ps.drop_first(), role)
    }
}

pub proof fn lemma_placement_lookup_skip(
    ps: Seq<(Seq<char>, Seq<Seq<char>>)>,
    role: Seq<char>,
    i: int,
)
    requires
        0 <= i <= ps.len(),
        forall|j: int| 0 <= j < i ==> ps[j].0 != role,
    ensures
        placement_lookup(ps, role) == placement_lookup(ps.skip(i), role),
    decreases i,
{
    if i > 0 {
        lemma_placement_lookup_skip(ps.drop_first(), role, i - 1);
        assert(ps.drop_first().skip(i - 1) =~= ps.skip(i));
    } else {
        assert(ps.skip(0) =~= ps);
    }
}

/// One match at the given rank folded into the exact correctness fraction:
/// `acc + 1 / (rank + 1)`, kept as an unreduced pair.
pub open spec fn add_rank(acc: (int, int), rank: int) -> (int, int) {
    (acc.0 * (rank + 1) + acc.1, acc.1 * (rank + 1))
}

/// The correctness fraction after scanning a ranked list from position `j`
/// for the target: every matching position accumulates.
pub open spec fn scan_list(
    list: Seq<Seq<char>>,
    target: Seq<char>,
    j: int,
    acc: (int, int),
) -> (int, int)
    decreases list.len() - j,
{
    if j < 0 || j >= list.len() {
        acc
    } else {
        scan_list(
            list,
            target,
            j + 1,
            if list[j] == target {
                add_rank(acc, j)
            } else {
                acc
            },
        )
    }
}

/// The walk over the flattened role nodes: the correctness fraction and the
/// count of nodes that had a submission.
pub open spec fn walk_nodes(
    nodes: Seq<LevelView>,
    ps: Seq<(Seq<char>, Seq<Seq<char>>)>,
    acc: (int, int),
    cnt: int,
) -> ((int, int), int)
    decreases nodes,
{
    if nodes.len() == 0 {
        (acc, cnt)
    } else {
        match placement_lookup(ps, nodes[0].role) {
            None => walk_nodes(nodes.drop_first(), ps, acc, cnt),
            Some(list) => walk_nodes(
                nodes.drop_first(),
                ps,
                scan_list(list, nodes[0].target, 0, acc),
                cnt + 1,
            ),
        }
    }
}

/// The exact placement score as an unreduced fraction. An unknown company
/// scores zero; so does a walk in which no node had a submission, which
/// guards the division by the node count.
pub open spec fn placement_score(
    sv: SchemeView,
    company: Seq<char>,
    ps: Seq<(Seq<char>, Seq<Seq<char>>)>,
) -> (int, int) {
    match company_lookup(sv.companies, company) {
        None => (0, 1),
        Some(c) => {
            let r = walk_nodes(preorder(c.tree), ps, (0, 1), 0);
            if r.1 == 0 {
                (0, 1)
            } else {
                (r.0.0, r.0.1 * 4 * r.1)
            }
        },
    }
}

/// Whether the exact score of a request fits the score type; the engine
/// accumulates with machine integers, so callers must stay within this.
pub open spec fn placement_fits(
    sv: SchemeView,
    company: Seq<char>,
    ps: Seq<(Seq<char>, Seq<Seq<char>>)>,
) -> bool {
    placement_score(sv, company, ps).0 <= u64::MAX
        && placement_score(sv, company, ps).1 <= u64::MAX
}

pub proof fn lemma_scan_monotone(list: Seq<Seq<char>>, target: Seq<char>, j: int, acc: (int, int))
    requires
        acc.0 >= 0,
        acc.1 >= 1,
    ensures
        scan_list(list, target, j, acc).0 >= acc.0,
        scan_list(list, target, j, acc).1 >= acc.1,
    decreases list.len() - j,
{
    if 0 <= j < list.len() {
        if list[j] == target {
            let next = add_rank(acc, j);
            assert(next.0 >= acc.0 && next.1 >= acc.1) by (nonlinear_arith)
                requires
                    acc.0 >= 0,
                    acc.1 >= 1,
                    j >= 0,
                    next == (acc.0 * (j + 1) + acc.1, acc.1 * (j + 1)),
            ;
            lemma_scan_monotone(list, target, j + 1, next);
        } else {
            lemma_scan_monotone(list, target, j + 1, acc);
        }
    }
}

pub proof fn lemma_walk_monotone(
    nodes: Seq<LevelView>,
    ps: Seq<(Seq<char>, Seq<Seq<char>>)>,
    acc: (int, int),
    cnt: int,
)
    requires
        acc.0 >= 0,
        acc.1 >= 1,
    ensures
        walk_nodes(nodes, ps, acc, cnt).0.0 >= acc.0,
        walk_nodes(nodes, ps, acc, cnt).0.1 >= acc.1,
        walk_nodes(nodes, ps, acc, cnt).1 >= cnt,
    decreases nodes,
{
    if nodes.len() > 0 {
        match placement_lookup(ps, nodes[0].role) {
            None => {
                lemma_walk_monotone(nodes.drop_first(), ps, acc, cnt);
            },
            Some(list) => {
                lemma_scan_monotone(list, nodes[0].target, 0, acc);
                lemma_walk_monotone(
                    nodes.drop_first(),
                    ps,
                    scan_list(list, nodes[0].target, 0, acc),
                    cnt + 1,
                );
            },
        }
    }
}

proof fn lemma_walk_no_placements(nodes: Seq<LevelView>, acc: (int, int), cnt: int)
    ensures
        walk_nodes(nodes, Seq::empty(), acc, cnt) == (acc, cnt),
    decreases nodes,
{
    if nodes.len() > 0 {
        lemma_walk_no_placements(nodes.drop_first(), acc, cnt);
    }
}

/// With an empty submission map every node is skipped, so the score is an
/// exact zero — the division by the node count is never reached.
pub proof fn lemma_placement_empty(sv: SchemeView, company: Seq<char>)
    ensures
        placement_score(sv, company, Seq::empty()) == (0int, 1int),
{
    match company_lookup(sv.companies, company) {
        None => {},
        Some(c) => {
            lemma_walk_no_placements(preorder(c.tree), (0int, 1int), 0);
        },
    }
}

/// Placements in which every role of the walk is submitted, with the node's
/// target ranked first and nowhere else.
pub open spec fn first_choice_placements(
    nodes: Seq<LevelView>,
    ps: Seq<(Seq<char>, Seq<Seq<char>>)>,
) -> bool {
    forall|k: int| 0 <= k < nodes.len() ==> (placement_lookup(ps, #[trigger] nodes[k].role)
        matches Some(list) && list.len() >= 1 && list[0] == nodes[k].target && forall|j: int|
        1 <= j < list.len() ==> list[j] != nodes[k].target)
}

proof fn lemma_scan_no_match(list: Seq<Seq<char>>, target: Seq<char>, j: int, acc: (int, int))
    requires
        forall|t: int| j <= t < list.len() ==> list[t] != target,
    ensures
        scan_list(list, target, j, acc) == acc,
    decreases list.len() - j,
{
    if 0 <= j < list.len() {
        lemma_scan_no_match(list, target, j + 1, acc);
    }
}

proof fn lemma_walk_all_first(
    nodes: Seq<LevelView>,
    ps: Seq<(Seq<char>, Seq<Seq<char>>)>,
    m: int,
    cnt: int,
)
    requires
        first_choice_placements(nodes, ps),
    ensures
        walk_nodes(nodes, ps, (m, 1), cnt) == ((m + nodes.len(), 1int), cnt + nodes.len()),
    decreases nodes,
{
    if nodes.len() > 0 {
        assert(placement_lookup(ps, nodes[0].role) matches Some(list) && list.len() >= 1
            && list[0] == nodes[0].target && forall|j: int|
            1 <= j < list.len() ==> list[j] != nodes[0].target);
        let list = placement_lookup(ps, nodes[0].role)->0;
        assert(scan_list(list, nodes[0].target, 0, (m, 1)) == (m + 1, 1int)) by {
            assert(add_rank((m, 1int), 0) == (m + 1, 1int));
            lemma_scan_no_match(list, nodes[0].target, 1, (m + 1, 1int));
        }
        assert(first_choice_placements(nodes.drop_first(), ps)) by {
            assert forall|k: int| 0 <= k < nodes.drop_first().len() implies (placement_lookup(
                ps,
                #[trigger] nodes.drop_first()[k].role,
            ) matches Some(list2) && list2.len() >= 1 && list2[0] == nodes.drop_first()[k].target
                && forall|j: int|
                1 <= j < list2.len() ==> list2[j] != nodes.drop_first()[k].target) by {
                assert(nodes.drop_first()[k] == nodes[k + 1]);
            }
        }
        lemma_walk_all_first(nodes.drop_first(), ps, m + 1, cnt + 1);
    }
}

/// When the submissions cover every role of the company's walk and rank the
/// correct vacancy first (and nowhere else) in each, the score is exactly
/// one quarter: the correctness equals the node count.
pub proof fn lemma_placement_all_first(
    sv: SchemeView,
    company: Seq<char>,
    ps: Seq<(Seq<char>, Seq<Seq<char>>)>,
)
    requires
        company_lookup(sv.companies, company) is Some,
        first_choice_placements(preorder(company_lookup(sv.companies, company)->0.tree), ps),
    ensures
        placement_score(sv, company, ps).0 * 4 == placement_score(sv, company, ps).1,
        placement_score(sv, company, ps).0 == preorder(
            company_lookup(sv.companies, company)->0.tree,
        ).len(),
{
    let c = company_lookup(sv.companies, company)->0;
    let nodes = preorder(c.tree);
    assert(nodes.len() >= 1);
    lemma_walk_all_first(nodes, ps, 0, 0);
    let r = walk_nodes(nodes, ps, (0int, 1int), 0);
    assert(r == ((nodes.len() as int, 1int), nodes.len() as int));
    assert(placement_score(sv, company, ps) == (nodes.len() as int, 4 * nodes.len() as int));
}

fn find_company<'a>(companies: &'a Vec<Company>, name: &String) -> (r: Option<&'a Company>)
    ensures
        match r {
            Some(c) => company_lookup(companies.deep_view(), name@) == Some(c@),
            None => company_lookup(companies.deep_view(), name@) is None,
        },
{
    let n = companies.len();
    let ghost cv = companies.deep_view();
    let mut i: usize = 0;
    while i < n
        invariant
            n == companies@.len(),
            cv == companies.deep_view(),
            cv.len() == n,
            forall|j: int| 0 <= j < cv.len() ==> cv[j] == companies@[j]@,
            0 <= i <= n,
            forall|j: int| 0 <= j < i ==> cv[j].name != name@,
        decreases n - i,
    {
        if companies[i].name == *name {
            proof {
                lemma_company_lookup_skip(cv, name@, i as int);
                assert(cv.skip(i as int)[0] == cv[i as int]);
            }
            return Some(&companies[i]);
        }
        i = i + 1;
    }
    proof {
        lemma_company_lookup_skip(cv, name@, n as int);
        assert(cv.skip(n as int) =~= Seq::<CompanyView>::empty());
    }
    None
}

fn find_placement<'a>(ps: &'a Vec<(String, Vec<String>)>, role: &String) -> (r: Option<
    &'a Vec<String>,
>)
    ensures
        match r {
            Some(list) => placement_lookup(ps.deep_view(), role@) == Some(list.deep_view()),
            None => placement_lookup(ps.deep_view(), role@) is None,
        },
{
    let n = ps.len();
    let ghost pv = ps.deep_view();
    let mut i: usize = 0;
    while i < n
        invariant
            n == ps@.len(),
            pv == ps.deep_view(),
            pv.len() == n,
            forall|j: int| 0 <= j < pv.len() ==> pv[j] == ps@[j].deep_view(),
            forall|j: int| 0 <= j < pv.len() ==> pv[j].0 == ps@[j].0@,
            0 <= i <= n,
            forall|j: int| 0 <= j < i ==> pv[j].0 != role@,
        decreases n - i,
    {
        if ps[i].0 == *role {
            proof {
                lemma_placement_lookup_skip(pv, role@, i as int);
                assert(pv.skip(i as int)[0] == pv[i as int]);
                assert(pv[i as int].1 == ps@[i as int].1.deep_view());
            }
            return Some(&ps[i].1);
        }
        i = i + 1;
    }
    proof {
        lemma_placement_lookup_skip(pv, role@, n as int);
        assert(pv.skip(n as int) =~= Seq::<(Seq<char>, Seq<Seq<char>>)>::empty());
    }
    None
}

impl CoefficientScheme {
    /// The company of that name, if the schema has one.
    pub fn get_current_company(&self, company_name: &String) -> (r: Option<&Company>)
        ensures
            match r {
                Some(c) => company_lookup(self@.companies, company_name@) == Some(c@),
                None => company_lookup(self@.companies, company_name@) is None,
            },
    {
        find_company(self.get_companies(), company_name)
    }

    /// Walks the named company's role tree against the submitted placements
    /// and returns the exact score. An unknown company, or a submission map
    /// that covers none of the roles, scores zero.
    pub fn score_placement(
        &self,
        company_name: &String,
        placements: &Vec<(String, Vec<String>)>,
    ) -> (r: Ratio)
        requires
            placement_fits(self@, company_name@, placements.deep_view()),
        ensures
            r.num as int == placement_score(self@, company_name@, placements.deep_view()).0,
            r.den as int == placement_score(self@, company_name@, placements.deep_view()).1,
            r.wf(),
    {
        let ghost sv = self@;
        let ghost psv = placements.deep_view();
        let company = match find_company(self.get_companies(), company_name) {
            None => {
                return Ratio::zero();
            },
            Some(c) => c,
        };
        let ghost cv = company@;
        let nodes = company.tree().get_iter();
        let ghost nv = preorder(cv.tree);
        proof {
            lemma_levels_view(nodes@);
        }
        let ghost full = walk_nodes(nv, psv, (0int, 1int), 0);
        let n = nodes.len();
        let mut num: u64 = 0;
        let mut den: u64 = 1;
        let mut cnt: u64 = 0;
        let mut i: usize = 0;
        proof {
            assert(nv.skip(0) =~= nv);
        }
        while i < n
            invariant
                n == nodes@.len(),
                sv == self@,
                psv == placements.deep_view(),
                cv == company@,
                company_lookup(sv.companies, company_name@) == Some(cv),
                nv == preorder(cv.tree),
                levels_view(nodes@) == nv,
                nv.len() == n,
                forall|j: int| 0 <= j < n ==> nv[j] == nodes@[j]@,
                full == walk_nodes(nv, psv, (0int, 1int), 0),
                placement_fits(sv, company_name@, psv),
                0 <= i <= n,
                cnt <= i,
                den >= 1,
                walk_nodes(nv.skip(i as int), psv, (num as int, den as int), cnt as int)
                    == full,
            decreases n - i,
        {
            proof {
                assert(nv.skip(i as int)[0] == nv[i as int]);
                assert(nv.skip(i as int).drop_first() =~= nv.skip(i + 1));
            }
            let node = &nodes[i];
            let label = node.label();
            match find_placement(placements, &label.0) {
                None => {
                    proof {
                        assert(placement_lookup(psv, nv[i as int].role) is None);
                    }
                },
                Some(list) => {
                    cnt = cnt + 1;
                    let ghost tgt = nv[i as int].target;
                    let ghost lv = list.deep_view();
                    let ghost entry = (num as int, den as int);
                    proof {
                        assert(placement_lookup(psv, nv[i as int].role) == Some(lv));
                        assert(walk_nodes(nv.skip(i as int), psv, entry, cnt as int - 1)
                            == walk_nodes(nv.skip(i + 1), psv, scan_list(lv, tgt, 0, entry),
                            cnt as int));
                    }
                    let m = list.len();
                    let mut j: usize = 0;
                    while j < m
                        invariant
                            m == list@.len(),
                            sv == self@,
                            psv == placements.deep_view(),
                            company_lookup(sv.companies, company_name@) == Some(cv),
                            nv == preorder(cv.tree),
                            full == walk_nodes(nv, psv, (0int, 1int), 0),
                            placement_fits(sv, company_name@, psv),
                            lv == list.deep_view(),
                            lv.len() == m,
                            forall|t: int| 0 <= t < m ==> lv[t] == list@[t]@,
                            label.1@ == tgt,
                            0 <= j <= m,
                            cnt >= 1,
                            den >= 1,
                            scan_list(lv, tgt, j as int, (num as int, den as int))
                                == scan_list(lv, tgt, 0, entry),
                            walk_nodes(
                                nv.skip(i + 1),
                                psv,
                                scan_list(lv, tgt, j as int, (num as int, den as int)),
                                cnt as int,
                            ) == full,
                        decreases m - j,
                    {
                        if list[j] == label.1 {
                            proof {
                                assert(lv[j as int] == tgt);
                                let cur = (num as int, den as int);
                                let next = add_rank(cur, j as int);
                                assert(scan_list(lv, tgt, j as int, cur)
                                    == scan_list(lv, tgt, j + 1, next));
                                assert(next.0 >= 0 && next.1 >= 1) by (nonlinear_arith)
                                    requires
                                        cur.0 >= 0,
                                        cur.1 >= 1,
                                        j >= 0,
                                        next == (cur.0 * (j + 1) + cur.1, cur.1 * (j + 1)),
                                ;
                                lemma_scan_monotone(lv, tgt, j + 1, next);
                                let after_scan = scan_list(lv, tgt, j + 1, next);
                                lemma_walk_monotone(nv.skip(i + 1), psv, after_scan, cnt as int);
                                let facc = full.0;
                                let fcnt = full.1;
                                assert(facc.0 >= next.0 && facc.1 >= next.1 && fcnt >= 1);
                                assert(placement_score(sv, company_name@, psv)
                                    == (facc.0, facc.1 * 4 * fcnt));
                                assert(facc.1 * 4 * fcnt >= facc.1) by (nonlinear_arith)
                                    requires
                                        facc.1 >= 1,
                                        fcnt >= 1,
                                ;
                                assert(next.0 <= u64::MAX && next.1 <= u64::MAX);
                            }
                            let rank1: u64 = (j as u64) + 1;
                            let new_num = num * rank1 + den;
                            let new_den = den * rank1;
                            num = new_num;
                            den = new_den;
                        } else {
                            proof {
                                assert(lv[j as int] != tgt);
                            }
                        }
                        j = j + 1;
                    }
                    proof {
                        assert(scan_list(lv, tgt, m as int, (num as int, den as int))
                            == (num as int, den as int));
                    }
                },
            }
            i = i + 1;
        }
        proof {
            assert(nv.skip(n as int) =~= Seq::<LevelView>::empty());
            assert(full == ((num as int, den as int), cnt as int));
        }
        if cnt == 0 {
            return Ratio::zero();
        }
        proof {
            let facc = full.0;
            let fcnt = full.1;
            assert(placement_score(sv, company_name@, psv) == (facc.0, facc.1 * 4 * fcnt));
            assert(facc.1 * 4 <= facc.1 * 4 * fcnt) by (nonlinear_arith)
                requires
                    facc.1 >= 1,
                    fcnt >= 1,
            ;
        }
        let den4 = den * 4;
        let final_den = den4 * cnt;
        Ratio { num, den: final_den }
    }
}

} // verus!
