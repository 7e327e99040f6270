use vstd::prelude::*;
use crate::diff::{models_of, append_clones, is_sorted_difference, lemma_diff_deterministic};
use crate::error::Error;
use crate::package::{Package, PackageModel, pkg_display};

verus! {

/// Mathematical model of one backend's pending work.
#[verifier::ext_equal]
pub struct BackendTodoModel {
    pub section: Seq<char>,
    pub packages: Seq<PackageModel>,
}

/// One backend's pending work: its section name and the (already sorted)
/// packages to act on.
pub struct BackendTodo {
    pub section: String,
    pub packages: Vec<Package>,
}

impl View for BackendTodo {
    type V = BackendTodoModel;

    open spec fn view(&self) -> BackendTodoModel {
        BackendTodoModel { section: self.section@, packages: models_of(self.packages@) }
    }
}

pub open spec fn todo_models(s: Seq<BackendTodo>) -> Seq<BackendTodoModel> {
    s.map_values(|e: BackendTodo| e@)
}

/// Mathematical model of one backend query outcome.
#[verifier::ext_equal]
pub struct BackendQueryModel {
    pub section: Seq<char>,
    pub outcome: Result<Seq<PackageModel>, Error>,
}

/// What one backend's diff query produced: its section name, and either the
/// diff or the error that made the backend be skipped.
pub struct BackendQuery {
    pub section: String,
    pub outcome: Result<Vec<Package>, Error>,
}

impl View for BackendQuery {
    type V = BackendQueryModel;

    open spec fn view(&self) -> BackendQueryModel {
        BackendQueryModel {
            section: self.section@,
            outcome: match &self.outcome {
                Ok(v) => Ok(models_of(v@)),
                Err(e) => Err(*e),
            },
        }
    }
}

pub open spec fn query_models(s: Seq<BackendQuery>) -> Seq<BackendQueryModel> {
    s.map_values(|e: BackendQuery| e@)
}

/// Mathematical model of a skipped backend.
#[verifier::ext_equal]
pub struct SkippedBackendModel {
    pub section: Seq<char>,
    pub error: Error,
}

/// A backend whose query failed; the run goes on without it.
pub struct SkippedBackend {
    pub section: String,
    pub error: Error,
}

impl View for SkippedBackend {
    type V = SkippedBackendModel;

    open spec fn view(&self) -> SkippedBackendModel {
        SkippedBackendModel { section: self.section@, error: self.error }
    }
}

pub open spec fn skipped_models(s: Seq<SkippedBackend>) -> Seq<SkippedBackendModel> {
    s.map_values(|e: SkippedBackend| e@)
}

/// The to-do entries of the successful queries, in backend order.
pub open spec fn collected_entries(qs: Seq<BackendQueryModel>) -> Seq<BackendTodoModel>
    decreases qs.len(),
{
    if qs.len() == 0 {
        Seq::empty()
    } else {
        collected_entries(qs.drop_last()) + (match qs.last().outcome {
            Ok(ps) => seq![BackendTodoModel { section: qs.last().section, packages: ps }],
            Err(_) => Seq::empty(),
        })
    }
}

/// The skipped backends of the failed queries, in backend order.
pub open spec fn skipped_entries(qs: Seq<BackendQueryModel>) -> Seq<SkippedBackendModel>
    decreases qs.len(),
{
    if qs.len() == 0 {
        Seq::empty()
    } else {
        skipped_entries(qs.drop_last()) + (match qs.last().outcome {
            Ok(_) => Seq::empty(),
            Err(e) => seq![SkippedBackendModel { section: qs.last().section, error: e }],
        })
    }
}

/// The package lines of one backend's block, one display line per package.
pub open spec fn render_packages(ps: Seq<PackageModel>) -> Seq<char>
    decreases ps.len(),
{
    if ps.len() == 0 {
        Seq::empty()
    } else {
        render_packages(ps.drop_last()) + pkg_display(ps.last()) + seq!['\n']
    }
}

/// One backend's block of the report: the section name as header, one
/// package per line.
pub open spec fn render_entry(e: BackendTodoModel) -> Seq<char> {
    e.section + seq!['\n'] + render_packages(e.packages)
}

/// The whole report: each backend with work to do, in backend order.
pub open spec fn render_todo(es: Seq<BackendTodoModel>) -> Seq<char>
    decreases es.len(),
{
    if es.len() == 0 {
        Seq::empty()
    } else {
        render_todo(es.drop_last()) + (if es.last().packages.len() == 0 {
            Seq::empty()
        } else {
            render_entry(es.last())
        })
    }
}

/// The ordered list of (backend, diff) pairs one run acts on.
pub struct ToDoPerBackend {
    pub entries: Vec<BackendTodo>,
}

impl ToDoPerBackend {
    pub fn new() -> (r: Self)
        ensures
            r.entries@.len() == 0,
    {
        ToDoPerBackend { entries: Vec::new() }
    }

    pub fn push(&mut self, entry: BackendTodo)
        ensures
            final(self).entries@ == old(self).entries@.push(entry),
    {
        self.entries.push(entry);
    }

    /// True exactly when every collected diff is empty, so the run can stop
    /// before confirming or executing anything.
    pub fn nothing_to_do_for_all_backends(&self) -> (r: bool)
        ensures
            r == (forall|k: int|
                0 <= k < self.entries@.len() ==> self.entries@[k].packages@.len() == 0),
    {
        let mut k: usize = 0;
        while k < self.entries.len()
            invariant
                0 <= k <= self.entries@.len(),
                forall|t: int| 0 <= t < k ==> self.entries@[t].packages@.len() == 0,
            decreases self.entries@.len() - k,
        {
            let e = &self.entries[k];
            if e.packages.len() > 0 {
                return false;
            }
            k += 1;
        }
        true
    }

    /// Render each non-empty backend's diff as a labeled list: section name
    /// as header, one package per line, in backend order.
    pub fn show(&self) -> (r: String)
        ensures
            r@ == render_todo(todo_models(self.entries@)),
    {
        let ghost esm = todo_models(self.entries@);
        let mut s = String::new();
        proof {
            reveal_strlit("\n");
            assert("\n"@ =~= seq!['\n']);
            assert(s@ =~= render_todo(esm.take(0)));
        }
        let mut k: usize = 0;
        while k < self.entries.len()
            invariant
                0 <= k <= self.entries@.len(),
                esm == todo_models(self.entries@),
                s@ == render_todo(esm.take(k as int)),
            decreases self.entries@.len() - k,
        {
            let e = &self.entries[k];
            proof {
                reveal_strlit("\n");
                assert("\n"@ =~= seq!['\n']);
                assert(esm[k as int] == e@);
                assert(esm.take(k as int + 1).drop_last() =~= esm.take(k as int));
                assert(esm.take(k as int + 1).last() == e@);
            }
            if e.packages.len() > 0 {
                s.append(e.section.as_str());
                s.append("\n");
                proof {
                    assert(models_of(e.packages@).take(0) =~= Seq::<PackageModel>::empty());
                    assert(s@ =~= render_todo(esm.take(k as int)) + e@.section + seq!['\n']
                        + render_packages(models_of(e.packages@).take(0)));
                }
                let mut j: usize = 0;
                while j < e.packages.len()
                    invariant
                        0 <= j <= e.packages@.len(),
                        esm == todo_models(self.entries@),
                        k < self.entries@.len(),
                        e == &self.entries[k as int],
                        s@ == render_todo(esm.take(k as int)) + e@.section + seq!['\n']
                            + render_packages(models_of(e.packages@).take(j as int)),
                    decreases e.packages@.len() - j,
                {
                    let p = &e.packages[j];
                    let d = p.display();
                    s.append(d.as_str());
                    s.append("\n");
                    proof {
                        reveal_strlit("\n");
                        assert("\n"@ =~= seq!['\n']);
                        let pv = models_of(e.packages@).take(j as int + 1);
                        assert(pv.drop_last() =~= models_of(e.packages@).take(j as int));
                        assert(pv.last() == p@);
                        assert(s@ =~= render_todo(esm.take(k as int)) + e@.section + seq!['\n']
                            + render_packages(pv));
                    }
                    j += 1;
                }
                proof {
                    assert(models_of(e.packages@).take(e.packages@.len() as int) =~= models_of(
                        e.packages@,
                    ));
                    assert(e@.packages.len() > 0);
                    assert(s@ =~= render_todo(esm.take(k as int + 1)));
                }
            } else {
                proof {
                    assert(e@.packages.len() == 0);
                    assert(s@ =~= render_todo(esm.take(k as int + 1)));
                }
            }
            k += 1;
        }
        proof {
            assert(esm.take(self.entries@.len() as int) =~= esm);
        }
        s
    }
}

/// Gather each backend's query outcome: successful queries become to-do
/// entries, failed ones become skip warnings, both in backend order. A
/// failure in one backend never prevents the others from being acted on.
pub fn collect_todo(results: &Vec<BackendQuery>) -> (r: (ToDoPerBackend, Vec<SkippedBackend>))
    ensures
        todo_models(r.0.entries@) == collected_entries(query_models(results@)),
        skipped_models(r.1@) == skipped_entries(query_models(results@)),
{
    let ghost qsm = query_models(results@);
    let mut todo = ToDoPerBackend::new();
    let mut skipped: Vec<SkippedBackend> = Vec::new();
    proof {
        assert(todo_models(todo.entries@) =~= collected_entries(qsm.take(0)));
        assert(skipped_models(skipped@) =~= skipped_entries(qsm.take(0)));
    }
    let mut k: usize = 0;
    while k < results.len()
        invariant
            0 <= k <= results@.len(),
            qsm == query_models(results@),
            todo_models(todo.entries@) == collected_entries(qsm.take(k as int)),
            skipped_models(skipped@) == skipped_entries(qsm.take(k as int)),
        decreases results@.len() - k,
    {
        let q = &results[k];
        proof {
            assert(qsm[k as int] == q@);
            assert(qsm.take(k as int + 1).drop_last() =~= qsm.take(k as int));
            assert(qsm.take(k as int + 1).last() == q@);
        }
        let section = q.section.clone();
        match &q.outcome {
            Ok(ps) => {
                let mut cp: Vec<Package> = Vec::new();
                append_clones(&mut cp, ps);
                let entry = BackendTodo { section, packages: cp };
                let ghost entrym = entry@;
                proof {
                    assert(entrym =~= BackendTodoModel {
                        section: q@.section,
                        packages: models_of(ps@),
                    });
                }
                let ghost todo_before = todo.entries@;
                todo.push(entry);
                proof {
                    assert(todo.entries@ == todo_before.push(todo.entries@.last()));
                    lemma_todo_models_push(todo_before, todo.entries@.last());
                    assert(todo.entries@.last()@ == entrym);
                    assert(todo_models(todo.entries@) =~= collected_entries(
                        qsm.take(k as int + 1),
                    ));
                    assert(skipped_models(skipped@) =~= skipped_entries(qsm.take(k as int + 1)));
                }
            },
            Err(e) => {
                let entry = SkippedBackend { section, error: *e };
                let ghost entrym = entry@;
                let ghost skipped_before = skipped@;
                skipped.push(entry);
                proof {
                    assert(skipped@ == skipped_before.push(skipped@.last()));
                    lemma_skipped_models_push(skipped_before, skipped@.last());
                    assert(skipped@.last()@ == entrym);
                    assert(skipped_models(skipped@) =~= skipped_entries(qsm.take(k as int + 1)));
                    assert(todo_models(todo.entries@) =~= collected_entries(
                        qsm.take(k as int + 1),
                    ));
                }
            },
        }
        k += 1;
    }
    proof {
        assert(qsm.take(results@.len() as int) =~= qsm);
    }
    (todo, skipped)
}

/// Collecting twice without any installs or removals in between yields
/// identical results: each backend's sorted diff is uniquely determined by
/// its declared and installed snapshots, and errors repeat as they were, so
/// the collected to-do lists and the skip lists of the two rounds are equal.
pub proof fn lemma_collect_deterministic(
    round1: Seq<BackendQueryModel>,
    round2: Seq<BackendQueryModel>,
    declared: Seq<Seq<PackageModel>>,
    installed: Seq<Seq<PackageModel>>,
)
    requires
        round1.len() == round2.len(),
        round1.len() == declared.len(),
        round1.len() == installed.len(),
        forall|i: int| 0 <= i < round1.len() ==> round1[i].section == round2[i].section,
        forall|i: int|
            0 <= i < round1.len() ==> (round1[i].outcome is Err ==> round1[i].outcome
                == round2[i].outcome),
        forall|i: int|
            0 <= i < round1.len() ==> (round1[i].outcome is Ok <==> round2[i].outcome is Ok),
        forall|i: int| #![trigger round1[i]]
            0 <= i < round1.len() ==> (round1[i].outcome is Ok ==> is_sorted_difference(
                round1[i].outcome->Ok_0,
                declared[i],
                installed[i],
            )),
        forall|i: int| #![trigger round2[i]]
            0 <= i < round1.len() ==> (round2[i].outcome is Ok ==> is_sorted_difference(
                round2[i].outcome->Ok_0,
                declared[i],
                installed[i],
            )),
    ensures
        collected_entries(round1) == collected_entries(round2),
        skipped_entries(round1) == skipped_entries(round2),
{
    assert forall|i: int| 0 <= i < round1.len() implies round1[i] == round2[i] by {
        match round1[i].outcome {
            Ok(d1) => {
                let d2 = round2[i].outcome->Ok_0;
                lemma_diff_deterministic(d1, d2, declared[i], installed[i]);
                assert(round1[i].outcome == round2[i].outcome);
                assert(round1[i] =~= round2[i]);
            },
            Err(_) => {
                assert(round1[i] =~= round2[i]);
            },
        }
    }
    assert(round1 =~= round2);
}

proof fn lemma_todo_models_push(before: Seq<BackendTodo>, x: BackendTodo)
    ensures
        todo_models(before.push(x)) == todo_models(before).push(x@),
{
    assert(todo_models(before.push(x)) =~= todo_models(before).push(x@)) by {
        assert forall|t: int| 0 <= t < before.len() + 1 implies todo_models(before.push(x))[t]
            == todo_models(before).push(x@)[t] by {
            if t < before.len() {
                assert(before.push(x)[t] == before[t]);
            } else {
                assert(before.push(x)[t] == x);
            }
        }
    }
}

proof fn lemma_skipped_models_push(before: Seq<SkippedBackend>, x: SkippedBackend)
    ensures
        skipped_models(before.push(x)) == skipped_models(before).push(x@),
{
    assert(skipped_models(before.push(x)) =~= skipped_models(before).push(x@)) by {
        assert forall|t: int| 0 <= t < before.len() + 1 implies skipped_models(before.push(x))[t]
            == skipped_models(before).push(x@)[t] by {
            if t < before.len() {
                assert(before.push(x)[t] == before[t]);
            } else {
                assert(before.push(x)[t] == x);
            }
        }
    }
}

} // verus!
