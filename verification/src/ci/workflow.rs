//! GitHub-style workflows reduced to what the runner executes: jobs, what they
//! need, and their `nix` steps.
use vstd::prelude::*;
use vstd::string::*;
use crate::ci::yaml::{lemma_get_well, lemma_map_entries_well, lemma_seq_items_well, untagged, well_tagged, yaml_get, yaml_map, yaml_parsed, parse_yaml_text, yaml_seq, yaml_str, yaml_text, yaml_text_of, Yaml};
use crate::ci::config::validation_error;
use crate::ci::error::CiError;
use crate::text::{lemma_words_nonempty, chars_of, decimal, replace_all, replace_text, slice_chars, split_words, string_of, text_lines, trim, trim_chars, trim_end, trim_end_chars, lines_of, u64_to_string, words};

verus! {

/// A workflow file: its name and jobs.
#[derive(Debug, Clone)]
pub struct Workflow {
    pub name: String,
    pub jobs: Vec<WorkflowJob>,
}

/// A job: its display name, the ids of the jobs it needs, its steps, and its id.
#[derive(Debug, Clone)]
pub struct WorkflowJob {
    pub name: String,
    pub needs: Vec<String>,
    pub steps: Vec<WorkflowStep>,
    pub job_id: String,
}

/// A step: its name and the command it runs.
#[derive(Debug, Clone)]
pub struct WorkflowStep {
    pub name: String,
    pub run: String,
}

/// The jobs of all workflows, in order.
pub open spec fn all_jobs(ws: Seq<Workflow>) -> Seq<WorkflowJob>
    decreases ws.len(),
{
    if ws.len() == 0 {
        seq![]
    } else {
        all_jobs(ws.drop_last()) + ws.last().jobs@
    }
}

/// The jobs of all workflows, in order.
pub fn flatten_workflows(workflows: &[Workflow]) -> (r: Vec<WorkflowJob>)
    ensures
        r@.len() == all_jobs(workflows@).len(),
        forall|i: int| 0 <= i < r@.len() ==> job_same(#[trigger] r@[i], all_jobs(workflows@)[i]),
{
    let mut out: Vec<WorkflowJob> = Vec::new();
    let mut i: usize = 0;
    while i < workflows.len()
        invariant
            i <= workflows@.len(),
            out@.len() == all_jobs(workflows@.subrange(0, i as int)).len(),
            forall|k: int| 0 <= k < out@.len() ==> job_same(#[trigger] out@[k], all_jobs(workflows@.subrange(0, i as int))[k]),
        decreases workflows@.len() - i,
    {
        let ghost before = out@;
        let w = &workflows[i];
        let mut j: usize = 0;
        proof {
            assert(workflows@.subrange(0, i + 1).drop_last() =~= workflows@.subrange(0, i as int));
            assert(workflows@.subrange(0, i + 1).last() == *w);
        }
        while j < w.jobs.len()
            invariant
                j <= w.jobs@.len(),
                out@.len() == before.len() + j,
                forall|k: int| 0 <= k < before.len() ==> out@[k] == before[k],
                forall|k: int| 0 <= k < j ==> job_same(#[trigger] out@[before.len() + k], w.jobs@[k]),
            decreases w.jobs@.len() - j,
        {
            out.push(clone_job(&w.jobs[j]));
            j = j + 1;
        }
        proof {
            let all = all_jobs(workflows@.subrange(0, i + 1));
            assert(all == all_jobs(workflows@.subrange(0, i as int)) + w.jobs@);
            assert forall|k: int| 0 <= k < out@.len() implies job_same(#[trigger] out@[k], all[k]) by {
                if k < before.len() {
                    assert(out@[k] == before[k]);
                } else {
                    assert(out@[before.len() + (k - before.len())] == out@[k]);
                }
            }
        }
        i = i + 1;
    }
    proof {
        assert(workflows@.subrange(0, workflows@.len() as int) =~= workflows@);
    }
    out
}

/// Two steps with the same name and command.
pub open spec fn step_same(a: WorkflowStep, b: WorkflowStep) -> bool {
    a.name@ == b.name@ && a.run@ == b.run@
}

/// Two jobs with the same name, needs, steps and id.
pub open spec fn job_same(a: WorkflowJob, b: WorkflowJob) -> bool {
    &&& a.name@ == b.name@
    &&& a.job_id@ == b.job_id@
    &&& a.needs@.len() == b.needs@.len()
    &&& (forall|i: int| 0 <= i < a.needs@.len() ==> #[trigger] a.needs@[i]@ == b.needs@[i]@)
    &&& a.steps@.len() == b.steps@.len()
    &&& (forall|i: int| 0 <= i < a.steps@.len() ==> step_same(#[trigger] a.steps@[i], b.steps@[i]))
}

fn clone_strings(v: &Vec<String>) -> (r: Vec<String>)
    ensures
        r@.len() == v@.len(),
        forall|i: int| 0 <= i < r@.len() ==> #[trigger] r@[i]@ == v@[i]@,
{
    let mut out: Vec<String> = Vec::new();
    let mut i: usize = 0;
    while i < v.len()
        invariant
            i <= v@.len(),
            out@.len() == i,
            forall|k: int| 0 <= k < i ==> #[trigger] out@[k]@ == v@[k]@,
        decreases v@.len() - i,
    {
        out.push(v[i].clone());
        i = i + 1;
    }
    out
}

/// A copy of a step.
pub fn clone_step(s: &WorkflowStep) -> (r: WorkflowStep)
    ensures
        step_same(r, *s),
{
    WorkflowStep { name: s.name.clone(), run: s.run.clone() }
}

/// A copy of a job.
pub fn clone_job(j: &WorkflowJob) -> (r: WorkflowJob)
    ensures
        job_same(r, *j),
{
    let mut steps: Vec<WorkflowStep> = Vec::new();
    let mut i: usize = 0;
    while i < j.steps.len()
        invariant
            i <= j.steps@.len(),
            steps@.len() == i,
            forall|k: int| 0 <= k < i ==> step_same(#[trigger] steps@[k], j.steps@[k]),
        decreases j.steps@.len() - i,
    {
        steps.push(clone_step(&j.steps[i]));
        i = i + 1;
    }
    WorkflowJob { name: j.name.clone(), needs: clone_strings(&j.needs), steps, job_id: j.job_id.clone() }
}

/// The strings among the values `xs` (under their tags), in order.
pub open spec fn strs_in(xs: Seq<Yaml>) -> Seq<Seq<char>>
    decreases xs.len(),
{
    if xs.len() == 0 {
        Seq::empty()
    } else {
        strs_in(xs.drop_last()) + match yaml_str(xs.last()) {
            Some(t) => seq![t],
            None => Seq::empty(),
        }
    }
}

/// The jobs a job needs: its `needs` string, or the strings of its `needs`
/// sequence; nothing otherwise (a tagged `needs` value counts as neither).
pub open spec fn needs_of(job: Yaml) -> Seq<Seq<char>> {
    match yaml_get(job, "needs"@) {
        Some(Yaml::String(s)) => seq![s@],
        Some(Yaml::Sequence(xs)) => strs_in(xs@),
        _ => Seq::empty(),
    }
}

/// The texts of the strings `v`.
pub open spec fn texts_of(v: Seq<String>) -> Seq<Seq<char>> {
    v.map_values(|t: String| t@)
}

/// The jobs a job needs (see `needs_of`).
pub fn parse_needs(job: &Yaml) -> (r: Vec<String>)
    ensures
        texts_of(r@) == needs_of(*job),
{
    let mut out: Vec<String> = Vec::new();
    match job.get("needs") {
        Some(Yaml::String(s)) => {
            out.push(s.clone());
            proof {
                assert(texts_of(out@) =~= seq![s@]);
            }
        },
        Some(Yaml::Sequence(xs)) => {
            let mut i: usize = 0;
            proof {
                assert(texts_of(out@) =~= strs_in(xs@.take(0)));
            }
            while i < xs.len()
                invariant
                    i <= xs@.len(),
                    texts_of(out@) == strs_in(xs@.take(i as int)),
                decreases xs@.len() - i,
            {
                let ghost before = texts_of(out@);
                proof {
                    assert(xs@.take(i + 1).drop_last() =~= xs@.take(i as int));
                    assert(xs@.take(i + 1).last() == xs@[i as int]);
                }
                match xs[i].as_str() {
                    Some(t) => {
                        out.push(t.to_string());
                        proof {
                            assert(texts_of(out@) =~= before + seq![t@]);
                        }
                    },
                    None => {
                        proof {
                            assert(texts_of(out@) =~= before + Seq::<Seq<char>>::empty());
                        }
                    },
                }
                i = i + 1;
            }
            proof {
                assert(xs@.take(xs@.len() as int) =~= xs@);
            }
        },
        _ => {
            proof {
                assert(texts_of(out@) =~= Seq::<Seq<char>>::empty());
            }
        },
    }
    out
}

/// The text a matrix value stands for: a string as it is, a number as it is
/// displayed, `true` or `false`, and anything else (a tagged value too) as YAML.
pub open spec fn axis_value_text(v: Yaml) -> Seq<char> {
    match v {
        Yaml::String(s) => s@,
        Yaml::Number(t) => t@,
        Yaml::Bool(b) => if b { "true"@ } else { "false"@ },
        _ => yaml_text_of(v),
    }
}

/// The axes of a matrix from entry `k` on: each entry with a string key other
/// than `include` and `exclude` and a non-empty sequence of values.
pub open spec fn axes_from(es: Seq<(Yaml, Yaml)>, k: int) -> Seq<(Seq<char>, Seq<Seq<char>>)>
    decreases es.len() - k,
{
    if k < 0 || k >= es.len() {
        Seq::empty()
    } else {
        let rest = axes_from(es, k + 1);
        match (yaml_str(es[k].0), yaml_seq(es[k].1)) {
            (Some(key), Some(xs)) => if key != "include"@ && key != "exclude"@ && xs.len() > 0 {
                seq![(key, xs.map_values(|x: Yaml| axis_value_text(x)))] + rest
            } else {
                rest
            },
            _ => rest,
        }
    }
}

/// The matrix of a job (`strategy.matrix`, a mapping), if it has one.
pub open spec fn matrix_of(job: Yaml) -> Option<Seq<(Yaml, Yaml)>> {
    match yaml_get(job, "strategy"@) {
        Some(st) => match yaml_get(st, "matrix"@) {
            Some(m) => yaml_map(m),
            None => None,
        },
        None => None,
    }
}

/// A combination of matrix values: each axis name with its value.
pub type Combo = Seq<(Seq<char>, Seq<char>)>;

/// The index of the first entry of `c` from `k` on for `key`, or `c.len()`.
pub open spec fn key_index(c: Combo, key: Seq<char>, k: int) -> int
    decreases c.len() - k,
{
    if k < 0 || k >= c.len() {
        c.len() as int
    } else if c[k].0 == key {
        k
    } else {
        key_index(c, key, k + 1)
    }
}

/// `c` with `key` set to `val`: the entry of `key` takes the value, or a new entry
/// comes last.
pub open spec fn combo_set(c: Combo, key: Seq<char>, val: Seq<char>) -> Combo {
    let i = key_index(c, key, 0);
    if 0 <= i < c.len() {
        c.update(i, (key, val))
    } else {
        c.push((key, val))
    }
}

/// Each of `cs` with `key` set to each of `vals`, combinations first, values second.
pub open spec fn spread(cs: Seq<Combo>, key: Seq<char>, vals: Seq<Seq<char>>) -> Seq<Combo>
    decreases cs.len(),
{
    if cs.len() == 0 {
        Seq::empty()
    } else {
        spread(cs.drop_last(), key, vals) + vals.map_values(|v: Seq<char>| combo_set(cs.last(), key, v))
    }
}

/// The combinations of the axes from `a` on, starting from `cs`.
pub open spec fn combos_from(cs: Seq<Combo>, axes: Seq<(Seq<char>, Seq<Seq<char>>)>, a: int) -> Seq<Combo>
    decreases axes.len() - a,
{
    if a < 0 || a >= axes.len() {
        cs
    } else {
        combos_from(spread(cs, axes[a].0, axes[a].1), axes, a + 1)
    }
}

/// The combinations of a job's matrix: none without axes, else every choice of
/// one value per axis, the first axis varying slowest.
pub open spec fn matrix_combos(job: Yaml) -> Seq<Combo> {
    match matrix_of(job) {
        Some(es) => {
            let axes = axes_from(es, 0);
            if axes.len() == 0 { Seq::empty() } else { combos_from(seq![Seq::empty()], axes, 0) }
        },
        None => Seq::empty(),
    }
}

/// The number of ways to pick one value of each axis from `a` on.
pub open spec fn axis_product(axes: Seq<(Seq<char>, Seq<Seq<char>>)>, a: int) -> nat
    decreases axes.len() - a,
{
    if a < 0 || a >= axes.len() {
        1
    } else {
        axes[a].1.len() * axis_product(axes, a + 1)
    }
}

proof fn lemma_spread_len(cs: Seq<Combo>, key: Seq<char>, vals: Seq<Seq<char>>)
    ensures
        spread(cs, key, vals).len() == cs.len() * vals.len(),
    decreases cs.len(),
{
    if cs.len() > 0 {
        lemma_spread_len(cs.drop_last(), key, vals);
        let n = cs.len();
        let v = vals.len();
        assert((n - 1) * v + v == n * v) by (nonlinear_arith);
    }
}

proof fn lemma_combos_len(cs: Seq<Combo>, axes: Seq<(Seq<char>, Seq<Seq<char>>)>, a: int)
    requires
        0 <= a,
    ensures
        combos_from(cs, axes, a).len() == cs.len() * axis_product(axes, a),
    decreases axes.len() - a,
{
    if a < axes.len() {
        let next = spread(cs, axes[a].0, axes[a].1);
        lemma_spread_len(cs, axes[a].0, axes[a].1);
        lemma_combos_len(next, axes, a + 1);
        let n = cs.len();
        let v = axes[a].1.len();
        let p = axis_product(axes, a + 1);
        assert(combos_from(cs, axes, a) == combos_from(next, axes, a + 1));
        assert(axis_product(axes, a) == v * p);
        assert((n * v) * p == n * (v * p)) by (nonlinear_arith);
    } else {
        assert(cs.len() * 1 == cs.len()) by (nonlinear_arith);
    }
}

/// A matrix expands into one combination per way of picking one value of each
/// axis: as many combinations as the product of the axes' lengths (none when
/// the job has no matrix or no axis).
pub proof fn law_matrix_expands_to_every_combination(job: Yaml)
    ensures
        matrix_combos(job).len() == match matrix_of(job) {
            Some(es) => if axes_from(es, 0).len() == 0 {
                0
            } else {
                axis_product(axes_from(es, 0), 0)
            },
            None => 0,
        },
{
    match matrix_of(job) {
        Some(es) => {
            if axes_from(es, 0).len() > 0 {
                let start: Seq<Combo> = seq![Seq::empty()];
                let p = axis_product(axes_from(es, 0), 0);
                lemma_combos_len(start, axes_from(es, 0), 0);
                assert(start.len() == 1);
                assert(1 * p == p) by (nonlinear_arith);
            }
        },
        None => {},
    }
}

/// A combination as texts.
pub open spec fn combo_view(c: Seq<(String, String)>) -> Combo {
    c.map_values(|e: (String, String)| (e.0@, e.1@))
}

/// Combinations as texts.
pub open spec fn combos_view(cs: Seq<Vec<(String, String)>>) -> Seq<Combo> {
    cs.map_values(|c: Vec<(String, String)>| combo_view(c@))
}

fn clone_combo(c: &Vec<(String, String)>) -> (r: Vec<(String, String)>)
    ensures
        combo_view(r@) == combo_view(c@),
{
    let mut out: Vec<(String, String)> = Vec::new();
    let mut i: usize = 0;
    while i < c.len()
        invariant
            i <= c@.len(),
            out@.len() == i,
            combo_view(out@) == combo_view(c@.take(i as int)),
        decreases c@.len() - i,
    {
        let a = c[i].0.clone();
        let b = c[i].1.clone();
        let ghost before = out@;
        out.push((a, b));
        proof {
            assert(out@[i as int].0@ == c@[i as int].0@);
            assert(out@[i as int].1@ == c@[i as int].1@);
            assert forall|q: int| 0 <= q < i + 1 implies #[trigger] combo_view(out@)[q] == combo_view(c@.take(i + 1))[q] by {
                if q < i {
                    assert(out@[q] == before[q]);
                    assert(combo_view(before)[q] == combo_view(c@.take(i as int))[q]);
                }
            }
            assert(combo_view(out@) =~= combo_view(c@.take(i + 1)));
        }
        i = i + 1;
    }
    proof {
        assert(c@.take(c@.len() as int) =~= c@);
    }
    out
}

fn combo_set_exec(c: &Vec<(String, String)>, key: &String, val: &String) -> (r: Vec<(String, String)>)
    ensures
        combo_view(r@) == combo_set(combo_view(c@), key@, val@),
{
    let mut out = clone_combo(c);
    let ghost cv = combo_view(c@);
    let mut i: usize = 0;
    while i < out.len()
        invariant
            i <= out@.len(),
            cv == combo_view(c@),
            combo_view(out@) == cv,
            key_index(cv, key@, i as int) == key_index(cv, key@, 0),
        decreases out@.len() - i,
    {
        assert(cv[i as int] == (out@[i as int].0@, out@[i as int].1@));
        if out[i].0 == *key {
            out.set(i, (key.clone(), val.clone()));
            proof {
                assert(combo_view(out@) =~= cv.update(i as int, (key@, val@)));
            }
            return out;
        }
        i = i + 1;
    }
    let ghost before = combo_view(out@);
    out.push((key.clone(), val.clone()));
    proof {
        assert(combo_view(out@) =~= before.push((key@, val@)));
    }
    out
}

fn spread_exec(cs: &Vec<Vec<(String, String)>>, key: &String, vals: &Vec<String>) -> (r: Vec<Vec<(String, String)>>)
    ensures
        combos_view(r@) == spread(combos_view(cs@), key@, texts_of(vals@)),
{
    let ghost cv = combos_view(cs@);
    let ghost tv = texts_of(vals@);
    let mut out: Vec<Vec<(String, String)>> = Vec::new();
    let mut i: usize = 0;
    proof {
        assert(combos_view(out@) =~= spread(cv.take(0), key@, tv));
    }
    while i < cs.len()
        invariant
            i <= cs@.len(),
            cv == combos_view(cs@),
            tv == texts_of(vals@),
            combos_view(out@) == spread(cv.take(i as int), key@, tv),
        decreases cs@.len() - i,
    {
        let ghost base = combos_view(out@);
        let mut j: usize = 0;
        proof {
            assert(base + tv.take(0).map_values(|v: Seq<char>| combo_set(cv[i as int], key@, v)) =~= base);
        }
        while j < vals.len()
            invariant
                i < cs@.len(),
                j <= vals@.len(),
                cv == combos_view(cs@),
                tv == texts_of(vals@),
                combos_view(out@) == base + tv.take(j as int).map_values(|v: Seq<char>| combo_set(cv[i as int], key@, v)),
            decreases vals@.len() - j,
        {
            let c = combo_set_exec(&cs[i], key, &vals[j]);
            let ghost before = combos_view(out@);
            out.push(c);
            proof {
                assert(cv[i as int] == combo_view(cs@[i as int]@));
                assert(tv[j as int] == vals@[j as int]@);
                assert(combos_view(out@) =~= before.push(combo_view(c@)));
                assert(tv.take(j + 1).map_values(|v: Seq<char>| combo_set(cv[i as int], key@, v))
                    =~= tv.take(j as int).map_values(|v: Seq<char>| combo_set(cv[i as int], key@, v)).push(combo_set(cv[i as int], key@, tv[j as int])));
            }
            j = j + 1;
        }
        proof {
            assert(tv.take(vals@.len() as int) =~= tv);
            assert(cv.take(i + 1).drop_last() =~= cv.take(i as int));
            assert(cv.take(i + 1).last() == cv[i as int]);
        }
        i = i + 1;
    }
    proof {
        assert(cv.take(cs@.len() as int) =~= cv);
    }
    out
}

/// The axes as texts.
pub open spec fn axes_view(v: Seq<(String, Vec<String>)>) -> Seq<(Seq<char>, Seq<Seq<char>>)> {
    v.map_values(|a: (String, Vec<String>)| (a.0@, texts_of(a.1@)))
}

/// The combinations of a job's matrix (see `matrix_combos`).
pub fn parse_matrix(job: &Yaml) -> (r: Vec<Vec<(String, String)>>)
    requires
        well_tagged(*job),
    ensures
        combos_view(r@) == matrix_combos(*job),
{
    proof {
        reveal_strlit("true");
        reveal_strlit("false");
    }
    proof {
        lemma_get_well(*job, "strategy"@);
    }
    let st = match job.get("strategy") {
        Some(st) => st,
        None => return Vec::new(),
    };
    proof {
        lemma_get_well(*st, "matrix"@);
    }
    let m = match st.get("matrix") {
        Some(m) => m,
        None => return Vec::new(),
    };
    proof {
        lemma_get_well(*m, "matrix"@);
    }
    let es = match m.as_mapping() {
        Some(es) => es,
        None => return Vec::new(),
    };
    let ghost esv = es@;
    assert(matrix_of(*job) == Some(esv));
    assert(yaml_map(*m) == Some(esv));
    assert(well_tagged(*st));
    assert(well_tagged(*m));
    proof {
        lemma_map_entries_well(*m, esv);
    }
    let mut axes: Vec<(String, Vec<String>)> = Vec::new();
    let mut k: usize = 0;
    proof {
        assert(axes_view(axes@) + axes_from(esv, 0) =~= axes_from(esv, 0));
    }
    while k < es.len()
        invariant
            k <= es@.len(),
            esv == es@,
            forall|i: int| 0 <= i < esv.len() ==> well_tagged(#[trigger] esv[i].0) && well_tagged(esv[i].1),
            axes_view(axes@) + axes_from(esv, k as int) == axes_from(esv, 0),
        decreases es@.len() - k,
    {
        let ghost before = axes_view(axes@);
        let (key, value) = (&es[k].0, &es[k].1);
        proof {
            lemma_get_well(*value, "matrix"@);
        }
        let key_text = key.as_str();
        let items = value.as_sequence();
        match (key_text, items) {
            (Some(kt), Some(xs)) => {
                if kt.to_string() != "include".to_string() && kt.to_string() != "exclude".to_string() && xs.len() > 0 {
                    let mut vals: Vec<String> = Vec::new();
                    let mut q: usize = 0;
                    while q < xs.len()
                        invariant
                            q <= xs@.len(),
                            forall|i: int| 0 <= i < xs@.len() ==> well_tagged(#[trigger] xs@[i]),
                            texts_of(vals@) == xs@.take(q as int).map_values(|x: Yaml| axis_value_text(x)),
                        decreases xs@.len() - q,
                    {
                        let t = match &xs[q] {
                            Yaml::String(s) => s.clone(),
                            Yaml::Number(n) => n.clone(),
                            Yaml::Bool(b) => if *b { String::from_str("true") } else { String::from_str("false") },
                            other => yaml_text(other),
                        };
                        let ghost vb = texts_of(vals@);
                        vals.push(t);
                        proof {
                            reveal_strlit("true");
                            reveal_strlit("false");
                            assert(texts_of(vals@) =~= vb.push(axis_value_text(xs@[q as int])));
                            assert(xs@.take(q + 1).map_values(|x: Yaml| axis_value_text(x)) =~= xs@.take(q as int).map_values(|x: Yaml| axis_value_text(x)).push(axis_value_text(xs@[q as int])));
                        }
                        q = q + 1;
                    }
                    proof {
                        assert(xs@.take(xs@.len() as int) =~= xs@);
                    }
                    let ghost kv = kt@;
                    axes.push((kt.to_string(), vals));
                    proof {
                        assert(axes_view(axes@) =~= before.push((kv, xs@.map_values(|x: Yaml| axis_value_text(x)))));
                        assert(axes_view(axes@) + axes_from(esv, k + 1) =~= before + axes_from(esv, k as int));
                    }
                } else {
                    proof {
                        assert(axes_from(esv, k as int) == axes_from(esv, k + 1));
                    }
                }
            },
            _ => {
                proof {
                    assert(axes_from(esv, k as int) == axes_from(esv, k + 1));
                }
            },
        }
        k = k + 1;
    }
    proof {
        assert(axes_view(axes@) + axes_from(esv, k as int) =~= axes_view(axes@));
    }
    if axes.len() == 0 {
        return Vec::new();
    }
    let ghost av = axes_view(axes@);
    let mut combos: Vec<Vec<(String, String)>> = vec![Vec::new()];
    proof {
        assert(combos@.len() == 1);
        assert(combo_view(combos@[0]@) =~= Seq::<(Seq<char>, Seq<char>)>::empty());
        assert(combos_view(combos@) =~= seq![Seq::<(Seq<char>, Seq<char>)>::empty()]);
    }
    let mut a: usize = 0;
    while a < axes.len()
        invariant
            a <= axes@.len(),
            av == axes_view(axes@),
            combos_from(combos_view(combos@), av, a as int) == combos_from(seq![Seq::empty()], av, 0),
        decreases axes@.len() - a,
    {
        let next = spread_exec(&combos, &axes[a].0, &axes[a].1);
        proof {
            assert(av[a as int] == (axes@[a as int].0@, texts_of(axes@[a as int].1@)));
        }
        combos = next;
        a = a + 1;
    }
    combos
}

/// The placeholder a template writes for matrix axis `key`: `${{ matrix.<key> }}`.
pub open spec fn matrix_pattern(key: Seq<char>) -> Seq<char> {
    "${{ matrix."@ + key + " }}"@
}

/// `t` with the placeholder of each entry of `c` from `k` on replaced by its
/// value, entry by entry.
pub open spec fn expand_from(t: Seq<char>, c: Combo, k: int) -> Seq<char>
    decreases c.len() - k,
{
    if k < 0 || k >= c.len() {
        t
    } else {
        expand_from(replace_all(t, matrix_pattern(c[k].0), c[k].1), c, k + 1)
    }
}

/// A template with the matrix values of `combo` put in (see `expand_from`).
pub fn expand_matrix_string(template: &str, combo: &Vec<(String, String)>) -> (r: String)
    ensures
        r@ == expand_from(template@, combo_view(combo@), 0),
{
    proof {
        reveal_strlit("${{ matrix.");
        reveal_strlit(" }}");
    }
    let ghost cv = combo_view(combo@);
    let mut result = template.to_string();
    let mut k: usize = 0;
    while k < combo.len()
        invariant
            k <= combo@.len(),
            cv == combo_view(combo@),
            expand_from(result@, cv, k as int) == expand_from(template@, cv, 0),
        decreases combo@.len() - k,
    {
        let mut pat = String::from_str("${{ matrix.");
        pat.append(combo[k].0.as_str());
        pat.append(" }}");
        proof {
            reveal_strlit("${{ matrix.");
            assert(cv[k as int] == (combo@[k as int].0@, combo@[k as int].1@));
            assert(pat@.len() > 0);
        }
        result = replace_text(result.as_str(), pat.as_str(), combo[k].1.as_str());
        k = k + 1;
    }
    result
}

/// `s` without its trailing `\` characters.
pub open spec fn strip_backslashes(s: Seq<char>) -> Seq<char>
    decreases s.len(),
{
    if s.len() > 0 && s.last() == '\\' { strip_backslashes(s.drop_last()) } else { s }
}

/// The logical lines of a command from line `k` of `ls` on, `cur` being the line
/// under way: lines are trimmed; blank lines and comments end the line under way;
/// a line ending with `\\` continues on the next, joined with a space.
pub open spec fn logical_from(ls: Seq<Seq<char>>, k: int, cur: Seq<char>) -> Seq<Seq<char>>
    decreases ls.len() - k,
{
    let pending = if cur.len() > 0 { seq![cur] } else { Seq::empty() };
    if k < 0 || k >= ls.len() {
        pending
    } else {
        let t = trim(ls[k]);
        if t.len() == 0 || t[0] == '#' {
            pending + logical_from(ls, k + 1, Seq::empty())
        } else {
            let joined = if cur.len() == 0 { t } else { cur + " "@ + t };
            if t.last() != '\\' {
                seq![joined] + logical_from(ls, k + 1, Seq::empty())
            } else {
                logical_from(ls, k + 1, trim_end(strip_backslashes(joined)))
            }
        }
    }
}

/// The first logical line (trimmed) from `k` on that is not blank and whose
/// first word is not `nix`.
pub open spec fn first_non_nix(lines: Seq<Seq<char>>, k: int) -> Option<Seq<char>>
    decreases lines.len() - k,
{
    if k < 0 || k >= lines.len() {
        None
    } else {
        let cmd = trim(lines[k]);
        if cmd.len() > 0 && words(cmd)[0] != "nix"@ {
            Some(cmd)
        } else {
            first_non_nix(lines, k + 1)
        }
    }
}

/// Why a step's command is refused: a logical line that is not a `nix` command
/// (see `first_non_nix`), shown by its first eighty characters.
pub open spec fn nix_problem(run: Seq<char>, job_id: Seq<char>, idx: nat, origin: Seq<char>) -> Option<Seq<char>> {
    match first_non_nix(logical_from(text_lines(run), 0, Seq::empty()), 0) {
        Some(cmd) => Some("job '"@ + job_id + "', step "@ + decimal(idx) + ": run command does not start with 'nix': '"@
            + cmd.take(if cmd.len() < 80 { cmd.len() as int } else { 80 }) + "' (in "@ + origin
            + "). ci-local only supports nix commands."@),
        None => None,
    }
}

fn strip_backslashes_exec(v: &Vec<char>) -> (r: Vec<char>)
    ensures
        r@ == strip_backslashes(v@),
{
    let mut j: usize = v.len();
    proof {
        assert(v@.take(v@.len() as int) =~= v@);
    }
    while j > 0 && v[j - 1] == '\\'
        invariant
            j <= v@.len(),
            strip_backslashes(v@.take(j as int)) == strip_backslashes(v@),
        decreases j,
    {
        proof {
            assert(v@.take(j as int).drop_last() =~= v@.take(j - 1));
        }
        j = j - 1;
    }
    proof {
        assert(v@.take(0) =~= Seq::<char>::empty());
        if j > 0 {
            assert(v@.take(j as int).last() == v@[j - 1]);
        }
    }
    slice_chars(v, 0, j)
}

/// The logical lines of a command (see `logical_from`).
pub fn logical_lines(run_cmd: &str) -> (r: Vec<Vec<char>>)
    ensures
        r@.map_values(|l: Vec<char>| l@) == logical_from(text_lines(run_cmd@), 0, Seq::empty()),
{
    proof {
        reveal_strlit(" ");
    }
    let lines = lines_of(&chars_of(run_cmd));
    let ghost ls = text_lines(run_cmd@);
    let mut out: Vec<Vec<char>> = Vec::new();
    let mut cur: Vec<char> = Vec::new();
    let mut k: usize = 0;
    proof {
        assert(out@.map_values(|l: Vec<char>| l@) + logical_from(ls, 0, cur@) =~= logical_from(ls, 0, Seq::empty()));
    }
    while k < lines.len()
        invariant
            k <= lines@.len(),
            lines@.len() == ls.len(),
            ls == text_lines(run_cmd@),
            forall|q: int| 0 <= q < lines@.len() ==> (#[trigger] lines@[q])@ == ls[q],
            out@.map_values(|l: Vec<char>| l@) + logical_from(ls, k as int, cur@) == logical_from(ls, 0, Seq::empty()),
        decreases lines@.len() - k,
    {
        let ghost before = out@.map_values(|l: Vec<char>| l@);
        let ghost cur0 = cur@;
        let t = trim_chars(&lines[k]);
        if t.len() == 0 || t[0] == '#' {
            if cur.len() > 0 {
                out.push(cur);
                proof {
                    assert(out@.map_values(|l: Vec<char>| l@) =~= before + seq![cur0]);
                }
            } else {
                proof {
                    assert(out@.map_values(|l: Vec<char>| l@) =~= before + Seq::<Seq<char>>::empty());
                }
            }
            cur = Vec::new();
            proof {
                assert(cur@ =~= Seq::<char>::empty());
            }
        } else {
            let mut joined: Vec<char> = if cur.len() == 0 {
                t.clone()
            } else {
                let mut j = slice_chars(&cur, 0, cur.len());
                j.push(' ');
                proof {
                    reveal_strlit(" ");
                    assert(cur@.subrange(0, cur@.len() as int) =~= cur0);
                    assert(j@ =~= cur0 + " "@ + t@.take(0));
                }
                let mut q: usize = 0;
                while q < t.len()
                    invariant
                        q <= t@.len(),
                        j@ == cur0 + " "@ + t@.take(q as int),
                    decreases t@.len() - q,
                {
                    j.push(t[q]);
                    proof {
                        assert(t@.take(q + 1) =~= t@.take(q as int).push(t[q as int]));
                    }
                    q = q + 1;
                }
                proof {
                    assert(t@.take(t@.len() as int) =~= t@);
                }
                j
            };
            if t[t.len() - 1] != '\\' {
                out.push(joined);
                cur = Vec::new();
                proof {
                    assert(cur@ =~= Seq::<char>::empty());
                }
            } else {
                let stripped = strip_backslashes_exec(&joined);
                cur = trim_end_chars(&stripped);
            }
        }
        k = k + 1;
    }
    proof {
        assert(logical_from(ls, k as int, cur@) == (if cur@.len() > 0 { seq![cur@] } else { Seq::<Seq<char>>::empty() }));
    }
    if cur.len() > 0 {
        let ghost before = out@.map_values(|l: Vec<char>| l@);
        let ghost c = cur@;
        out.push(cur);
        proof {
            assert(out@.map_values(|l: Vec<char>| l@) =~= before + seq![c]);
        }
    } else {
        proof {
            assert(out@.map_values(|l: Vec<char>| l@) =~= out@.map_values(|l: Vec<char>| l@) + Seq::<Seq<char>>::empty());
        }
    }
    out
}

/// Accepts a step's command when each of its logical lines is a `nix` command;
/// otherwise a validation error names the job, the step and the line (see
/// `nix_problem`).
pub fn validate_nix_only(run_cmd: &str, job_id: &str, step_idx: usize, origin: &str) -> (r: Result<(), CiError>)
    ensures
        match nix_problem(run_cmd@, job_id@, step_idx as nat, origin@) {
            Some(d) => r matches Err(e) && validation_error(e, d),
            None => r is Ok,
        },
{
    proof {
        reveal_strlit("nix");
    }
    let lines = logical_lines(run_cmd);
    let ghost ls = lines@.map_values(|l: Vec<char>| l@);
    let nix = chars_of("nix");
    let mut q: usize = 0;
    while q < lines.len()
        invariant
            q <= lines@.len(),
            ls == lines@.map_values(|l: Vec<char>| l@),
            ls == logical_from(text_lines(run_cmd@), 0, Seq::empty()),
            nix@ == "nix"@,
            first_non_nix(ls, q as int) == first_non_nix(ls, 0),
        decreases lines@.len() - q,
    {
        let cmd = trim_chars(&lines[q]);
        proof {
            assert(ls[q as int] == lines@[q as int]@);
        }
        if cmd.len() > 0 {
            let ws = split_words(&cmd);
            proof {
                lemma_words_nonempty(lines@[q as int]@);
                assert(ws@.map_values(|w: Vec<char>| w@).len() == ws@.len());
            }
            let first = &ws[0];
            proof {
                assert(ws@.map_values(|w: Vec<char>| w@)[0] == ws@[0]@);
            }
            if !crate::text::chars_eq(first, &nix) {
                let shown = if cmd.len() < 80 { cmd.len() } else { 80 };
                let mut d = String::from_str("job '");
                d.append(job_id);
                d.append("', step ");
                d.append(u64_to_string(step_idx as u64).as_str());
                d.append(": run command does not start with 'nix': '");
                d.append(string_of(&slice_chars(&cmd, 0, shown)).as_str());
                d.append("' (in ");
                d.append(origin);
                d.append("). ci-local only supports nix commands.");
                proof {
                    assert(cmd@.subrange(0, shown as int) =~= cmd@.take(shown as int));
                }
                return Err(CiError::ConfigValidation { detail: d });
            }
        }
        q = q + 1;
    }
    Ok(())
}

/// A step as texts: its name and its command.
pub type StepV = (Seq<char>, Seq<char>);

/// The steps as texts.
pub open spec fn steps_view(v: Seq<WorkflowStep>) -> Seq<StepV> {
    v.map_values(|st: WorkflowStep| (st.name@, st.run@))
}

/// The name of an unnamed step: `step-<index>`.
pub open spec fn default_step_name(k: nat) -> Seq<char> {
    "step-"@ + decimal(k)
}

/// The `nix` steps of a job from step `k` on, the values of `combo` put into
/// their names and commands: steps that use an action, or have no command, are
/// passed over; a command that is not `nix` ends the reading with its problem.
pub open spec fn steps_from(steps: Seq<Yaml>, k: int, job_id: Seq<char>, origin: Seq<char>, combo: Combo) -> Result<Seq<StepV>, Seq<char>>
    decreases steps.len() - k,
{
    if k < 0 || k >= steps.len() {
        Ok(Seq::empty())
    } else {
        let st = steps[k];
        if yaml_get(st, "uses"@) is Some {
            steps_from(steps, k + 1, job_id, origin, combo)
        } else {
            match (match yaml_get(st, "run"@) {
                Some(v) => yaml_str(v),
                None => None,
            }) {
                None => steps_from(steps, k + 1, job_id, origin, combo),
                Some(run0) => {
                    let run = expand_from(run0, combo, 0);
                    match nix_problem(run, job_id, k as nat, origin) {
                        Some(d) => Err(d),
                        None => {
                            let name = match (match yaml_get(st, "name"@) {
                                Some(v) => yaml_str(v),
                                None => None,
                            }) {
                                Some(t) => expand_from(t, combo, 0),
                                None => default_step_name(k as nat),
                            };
                            match steps_from(steps, k + 1, job_id, origin, combo) {
                                Ok(rest) => Ok(seq![(name, run)] + rest),
                                Err(e) => Err(e),
                            }
                        },
                    }
                },
            }
        }
    }
}

/// `Ok(p + rest)` for `Ok(rest)`; an error stays.
pub open spec fn prefixed<T>(p: Seq<T>, r: Result<Seq<T>, Seq<char>>) -> Result<Seq<T>, Seq<char>> {
    match r {
        Ok(rest) => Ok(p + rest),
        Err(e) => Err(e),
    }
}

/// The `nix` steps of a job (see `steps_from`).
pub fn extract_nix_steps(steps: &Vec<Yaml>, job_id: &str, origin: &str, combo: &Vec<(String, String)>) -> (r: Result<Vec<WorkflowStep>, CiError>)
    ensures
        match steps_from(steps@, 0, job_id@, origin@, combo_view(combo@)) {
            Ok(v) => r matches Ok(x) && steps_view(x@) == v,
            Err(d) => r matches Err(e) && validation_error(e, d),
        },
{
    proof {
        reveal_strlit("step-");
    }
    let ghost cv = combo_view(combo@);
    let mut out: Vec<WorkflowStep> = Vec::new();
    let mut k: usize = 0;
    proof {
        assert(steps_view(out@) =~= Seq::<StepV>::empty());
        assert(prefixed(steps_view(out@), steps_from(steps@, 0, job_id@, origin@, cv)) =~= steps_from(steps@, 0, job_id@, origin@, cv)) by {
            match steps_from(steps@, 0, job_id@, origin@, cv) {
                Ok(v) => assert(Seq::<StepV>::empty() + v =~= v),
                Err(_) => {},
            }
        }
    }
    while k < steps.len()
        invariant
            k <= steps@.len(),
            cv == combo_view(combo@),
            prefixed(steps_view(out@), steps_from(steps@, k as int, job_id@, origin@, cv)) == steps_from(steps@, 0, job_id@, origin@, cv),
        decreases steps@.len() - k,
    {
        let st = &steps[k];
        let ghost before = steps_view(out@);
        if st.get("uses").is_some() {
            k = k + 1;
        } else {
            let run0 = match st.get("run") {
                Some(v) => v.as_str(),
                None => None,
            };
            match run0 {
                None => {
                    k = k + 1;
                },
                Some(r0) => {
                    let run = expand_matrix_string(r0, combo);
                    match validate_nix_only(run.as_str(), job_id, k, origin) {
                        Err(e) => {
                            return Err(e);
                        },
                        Ok(()) => {},
                    }
                    let name = match st.get("name") {
                        Some(v) => match v.as_str() {
                            Some(t) => expand_matrix_string(t, combo),
                            None => {
                                let mut n = String::from_str("step-");
                                n.append(u64_to_string(k as u64).as_str());
                                n
                            },
                        },
                        None => {
                            let mut n = String::from_str("step-");
                            n.append(u64_to_string(k as u64).as_str());
                            n
                        },
                    };
                    let ghost item = (name@, run@);
                    out.push(WorkflowStep { name, run });
                    proof {
                        assert(steps_view(out@) =~= before.push(item));
                        match steps_from(steps@, k + 1, job_id@, origin@, cv) {
                            Ok(rest) => {
                                assert(before + (seq![item] + rest) =~= before.push(item) + rest);
                            },
                            Err(_) => {},
                        }
                    }
                    k = k + 1;
                },
            }
        }
    }
    proof {
        assert(steps_view(out@) + Seq::<StepV>::empty() =~= steps_view(out@));
    }
    Ok(out)
}

/// The text a step's YAML gives under `key`, where it is a string.
pub open spec fn step_text(st: Yaml, key: Seq<char>) -> Option<Seq<char>> {
    match yaml_get(st, key) {
        Some(v) => yaml_str(v),
        None => None,
    }
}

/// `out` is what step `p` of a job reads as under `combo`: its command and its
/// name (or `step-<p>` where it has none) are the texts written in its YAML, each
/// with the matrix values of `combo` put in the same way.
pub open spec fn step_read_from(steps: Seq<Yaml>, p: int, combo: Combo, out: StepV) -> bool {
    &&& step_text(steps[p], "run"@) matches Some(r0) && out.1 == expand_from(r0, combo, 0)
    &&& out.0 == match step_text(steps[p], "name"@) {
        Some(n0) => expand_from(n0, combo, 0),
        None => default_step_name(p as nat),
    }
}

/// `at` gives, for each step of `v`, the YAML step from `k` on that it was read
/// from, in the order they are written.
pub open spec fn read_positions(steps: Seq<Yaml>, k: int, combo: Combo, v: Seq<StepV>, at: Seq<int>) -> bool {
    &&& at.len() == v.len()
    &&& forall|j: int| 0 <= j < v.len() ==> k <= #[trigger] at[j] < steps.len() && step_read_from(steps, at[j], combo, v[j])
    &&& forall|i: int, j: int| 0 <= i < j < v.len() ==> at[i] < at[j]
}

/// Each step of a successful reading from step `k` on was read, in order, from a
/// YAML step (see `read_positions`).
pub open spec fn steps_traced(steps: Seq<Yaml>, k: int, combo: Combo, r: Result<Seq<StepV>, Seq<char>>) -> bool {
    match r {
        Ok(v) => exists|at: Seq<int>| #[trigger] read_positions(steps, k, combo, v, at),
        Err(_) => true,
    }
}

/// Every step read from a job, from step `k` on, comes from one of its YAML steps,
/// in the order they are written, with the matrix values put into its name just
/// as into its command.
pub proof fn law_step_names_expanded_like_commands(steps: Seq<Yaml>, k: int, job_id: Seq<char>, origin: Seq<char>, combo: Combo)
    requires
        0 <= k,
    ensures
        steps_traced(steps, k, combo, steps_from(steps, k, job_id, origin, combo)),
    decreases steps.len() - k,
{
    if k >= steps.len() {
        assert(steps_from(steps, k, job_id, origin, combo) == Ok::<Seq<StepV>, Seq<char>>(Seq::<StepV>::empty()));
        assert(read_positions(steps, k, combo, steps_from(steps, k, job_id, origin, combo)->Ok_0, Seq::<int>::empty()));
    } else {
        law_step_names_expanded_like_commands(steps, k + 1, job_id, origin, combo);
        let st = steps[k];
        if let Ok(rest) = steps_from(steps, k + 1, job_id, origin, combo) {
            let at0 = choose|at: Seq<int>| #[trigger] read_positions(steps, k + 1, combo, rest, at);
            assert(read_positions(steps, k, combo, rest, at0));
            if yaml_get(st, "uses"@) is None {
                if let Some(run0) = step_text(st, "run"@) {
                    let run = expand_from(run0, combo, 0);
                    if nix_problem(run, job_id, k as nat, origin) is None {
                        let name = match step_text(st, "name"@) {
                            Some(t) => expand_from(t, combo, 0),
                            None => default_step_name(k as nat),
                        };
                        let v = seq![(name, run)] + rest;
                        assert(steps_from(steps, k, job_id, origin, combo) == Ok::<Seq<StepV>, Seq<char>>(v));
                        let at = seq![k] + at0;
                        assert(step_read_from(steps, k, combo, v[0]));
                        assert forall|j: int| 0 <= j < v.len() implies k <= #[trigger] at[j] < steps.len() && step_read_from(steps, at[j], combo, v[j]) by {
                            if j > 0 {
                                assert(at[j] == at0[j - 1]);
                                assert(v[j] == rest[j - 1]);
                            }
                        }
                        assert forall|i: int, j: int| 0 <= i < j < v.len() implies at[i] < at[j] by {
                            if i > 0 {
                                assert(at[i] == at0[i - 1]);
                            }
                            assert(at[j] == at0[j - 1]);
                        }
                        assert(read_positions(steps, k, combo, steps_from(steps, k, job_id, origin, combo)->Ok_0, at));
                    } else {
                        assert(steps_from(steps, k, job_id, origin, combo) is Err);
                    }
                } else {
                    assert(steps_from(steps, k, job_id, origin, combo) == steps_from(steps, k + 1, job_id, origin, combo));
                }
            } else {
                assert(steps_from(steps, k, job_id, origin, combo) == steps_from(steps, k + 1, job_id, origin, combo));
            }
        } else {
            assert(steps_from(steps, k, job_id, origin, combo) is Err);
        }
    }
}

/// What `Path::file_stem` gives for a path: its last component without the
/// extension, if it has one.
pub uninterp spec fn path_stem(p: Seq<char>) -> Option<Seq<char>>;

/// `Path::new(p).file_stem()`, named by `path_stem`; the stem of a UTF-8 path is
/// UTF-8, so the text comes back unchanged.
#[verifier::external_body]
fn file_stem_of(p: &str) -> (r: Option<String>)
    ensures
        match path_stem(p@) {
            Some(x) => r matches Some(y) && y@ == x,
            None => r is None,
        },
{
    match std::path::Path::new(p).file_stem() {
        Some(x) => Some(x.to_string_lossy().into_owned()),
        None => None,
    }
}

/// A job as texts: its name, needs, steps and id.
pub type JobV = (Seq<char>, Seq<Seq<char>>, Seq<StepV>, Seq<char>);

/// The job as texts.
pub open spec fn job_view(j: WorkflowJob) -> JobV {
    (j.name@, texts_of(j.needs@), steps_view(j.steps@), j.job_id@)
}

/// The jobs as texts.
pub open spec fn jobs_view(v: Seq<WorkflowJob>) -> Seq<JobV> {
    v.map_values(|j: WorkflowJob| job_view(j))
}

/// The entries of a combination as `key=value`, joined by `, `.
pub open spec fn pairs_text(c: Combo) -> Seq<char>
    decreases c.len(),
{
    if c.len() == 0 {
        Seq::empty()
    } else if c.len() == 1 {
        c[0].0 + "="@ + c[0].1
    } else {
        pairs_text(c.drop_last()) + ", "@ + c.last().0 + "="@ + c.last().1
    }
}

/// The id of the job of one matrix combination: the job's id and, in brackets,
/// the value of a single axis or the `key=value` list of several.
pub open spec fn combo_job_id(id: Seq<char>, c: Combo) -> Seq<char> {
    id + " ("@ + (if c.len() == 1 { c[0].1 } else { pairs_text(c) }) + ")"@
}

/// The jobs of the matrix combinations `cs` from `i` on; the first step problem
/// ends the reading.
pub open spec fn combo_jobs(cs: Seq<Combo>, i: int, template: Seq<char>, needs: Seq<Seq<char>>, raw: Seq<Yaml>, id: Seq<char>, origin: Seq<char>) -> Result<Seq<JobV>, Seq<char>>
    decreases cs.len() - i,
{
    if i < 0 || i >= cs.len() {
        Ok(Seq::empty())
    } else {
        match steps_from(raw, 0, id, origin, cs[i]) {
            Err(d) => Err(d),
            Ok(st) => prefixed(
                seq![(expand_from(template, cs[i], 0), needs, st, combo_job_id(id, cs[i]))],
                combo_jobs(cs, i + 1, template, needs, raw, id, origin),
            ),
        }
    }
}

/// The jobs of the entries `es` of a workflow's `jobs` mapping from `k` on: a key
/// that is no string, or a job without a `steps` sequence, is an error; a job
/// without a matrix is one job named by its `name` (or id); a job with a matrix
/// is one job per combination.
pub open spec fn jobs_from(es: Seq<(Yaml, Yaml)>, k: int, origin: Seq<char>) -> Result<Seq<JobV>, Seq<char>>
    decreases es.len() - k,
{
    if k < 0 || k >= es.len() {
        Ok(Seq::empty())
    } else {
        match yaml_str(es[k].0) {
            None => Err("non-string job key in "@ + origin),
            Some(id) => {
                let job = es[k].1;
                let needs = needs_of(job);
                let combos = matrix_combos(job);
                match (match yaml_get(job, "steps"@) {
                    Some(v) => yaml_seq(v),
                    None => None,
                }) {
                    None => Err("job '"@ + id + "' has no 'steps' in "@ + origin),
                    Some(raw) => {
                        let named = match (match yaml_get(job, "name"@) {
                            Some(v) => yaml_str(v),
                            None => None,
                        }) {
                            Some(n) => n,
                            None => id,
                        };
                        let these = if combos.len() == 0 {
                            match steps_from(raw, 0, id, origin, Seq::empty()) {
                                Ok(st) => Ok(seq![(named, needs, st, id)]),
                                Err(d) => Err(d),
                            }
                        } else {
                            combo_jobs(combos, 0, named, needs, raw, id, origin)
                        };
                        match these {
                            Err(d) => Err(d),
                            Ok(js) => prefixed(js, jobs_from(es, k + 1, origin)),
                        }
                    },
                }
            },
        }
    }
}

/// A workflow document read: its `name` (or the file's stem, or `workflow`) and
/// its jobs (see `jobs_from`); without a `jobs` mapping it is an error.
pub open spec fn workflow_spec(doc: Yaml, origin: Seq<char>) -> Result<(Seq<char>, Seq<JobV>), Seq<char>> {
    let name = match (match yaml_get(doc, "name"@) {
        Some(v) => yaml_str(v),
        None => None,
    }) {
        Some(n) => n,
        None => match path_stem(origin) {
            Some(st) => st,
            None => "workflow"@,
        },
    };
    match (match yaml_get(doc, "jobs"@) {
        Some(v) => yaml_map(v),
        None => None,
    }) {
        None => Err("no 'jobs' key in workflow "@ + origin),
        Some(es) => match jobs_from(es, 0, origin) {
            Ok(js) => Ok((name, js)),
            Err(d) => Err(d),
        },
    }
}

fn combo_job_id_exec(id: &str, c: &Vec<(String, String)>) -> (r: String)
    ensures
        r@ == combo_job_id(id@, combo_view(c@)),
{
    proof {
        reveal_strlit(" (");
        reveal_strlit(")");
        reveal_strlit("=");
        reveal_strlit(", ");
    }
    let ghost cv = combo_view(c@);
    let mut out = String::from_str(id);
    out.append(" (");
    if c.len() == 1 {
        out.append(c[0].1.as_str());
    } else {
        let ghost head = out@;
        let mut i: usize = 0;
        proof {
            assert(out@ =~= head + pairs_text(cv.take(0)));
        }
        while i < c.len()
            invariant
                i <= c@.len(),
                c@.len() != 1,
                cv == combo_view(c@),
                out@ == head + pairs_text(cv.take(i as int)),
            decreases c@.len() - i,
        {
            proof {
                reveal_strlit("=");
                reveal_strlit(", ");
                assert(cv[i as int] == (c@[i as int].0@, c@[i as int].1@));
                assert(cv.take(i + 1).drop_last() =~= cv.take(i as int));
                assert(cv.take(i + 1).last() == cv[i as int]);
            }
            if i > 0 {
                out.append(", ");
            }
            out.append(c[i].0.as_str());
            out.append("=");
            out.append(c[i].1.as_str());
            proof {
                if i == 0 {
                    assert(cv.take(1) =~= seq![cv[0]]);
                }
            }
            i = i + 1;
        }
        proof {
            assert(cv.take(c@.len() as int) =~= cv);
        }
    }
    out.append(")");
    out
}

/// A workflow from the text of its file (see `yaml_parsed` and
/// `workflow_spec`); `origin` is the file's path. A text that is no YAML gives
/// the validation error `failed to parse YAML <origin>: <reader's error>`.
pub fn parse_workflow_text(text: &str, origin: &str) -> (r: Result<Workflow, CiError>)
    ensures
        match yaml_parsed(text@) {
            Err(e) => r matches Err(err) && validation_error(err, "failed to parse YAML "@ + origin@ + ": "@ + e),
            Ok(doc) => match workflow_spec(doc, origin@) {
                Ok((name, js)) => r matches Ok(w) && w.name@ == name && jobs_view(w.jobs@) == js,
                Err(d) => r matches Err(e) && validation_error(e, d),
            },
        },
{
    match parse_yaml_text(text) {
        Ok(doc) => parse_workflow_yaml(&doc, origin),
        Err(e) => {
            let mut d = String::from_str("failed to parse YAML ");
            d.append(origin);
            d.append(": ");
            d.append(e.as_str());
            proof {
                reveal_strlit("failed to parse YAML ");
                reveal_strlit(": ");
            }
            Err(CiError::ConfigValidation { detail: d })
        },
    }
}

/// A workflow from its YAML document (see `workflow_spec`); `origin` is the path
/// of the file it was read from. Every error is a validation error.
#[verifier::spinoff_prover]
#[verifier::rlimit(30)]
pub fn parse_workflow_yaml(doc: &Yaml, origin: &str) -> (r: Result<Workflow, CiError>)
    requires
        well_tagged(*doc),
    ensures
        match workflow_spec(*doc, origin@) {
            Ok((name, js)) => r matches Ok(w) && w.name@ == name && jobs_view(w.jobs@) == js,
            Err(d) => r matches Err(e) && validation_error(e, d),
        },
{
    proof {
        reveal_strlit("workflow");
        reveal_strlit("non-string job key in ");
        reveal_strlit("job '");
        reveal_strlit("' has no 'steps' in ");
        reveal_strlit("no 'jobs' key in workflow ");
        lemma_get_well(*doc, "jobs"@);
    }
    let name = match doc.get("name") {
        Some(v) => match v.as_str() {
            Some(n) => n.to_string(),
            None => match file_stem_of(origin) {
                Some(st) => st,
                None => String::from_str("workflow"),
            },
        },
        None => match file_stem_of(origin) {
            Some(st) => st,
            None => String::from_str("workflow"),
        },
    };
    let jobs_value = match doc.get("jobs") {
        Some(v) => v,
        None => {
            let mut d = String::from_str("no 'jobs' key in workflow ");
            d.append(origin);
            return Err(CiError::ConfigValidation { detail: d });
        },
    };
    proof {
        lemma_get_well(*jobs_value, "jobs"@);
    }
    let es = match jobs_value.as_mapping() {
        Some(es) => es,
        None => {
            let mut d = String::from_str("no 'jobs' key in workflow ");
            d.append(origin);
            return Err(CiError::ConfigValidation { detail: d });
        },
    };
    proof {
        lemma_map_entries_well(*jobs_value, es@);
    }
    let ghost esv = es@;
    let mut jobs: Vec<WorkflowJob> = Vec::new();
    let mut k: usize = 0;
    proof {
        assert(prefixed(jobs_view(jobs@), jobs_from(esv, 0, origin@)) =~= jobs_from(esv, 0, origin@)) by {
            match jobs_from(esv, 0, origin@) {
                Ok(v) => assert(Seq::<JobV>::empty() + v =~= v),
                Err(_) => {},
            }
        }
    }
    assert(workflow_spec(*doc, origin@) == match jobs_from(esv, 0, origin@) {
        Ok(js) => Ok((name@, js)),
        Err(d) => Err(d),
    });
    while k < es.len()
        invariant
            k <= es@.len(),
            esv == es@,
            forall|i: int| 0 <= i < esv.len() ==> well_tagged(#[trigger] esv[i].0) && well_tagged(esv[i].1),
            prefixed(jobs_view(jobs@), jobs_from(esv, k as int, origin@)) == jobs_from(esv, 0, origin@),
            workflow_spec(*doc, origin@) == match jobs_from(esv, 0, origin@) {
                Ok(js) => Ok((name@, js)),
                Err(d) => Err(d),
            },
        decreases es@.len() - k,
    {
        let (key, job) = (&es[k].0, &es[k].1);
        let id = match key.as_str() {
            Some(t) => t.to_string(),
            None => {
                let mut d = String::from_str("non-string job key in ");
                d.append(origin);
                return Err(CiError::ConfigValidation { detail: d });
            },
        };
        let needs = parse_needs(job);
        let combos = parse_matrix(job);
        proof {
            lemma_get_well(*job, "steps"@);
        }
        let raw = match job.get("steps") {
            Some(v) => match v.as_sequence() {
                Some(xs) => xs,
                None => {
                    let mut d = String::from_str("job '");
                    d.append(id.as_str());
                    d.append("' has no 'steps' in ");
                    d.append(origin);
                    return Err(CiError::ConfigValidation { detail: d });
                },
            },
            None => {
                let mut d = String::from_str("job '");
                d.append(id.as_str());
                d.append("' has no 'steps' in ");
                d.append(origin);
                return Err(CiError::ConfigValidation { detail: d });
            },
        };
        let named = match job.get("name") {
            Some(v) => match v.as_str() {
                Some(n) => n.to_string(),
                None => id.clone(),
            },
            None => id.clone(),
        };
        let ghost before = jobs_view(jobs@);
        let ghost needs_v = texts_of(needs@);
        if combos.len() == 0 {
            let empty: Vec<(String, String)> = Vec::new();
            proof {
                assert(combo_view(empty@) =~= Seq::<(Seq<char>, Seq<char>)>::empty());
            }
            let steps = extract_nix_steps(raw, id.as_str(), origin, &empty)?;
            let ghost jv = (named@, needs_v, steps_view(steps@), id@);
            let nc = clone_strings(&needs);
            proof {
                assert(texts_of(nc@) =~= needs_v);
            }
            jobs.push(WorkflowJob { name: named, needs: nc, steps, job_id: id });
            proof {
                assert(jobs_view(jobs@) =~= before.push(jv));
                match jobs_from(esv, k + 1, origin@) {
                    Ok(rest) => assert(before + (seq![jv] + rest) =~= before.push(jv) + rest),
                    Err(_) => {},
                }
            }
        } else {
            let ghost cs = combos_view(combos@);
            let mut i: usize = 0;
            proof {
                assert(jobs_view(jobs@) =~= before);
                assert(prefixed(before, prefixed(Seq::<JobV>::empty(), combo_jobs(cs, 0, named@, needs_v, raw@, id@, origin@))) == prefixed(before, combo_jobs(cs, 0, named@, needs_v, raw@, id@, origin@))) by {
                    match combo_jobs(cs, 0, named@, needs_v, raw@, id@, origin@) {
                        Ok(v) => assert(Seq::<JobV>::empty() + v =~= v),
                        Err(_) => {},
                    }
                }
            }
            while i < combos.len()
                invariant
                    i <= combos@.len(),
                    cs == combos_view(combos@),
                    cs.len() > 0,
                    jobs_view(jobs@).len() >= before.len(),
                    jobs_view(jobs@).subrange(0, before.len() as int) == before,
                    prefixed(jobs_view(jobs@), combo_jobs(cs, i as int, named@, needs_v, raw@, id@, origin@))
                        == prefixed(before, combo_jobs(cs, 0, named@, needs_v, raw@, id@, origin@)),
                    needs_v == texts_of(needs@),
                    k < esv.len(),
                    prefixed(before, jobs_from(esv, k as int, origin@)) == jobs_from(esv, 0, origin@),
                    workflow_spec(*doc, origin@) == match jobs_from(esv, 0, origin@) {
                        Ok(js) => Ok((name@, js)),
                        Err(d) => Err(d),
                    },
                    jobs_from(esv, k as int, origin@) == match combo_jobs(cs, 0, named@, needs_v, raw@, id@, origin@) {
                        Err(d) => Err(d),
                        Ok(js) => prefixed(js, jobs_from(esv, k + 1, origin@)),
                    },
                decreases combos@.len() - i,
            {
                let c = &combos[i];
                proof {
                    assert(cs[i as int] == combo_view(c@));
                }
                let steps = extract_nix_steps(raw, id.as_str(), origin, c)?;
                let jname = expand_matrix_string(named.as_str(), c);
                let jid = combo_job_id_exec(id.as_str(), c);
                let ghost jv = (jname@, needs_v, steps_view(steps@), jid@);
                let ghost mid = jobs_view(jobs@);
                let nc = clone_strings(&needs);
                proof {
                    assert(texts_of(nc@) =~= needs_v);
                }
                jobs.push(WorkflowJob { name: jname, needs: nc, steps, job_id: jid });
                proof {
                    assert(jobs_view(jobs@) =~= mid.push(jv));
                    assert(jobs_view(jobs@).subrange(0, before.len() as int) =~= mid.subrange(0, before.len() as int));
                    match combo_jobs(cs, i + 1, named@, needs_v, raw@, id@, origin@) {
                        Ok(rest) => assert(mid + (seq![jv] + rest) =~= mid.push(jv) + rest),
                        Err(_) => {},
                    }
                }
                i = i + 1;
            }
            proof {
                let cj = combo_jobs(cs, 0, named@, needs_v, raw@, id@, origin@);
                assert(combo_jobs(cs, i as int, named@, needs_v, raw@, id@, origin@) == Ok::<Seq<JobV>, Seq<char>>(Seq::empty()));
                assert(jobs_view(jobs@) + Seq::<JobV>::empty() =~= jobs_view(jobs@));
                match cj {
                    Ok(js) => {
                        assert(jobs_view(jobs@) =~= before + js);
                        match jobs_from(esv, k + 1, origin@) {
                            Ok(rest) => assert(before + (js + rest) =~= (before + js) + rest),
                            Err(_) => {},
                        }
                    },
                    Err(_) => {},
                }
            }
        }
        k = k + 1;
    }
    proof {
        assert(jobs_view(jobs@) + Seq::<JobV>::empty() =~= jobs_view(jobs@));
    }
    Ok(Workflow { name, jobs })
}

/// Whether a file name is that of a workflow: it ends with `.yml` or `.yaml`.
pub open spec fn is_workflow_file(name: Seq<char>) -> bool {
    crate::text::has_suffix(name, ".yml"@) || crate::text::has_suffix(name, ".yaml"@)
}

/// The names of `names` that are workflow files.
pub open spec fn workflow_names(names: Seq<Seq<char>>) -> Seq<Seq<char>>
    decreases names.len(),
{
    if names.len() == 0 {
        Seq::empty()
    } else {
        workflow_names(names.drop_last()) + if is_workflow_file(names.last()) { seq![names.last()] } else { Seq::empty() }
    }
}

/// The workflow files among the names of a directory's entries, in the order
/// the reader takes them: sorted.
pub fn workflow_file_names(names: &[String]) -> (r: Vec<String>)
    ensures
        crate::text::texts_sorted(texts_of(r@)),
        texts_of(r@).to_multiset() == workflow_names(texts_of(names@)).to_multiset(),
{
    proof {
        reveal_strlit(".yml");
        reveal_strlit(".yaml");
    }
    let yml = chars_of(".yml");
    let yaml = chars_of(".yaml");
    let mut out: Vec<String> = Vec::new();
    let mut i: usize = 0;
    while i < names.len()
        invariant
            i <= names@.len(),
            yml@ == ".yml"@,
            yaml@ == ".yaml"@,
            texts_of(out@) == workflow_names(texts_of(names@).take(i as int)),
        decreases names@.len() - i,
    {
        let ghost before = texts_of(out@);
        proof {
            assert(texts_of(names@).take(i + 1).drop_last() =~= texts_of(names@).take(i as int));
            assert(texts_of(names@).take(i + 1).last() == names@[i as int]@);
        }
        let v = chars_of(names[i].as_str());
        if crate::text::ends_with(&v, &yml) || crate::text::ends_with(&v, &yaml) {
            out.push(names[i].clone());
            proof {
                assert(texts_of(out@) =~= before + seq![names@[i as int]@]);
            }
        } else {
            proof {
                assert(texts_of(out@) =~= before + Seq::<Seq<char>>::empty());
            }
        }
        i = i + 1;
    }
    proof {
        assert(texts_of(names@).take(names@.len() as int) =~= texts_of(names@));
        assert(crate::text::views(out@) =~= texts_of(out@));
    }
    let sorted = crate::text::sort_texts(out);
    proof {
        assert(crate::text::views(sorted@) =~= texts_of(sorted@));
    }
    sorted
}

/// The directory the workflows of a checkout are in: `<repo>/.github/workflows`.
pub fn workflows_dir(repo_dir: &str) -> (r: String)
    ensures
        r@ == crate::text::path_join(crate::text::path_join(repo_dir@, ".github"@), "workflows"@),
{
    let g = crate::text::join_path(repo_dir, ".github");
    crate::text::join_path(g.as_str(), "workflows")
}

/// The error when a checkout has no workflow directory.
pub fn no_workflows_dir_error(repo_dir: &str) -> (r: CiError)
    ensures
        validation_error(r, "no .github/workflows/ directory found in "@ + repo_dir@),
{
    let mut d = String::from_str("no .github/workflows/ directory found in ");
    d.append(repo_dir);
    CiError::ConfigValidation { detail: d }
}

/// The error when a workflow directory holds no workflow file.
pub fn no_workflow_files_error(dir: &str) -> (r: CiError)
    ensures
        validation_error(r, "no workflow YAML files found in "@ + dir@),
{
    let mut d = String::from_str("no workflow YAML files found in ");
    d.append(dir);
    CiError::ConfigValidation { detail: d }
}

} // verus!
