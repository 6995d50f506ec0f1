//! Validation for `WorkerSpec`: structural and semantic checks beyond what
//! the wire format enforces (cross-field invariants like kind/block
//! agreement, specialist cardinality, and iteration budget ranges).
use vstd::prelude::*;
use crate::model::{AgentKind, WorkerSpec, Specialist};
use crate::text::{concat, decimal, decimal_string, is_blank, is_blank_exec};

verus! {

/// A single validation failure. `field` names the offending path
/// (dot-separated, e.g. `"agent_graph.specialists"`) so callers can route
/// errors back to the originating form field or YAML key.
#[derive(Debug, Clone, PartialEq)]
pub struct ValidationError {
    pub field: String,
    pub message: String,
}

impl View for ValidationError {
    type V = (Seq<char>, Seq<char>);

    open spec fn view(&self) -> (Seq<char>, Seq<char>) {
        (self.field@, self.message@)
    }
}

impl ValidationError {
    /// An error on `field` with `message`.
    pub fn new(field: &str, message: String) -> (r: ValidationError)
        ensures
            r@ == (field@, message@),
    {
        ValidationError { field: field.to_owned(), message }
    }
}

/// The (field, message) pairs of a list of errors.
pub open spec fn error_views(s: Seq<ValidationError>) -> Seq<(Seq<char>, Seq<char>)> {
    Seq::new(s.len(), |i: int| s[i]@)
}

pub open spec fn err(field: Seq<char>, message: Seq<char>) -> Seq<(Seq<char>, Seq<char>)> {
    seq![(field, message)]
}

pub open spec fn none() -> Seq<(Seq<char>, Seq<char>)> {
    Seq::empty()
}

/// Rule 1: the name is not empty or white space only.
pub open spec fn name_errors(spec: WorkerSpec) -> Seq<(Seq<char>, Seq<char>)> {
    if is_blank(spec.name@) {
        err("name"@, "name must not be empty or whitespace-only"@)
    } else {
        none()
    }
}

pub open spec fn specialist_names(s: Seq<Specialist>) -> Seq<Seq<char>> {
    Seq::new(s.len(), |i: int| s[i].name@)
}

/// One error per specialist whose name an earlier specialist already took.
pub open spec fn duplicate_errors(names: Seq<Seq<char>>) -> Seq<(Seq<char>, Seq<char>)>
    decreases names.len(),
{
    if names.len() == 0 {
        none()
    } else {
        let prev = names.drop_last();
        duplicate_errors(prev) + if prev.contains(names.last()) {
            err("agent_graph.specialists"@, "duplicate specialist name: "@ + names.last())
        } else {
            none()
        }
    }
}

/// Rules 2 and 3: an agent-graph worker carries a graph of at least two
/// specialists, with distinct names.
pub open spec fn agent_graph_errors(spec: WorkerSpec) -> Seq<(Seq<char>, Seq<char>)> {
    if spec.kind != AgentKind::AgentGraph {
        none()
    } else {
        match spec.agent_graph {
            None => err(
                "agent_graph.specialists"@,
                "agent_graph kind requires an agent_graph block with at least 2 specialists"@,
            ),
            Some(g) => {
                let n = g.specialists@.len();
                (if n < 2 {
                    err(
                        "agent_graph.specialists"@,
                        "agent_graph requires at least 2 specialists, found "@ + decimal(n),
                    )
                } else {
                    none()
                }) + duplicate_errors(specialist_names(g.specialists@))
            },
        }
    }
}

/// Rule 4: a deep worker's iteration budget lies in `1..=100`.
pub open spec fn deep_worker_errors(spec: WorkerSpec) -> Seq<(Seq<char>, Seq<char>)> {
    if spec.kind != AgentKind::DeepWorker {
        none()
    } else {
        match spec.deep_worker {
            None => none(),
            Some(d) => if 1 <= d.iteration_budget <= 100 {
                none()
            } else {
                err(
                    "deep_worker.iteration_budget"@,
                    "iteration_budget must be between 1 and 100, found "@ + decimal(
                        d.iteration_budget as nat,
                    ),
                )
            },
        }
    }
}

/// Rule 5: only the block that matches the kind is set.
pub open spec fn kind_errors(spec: WorkerSpec) -> Seq<(Seq<char>, Seq<char>)> {
    match spec.kind {
        AgentKind::SingleTurn => (if spec.agent_graph is Some {
            err("kind"@, "kind is single_turn but an agent_graph block is set"@)
        } else {
            none()
        }) + (if spec.deep_worker is Some {
            err("kind"@, "kind is single_turn but a deep_worker block is set"@)
        } else {
            none()
        }),
        AgentKind::AgentGraph => if spec.deep_worker is Some {
            err("kind"@, "kind is agent_graph but a deep_worker block is set"@)
        } else {
            none()
        },
        AgentKind::DeepWorker => if spec.agent_graph is Some {
            err("kind"@, "kind is deep_worker but an agent_graph block is set"@)
        } else {
            none()
        },
    }
}

/// Every violation of `spec`, in rule order.
pub open spec fn validation_errors(spec: WorkerSpec) -> Seq<(Seq<char>, Seq<char>)> {
    name_errors(spec) + agent_graph_errors(spec) + deep_worker_errors(spec) + kind_errors(spec)
}

/// The rules a valid worker spec meets, stated directly.
pub open spec fn is_valid_spec(spec: WorkerSpec) -> bool {
    &&& !is_blank(spec.name@)
    &&& spec.kind == AgentKind::AgentGraph ==> match spec.agent_graph {
        Some(g) => {
            &&& g.specialists@.len() >= 2
            &&& forall|i: int, j: int|
                0 <= i < j < g.specialists@.len() ==> #[trigger] g.specialists@[i].name@
                    != #[trigger] g.specialists@[j].name@
        },
        None => false,
    }
    &&& (spec.kind == AgentKind::DeepWorker && spec.deep_worker is Some) ==> 1
        <= spec.deep_worker->0.iteration_budget <= 100
    &&& spec.kind != AgentKind::AgentGraph ==> spec.agent_graph is None
    &&& spec.kind != AgentKind::DeepWorker ==> spec.deep_worker is None
}

proof fn lemma_duplicate_errors_empty(names: Seq<Seq<char>>)
    ensures
        duplicate_errors(names).len() == 0 <==> forall|i: int, j: int|
            0 <= i < j < names.len() ==> names[i] != names[j],
    decreases names.len(),
{
    if names.len() > 0 {
        let prev = names.drop_last();
        lemma_duplicate_errors_empty(prev);
        if duplicate_errors(names).len() == 0 {
            assert forall|i: int, j: int| 0 <= i < j < names.len() implies names[i] != names[j] by {
                if j == names.len() - 1 {
                    if names[i] == names[j] {
                        assert(prev[i] == names.last());
                        assert(prev.contains(names.last()));
                    }
                } else {
                    assert(prev[i] == names[i] && prev[j] == names[j]);
                }
            }
        } else {
            if duplicate_errors(prev).len() == 0 {
                assert(prev.contains(names.last()));
                let i = choose|i: int| 0 <= i < prev.len() && prev[i] == names.last();
                assert(names[i] == names[names.len() - 1]);
            } else {
                let (i, j) = choose|i: int, j: int| 0 <= i < j < prev.len() && prev[i] == prev[j];
                assert(names[i] == names[j]);
            }
        }
    }
}

/// A spec passes validation exactly when it meets every rule.
pub proof fn lemma_validation_errors_empty(spec: WorkerSpec)
    ensures
        validation_errors(spec).len() == 0 <==> is_valid_spec(spec),
{
    match spec.agent_graph {
        Some(g) => {
            let names = specialist_names(g.specialists@);
            lemma_duplicate_errors_empty(names);
            assert((forall|i: int, j: int| 0 <= i < j < names.len() ==> names[i] != names[j])
                <==> (forall|i: int, j: int|
                0 <= i < j < g.specialists@.len() ==> #[trigger] g.specialists@[i].name@
                    != #[trigger] g.specialists@[j].name@)) by {
                if forall|i: int, j: int| 0 <= i < j < names.len() ==> names[i] != names[j] {
                    assert forall|i: int, j: int|
                        0 <= i < j < g.specialists@.len() implies #[trigger] g.specialists@[i].name@
                        != #[trigger] g.specialists@[j].name@ by {
                        assert(names[i] != names[j]);
                    }
                }
            }
        },
        None => {},
    }
}

fn push_error(errors: &mut Vec<ValidationError>, field: &str, message: String)
    ensures
        error_views(final(errors)@) == error_views(old(errors)@) + err(field@, message@),
{
    errors.push(ValidationError::new(field, message));
    assert(error_views(errors@) =~= error_views(old(errors)@) + err(field@, message@));
}

fn validate_name(spec: &WorkerSpec, errors: &mut Vec<ValidationError>)
    ensures
        error_views(final(errors)@) == error_views(old(errors)@) + name_errors(*spec),
{
    if is_blank_exec(spec.name.as_str()) {
        push_error(errors, "name", "name must not be empty or whitespace-only".to_owned());
    } else {
        assert(error_views(errors@) =~= error_views(old(errors)@) + none());
    }
}

fn validate_agent_graph(spec: &WorkerSpec, errors: &mut Vec<ValidationError>)
    ensures
        error_views(final(errors)@) == error_views(old(errors)@) + agent_graph_errors(*spec),
{
    if spec.kind != AgentKind::AgentGraph {
        assert(error_views(errors@) =~= error_views(old(errors)@) + none());
        return;
    }
    let agent_graph = match &spec.agent_graph {
        Some(g) => g,
        None => {
            push_error(
                errors,
                "agent_graph.specialists",
                "agent_graph kind requires an agent_graph block with at least 2 specialists".to_owned(),
            );
            return;
        },
    };
    let n = agent_graph.specialists.len();
    if n < 2 {
        let found = decimal_string(n as u64);
        push_error(
            errors,
            "agent_graph.specialists",
            concat("agent_graph requires at least 2 specialists, found ", found.as_str()),
        );
    } else {
        assert(error_views(errors@) =~= error_views(old(errors)@) + none());
    }
    let ghost base = error_views(errors@);
    let ghost names = specialist_names(agent_graph.specialists@);
    let mut i: usize = 0;
    while i < n
        invariant
            0 <= i <= n,
            n == agent_graph.specialists@.len(),
            names == specialist_names(agent_graph.specialists@),
            error_views(errors@) == base + duplicate_errors(names.take(i as int)),
        decreases n - i,
    {
        let name = &agent_graph.specialists[i].name;
        let mut seen = false;
        let mut j: usize = 0;
        while j < i
            invariant
                0 <= j <= i < n,
                n == agent_graph.specialists@.len(),
                names == specialist_names(agent_graph.specialists@),
                *name == agent_graph.specialists@[i as int].name,
                seen == names.take(j as int).contains(names[i as int]),
            decreases i - j,
        {
            if agent_graph.specialists[j].name == *name {
                assert(names.take(j + 1)[j as int] == names[i as int]);
                seen = true;
            } else {
                assert(names.take(j + 1) =~= names.take(j as int).push(names[j as int]));
            }
            if seen {
                assert(names.take(j + 1).contains(names[i as int])) by {
                    if !(names.take(j as int).contains(names[i as int])) {
                        assert(names.take(j + 1)[j as int] == names[i as int]);
                    } else {
                        let k = choose|k: int| 0 <= k < j && names.take(j as int)[k] == names[i as int];
                        assert(names.take(j + 1)[k] == names[i as int]);
                    }
                }
            }
            j = j + 1;
        }
        let ghost t = names.take(i + 1);
        assert(t.drop_last() =~= names.take(i as int));
        assert(t.last() == names[i as int]);
        if seen {
            push_error(errors, "agent_graph.specialists", concat("duplicate specialist name: ", name.as_str()));
        } else {
            assert(error_views(errors@) =~= base + duplicate_errors(names.take(i as int)) + none());
        }
        assert(duplicate_errors(t) == duplicate_errors(names.take(i as int)) + if names.take(i as int).contains(names[i as int]) {
            err("agent_graph.specialists"@, "duplicate specialist name: "@ + names[i as int])
        } else {
            none()
        });
        assert(error_views(errors@) =~= base + duplicate_errors(t));
        i = i + 1;
    }
    assert(names.take(n as int) =~= names);
    assert(error_views(errors@) =~= error_views(old(errors)@) + agent_graph_errors(*spec));
}

fn validate_deep_worker(spec: &WorkerSpec, errors: &mut Vec<ValidationError>)
    ensures
        error_views(final(errors)@) == error_views(old(errors)@) + deep_worker_errors(*spec),
{
    if spec.kind != AgentKind::DeepWorker {
        assert(error_views(errors@) =~= error_views(old(errors)@) + none());
        return;
    }
    match &spec.deep_worker {
        None => {
            assert(error_views(errors@) =~= error_views(old(errors)@) + none());
        },
        Some(deep_worker) => {
            if !(1 <= deep_worker.iteration_budget && deep_worker.iteration_budget <= 100) {
                let found = decimal_string(deep_worker.iteration_budget as u64);
                push_error(
                    errors,
                    "deep_worker.iteration_budget",
                    concat("iteration_budget must be between 1 and 100, found ", found.as_str()),
                );
            } else {
                assert(error_views(errors@) =~= error_views(old(errors)@) + none());
            }
        },
    }
}

fn validate_kind_block_agreement(spec: &WorkerSpec, errors: &mut Vec<ValidationError>)
    ensures
        error_views(final(errors)@) == error_views(old(errors)@) + kind_errors(*spec),
{
    let ghost e0 = error_views(errors@);
    match spec.kind {
        AgentKind::SingleTurn => {
            if spec.agent_graph.is_some() {
                push_error(errors, "kind", "kind is single_turn but an agent_graph block is set".to_owned());
            } else {
                assert(error_views(errors@) =~= e0 + none());
            }
            let ghost e1 = error_views(errors@);
            if spec.deep_worker.is_some() {
                push_error(errors, "kind", "kind is single_turn but a deep_worker block is set".to_owned());
            } else {
                assert(error_views(errors@) =~= e1 + none());
            }
        },
        AgentKind::AgentGraph => {
            if spec.deep_worker.is_some() {
                push_error(errors, "kind", "kind is agent_graph but a deep_worker block is set".to_owned());
            } else {
                assert(error_views(errors@) =~= e0 + none());
            }
        },
        AgentKind::DeepWorker => {
            if spec.agent_graph.is_some() {
                push_error(errors, "kind", "kind is deep_worker but an agent_graph block is set".to_owned());
            } else {
                assert(error_views(errors@) =~= e0 + none());
            }
        },
    }
    assert(error_views(errors@) =~= e0 + kind_errors(*spec));
}

/// Some error is reported under the field `kind`.
pub open spec fn has_kind_error(errs: Seq<(Seq<char>, Seq<char>)>) -> bool {
    exists|i: int| 0 <= i < errs.len() && (#[trigger] errs[i]).0 == "kind"@
}

/// The kind and the blocks set disagree: a single-turn worker with either
/// block, an agent-graph worker with a deep-worker block, or a deep worker
/// with an agent-graph block.
pub open spec fn kind_mismatch(spec: WorkerSpec) -> bool {
    ||| spec.kind == AgentKind::SingleTurn && (spec.agent_graph is Some || spec.deep_worker is Some)
    ||| spec.kind == AgentKind::AgentGraph && spec.deep_worker is Some
    ||| spec.kind == AgentKind::DeepWorker && spec.agent_graph is Some
}

/// Every duplicate-name error is reported under `agent_graph.specialists`.
proof fn lemma_duplicate_fields(names: Seq<Seq<char>>)
    ensures
        forall|i: int| 0 <= i < duplicate_errors(names).len() ==> (#[trigger] duplicate_errors(names)[i]).0
            == "agent_graph.specialists"@,
    decreases names.len(),
{
    if names.len() > 0 {
        let prev = names.drop_last();
        lemma_duplicate_fields(prev);
        let d0 = duplicate_errors(prev);
        let tail = if prev.contains(names.last()) {
            err("agent_graph.specialists"@, "duplicate specialist name: "@ + names.last())
        } else {
            none()
        };
        assert forall|i: int| 0 <= i < duplicate_errors(names).len() implies (#[trigger] duplicate_errors(names)[i]).0
            == "agent_graph.specialists"@ by {
            if i < d0.len() {
                assert(duplicate_errors(names)[i] == d0[i]);
            } else {
                assert(duplicate_errors(names)[i] == tail[i - d0.len()]);
            }
        }
    }
}

/// The kind rule is the only one that reports under `kind`: validation
/// reports an error under `kind` exactly when the kind and the blocks set
/// disagree.
pub proof fn lemma_kind_error_iff_mismatch(spec: WorkerSpec)
    ensures
        has_kind_error(validation_errors(spec)) <==> kind_mismatch(spec),
{
    reveal_strlit("kind");
    reveal_strlit("name");
    reveal_strlit("agent_graph.specialists");
    reveal_strlit("deep_worker.iteration_budget");
    let a = name_errors(spec);
    let b = agent_graph_errors(spec);
    let c = deep_worker_errors(spec);
    let k = kind_errors(spec);
    let all = validation_errors(spec);
    assert(all == a + b + c + k);
    assert("name"@ != "kind"@) by {
        assert("name"@[0] != "kind"@[0]);
    }
    assert("agent_graph.specialists"@ != "kind"@) by {
        assert("agent_graph.specialists"@.len() != "kind"@.len());
    }
    assert("deep_worker.iteration_budget"@ != "kind"@) by {
        assert("deep_worker.iteration_budget"@.len() != "kind"@.len());
    }
    assert(forall|i: int| 0 <= i < a.len() ==> (#[trigger] a[i]).0 == "name"@);
    if spec.kind == AgentKind::AgentGraph && spec.agent_graph is Some {
        let g = spec.agent_graph->0;
        let n = g.specialists@.len();
        let head = if n < 2 {
            err("agent_graph.specialists"@, "agent_graph requires at least 2 specialists, found "@ + decimal(n))
        } else {
            none()
        };
        let dups = duplicate_errors(specialist_names(g.specialists@));
        lemma_duplicate_fields(specialist_names(g.specialists@));
        assert(b == head + dups);
        assert forall|i: int| 0 <= i < b.len() implies (#[trigger] b[i]).0 == "agent_graph.specialists"@ by {
            if i < head.len() {
                assert(b[i] == head[i]);
            } else {
                assert(b[i] == dups[i - head.len()]);
            }
        }
    }
    assert(forall|i: int| 0 <= i < b.len() ==> (#[trigger] b[i]).0 == "agent_graph.specialists"@);
    assert(forall|i: int| 0 <= i < c.len() ==> (#[trigger] c[i]).0 == "deep_worker.iteration_budget"@);
    assert(forall|i: int| 0 <= i < k.len() ==> (#[trigger] k[i]).0 == "kind"@);
    let pre = a + b + c;
    assert forall|i: int| 0 <= i < pre.len() implies (#[trigger] pre[i]).0 != "kind"@ by {
        if i < a.len() {
            assert(pre[i] == a[i]);
        } else if i < a.len() + b.len() {
            assert(pre[i] == b[i - a.len()]);
        } else {
            assert(pre[i] == c[i - a.len() - b.len()]);
        }
    }
    if has_kind_error(all) {
        let i = choose|i: int| 0 <= i < all.len() && (#[trigger] all[i]).0 == "kind"@;
        if i < pre.len() {
            assert(all[i] == pre[i]);
        } else {
            assert(all[i] == k[i - pre.len()]);
            assert(k.len() > 0);
        }
    }
    if kind_mismatch(spec) {
        assert(k.len() > 0);
        assert(all[pre.len() as int] == k[0]);
    }
}

/// Validate a `WorkerSpec`, collecting every violation rather than stopping
/// at the first. Returns `Ok(())` when the spec is valid.
pub fn validate(spec: &WorkerSpec) -> (r: Result<(), Vec<ValidationError>>)
    ensures
        r is Ok <==> is_valid_spec(*spec),
        r is Ok <==> validation_errors(*spec).len() == 0,
        r matches Err(errors) ==> error_views(errors@) == validation_errors(*spec),
{
    let mut errors: Vec<ValidationError> = Vec::new();
    assert(error_views(errors@) =~= none());
    validate_name(spec, &mut errors);
    validate_agent_graph(spec, &mut errors);
    validate_deep_worker(spec, &mut errors);
    validate_kind_block_agreement(spec, &mut errors);
    proof {
        lemma_validation_errors_empty(*spec);
        assert(error_views(errors@) =~= validation_errors(*spec));
    }
    if errors.len() == 0 {
        Ok(())
    } else {
        Err(errors)
    }
}

} // verus!
