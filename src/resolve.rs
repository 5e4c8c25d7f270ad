//! The two modes of resolution.
//!
//! Export pairs each variable name with the path of its content under a
//! base directory, for the contents found there, and emits one metadata
//! directive per pair. Import takes the values that the build tool relayed,
//! in declared order, and stops at the first one that could not be read.

use crate::assoc::{pairs_view, ResolvedEnvironment};
use crate::error::{is_bad_key, IgnitionError, VarFault};
use crate::schema::{binding_pairs, AssetEnvironment, Binding};
use vstd::prelude::*;
use vstd::string::*;

verus! {

/// Start of each metadata directive written for the build tool.
pub const METADATA_DIRECTIVE: &'static str = "cargo::metadata=";

/// Prefix under which the build tool hands an exported variable on to the
/// dependent build phases.
pub const INBOUND_PREFIX: &'static str = "DEP_IGNITION_SYS_";

/// The path of `content` under the directory `base`, as a string.
pub uninterp spec fn joined_path(base: Seq<char>, content: Seq<char>) -> Seq<char>;

/// Relies on `std::path::Path::join` and `Path::to_string_lossy`: the path
/// of `content` under `base` depends on the two strings alone.
#[verifier::external_body]
fn join_path(base: &str, content: &str) -> (r: String)
    ensures
        r@ == joined_path(base@, content@),
{
    std::path::Path::new(base).join(content).to_string_lossy().into_owned()
}

/// The directive that publishes `path` under the variable `variable`.
pub open spec fn directive_line(variable: Seq<char>, path: Seq<char>) -> Seq<char> {
    METADATA_DIRECTIVE@ + variable + "="@ + path
}

/// The name under which a dependent phase receives `variable`.
pub open spec fn inbound_of(variable: Seq<char>) -> Seq<char> {
    INBOUND_PREFIX@ + variable
}

/// Each binding (content identifier, variable name) with whether its
/// content was found.
pub open spec fn observed(
    b: Seq<(Seq<char>, Seq<char>)>,
    present: Seq<bool>,
) -> Seq<(Seq<char>, Seq<char>, bool)> {
    Seq::new(b.len(), |i: int| (b[i].0, b[i].1, present[i]))
}

/// The assignments of Export mode, in order: one (variable name, path)
/// pair for each content that was found, none for the others.
pub open spec fn export_entries(
    base: Seq<char>,
    t: Seq<(Seq<char>, Seq<char>, bool)>,
) -> Seq<(Seq<char>, Seq<char>)>
    decreases t.len(),
{
    if t.len() == 0 {
        Seq::empty()
    } else {
        let rest = export_entries(base, t.drop_last());
        if t.last().2 {
            rest.push((t.last().1, joined_path(base, t.last().0)))
        } else {
            rest
        }
    }
}

/// The content identifiers that Export mode skips, in order: those whose
/// content was not found.
pub open spec fn skipped_of(t: Seq<(Seq<char>, Seq<char>, bool)>) -> Seq<Seq<char>>
    decreases t.len(),
{
    if t.len() == 0 {
        Seq::empty()
    } else if t.last().2 {
        skipped_of(t.drop_last())
    } else {
        skipped_of(t.drop_last()).push(t.last().0)
    }
}

/// The directive lines written for the assignments `e`, in order.
pub open spec fn directives_of(e: Seq<(Seq<char>, Seq<char>)>) -> Seq<Seq<char>> {
    e.map_values(|p: (Seq<char>, Seq<char>)| directive_line(p.0, p.1))
}

/// What Export mode applies and emits.
pub struct ExportOutcome {
    /// Variable name to path, for the contents that were found.
    pub environment: ResolvedEnvironment,
    /// The metadata directive lines, one per entry of `environment`.
    pub directives: Vec<String>,
    /// The content identifiers that were not found, in order.
    pub skipped: Vec<String>,
    /// The failure that ended the iteration: a content identifier without
    /// a variable name.
    pub error: Option<IgnitionError>,
}

/// What Import mode applies, and why it stopped early, if it did.
pub struct ImportOutcome {
    /// The variables to set, in order: those read before any failure.
    pub applied: ResolvedEnvironment,
    /// The failure that ended the iteration.
    pub error: Option<IgnitionError>,
}

/// The metadata directive that publishes `path` under `variable`.
pub fn directive(variable: &str, path: &str) -> (r: String)
    ensures
        r@ == directive_line(variable@, path@),
{
    String::from_str(METADATA_DIRECTIVE).concat(variable).concat("=").concat(path)
}

/// Export mode: `present[i]` tells whether the content of `bindings[i]`
/// was found under `base`. Each found content gives, in order, one
/// assignment of its path to its variable name and one directive; a
/// missing one gives neither and is no error: it is listed in `skipped`.
pub fn export_environment(base: &str, bindings: &Vec<Binding>, present: &Vec<bool>) -> (r: ExportOutcome)
    requires
        bindings@.len() == present@.len(),
    ensures
        pairs_view(r.environment.entries@) == export_entries(
            base@,
            observed(binding_pairs(bindings@), present@),
        ),
        r.directives@.map_values(|d: String| d@) == directives_of(pairs_view(r.environment.entries@)),
        r.skipped@.map_values(|c: String| c@) == skipped_of(observed(binding_pairs(bindings@), present@)),
        r.error is None,
{
    let ghost t = observed(binding_pairs(bindings@), present@);
    let mut environment = ResolvedEnvironment::new();
    let mut directives: Vec<String> = Vec::new();
    let mut skipped: Vec<String> = Vec::new();
    let mut i: usize = 0;
    while i < bindings.len()
        invariant
            i <= bindings@.len(),
            bindings@.len() == present@.len(),
            t == observed(binding_pairs(bindings@), present@),
            pairs_view(environment.entries@) == export_entries(base@, t.subrange(0, i as int)),
            directives@.map_values(|d: String| d@) == directives_of(pairs_view(environment.entries@)),
            skipped@.map_values(|c: String| c@) == skipped_of(t.subrange(0, i as int)),
        decreases bindings@.len() - i,
    {
        let ghost before = environment.entries@;
        let ghost lines = directives@;
        let ghost missing = skipped@;
        assert(t.subrange(0, i + 1).drop_last() =~= t.subrange(0, i as int));
        assert(t.subrange(0, i + 1).last() == t[i as int]);
        assert(t[i as int].2 == present@[i as int]);
        assert(t[i as int].0 == bindings@[i as int].content@);
        if present[i] {
            let path = join_path(base, bindings[i].content.as_str());
            let line = directive(bindings[i].variable.as_str(), path.as_str());
            environment.insert(bindings[i].variable.clone(), path);
            directives.push(line);
            proof {
                let x = (bindings@[i as int].variable@, joined_path(base@, bindings@[i as int].content@));
                assert(pairs_view(environment.entries@) =~= pairs_view(before).push(x));
                assert(directives@.map_values(|d: String| d@) =~= lines.map_values(|d: String| d@).push(
                    directive_line(x.0, x.1),
                ));
                assert(directives_of(pairs_view(before).push(x)) =~= directives_of(
                    pairs_view(before),
                ).push(directive_line(x.0, x.1)));
                assert(directives@.map_values(|d: String| d@) =~= directives_of(
                    pairs_view(environment.entries@),
                ));
            }
        } else {
            skipped.push(bindings[i].content.clone());
            assert(skipped@.map_values(|c: String| c@) =~= missing.map_values(|c: String| c@).push(
                bindings@[i as int].content@,
            ));
        }
        i = i + 1;
    }
    assert(t.subrange(0, i as int) =~= t);
    ExportOutcome { environment, directives, skipped, error: None }
}

/// The name of the inbound variable that carries `variable`.
pub fn inbound_name(variable: &str) -> (r: String)
    ensures
        r@ == inbound_of(variable@),
{
    String::from_str(INBOUND_PREFIX).concat(variable)
}

/// Import mode: `values[i]` is what reading the inbound variable of
/// `bindings[i]` gave. The values are applied in order up to the first
/// that could not be read, which ends the iteration with
/// `EnvironmentVariableError`; what was applied before it stays applied.
/// Fewer values than bindings means that reading stopped at a failure,
/// the last value.
pub fn import_environment(bindings: &Vec<Binding>, values: &Vec<Result<String, VarFault>>) -> (r: ImportOutcome)
    requires
        values@.len() <= bindings@.len(),
        values@.len() < bindings@.len() ==> values@.len() > 0 && values@.last() is Err,
    ensures
        r.error is None <==> r.applied.entries@.len() == bindings@.len(),
        r.applied.entries@.len() <= values@.len(),
        forall|i: int|
            0 <= i < r.applied.entries@.len() ==> {
                &&& #[trigger] values@[i] is Ok
                &&& r.applied.entries@[i].0@ == bindings@[i].variable@
                &&& r.applied.entries@[i].1@ == values@[i]->Ok_0@
            },
        r.error is None <==> r.applied.entries@.len() == values@.len(),
        r.applied.entries@.len() < values@.len() ==> {
            let k = r.applied.entries@.len() as int;
            &&& values@[k] is Err
            &&& r.error == Some(IgnitionError::EnvironmentVariableError(values@[k]->Err_0))
        },
{
    let mut applied = ResolvedEnvironment::new();
    let mut i: usize = 0;
    while i < values.len()
        invariant
            i <= values@.len(),
            values@.len() <= bindings@.len(),
            values@.len() < bindings@.len() ==> values@.len() > 0 && values@.last() is Err,
            applied.entries@.len() == i,
            forall|j: int|
                0 <= j < i ==> {
                    &&& #[trigger] values@[j] is Ok
                    &&& applied.entries@[j].0@ == bindings@[j].variable@
                    &&& applied.entries@[j].1@ == values@[j]->Ok_0@
                },
        decreases values@.len() - i,
    {
        match &values[i] {
            Ok(v) => {
                applied.insert(bindings[i].variable.clone(), v.clone());
            },
            Err(f) => {
                return ImportOutcome {
                    applied,
                    error: Some(IgnitionError::EnvironmentVariableError(*f)),
                };
            },
        }
        i = i + 1;
    }
    ImportOutcome { applied, error: None }
}

impl AssetEnvironment {
    /// Export mode over this asset: `present[i]` tells whether the content
    /// of the `i`-th content identifier was found under `base`, for each
    /// identifier before the first one without a variable name. Those are
    /// resolved as `export_environment` does; the first identifier without
    /// a variable name, if any, then ends the iteration with
    /// `BadHashMapKeyError`, after what was emitted before it.
    pub fn export(&self, base: &str, present: &Vec<bool>) -> (r: ExportOutcome)
        requires
            present@.len() == self.mapped_len(),
        ensures
            pairs_view(r.environment.entries@) == export_entries(base@, observed(self.mapped_pairs(), present@)),
            r.directives@.map_values(|d: String| d@) == directives_of(pairs_view(r.environment.entries@)),
            r.skipped@.map_values(|c: String| c@) == skipped_of(observed(self.mapped_pairs(), present@)),
            r.error is None <==> self.fully_mapped(),
            r.error matches Some(e) ==> is_bad_key(e, self.contents@[self.mapped_len() as int]@),
    {
        let plan = self.plan();
        proof {
            self.lemma_plan_pairs(plan.bindings@);
        }
        let out = export_environment(base, &plan.bindings, present);
        ExportOutcome {
            environment: out.environment,
            directives: out.directives,
            skipped: out.skipped,
            error: plan.unmapped,
        }
    }

    /// Import mode over this asset: `values[i]` is what reading the inbound
    /// variable of the `i`-th content identifier gave. The content
    /// identifiers are processed in declared order; the first one without a
    /// variable name, or whose value could not be read, ends the iteration
    /// with `BadHashMapKeyError` or `EnvironmentVariableError`, and what was
    /// applied before it stays applied. The caller reads values in order up
    /// to the first failure, and at most for the first `mapped_len()`
    /// identifiers.
    pub fn import(&self, values: &Vec<Result<String, VarFault>>) -> (r: ImportOutcome)
        requires
            values@.len() <= self.mapped_len(),
            values@.len() < self.mapped_len() ==> values@.len() > 0 && values@.last() is Err,
        ensures
            r.applied.entries@.len() <= values@.len(),
            forall|i: int|
                0 <= i < r.applied.entries@.len() ==> {
                    &&& #[trigger] values@[i] is Ok
                    &&& self.mapped_at(i)
                    &&& r.applied.entries@[i].0@ == self.variables()[self.contents@[i]@]
                    &&& r.applied.entries@[i].1@ == values@[i]->Ok_0@
                },
            r.error is None <==> r.applied.entries@.len() == self.contents@.len(),
            r.applied.entries@.len() < values@.len() ==> {
                let k = r.applied.entries@.len() as int;
                &&& values@[k] is Err
                &&& r.error == Some(IgnitionError::EnvironmentVariableError(values@[k]->Err_0))
            },
            r.applied.entries@.len() == values@.len() && values@.len() < self.contents@.len() ==> {
                let k = values@.len() as int;
                &&& !self.mapped_at(k)
                &&& r.error matches Some(e)
                &&& is_bad_key(e, self.contents@[k]@)
            },
    {
        let plan = self.plan();
        proof {
            self.lemma_plan_pairs(plan.bindings@);
            self.lemma_mapped_run();
        }
        let out = import_environment(&plan.bindings, values);
        proof {
            assert forall|i: int| 0 <= i < out.applied.entries@.len() implies {
                &&& #[trigger] values@[i] is Ok
                &&& self.mapped_at(i)
                &&& out.applied.entries@[i].0@ == self.variables()[self.contents@[i]@]
                &&& out.applied.entries@[i].1@ == values@[i]->Ok_0@
            } by {
                assert(values@[i] is Ok);
                assert(binding_pairs(plan.bindings@)[i] == plan.bindings@[i].pair());
                assert(self.mapped_pairs()[i] == binding_pairs(plan.bindings@)[i]);
            }
        }
        if out.error.is_none() {
            proof {
                if values@.len() < plan.bindings@.len() {
                    assert(values@[values@.len() - 1] is Ok);
                }
            }
            ImportOutcome { applied: out.applied, error: plan.unmapped }
        } else {
            out
        }
    }

    proof fn lemma_plan_pairs(self, b: Seq<Binding>)
        requires
            b.len() == self.mapped_len(),
            self.bound_by(binding_pairs(b)),
        ensures
            binding_pairs(b) == self.mapped_pairs(),
    {
        assert(binding_pairs(b) =~= self.mapped_pairs());
    }
}

} // verus!
