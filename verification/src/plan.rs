//! The build-plan model: reading a plan document into typed invocations.
//!
//! A plan is a JSON object holding an `invocations` array; every invocation
//! carries its command-line arguments, its working directory, and the two
//! environment values that identify the package it compiles.  The reading is
//! strict: a missing field or a field of the wrong type is a distinct,
//! reportable failure, never a defaulted value.

use vstd::prelude::*;

use crate::json::{obj_get, obj_lookup, json_decode, json_of, Json};

verus! {

/// The mathematical value of one planned invocation.
pub struct InvocationModel {
    pub args: Seq<Seq<char>>,
    pub cwd: Seq<char>,
    pub pkg_name: Seq<char>,
    pub pkg_version: Seq<char>,
}

/// One planned compilation step.
#[derive(Debug)]
pub struct Invocation {
    /// The command-line arguments the step would run with; may be empty for
    /// a step with no actual compiler invocation.
    pub args: Vec<String>,
    /// The absolute working directory of the step.
    pub cwd: String,
    /// The name of the package the step belongs to.
    pub pkg_name: String,
    /// The version text of the package the step belongs to.
    pub pkg_version: String,
}

impl View for Invocation {
    type V = InvocationModel;

    open spec fn view(&self) -> InvocationModel {
        InvocationModel {
            args: self.args.deep_view(),
            cwd: self.cwd@,
            pkg_name: self.pkg_name@,
            pkg_version: self.pkg_version@,
        }
    }
}

impl DeepView for Invocation {
    type V = InvocationModel;

    open spec fn deep_view(&self) -> InvocationModel {
        self.view()
    }
}

/// A full planned build: the ordered invocations.
#[derive(Debug)]
pub struct BuildPlan {
    pub invocations: Vec<Invocation>,
}

impl View for BuildPlan {
    type V = Seq<InvocationModel>;

    open spec fn view(&self) -> Seq<InvocationModel> {
        self.invocations.deep_view()
    }
}

/// The part of a plan document a reading failure points at.
#[derive(Debug, Clone, Copy, PartialEq, Eq, Structural)]
pub enum PlanField {
    Root,
    Invocations,
    Invocation,
    Args,
    Arg,
    Cwd,
    Env,
    Name,
    Version,
}

/// Why a plan document was rejected.
#[derive(Debug, Clone, Copy, PartialEq, Eq, Structural)]
pub enum PlanError {
    /// The text is not well-formed JSON.
    Syntax,
    /// A required field is absent.
    Missing(PlanField),
    /// A field holds a value of the wrong type.
    WrongType(PlanField),
}

/// The argument list an `args` array reads to: every element must be a
/// string.
pub open spec fn spec_args_of(elems: Seq<Json>) -> Result<Seq<Seq<char>>, PlanError>
    decreases elems.len(),
{
    if elems.len() == 0 {
        Result::Ok(Seq::empty())
    } else {
        match spec_args_of(elems.drop_last()) {
            Result::Err(e) => Result::Err(e),
            Result::Ok(init) => match elems.last() {
                Json::Str(s) => Result::Ok(init.push(s@)),
                _ => Result::Err(PlanError::WrongType(PlanField::Arg)),
            },
        }
    }
}

/// The invocation a JSON value reads to: an object with a string array
/// `args`, a string `cwd`, and an `env` object holding the two
/// package-identifying values.
pub open spec fn spec_invocation_of(j: Json) -> Result<InvocationModel, PlanError> {
    match j {
        Json::Obj(fields) => match obj_lookup(fields@, "args"@) {
            Option::None => Result::Err(PlanError::Missing(PlanField::Args)),
            Option::Some(aj) => match aj {
                Json::Arr(elems) => match spec_args_of(elems@) {
                    Result::Err(e) => Result::Err(e),
                    Result::Ok(args) => match obj_lookup(fields@, "cwd"@) {
                        Option::None => Result::Err(PlanError::Missing(PlanField::Cwd)),
                        Option::Some(cj) => match cj {
                            Json::Str(cwd) => match obj_lookup(fields@, "env"@) {
                                Option::None => Result::Err(PlanError::Missing(PlanField::Env)),
                                Option::Some(ej) => match ej {
                                    Json::Obj(efields) => match obj_lookup(
                                        efields@,
                                        "CARGO_PKG_NAME"@,
                                    ) {
                                        Option::None => Result::Err(
                                            PlanError::Missing(PlanField::Name),
                                        ),
                                        Option::Some(nj) => match nj {
                                            Json::Str(name) => match obj_lookup(
                                                efields@,
                                                "CARGO_PKG_VERSION"@,
                                            ) {
                                                Option::None => Result::Err(
                                                    PlanError::Missing(PlanField::Version),
                                                ),
                                                Option::Some(vj) => match vj {
                                                    Json::Str(ver) => Result::Ok(
                                                        InvocationModel {
                                                            args,
                                                            cwd: cwd@,
                                                            pkg_name: name@,
                                                            pkg_version: ver@,
                                                        },
                                                    ),
                                                    _ => Result::Err(
                                                        PlanError::WrongType(PlanField::Version),
                                                    ),
                                                },
                                            },
                                            _ => Result::Err(
                                                PlanError::WrongType(PlanField::Name),
                                            ),
                                        },
                                    },
                                    _ => Result::Err(PlanError::WrongType(PlanField::Env)),
                                },
                            },
                            _ => Result::Err(PlanError::WrongType(PlanField::Cwd)),
                        },
                    },
                },
                _ => Result::Err(PlanError::WrongType(PlanField::Args)),
            },
        },
        _ => Result::Err(PlanError::WrongType(PlanField::Invocation)),
    }
}

/// The invocation list an `invocations` array reads to.
pub open spec fn spec_invocations_of(elems: Seq<Json>) -> Result<Seq<InvocationModel>, PlanError>
    decreases elems.len(),
{
    if elems.len() == 0 {
        Result::Ok(Seq::empty())
    } else {
        match spec_invocations_of(elems.drop_last()) {
            Result::Err(e) => Result::Err(e),
            Result::Ok(init) => match spec_invocation_of(elems.last()) {
                Result::Err(e) => Result::Err(e),
                Result::Ok(m) => Result::Ok(init.push(m)),
            },
        }
    }
}

/// The plan a JSON document reads to.
pub open spec fn spec_plan_of_json(j: Json) -> Result<Seq<InvocationModel>, PlanError> {
    match j {
        Json::Obj(fields) => match obj_lookup(fields@, "invocations"@) {
            Option::None => Result::Err(PlanError::Missing(PlanField::Invocations)),
            Option::Some(ij) => match ij {
                Json::Arr(elems) => spec_invocations_of(elems@),
                _ => Result::Err(PlanError::WrongType(PlanField::Invocations)),
            },
        },
        _ => Result::Err(PlanError::WrongType(PlanField::Root)),
    }
}

proof fn lemma_args_err_prefix(elems: Seq<Json>, k: int)
    requires
        0 <= k <= elems.len(),
        spec_args_of(elems.take(k)) is Err,
    ensures
        spec_args_of(elems) == spec_args_of(elems.take(k)),
    decreases elems.len(),
{
    if k == elems.len() {
        assert(elems.take(k) =~= elems);
    } else {
        assert(elems.drop_last().take(k) =~= elems.take(k));
        lemma_args_err_prefix(elems.drop_last(), k);
    }
}

proof fn lemma_invs_err_prefix(elems: Seq<Json>, k: int)
    requires
        0 <= k <= elems.len(),
        spec_invocations_of(elems.take(k)) is Err,
    ensures
        spec_invocations_of(elems) == spec_invocations_of(elems.take(k)),
    decreases elems.len(),
{
    if k == elems.len() {
        assert(elems.take(k) =~= elems);
    } else {
        assert(elems.drop_last().take(k) =~= elems.take(k));
        lemma_invs_err_prefix(elems.drop_last(), k);
    }
}

/// Read an `args` array: every element must be a string.
fn args_of_json(elems: &Vec<Json>) -> (r: Result<Vec<String>, PlanError>)
    ensures
        match r {
            Result::Ok(v) => spec_args_of(elems@) == Result::<_, PlanError>::Ok(v.deep_view()),
            Result::Err(e) => spec_args_of(elems@) == Result::<Seq<Seq<char>>, _>::Err(e),
        },
{
    let mut out: Vec<String> = Vec::new();
    let mut i: usize = 0;
    proof {
        assert(elems@.take(0) =~= Seq::<Json>::empty());
        assert(out.deep_view() =~= Seq::<Seq<char>>::empty());
    }
    loop
        invariant
            0 <= i <= elems.len(),
            spec_args_of(elems@.take(i as int)) == Result::<_, PlanError>::Ok(out.deep_view()),
        decreases elems.len() - i,
    {
        if i == elems.len() {
            proof {
                assert(elems@.take(i as int) =~= elems@);
            }
            return Result::Ok(out);
        }
        proof {
            assert(elems@.take(i + 1).drop_last() =~= elems@.take(i as int));
            assert(elems@.take(i + 1).last() == elems@[i as int]);
        }
        match &elems[i] {
            Json::Str(s) => {
                out.push(s.clone());
                proof {
                    assert(out.deep_view() =~= spec_args_of(
                        elems@.take(i + 1),
                    )->Ok_0);
                }
            },
            _ => {
                proof {
                    lemma_args_err_prefix(elems@, i + 1);
                }
                return Result::Err(PlanError::WrongType(PlanField::Arg));
            },
        }
        i = i + 1;
    }
}

/// Read one invocation out of a JSON value.
fn invocation_of_json(j: &Json) -> (r: Result<Invocation, PlanError>)
    ensures
        match r {
            Result::Ok(inv) => spec_invocation_of(*j) == Result::<_, PlanError>::Ok(inv@),
            Result::Err(e) => spec_invocation_of(*j) == Result::<InvocationModel, _>::Err(e),
        },
{
    match j {
        Json::Obj(fields) => {
            let args_key = String::from_str("args");
            let args = match obj_get(fields, &args_key) {
                Option::None => {
                    return Result::Err(PlanError::Missing(PlanField::Args));
                },
                Option::Some(aj) => match aj {
                    Json::Arr(elems) => match args_of_json(elems) {
                        Result::Ok(a) => a,
                        Result::Err(e) => {
                            return Result::Err(e);
                        },
                    },
                    _ => {
                        return Result::Err(PlanError::WrongType(PlanField::Args));
                    },
                },
            };
            let cwd_key = String::from_str("cwd");
            let cwd = match obj_get(fields, &cwd_key) {
                Option::None => {
                    return Result::Err(PlanError::Missing(PlanField::Cwd));
                },
                Option::Some(cj) => match cj {
                    Json::Str(s) => s.clone(),
                    _ => {
                        return Result::Err(PlanError::WrongType(PlanField::Cwd));
                    },
                },
            };
            let env_key = String::from_str("env");
            let efields = match obj_get(fields, &env_key) {
                Option::None => {
                    return Result::Err(PlanError::Missing(PlanField::Env));
                },
                Option::Some(ej) => match ej {
                    Json::Obj(efields) => efields,
                    _ => {
                        return Result::Err(PlanError::WrongType(PlanField::Env));
                    },
                },
            };
            let name_key = String::from_str("CARGO_PKG_NAME");
            let pkg_name = match obj_get(efields, &name_key) {
                Option::None => {
                    return Result::Err(PlanError::Missing(PlanField::Name));
                },
                Option::Some(nj) => match nj {
                    Json::Str(s) => s.clone(),
                    _ => {
                        return Result::Err(PlanError::WrongType(PlanField::Name));
                    },
                },
            };
            let version_key = String::from_str("CARGO_PKG_VERSION");
            let pkg_version = match obj_get(efields, &version_key) {
                Option::None => {
                    return Result::Err(PlanError::Missing(PlanField::Version));
                },
                Option::Some(vj) => match vj {
                    Json::Str(s) => s.clone(),
                    _ => {
                        return Result::Err(PlanError::WrongType(PlanField::Version));
                    },
                },
            };
            Result::Ok(Invocation { args, cwd, pkg_name, pkg_version })
        },
        _ => Result::Err(PlanError::WrongType(PlanField::Invocation)),
    }
}

/// Read a whole plan out of a JSON document.
pub fn plan_of_json(j: &Json) -> (r: Result<BuildPlan, PlanError>)
    ensures
        match r {
            Result::Ok(p) => spec_plan_of_json(*j) == Result::<_, PlanError>::Ok(p@),
            Result::Err(e) => spec_plan_of_json(*j) == Result::<Seq<InvocationModel>, _>::Err(e),
        },
{
    match j {
        Json::Obj(fields) => {
            let invocations_key = String::from_str("invocations");
            match obj_get(fields, &invocations_key) {
                Option::None => Result::Err(PlanError::Missing(PlanField::Invocations)),
                Option::Some(ij) => match ij {
                    Json::Arr(elems) => {
                        let mut out: Vec<Invocation> = Vec::new();
                        let mut i: usize = 0;
                        proof {
                            assert(elems@.take(0) =~= Seq::<Json>::empty());
                            assert(out.deep_view() =~= Seq::<InvocationModel>::empty());
                        }
                        loop
                            invariant
                                0 <= i <= elems.len(),
                                spec_plan_of_json(*j) == spec_invocations_of(elems@),
                                spec_invocations_of(elems@.take(i as int)) == Result::<
                                    _,
                                    PlanError,
                                >::Ok(out.deep_view()),
                            decreases elems.len() - i,
                        {
                            if i == elems.len() {
                                proof {
                                    assert(elems@.take(i as int) =~= elems@);
                                }
                                return Result::Ok(BuildPlan { invocations: out });
                            }
                            proof {
                                assert(elems@.take(i + 1).drop_last() =~= elems@.take(i as int));
                                assert(elems@.take(i + 1).last() == elems@[i as int]);
                            }
                            match invocation_of_json(&elems[i]) {
                                Result::Ok(inv) => {
                                    out.push(inv);
                                    proof {
                                        assert(out.deep_view() =~= spec_invocations_of(
                                            elems@.take(i + 1),
                                        )->Ok_0);
                                    }
                                },
                                Result::Err(e) => {
                                    proof {
                                        lemma_invs_err_prefix(elems@, i + 1);
                                    }
                                    return Result::Err(e);
                                },
                            }
                            i = i + 1;
                        }
                    },
                    _ => Result::Err(PlanError::WrongType(PlanField::Invocations)),
                },
            }
        },
        _ => Result::Err(PlanError::WrongType(PlanField::Root)),
    }
}

/// Read a plan out of its raw text: decode the JSON and read the schema.
/// A text the decoder rejects is the one syntax failure; any other text
/// decodes to its document, and the result is exactly that document's
/// reading — its populated plan, or its first schema fault.
pub fn parse_plan(text: &str) -> (r: Result<BuildPlan, PlanError>)
    ensures
        match json_of(text@) {
            Option::None => r matches Result::Err(e) && e == PlanError::Syntax,
            Option::Some(j) => match r {
                Result::Ok(p) => spec_plan_of_json(j) == Result::<_, PlanError>::Ok(p@),
                Result::Err(e) => spec_plan_of_json(j) == Result::<
                    Seq<InvocationModel>,
                    _,
                >::Err(e),
            },
        },
{
    match json_decode(text) {
        Option::None => Result::Err(PlanError::Syntax),
        Option::Some(j) => plan_of_json(&j),
    }
}

} // verus!
