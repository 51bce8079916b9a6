//! The dependency extractor: the distinct external packages a build plan
//! asks for.
//!
//! An invocation counts only when it has arguments and runs outside the
//! current working directory; the surviving invocations map to packages,
//! and per package name only the highest version is kept.  The result is
//! ordered by name, so the same plan always constructs the same follow-up
//! build.

use vstd::prelude::*;

use crate::plan::{BuildPlan, InvocationModel};
use crate::version::{
    lemma_lex_lt_conn, lemma_lex_lt_irrefl, lemma_lex_lt_trans, lemma_version_lt_irrefl,
    lemma_version_lt_trans, lex_lt, lex_lt_exec, parse_version, version_lt, version_model_of,
    Version, VersionModel,
};

verus! {

/// The mathematical value of an extracted package.
pub struct PackageModel {
    pub name: Seq<char>,
    pub version: VersionModel,
}

/// An external package to prebuild, at its highest planned version.
#[derive(Debug)]
pub struct Package {
    pub name: String,
    pub version: Version,
}

impl View for Package {
    type V = PackageModel;

    open spec fn view(&self) -> PackageModel {
        PackageModel { name: self.name@, version: self.version@ }
    }
}

impl DeepView for Package {
    type V = PackageModel;

    open spec fn deep_view(&self) -> PackageModel {
        self.view()
    }
}

/// Whether an invocation names an external dependency to prebuild: it has
/// arguments, and it runs outside the current working directory.
pub open spec fn invocation_kept(inv: InvocationModel, cwd: Seq<char>) -> bool {
    inv.args.len() > 0 && inv.cwd != cwd
}

/// The package an invocation identifies, when its version text parses.
pub open spec fn package_model_of(inv: InvocationModel) -> Option<PackageModel> {
    match version_model_of(inv.pkg_version) {
        Option::None => Option::None,
        Option::Some(v) => Option::Some(PackageModel { name: inv.pkg_name, version: v }),
    }
}

/// Names strictly ascending: sorted, and no name twice.
pub open spec fn names_sorted(r: Seq<PackageModel>) -> bool {
    forall|i: int, j: int|
        0 <= i < j < r.len() ==> lex_lt(#[trigger] r[i].name, #[trigger] r[j].name)
}

/// Insert a package into a name-sorted list: a new name goes in at its
/// place in the order; a name already present keeps whichever version is
/// higher, the earlier entry winning a precedence tie.
pub open spec fn insert_package(acc: Seq<PackageModel>, p: PackageModel) -> Seq<PackageModel>
    decreases acc.len(),
{
    if acc.len() == 0 {
        seq![p]
    } else if lex_lt(acc[0].name, p.name) {
        seq![acc[0]] + insert_package(acc.drop_first(), p)
    } else if acc[0].name == p.name {
        if version_lt(acc[0].version, p.version) {
            acc.update(0, p)
        } else {
            acc
        }
    } else {
        seq![p] + acc
    }
}

proof fn lemma_insert_skip(acc: Seq<PackageModel>, p: PackageModel, k: int)
    requires
        0 <= k <= acc.len(),
        forall|j: int| 0 <= j < k ==> lex_lt(#[trigger] acc[j].name, p.name),
    ensures
        insert_package(acc, p) == acc.take(k) + insert_package(acc.skip(k), p),
    decreases k,
{
    if k == 0 {
        assert(acc.take(0) =~= Seq::<PackageModel>::empty());
        assert(acc.skip(0) =~= acc);
        assert(acc.take(0) + insert_package(acc, p) =~= insert_package(acc, p));
    } else {
        assert(acc.drop_first().take(k - 1) =~= acc.take(k).drop_first());
        assert(acc.drop_first().skip(k - 1) =~= acc.skip(k));
        lemma_insert_skip(acc.drop_first(), p, k - 1);
        assert(insert_package(acc, p) =~= seq![acc[0]] + insert_package(acc.drop_first(), p));
        assert(seq![acc[0]] + (acc.drop_first().take(k - 1) + insert_package(acc.skip(k), p))
            =~= acc.take(k) + insert_package(acc.skip(k), p));
    }
}

/// Insert a package into a name-sorted vector.
fn insert_pkg(acc: &mut Vec<Package>, p: Package)
    ensures
        final(acc).deep_view() == insert_package(old(acc).deep_view(), p@),
{
    let ghost acc0 = old(acc).deep_view();
    let mut k: usize = 0;
    loop
        invariant
            0 <= k <= acc.len(),
            acc0 == old(acc).deep_view(),
            acc.deep_view() == acc0,
            forall|j: int| 0 <= j < k ==> lex_lt(#[trigger] acc0[j].name, p@.name),
        decreases acc.len() - k,
    {
        proof {
            lemma_insert_skip(acc0, p@, k as int);
        }
        if k == acc.len() {
            acc.push(p);
            proof {
                assert(acc0.skip(k as int) =~= Seq::<PackageModel>::empty());
                assert(acc.deep_view() =~= acc0.take(k as int) + insert_package(
                    acc0.skip(k as int),
                    p@,
                ));
            }
            return ;
        }
        if lex_lt_exec(acc[k].name.as_str(), p.name.as_str()) {
            k = k + 1;
        } else {
            proof {
                assert(acc0.skip(k as int)[0] == acc0[k as int]);
            }
            if acc[k].name.eq(&p.name) {
                if acc[k].version.precedes(&p.version) {
                    acc.set(k, p);
                    proof {
                        assert(acc0.skip(k as int).update(0, p@) =~= acc0.skip(
                            k as int,
                        ).update(0, p@));
                        assert(acc.deep_view() =~= acc0.take(k as int) + acc0.skip(
                            k as int,
                        ).update(0, p@));
                    }
                } else {
                    proof {
                        assert(acc.deep_view() =~= acc0.take(k as int) + acc0.skip(k as int));
                    }
                }
            } else {
                acc.insert(k, p);
                proof {
                    assert(acc.deep_view() =~= acc0.take(k as int) + (seq![p@] + acc0.skip(
                        k as int,
                    )));
                }
            }
            return ;
        }
    }
}

/// The mathematical value of an extraction failure.
pub struct ExtractErrorModel {
    pub pkg_name: Seq<char>,
    pub pkg_version: Seq<char>,
}

/// Why extraction failed: the first counted invocation whose version text
/// is not a valid semantic version.
#[derive(Debug)]
pub struct ExtractError {
    pub pkg_name: String,
    pub pkg_version: String,
}

impl View for ExtractError {
    type V = ExtractErrorModel;

    open spec fn view(&self) -> ExtractErrorModel {
        ExtractErrorModel { pkg_name: self.pkg_name@, pkg_version: self.pkg_version@ }
    }
}

/// The packages a plan extracts to, against a current working directory:
/// invocations without arguments or at the current directory contribute
/// nothing; the rest map to packages, deduplicated by name with the highest
/// version winning, ordered by name.  The first counted invocation with an
/// invalid version text fails the whole extraction.
pub open spec fn spec_extract(invs: Seq<InvocationModel>, cwd: Seq<char>) -> Result<
    Seq<PackageModel>,
    ExtractErrorModel,
>
    decreases invs.len(),
{
    if invs.len() == 0 {
        Result::Ok(Seq::empty())
    } else {
        match spec_extract(invs.drop_last(), cwd) {
            Result::Err(e) => Result::Err(e),
            Result::Ok(acc) => {
                let inv = invs.last();
                if !invocation_kept(inv, cwd) {
                    Result::Ok(acc)
                } else {
                    match package_model_of(inv) {
                        Option::None => Result::Err(
                            ExtractErrorModel {
                                pkg_name: inv.pkg_name,
                                pkg_version: inv.pkg_version,
                            },
                        ),
                        Option::Some(p) => Result::Ok(insert_package(acc, p)),
                    }
                }
            },
        }
    }
}

proof fn lemma_extract_err_prefix(invs: Seq<InvocationModel>, cwd: Seq<char>, k: int)
    requires
        0 <= k <= invs.len(),
        spec_extract(invs.take(k), cwd) is Err,
    ensures
        spec_extract(invs, cwd) == spec_extract(invs.take(k), cwd),
    decreases invs.len(),
{
    if k == invs.len() {
        assert(invs.take(k) =~= invs);
    } else {
        assert(invs.drop_last().take(k) =~= invs.take(k));
        lemma_extract_err_prefix(invs.drop_last(), cwd, k);
    }
}

/// Extraction succeeds exactly when every counted invocation carries a valid
/// version text.
pub proof fn lemma_extract_ok_condition(invs: Seq<InvocationModel>, cwd: Seq<char>)
    ensures
        spec_extract(invs, cwd) is Ok <==> (forall|k: int|
            0 <= k < invs.len() && invocation_kept(#[trigger] invs[k], cwd)
                ==> version_model_of(invs[k].pkg_version) is Some),
    decreases invs.len(),
{
    if invs.len() > 0 {
        lemma_extract_ok_condition(invs.drop_last(), cwd);
        assert(forall|k: int|
            0 <= k < invs.len() - 1 ==> invs.drop_last()[k] == #[trigger] invs[k]);
    }
}

/// Extract the deduplicated external package set of a build plan.
///
/// `cwd` is the current working directory; an invocation running there, or
/// one with no arguments, is not an external dependency and contributes
/// nothing.  On success the result holds one entry per distinct counted
/// package name, at its highest planned version, ordered by name.
pub fn extract(plan: &BuildPlan, cwd: &String) -> (r: Result<Vec<Package>, ExtractError>)
    ensures
        match r {
            Result::Ok(v) => spec_extract(plan@, cwd@) == Result::<_, ExtractErrorModel>::Ok(
                v.deep_view(),
            ),
            Result::Err(e) => spec_extract(plan@, cwd@) == Result::<Seq<PackageModel>, _>::Err(
                e@,
            ),
        },
        r is Ok <==> (forall|k: int|
            0 <= k < plan@.len() && invocation_kept(#[trigger] plan@[k], cwd@)
                ==> version_model_of(plan@[k].pkg_version) is Some),
{
    let invs = &plan.invocations;
    let mut out: Vec<Package> = Vec::new();
    let mut i: usize = 0;
    proof {
        assert(plan@.take(0) =~= Seq::<InvocationModel>::empty());
        assert(out.deep_view() =~= Seq::<PackageModel>::empty());
    }
    loop
        invariant
            0 <= i <= invs.len(),
            invs == &plan.invocations,
            spec_extract(plan@.take(i as int), cwd@) == Result::<_, ExtractErrorModel>::Ok(
                out.deep_view(),
            ),
        decreases invs.len() - i,
    {
        if i == invs.len() {
            proof {
                assert(plan@.take(i as int) =~= plan@);
                lemma_extract_ok_condition(plan@, cwd@);
            }
            return Result::Ok(out);
        }
        proof {
            assert(plan@.take(i + 1).drop_last() =~= plan@.take(i as int));
            assert(plan@.take(i + 1).last() == plan@[i as int]);
        }
        let inv = &invs[i];
        if inv.args.len() > 0 && !inv.cwd.eq(cwd) {
            match parse_version(inv.pkg_version.as_str()) {
                Option::None => {
                    proof {
                        lemma_extract_err_prefix(plan@, cwd@, i + 1);
                        lemma_extract_ok_condition(plan@, cwd@);
                    }
                    return Result::Err(
                        ExtractError {
                            pkg_name: inv.pkg_name.clone(),
                            pkg_version: inv.pkg_version.clone(),
                        },
                    );
                },
                Option::Some(v) => {
                    let p = Package { name: inv.pkg_name.clone(), version: v };
                    insert_pkg(&mut out, p);
                },
            }
        }
        i = i + 1;
    }
}

proof fn lemma_insert_elems(acc: Seq<PackageModel>, p: PackageModel)
    ensures
        forall|m: int|
            0 <= m < insert_package(acc, p).len() ==> #[trigger] insert_package(acc, p)[m] == p
                || exists|j: int| 0 <= j < acc.len() && insert_package(acc, p)[m] == acc[j],
    decreases acc.len(),
{
    let r = insert_package(acc, p);
    if acc.len() == 0 {
    } else if lex_lt(acc[0].name, p.name) {
        lemma_insert_elems(acc.drop_first(), p);
        assert forall|m: int| 0 <= m < r.len() implies #[trigger] r[m] == p || exists|j: int|
            0 <= j < acc.len() && r[m] == acc[j] by {
            if m == 0 {
                assert(r[m] == acc[0]);
            } else {
                let rr = insert_package(acc.drop_first(), p);
                assert(r[m] == rr[m - 1]);
                if rr[m - 1] != p {
                    let j = choose|j: int|
                        0 <= j < acc.drop_first().len() && rr[m - 1] == acc.drop_first()[j];
                    assert(r[m] == acc[j + 1]);
                }
            }
        }
    } else if acc[0].name == p.name {
        if version_lt(acc[0].version, p.version) {
            assert forall|m: int| 0 <= m < r.len() implies #[trigger] r[m] == p || exists|j: int|
                0 <= j < acc.len() && r[m] == acc[j] by {
                if m != 0 {
                    assert(r[m] == acc[m]);
                }
            }
        }
    } else {
        assert forall|m: int| 0 <= m < r.len() implies #[trigger] r[m] == p || exists|j: int|
            0 <= j < acc.len() && r[m] == acc[j] by {
            if m != 0 {
                assert(r[m] == acc[m - 1]);
            }
        }
    }
}

proof fn lemma_insert_sorted(acc: Seq<PackageModel>, p: PackageModel)
    requires
        names_sorted(acc),
    ensures
        names_sorted(insert_package(acc, p)),
    decreases acc.len(),
{
    let r = insert_package(acc, p);
    if acc.len() == 0 {
    } else if lex_lt(acc[0].name, p.name) {
        let rest = acc.drop_first();
        assert(forall|i: int, j: int|
            0 <= i < j < rest.len() ==> lex_lt(#[trigger] rest[i].name, #[trigger] rest[j].name));
        lemma_insert_sorted(rest, p);
        lemma_insert_elems(rest, p);
        let rr = insert_package(rest, p);
        assert forall|i: int, j: int| 0 <= i < j < r.len() implies lex_lt(
            #[trigger] r[i].name,
            #[trigger] r[j].name,
        ) by {
            if i == 0 {
                assert(r[j] == rr[j - 1]);
                if rr[j - 1] != p {
                    let t = choose|t: int| 0 <= t < rest.len() && rr[j - 1] == rest[t];
                    assert(rest[t] == acc[t + 1]);
                }
            } else {
                assert(r[i] == rr[i - 1] && r[j] == rr[j - 1]);
            }
        }
    } else if acc[0].name == p.name {
        if version_lt(acc[0].version, p.version) {
            assert forall|i: int, j: int| 0 <= i < j < r.len() implies lex_lt(
                #[trigger] r[i].name,
                #[trigger] r[j].name,
            ) by {
                if i == 0 {
                    assert(r[j] == acc[j]);
                }
            }
        }
    } else {
        if !lex_lt(p.name, acc[0].name) {
            lemma_lex_lt_conn(acc[0].name, p.name);
        }
        assert(lex_lt(p.name, acc[0].name));
        assert forall|i: int, j: int| 0 <= i < j < r.len() implies lex_lt(
            #[trigger] r[i].name,
            #[trigger] r[j].name,
        ) by {
            if i == 0 {
                assert(r[j] == acc[j - 1]);
                if j > 1 {
                    lemma_lex_lt_trans(p.name, acc[0].name, acc[j - 1].name);
                }
            } else {
                assert(r[i] == acc[i - 1] && r[j] == acc[j - 1]);
            }
        }
    }
}

proof fn lemma_insert_names(acc: Seq<PackageModel>, p: PackageModel)
    ensures
        exists|m: int|
            0 <= m < insert_package(acc, p).len() && (#[trigger] insert_package(acc, p)[m].name)
                == p.name,
        forall|j: int|
            0 <= j < acc.len() ==> exists|m: int|
                0 <= m < insert_package(acc, p).len() && (#[trigger] insert_package(
                    acc,
                    p,
                )[m].name) == (#[trigger] acc[j].name),
    decreases acc.len(),
{
    let r = insert_package(acc, p);
    if acc.len() == 0 {
        assert(r[0].name == p.name);
    } else if lex_lt(acc[0].name, p.name) {
        lemma_insert_names(acc.drop_first(), p);
        let rr = insert_package(acc.drop_first(), p);
        let m0 = choose|m: int| 0 <= m < rr.len() && rr[m].name == p.name;
        assert(r[m0 + 1].name == p.name);
        assert forall|j: int| 0 <= j < acc.len() implies exists|m: int|
            0 <= m < r.len() && (#[trigger] r[m].name) == (#[trigger] acc[j].name) by {
            if j == 0 {
                assert(r[0].name == acc[0].name);
            } else {
                assert(acc.drop_first()[j - 1] == acc[j]);
                let m1 = choose|m: int|
                    0 <= m < rr.len() && (#[trigger] rr[m].name) == acc.drop_first()[j - 1].name;
                assert(r[m1 + 1].name == acc[j].name);
            }
        }
    } else if acc[0].name == p.name {
        if version_lt(acc[0].version, p.version) {
            assert(r[0].name == p.name);
            assert forall|j: int| 0 <= j < acc.len() implies exists|m: int|
                0 <= m < r.len() && (#[trigger] r[m].name) == (#[trigger] acc[j].name) by {
                if j == 0 {
                    assert(r[0].name == acc[0].name);
                } else {
                    assert(r[j].name == acc[j].name);
                }
            }
        } else {
            assert(r[0].name == p.name);
        }
    } else {
        assert(r[0].name == p.name);
        assert forall|j: int| 0 <= j < acc.len() implies exists|m: int|
            0 <= m < r.len() && (#[trigger] r[m].name) == (#[trigger] acc[j].name) by {
            assert(r[j + 1].name == acc[j].name);
        }
    }
}

proof fn lemma_insert_max(acc: Seq<PackageModel>, p: PackageModel)
    requires
        names_sorted(acc),
    ensures
        forall|m: int|
            0 <= m < insert_package(acc, p).len() && (#[trigger] insert_package(acc, p)[m].name)
                == p.name ==> !version_lt(insert_package(acc, p)[m].version, p.version),
    decreases acc.len(),
{
    let r = insert_package(acc, p);
    if acc.len() == 0 {
        lemma_version_lt_irrefl(p.version);
    } else if lex_lt(acc[0].name, p.name) {
        assert(forall|x: int, y: int|
            0 <= x < y < acc.drop_first().len() ==> lex_lt(
                #[trigger] acc.drop_first()[x].name,
                #[trigger] acc.drop_first()[y].name,
            ));
        lemma_insert_max(acc.drop_first(), p);
        lemma_lex_lt_irrefl(acc[0].name);
        assert forall|m: int| 0 <= m < r.len() && (#[trigger] r[m].name) == p.name implies
            !version_lt(r[m].version, p.version) by {
            if m > 0 {
                assert(r[m] == insert_package(acc.drop_first(), p)[m - 1]);
            }
        }
    } else if acc[0].name == p.name {
        if version_lt(acc[0].version, p.version) {
            lemma_version_lt_irrefl(p.version);
            assert forall|m: int| 0 <= m < r.len() && (#[trigger] r[m].name) == p.name implies
                !version_lt(r[m].version, p.version) by {
                if m > 0 {
                    assert(r[m] == acc[m]);
                    assert(lex_lt(acc[0].name, acc[m].name));
                    lemma_lex_lt_irrefl(acc[m].name);
                }
            }
        } else {
            assert forall|m: int| 0 <= m < r.len() && (#[trigger] r[m].name) == p.name implies
                !version_lt(r[m].version, p.version) by {
                if m > 0 {
                    assert(lex_lt(acc[0].name, acc[m].name));
                    lemma_lex_lt_irrefl(acc[m].name);
                }
            }
        }
    } else {
        lemma_version_lt_irrefl(p.version);
        if !lex_lt(p.name, acc[0].name) {
            lemma_lex_lt_conn(acc[0].name, p.name);
        }
        assert forall|m: int| 0 <= m < r.len() && (#[trigger] r[m].name) == p.name implies
            !version_lt(r[m].version, p.version) by {
            if m > 0 {
                assert(r[m] == acc[m - 1]);
                if m > 1 {
                    lemma_lex_lt_trans(p.name, acc[0].name, acc[m - 1].name);
                }
                lemma_lex_lt_irrefl(p.name);
            }
        }
    }
}

proof fn lemma_insert_noop(acc: Seq<PackageModel>, p: PackageModel, j: int)
    requires
        names_sorted(acc),
        0 <= j < acc.len(),
        acc[j].name == p.name,
        !version_lt(acc[j].version, p.version),
    ensures
        insert_package(acc, p) == acc,
    decreases acc.len(),
{
    if j == 0 {
        lemma_lex_lt_irrefl(p.name);
    } else {
        assert(lex_lt(acc[0].name, acc[j].name));
        assert(acc.drop_first()[j - 1] == acc[j]);
        assert(forall|x: int, y: int|
            0 <= x < y < acc.drop_first().len() ==> lex_lt(
                #[trigger] acc.drop_first()[x].name,
                #[trigger] acc.drop_first()[y].name,
            ));
        lemma_insert_noop(acc.drop_first(), p, j - 1);
        assert(insert_package(acc, p) =~= acc);
    }
}

proof fn lemma_sorted_names_unique(r: Seq<PackageModel>)
    requires
        names_sorted(r),
    ensures
        forall|i: int, j: int|
            0 <= i < r.len() && 0 <= j < r.len() && (#[trigger] r[i].name) == (#[trigger] r[j].name)
                ==> i == j,
{
    assert forall|i: int, j: int|
        0 <= i < r.len() && 0 <= j < r.len() && (#[trigger] r[i].name) == (
        #[trigger] r[j].name) implies i == j by {
        if i != j {
            lemma_lex_lt_irrefl(r[i].name);
        }
    }
}

proof fn lemma_unkept_irrelevant(invs: Seq<InvocationModel>, cwd: Seq<char>, i: int)
    requires
        0 <= i < invs.len(),
        !invocation_kept(invs[i], cwd),
    ensures
        spec_extract(invs.remove(i), cwd) == spec_extract(invs, cwd),
    decreases invs.len(),
{
    if i == invs.len() - 1 {
        assert(invs.remove(i) =~= invs.drop_last());
    } else {
        assert(invs.remove(i).drop_last() =~= invs.drop_last().remove(i));
        assert(invs.remove(i).last() == invs.last());
        assert(invs.drop_last()[i] == invs[i]);
        lemma_unkept_irrelevant(invs.drop_last(), cwd, i);
    }
}

/// An invocation at the current working directory never changes the
/// extracted set, whatever its arguments: removing it from the plan leaves
/// the extraction result unchanged.
pub proof fn lemma_current_dir_excluded(invs: Seq<InvocationModel>, cwd: Seq<char>, i: int)
    requires
        0 <= i < invs.len(),
        invs[i].cwd == cwd,
    ensures
        spec_extract(invs.remove(i), cwd) == spec_extract(invs, cwd),
{
    lemma_unkept_irrelevant(invs, cwd, i);
}

/// An invocation with no arguments never changes the extracted set, whatever
/// its working directory: removing it from the plan leaves the extraction
/// result unchanged.
pub proof fn lemma_empty_args_excluded(invs: Seq<InvocationModel>, cwd: Seq<char>, i: int)
    requires
        0 <= i < invs.len(),
        invs[i].args.len() == 0,
    ensures
        spec_extract(invs.remove(i), cwd) == spec_extract(invs, cwd),
{
    lemma_unkept_irrelevant(invs, cwd, i);
}

/// Extraction reads nothing but the plan and the working directory: two runs
/// on the same plan and directory return the same packages in the same
/// order.
pub proof fn lemma_extract_deterministic(
    invs: Seq<InvocationModel>,
    cwd: Seq<char>,
    r1: Result<Seq<PackageModel>, ExtractErrorModel>,
    r2: Result<Seq<PackageModel>, ExtractErrorModel>,
)
    requires
        r1 == spec_extract(invs, cwd),
        r2 == spec_extract(invs, cwd),
    ensures
        r1 == r2,
{
}

/// Names of a successful extraction come out strictly ascending: sorted by
/// name, and no name twice.
pub proof fn lemma_extract_sorted(invs: Seq<InvocationModel>, cwd: Seq<char>)
    ensures
        spec_extract(invs, cwd) matches Result::Ok(r) ==> names_sorted(r),
    decreases invs.len(),
{
    if invs.len() > 0 {
        lemma_extract_sorted(invs.drop_last(), cwd);
        if spec_extract(invs, cwd) is Ok {
            let acc = spec_extract(invs.drop_last(), cwd)->Ok_0;
            let inv = invs.last();
            if invocation_kept(inv, cwd) {
                lemma_insert_sorted(acc, package_model_of(inv)->Some_0);
            }
        }
    }
}

/// No two entries of a successful extraction share a name.
pub proof fn lemma_extract_unique_names(invs: Seq<InvocationModel>, cwd: Seq<char>)
    ensures
        spec_extract(invs, cwd) matches Result::Ok(r) ==> forall|i: int, j: int|
            0 <= i < r.len() && 0 <= j < r.len() && i != j ==> (#[trigger] r[i].name) != (
            #[trigger] r[j].name),
{
    lemma_extract_sorted(invs, cwd);
    if spec_extract(invs, cwd) is Ok {
        let r = spec_extract(invs, cwd)->Ok_0;
        lemma_sorted_names_unique(r);
        assert forall|i: int, j: int|
            0 <= i < r.len() && 0 <= j < r.len() && i != j implies (#[trigger] r[i].name) != (
        #[trigger] r[j].name) by {}
    }
}

/// Every entry of a successful extraction is the package of some counted
/// invocation of the plan.
pub proof fn lemma_extract_provenance(invs: Seq<InvocationModel>, cwd: Seq<char>)
    ensures
        spec_extract(invs, cwd) matches Result::Ok(r) ==> forall|m: int|
            0 <= m < r.len() ==> exists|t: int|
                0 <= t < invs.len() && invocation_kept(#[trigger] invs[t], cwd)
                    && package_model_of(invs[t]) == Option::Some(#[trigger] r[m]),
    decreases invs.len(),
{
    if invs.len() > 0 {
        lemma_extract_provenance(invs.drop_last(), cwd);
        assert(forall|t: int|
            0 <= t < invs.len() - 1 ==> invs.drop_last()[t] == #[trigger] invs[t]);
        if spec_extract(invs, cwd) is Ok {
            let acc = spec_extract(invs.drop_last(), cwd)->Ok_0;
            let inv = invs.last();
            let r = spec_extract(invs, cwd)->Ok_0;
            if invocation_kept(inv, cwd) {
                let p = package_model_of(inv)->Some_0;
                lemma_insert_elems(acc, p);
                assert forall|m: int| 0 <= m < r.len() implies exists|t: int|
                    0 <= t < invs.len() && invocation_kept(#[trigger] invs[t], cwd)
                        && package_model_of(invs[t]) == Option::Some(#[trigger] r[m]) by {
                    if r[m] == p {
                        assert(invocation_kept(invs[invs.len() - 1], cwd) && package_model_of(
                            invs[invs.len() - 1],
                        ) == Option::Some(r[m]));
                    } else {
                        let j = choose|j: int| 0 <= j < acc.len() && r[m] == acc[j];
                        let t = choose|t: int|
                            0 <= t < invs.drop_last().len() && invocation_kept(
                                #[trigger] invs.drop_last()[t],
                                cwd,
                            ) && package_model_of(invs.drop_last()[t]) == Option::Some(acc[j]);
                        assert(invocation_kept(invs[t], cwd) && package_model_of(invs[t])
                            == Option::Some(r[m]));
                    }
                }
            }
        }
    }
}

/// Every counted invocation of the plan leaves an entry of its name in a
/// successful extraction.
pub proof fn lemma_extract_complete(invs: Seq<InvocationModel>, cwd: Seq<char>)
    ensures
        spec_extract(invs, cwd) matches Result::Ok(r) ==> forall|t: int|
            0 <= t < invs.len() && invocation_kept(#[trigger] invs[t], cwd) && package_model_of(
                invs[t],
            ) is Some ==> exists|m: int|
                0 <= m < r.len() && (#[trigger] r[m]).name == (package_model_of(
                    invs[t],
                )->Some_0).name,
    decreases invs.len(),
{
    if invs.len() > 0 {
        lemma_extract_complete(invs.drop_last(), cwd);
        assert(forall|t: int|
            0 <= t < invs.len() - 1 ==> invs.drop_last()[t] == #[trigger] invs[t]);
        if spec_extract(invs, cwd) is Ok {
            let acc = spec_extract(invs.drop_last(), cwd)->Ok_0;
            let inv = invs.last();
            let r = spec_extract(invs, cwd)->Ok_0;
            if invocation_kept(inv, cwd) {
                let p = package_model_of(inv)->Some_0;
                lemma_insert_names(acc, p);
                assert forall|t: int|
                    0 <= t < invs.len() && invocation_kept(#[trigger] invs[t], cwd)
                        && package_model_of(invs[t]) is Some implies exists|m: int|
                    0 <= m < r.len() && (#[trigger] r[m]).name == (package_model_of(
                        invs[t],
                    )->Some_0).name by {
                    let c = package_model_of(invs[t])->Some_0;
                    if t == invs.len() - 1 {
                        let m = choose|m: int| 0 <= m < r.len() && r[m].name == p.name;
                        assert(r[m].name == c.name);
                    } else {
                        let j = choose|j: int| 0 <= j < acc.len() && acc[j].name == c.name;
                        let m = choose|m: int| 0 <= m < r.len() && r[m].name == acc[j].name;
                        assert(r[m].name == c.name);
                    }
                }
            }
        }
    }
}

/// No counted invocation of the plan carries a higher version than the
/// surviving entry of its name: each entry's version is the maximum, in
/// semantic-versioning precedence, over its name's counted invocations.
#[verifier::rlimit(60)]
pub proof fn lemma_extract_max(invs: Seq<InvocationModel>, cwd: Seq<char>)
    ensures
        spec_extract(invs, cwd) matches Result::Ok(r) ==> forall|m: int, t: int|
            0 <= m < r.len() && 0 <= t < invs.len() && invocation_kept(#[trigger] invs[t], cwd)
                && package_model_of(invs[t]) is Some && (package_model_of(invs[t])->Some_0).name
                == (#[trigger] r[m]).name ==> !version_lt(
                r[m].version,
                (package_model_of(invs[t])->Some_0).version,
            ),
    decreases invs.len(),
{
    if invs.len() > 0 {
        lemma_extract_max(invs.drop_last(), cwd);
        lemma_extract_complete(invs.drop_last(), cwd);
        lemma_extract_sorted(invs.drop_last(), cwd);
        assert(forall|t: int|
            0 <= t < invs.len() - 1 ==> invs.drop_last()[t] == #[trigger] invs[t]);
        if spec_extract(invs, cwd) is Ok {
            let acc = spec_extract(invs.drop_last(), cwd)->Ok_0;
            let inv = invs.last();
            let r = spec_extract(invs, cwd)->Ok_0;
            lemma_sorted_names_unique(acc);
            if invocation_kept(inv, cwd) {
                let p = package_model_of(inv)->Some_0;
                lemma_insert_elems(acc, p);
                lemma_insert_max(acc, p);
                assert forall|m: int, t: int|
                    0 <= m < r.len() && 0 <= t < invs.len() && invocation_kept(
                        #[trigger] invs[t],
                        cwd,
                    ) && package_model_of(invs[t]) is Some && (package_model_of(
                        invs[t],
                    )->Some_0).name == (#[trigger] r[m]).name implies !version_lt(
                    r[m].version,
                    (package_model_of(invs[t])->Some_0).version,
                ) by {
                    let c = package_model_of(invs[t])->Some_0;
                    if t == invs.len() - 1 {
                        assert(c == p);
                        assert(!version_lt(r[m].version, p.version));
                    } else {
                        if r[m] == p {
                            let j = choose|j: int| 0 <= j < acc.len() && acc[j].name == c.name;
                            assert(!version_lt(acc[j].version, c.version));
                            if version_lt(acc[j].version, p.version) {
                                if version_lt(p.version, c.version) {
                                    lemma_version_lt_trans(acc[j].version, p.version, c.version);
                                }
                            } else {
                                lemma_insert_noop(acc, p, j);
                                assert(r == acc);
                                assert(acc[m].name == acc[j].name);
                                assert(m == j);
                            }
                        } else {
                            let j = choose|j: int| 0 <= j < acc.len() && r[m] == acc[j];
                            assert(!version_lt(acc[j].version, c.version));
                        }
                    }
                }
            }
        }
    }
}

} // verus!
