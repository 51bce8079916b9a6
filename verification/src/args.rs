//! The scoped build request: the argument vectors handed to the underlying
//! build tool.
//!
//! One vector queries the tool for a build plan; the other runs the
//! follow-up build, scoped by one package-selection flag per extracted
//! package.  The order of the flags is fixed, so the same inputs always
//! construct the same command.

use vstd::prelude::*;

use crate::extract::{Package, PackageModel};
use crate::version::lex_lt;

verus! {

/// The mathematical value of the user-level build configuration.
pub struct BuildOptionsModel {
    pub release: bool,
    pub target: Option<Seq<char>>,
    pub manifest_path: Option<Seq<char>>,
    pub include_tests: bool,
    pub verbose: bool,
    pub debug: bool,
}

/// User-level configuration threaded through to the final invocation.
pub struct BuildOptions {
    /// Build in release mode.
    pub release: bool,
    /// Build for this target triple.
    pub target: Option<String>,
    /// Scope the build to this manifest.
    pub manifest_path: Option<String>,
    /// Plan the build including test targets.
    pub include_tests: bool,
    /// Ask the build tool for verbose output.
    pub verbose: bool,
    /// Print the constructed commands before running them; never changes
    /// what they are.
    pub debug: bool,
}

impl View for BuildOptions {
    type V = BuildOptionsModel;

    open spec fn view(&self) -> BuildOptionsModel {
        BuildOptionsModel {
            release: self.release,
            target: match self.target {
                Option::Some(t) => Option::Some(t@),
                Option::None => Option::None,
            },
            manifest_path: match self.manifest_path {
                Option::Some(m) => Option::Some(m@),
                Option::None => Option::None,
            },
            include_tests: self.include_tests,
            verbose: self.verbose,
            debug: self.debug,
        }
    }
}

/// How a package is written in a package-selection flag: its name, a colon,
/// and its version text.
pub open spec fn spec_render(p: PackageModel) -> Seq<char> {
    p.name + ":"@ + p.version.text
}

impl Package {
    /// Write the package as `name:version`.
    pub fn render(&self) -> (r: String)
        ensures
            r@ == spec_render(self@),
    {
        let s = self.name.clone();
        let s = s.concat(":");
        s.concat(self.version.text.as_str())
    }
}

/// The arguments that ask the build tool for a plan: the build subcommand in
/// plan-only mode, test targets when asked for, and the manifest override
/// when given.
pub open spec fn spec_plan_query_args(opts: BuildOptionsModel) -> Seq<Seq<char>> {
    seq!["build"@, "--build-plan"@, "-Z"@, "unstable-options"@] + (if opts.include_tests {
        seq!["--tests"@]
    } else {
        Seq::empty()
    }) + (match opts.manifest_path {
        Option::Some(m) => seq!["--manifest-path"@, m],
        Option::None => Seq::empty(),
    })
}

/// The fixed head of the follow-up build command: the build subcommand and
/// the option flags, in their one order.
pub open spec fn spec_base_args(opts: BuildOptionsModel) -> Seq<Seq<char>> {
    seq!["build"@] + (if opts.release {
        seq!["--release"@]
    } else {
        Seq::empty()
    }) + (match opts.target {
        Option::Some(t) => seq!["--target"@, t],
        Option::None => Seq::empty(),
    }) + (if opts.verbose {
        seq!["--verbose"@]
    } else {
        Seq::empty()
    }) + (match opts.manifest_path {
        Option::Some(m) => seq!["--manifest-path"@, m],
        Option::None => Seq::empty(),
    })
}

/// One package-selection flag per package, each carrying `name:version`, in
/// the packages' order.
pub open spec fn spec_package_args(pkgs: Seq<PackageModel>) -> Seq<Seq<char>>
    decreases pkgs.len(),
{
    if pkgs.len() == 0 {
        Seq::empty()
    } else {
        spec_package_args(pkgs.drop_last()) + seq!["-p"@, spec_render(pkgs.last())]
    }
}

/// The whole follow-up build command.
pub open spec fn spec_build_args(pkgs: Seq<PackageModel>, opts: BuildOptionsModel) -> Seq<
    Seq<char>,
> {
    spec_base_args(opts) + spec_package_args(pkgs)
}

/// Construct the argument vector that asks the build tool for a plan.
pub fn plan_query_args(opts: &BuildOptions) -> (r: Vec<String>)
    ensures
        r.deep_view() == spec_plan_query_args(opts@),
{
    let mut r: Vec<String> = Vec::new();
    r.push(String::from_str("build"));
    r.push(String::from_str("--build-plan"));
    r.push(String::from_str("-Z"));
    r.push(String::from_str("unstable-options"));
    if opts.include_tests {
        r.push(String::from_str("--tests"));
    }
    match &opts.manifest_path {
        Option::Some(m) => {
            r.push(String::from_str("--manifest-path"));
            r.push(m.clone());
        },
        Option::None => {},
    }
    proof {
        assert(r.deep_view() =~= spec_plan_query_args(opts@));
    }
    r
}

/// Construct the argument vector of the scoped follow-up build: the build
/// subcommand, the option flags in their fixed order, then one
/// package-selection flag per package, in the packages' order.  With no
/// packages the command degrades to an unscoped build.
pub fn build_args(pkgs: &Vec<Package>, opts: &BuildOptions) -> (r: Vec<String>)
    ensures
        r.deep_view() == spec_build_args(pkgs.deep_view(), opts@),
{
    let mut r: Vec<String> = Vec::new();
    r.push(String::from_str("build"));
    if opts.release {
        r.push(String::from_str("--release"));
    }
    match &opts.target {
        Option::Some(t) => {
            r.push(String::from_str("--target"));
            r.push(t.clone());
        },
        Option::None => {},
    }
    if opts.verbose {
        r.push(String::from_str("--verbose"));
    }
    match &opts.manifest_path {
        Option::Some(m) => {
            r.push(String::from_str("--manifest-path"));
            r.push(m.clone());
        },
        Option::None => {},
    }
    proof {
        assert(r.deep_view() =~= spec_base_args(opts@));
        assert(pkgs.deep_view().take(0) =~= Seq::<PackageModel>::empty());
        assert(r.deep_view() =~= spec_base_args(opts@) + spec_package_args(
            pkgs.deep_view().take(0),
        ));
    }
    let mut i: usize = 0;
    loop
        invariant
            0 <= i <= pkgs.len(),
            r.deep_view() == spec_base_args(opts@) + spec_package_args(
                pkgs.deep_view().take(i as int),
            ),
        decreases pkgs.len() - i,
    {
        if i == pkgs.len() {
            proof {
                assert(pkgs.deep_view().take(i as int) =~= pkgs.deep_view());
            }
            return r;
        }
        let ghost prev = r.deep_view();
        r.push(String::from_str("-p"));
        let rendered = pkgs[i].render();
        proof {
            assert(rendered@ == spec_render(pkgs.deep_view()[i as int]));
        }
        r.push(rendered);
        i = i + 1;
        proof {
            assert(pkgs.deep_view().take(i as int).drop_last() =~= pkgs.deep_view().take(
                i - 1,
            ));
            assert(pkgs.deep_view().take(i as int).last() == pkgs.deep_view()[i - 1]);
            assert(r.deep_view() =~= prev + seq![
                "-p"@,
                spec_render(pkgs.deep_view()[i - 1]),
            ]);
            assert(r.deep_view() =~= spec_base_args(opts@) + spec_package_args(
                pkgs.deep_view().take(i as int),
            ));
        }
    }
}

/// How often `x` occurs in `s`.
pub open spec fn count_of(s: Seq<Seq<char>>, x: Seq<char>) -> nat
    decreases s.len(),
{
    if s.len() == 0 {
        0
    } else {
        count_of(s.drop_last(), x) + (if s.last() == x {
            1nat
        } else {
            0nat
        })
    }
}

proof fn lemma_count_of_add(a: Seq<Seq<char>>, b: Seq<Seq<char>>, x: Seq<char>)
    ensures
        count_of(a + b, x) == count_of(a, x) + count_of(b, x),
    decreases b.len(),
{
    if b.len() == 0 {
        assert(a + b =~= a);
    } else {
        assert((a + b).drop_last() =~= a + b.drop_last());
        assert((a + b).last() == b.last());
        lemma_count_of_add(a, b.drop_last(), x);
    }
}

proof fn lemma_render_not_selection_flag(p: PackageModel)
    ensures
        spec_render(p) != "-p"@,
{
    reveal_strlit("-p");
    reveal_strlit(":");
    let r = spec_render(p);
    assert(r[p.name.len() as int] == ':');
    if r == "-p"@ {
        assert(r.len() == 2);
        if p.name.len() == 0 {
            assert(r[0] == ':' && r[0] == '-');
        } else if p.name.len() == 1 {
            assert(r[1] == ':' && r[1] == 'p');
        }
    }
}

proof fn lemma_base_args_no_selection_flag(opts: BuildOptionsModel)
    requires
        opts.target matches Option::Some(t) ==> t != "-p"@,
        opts.manifest_path matches Option::Some(m) ==> m != "-p"@,
    ensures
        count_of(spec_base_args(opts), "-p"@) == 0,
{
    reveal_strlit("-p");
    reveal_strlit("build");
    reveal_strlit("--release");
    reveal_strlit("--target");
    reveal_strlit("--verbose");
    reveal_strlit("--manifest-path");
    let s = spec_base_args(opts);
    assert forall|i: int| 0 <= i < s.len() implies s[i] != "-p"@ by {
        assert("build"@.len() == 5 && "--release"@.len() == 9 && "--target"@.len() == 8
            && "--verbose"@.len() == 9 && "--manifest-path"@.len() == 15 && "-p"@.len() == 2);
    }
    lemma_count_none(s, "-p"@);
}

proof fn lemma_count_none(t: Seq<Seq<char>>, x: Seq<char>)
    requires
        forall|i: int| 0 <= i < t.len() ==> #[trigger] t[i] != x,
    ensures
        count_of(t, x) == 0,
    decreases t.len(),
{
    if t.len() > 0 {
        lemma_count_none(t.drop_last(), x);
    }
}

proof fn lemma_package_args_count(pkgs: Seq<PackageModel>)
    ensures
        count_of(spec_package_args(pkgs), "-p"@) == pkgs.len(),
    decreases pkgs.len(),
{
    if pkgs.len() > 0 {
        lemma_package_args_count(pkgs.drop_last());
        lemma_render_not_selection_flag(pkgs.last());
        let pair = seq!["-p"@, spec_render(pkgs.last())];
        assert(pair.drop_last() =~= seq!["-p"@]);
        assert(seq!["-p"@].drop_last() =~= Seq::<Seq<char>>::empty());
        assert(count_of(Seq::<Seq<char>>::empty(), "-p"@) == 0);
        assert(count_of(seq!["-p"@], "-p"@) == 1);
        assert(count_of(pair, "-p"@) == 1);
        lemma_count_of_add(
            spec_package_args(pkgs.drop_last()),
            seq!["-p"@, spec_render(pkgs.last())],
        "-p"@);
    }
}

/// The constructed build command holds exactly one package-selection flag
/// per package: `-p` occurs once per entry, each time followed by the
/// entry's `name:version`.  This asks that neither the target triple nor the
/// manifest path is itself the selection flag.
pub proof fn lemma_one_selection_flag_per_package(pkgs: Seq<PackageModel>, opts: BuildOptionsModel)
    requires
        opts.target matches Option::Some(t) ==> t != "-p"@,
        opts.manifest_path matches Option::Some(m) ==> m != "-p"@,
    ensures
        count_of(spec_build_args(pkgs, opts), "-p"@) == pkgs.len(),
{
    lemma_base_args_no_selection_flag(opts);
    lemma_package_args_count(pkgs);
    lemma_count_of_add(spec_base_args(opts), spec_package_args(pkgs), "-p"@);
}

/// The manifest path of a workspace member: the member's directory under the
/// current working directory, with the fixed manifest filename.
pub fn member_manifest_path(cwd: &str, member: &str) -> (r: String)
    ensures
        r@ == cwd@ + "/"@ + member@ + "/Cargo.toml"@,
{
    let s = String::from_str(cwd);
    let s = s.concat("/");
    let s = s.concat(member);
    s.concat("/Cargo.toml")
}

} // verus!
