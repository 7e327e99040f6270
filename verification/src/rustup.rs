use vstd::prelude::*;
use crate::diff::{
    models_of, is_sorted_difference, sorted_difference, lemma_models_push, lemma_models_concat,
};
use crate::error::Error;
use crate::group::{Group, group_models, declared_in_groups, packages_for_section};
use crate::package::{Package, PackageModel};
use crate::text::{
    split_lines, split_lines_exec, str_models, first_index_of, find_char, str_eq,
    lemma_str_models_push,
};

verus! {

/// A package standing for one installed toolchain.
pub open spec fn toolchain_package(tc: Seq<char>) -> PackageModel {
    PackageModel { repo: Option::Some("toolchain"@), name: tc }
}

/// A package standing for one component, scoped to its toolchain as
/// `toolchain/component`.
pub open spec fn component_package(tc: Seq<char>, comp: Seq<char>) -> PackageModel {
    PackageModel { repo: Option::Some("component"@), name: tc + seq!['/'] + comp }
}

/// The toolchain identifier named by one line of `toolchain list` output:
/// everything before the first separator.
pub open spec fn toolchain_of_line(line: Seq<char>) -> Seq<char> {
    line.take(first_index_of(line, '-'))
}

/// The toolchain identifiers named by the whole `toolchain list` output.
pub open spec fn toolchains_of(output: Seq<char>) -> Seq<Seq<char>> {
    split_lines(output).map_values(|l: Seq<char>| toolchain_of_line(l))
}

/// The fixed allowlist of common component identifiers. Component display
/// names are not reliably delimited from target names, so a line whose first
/// segment matches one of these is taken as that component alone.
pub open spec fn known_component(s: Seq<char>) -> bool {
    ||| s == "cargo"@
    ||| s == "rustfmt"@
    ||| s == "clippy"@
    ||| s == "miri"@
    ||| s == "rls"@
    ||| s == "rustc"@
}

/// The component identifier named by one line of `component list` output:
/// the first segment if it is a known component, otherwise the first two
/// segments joined; `None` when the line has no second segment to fall back
/// on.
pub open spec fn component_of_line(line: Seq<char>) -> Option<Seq<char>> {
    let j = first_index_of(line, '-');
    let seg1 = line.take(j);
    if known_component(seg1) {
        Option::Some(seg1)
    } else if j == line.len() {
        Option::None
    } else {
        let rest = line.skip(j + 1);
        Option::Some(seg1 + seq!['-'] + rest.take(first_index_of(rest, '-')))
    }
}

/// The component packages named by a `component list` output for one
/// toolchain, or `None` if some line cannot be read as a component.
pub open spec fn components_of_lines(tc: Seq<char>, lines: Seq<Seq<char>>) -> Option<
    Seq<PackageModel>,
>
    decreases lines.len(),
{
    if lines.len() == 0 {
        Option::Some(Seq::empty())
    } else {
        match component_of_line(lines[0]) {
            Option::None => Option::None,
            Option::Some(c) => match components_of_lines(tc, lines.skip(1)) {
                Option::None => Option::None,
                Option::Some(restv) => Option::Some(
                    seq![component_package(tc, c)] + restv,
                ),
            },
        }
    }
}

pub open spec fn components_of(tc: Seq<char>, output: Seq<char>) -> Option<Seq<PackageModel>> {
    components_of_lines(tc, split_lines(output))
}

/// One toolchain package per installed toolchain.
pub open spec fn toolchain_packages(tcs: Seq<Seq<char>>) -> Seq<PackageModel> {
    tcs.map_values(|t: Seq<char>| toolchain_package(t))
}

/// All component packages across the per-toolchain outputs, in toolchain
/// order, or `None` on the first output that cannot be read.
pub open spec fn all_components(tcs: Seq<Seq<char>>, outs: Seq<Seq<char>>) -> Option<
    Seq<PackageModel>,
>
    decreases tcs.len(),
{
    if tcs.len() == 0 {
        Option::Some(Seq::empty())
    } else {
        match components_of(tcs[0], outs[0]) {
            Option::None => Option::None,
            Option::Some(cs) => match all_components(tcs.skip(1), outs.skip(1)) {
                Option::None => Option::None,
                Option::Some(restv) => Option::Some(cs + restv),
            },
        }
    }
}

proof fn lemma_components_unfold(tc: Seq<char>, lines: Seq<Seq<char>>, i: int)
    requires
        0 <= i < lines.len(),
    ensures
        components_of_lines(tc, lines.skip(i)) == (match component_of_line(lines[i]) {
            Option::None => Option::<Seq<PackageModel>>::None,
            Option::Some(c) => match components_of_lines(tc, lines.skip(i + 1)) {
                Option::None => Option::<Seq<PackageModel>>::None,
                Option::Some(restv) => Option::Some(seq![component_package(tc, c)] + restv),
            },
        }),
{
    assert(lines.skip(i)[0] == lines[i]);
    assert(lines.skip(i).skip(1) =~= lines.skip(i + 1));
}

proof fn lemma_all_components_unfold(tcs: Seq<Seq<char>>, outs: Seq<Seq<char>>, i: int)
    requires
        0 <= i < tcs.len(),
        tcs.len() <= outs.len(),
    ensures
        all_components(tcs.skip(i), outs.skip(i)) == (match components_of(tcs[i], outs[i]) {
            Option::None => Option::<Seq<PackageModel>>::None,
            Option::Some(cs) => match all_components(tcs.skip(i + 1), outs.skip(i + 1)) {
                Option::None => Option::<Seq<PackageModel>>::None,
                Option::Some(restv) => Option::Some(cs + restv),
            },
        }),
{
    assert(tcs.skip(i)[0] == tcs[i]);
    assert(outs.skip(i)[0] == outs[i]);
    assert(tcs.skip(i).skip(1) =~= tcs.skip(i + 1));
    assert(outs.skip(i).skip(1) =~= outs.skip(i + 1));
}

/// Mathematical model of one step of an install batch.
pub enum InstallStepModel {
    /// Install the named toolchain.
    Toolchain(Seq<char>),
    /// Add the named component (second field) to the named toolchain (first).
    Component(Seq<char>, Seq<char>),
}

/// One invocation of the underlying tool during an install batch.
#[derive(Debug)]
pub enum InstallStep {
    /// Install the named toolchain.
    Toolchain(String),
    /// Add the named component (second field) to the named toolchain (first).
    Component(String, String),
}

impl View for InstallStep {
    type V = InstallStepModel;

    open spec fn view(&self) -> InstallStepModel {
        match self {
            InstallStep::Toolchain(t) => InstallStepModel::Toolchain(t@),
            InstallStep::Component(t, c) => InstallStepModel::Component(t@, c@),
        }
    }
}

pub open spec fn step_models(s: Seq<InstallStep>) -> Seq<InstallStepModel> {
    s.map_values(|x: InstallStep| x@)
}

/// The `(toolchain, component)` pair encoded in a component package's name:
/// the segments before and after the first separator.
pub open spec fn component_split(name: Seq<char>) -> (Seq<char>, Seq<char>) {
    let j = first_index_of(name, '/');
    let rest = name.skip(j + 1);
    (name.take(j), rest.take(first_index_of(rest, '/')))
}

/// The toolchain installs of a batch, in batch order.
pub open spec fn toolchain_steps(pkgs: Seq<PackageModel>) -> Seq<InstallStepModel>
    decreases pkgs.len(),
{
    if pkgs.len() == 0 {
        Seq::empty()
    } else {
        toolchain_steps(pkgs.drop_last()) + (if pkgs.last().repo == Option::Some(
            "toolchain"@,
        ) {
            seq![InstallStepModel::Toolchain(pkgs.last().name)]
        } else {
            Seq::empty()
        })
    }
}

/// The component installs of a batch, in batch order.
pub open spec fn component_steps(pkgs: Seq<PackageModel>) -> Seq<InstallStepModel>
    decreases pkgs.len(),
{
    if pkgs.len() == 0 {
        Seq::empty()
    } else {
        component_steps(pkgs.drop_last()) + (if pkgs.last().repo == Option::Some(
            "component"@,
        ) {
            seq![InstallStepModel::Component(
                component_split(pkgs.last().name).0,
                component_split(pkgs.last().name).1,
            )]
        } else {
            Seq::empty()
        })
    }
}

/// Every package in the batch carries its sub-namespace tag.
pub open spec fn all_repos_tagged(pkgs: Seq<PackageModel>) -> bool {
    forall|k: int| 0 <= k < pkgs.len() ==> pkgs[k].repo is Some
}

/// Every component package's name scopes the component to a toolchain.
pub open spec fn components_scoped(pkgs: Seq<PackageModel>) -> bool {
    forall|k: int|
        0 <= k < pkgs.len() ==> (pkgs[k].repo == Option::Some("component"@)
            ==> first_index_of(pkgs[k].name, '/') < pkgs[k].name.len())
}

proof fn lemma_toolchain_steps_all(pkgs: Seq<PackageModel>)
    ensures
        forall|t: int|
            0 <= t < toolchain_steps(pkgs).len() ==> toolchain_steps(pkgs)[t] is Toolchain,
    decreases pkgs.len(),
{
    if pkgs.len() > 0 {
        lemma_toolchain_steps_all(pkgs.drop_last());
    }
}

proof fn lemma_component_steps_all(pkgs: Seq<PackageModel>)
    ensures
        forall|t: int|
            0 <= t < component_steps(pkgs).len() ==> component_steps(pkgs)[t] is Component,
    decreases pkgs.len(),
{
    if pkgs.len() > 0 {
        lemma_component_steps_all(pkgs.drop_last());
    }
}

/// The toolchain-ordering law: in an install plan, every toolchain install
/// comes before every component install, whatever the order of the input
/// batch.
pub proof fn lemma_install_plan_ordered(pkgs: Seq<PackageModel>)
    ensures
        forall|i: int, j: int|
            0 <= i < j < (toolchain_steps(pkgs) + component_steps(pkgs)).len() && (toolchain_steps(
                pkgs,
            ) + component_steps(pkgs))[j] is Toolchain ==> (toolchain_steps(pkgs)
                + component_steps(pkgs))[i] is Toolchain,
{
    lemma_toolchain_steps_all(pkgs);
    lemma_component_steps_all(pkgs);
    let plan = toolchain_steps(pkgs) + component_steps(pkgs);
    let tlen = toolchain_steps(pkgs).len() as int;
    assert forall|i: int, j: int|
        0 <= i < j < plan.len() && plan[j] is Toolchain implies plan[i] is Toolchain by {
        if j >= tlen {
            assert(plan[j] == component_steps(pkgs)[j - tlen]);
        } else {
            assert(plan[i] == toolchain_steps(pkgs)[i]);
        }
    }
}

/// Whether this is one of the component identifiers on the fixed allowlist.
fn known_component_exec(s: &str) -> (r: bool)
    ensures
        r == known_component(s@),
{
    str_eq(s, "cargo") || str_eq(s, "rustfmt") || str_eq(s, "clippy") || str_eq(s, "miri")
        || str_eq(s, "rls") || str_eq(s, "rustc")
}

/// The adapter for the Rust toolchain manager. Its package namespace is
/// two-level: toolchains, and components scoped to a toolchain. The working
/// set `packages` holds what the loaded groups declare for this backend.
pub struct Rustup {
    pub packages: Vec<Package>,
}

impl Rustup {
    pub fn new() -> (r: Self)
        ensures
            r.packages@.len() == 0,
    {
        Rustup { packages: Vec::new() }
    }

    /// The name of the backend's binary.
    pub fn get_binary(&self) -> (r: &'static str)
        ensures
            r@ == "rustup"@,
    {
        "rustup"
    }

    /// The name of this backend's declaration section in group files.
    pub fn get_section(&self) -> (r: &'static str)
        ensures
            r@ == "rustup"@,
    {
        "rustup"
    }

    /// Whether the underlying tool can mark a package as installed as a
    /// dependency. It cannot.
    pub fn supports_as_dependency(&self) -> (r: bool)
        ensures
            r == false,
    {
        false
    }

    /// Populate the working declared-set from every loaded group's section
    /// for this backend. Must run before any diff; calling it again with the
    /// same groups rebuilds the same set.
    pub fn load(&mut self, groups: &Vec<Group>)
        ensures
            models_of(final(self).packages@) == declared_in_groups(
                group_models(groups@),
                "rustup"@,
            ),
    {
        self.packages = packages_for_section(groups, "rustup");
    }

    /// The toolchain identifiers in a `toolchain list` output: each line
    /// truncated at the first separator, consistently with how toolchain
    /// identifiers are displayed.
    pub fn parse_installed_toolchains(output: &str) -> (r: Vec<String>)
        ensures
            str_models(r@) == toolchains_of(output@),
    {
        let lines = split_lines_exec(output);
        let ghost linesm = str_models(lines@);
        let mut r: Vec<String> = Vec::new();
        proof {
            assert(str_models(r@) =~= toolchains_of(output@).take(0));
        }
        let mut k: usize = 0;
        while k < lines.len()
            invariant
                0 <= k <= lines@.len(),
                linesm == str_models(lines@),
                linesm == split_lines(output@),
                str_models(r@) == toolchains_of(output@).take(k as int),
            decreases lines@.len() - k,
        {
            let li = &lines[k];
            proof {
                assert(linesm[k as int] == li@);
            }
            let j = find_char(li.as_str(), '-');
            let t = li.as_str().substring_char(0, j).to_owned();
            let ghost r_before = r@;
            proof {
                assert(li@.subrange(0, j as int) =~= li@.take(j as int));
                assert(t@ == toolchain_of_line(linesm[k as int]));
                assert(toolchains_of(output@)[k as int] == toolchain_of_line(linesm[k as int]));
            }
            r.push(t);
            proof {
                lemma_str_models_push(r_before, r@[r@.len() - 1]);
                assert(r@ == r_before.push(r@[r@.len() - 1]));
                assert(str_models(r@) =~= toolchains_of(output@).take(k as int + 1));
            }
            k += 1;
        }
        proof {
            assert(toolchains_of(output@).take(linesm.len() as int) =~= toolchains_of(output@));
        }
        r
    }

    /// The component packages in a `component list --installed` output for
    /// one toolchain, applying the known-name allowlist first and falling
    /// back to joining the first two segments; a line with neither shape is a
    /// parse failure.
    pub fn parse_installed_components(toolchain: &str, output: &str) -> (r: Result<
        Vec<Package>,
        Error,
    >)
        ensures
            (match components_of(toolchain@, output@) {
                Option::Some(m) => r matches Ok(v) && models_of(v@) == m,
                Option::None => r == Err::<Vec<Package>, Error>(Error::ParseFailure),
            }),
    {
        let lines = split_lines_exec(output);
        let ghost linesm = str_models(lines@);
        let mut out: Vec<Package> = Vec::new();
        proof {
            assert(linesm.skip(0) =~= linesm);
            if let Option::Some(w) = components_of_lines(toolchain@, linesm) {
                assert(models_of(out@) + w =~= w);
            }
        }
        let mut k: usize = 0;
        while k < lines.len()
            invariant
                0 <= k <= lines@.len(),
                linesm == str_models(lines@),
                linesm == split_lines(output@),
                (match components_of_lines(toolchain@, linesm.skip(k as int)) {
                    Option::Some(rest) => components_of_lines(toolchain@, linesm)
                        == Option::Some(models_of(out@) + rest),
                    Option::None => components_of_lines(toolchain@, linesm) is None,
                }),
            decreases lines@.len() - k,
        {
            let li = &lines[k];
            proof {
                assert(linesm[k as int] == li@);
                lemma_components_unfold(toolchain@, linesm, k as int);
            }
            let llen = li.as_str().unicode_len();
            let j = find_char(li.as_str(), '-');
            let seg1 = li.as_str().substring_char(0, j).to_owned();
            let ghost seg1m = seg1@;
            proof {
                assert(li@.subrange(0, j as int) =~= li@.take(j as int));
            }
            let comp: String;
            if known_component_exec(seg1.as_str()) {
                comp = seg1;
                proof {
                    assert(component_of_line(li@) == Option::Some(comp@));
                }
            } else if j == llen {
                proof {
                    assert(component_of_line(li@) is None);
                }
                return Err(Error::ParseFailure);
            } else {
                let rest = li.as_str().substring_char(j + 1, llen);
                proof {
                    assert(li@.subrange(j as int + 1, llen as int) =~= li@.skip(j as int + 1));
                }
                let j2 = find_char(rest, '-');
                let seg2 = rest.substring_char(0, j2);
                proof {
                    assert(rest@.subrange(0, j2 as int) =~= rest@.take(j2 as int));
                }
                let mut c = seg1;
                c.append("-");
                c.append(seg2);
                proof {
                    reveal_strlit("-");
                    assert("-"@ =~= seq!['-']);
                    assert(c@ =~= seg1m + seq!['-'] + rest@.take(j2 as int));
                }
                comp = c;
                proof {
                    assert(component_of_line(li@) == Option::Some(comp@));
                }
            }
            let ghost compm = comp@;
            let mut n = toolchain.to_owned();
            n.append("/");
            n.append(comp.as_str());
            proof {
                reveal_strlit("/");
                assert("/"@ =~= seq!['/']);
                assert(n@ =~= toolchain@ + seq!['/'] + compm);
            }
            let p = Package { repo: Option::Some("component".to_owned()), name: n };
            let ghost pm = p@;
            proof {
                assert(pm =~= component_package(toolchain@, compm));
            }
            let ghost out_before = models_of(out@);
            out.push(p);
            proof {
                lemma_models_push(out@.drop_last(), out@.last());
                assert(out@.drop_last().push(out@.last()) =~= out@);
                assert(models_of(out@) == out_before.push(pm));
                if let Option::Some(rest1) = components_of_lines(
                    toolchain@,
                    linesm.skip(k as int + 1),
                ) {
                    assert(components_of_lines(toolchain@, linesm.skip(k as int))
                        == Option::Some(seq![component_package(toolchain@, compm)] + rest1));
                    assert(out_before + (seq![component_package(toolchain@, compm)] + rest1)
                        =~= models_of(out@) + rest1);
                }
            }
            k += 1;
        }
        proof {
            assert(linesm.skip(linesm.len() as int) =~= Seq::<Seq<char>>::empty());
            if let Option::Some(rest) = components_of_lines(
                toolchain@,
                linesm.skip(linesm.len() as int),
            ) {
                assert(models_of(out@) + rest =~= models_of(out@));
            }
        }
        Ok(out)
    }

    /// The full system-truth query, from the raw outputs: one package per
    /// toolchain, then one per installed component of each toolchain.
    /// `component_outputs[k]` must be the `component list` output for
    /// `toolchains[k]`.
    pub fn get_all_installed_packages(
        &self,
        toolchains: &Vec<String>,
        component_outputs: &Vec<String>,
    ) -> (r: Result<Vec<Package>, Error>)
        requires
            toolchains@.len() == component_outputs@.len(),
        ensures
            (match all_components(str_models(toolchains@), str_models(component_outputs@)) {
                Option::Some(cs) => r matches Ok(v) && models_of(v@) == toolchain_packages(
                    str_models(toolchains@),
                ) + cs,
                Option::None => r == Err::<Vec<Package>, Error>(Error::ParseFailure),
            }),
    {
        let ghost tcsm = str_models(toolchains@);
        let ghost outsm = str_models(component_outputs@);
        let mut out: Vec<Package> = Vec::new();
        proof {
            assert(models_of(out@) =~= toolchain_packages(tcsm).take(0));
        }
        let mut k: usize = 0;
        while k < toolchains.len()
            invariant
                0 <= k <= toolchains@.len(),
                tcsm == str_models(toolchains@),
                models_of(out@) == toolchain_packages(tcsm).take(k as int),
            decreases toolchains@.len() - k,
        {
            let t = &toolchains[k];
            proof {
                assert(tcsm[k as int] == t@);
            }
            let p = Package { repo: Option::Some("toolchain".to_owned()), name: t.clone() };
            let ghost out_before = models_of(out@);
            let ghost pm = p@;
            proof {
                assert(pm =~= toolchain_package(tcsm[k as int]));
                assert(toolchain_packages(tcsm)[k as int] == toolchain_package(tcsm[k as int]));
            }
            let ghost out_seq_before = out@;
            out.push(p);
            proof {
                assert(out@ == out_seq_before.push(out@.last()));
                lemma_models_push(out_seq_before, out@.last());
                assert(out@.last()@ == pm);
                assert(models_of(out@) =~= toolchain_packages(tcsm).take(k as int + 1));
            }
            k += 1;
        }
        proof {
            assert(toolchain_packages(tcsm).take(tcsm.len() as int) =~= toolchain_packages(tcsm));
        }
        let mut comps: Vec<Package> = Vec::new();
        proof {
            assert(tcsm.skip(0) =~= tcsm);
            assert(outsm.skip(0) =~= outsm);
            if let Option::Some(w) = all_components(tcsm, outsm) {
                assert(models_of(comps@) + w =~= w);
            }
        }
        let mut i: usize = 0;
        while i < toolchains.len()
            invariant
                0 <= i <= toolchains@.len(),
                toolchains@.len() == component_outputs@.len(),
                tcsm == str_models(toolchains@),
                outsm == str_models(component_outputs@),
                models_of(out@) == toolchain_packages(tcsm),
                (match all_components(tcsm.skip(i as int), outsm.skip(i as int)) {
                    Option::Some(rest) => all_components(tcsm, outsm) == Option::Some(
                        models_of(comps@) + rest,
                    ),
                    Option::None => all_components(tcsm, outsm) is None,
                }),
            decreases toolchains@.len() - i,
        {
            let t = &toolchains[i];
            let o = &component_outputs[i];
            proof {
                assert(tcsm[i as int] == t@);
                assert(outsm[i as int] == o@);
                lemma_all_components_unfold(tcsm, outsm, i as int);
            }
            let parsed = Self::parse_installed_components(t.as_str(), o.as_str());
            match parsed {
                Err(e) => {
                    return Err(e);
                },
                Ok(mut v) => {
                    let ghost comps_before = comps@;
                    let ghost v_before = v@;
                    let ghost vm = models_of(v@);
                    comps.append(&mut v);
                    proof {
                        assert(comps@ == comps_before + v_before);
                        lemma_models_concat(comps_before, v_before);
                        assert(components_of(tcsm[i as int], outsm[i as int])
                            == Option::Some(vm));
                        if let Option::Some(rest1) = all_components(
                            tcsm.skip(i as int + 1),
                            outsm.skip(i as int + 1),
                        ) {
                            assert(all_components(tcsm.skip(i as int), outsm.skip(i as int))
                                == Option::Some(vm + rest1));
                            assert(models_of(comps_before) + (vm + rest1) =~= models_of(comps@)
                                + rest1);
                        }
                    }
                },
            }
            i += 1;
        }
        proof {
            assert(tcsm.skip(tcsm.len() as int) =~= Seq::<Seq<char>>::empty());
            assert(outsm.skip(tcsm.len() as int) =~= Seq::<Seq<char>>::empty());
            if let Option::Some(rest) = all_components(
                tcsm.skip(tcsm.len() as int),
                outsm.skip(tcsm.len() as int),
            ) {
                assert(models_of(comps@) + rest =~= models_of(comps@));
            }
        }
        let ghost compsm_final = models_of(comps@);
        let ghost comps_seq = comps@;
        let ghost out_phase1 = out@;
        out.append(&mut comps);
        proof {
            assert(out@ == out_phase1 + comps_seq);
            lemma_models_concat(out_phase1, comps_seq);
            assert(models_of(out@) == toolchain_packages(tcsm) + compsm_final);
        }
        Ok(out)
    }

    /// The packages considered user-requested. The toolchain manager has no
    /// implicit/explicit distinction, so this is the full installed set.
    pub fn get_explicitly_installed_packages(
        &self,
        toolchains: &Vec<String>,
        component_outputs: &Vec<String>,
    ) -> (r: Result<Vec<Package>, Error>)
        requires
            toolchains@.len() == component_outputs@.len(),
        ensures
            (match all_components(str_models(toolchains@), str_models(component_outputs@)) {
                Option::Some(cs) => r matches Ok(v) && models_of(v@) == toolchain_packages(
                    str_models(toolchains@),
                ) + cs,
                Option::None => r == Err::<Vec<Package>, Error>(Error::ParseFailure),
            }),
    {
        self.get_all_installed_packages(toolchains, component_outputs)
    }

    /// Declared-but-absent: the working declared-set minus the given
    /// installed snapshot, sorted by `(repo, name)` with set semantics.
    pub fn get_missing_packages_sorted(&self, installed: &Vec<Package>) -> (r: Vec<Package>)
        ensures
            is_sorted_difference(
                models_of(r@),
                models_of(self.packages@),
                models_of(installed@),
            ),
    {
        sorted_difference(&self.packages, installed)
    }

    /// Installed-but-undeclared: the given explicitly-installed snapshot
    /// minus the working declared-set, sorted by `(repo, name)`.
    pub fn get_unmanaged_packages_sorted(&self, explicitly_installed: &Vec<Package>) -> (r: Vec<
        Package,
    >)
        ensures
            is_sorted_difference(
                models_of(r@),
                models_of(explicitly_installed@),
                models_of(self.packages@),
            ),
    {
        sorted_difference(explicitly_installed, &self.packages)
    }

    /// Re-marking packages as dependencies is not supported by the
    /// underlying tool: this always fails, never silently succeeds.
    pub fn make_dependency(&self, _packages: &Vec<Package>) -> (r: Result<(), Error>)
        ensures
            r == Err::<(), Error>(Error::CapabilityNotSupported),
    {
        Err(Error::CapabilityNotSupported)
    }

    /// The ordered plan an install batch runs: every toolchain install
    /// first, in batch order, then every component install, each component
    /// scoped to the toolchain named before the first separator of its name.
    /// A package without its tag, or a component not scoped to a toolchain,
    /// fails loudly instead of being skipped.
    pub fn install_plan(&self, packages: &Vec<Package>) -> (r: Result<Vec<InstallStep>, Error>)
        ensures
            (r is Ok) == (all_repos_tagged(models_of(packages@)) && components_scoped(
                models_of(packages@),
            )),
            r matches Ok(plan) ==> step_models(plan@) == toolchain_steps(models_of(packages@))
                + component_steps(models_of(packages@)),
            r matches Err(e) ==> e == (if !all_repos_tagged(models_of(packages@)) {
                Error::RepoTagMissing
            } else {
                Error::PackageNameMalformed
            }),
    {
        let ghost pm = models_of(packages@);
        let mut plan: Vec<InstallStep> = Vec::new();
        proof {
            assert(step_models(plan@) =~= toolchain_steps(pm.take(0)));
        }
        let mut k: usize = 0;
        while k < packages.len()
            invariant
                0 <= k <= packages@.len(),
                pm == models_of(packages@),
                step_models(plan@) == toolchain_steps(pm.take(k as int)),
                forall|t: int| 0 <= t < k ==> pm[t].repo is Some,
            decreases packages@.len() - k,
        {
            let p = &packages[k];
            proof {
                assert(pm[k as int] == p@);
                assert(pm.take(k as int + 1).drop_last() =~= pm.take(k as int));
                assert(pm.take(k as int + 1).last() == pm[k as int]);
            }
            match &p.repo {
                Option::None => {
                    return Err(Error::RepoTagMissing);
                },
                Option::Some(rp) => {
                    if str_eq(rp.as_str(), "toolchain") {
                        let step = InstallStep::Toolchain(p.name.clone());
                        let ghost stepm = step@;
                        proof {
                            assert(stepm == InstallStepModel::Toolchain(pm[k as int].name));
                            assert(pm[k as int].repo == Option::Some("toolchain"@));
                        }
                        let ghost plan_before = plan@;
                        plan.push(step);
                        proof {
                            assert(plan@ == plan_before.push(plan@.last()));
                            lemma_step_models_push(plan_before, plan@.last());
                            assert(plan@.last()@ == stepm);
                            assert(step_models(plan@) =~= toolchain_steps(pm.take(k as int + 1)));
                        }
                    } else {
                        proof {
                            assert(pm[k as int].repo != Option::Some("toolchain"@));
                            assert(step_models(plan@) =~= toolchain_steps(pm.take(k as int + 1)));
                        }
                    }
                },
            }
            k += 1;
        }
        proof {
            assert(pm.take(packages@.len() as int) =~= pm);
        }
        let mut i: usize = 0;
        proof {
            assert(step_models(plan@) =~= toolchain_steps(pm) + component_steps(pm.take(0)));
        }
        while i < packages.len()
            invariant
                0 <= i <= packages@.len(),
                pm == models_of(packages@),
                all_repos_tagged(pm),
                step_models(plan@) == toolchain_steps(pm) + component_steps(pm.take(i as int)),
                forall|t: int|
                    0 <= t < i ==> (pm[t].repo == Option::Some("component"@)
                        ==> first_index_of(pm[t].name, '/') < pm[t].name.len()),
            decreases packages@.len() - i,
        {
            let p = &packages[i];
            proof {
                assert(pm[i as int] == p@);
                assert(pm.take(i as int + 1).drop_last() =~= pm.take(i as int));
                assert(pm.take(i as int + 1).last() == pm[i as int]);
            }
            match &p.repo {
                Option::None => {
                    proof {
                        assert(pm[i as int].repo is Some);
                        assert(false);
                    }
                    return Err(Error::RepoTagMissing);
                },
                Option::Some(rp) => {
                    if str_eq(rp.as_str(), "component") {
                        proof {
                            assert(pm[i as int].repo == Option::Some("component"@));
                        }
                        let nlen = p.name.as_str().unicode_len();
                        let j = find_char(p.name.as_str(), '/');
                        if j == nlen {
                            return Err(Error::PackageNameMalformed);
                        }
                        let tc = p.name.as_str().substring_char(0, j).to_owned();
                        let rest = p.name.as_str().substring_char(j + 1, nlen);
                        let j2 = find_char(rest, '/');
                        let cmp = rest.substring_char(0, j2).to_owned();
                        proof {
                            assert(p.name@.subrange(0, j as int) =~= p.name@.take(j as int));
                            assert(p.name@.subrange(j as int + 1, nlen as int) =~= p.name@.skip(
                                j as int + 1,
                            ));
                            assert(rest@.subrange(0, j2 as int) =~= rest@.take(j2 as int));
                            assert(tc@ == component_split(pm[i as int].name).0);
                            assert(cmp@ == component_split(pm[i as int].name).1);
                        }
                        let step = InstallStep::Component(tc, cmp);
                        let ghost stepm = step@;
                        let ghost plan_before = plan@;
                        plan.push(step);
                        proof {
                            assert(plan@ == plan_before.push(plan@.last()));
                            lemma_step_models_push(plan_before, plan@.last());
                            assert(plan@.last()@ == stepm);
                            assert(step_models(plan@) =~= toolchain_steps(pm) + component_steps(
                                pm.take(i as int + 1),
                            ));
                        }
                    } else {
                        proof {
                            assert(pm[i as int].repo != Option::Some("component"@));
                            assert(step_models(plan@) =~= toolchain_steps(pm) + component_steps(
                                pm.take(i as int + 1),
                            ));
                        }
                    }
                },
            }
            i += 1;
        }
        proof {
            assert(pm.take(packages@.len() as int) =~= pm);
        }
        Ok(plan)
    }
}

proof fn lemma_step_models_push(before: Seq<InstallStep>, x: InstallStep)
    ensures
        step_models(before.push(x)) == step_models(before).push(x@),
{
    assert(step_models(before.push(x)) =~= step_models(before).push(x@)) by {
        assert forall|t: int| 0 <= t < before.len() + 1 implies step_models(before.push(x))[t]
            == step_models(before).push(x@)[t] by {
            if t < before.len() {
                assert(before.push(x)[t] == before[t]);
            } else {
                assert(before.push(x)[t] == x);
            }
        }
    }
}

} // verus!
