use vstd::prelude::*;
use crate::text::{
    seq_char_lt, str_eq, str_lt, lemma_seq_char_lt_asymmetric, lemma_seq_char_lt_connected,
    lemma_seq_char_lt_transitive,
};

verus! {

/// Mathematical model of a package: the optional sub-namespace tag and the name,
/// both as character sequences.
#[verifier::ext_equal]
pub struct PackageModel {
    pub repo: Option<Seq<char>>,
    pub name: Seq<char>,
}

/// One unit a package manager can install, remove or query.
/// `repo` is the backend-specific sub-namespace tag (for the toolchain backend,
/// `"toolchain"` or `"component"`); flat-namespace backends leave it `None`.
#[derive(Debug)]
pub struct Package {
    pub repo: Option<String>,
    pub name: String,
}

impl View for Package {
    type V = PackageModel;

    open spec fn view(&self) -> PackageModel {
        PackageModel {
            repo: match self.repo {
                Option::Some(s) => Option::Some(s@),
                Option::None => Option::None,
            },
            name: self.name@,
        }
    }
}

/// Order on the optional sub-namespace tag: an absent tag comes first, present
/// tags compare lexicographically.
pub open spec fn repo_lt(a: Option<Seq<char>>, b: Option<Seq<char>>) -> bool {
    match (a, b) {
        (Option::None, Option::None) => false,
        (Option::None, Option::Some(_)) => true,
        (Option::Some(_), Option::None) => false,
        (Option::Some(x), Option::Some(y)) => seq_char_lt(x, y),
    }
}

/// Strict order on packages: by `(repo, name)`, lexicographic in each part.
pub open spec fn pkg_lt(a: PackageModel, b: PackageModel) -> bool {
    repo_lt(a.repo, b.repo) || (a.repo == b.repo && seq_char_lt(a.name, b.name))
}

pub proof fn lemma_repo_lt_asymmetric(a: Option<Seq<char>>, b: Option<Seq<char>>)
    requires
        repo_lt(a, b),
    ensures
        !repo_lt(b, a),
{
    match (a, b) {
        (Option::Some(x), Option::Some(y)) => lemma_seq_char_lt_asymmetric(x, y),
        _ => (),
    }
}

pub proof fn lemma_repo_lt_connected(a: Option<Seq<char>>, b: Option<Seq<char>>)
    requires
        !repo_lt(a, b),
        !repo_lt(b, a),
    ensures
        a == b,
{
    match (a, b) {
        (Option::Some(x), Option::Some(y)) => lemma_seq_char_lt_connected(x, y),
        _ => (),
    }
}

pub proof fn lemma_repo_lt_transitive(
    a: Option<Seq<char>>,
    b: Option<Seq<char>>,
    c: Option<Seq<char>>,
)
    requires
        repo_lt(a, b),
        repo_lt(b, c),
    ensures
        repo_lt(a, c),
{
    match (a, b) {
        (Option::Some(x), Option::Some(y)) => match c {
            Option::Some(z) => lemma_seq_char_lt_transitive(x, y, z),
            Option::None => (),
        },
        _ => (),
    }
}

/// `pkg_lt` is asymmetric: no two packages come strictly before each other.
pub proof fn lemma_pkg_lt_asymmetric(a: PackageModel, b: PackageModel)
    requires
        pkg_lt(a, b),
    ensures
        !pkg_lt(b, a),
{
    if repo_lt(a.repo, b.repo) {
        lemma_repo_lt_asymmetric(a.repo, b.repo);
    } else {
        lemma_seq_char_lt_asymmetric(a.name, b.name);
    }
}

/// `pkg_lt` is connected: packages not strictly ordered either way are equal.
pub proof fn lemma_pkg_lt_connected(a: PackageModel, b: PackageModel)
    requires
        !pkg_lt(a, b),
        !pkg_lt(b, a),
    ensures
        a == b,
{
    lemma_repo_lt_connected(a.repo, b.repo);
    lemma_seq_char_lt_connected(a.name, b.name);
    assert(a =~= b);
}

/// `pkg_lt` is transitive.
pub proof fn lemma_pkg_lt_transitive(a: PackageModel, b: PackageModel, c: PackageModel)
    requires
        pkg_lt(a, b),
        pkg_lt(b, c),
    ensures
        pkg_lt(a, c),
{
    if repo_lt(a.repo, b.repo) {
        if repo_lt(b.repo, c.repo) {
            lemma_repo_lt_transitive(a.repo, b.repo, c.repo);
        }
    } else {
        if !repo_lt(b.repo, c.repo) {
            lemma_seq_char_lt_transitive(a.name, b.name, c.name);
        }
    }
}

/// How a package is shown to the user: `repo/name` when the tag is present,
/// the bare name otherwise.
pub open spec fn pkg_display(p: PackageModel) -> Seq<char> {
    match p.repo {
        Option::Some(rp) => rp + seq!['/'] + p.name,
        Option::None => p.name,
    }
}

impl Package {
    pub fn new(name: String, repo: Option<String>) -> (r: Package)
        ensures
            r.name == name,
            r.repo == repo,
    {
        Package { repo, name }
    }

    /// Whether two packages are the same `(repo, name)` pair.
    pub fn same_as(&self, other: &Package) -> (r: bool)
        ensures
            r == (self@ == other@),
    {
        let names_equal = str_eq(self.name.as_str(), other.name.as_str());
        let r = match (&self.repo, &other.repo) {
            (Option::None, Option::None) => names_equal,
            (Option::Some(a), Option::Some(b)) => names_equal && str_eq(
                a.as_str(),
                b.as_str(),
            ),
            _ => false,
        };
        proof {
            if r {
                assert(self@ =~= other@);
            } else {
                if self@ == other@ {
                    assert(self@.name == other@.name);
                    assert(self@.repo == other@.repo);
                }
            }
        }
        r
    }

    /// Whether `self` comes strictly before `other` in the `(repo, name)` order.
    pub fn comes_before(&self, other: &Package) -> (r: bool)
        ensures
            r == pkg_lt(self@, other@),
    {
        match (&self.repo, &other.repo) {
            (Option::None, Option::None) => str_lt(self.name.as_str(), other.name.as_str()),
            (Option::None, Option::Some(_)) => true,
            (Option::Some(_), Option::None) => false,
            (Option::Some(a), Option::Some(b)) => {
                if str_eq(a.as_str(), b.as_str()) {
                    proof {
                        crate::text::lemma_seq_char_lt_irreflexive(a@);
                    }
                    str_lt(self.name.as_str(), other.name.as_str())
                } else {
                    str_lt(a.as_str(), b.as_str())
                }
            },
        }
    }

    /// Render the package for display: `repo/name`, or the bare name.
    pub fn display(&self) -> (r: String)
        ensures
            r@ == pkg_display(self@),
    {
        match &self.repo {
            Option::None => self.name.clone(),
            Option::Some(rp) => {
                let mut s = rp.clone();
                s.append("/");
                s.append(self.name.as_str());
                proof {
                    reveal_strlit("/");
                    assert("/"@ =~= seq!['/']);
                }
                s
            },
        }
    }
}

impl Clone for Package {
    fn clone(&self) -> (r: Self)
        ensures
            r@ == self@,
    {
        Package {
            repo: match &self.repo {
                Option::Some(s) => Option::Some(s.clone()),
                Option::None => Option::None,
            },
            name: self.name.clone(),
        }
    }
}

} // verus!
