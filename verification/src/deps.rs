use vstd::prelude::*;

verus! {

/// The three places a manifest can declare a dependency: a normal build,
/// tests and examples only, or the build script only.
#[derive(PartialEq, Eq, Structural, Clone, Copy, Debug)]
pub enum Kind {
    Regular,
    Development,
    Build,
}

/// One declared dependency of a package: its name together with the kind it
/// was declared under. The same name may be declared under several kinds.
#[derive(Debug)]
pub struct Dep {
    pub name: String,
    pub kind: Kind,
}

/// The mathematical content of a `Dep`: the name as a sequence of characters
/// and the kind.
pub ghost struct DepV {
    pub name: Seq<char>,
    pub kind: Kind,
}

impl View for Dep {
    type V = DepV;

    open spec fn view(&self) -> DepV {
        DepV { name: self.name@, kind: self.kind }
    }
}

impl DeepView for Dep {
    type V = DepV;

    open spec fn deep_view(&self) -> DepV {
        self@
    }
}

/// The names declared under kind `k`, in declaration order.
pub open spec fn names_of_kind(deps: Seq<DepV>, k: Kind) -> Seq<Seq<char>> {
    deps.filter(|d: DepV| d.kind == k).map_values(|d: DepV| d.name)
}

/// Projects the declared dependencies of one kind to their names, keeping
/// declaration order.
pub fn get_dependency_names(dependencies: &Vec<Dep>, kind: Kind) -> (names: Vec<String>)
    ensures
        names.deep_view() == names_of_kind(dependencies.deep_view(), kind),
{
    let ghost all = dependencies.deep_view();
    let ghost f = |d: DepV| d.kind == kind;
    let mut names: Vec<String> = Vec::new();
    for i in 0..dependencies.len()
        invariant
            all == dependencies.deep_view(),
            f == (|d: DepV| d.kind == kind),
            names.deep_view() == names_of_kind(all.take(i as int), kind),
    {
        proof {
            assert(all[i as int] == dependencies[i as int]@);
            assert(all.take(i + 1).drop_last() =~= all.take(i as int));
            assert(all.take(i + 1).last() == all[i as int]);
        }
        let ghost prev = names.deep_view();
        if dependencies[i].kind == kind {
            names.push(dependencies[i].name.clone());
            proof {
                let d = all[i as int];
                assert(names.deep_view() =~= prev.push(d.name));
                assert(all.take(i + 1).filter(f) =~= all.take(i as int).filter(f).push(d)) by {
                    reveal(Seq::filter);
                }
                assert(names_of_kind(all.take(i + 1), kind) =~= names_of_kind(
                    all.take(i as int),
                    kind,
                ).push(d.name));
            }
        } else {
            proof {
                assert(all.take(i + 1).filter(f) =~= all.take(i as int).filter(f)) by {
                    reveal(Seq::filter);
                }
                assert(names_of_kind(all.take(i + 1), kind) =~= names_of_kind(
                    all.take(i as int),
                    kind,
                ));
            }
        }
    }
    proof {
        assert(all.take(dependencies.len() as int) =~= all);
    }
    names
}

/// The caller's narrowing of the analysis: at most one of the three flags is
/// meant to be set; with none set, every kind is analyzed.
#[derive(PartialEq, Eq, Structural, Clone, Copy, Debug)]
pub struct FilterOptions {
    pub only_dev: bool,
    pub only_build: bool,
    pub only_regular: bool,
}

/// Whether dependencies of kind `k` are analyzed under filter `f`: a kind is
/// active when its own flag is set, or when neither of the other two is.
pub open spec fn kind_active(f: FilterOptions, k: Kind) -> bool {
    match k {
        Kind::Regular => f.only_regular || (!f.only_dev && !f.only_build),
        Kind::Development => f.only_dev || (!f.only_regular && !f.only_build),
        Kind::Build => f.only_build || (!f.only_regular && !f.only_dev),
    }
}

/// Decides whether kind `k` is analyzed under filter `f`.
pub fn is_kind_active(f: &FilterOptions, k: Kind) -> (r: bool)
    ensures
        r == kind_active(*f, k),
{
    match k {
        Kind::Regular => f.only_regular || (!f.only_dev && !f.only_build),
        Kind::Development => f.only_dev || (!f.only_regular && !f.only_build),
        Kind::Build => f.only_build || (!f.only_regular && !f.only_dev),
    }
}

/// Whatever flags are set, at least one kind is always analyzed: the resolved
/// active-kind set is never empty.
pub proof fn lemma_some_kind_active(f: FilterOptions)
    ensures
        exists|k: Kind| kind_active(f, k),
{
    if f.only_regular {
        assert(kind_active(f, Kind::Regular));
    } else if f.only_dev {
        assert(kind_active(f, Kind::Development));
    } else if f.only_build {
        assert(kind_active(f, Kind::Build));
    } else {
        assert(kind_active(f, Kind::Regular));
    }
}

} // verus!
