use vstd::prelude::*;

use crate::deps::{Dep, DepV, FilterOptions, Kind, get_dependency_names, kind_active, names_of_kind};
use crate::usage::UsedSet;

verus! {

/// The declared names that the scanned source never references, in
/// declaration order: exactly the entries of `declared` absent from `used`.
/// Matching is by exact equality: a name declared with a hyphen is not
/// folded to the underscore form it is referenced by in source, so such a
/// declaration is reported unused even when the folded form is referenced.
pub open spec fn unused_names(declared: Seq<Seq<char>>, used: Set<Seq<char>>) -> Seq<Seq<char>> {
    declared.filter(|n: Seq<char>| !used.contains(n))
}

/// Computes the unused names of one declared-name list: those not member of
/// the used-identifier set, kept in declaration order.
pub fn resolve_unused(declared: &Vec<String>, used: &UsedSet) -> (unused: Vec<String>)
    ensures
        unused.deep_view() == unused_names(declared.deep_view(), used@),
{
    let ghost all = declared.deep_view();
    let ghost p = |n: Seq<char>| !used@.contains(n);
    let mut unused: Vec<String> = Vec::new();
    for i in 0..declared.len()
        invariant
            all == declared.deep_view(),
            p == (|n: Seq<char>| !used@.contains(n)),
            unused.deep_view() == all.take(i as int).filter(p),
    {
        proof {
            assert(all[i as int] == declared[i as int]@);
            assert(all.take(i + 1).drop_last() =~= all.take(i as int));
            assert(all.take(i + 1).last() == all[i as int]);
        }
        let ghost prev = unused.deep_view();
        if !used.contains(&declared[i]) {
            unused.push(declared[i].clone());
            proof {
                assert(unused.deep_view() =~= prev.push(all[i as int]));
                assert(all.take(i + 1).filter(p) =~= all.take(i as int).filter(p).push(
                    all[i as int],
                )) by {
                    reveal(Seq::filter);
                }
            }
        } else {
            proof {
                assert(all.take(i + 1).filter(p) =~= all.take(i as int).filter(p)) by {
                    reveal(Seq::filter);
                }
            }
        }
    }
    proof {
        assert(all.take(declared.len() as int) =~= all);
    }
    unused
}

/// What the analysis reports for kind `k` of a package whose declared
/// dependencies are `deps` and whose source references `used`: the unused
/// declared names of that kind when the kind is active, and nothing when the
/// filter leaves the kind out.
pub open spec fn report_for_kind(
    deps: Seq<DepV>,
    used: Set<Seq<char>>,
    filter: FilterOptions,
    k: Kind,
) -> Seq<Seq<char>> {
    if kind_active(filter, k) {
        unused_names(names_of_kind(deps, k), used)
    } else {
        Seq::empty()
    }
}

/// The unused-dependency report of one package: one name list per kind, each
/// in declaration order, and empty for a kind the filter leaves out.
pub struct Report {
    pub unused_regular: Vec<String>,
    pub unused_dev: Vec<String>,
    pub unused_build: Vec<String>,
}

/// The mathematical content of a `Report`.
pub ghost struct ReportV {
    pub regular: Seq<Seq<char>>,
    pub dev: Seq<Seq<char>>,
    pub build: Seq<Seq<char>>,
}

impl View for Report {
    type V = ReportV;

    open spec fn view(&self) -> ReportV {
        ReportV {
            regular: self.unused_regular.deep_view(),
            dev: self.unused_dev.deep_view(),
            build: self.unused_build.deep_view(),
        }
    }
}

/// Resolves the unused names of one kind under the filter.
fn resolve_for_kind(deps: &Vec<Dep>, used: &UsedSet, filter: &FilterOptions, k: Kind) -> (r: Vec<
    String,
>)
    ensures
        r.deep_view() == report_for_kind(deps.deep_view(), used@, *filter, k),
{
    if crate::deps::is_kind_active(filter, k) {
        let declared = get_dependency_names(deps, k);
        resolve_unused(&declared, used)
    } else {
        let r: Vec<String> = Vec::new();
        proof {
            assert(r.deep_view() =~= Seq::<Seq<char>>::empty());
        }
        r
    }
}

/// Reconciles one package's declared dependencies against its
/// used-identifier set, per kind and under the caller's filter: for each
/// active kind exactly the declared names absent from `used`, in declaration
/// order, and an empty list for each inactive kind.
pub fn analyze_package(deps: &Vec<Dep>, used: &UsedSet, filter: &FilterOptions) -> (report: Report)
    ensures
        report@.regular == report_for_kind(deps.deep_view(), used@, *filter, Kind::Regular),
        report@.dev == report_for_kind(deps.deep_view(), used@, *filter, Kind::Development),
        report@.build == report_for_kind(deps.deep_view(), used@, *filter, Kind::Build),
{
    let unused_regular = resolve_for_kind(deps, used, filter, Kind::Regular);
    let unused_dev = resolve_for_kind(deps, used, filter, Kind::Development);
    let unused_build = resolve_for_kind(deps, used, filter, Kind::Build);
    Report { unused_regular, unused_dev, unused_build }
}

/// Conservatism of unused detection: a declared name that the scanned source
/// references — that is a member of the used-identifier set — is never
/// reported unused, whatever kind it was declared under and whatever the
/// filter selects.
pub proof fn lemma_conservatism(
    deps: Seq<DepV>,
    used: Set<Seq<char>>,
    filter: FilterOptions,
    k: Kind,
    name: Seq<char>,
)
    requires
        used.contains(name),
    ensures
        !report_for_kind(deps, used, filter, k).contains(name),
{
    if kind_active(filter, k) {
        let names = names_of_kind(deps, k);
        let p = |n: Seq<char>| !used.contains(n);
        let r = names.filter(p);
        if r.contains(name) {
            let i = choose|i: int| 0 <= i < r.len() && #[trigger] r[i] == name;
            names.lemma_filter_pred(p, i);
            assert(false);
        }
    } else {
        assert(!Seq::<Seq<char>>::empty().contains(name));
    }
}

/// Conservatism, from the scan to the report: a declared name that the
/// extractor yields for any scanned file of the package is never reported
/// unused, whatever kind it was declared under and whatever the filter
/// selects.
pub proof fn lemma_conservatism_of_scan(
    deps: Seq<DepV>,
    files: Seq<Seq<Seq<char>>>,
    filter: FilterOptions,
    k: Kind,
    i: int,
    name: Seq<char>,
)
    requires
        0 <= i < files.len(),
        files[i].contains(name),
    ensures
        !report_for_kind(deps, crate::usage::idents_of_files(files), filter, k).contains(name),
{
    crate::usage::lemma_aggregation_sound(files, i, name);
    lemma_conservatism(deps, crate::usage::idents_of_files(files), filter, k, name);
}

/// The declared dependencies a fix pass keeps: every dependency of an
/// inactive kind, and of an active kind those whose name the source uses.
pub open spec fn deps_after_fix(deps: Seq<DepV>, used: Set<Seq<char>>, filter: FilterOptions) -> Seq<
    DepV,
> {
    deps.filter(|d: DepV| !kind_active(filter, d.kind) || used.contains(d.name))
}

/// Idempotence of a fix pass: analyzing again what the pass kept reports no
/// further unused dependency for any kind, under the same filter.
pub proof fn lemma_fix_idempotent(
    deps: Seq<DepV>,
    used: Set<Seq<char>>,
    filter: FilterOptions,
    k: Kind,
)
    ensures
        report_for_kind(deps_after_fix(deps, used, filter), used, filter, k) == Seq::<Seq<
            char,
        >>::empty(),
{
    if kind_active(filter, k) {
        let keep = |d: DepV| !kind_active(filter, d.kind) || used.contains(d.name);
        let kept = deps.filter(keep);
        let ofk = |d: DepV| d.kind == k;
        let kf = kept.filter(ofk);
        let names = names_of_kind(kept, k);
        assert forall|i: int| 0 <= i < names.len() implies used.contains(#[trigger] names[i]) by {
            kept.lemma_filter_pred(ofk, i);
            assert(names[i] == kf[i].name);
            assert(kf.contains(kf[i]));
            kept.lemma_filter_contains_rev(ofk, kf[i]);
            let j = choose|j: int| 0 <= j < kept.len() && #[trigger] kept[j] == kf[i];
            deps.lemma_filter_pred(keep, j);
        }
        let p = |n: Seq<char>| !used.contains(n);
        let second = names.filter(p);
        if second.len() > 0 {
            names.lemma_filter_pred(p, 0);
            names.lemma_filter_contains_rev(p, second[0]);
            let i = choose|i: int| 0 <= i < names.len() && #[trigger] names[i] == second[0];
            assert(false);
        }
        assert(second =~= Seq::<Seq<char>>::empty());
    }
}

/// Which single kind the filter isolates, if any: exactly that kind's flag is
/// set.
pub open spec fn selects_only(filter: FilterOptions, k: Kind) -> bool {
    match k {
        Kind::Regular => filter.only_regular && !filter.only_dev && !filter.only_build,
        Kind::Development => filter.only_dev && !filter.only_regular && !filter.only_build,
        Kind::Build => filter.only_build && !filter.only_regular && !filter.only_dev,
    }
}

/// Kind isolation: when the filter isolates a single kind, the report for
/// each of the other two kinds is empty, whatever is declared and used.
pub proof fn lemma_kind_isolation(
    deps: Seq<DepV>,
    used: Set<Seq<char>>,
    filter: FilterOptions,
    k: Kind,
    other: Kind,
)
    requires
        selects_only(filter, k),
        other != k,
    ensures
        report_for_kind(deps, used, filter, other) == Seq::<Seq<char>>::empty(),
{
    assert(!kind_active(filter, other));
}

} // verus!
