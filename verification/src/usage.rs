use vstd::prelude::*;

verus! {

/// The identifiers seen as the leading segment of some path anywhere in a
/// package's scanned source. Presence is the only signal: no order and no
/// multiplicity is kept, which the view reflects by being a set.
pub struct UsedSet {
    names: Vec<String>,
}

impl View for UsedSet {
    type V = Set<Seq<char>>;

    closed spec fn view(&self) -> Set<Seq<char>> {
        self.names.deep_view().to_set()
    }
}

impl UsedSet {
    /// An empty used-identifier set.
    pub fn new() -> (s: UsedSet)
        ensures
            s@ == Set::<Seq<char>>::empty(),
    {
        let s = UsedSet { names: Vec::new() };
        proof {
            assert(s@ =~= Set::<Seq<char>>::empty());
        }
        s
    }

    /// Records one identifier as used. Recording the same identifier again
    /// leaves the set unchanged.
    pub fn insert(&mut self, name: String)
        ensures
            final(self)@ == old(self)@.insert(name@),
    {
        let ghost prev = self.names.deep_view();
        let ghost nv = name@;
        self.names.push(name);
        proof {
            assert(self.names.deep_view() =~= prev.push(nv));
            assert forall|x: Seq<char>| #[trigger] prev.push(nv).contains(x)
                <==> prev.contains(x) || x == nv by {
                if prev.push(nv).contains(x) {
                    let i = choose|i: int|
                        0 <= i < prev.push(nv).len() && prev.push(nv)[i] == x;
                    if i < prev.len() {
                        assert(prev[i] == x);
                    }
                }
                if prev.contains(x) {
                    let i = choose|i: int| 0 <= i < prev.len() && prev[i] == x;
                    assert(prev.push(nv)[i] == x);
                }
                if x == nv {
                    assert(prev.push(nv)[prev.len() as int] == x);
                }
            }
            assert(self@ =~= old(self)@.insert(nv));
        }
    }

    /// Whether `name` was recorded as used.
    pub fn contains(&self, name: &String) -> (r: bool)
        ensures
            r == self@.contains(name@),
    {
        let ghost all = self.names.deep_view();
        for i in 0..self.names.len()
            invariant
                all == self.names.deep_view(),
                forall|j: int| 0 <= j < i ==> all[j] != name@,
        {
            if self.names[i] == *name {
                proof {
                    assert(all[i as int] == name@);
                    assert(all.contains(name@));
                }
                return true;
            }
        }
        proof {
            if all.contains(name@) {
                let j = choose|j: int| 0 <= j < all.len() && all[j] == name@;
                assert(false);
            }
        }
        false
    }
}

/// The identifiers referenced anywhere across a collection of per-file
/// identifier lists: the union of all of them.
pub open spec fn idents_of_files(files: Seq<Seq<Seq<char>>>) -> Set<Seq<char>> {
    Set::new(
        |x: Seq<char>| exists|i: int| 0 <= i < files.len() && #[trigger] files[i].contains(x),
    )
}

/// Soundness of aggregation: an identifier that the extractor yields for any
/// one scanned file is a member of the package's whole used-identifier set —
/// nothing a file contributes is ever dropped.
pub proof fn lemma_aggregation_sound(files: Seq<Seq<Seq<char>>>, i: int, x: Seq<char>)
    requires
        0 <= i < files.len(),
        files[i].contains(x),
    ensures
        idents_of_files(files).contains(x),
{
}

/// Unions the per-file identifier lists of one package into its
/// used-identifier set. Every identifier of every file is kept, and nothing
/// else.
pub fn aggregate_used(file_idents: &Vec<Vec<String>>) -> (used: UsedSet)
    ensures
        used@ == idents_of_files(file_idents.deep_view()),
{
    let ghost files = file_idents.deep_view();
    let mut used = UsedSet::new();
    for i in 0..file_idents.len()
        invariant
            files == file_idents.deep_view(),
            used@ == idents_of_files(files.take(i as int)),
    {
        let ghost file = files[i as int];
        let fi = &file_idents[i];
        for j in 0..fi.len()
            invariant
                files == file_idents.deep_view(),
                file == files[i as int],
                fi.deep_view() == file,
                0 <= i < files.len(),
                used@ == idents_of_files(files.take(i as int)).union(file.take(j as int).to_set()),
        {
            used.insert(fi[j].clone());
            proof {
                assert(fi.deep_view()[j as int] == fi[j as int]@);
                assert forall|x: Seq<char>| #[trigger] file.take(j + 1).contains(x)
                    <==> file.take(j as int).contains(x) || x == file[j as int] by {
                    if file.take(j + 1).contains(x) {
                        let m = choose|m: int|
                            0 <= m < file.take(j + 1).len() && #[trigger] file.take(j + 1)[m]
                                == x;
                        if m < j {
                            assert(file.take(j as int)[m] == x);
                        }
                    }
                    if file.take(j as int).contains(x) {
                        let m = choose|m: int|
                            0 <= m < file.take(j as int).len() && #[trigger] file.take(
                                j as int,
                            )[m] == x;
                        assert(file.take(j + 1)[m] == x);
                    }
                    if x == file[j as int] {
                        assert(file.take(j + 1)[j as int] == x);
                    }
                }
                assert(used@ =~= idents_of_files(files.take(i as int)).union(
                    file.take(j + 1).to_set(),
                ));
            }
        }
        proof {
            assert(file.take(file.len() as int) =~= file);
            assert forall|x: Seq<char>| #[trigger] idents_of_files(files.take(i + 1)).contains(x)
                <==> idents_of_files(files.take(i as int)).union(file.to_set()).contains(x) by {
                if idents_of_files(files.take(i + 1)).contains(x) {
                    let m = choose|m: int|
                        0 <= m < files.take(i + 1).len() && #[trigger] files.take(i + 1)[m].contains(
                            x,
                        );
                    if m < i {
                        assert(files.take(i as int)[m].contains(x));
                    } else {
                        assert(file.contains(x));
                    }
                }
                if idents_of_files(files.take(i as int)).contains(x) {
                    let m = choose|m: int|
                        0 <= m < files.take(i as int).len() && #[trigger] files.take(
                            i as int,
                        )[m].contains(x);
                    assert(files.take(i + 1)[m].contains(x));
                }
                if file.to_set().contains(x) {
                    assert(files.take(i + 1)[i as int].contains(x));
                }
            }
            assert(used@ =~= idents_of_files(files.take(i + 1)));
        }
    }
    proof {
        assert(files.take(file_idents.len() as int) =~= files);
    }
    used
}

} // verus!
