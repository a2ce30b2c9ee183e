use vstd::prelude::*;

use crate::deps::Kind;
use crate::resolve::{Report, ReportV};

verus! {

#[verifier::external_type_specification]
#[verifier::external_body]
pub struct ExDocumentMut(toml_edit::DocumentMut);

/// What a manifest document holds, as far as this library reads it: each
/// top-level key whose item is a standard (non-inline) table, mapped to the
/// set of that table's visible keys.
pub uninterp spec fn doc_tables(d: toml_edit::DocumentMut) -> Map<Seq<char>, Set<Seq<char>>>;

/// Whether `toml_edit` parses this text as a document.
pub uninterp spec fn manifest_parse_ok(s: Seq<char>) -> bool;

/// The top-level tables, with their key sets, of the document that this text
/// parses to.
pub uninterp spec fn manifest_tables_of(s: Seq<char>) -> Map<Seq<char>, Set<Seq<char>>>;

/// The text a manifest document serializes to.
pub uninterp spec fn doc_text(d: toml_edit::DocumentMut) -> Seq<char>;

/// Relies on toml_edit's `FromStr for DocumentMut`: whether the text parses
/// depends on the text alone, and on success the document represents the
/// text's tables. A parse error is handed back as its display text.
#[verifier::external_body]
fn parse_document(text: &str) -> (r: Result<toml_edit::DocumentMut, String>)
    ensures
        (r is Ok) == manifest_parse_ok(text@),
        r matches Ok(d) ==> doc_tables(d) == manifest_tables_of(text@),
{
    match text.parse::<toml_edit::DocumentMut>() {
        Ok(d) => Ok(d),
        Err(e) => Err(e.to_string()),
    }
}

/// Relies on toml_edit's `Table::contains_key` and `Table::remove`, reached
/// through `DocumentMut::get_mut`: when the named top-level item is a
/// standard table holding `key`, exactly that entry leaves that table;
/// otherwise the document is not touched.
#[verifier::external_body]
fn remove_dep_key(doc: &mut toml_edit::DocumentMut, table: &str, key: &str) -> (removed: bool)
    ensures
        removed == (doc_tables(*old(doc)).contains_key(table@) && doc_tables(*old(doc))[table@]
            .contains(key@)),
        removed ==> doc_tables(*final(doc)) == doc_tables(*old(doc)).insert(
            table@,
            doc_tables(*old(doc))[table@].remove(key@),
        ),
        !removed ==> *final(doc) == *old(doc),
{
    match doc.get_mut(table) {
        Some(toml_edit::Item::Table(tbl)) => {
            if tbl.contains_key(key) {
                tbl.remove(key);
                true
            } else {
                false
            }
        },
        _ => false,
    }
}

/// Relies on `Display for DocumentMut`: the serialization is a function of
/// the document alone.
#[verifier::external_body]
fn document_to_string(doc: &toml_edit::DocumentMut) -> (r: String)
    ensures
        r@ == doc_text(*doc),
{
    doc.to_string()
}

/// The manifest table that dependencies of kind `k` are declared in.
pub open spec fn dep_table_name(k: Kind) -> Seq<char> {
    match k {
        Kind::Regular => "dependencies"@,
        Kind::Development => "dev-dependencies"@,
        Kind::Build => "build-dependencies"@,
    }
}

/// The table name of kind `k` as text.
fn dep_table_str(k: Kind) -> (r: &'static str)
    ensures
        r@ == dep_table_name(k),
{
    match k {
        Kind::Regular => "dependencies",
        Kind::Development => "dev-dependencies",
        Kind::Build => "build-dependencies",
    }
}

/// The three table names name three different tables.
pub proof fn lemma_table_names_distinct()
    ensures
        dep_table_name(Kind::Regular) != dep_table_name(Kind::Development),
        dep_table_name(Kind::Regular) != dep_table_name(Kind::Build),
        dep_table_name(Kind::Development) != dep_table_name(Kind::Build),
{
    reveal_strlit("dependencies");
    reveal_strlit("dev-dependencies");
    reveal_strlit("build-dependencies");
    assert(dep_table_name(Kind::Regular).len() == 12);
    assert(dep_table_name(Kind::Development).len() == 16);
    assert(dep_table_name(Kind::Build).len() == 18);
}

/// One kind's edit of the table model: when the kind's table exists, the
/// listed names leave its key set; every other table, and a missing table,
/// is untouched.
pub open spec fn tables_after_kind_edit(
    t: Map<Seq<char>, Set<Seq<char>>>,
    table: Seq<char>,
    names: Seq<Seq<char>>,
) -> Map<Seq<char>, Set<Seq<char>>> {
    if t.contains_key(table) {
        t.insert(table, t[table].difference(names.to_set()))
    } else {
        t
    }
}

/// Whether removing `names` from `table` removes at least one entry.
pub open spec fn kind_removal(
    t: Map<Seq<char>, Set<Seq<char>>>,
    table: Seq<char>,
    names: Seq<Seq<char>>,
) -> bool {
    t.contains_key(table) && exists|i: int|
        0 <= i < names.len() && t[table].contains(#[trigger] names[i])
}

proof fn lemma_take_succ_to_set(s: Seq<Seq<char>>, i: int)
    requires
        0 <= i < s.len(),
    ensures
        s.take(i + 1).to_set() =~= s.take(i).to_set().insert(s[i]),
{
    assert forall|x: Seq<char>| #[trigger] s.take(i + 1).contains(x) <==> s.take(i).contains(x)
        || x == s[i] by {
        if s.take(i + 1).contains(x) {
            let m = choose|m: int| 0 <= m < s.take(i + 1).len() && #[trigger] s.take(i + 1)[m] == x;
            if m < i {
                assert(s.take(i)[m] == x);
            }
        }
        if s.take(i).contains(x) {
            let m = choose|m: int| 0 <= m < s.take(i).len() && #[trigger] s.take(i)[m] == x;
            assert(s.take(i + 1)[m] == x);
        }
        if x == s[i] {
            assert(s.take(i + 1)[i] == x);
        }
    }
}

/// Removes every listed name from the table of kind `k`, reporting whether
/// any entry was in fact removed.
fn remove_unused_of_kind(doc: &mut toml_edit::DocumentMut, k: Kind, names: &Vec<String>) -> (changed:
    bool)
    ensures
        doc_tables(*final(doc)) == tables_after_kind_edit(
            doc_tables(*old(doc)),
            dep_table_name(k),
            names.deep_view(),
        ),
        changed == kind_removal(doc_tables(*old(doc)), dep_table_name(k), names.deep_view()),
        !changed ==> *final(doc) == *old(doc),
{
    let table = dep_table_str(k);
    let ghost d0 = *doc;
    let ghost t0 = doc_tables(*doc);
    let ghost tname = dep_table_name(k);
    let ghost ns = names.deep_view();
    let mut changed = false;
    proof {
        assert(ns.take(0).to_set() =~= Set::<Seq<char>>::empty());
        if t0.contains_key(tname) {
            assert(t0[tname].difference(ns.take(0).to_set()) =~= t0[tname]);
            assert(t0.insert(tname, t0[tname].difference(ns.take(0).to_set())) =~= t0);
        }
    }
    for i in 0..names.len()
        invariant
            ns == names.deep_view(),
            tname == dep_table_name(k),
            table@ == tname,
            t0 == doc_tables(d0),
            doc_tables(*doc) == tables_after_kind_edit(t0, tname, ns.take(i as int)),
            changed == kind_removal(t0, tname, ns.take(i as int)),
            !changed ==> *doc == d0,
    {
        proof {
            assert(ns[i as int] == names[i as int]@);
        }
        let ghost cur = doc_tables(*doc);
        let removed = remove_dep_key(doc, table, &names[i]);
        proof {
            lemma_take_succ_to_set(ns, i as int);
            if t0.contains_key(tname) {
                let all = t0[tname];
                assert(cur == t0.insert(tname, all.difference(ns.take(i as int).to_set())));
                assert(cur[tname] == all.difference(ns.take(i as int).to_set()));
                if removed {
                    assert(all.difference(ns.take(i + 1).to_set()) =~= cur[tname].remove(
                        ns[i as int],
                    ));
                    assert(doc_tables(*doc) =~= tables_after_kind_edit(t0, tname, ns.take(i + 1)));
                } else {
                    assert(all.difference(ns.take(i + 1).to_set()) =~= cur[tname]);
                    assert(doc_tables(*doc) =~= tables_after_kind_edit(t0, tname, ns.take(i + 1)));
                }
                if changed || removed {
                    if removed && !changed {
                        assert(all.contains(ns[i as int]));
                        assert(ns.take(i + 1)[i as int] == ns[i as int]);
                        assert(all.contains(ns.take(i + 1)[i as int]));
                        assert(kind_removal(t0, tname, ns.take(i + 1)));
                    } else {
                        let j = choose|j: int|
                            0 <= j < ns.take(i as int).len() && all.contains(
                                #[trigger] ns.take(i as int)[j],
                            );
                        assert(ns.take(i + 1)[j] == ns.take(i as int)[j]);
                        assert(kind_removal(t0, tname, ns.take(i + 1)));
                    }
                } else {
                    if kind_removal(t0, tname, ns.take(i + 1)) {
                        let j = choose|j: int|
                            0 <= j < ns.take(i + 1).len() && all.contains(
                                #[trigger] ns.take(i + 1)[j],
                            );
                        if j < i {
                            assert(all.contains(ns.take(i as int)[j]));
                            assert(false);
                        } else {
                            assert(all.contains(ns[i as int]));
                            if ns.take(i as int).to_set().contains(ns[i as int]) {
                                let m = choose|m: int|
                                    0 <= m < ns.take(i as int).len() && #[trigger] ns.take(
                                        i as int,
                                    )[m] == ns[i as int];
                                assert(all.contains(ns.take(i as int)[m]));
                                assert(false);
                            }
                            assert(cur[tname].contains(ns[i as int]));
                            assert(false);
                        }
                    }
                }
            } else {
                assert(cur == t0);
                assert(!removed);
                assert(doc_tables(*doc) == tables_after_kind_edit(t0, tname, ns.take(i + 1)));
                assert(!kind_removal(t0, tname, ns.take(i + 1)));
            }
        }
        changed = changed || removed;
    }
    proof {
        assert(ns.take(names.len() as int) =~= ns);
    }
    changed
}

/// The table model after a whole fix pass: the report's three name lists
/// removed from their three tables, in kind order.
pub open spec fn edited_tables(t: Map<Seq<char>, Set<Seq<char>>>, r: ReportV) -> Map<
    Seq<char>,
    Set<Seq<char>>,
> {
    tables_after_kind_edit(
        tables_after_kind_edit(
            tables_after_kind_edit(t, dep_table_name(Kind::Regular), r.regular),
            dep_table_name(Kind::Development),
            r.dev,
        ),
        dep_table_name(Kind::Build),
        r.build,
    )
}

/// Whether a fix pass for report `r` removes at least one entry from a
/// manifest with table model `t`.
pub open spec fn any_removal(t: Map<Seq<char>, Set<Seq<char>>>, r: ReportV) -> bool {
    ||| kind_removal(t, dep_table_name(Kind::Regular), r.regular)
    ||| kind_removal(t, dep_table_name(Kind::Development), r.dev)
    ||| kind_removal(t, dep_table_name(Kind::Build), r.build)
}

proof fn lemma_kind_edit_preserves_others(
    t: Map<Seq<char>, Set<Seq<char>>>,
    table: Seq<char>,
    names: Seq<Seq<char>>,
    other: Seq<char>,
)
    requires
        other != table,
    ensures
        tables_after_kind_edit(t, table, names).contains_key(other) == t.contains_key(other),
        t.contains_key(other) ==> tables_after_kind_edit(t, table, names)[other] == t[other],
        kind_removal(tables_after_kind_edit(t, table, names), other, names) == kind_removal(
            t,
            other,
            names,
        ),
{
}

/// Removes every reported unused entry from its table in the manifest
/// document, and says whether anything was removed at all: exactly when the
/// document holds, under a table-shaped item of one of the three dependency
/// tables, a key the report lists for that kind. When nothing is removed the
/// document is left untouched.
pub fn apply_fix(doc: &mut toml_edit::DocumentMut, report: &Report) -> (changed: bool)
    ensures
        doc_tables(*final(doc)) == edited_tables(doc_tables(*old(doc)), report@),
        changed == any_removal(doc_tables(*old(doc)), report@),
        !changed ==> *final(doc) == *old(doc),
{
    proof {
        lemma_table_names_distinct();
    }
    let ghost t0 = doc_tables(*doc);
    let c_regular = remove_unused_of_kind(doc, Kind::Regular, &report.unused_regular);
    let ghost t1 = doc_tables(*doc);
    let c_dev = remove_unused_of_kind(doc, Kind::Development, &report.unused_dev);
    let ghost t2 = doc_tables(*doc);
    let c_build = remove_unused_of_kind(doc, Kind::Build, &report.unused_build);
    proof {
        lemma_kind_edit_preserves_others(
            t0,
            dep_table_name(Kind::Regular),
            report@.dev,
            dep_table_name(Kind::Development),
        );
        lemma_kind_edit_preserves_others(
            t0,
            dep_table_name(Kind::Regular),
            report@.build,
            dep_table_name(Kind::Build),
        );
        lemma_kind_edit_preserves_others(
            t1,
            dep_table_name(Kind::Development),
            report@.build,
            dep_table_name(Kind::Build),
        );
    }
    c_regular || c_dev || c_build
}

/// Non-destructive editing: a fix pass never adds or drops a table, never
/// adds a key, and keeps every key it does not explicitly remove — in the
/// three dependency tables every key the report does not list for that
/// kind's table, and in every other table every key.
pub proof fn lemma_non_destructive(t: Map<Seq<char>, Set<Seq<char>>>, r: ReportV)
    ensures
        edited_tables(t, r).dom() =~= t.dom(),
        forall|n: Seq<char>|
            t.contains_key(n) && n != dep_table_name(Kind::Regular) && n != dep_table_name(
                Kind::Development,
            ) && n != dep_table_name(Kind::Build) ==> edited_tables(t, r)[n] == t[n],
        forall|n: Seq<char>, key: Seq<char>|
            t.contains_key(n) && t[n].contains(key) && !(n == dep_table_name(Kind::Regular)
                && r.regular.contains(key)) && !(n == dep_table_name(Kind::Development)
                && r.dev.contains(key)) && !(n == dep_table_name(Kind::Build) && r.build.contains(
                key,
            )) ==> #[trigger] edited_tables(t, r)[n].contains(key),
        forall|n: Seq<char>, key: Seq<char>|
            t.contains_key(n) && #[trigger] edited_tables(t, r)[n].contains(key) ==> t[n].contains(
                key,
            ),
{
    let e = edited_tables(t, r);
    assert(e.dom() =~= t.dom());
    assert forall|n: Seq<char>, key: Seq<char>|
        t.contains_key(n) && t[n].contains(key) && !(n == dep_table_name(Kind::Regular)
            && r.regular.contains(key)) && !(n == dep_table_name(Kind::Development)
            && r.dev.contains(key)) && !(n == dep_table_name(Kind::Build) && r.build.contains(
            key,
        )) implies #[trigger] e[n].contains(key) by {
        if n == dep_table_name(Kind::Regular) {
            assert(!r.regular.to_set().contains(key));
        }
        if n == dep_table_name(Kind::Development) {
            assert(!r.dev.to_set().contains(key));
        }
        if n == dep_table_name(Kind::Build) {
            assert(!r.build.to_set().contains(key));
        }
    }
}

/// Kind isolation at the manifest: a fix pass whose report lists nothing for
/// two of the kinds keeps those kinds' tables — and every other table —
/// exactly as they were; only the remaining kind's table can lose entries.
pub proof fn lemma_isolated_fix(t: Map<Seq<char>, Set<Seq<char>>>, r: ReportV, k: Kind)
    requires
        k != Kind::Regular ==> r.regular.len() == 0,
        k != Kind::Development ==> r.dev.len() == 0,
        k != Kind::Build ==> r.build.len() == 0,
    ensures
        edited_tables(t, r).dom() =~= t.dom(),
        forall|n: Seq<char>|
            t.contains_key(n) && n != dep_table_name(k) ==> #[trigger] edited_tables(t, r)[n]
                == t[n],
{
    let n1 = dep_table_name(Kind::Regular);
    let n2 = dep_table_name(Kind::Development);
    let n3 = dep_table_name(Kind::Build);
    let e1 = tables_after_kind_edit(t, n1, r.regular);
    let e2 = tables_after_kind_edit(e1, n2, r.dev);
    let e3 = tables_after_kind_edit(e2, n3, r.build);
    assert(e3.dom() =~= t.dom());
    assert forall|n: Seq<char>| t.contains_key(n) && n != dep_table_name(k) implies #[trigger] e3[n]
        == t[n] by {
        if n == n1 && t.contains_key(n1) && k != Kind::Regular {
            assert(t[n].difference(r.regular.to_set()) =~= t[n]);
        }
        assert(e1[n] == t[n]);
        if n == n2 && e1.contains_key(n2) && k != Kind::Development {
            assert(e1[n].difference(r.dev.to_set()) =~= e1[n]);
        }
        assert(e2[n] == t[n]);
        if n == n3 && e2.contains_key(n3) && k != Kind::Build {
            assert(e2[n].difference(r.build.to_set()) =~= e2[n]);
        }
        assert(e3[n] == t[n]);
    }
}

/// No-op suppression: a report that lists nothing for any kind removes
/// nothing, and the edited model is the model itself.
pub proof fn lemma_noop_edit(t: Map<Seq<char>, Set<Seq<char>>>, r: ReportV)
    requires
        r.regular.len() == 0,
        r.dev.len() == 0,
        r.build.len() == 0,
    ensures
        edited_tables(t, r) == t,
        !any_removal(t, r),
{
    assert forall|table: Seq<char>, names: Seq<Seq<char>>|
        names.len() == 0 implies #[trigger] tables_after_kind_edit(t, table, names) == t by {
        if t.contains_key(table) {
            assert(t[table].difference(names.to_set()) =~= t[table]);
            assert(t.insert(table, t[table].difference(names.to_set())) =~= t);
        }
    }
    assert(tables_after_kind_edit(t, dep_table_name(Kind::Regular), r.regular) == t);
    assert(edited_tables(t, r) == t);
}

/// A fatal manifest failure: the manifest text cannot be parsed as a
/// document, with the parser's description of the fault.
#[derive(Debug)]
pub struct ManifestError {
    pub message: String,
}

/// One package's whole fix pass over its manifest text. Fails exactly when
/// the text does not parse. Otherwise returns the rewritten text exactly
/// when the pass removes at least one entry, and `None` — the file is not to
/// be rewritten — when it removes nothing.
pub fn edit_manifest(text: &str, report: &Report) -> (r: Result<Option<String>, ManifestError>)
    ensures
        (r is Err) == !manifest_parse_ok(text@),
        manifest_parse_ok(text@) ==> (r matches Ok(opt) && ((opt is Some) == any_removal(
            manifest_tables_of(text@),
            report@,
        ))),
        r matches Ok(Some(s)) ==> exists|d: toml_edit::DocumentMut|
            #[trigger] doc_tables(d) == edited_tables(manifest_tables_of(text@), report@) && s@
                == doc_text(d),
{
    match parse_document(text) {
        Err(message) => Err(ManifestError { message }),
        Ok(mut doc) => {
            let changed = apply_fix(&mut doc, report);
            if changed {
                let ghost edited = doc;
                let out = document_to_string(&doc);
                proof {
                    assert(doc_tables(edited) == edited_tables(manifest_tables_of(text@), report@)
                        && out@ == doc_text(edited));
                }
                Ok(Some(out))
            } else {
                Ok(None)
            }
        },
    }
}

} // verus!
