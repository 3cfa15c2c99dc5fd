//! What a whole spool comes to: rows appended for any panes, and then a drain of all of them.
//!
//! A spool directory is a map from the names in it to what each file holds. Rendering a row,
//! reading a line back and the pane a row names are the caller's, so they are arguments here.
use vstd::prelude::*;
use crate::spool::{
    carries, carrying, claimed_name, held_lines, law_a_pane_key_never_becomes_a_path,
    law_a_row_spooled_is_a_row_drained, law_a_spooled_file_is_drained, one_line, read_rows,
    row_line, spool_file, spool_name, stem,
};

verus! {

/// A spool directory: the names in it, and what each file holds.
pub type Files = Map<Seq<char>, Seq<char>>;

/// A spool after a rendered row has been appended for a pane.
pub open spec fn with_row(files: Files, pane: Seq<char>, row: Seq<char>) -> Files {
    let name = spool_name(pane);
    let held = if files.dom().contains(name) {
        files[name]
    } else {
        Seq::empty()
    };
    files.insert(name, held + row_line(row))
}

/// An empty spool after those rows have been appended in order.
pub open spec fn filled<R>(
    rows: Seq<R>,
    pane: spec_fn(R) -> Seq<char>,
    render: spec_fn(R) -> Seq<char>,
) -> Files
    decreases rows.len(),
{
    if rows.len() == 0 {
        Map::empty()
    } else {
        with_row(filled(rows.drop_last(), pane, render), pane(rows.last()), render(rows.last()))
    }
}

/// Whether `names` is a listing of the spool: each name in it, once, in some order.
pub open spec fn lists_spool(names: Seq<Seq<char>>, files: Files) -> bool {
    &&& names.no_duplicates()
    &&& forall|name: Seq<char>| #[trigger] names.contains(name) <==> files.dom().contains(name)
}

/// The names those files are claimed under, each with its own nonce.
pub open spec fn claims(spooled: Seq<Seq<char>>, nonces: Seq<nat>) -> Seq<Seq<char>> {
    Seq::new(spooled.len(), |i: int| claimed_name(spooled[i], nonces[i]))
}

/// A spool after those files have been claimed, one after the other.
pub open spec fn claimed(files: Files, spooled: Seq<Seq<char>>, nonces: Seq<nat>) -> Files
    decreases spooled.len(),
{
    if spooled.len() == 0 {
        files
    } else {
        let before = claimed(files, spooled.drop_last(), nonces);
        let from = spooled.last();
        before.remove(from).insert(claims(spooled, nonces).last(), before[from])
    }
}

/// The lines a drain hands over out of those files, in order.
pub open spec fn handed(files: Files, order: Seq<Seq<char>>) -> Seq<Seq<char>>
    decreases order.len(),
{
    if order.len() == 0 {
        Seq::empty()
    } else {
        handed(files, order.drop_last()) + held_lines(files[order.last()])
    }
}

/// What a drain of a spool comes to where nothing fails: the lines it hands over, and the spool
/// it leaves. `names` is the listing it works from and `nonces` what it claims with.
pub open spec fn drain_of(files: Files, names: Seq<Seq<char>>, nonces: Seq<nat>) -> (
    Seq<Seq<char>>,
    Files,
) {
    let spooled = carrying(names, "jsonl"@);
    let order = carrying(names, "draining"@) + claims(spooled, nonces);
    let moved = claimed(files, spooled, nonces);
    (handed(moved, order), moved.remove_keys(order.to_set()))
}

/// The rows of one pane, in order.
pub open spec fn in_pane<R>(rows: Seq<R>, pane: spec_fn(R) -> Seq<char>, key: Seq<char>) -> Seq<R> {
    rows.filter(|row: R| pane(row) == key)
}

/// The rows that are filed under a name, in order.
pub open spec fn filed<R>(rows: Seq<R>, pane: spec_fn(R) -> Seq<char>, name: Seq<char>) -> Seq<R> {
    rows.filter(|row: R| spool_name(pane(row)) == name)
}

/// The rows filed under each of those names, one name after the other.
pub open spec fn grouped<R>(
    rows: Seq<R>,
    pane: spec_fn(R) -> Seq<char>,
    names: Seq<Seq<char>>,
) -> Seq<R>
    decreases names.len(),
{
    if names.len() == 0 {
        Seq::empty()
    } else {
        grouped(rows, pane, names.drop_last()) + filed(rows, pane, names.last())
    }
}

proof fn lemma_spool_file_push(rows: Seq<Seq<char>>, row: Seq<char>)
    ensures
        spool_file(rows.push(row)) == spool_file(rows) + row_line(row),
    decreases rows.len(),
{
    let more = rows.push(row);
    if rows.len() == 0 {
        assert(more.skip(1) =~= rows);
        assert(spool_file(rows) =~= Seq::empty());
        assert(spool_file(more) =~= row_line(row));
        assert(spool_file(rows) + row_line(row) =~= row_line(row));
    } else {
        assert(more.skip(1) =~= rows.skip(1).push(row));
        lemma_spool_file_push(rows.skip(1), row);
        assert(spool_file(more) =~= spool_file(rows) + row_line(row));
    }
}

/// Each file of a filled spool holds the rows filed under its name, in order, and there is no
/// file but for a row.
proof fn lemma_filled<R>(
    rows: Seq<R>,
    pane: spec_fn(R) -> Seq<char>,
    render: spec_fn(R) -> Seq<char>,
)
    ensures
        forall|name: Seq<char>| #[trigger]
            filled(rows, pane, render).dom().contains(name) ==> filled(rows, pane, render)[name]
                == spool_file(filed(rows, pane, name).map_values(render)) && exists|i: int|
                0 <= i < rows.len() && spool_name(pane(#[trigger] rows[i])) == name,
        forall|i: int|
            0 <= i < rows.len() ==> filled(rows, pane, render).dom().contains(
                spool_name(pane(#[trigger] rows[i])),
            ),
        forall|name: Seq<char>|
            !(#[trigger] filled(rows, pane, render).dom().contains(name)) ==> filed(
                rows,
                pane,
                name,
            ).len() == 0,
    decreases rows.len(),
{
    reveal(Seq::filter);
    if rows.len() > 0 {
        let rest = rows.drop_last();
        let last = rows.last();
        let at = spool_name(pane(last));
        lemma_filled(rest, pane, render);
        let before = filled(rest, pane, render);
        let after = filled(rows, pane, render);
        assert forall|name: Seq<char>| #[trigger] after.dom().contains(name) implies after[name]
            == spool_file(filed(rows, pane, name).map_values(render)) && exists|i: int|
            0 <= i < rows.len() && spool_name(pane(#[trigger] rows[i])) == name by {
            if name == at {
                let kept = filed(rest, pane, name);
                assert(filed(rows, pane, name) == kept.push(last));
                assert(kept.push(last).map_values(render) =~= kept.map_values(render).push(
                    render(last),
                ));
                lemma_spool_file_push(kept.map_values(render), render(last));
                if !before.dom().contains(name) {
                    assert(kept.map_values(render) =~= Seq::empty());
                }
                assert(rows[rows.len() - 1] == last);
            } else {
                assert(before.dom().contains(name));
                assert(filed(rows, pane, name) == filed(rest, pane, name));
                let i = choose|i: int|
                    0 <= i < rest.len() && spool_name(pane(#[trigger] rest[i])) == name;
                assert(rows[i] == rest[i]);
            }
        }
        assert forall|i: int| 0 <= i < rows.len() implies after.dom().contains(
            spool_name(pane(#[trigger] rows[i])),
        ) by {
            if i < rest.len() {
                assert(rest[i] == rows[i]);
            }
        }
        assert forall|name: Seq<char>| !(#[trigger] after.dom().contains(name)) implies filed(
            rows,
            pane,
            name,
        ).len() == 0 by {
            assert(!before.dom().contains(name));
            assert(filed(rows, pane, name) == filed(rest, pane, name));
        }
    }
}

/// A spooled file's name carries its own extension and not a claimed one's.
proof fn lemma_not_claimed(pane: Seq<char>)
    requires
        pane.len() > 0,
    ensures
        carries(spool_name(pane), "jsonl"@),
        !carries(spool_name(pane), "draining"@),
{
    law_a_spooled_file_is_drained(pane, 0);
    reveal_strlit("jsonl");
    reveal_strlit("draining");
    let name = spool_name(pane);
    if carries(name, "draining"@) {
        let at = name.len() - 9;
        assert(name.skip(at + 1)[7] == name.last());
        assert(name.skip(name.len() - 5)[4] == name.last());
    }
}

/// Files of different names are claimed under different names, whatever the nonces, and a
/// claimed name is no spooled one.
proof fn lemma_claims_differ(a: Seq<char>, b: Seq<char>, m: nat, n: nat)
    requires
        a.len() > 0,
        b.len() > 0,
    ensures
        claimed_name(spool_name(a), m) != spool_name(b),
        claimed_name(spool_name(a), m) == claimed_name(spool_name(b), n) ==> spool_name(a)
            == spool_name(b),
{
    law_a_spooled_file_is_drained(a, m);
    lemma_not_claimed(b);
    reveal_strlit(".jsonl");
    reveal_strlit(".");
    let (x, y) = (claimed_name(spool_name(a), m), claimed_name(spool_name(b), n));
    assert(spool_name(a).take(spool_name(a).len() - 6) =~= stem(a));
    assert(spool_name(b).take(spool_name(b).len() - 6) =~= stem(b));
    if x == y {
        law_a_pane_key_never_becomes_a_path(a);
        law_a_pane_key_never_becomes_a_path(b);
        let (i, j) = (stem(a).len() as int, stem(b).len() as int);
        assert(x[i] == '.' && y[j] == '.');
        if i < j {
            assert(y[i] == stem(b)[i]);
        } else if j < i {
            assert(x[j] == stem(a)[j]);
        }
        assert(x.take(i) =~= stem(a));
        assert(y.take(j) =~= stem(b));
    }
}

/// Whether a name is that of a pane's spooled file.
pub open spec fn is_spooled(name: Seq<char>) -> bool {
    exists|pane: Seq<char>| pane.len() > 0 && name == #[trigger] spool_name(pane)
}

/// Whether every name is that of a spooled file.
pub open spec fn all_spooled(names: Seq<Seq<char>>) -> bool {
    forall|i: int| 0 <= i < names.len() ==> is_spooled(#[trigger] names[i])
}

proof fn lemma_carrying(names: Seq<Seq<char>>)
    requires
        all_spooled(names),
    ensures
        carrying(names, "jsonl"@) == names,
        carrying(names, "draining"@) == Seq::<Seq<char>>::empty(),
    decreases names.len(),
{
    reveal(Seq::filter);
    if names.len() > 0 {
        let rest = names.drop_last();
        assert(all_spooled(rest)) by {
            assert forall|i: int| 0 <= i < rest.len() implies is_spooled(#[trigger] rest[i]) by {
                assert(rest[i] == names[i]);
            }
        }
        lemma_carrying(rest);
        let last = names[names.len() - 1];
        assert(is_spooled(last));
        let pane = choose|pane: Seq<char>| pane.len() > 0 && last == #[trigger] spool_name(pane);
        lemma_not_claimed(pane);
        assert(rest.push(last) =~= names);
    }
}

proof fn lemma_claim_names(names: Seq<Seq<char>>, nonces: Seq<nat>, i: int, j: int)
    requires
        all_spooled(names),
        names.no_duplicates(),
        0 <= i < names.len(),
        0 <= j < names.len(),
    ensures
        claims(names, nonces)[i] != names[j],
        i != j ==> claims(names, nonces)[i] != claims(names, nonces)[j],
{
    assert(is_spooled(names[i]) && is_spooled(names[j]));
    let a = choose|pane: Seq<char>| pane.len() > 0 && names[i] == #[trigger] spool_name(pane);
    let b = choose|pane: Seq<char>| pane.len() > 0 && names[j] == #[trigger] spool_name(pane);
    lemma_claims_differ(a, b, nonces[i], nonces[j]);
}

/// After the first `k` of its files have been claimed, a spool holds those under their claimed
/// names and the others under their own.
proof fn lemma_claimed(files: Files, names: Seq<Seq<char>>, nonces: Seq<nat>, k: int)
    requires
        all_spooled(names),
        lists_spool(names, files),
        0 <= k <= names.len(),
    ensures
        ({
            let after = claimed(files, names.take(k), nonces);
            &&& forall|name: Seq<char>| #[trigger]
                after.dom().contains(name) ==> (exists|i: int|
                    0 <= i < k && name == #[trigger] claims(names, nonces)[i]) || (exists|j: int|
                    k <= j < names.len() && name == #[trigger] names[j])
            &&& forall|i: int|
                0 <= i < k ==> after.dom().contains(#[trigger] claims(names, nonces)[i])
                    && after[claims(names, nonces)[i]] == files[names[i]]
            &&& forall|j: int|
                k <= j < names.len() ==> after.dom().contains(#[trigger] names[j])
                    && after[names[j]] == files[names[j]]
        }),
    decreases k,
{
    let given = claims(names, nonces);
    if k == 0 {
        assert(names.take(0) =~= Seq::empty());
        assert forall|name: Seq<char>| #[trigger] files.dom().contains(name) implies exists|j: int|
            0 <= j < names.len() && name == #[trigger] names[j] by {
            assert(names.contains(name));
        }
        assert forall|j: int| 0 <= j < names.len() implies files.dom().contains(
            #[trigger] names[j],
        ) by {
            assert(names.contains(names[j]));
        }
    } else {
        lemma_claimed(files, names, nonces, k - 1);
        let before = claimed(files, names.take(k - 1), nonces);
        let after = claimed(files, names.take(k), nonces);
        let from = names[k - 1];
        assert(names.take(k).drop_last() =~= names.take(k - 1));
        assert(claims(names.take(k), nonces).last() == given[k - 1]);
        assert(after == before.remove(from).insert(given[k - 1], before[from]));
        assert forall|i: int| 0 <= i < k implies after.dom().contains(#[trigger] given[i])
            && after[given[i]] == files[names[i]] by {
            lemma_claim_names(names, nonces, i, k - 1);
        }
        assert forall|j: int| k <= j < names.len() implies after.dom().contains(
            #[trigger] names[j],
        ) && after[names[j]] == files[names[j]] by {
            lemma_claim_names(names, nonces, k - 1, j);
        }
        assert forall|name: Seq<char>| #[trigger] after.dom().contains(name) implies (exists|
            i: int,
        |
            0 <= i < k && name == #[trigger] given[i]) || (exists|j: int|
            k <= j < names.len() && name == #[trigger] names[j]) by {
            if name != given[k - 1] {
                assert(before.dom().contains(name) && name != from);
                if exists|i: int| 0 <= i < k - 1 && name == #[trigger] given[i] {
                    let i = choose|i: int| 0 <= i < k - 1 && name == #[trigger] given[i];
                    assert(given[i] == name);
                } else {
                    let j = choose|j: int|
                        k - 1 <= j < names.len() && name == #[trigger] names[j];
                    assert(j != k - 1);
                    assert(names[j] == name);
                }
            }
        }
    }
}

/// The rows filed under a name are all among the rows.
proof fn lemma_filed<R>(rows: Seq<R>, pane: spec_fn(R) -> Seq<char>, name: Seq<char>)
    ensures
        forall|i: int|
            0 <= i < filed(rows, pane, name).len() ==> rows.contains(
                #[trigger] filed(rows, pane, name)[i],
            ),
    decreases rows.len(),
{
    reveal(Seq::filter);
    if rows.len() > 0 {
        lemma_filed(rows.drop_last(), pane, name);
        assert forall|i: int| 0 <= i < filed(rows, pane, name).len() implies rows.contains(
            #[trigger] filed(rows, pane, name)[i],
        ) by {
            let row = filed(rows, pane, name)[i];
            let before = filed(rows.drop_last(), pane, name);
            if i < before.len() {
                assert(row == before[i]);
                let j = choose|j: int| 0 <= j < rows.drop_last().len() && rows.drop_last()[j] == row;
                assert(rows[j] == row);
            } else {
                assert(row == rows[rows.len() - 1]);
            }
        }
    }
}

/// Of the rows filed under a name, those of a pane are all of that pane's where it is filed
/// there, and none otherwise.
proof fn lemma_pane_in_file<R>(
    rows: Seq<R>,
    pane: spec_fn(R) -> Seq<char>,
    name: Seq<char>,
    key: Seq<char>,
)
    ensures
        in_pane(filed(rows, pane, name), pane, key) == (if spool_name(key) == name {
            in_pane(rows, pane, key)
        } else {
            Seq::empty()
        }),
    decreases rows.len(),
{
    reveal(Seq::filter);
    if rows.len() > 0 {
        let rest = rows.drop_last();
        lemma_pane_in_file(rest, pane, name, key);
        let before = filed(rest, pane, name);
        assert(before.push(rows.last()).drop_last() =~= before);
    }
}

proof fn lemma_pane_in_group<R>(
    rows: Seq<R>,
    pane: spec_fn(R) -> Seq<char>,
    names: Seq<Seq<char>>,
    key: Seq<char>,
)
    requires
        names.no_duplicates(),
    ensures
        in_pane(grouped(rows, pane, names), pane, key) == (if names.contains(spool_name(key)) {
            in_pane(rows, pane, key)
        } else {
            Seq::empty()
        }),
    decreases names.len(),
{
    reveal(Seq::filter);
    if names.len() > 0 {
        let rest = names.drop_last();
        let last = names[names.len() - 1];
        lemma_pane_in_group(rows, pane, rest, key);
        lemma_pane_in_file(rows, pane, last, key);
        Seq::filter_distributes_over_add(
            grouped(rows, pane, rest),
            filed(rows, pane, last),
            |row: R| pane(row) == key,
        );
        assert(in_pane(grouped(rows, pane, names), pane, key) == in_pane(
            grouped(rows, pane, rest),
            pane,
            key,
        ) + in_pane(filed(rows, pane, last), pane, key));
        if rest.contains(spool_name(key)) {
            let i = choose|i: int| 0 <= i < rest.len() && rest[i] == spool_name(key);
            assert(names[i] == spool_name(key));
            assert(i != names.len() - 1);
            assert(last != spool_name(key));
        } else if names.contains(spool_name(key)) {
            let i = choose|i: int| 0 <= i < names.len() && names[i] == spool_name(key);
            if i < rest.len() {
                assert(rest[i] == spool_name(key));
            }
        } else {
            assert(last != spool_name(key));
        }
        assert(in_pane(rows, pane, key) + Seq::<R>::empty() =~= in_pane(rows, pane, key));
        assert(Seq::<R>::empty() + in_pane(rows, pane, key) =~= in_pane(rows, pane, key));
    }
}

/// How often a row occurs is how often it does among the rows of its pane.
proof fn lemma_count_in_pane<R>(rows: Seq<R>, pane: spec_fn(R) -> Seq<char>, row: R)
    ensures
        rows.to_multiset().count(row) == in_pane(rows, pane, pane(row)).to_multiset().count(row),
    decreases rows.len(),
{
    reveal(Seq::filter);
    broadcast use vstd::multiset::group_multiset_axioms;

    if rows.len() > 0 {
        let rest = rows.drop_last();
        lemma_count_in_pane(rest, pane, row);
        assert(rest.push(rows.last()) =~= rows);
        vstd::seq_lib::to_multiset_build(rest, rows.last());
        vstd::seq_lib::to_multiset_build(in_pane(rest, pane, pane(row)), rows.last());
    }
}

proof fn lemma_read_rows_add<R>(a: Seq<Option<R>>, b: Seq<Option<R>>)
    ensures
        read_rows(a + b) == read_rows(a) + read_rows(b),
    decreases b.len(),
{
    if b.len() == 0 {
        assert(a + b =~= a);
        assert(read_rows(a) + read_rows(b) =~= read_rows(a));
    } else {
        assert((a + b).drop_last() =~= a + b.drop_last());
        lemma_read_rows_add(a, b.drop_last());
        if let Some(row) = b.last() {
            assert((read_rows(a) + read_rows(b.drop_last())).push(row) =~= read_rows(a) + read_rows(
                b.drop_last(),
            ).push(row));
        }
    }
}

/// Rows that are read back as they were are all read.
proof fn lemma_read_back<R>(
    rows: Seq<R>,
    render: spec_fn(R) -> Seq<char>,
    read: spec_fn(Seq<char>) -> Option<R>,
)
    requires
        forall|i: int| 0 <= i < rows.len() ==> read(render(#[trigger] rows[i])) == Some(rows[i]),
    ensures
        read_rows(rows.map_values(render).map_values(read)) == rows,
    decreases rows.len(),
{
    let lines = rows.map_values(render).map_values(read);
    if rows.len() > 0 {
        let rest = rows.drop_last();
        assert forall|i: int| 0 <= i < rest.len() implies read(render(#[trigger] rest[i])) == Some(
            rest[i],
        ) by {
            assert(rest[i] == rows[i]);
        }
        lemma_read_back(rest, render, read);
        assert(lines.drop_last() =~= rest.map_values(render).map_values(read));
        assert(lines.last() == read(render(rows[rows.len() - 1])));
        assert(rest.push(rows.last()) =~= rows);
    } else {
        assert(lines =~= Seq::empty());
        assert(rows =~= Seq::empty());
    }
}

/// What is handed over out of the first `k` claimed files is what was filed under their names.
proof fn lemma_handed<R>(
    rows: Seq<R>,
    pane: spec_fn(R) -> Seq<char>,
    render: spec_fn(R) -> Seq<char>,
    moved: Files,
    names: Seq<Seq<char>>,
    nonces: Seq<nat>,
    k: int,
)
    requires
        0 <= k <= names.len(),
        forall|i: int| 0 <= i < rows.len() ==> one_line(render(#[trigger] rows[i])),
        forall|i: int|
            0 <= i < names.len() ==> moved[#[trigger] claims(names, nonces)[i]] == spool_file(
                filed(rows, pane, names[i]).map_values(render),
            ),
    ensures
        handed(moved, claims(names, nonces).take(k)) == grouped(
            rows,
            pane,
            names.take(k),
        ).map_values(render),
    decreases k,
{
    let given = claims(names, nonces);
    if k == 0 {
        assert(grouped(rows, pane, names.take(0)).map_values(render) =~= Seq::empty());
    } else {
        lemma_handed(rows, pane, render, moved, names, nonces, k - 1);
        assert(given.take(k).drop_last() =~= given.take(k - 1));
        assert(names.take(k).drop_last() =~= names.take(k - 1));
        assert(given.take(k).last() == given[k - 1]);
        assert(names.take(k).last() == names[k - 1]);
        let here = filed(rows, pane, names[k - 1]);
        lemma_filed(rows, pane, names[k - 1]);
        assert forall|i: int| 0 <= i < here.map_values(render).len() implies one_line(
            #[trigger] here.map_values(render)[i],
        ) by {
            let row = here[i];
            let j = choose|j: int| 0 <= j < rows.len() && rows[j] == row;
            assert(one_line(render(rows[j])));
        }
        law_a_row_spooled_is_a_row_drained(here.map_values(render));
        let before = grouped(rows, pane, names.take(k - 1));
        assert((before + here).map_values(render) =~= before.map_values(render) + here.map_values(
            render,
        ));
    }
}

/// The rows of a group are all among the rows.
proof fn lemma_grouped<R>(rows: Seq<R>, pane: spec_fn(R) -> Seq<char>, names: Seq<Seq<char>>)
    ensures
        forall|i: int|
            0 <= i < grouped(rows, pane, names).len() ==> rows.contains(
                #[trigger] grouped(rows, pane, names)[i],
            ),
    decreases names.len(),
{
    if names.len() > 0 {
        lemma_grouped(rows, pane, names.drop_last());
        lemma_filed(rows, pane, names.last());
        let before = grouped(rows, pane, names.drop_last());
        assert forall|i: int| 0 <= i < grouped(rows, pane, names).len() implies rows.contains(
            #[trigger] grouped(rows, pane, names)[i],
        ) by {
            if i < before.len() {
                assert(grouped(rows, pane, names)[i] == before[i]);
            } else {
                assert(grouped(rows, pane, names)[i] == filed(rows, pane, names.last())[i
                    - before.len()]);
            }
        }
    }
}

/// A spool gives back what was put in it, once: of rows appended to an empty spool for any
/// panes, a drain hands over every one and nothing else, as it was appended and those of one
/// pane in the order they were; none is unreadable; and a second drain finds nothing. That holds
/// whatever order the directory is listed in and whatever the files are claimed under.
pub proof fn law_a_spool_is_drained_once<R>(
    rows: Seq<R>,
    pane: spec_fn(R) -> Seq<char>,
    render: spec_fn(R) -> Seq<char>,
    read: spec_fn(Seq<char>) -> Option<R>,
    names: Seq<Seq<char>>,
    nonces: Seq<nat>,
    names_later: Seq<Seq<char>>,
    nonces_later: Seq<nat>,
)
    requires
        forall|i: int|
            0 <= i < rows.len() ==> pane(#[trigger] rows[i]).len() > 0 && one_line(render(rows[i]))
                && read(render(rows[i])) == Some(rows[i]),
        lists_spool(names, filled(rows, pane, render)),
        lists_spool(names_later, drain_of(filled(rows, pane, render), names, nonces).1),
    ensures
        ({
            let (lines, after) = drain_of(filled(rows, pane, render), names, nonces);
            let out = read_rows(lines.map_values(read));
            &&& out.to_multiset() == rows.to_multiset()
            &&& forall|key: Seq<char>| #[trigger]
                in_pane(out, pane, key) == in_pane(rows, pane, key)
            &&& lines.len() - out.len() == 0
            &&& after == Files::empty()
            &&& drain_of(after, names_later, nonces_later).0.len() == 0
        }),
{
    let files = filled(rows, pane, render);
    lemma_filled(rows, pane, render);
    assert(all_spooled(names)) by {
        assert forall|i: int| 0 <= i < names.len() implies is_spooled(#[trigger] names[i]) by {
            assert(names.contains(names[i]));
            assert(files.dom().contains(names[i]));
            let j = choose|j: int|
                0 <= j < rows.len() && spool_name(pane(#[trigger] rows[j])) == names[i];
            assert(pane(rows[j]).len() > 0);
        }
    }
    lemma_carrying(names);
    let given = claims(names, nonces);
    assert(Seq::<Seq<char>>::empty() + given =~= given);
    assert(names.take(names.len() as int) =~= names);
    assert(given.take(names.len() as int) =~= given);
    lemma_claimed(files, names, nonces, names.len() as int);
    let moved = claimed(files, names, nonces);
    let (lines, after) = drain_of(files, names, nonces);
    assert forall|i: int| 0 <= i < names.len() implies moved[#[trigger] given[i]] == spool_file(
        filed(rows, pane, names[i]).map_values(render),
    ) by {
        assert(names.contains(names[i]));
        assert(files.dom().contains(names[i]));
    }
    lemma_handed(rows, pane, render, moved, names, nonces, names.len() as int);
    let group = grouped(rows, pane, names);
    assert(lines == group.map_values(render));
    lemma_grouped(rows, pane, names);
    assert forall|i: int| 0 <= i < group.len() implies read(render(#[trigger] group[i])) == Some(
        group[i],
    ) by {
        assert(rows.contains(group[i]));
        let j = choose|j: int| 0 <= j < rows.len() && rows[j] == group[i];
        assert(pane(rows[j]).len() > 0);
    }
    lemma_read_back(group, render, read);
    let out = read_rows(lines.map_values(read));
    assert(out == group);
    assert forall|key: Seq<char>| #[trigger] in_pane(out, pane, key) == in_pane(rows, pane, key) by {
        lemma_pane_in_group(rows, pane, names, key);
        if !names.contains(spool_name(key)) {
            assert(!files.dom().contains(spool_name(key)));
            assert(filed(rows, pane, spool_name(key)) =~= Seq::empty());
            lemma_pane_in_file(rows, pane, spool_name(key), key);
            reveal(Seq::filter);
        }
    }
    assert(out.to_multiset() =~= rows.to_multiset()) by {
        assert forall|row: R| out.to_multiset().count(row) == rows.to_multiset().count(row) by {
            lemma_count_in_pane(out, pane, row);
            lemma_count_in_pane(rows, pane, row);
            assert(in_pane(out, pane, pane(row)) == in_pane(rows, pane, pane(row)));
        }
    }
    assert(after =~= Files::empty()) by {
        assert forall|name: Seq<char>| !(#[trigger] after.dom().contains(name)) by {
            if after.dom().contains(name) {
                assert(moved.dom().contains(name));
                let i = choose|i: int| 0 <= i < names.len() && name == #[trigger] given[i];
                assert(given.contains(name));
            }
        }
    }
    if names_later.len() > 0 {
        assert(names_later.contains(names_later[0]));
    }
    assert(names_later =~= Seq::empty());
    lemma_carrying(names_later);
}

} // verus!
