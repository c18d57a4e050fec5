//! Sections of text, one for each collection among the cells shown.

use crate::text::{concat_with, joined};
use itertools::Itertools;
use vstd::prelude::*;
use vstd::seq_lib::{lemma_multiset_commutative, to_multiset_build};

verus! {

/// The runs of `keys`: the positions `0, 1, ..` in order, cut wherever a key
/// differs from the one before it. Each run lists the positions it covers.
pub open spec fn runs(keys: Seq<Seq<char>>) -> Seq<Seq<usize>>
    decreases keys.len(),
{
    if keys.len() == 0 {
        Seq::empty()
    } else {
        let earlier = runs(keys.drop_last());
        let at = (keys.len() - 1) as usize;
        if keys.len() >= 2 && keys[at - 1] == keys[at as int] {
            earlier.drop_last().push(earlier.last().push(at))
        } else {
            earlier.push(seq![at])
        }
    }
}

/// Every run of `keys` is non-empty and lists positions of `keys` only, and
/// there are no runs only where there are no keys.
pub proof fn lemma_runs_within(keys: Seq<Seq<char>>)
    ensures
        keys.len() > 0 ==> runs(keys).len() > 0,
        forall|g: int| 0 <= g < runs(keys).len() ==> (#[trigger] runs(keys)[g]).len() > 0,
        forall|g: int, i: int|
            0 <= g < runs(keys).len() && 0 <= i < runs(keys)[g].len() ==> (#[trigger] runs(
                keys,
            )[g][i]) < keys.len(),
    decreases keys.len(),
{
    if keys.len() > 0 {
        let shorter = keys.drop_last();
        let earlier = runs(shorter);
        let at = (keys.len() - 1) as usize;
        lemma_runs_within(shorter);
        assert(at < keys.len());
        if keys.len() >= 2 && keys[at - 1] == keys[at as int] {
            assert(shorter.len() > 0);
            let grown = earlier.last().push(at);
            assert(runs(keys) == earlier.drop_last().push(grown));
            assert forall|g: int| 0 <= g < runs(keys).len() implies (#[trigger] runs(keys)[g]).len()
                > 0 && forall|i: int|
                0 <= i < runs(keys)[g].len() ==> (#[trigger] runs(keys)[g][i]) < keys.len() by {
                if g < earlier.len() - 1 {
                    assert(runs(keys)[g] == earlier[g]);
                    assert forall|i: int|
                        0 <= i < earlier[g].len() implies (#[trigger] earlier[g][i])
                        < keys.len() by {}
                } else {
                    assert(runs(keys)[g] == grown);
                    assert forall|i: int| 0 <= i < grown.len() implies (#[trigger] grown[i])
                        < keys.len() by {
                        if i < earlier.last().len() {
                            assert(grown[i] == earlier[earlier.len() - 1][i]);
                        }
                    }
                }
            }
        } else {
            assert(runs(keys) == earlier.push(seq![at]));
            assert forall|g: int| 0 <= g < runs(keys).len() implies (#[trigger] runs(keys)[g]).len()
                > 0 && forall|i: int|
                0 <= i < runs(keys)[g].len() ==> (#[trigger] runs(keys)[g][i]) < keys.len() by {
                if g < earlier.len() {
                    assert(runs(keys)[g] == earlier[g]);
                    assert forall|i: int|
                        0 <= i < earlier[g].len() implies (#[trigger] earlier[g][i])
                        < keys.len() by {}
                } else {
                    assert(runs(keys)[g] == seq![at]);
                }
            }
        }
    }
}

proof fn lemma_runs_end(keys: Seq<Seq<char>>)
    requires
        0 < keys.len() <= usize::MAX,
    ensures
        runs(keys).len() > 0,
        runs(keys).last().len() > 0,
        runs(keys).last().last() == keys.len() - 1,
        runs(keys).last()[0] < keys.len(),
{
    lemma_runs_within(keys);
    lemma_runs_within(keys.drop_last());
}

proof fn lemma_runs_flatten(keys: Seq<Seq<char>>)
    requires
        keys.len() <= usize::MAX,
    ensures
        runs(keys).flatten() == Seq::new(keys.len(), |i: int| i as usize),
    decreases keys.len(),
{
    let whole = runs(keys);
    let positions = Seq::new(keys.len(), |i: int| i as usize);
    if keys.len() == 0 {
        assert(whole.flatten() =~= positions);
    } else {
        let shorter = keys.drop_last();
        let earlier = runs(shorter);
        let at = (keys.len() - 1) as usize;
        lemma_runs_flatten(shorter);
        lemma_runs_within(shorter);
        assert(Seq::new(shorter.len(), |i: int| i as usize).push(at) =~= positions);
        if keys.len() >= 2 && keys[at - 1] == keys[at as int] {
            let grown = earlier.last().push(at);
            assert(earlier =~= earlier.drop_last().push(earlier.last()));
            earlier.drop_last().lemma_flatten_push(earlier.last());
            earlier.drop_last().lemma_flatten_push(grown);
            assert(whole.flatten() =~= earlier.flatten().push(at));
        } else {
            earlier.lemma_flatten_push(seq![at]);
            assert(whole.flatten() =~= earlier.flatten().push(at));
        }
    }
}

proof fn lemma_runs_one_key(keys: Seq<Seq<char>>, g: int, i: int)
    requires
        keys.len() <= usize::MAX,
        0 <= g < runs(keys).len(),
        0 <= i < runs(keys)[g].len(),
    ensures
        runs(keys)[g][i] < keys.len(),
        runs(keys)[g][0] < keys.len(),
        runs(keys)[g][i] == runs(keys)[g][0] + i,
        keys[runs(keys)[g][i] as int] == keys[runs(keys)[g][0] as int],
    decreases keys.len(),
{
    lemma_runs_within(keys);
    if keys.len() > 0 {
        let shorter = keys.drop_last();
        let earlier = runs(shorter);
        let at = (keys.len() - 1) as usize;
        lemma_runs_within(shorter);
        if keys.len() >= 2 && keys[at - 1] == keys[at as int] {
            let last = earlier.len() - 1;
            let grown = earlier.last().push(at);
            assert(runs(keys) == earlier.drop_last().push(grown));
            if g < last {
                assert(runs(keys)[g] == earlier[g]);
                lemma_runs_one_key(shorter, g, i);
            } else {
                assert(runs(keys)[g] == grown);
                lemma_runs_end(shorter);
                lemma_runs_one_key(shorter, last, earlier[last].len() - 1);
                if i < earlier[last].len() {
                    lemma_runs_one_key(shorter, last, i);
                }
            }
        } else {
            assert(runs(keys) == earlier.push(seq![at]));
            if g < earlier.len() {
                assert(runs(keys)[g] == earlier[g]);
                lemma_runs_one_key(shorter, g, i);
            }
        }
    }
}

proof fn lemma_runs_neighbours(keys: Seq<Seq<char>>, g: int)
    requires
        keys.len() <= usize::MAX,
        0 <= g < runs(keys).len() - 1,
    ensures
        runs(keys)[g].len() > 0,
        runs(keys)[g + 1].len() > 0,
        runs(keys)[g].last() < keys.len(),
        runs(keys)[g + 1][0] < keys.len(),
        runs(keys)[g + 1][0] == runs(keys)[g].last() + 1,
        keys[runs(keys)[g].last() as int] != keys[runs(keys)[g + 1][0] as int],
    decreases keys.len(),
{
    lemma_runs_within(keys);
    if keys.len() > 0 {
        let shorter = keys.drop_last();
        let earlier = runs(shorter);
        let at = (keys.len() - 1) as usize;
        lemma_runs_within(shorter);
        if keys.len() >= 2 && keys[at - 1] == keys[at as int] {
            let grown = earlier.last().push(at);
            assert(runs(keys) == earlier.drop_last().push(grown));
            assert(runs(keys)[g] == earlier[g]);
            lemma_runs_neighbours(shorter, g);
            if g + 1 < earlier.len() - 1 {
                assert(runs(keys)[g + 1] == earlier[g + 1]);
            } else {
                assert(runs(keys)[g + 1] == grown);
                assert(grown[0] == earlier[g + 1][0]);
            }
        } else {
            assert(runs(keys) == earlier.push(seq![at]));
            assert(runs(keys)[g] == earlier[g]);
            if g + 1 < earlier.len() {
                assert(runs(keys)[g + 1] == earlier[g + 1]);
                lemma_runs_neighbours(shorter, g);
            } else {
                assert(runs(keys)[g + 1] == seq![at]);
                lemma_runs_end(shorter);
            }
        }
    }
}

proof fn lemma_runs_ascend(keys: Seq<Seq<char>>, a: int, b: int)
    requires
        keys.len() <= usize::MAX,
        0 <= a < b < runs(keys).len(),
    ensures
        runs(keys)[a].len() > 0,
        runs(keys)[b].len() > 0,
        runs(keys)[a].last() < runs(keys)[b][0],
    decreases b - a,
{
    lemma_runs_within(keys);
    lemma_runs_neighbours(keys, b - 1);
    if a < b - 1 {
        lemma_runs_ascend(keys, a, b - 1);
        lemma_runs_one_key(keys, b - 1, runs(keys)[b - 1].len() - 1);
    }
}

/// Where equal keys are next to each other, no two runs have the same key.
pub proof fn lemma_clustered_runs_differ(keys: Seq<Seq<char>>)
    requires
        keys.len() <= usize::MAX,
        clustered(keys),
    ensures
        forall|a: int, b: int|
            0 <= a < b < runs(keys).len() ==> keys[(#[trigger] runs(keys)[a])[0] as int]
                != keys[(#[trigger] runs(keys)[b])[0] as int],
{
    lemma_runs_within(keys);
    assert forall|a: int, b: int| 0 <= a < b < runs(keys).len() implies keys[(#[trigger] runs(
        keys,
    )[a])[0] as int] != keys[(#[trigger] runs(keys)[b])[0] as int] by {
        let last = runs(keys)[a].last();
        let next = runs(keys)[a + 1][0];
        let later = runs(keys)[b][0];
        lemma_runs_one_key(keys, a, runs(keys)[a].len() - 1);
        lemma_runs_one_key(keys, b, 0);
        lemma_runs_neighbours(keys, a);
        if a + 1 < b {
            lemma_runs_ascend(keys, a + 1, b);
            lemma_runs_one_key(keys, a + 1, runs(keys)[a + 1].len() - 1);
            if keys[last as int] == keys[later as int] {
                assert(last < next < later);
                assert(keys[next as int] == keys[last as int]);
            }
        }
    }
}

/// The runs of `keys` are its positions in order, cut into pieces: within a
/// run all keys are equal, and the last key of a run differs from the first
/// key of the next.
pub proof fn lemma_runs_cut_at_changes(keys: Seq<Seq<char>>)
    requires
        keys.len() <= usize::MAX,
    ensures
        runs(keys).flatten() == Seq::new(keys.len(), |i: int| i as usize),
        forall|g: int, i: int|
            0 <= g < runs(keys).len() && 0 <= i < runs(keys)[g].len() ==> keys[(#[trigger] runs(
                keys,
            )[g][i]) as int] == keys[runs(keys)[g][0] as int],
        forall|g: int|
            0 <= g < runs(keys).len() - 1 ==> keys[(#[trigger] runs(keys)[g]).last() as int]
                != keys[runs(keys)[g + 1][0] as int],
{
    lemma_runs_flatten(keys);
    assert forall|g: int, i: int|
        0 <= g < runs(keys).len() && 0 <= i < runs(keys)[g].len() implies keys[(#[trigger] runs(
        keys,
    )[g][i]) as int] == keys[runs(keys)[g][0] as int] by {
        lemma_runs_one_key(keys, g, i);
    }
    assert forall|g: int| 0 <= g < runs(keys).len() - 1 implies keys[(#[trigger] runs(
        keys,
    )[g]).last() as int] != keys[runs(keys)[g + 1][0] as int] by {
        lemma_runs_neighbours(keys, g);
    }
}

/// `Itertools::group_by`, keyed by the strings themselves: the positions of
/// `keys`, grouped into runs of equal neighbours, in order.
#[verifier::external_body]
fn group_runs(keys: &Vec<String>) -> (groups: Vec<Vec<usize>>)
    ensures
        groups.deep_view() == runs(keys.deep_view()),
{
    let grouped = keys.iter().enumerate().group_by(|pair| pair.1);
    grouped.into_iter().map(|(_, group)| group.map(|pair| pair.0).collect()).collect()
}

/// `Itertools::join`: the parts in a row, with `separator` between each two
/// neighbours. The separator is at most one character, so that the room
/// which the call reserves, the separator's bytes times the number of parts,
/// is less than the parts themselves take.
#[verifier::external_body]
fn join_texts(parts: &Vec<String>, separator: &str) -> (text: String)
    requires
        separator@.len() <= 1,
    ensures
        text@ == joined(parts.deep_view(), separator@),
{
    parts.iter().join(separator)
}

/// The mathematical value of a cell.
pub struct CellModel {
    pub collection: Seq<char>,
    pub text: Seq<char>,
}

/// What is shown for one emoji: the collection it is listed under and the
/// text that stands for it.
pub struct Cell {
    pub collection: String,
    pub text: String,
}

impl View for Cell {
    type V = CellModel;

    open spec fn view(&self) -> CellModel {
        CellModel { collection: self.collection@, text: self.text@ }
    }
}

/// The values of a list of cells.
pub open spec fn models(cells: Seq<Cell>) -> Seq<CellModel> {
    Seq::new(cells.len(), |i: int| cells[i]@)
}

/// The collection of each cell.
pub open spec fn collections(cells: Seq<CellModel>) -> Seq<Seq<char>> {
    Seq::new(cells.len(), |i: int| cells[i].collection)
}

/// The texts of the cells at the positions of `run`.
pub open spec fn texts(cells: Seq<CellModel>, run: Seq<usize>) -> Seq<Seq<char>> {
    Seq::new(run.len(), |i: int| cells[run[i] as int].text)
}

/// The section for one run of cells: a header with the collection's name,
/// a line with the cells' texts, a space between each two, and an empty
/// line.
pub open spec fn section(cells: Seq<CellModel>, run: Seq<usize>) -> Seq<char> {
    cells[run[0] as int].collection + " Collection\n"@ + joined(texts(cells, run), " "@) + "\n\n"@
}

/// One section for each run of neighbouring cells of one collection.
pub open spec fn run_sections(cells: Seq<CellModel>) -> Seq<Seq<char>> {
    let groups = runs(collections(cells));
    Seq::new(groups.len(), |g: int| section(cells, groups[g]))
}

/// The cells of `collection`, in their order.
pub open spec fn of_collection(cells: Seq<CellModel>, collection: Seq<char>) -> Seq<CellModel>
    decreases cells.len(),
{
    if cells.len() == 0 {
        Seq::empty()
    } else if cells.last().collection == collection {
        of_collection(cells.drop_last(), collection).push(cells.last())
    } else {
        of_collection(cells.drop_last(), collection)
    }
}

/// The cells of the collections other than `collection`, in their order.
pub open spec fn of_others(cells: Seq<CellModel>, collection: Seq<char>) -> Seq<CellModel>
    decreases cells.len(),
{
    if cells.len() == 0 {
        Seq::empty()
    } else if cells.last().collection == collection {
        of_others(cells.drop_last(), collection)
    } else {
        of_others(cells.drop_last(), collection).push(cells.last())
    }
}

/// Each cell is of the collection or of the others, and a cell of the
/// collection among them leaves fewer for the others.
pub proof fn lemma_collection_and_others(cells: Seq<CellModel>, collection: Seq<char>)
    ensures
        of_collection(cells, collection).len() + of_others(cells, collection).len() == cells.len(),
        forall|i: int|
            0 <= i < of_collection(cells, collection).len() ==> (#[trigger] of_collection(
                cells,
                collection,
            )[i]).collection == collection,
        forall|i: int|
            0 <= i < of_others(cells, collection).len() ==> (#[trigger] of_others(
                cells,
                collection,
            )[i]).collection != collection,
        (exists|i: int| 0 <= i < cells.len() && (#[trigger] cells[i]).collection == collection)
            ==> of_others(cells, collection).len() < cells.len(),
    decreases cells.len(),
{
    if cells.len() > 0 {
        lemma_collection_and_others(cells.drop_last(), collection);
        if cells.last().collection != collection {
            if exists|i: int|
                0 <= i < cells.len() && (#[trigger] cells[i]).collection == collection {
                let i = choose|i: int|
                    0 <= i < cells.len() && (#[trigger] cells[i]).collection == collection;
                assert(cells.drop_last()[i].collection == collection);
            }
        }
    }
}

/// The cells with those of one collection next to each other: the
/// collections in the order of their first cells, the cells of a collection
/// in their order.
pub open spec fn gathered(cells: Seq<CellModel>) -> Seq<CellModel>
    decreases cells.len(),
{
    if cells.len() == 0 {
        Seq::empty()
    } else {
        proof {
            lemma_collection_and_others(cells, cells[0].collection);
        }
        of_collection(cells, cells[0].collection) + gathered(
            of_others(cells, cells[0].collection),
        )
    }
}

/// Equal keys are next to each other: no other key stands between them.
pub open spec fn clustered(keys: Seq<Seq<char>>) -> bool {
    forall|i: int, j: int, k: int|
        #![trigger keys[i], keys[j], keys[k]]
        0 <= i < j < k < keys.len() && keys[i] == keys[k] ==> keys[j] == keys[i]
}

proof fn lemma_parts_keep_out(cells: Seq<CellModel>, collection: Seq<char>, absent: Seq<char>)
    requires
        forall|i: int| 0 <= i < cells.len() ==> (#[trigger] cells[i]).collection != absent,
    ensures
        forall|i: int|
            0 <= i < of_collection(cells, collection).len() ==> (#[trigger] of_collection(
                cells,
                collection,
            )[i]).collection != absent,
        forall|i: int|
            0 <= i < of_others(cells, collection).len() ==> (#[trigger] of_others(
                cells,
                collection,
            )[i]).collection != absent,
    decreases cells.len(),
{
    if cells.len() > 0 {
        let shorter = cells.drop_last();
        assert forall|i: int| 0 <= i < shorter.len() implies (#[trigger] shorter[i]).collection
            != absent by {
            assert(shorter[i] == cells[i]);
        }
        lemma_parts_keep_out(shorter, collection, absent);
        let same = of_collection(cells, collection);
        let others = of_others(cells, collection);
        let earlier_same = of_collection(cells.drop_last(), collection);
        let earlier_others = of_others(cells.drop_last(), collection);
        assert(cells.last() == cells[cells.len() - 1]);
        assert forall|i: int| 0 <= i < same.len() implies (#[trigger] same[i]).collection
            != absent by {
            if i < earlier_same.len() {
                assert(same[i] == earlier_same[i]);
            }
        }
        assert forall|i: int| 0 <= i < others.len() implies (#[trigger] others[i]).collection
            != absent by {
            if i < earlier_others.len() {
                assert(others[i] == earlier_others[i]);
            }
        }
    }
}

proof fn lemma_gathered_keeps_out(cells: Seq<CellModel>, absent: Seq<char>)
    requires
        forall|i: int| 0 <= i < cells.len() ==> (#[trigger] cells[i]).collection != absent,
    ensures
        gathered(cells).len() == cells.len(),
        forall|i: int|
            0 <= i < gathered(cells).len() ==> (#[trigger] gathered(cells)[i]).collection != absent,
    decreases cells.len(),
{
    if cells.len() > 0 {
        let first = cells[0].collection;
        let same = of_collection(cells, first);
        let others = of_others(cells, first);
        lemma_collection_and_others(cells, first);
        lemma_parts_keep_out(cells, first, absent);
        lemma_gathered_keeps_out(others, absent);
        assert forall|i: int| 0 <= i < gathered(cells).len() implies (#[trigger] gathered(
            cells,
        )[i]).collection != absent by {
            if i < same.len() {
                assert(gathered(cells)[i] == same[i]);
            } else {
                assert(gathered(cells)[i] == gathered(others)[i - same.len()]);
            }
        }
    }
}

proof fn lemma_parts_are_all(cells: Seq<CellModel>, collection: Seq<char>)
    ensures
        of_collection(cells, collection).to_multiset().add(
            of_others(cells, collection).to_multiset(),
        ) == cells.to_multiset(),
    decreases cells.len(),
{
    broadcast use vstd::multiset::group_multiset_axioms;

    if cells.len() == 0 {
        assert(of_collection(cells, collection) =~= cells);
        assert(of_others(cells, collection) =~= cells);
        vstd::seq_lib::to_multiset_len(cells);
        vstd::multiset::lemma_multiset_empty_len(cells.to_multiset());
    } else {
        let shorter = cells.drop_last();
        lemma_parts_are_all(shorter, collection);
        assert(shorter.push(cells.last()) =~= cells);
        to_multiset_build(shorter, cells.last());
        to_multiset_build(of_collection(shorter, collection), cells.last());
        to_multiset_build(of_others(shorter, collection), cells.last());
        assert(of_collection(cells, collection).to_multiset().add(
            of_others(cells, collection).to_multiset(),
        ) =~= cells.to_multiset());
    }
}

/// Gathering shows each cell as often as it was given.
pub proof fn lemma_gathered_keeps_all(cells: Seq<CellModel>)
    ensures
        gathered(cells).to_multiset() == cells.to_multiset(),
    decreases cells.len(),
{
    if cells.len() == 0 {
        assert(gathered(cells) =~= cells);
    } else {
        let first = cells[0].collection;
        lemma_collection_and_others(cells, first);
        lemma_parts_are_all(cells, first);
        lemma_gathered_keeps_all(of_others(cells, first));
        lemma_multiset_commutative(of_collection(cells, first), gathered(of_others(cells, first)));
    }
}

/// Gathering puts the cells of one collection next to each other.
pub proof fn lemma_gathered_clustered(cells: Seq<CellModel>)
    ensures
        gathered(cells).len() == cells.len(),
        clustered(collections(gathered(cells))),
    decreases cells.len(),
{
    if cells.len() > 0 {
        let first = cells[0].collection;
        let same = of_collection(cells, first);
        let others = of_others(cells, first);
        let keys = collections(gathered(cells));
        lemma_collection_and_others(cells, first);
        lemma_gathered_clustered(others);
        lemma_gathered_keeps_out(others, first);
        assert forall|i: int| 0 <= i < keys.len() implies #[trigger] keys[i] == (if i < same.len() {
            first
        } else {
            collections(gathered(others))[i - same.len()]
        }) by {
            if i < same.len() {
                assert(gathered(cells)[i] == same[i]);
            } else {
                assert(gathered(cells)[i] == gathered(others)[i - same.len()]);
            }
        }
        assert forall|i: int, j: int, k: int|
            #![trigger keys[i], keys[j], keys[k]]
            0 <= i < j < k < keys.len() && keys[i] == keys[k] implies keys[j] == keys[i] by {
            let rest = collections(gathered(others));
            if i >= same.len() {
                assert(rest[i - same.len()] == rest[k - same.len()]);
                assert(rest[j - same.len()] == rest[i - same.len()]);
            } else if k >= same.len() {
                assert(gathered(others)[k - same.len()].collection != first);
            }
        }
    }
}

/// Among gathered cells no two runs are of the same collection: there is
/// one section for each collection.
pub proof fn lemma_one_section_per_collection(cells: Seq<CellModel>)
    requires
        cells.len() <= usize::MAX,
    ensures
        forall|a: int, b: int|
            0 <= a < b < runs(collections(gathered(cells))).len() ==> gathered(
                cells,
            )[(#[trigger] runs(collections(gathered(cells)))[a])[0] as int].collection != gathered(
                cells,
            )[(#[trigger] runs(collections(gathered(cells)))[b])[0] as int].collection,
{
    let keys = collections(gathered(cells));
    lemma_gathered_clustered(cells);
    lemma_clustered_runs_differ(keys);
    lemma_runs_within(keys);
    assert forall|a: int, b: int| 0 <= a < b < runs(keys).len() implies gathered(
        cells,
    )[(#[trigger] runs(keys)[a])[0] as int].collection != gathered(
        cells,
    )[(#[trigger] runs(keys)[b])[0] as int].collection by {
        let first = runs(keys)[a][0] as int;
        let second = runs(keys)[b][0] as int;
        assert(keys[first] == gathered(cells)[first].collection);
        assert(keys[second] == gathered(cells)[second].collection);
    }
}

/// One section for each collection among the cells: the collections in the
/// order of their first cells, the cells of a collection in their order.
pub open spec fn sections(cells: Seq<CellModel>) -> Seq<Seq<char>> {
    run_sections(gathered(cells))
}

impl Clone for Cell {
    fn clone(&self) -> (cell: Self)
        ensures
            cell == *self,
    {
        Cell { collection: self.collection.clone(), text: self.text.clone() }
    }
}

/// The cells with those of one collection next to each other.
pub fn gather_cells(cells: &Vec<Cell>) -> (together: Vec<Cell>)
    ensures
        models(together@) == gathered(models(cells@)),
{
    let mut together: Vec<Cell> = Vec::new();
    let mut remaining: Vec<Cell> = cells.clone();
    assert(models(remaining@) =~= models(cells@));
    assert(models(together@) + gathered(models(remaining@)) =~= gathered(models(cells@)));
    while remaining.len() > 0
        invariant
            models(together@) + gathered(models(remaining@)) == gathered(models(cells@)),
        decreases remaining@.len(),
    {
        let ghost left = models(remaining@);
        let ghost before = models(together@);
        let ghost collection = left[0].collection;
        let mut others: Vec<Cell> = Vec::new();
        let mut i: usize = 0;
        assert(left.take(0) =~= Seq::<CellModel>::empty());
        assert(models(together@) =~= before + of_collection(left.take(0), collection));
        while i < remaining.len()
            invariant
                0 <= i <= remaining@.len(),
                remaining@.len() > 0,
                left == models(remaining@),
                collection == remaining@[0].collection@,
                models(together@) == before + of_collection(left.take(i as int), collection),
                models(others@) == of_others(left.take(i as int), collection),
            decreases remaining@.len() - i,
        {
            let ghost upto = left.take(i + 1);
            assert(upto.drop_last() =~= left.take(i as int));
            assert(upto.last() == remaining@[i as int]@);
            if remaining[i].collection.as_str().eq(remaining[0].collection.as_str()) {
                let ghost had = models(together@);
                together.push(remaining[i].clone());
                assert(models(together@) =~= had.push(upto.last()));
                assert(of_collection(upto, collection) == of_collection(
                    left.take(i as int),
                    collection,
                ).push(upto.last()));
                assert(models(together@) =~= before + of_collection(upto, collection));
            } else {
                others.push(remaining[i].clone());
                assert(models(others@) =~= of_others(upto, collection));
            }
            i = i + 1;
        }
        proof {
            assert(left.take(remaining@.len() as int) =~= left);
            lemma_collection_and_others(left, collection);
            assert(models(together@) + gathered(models(others@)) =~= before + gathered(left));
        }
        remaining = others;
    }
    assert(models(together@) + gathered(models(remaining@)) =~= models(together@));
    together
}

/// The sections of the cells, one for each collection, with `between`
/// between each two neighbours.
pub fn render_cells(cells: &Vec<Cell>, between: &str) -> (text: String)
    ensures
        text@ == joined(sections(models(cells@)), between@),
{
    let together = gather_cells(cells);
    render_runs(&together, between)
}

/// The sections of the cells, one for each run of neighbouring cells of one
/// collection, with `between` between each two neighbours.
pub fn render_runs(cells: &Vec<Cell>, between: &str) -> (text: String)
    ensures
        text@ == joined(run_sections(models(cells@)), between@),
{
    let ghost shown = models(cells@);
    let mut keys: Vec<String> = Vec::new();
    let mut k: usize = 0;
    while k < cells.len()
        invariant
            0 <= k <= cells@.len(),
            keys@.len() == k,
            forall|i: int| 0 <= i < k ==> (#[trigger] keys@[i])@ == cells@[i].collection@,
        decreases cells@.len() - k,
    {
        keys.push(cells[k].collection.clone());
        k = k + 1;
    }
    assert(keys.deep_view() =~= collections(shown));
    let groups = group_runs(&keys);
    let ghost wanted = runs(collections(shown));
    proof {
        lemma_runs_within(collections(shown));
        assert forall|g: int| 0 <= g < groups@.len() implies (#[trigger] groups@[g])@
            == wanted[g] by {}
    }
    let mut parts: Vec<String> = Vec::new();
    let mut g: usize = 0;
    while g < groups.len()
        invariant
            0 <= g <= groups@.len(),
            shown == models(cells@),
            wanted == runs(collections(shown)),
            groups@.len() == wanted.len(),
            forall|h: int| 0 <= h < groups@.len() ==> (#[trigger] groups@[h])@ == wanted[h],
            forall|h: int| 0 <= h < wanted.len() ==> (#[trigger] wanted[h]).len() > 0,
            forall|h: int, i: int|
                0 <= h < wanted.len() && 0 <= i < wanted[h].len() ==> (#[trigger] wanted[h][i])
                    < cells@.len(),
            parts@.len() == g,
            forall|h: int| 0 <= h < g ==> (#[trigger] parts@[h])@ == section(shown, wanted[h]),
        decreases groups@.len() - g,
    {
        let group = &groups[g];
        let ghost run = wanted[g as int];
        let mut line: Vec<String> = Vec::new();
        let mut i: usize = 0;
        while i < group.len()
            invariant
                0 <= i <= group@.len(),
                group@ == run,
                shown == models(cells@),
                forall|j: int| 0 <= j < run.len() ==> (#[trigger] run[j]) < cells@.len(),
                line@.len() == i,
                forall|j: int| 0 <= j < i ==> (#[trigger] line@[j])@ == shown[run[j] as int].text,
            decreases group@.len() - i,
        {
            let at = group[i];
            line.push(cells[at].text.clone());
            i = i + 1;
        }
        assert(line.deep_view() =~= texts(shown, run));
        let first = group[0];
        let mut part = cells[first].collection.clone();
        part.append(" Collection\n");
        proof {
            reveal_strlit(" ");
        }
        let spaced = join_texts(&line, " ");
        part.append(spaced.as_str());
        part.append("\n\n");
        parts.push(part);
        g = g + 1;
    }
    assert(parts.deep_view() =~= run_sections(shown));
    concat_with(&parts, between)
}

} // verus!
