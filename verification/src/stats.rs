//! Key counts of a layer: how many keys it has and how many of them are
//! assigned.
use vstd::prelude::*;
use crate::keys::{is_blank, is_empty_key, row_view};
use crate::parser::Layer;

verus! {

/// The keys of a layer by number. The counts are wide enough for any layer
/// that memory can hold.
#[derive(Clone, Copy, Debug, PartialEq, Eq, Structural)]
pub struct KeyCounts {
    pub total: u128,
    pub assigned: u128,
    pub unassigned: u128,
}

/// The number of keys of a row that are assigned.
pub open spec fn assigned_in_row(row: Seq<Seq<char>>) -> nat
    decreases row.len(),
{
    if row.len() == 0 {
        0
    } else {
        assigned_in_row(row.drop_last()) + if is_blank(row.last()) {
            0nat
        } else {
            1nat
        }
    }
}

/// The number of keys of some rows.
pub open spec fn total_keys(rows: Seq<Seq<Seq<char>>>) -> nat
    decreases rows.len(),
{
    if rows.len() == 0 {
        0
    } else {
        total_keys(rows.drop_last()) + rows.last().len()
    }
}

/// The number of keys of some rows that are assigned.
pub open spec fn assigned_keys(rows: Seq<Seq<Seq<char>>>) -> nat
    decreases rows.len(),
{
    if rows.len() == 0 {
        0
    } else {
        assigned_keys(rows.drop_last()) + assigned_in_row(rows.last())
    }
}

proof fn lemma_assigned_in_row_bound(row: Seq<Seq<char>>)
    ensures
        assigned_in_row(row) <= row.len(),
    decreases row.len(),
{
    if row.len() > 0 {
        lemma_assigned_in_row_bound(row.drop_last());
    }
}

fn count_assigned(row: &Vec<String>) -> (n: usize)
    ensures
        n == assigned_in_row(row_view(row@)),
{
    let ghost keys = row_view(row@);
    let mut n: usize = 0;
    let mut j: usize = 0;
    while j < row.len()
        invariant
            j <= row.len(),
            keys == row_view(row@),
            n == assigned_in_row(keys.take(j as int)),
            n <= j,
        decreases row.len() - j,
    {
        proof {
            let t = keys.take(j + 1);
            assert(t.drop_last() =~= keys.take(j as int));
        }
        if !is_empty_key(row[j].as_str()) {
            n += 1;
        }
        j += 1;
    }
    assert(keys.take(row.len() as int) =~= keys);
    n
}

/// Counts the keys of a layer.
pub fn key_counts(layer: &Layer) -> (c: KeyCounts)
    ensures
        c.total == total_keys(layer@.keys),
        c.assigned == assigned_keys(layer@.keys),
        c.unassigned == c.total - c.assigned,
{
    let ghost rows = layer@.keys;
    let mut total: u128 = 0;
    let mut assigned: u128 = 0;
    let mut j: usize = 0;
    while j < layer.keys.len()
        invariant
            j <= layer.keys.len(),
            rows == layer@.keys,
            total == total_keys(rows.take(j as int)),
            assigned == assigned_keys(rows.take(j as int)),
            assigned <= total <= j * 0x1_0000_0000_0000_0000,
        decreases layer.keys.len() - j,
    {
        let row = &layer.keys[j];
        proof {
            let t = rows.take(j + 1);
            assert(t.drop_last() =~= rows.take(j as int));
            lemma_assigned_in_row_bound(row_view(row@));
        }
        total += row.len() as u128;
        assigned += count_assigned(row) as u128;
        j += 1;
    }
    assert(rows.take(layer.keys.len() as int) =~= rows);
    KeyCounts { total, assigned, unassigned: total - assigned }
}

} // verus!
