//! Grouping of tickets by their business value text: each distinct
//! value gets one group holding the keys of the tickets that carry it,
//! groups in first-seen order, keys in ticket order.

use vstd::prelude::*;

verus! {

/// The views of a list of ticket keys.
pub open spec fn keys_model(ks: Seq<String>) -> Seq<Seq<char>> {
    ks.map_values(|k: String| k@)
}

/// The views of a list of (business value, ticket key) rows.
pub open spec fn rows_model(rows: Seq<(String, String)>) -> Seq<(Seq<char>, Seq<char>)> {
    rows.map_values(|r: (String, String)| (r.0@, r.1@))
}

/// The views of a list of groups.
pub open spec fn groups_model(gs: Seq<(String, Vec<String>)>) -> Seq<(Seq<char>, Seq<Seq<char>>)> {
    gs.map_values(|g: (String, Vec<String>)| (g.0@, keys_model(g.1@)))
}

/// One row folded into the groups: the key joins the group of its
/// value, or a new group opens at the end.
pub open spec fn insert_row(
    gs: Seq<(Seq<char>, Seq<Seq<char>>)>,
    val: Seq<char>,
    key: Seq<char>,
) -> Seq<(Seq<char>, Seq<Seq<char>>)>
    decreases gs.len(),
{
    if gs.len() == 0 {
        seq![(val, seq![key])]
    } else if gs[0].0 == val {
        seq![(gs[0].0, gs[0].1.push(key))] + gs.subrange(1, gs.len() as int)
    } else {
        seq![gs[0]] + insert_row(gs.subrange(1, gs.len() as int), val, key)
    }
}

/// The grouping of a list of (value, key) rows: rows folded in order,
/// so groups stand in first-seen order of their values and each
/// group's keys in row order.
pub open spec fn group_rows(rows: Seq<(Seq<char>, Seq<char>)>) -> Seq<(Seq<char>, Seq<Seq<char>>)>
    decreases rows.len(),
{
    if rows.len() == 0 {
        Seq::empty()
    } else {
        insert_row(group_rows(rows.drop_last()), rows.last().0, rows.last().1)
    }
}

proof fn lemma_insert_row_found(
    gs: Seq<(Seq<char>, Seq<Seq<char>>)>,
    val: Seq<char>,
    key: Seq<char>,
    j: int,
)
    requires
        0 <= j < gs.len(),
        gs[j].0 == val,
        forall|k: int| 0 <= k < j ==> gs[k].0 != val,
    ensures
        insert_row(gs, val, key) == gs.update(j, (gs[j].0, gs[j].1.push(key))),
    decreases gs.len(),
{
    if j == 0 {
        assert(seq![(gs[0].0, gs[0].1.push(key))] + gs.subrange(1, gs.len() as int) =~= gs.update(
            0,
            (gs[0].0, gs[0].1.push(key)),
        ));
    } else {
        let rest = gs.subrange(1, gs.len() as int);
        assert forall|k: int| 0 <= k < j - 1 implies rest[k].0 != val by {
            assert(rest[k] == gs[k + 1]);
        }
        lemma_insert_row_found(rest, val, key, j - 1);
        assert(rest[j - 1] == gs[j]);
        assert(seq![gs[0]] + rest.update(j - 1, (gs[j].0, gs[j].1.push(key))) =~= gs.update(
            j,
            (gs[j].0, gs[j].1.push(key)),
        ));
    }
}

proof fn lemma_insert_row_new(gs: Seq<(Seq<char>, Seq<Seq<char>>)>, val: Seq<char>, key: Seq<char>)
    requires
        forall|k: int| 0 <= k < gs.len() ==> gs[k].0 != val,
    ensures
        insert_row(gs, val, key) == gs.push((val, seq![key])),
    decreases gs.len(),
{
    if gs.len() == 0 {
        assert(seq![(val, seq![key])] =~= gs.push((val, seq![key])));
    } else {
        let rest = gs.subrange(1, gs.len() as int);
        assert forall|k: int| 0 <= k < rest.len() implies rest[k].0 != val by {
            assert(rest[k] == gs[k + 1]);
        }
        lemma_insert_row_new(rest, val, key);
        assert(seq![gs[0]] + rest.push((val, seq![key])) =~= gs.push((val, seq![key])));
    }
}

/// Group (business value, ticket key) rows by value: groups in
/// first-seen order of the values, each group's keys in row order.
#[verifier::loop_isolation(false)]
pub fn group_tickets(rows: &Vec<(String, String)>) -> (groups: Vec<(String, Vec<String>)>)
    ensures
        groups_model(groups@) == group_rows(rows_model(rows@)),
{
    let mut groups: Vec<(String, Vec<String>)> = Vec::new();
    let mut i: usize = 0;
    while i < rows.len()
        invariant
            i <= rows@.len(),
            groups_model(groups@) == group_rows(rows_model(rows@).subrange(0, i as int)),
        decreases rows@.len() - i,
    {
        let val = &rows[i].0;
        let key = &rows[i].1;
        let ghost gsnap = groups@;
        let ghost model = groups_model(groups@);
        let mut j: usize = 0;
        while j < groups.len() && !(groups[j].0 == *val)
            invariant
                j <= groups@.len(),
                groups@ == gsnap,
                forall|k: int| 0 <= k < j ==> groups@[k].0@ != val@,
            decreases groups@.len() - j,
        {
            j = j + 1;
        }
        if j < groups.len() {
            let mut g = groups.remove(j);
            g.1.push(key.clone());
            let ghost g0 = g.0;
            let ghost g1 = g.1@;
            groups.insert(j, g);
            proof {
                assert forall|k: int| 0 <= k < j implies model[k].0 != val@ by {
                    assert(model[k] == (gsnap[k].0@, keys_model(gsnap[k].1@)));
                }
                assert(model[j as int] == (gsnap[j as int].0@, keys_model(gsnap[j as int].1@)));
                lemma_insert_row_found(model, val@, key@, j as int);
                let target = model.update(
                    j as int,
                    (model[j as int].0, model[j as int].1.push(key@)),
                );
                assert(g0 == gsnap[j as int].0);
                assert(g1 == gsnap[j as int].1@.push(*key));
                assert(keys_model(g1) =~= keys_model(gsnap[j as int].1@).push(key@));
                assert forall|k: int| 0 <= k < groups@.len() implies groups_model(groups@)[k]
                    == target[k] by {
                    assert(groups_model(groups@)[k] == (groups@[k].0@, keys_model(groups@[k].1@)));
                    assert(model[k] == (gsnap[k].0@, keys_model(gsnap[k].1@)));
                    if k == j {
                        assert(groups@[k].0 == g0);
                        assert(groups@[k].1@ == g1);
                    } else {
                        assert(groups@[k] == gsnap[k]);
                    }
                }
                assert(groups_model(groups@) =~= target);
            }
        } else {
            let mut ks: Vec<String> = Vec::new();
            ks.push(key.clone());
            groups.push((val.clone(), ks));
            proof {
                assert forall|k: int| 0 <= k < model.len() implies model[k].0 != val@ by {
                    assert(model[k] == (gsnap[k].0@, keys_model(gsnap[k].1@)));
                }
                lemma_insert_row_new(model, val@, key@);
                let target = model.push((val@, seq![key@]));
                assert forall|k: int| 0 <= k < groups@.len() implies groups_model(groups@)[k]
                    == target[k] by {
                    assert(groups_model(groups@)[k] == (groups@[k].0@, keys_model(groups@[k].1@)));
                    if k < model.len() {
                        assert(groups@[k] == gsnap[k]);
                        assert(model[k] == (gsnap[k].0@, keys_model(gsnap[k].1@)));
                    } else {
                        assert(keys_model(groups@[k].1@) =~= seq![key@]);
                    }
                }
                assert(groups_model(groups@) =~= target);
            }
        }
        proof {
            let rm = rows_model(rows@);
            assert(rm.subrange(0, i + 1).drop_last() =~= rm.subrange(0, i as int));
            assert(rm.subrange(0, i + 1).last() == rm[i as int]);
            assert(rm[i as int] == (rows@[i as int].0@, rows@[i as int].1@));
        }
        i = i + 1;
    }
    proof {
        assert(rows_model(rows@).subrange(0, rows@.len() as int) =~= rows_model(rows@));
    }
    groups
}

} // verus!
