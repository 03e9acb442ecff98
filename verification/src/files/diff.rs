//! A line diff between two texts.

use vstd::prelude::*;

verus! {

use crate::editor::rope::{lines_of, split_lines};
use crate::strutil::str_to_chars;

/// One step of a line diff.
#[derive(Debug, Clone, PartialEq)]
pub enum DiffOp {
    Equal(String),
    Insert(String),
    Delete(String),
    Replace(String, String),
}

/// Mathematical image of a step.
#[verifier::ext_equal]
pub enum DiffOpV {
    Equal(Seq<char>),
    Insert(Seq<char>),
    Delete(Seq<char>),
    Replace(Seq<char>, Seq<char>),
}

impl View for DiffOp {
    type V = DiffOpV;

    open spec fn view(&self) -> DiffOpV {
        match self {
            DiffOp::Equal(l) => DiffOpV::Equal(l@),
            DiffOp::Insert(l) => DiffOpV::Insert(l@),
            DiffOp::Delete(l) => DiffOpV::Delete(l@),
            DiffOp::Replace(a, b) => DiffOpV::Replace(a@, b@),
        }
    }
}

/// The images of a step list.
pub open spec fn op_views(v: Seq<DiffOp>) -> Seq<DiffOpV> {
    v.map_values(|o: DiffOp| o@)
}

/// The old-side lines a diff accounts for, in order.
pub open spec fn replay_old(ops: Seq<DiffOpV>) -> Seq<Seq<char>>
    decreases ops.len(),
{
    if ops.len() == 0 {
        Seq::<Seq<char>>::empty()
    } else {
        (match ops[0] {
            DiffOpV::Equal(l) => seq![l],
            DiffOpV::Delete(l) => seq![l],
            DiffOpV::Replace(a, b) => seq![a],
            DiffOpV::Insert(l) => Seq::<Seq<char>>::empty(),
        }) + replay_old(ops.skip(1))
    }
}

/// The new-side lines a diff accounts for, in order.
pub open spec fn replay_new(ops: Seq<DiffOpV>) -> Seq<Seq<char>>
    decreases ops.len(),
{
    if ops.len() == 0 {
        Seq::<Seq<char>>::empty()
    } else {
        (match ops[0] {
            DiffOpV::Equal(l) => seq![l],
            DiffOpV::Insert(l) => seq![l],
            DiffOpV::Replace(a, b) => seq![b],
            DiffOpV::Delete(l) => Seq::<Seq<char>>::empty(),
        }) + replay_new(ops.skip(1))
    }
}

/// Replaying a pushed step extends the replayed sides by its contribution.
proof fn lemma_replay_push(ops: Seq<DiffOpV>, op: DiffOpV)
    ensures
        replay_old(ops.push(op)) == replay_old(ops) + (match op {
            DiffOpV::Equal(l) => seq![l],
            DiffOpV::Delete(l) => seq![l],
            DiffOpV::Replace(a, b) => seq![a],
            DiffOpV::Insert(l) => Seq::<Seq<char>>::empty(),
        }),
        replay_new(ops.push(op)) == replay_new(ops) + (match op {
            DiffOpV::Equal(l) => seq![l],
            DiffOpV::Insert(l) => seq![l],
            DiffOpV::Replace(a, b) => seq![b],
            DiffOpV::Delete(l) => Seq::<Seq<char>>::empty(),
        }),
    decreases ops.len(),
{
    if ops.len() == 0 {
        assert(ops.push(op)[0] == op);
        assert(ops.push(op).skip(1) =~= Seq::<DiffOpV>::empty());
        assert(replay_old(Seq::<DiffOpV>::empty()) == Seq::<Seq<char>>::empty());
        assert(replay_new(Seq::<DiffOpV>::empty()) == Seq::<Seq<char>>::empty());
        assert(replay_old(ops.push(op)) == (match op {
            DiffOpV::Equal(l) => seq![l],
            DiffOpV::Delete(l) => seq![l],
            DiffOpV::Replace(a, b) => seq![a],
            DiffOpV::Insert(l) => Seq::<Seq<char>>::empty(),
        }) + Seq::<Seq<char>>::empty());
        assert(replay_old(ops.push(op)) =~= replay_old(ops) + (match op {
            DiffOpV::Equal(l) => seq![l],
            DiffOpV::Delete(l) => seq![l],
            DiffOpV::Replace(a, b) => seq![a],
            DiffOpV::Insert(l) => Seq::<Seq<char>>::empty(),
        }));
        assert(replay_new(ops.push(op)) == (match op {
            DiffOpV::Equal(l) => seq![l],
            DiffOpV::Insert(l) => seq![l],
            DiffOpV::Replace(a, b) => seq![b],
            DiffOpV::Delete(l) => Seq::<Seq<char>>::empty(),
        }) + Seq::<Seq<char>>::empty());
        assert(replay_new(ops.push(op)) =~= replay_new(ops) + (match op {
            DiffOpV::Equal(l) => seq![l],
            DiffOpV::Insert(l) => seq![l],
            DiffOpV::Replace(a, b) => seq![b],
            DiffOpV::Delete(l) => Seq::<Seq<char>>::empty(),
        }));
    } else {
        lemma_replay_push(ops.skip(1), op);
        assert(ops.push(op).skip(1) =~= ops.skip(1).push(op));
        assert(ops.push(op)[0] == ops[0]);
        assert(replay_old(ops.push(op)) =~= replay_old(ops) + (match op {
            DiffOpV::Equal(l) => seq![l],
            DiffOpV::Delete(l) => seq![l],
            DiffOpV::Replace(a, b) => seq![a],
            DiffOpV::Insert(l) => Seq::<Seq<char>>::empty(),
        }));
        assert(replay_new(ops.push(op)) =~= replay_new(ops) + (match op {
            DiffOpV::Equal(l) => seq![l],
            DiffOpV::Insert(l) => seq![l],
            DiffOpV::Replace(a, b) => seq![b],
            DiffOpV::Delete(l) => Seq::<Seq<char>>::empty(),
        }));
    }
}

/// A greedy line diff: matching lines align, a line equal to the other
/// side's next line becomes an insert or delete, and anything else is a
/// replacement. Replaying the steps reproduces both texts' lines exactly.
pub fn diff_lines(old_text: &str, new_text: &str) -> (r: Vec<DiffOp>)
    ensures
        replay_old(op_views(r@)) == lines_of(old_text@),
        replay_new(op_views(r@)) == lines_of(new_text@),
{
    let ov = str_to_chars(old_text);
    let nv = str_to_chars(new_text);
    let old_lines = split_lines(&ov);
    let new_lines = split_lines(&nv);
    let ghost ols = lines_of(old_text@);
    let ghost nls = lines_of(new_text@);
    let n_old = old_lines.len();
    let n_new = new_lines.len();
    let mut ops: Vec<DiffOp> = Vec::new();
    let mut i: usize = 0;
    let mut j: usize = 0;
    proof {
        assert(op_views(ops@) =~= Seq::<DiffOpV>::empty());
        assert(replay_old(Seq::<DiffOpV>::empty()) =~= Seq::<Seq<char>>::empty());
        assert(replay_new(Seq::<DiffOpV>::empty()) =~= Seq::<Seq<char>>::empty());
        assert(ols.take(0) =~= Seq::<Seq<char>>::empty());
        assert(nls.take(0) =~= Seq::<Seq<char>>::empty());
    }
    while i < n_old && j < n_new
        invariant
            i <= n_old,
            j <= n_new,
            n_old == ols.len() == old_lines@.len(),
            n_new == nls.len() == new_lines@.len(),
            forall|q: int| 0 <= q < n_old ==> (#[trigger] old_lines@[q])@ == ols[q],
            forall|q: int| 0 <= q < n_new ==> (#[trigger] new_lines@[q])@ == nls[q],
            replay_old(op_views(ops@)) == ols.take(i as int),
            replay_new(op_views(ops@)) == nls.take(j as int),
        decreases n_old - i + n_new - j,
    {
        let ghost pv = op_views(ops@);
        if old_lines[i] == new_lines[j] {
            let op = DiffOp::Equal(old_lines[i].clone());
            proof {
                lemma_replay_push(pv, op@);
            }
            ops.push(op);
            proof {
                assert(op_views(ops@) =~= pv.push(DiffOpV::Equal(ols[i as int])));
                assert(replay_old(op_views(ops@)) =~= ols.take(i as int + 1));
                assert(replay_new(op_views(ops@)) =~= nls.take(j as int + 1));
            }
            i = i + 1;
            j = j + 1;
        } else if j + 1 < n_new && old_lines[i] == new_lines[j + 1] {
            let op = DiffOp::Insert(new_lines[j].clone());
            proof {
                lemma_replay_push(pv, op@);
            }
            ops.push(op);
            proof {
                assert(op_views(ops@) =~= pv.push(DiffOpV::Insert(nls[j as int])));
                assert(replay_old(op_views(ops@)) =~= ols.take(i as int));
                assert(replay_new(op_views(ops@)) =~= nls.take(j as int + 1));
            }
            j = j + 1;
        } else if i + 1 < n_old && old_lines[i + 1] == new_lines[j] {
            let op = DiffOp::Delete(old_lines[i].clone());
            proof {
                lemma_replay_push(pv, op@);
            }
            ops.push(op);
            proof {
                assert(op_views(ops@) =~= pv.push(DiffOpV::Delete(ols[i as int])));
                assert(replay_old(op_views(ops@)) =~= ols.take(i as int + 1));
                assert(replay_new(op_views(ops@)) =~= nls.take(j as int));
            }
            i = i + 1;
        } else {
            let op = DiffOp::Replace(old_lines[i].clone(), new_lines[j].clone());
            proof {
                lemma_replay_push(pv, op@);
            }
            ops.push(op);
            proof {
                assert(op_views(ops@) =~= pv.push(
                    DiffOpV::Replace(ols[i as int], nls[j as int]),
                ));
                assert(replay_old(op_views(ops@)) =~= ols.take(i as int + 1));
                assert(replay_new(op_views(ops@)) =~= nls.take(j as int + 1));
            }
            i = i + 1;
            j = j + 1;
        }
    }
    while i < n_old
        invariant
            i <= n_old,
            j <= n_new,
            n_old == ols.len() == old_lines@.len(),
            forall|q: int| 0 <= q < n_old ==> (#[trigger] old_lines@[q])@ == ols[q],
            replay_old(op_views(ops@)) == ols.take(i as int),
            replay_new(op_views(ops@)) == nls.take(j as int),
        decreases n_old - i,
    {
        let ghost pv = op_views(ops@);
        let op = DiffOp::Delete(old_lines[i].clone());
        proof {
            lemma_replay_push(pv, op@);
        }
        ops.push(op);
        proof {
            assert(op_views(ops@) =~= pv.push(DiffOpV::Delete(ols[i as int])));
            assert(replay_old(op_views(ops@)) =~= ols.take(i as int + 1));
            assert(replay_new(op_views(ops@)) =~= nls.take(j as int));
        }
        i = i + 1;
    }
    while j < n_new
        invariant
            i == n_old,
            j <= n_new,
            n_old == ols.len(),
            n_new == nls.len() == new_lines@.len(),
            forall|q: int| 0 <= q < n_new ==> (#[trigger] new_lines@[q])@ == nls[q],
            replay_old(op_views(ops@)) == ols.take(i as int),
            replay_new(op_views(ops@)) == nls.take(j as int),
        decreases n_new - j,
    {
        let ghost pv = op_views(ops@);
        let op = DiffOp::Insert(new_lines[j].clone());
        proof {
            lemma_replay_push(pv, op@);
        }
        ops.push(op);
        proof {
            assert(op_views(ops@) =~= pv.push(DiffOpV::Insert(nls[j as int])));
            assert(replay_old(op_views(ops@)) =~= ols.take(i as int));
            assert(replay_new(op_views(ops@)) =~= nls.take(j as int + 1));
        }
        j = j + 1;
    }
    proof {
        assert(ols.take(n_old as int) =~= ols);
        assert(nls.take(n_new as int) =~= nls);
    }
    ops
}

} // verus!
