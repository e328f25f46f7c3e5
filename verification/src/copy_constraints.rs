//! Copy constraints: an equivalence relation over (column, global row)
//! cells, imposed outside the polynomial identities. All members of a class
//! must carry equal values once any one of them becomes known.

use vstd::prelude::*;
use crate::columns::PolyId;

verus! {

/// A cell named by its column and its global row.
pub type CellRef = (PolyId, u64);

/// Precomputed equivalence classes of copy-constrained cells. No merging
/// happens here; the classes come from the constraint-compilation stage.
#[derive(Debug)]
pub struct CopyConstraints {
    /// The equivalence classes; each class lists its member cells.
    pub classes: Vec<Vec<CellRef>>,
}

/// Whether some class contains the cell.
pub open spec fn spec_has_class(cc: CopyConstraints, cell: CellRef) -> bool {
    exists|i: int| 0 <= i < cc.classes@.len() && #[trigger] cc.classes@[i]@.contains(cell)
}

/// The index of the class containing the cell; well defined when the classes
/// are pairwise disjoint.
pub open spec fn the_class_idx(cc: CopyConstraints, cell: CellRef) -> int {
    choose|i: int| 0 <= i < cc.classes@.len() && #[trigger] cc.classes@[i]@.contains(cell)
}

/// The members of a class other than the given cell, among the first `n`,
/// kept in class order.
pub open spec fn spec_others_upto(class: Seq<CellRef>, cell: CellRef, n: int) -> Seq<CellRef>
    decreases n,
{
    if n <= 0 {
        Seq::empty()
    } else {
        spec_others_upto(class, cell, n - 1) + (if class[n - 1] == cell {
            Seq::empty()
        } else {
            seq![class[n - 1]]
        })
    }
}

/// The cells the value of `cell` must propagate to: the rest of its
/// equivalence class, in class order.
pub open spec fn spec_others_in_class(cc: CopyConstraints, cell: CellRef) -> Seq<CellRef> {
    if spec_has_class(cc, cell) {
        let class = cc.classes@[the_class_idx(cc, cell)]@;
        spec_others_upto(class, cell, class.len() as int)
    } else {
        Seq::empty()
    }
}

impl CopyConstraints {
    /// Well-formedness: classes are pairwise disjoint and free of duplicate
    /// members.
    pub open spec fn wf(&self) -> bool {
        &&& forall|i: int, j: int, k: int|
            0 <= i < self.classes@.len() && 0 <= j < k < self.classes@[i]@.len()
                ==> #[trigger] self.classes@[i]@[j] != #[trigger] self.classes@[i]@[k]
        &&& forall|i: int, j: int, c: CellRef|
            0 <= i < j < self.classes@.len() && #[trigger] self.classes@[i]@.contains(c)
                ==> !#[trigger] self.classes@[j]@.contains(c)
    }

    /// No copy constraints at all.
    pub fn empty() -> (r: CopyConstraints)
        ensures
            r.classes@.len() == 0,
            r.wf(),
    {
        CopyConstraints { classes: Vec::new() }
    }

    /// Whether no copy constraints are registered.
    pub fn is_empty(&self) -> (r: bool)
        ensures
            r == (self.classes@.len() == 0),
    {
        self.classes.len() == 0
    }

    /// The rest of the equivalence class of `cell`, in class order; empty if
    /// the cell is in no class.
    pub fn others_in_class(&self, cell: CellRef) -> (out: Vec<CellRef>)
        requires
            self.wf(),
        ensures
            out@ == spec_others_in_class(*self, cell),
    {
        let n = self.classes.len();
        let mut ci: usize = 0;
        while ci < n
            invariant
                ci <= n,
                n == self.classes@.len(),
                self.wf(),
                forall|j: int| 0 <= j < ci ==> !#[trigger] self.classes@[j]@.contains(cell),
            decreases n - ci,
        {
            let class = &self.classes[ci];
            let m = class.len();
            let mut k: usize = 0;
            let mut present = false;
            while k < m
                invariant
                    k <= m,
                    m == class@.len(),
                    present <==> exists|j: int| 0 <= j < k && #[trigger] class@[j] == cell,
                decreases m - k,
            {
                let member = class[k];
                if member.0 == cell.0 && member.1 == cell.1 {
                    present = true;
                }
                k = k + 1;
            }
            if present {
                proof {
                    assert(class@.contains(cell));
                    assert(spec_has_class(*self, cell));
                    assert(the_class_idx(*self, cell) == ci) by {
                        let t = the_class_idx(*self, cell);
                        assert(0 <= t < self.classes@.len() && self.classes@[t]@.contains(cell));
                        if t < ci {
                            assert(!self.classes@[t]@.contains(cell));
                        }
                        if t > ci {
                            assert(!self.classes@[t]@.contains(cell));
                        }
                    }
                }
                let mut out: Vec<CellRef> = Vec::new();
                let mut k2: usize = 0;
                while k2 < m
                    invariant
                        k2 <= m,
                        m == class@.len(),
                        out@ == spec_others_upto(class@, cell, k2 as int),
                    decreases m - k2,
                {
                    let member = class[k2];
                    if !(member.0 == cell.0 && member.1 == cell.1) {
                        out.push(member);
                    }
                    proof {
                        assert(out@ =~= spec_others_upto(class@, cell, k2 + 1 as int));
                    }
                    k2 = k2 + 1;
                }
                return out;
            }
            proof {
                if class@.contains(cell) {
                    let j = choose|j: int| 0 <= j < class@.len() && class@[j] == cell;
                    assert(false);
                }
            }
            ci = ci + 1;
        }
        proof {
            assert(!spec_has_class(*self, cell));
        }
        Vec::new()
    }
}

} // verus!
