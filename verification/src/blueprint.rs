//! Compilation of room blueprints into the gene templates the optimizer
//! works on.

use vstd::prelude::*;
use crate::collections::Vector;
use crate::genes::{GENES_MAX, Gene, SIZE_MAX, wf_gene};
use crate::shapes::Rect;

verus! {

/// A blueprint for a kind of room: so many rooms of the given dimensions,
/// identified by a key.
#[derive(PartialEq, Eq, Structural, Copy, Clone, Debug)]
pub struct RoomBlueprint {
    pub key: usize,
    pub width: i64,
    pub height: i64,
    pub amount: usize,
}

/// A collection of room blueprints that can be compiled into gene templates.
#[derive(Clone, Debug)]
pub struct Blueprint {
    pub rooms: Vec<RoomBlueprint>,
}

/// The number of genes the blueprints ask for: the sum of their amounts.
pub open spec fn total_amount(rooms: Seq<RoomBlueprint>) -> int
    decreases rooms.len(),
{
    if rooms.len() == 0 {
        0
    } else {
        total_amount(rooms.drop_last()) + rooms.last().amount
    }
}

/// The run of genes one blueprint compiles to, with ids counting on from
/// `base`: each gene one unit wider and taller than the blueprint, so that
/// finished rooms keep a border between them.
pub open spec fn gene_run(room: RoomBlueprint, base: int) -> Seq<Gene> {
    Seq::new(
        room.amount as nat,
        |j: int|
            Gene {
                rect: Rect {
                    x: 0,
                    y: 0,
                    w: (room.width + 1) as i64,
                    h: (room.height + 1) as i64,
                },
                gene_id: (base + j) as i64,
            },
    )
}

/// The gene templates a sequence of blueprints compiles to, with sequential
/// ids from 0.
pub open spec fn compiled(rooms: Seq<RoomBlueprint>) -> Seq<Gene>
    decreases rooms.len(),
{
    if rooms.len() == 0 {
        Seq::empty()
    } else {
        compiled(rooms.drop_last()) + gene_run(rooms.last(), total_amount(rooms.drop_last()))
    }
}

/// Every blueprint's dimensions leave room for the one-unit border within a
/// gene's size limit.
pub open spec fn wf_blueprints(rooms: Seq<RoomBlueprint>) -> bool {
    forall|i: int|
        0 <= i < rooms.len() ==> 0 <= (#[trigger] rooms[i]).width <= SIZE_MAX - 1 && 0
            <= rooms[i].height <= SIZE_MAX - 1
}

/// The sum of amounts only grows along a prefix.
proof fn lemma_total_amount_prefix(rooms: Seq<RoomBlueprint>, i: int)
    requires
        0 <= i <= rooms.len(),
    ensures
        total_amount(rooms.take(i)) <= total_amount(rooms),
        total_amount(rooms.take(i)) >= 0,
    decreases rooms.len() - i,
{
    if i == rooms.len() {
        assert(rooms.take(i) == rooms);
        lemma_total_amount_nonneg(rooms);
    } else {
        assert(rooms.take(i + 1).drop_last() =~= rooms.take(i));
        assert(rooms.take(i + 1).last() == rooms[i]);
        lemma_total_amount_prefix(rooms, i + 1);
        lemma_total_amount_nonneg(rooms.take(i));
    }
}

/// The sum of amounts is never negative.
proof fn lemma_total_amount_nonneg(rooms: Seq<RoomBlueprint>)
    ensures
        total_amount(rooms) >= 0,
    decreases rooms.len(),
{
    if rooms.len() > 0 {
        lemma_total_amount_nonneg(rooms.drop_last());
    }
}

impl Blueprint {
    /// Creates the gene templates that the blueprints describe: for each
    /// blueprint, `amount` genes of its (border-padded) dimensions, with
    /// sequential ids from 0.
    pub fn compile(&self) -> (genes: Vector<Gene>)
        requires
            wf_blueprints(self.rooms@),
            total_amount(self.rooms@) <= GENES_MAX,
        ensures
            genes@ == compiled(self.rooms@),
            genes@.len() == total_amount(self.rooms@),
            crate::genes::wf_genes(genes@),
    {
        let n = self.rooms.len();
        let mut genes: Vector<Gene> = Vector::new();
        let mut current_id: usize = 0;
        let mut i: usize = 0;
        while i < n
            invariant
                i <= n,
                n == self.rooms@.len(),
                wf_blueprints(self.rooms@),
                total_amount(self.rooms@) <= GENES_MAX,
                genes@ == compiled(self.rooms@.take(i as int)),
                genes@.len() == current_id,
                current_id == total_amount(self.rooms@.take(i as int)),
                current_id <= GENES_MAX,
            decreases n - i,
        {
            proof {
                lemma_total_amount_prefix(self.rooms@, i as int + 1);
                assert(self.rooms@.take(i as int + 1).drop_last() =~= self.rooms@.take(i as int));
                assert(self.rooms@.take(i as int + 1).last() == self.rooms@[i as int]);
            }
            let room = self.rooms[i];
            let rect = Rect::new(0, 0, room.width + 1, room.height + 1);
            let ghost base = current_id as int;
            let mut j: usize = 0;
            while j < room.amount
                invariant
                    j <= room.amount,
                    room == self.rooms@[i as int],
                    i < self.rooms@.len(),
                    wf_blueprints(self.rooms@),
                    rect == (Rect {
                        x: 0,
                        y: 0,
                        w: (room.width + 1) as i64,
                        h: (room.height + 1) as i64,
                    }),
                    base == total_amount(self.rooms@.take(i as int)),
                    base + room.amount <= GENES_MAX,
                    current_id == base + j,
                    genes@.len() == current_id,
                    genes@ =~= compiled(self.rooms@.take(i as int)) + gene_run(
                        self.rooms@[i as int],
                        base,
                    ).take(j as int),
                decreases room.amount - j,
            {
                genes.push(Gene::new(rect, current_id as i64));
                proof {
                    assert(genes@ =~= compiled(self.rooms@.take(i as int)) + gene_run(
                        self.rooms@[i as int],
                        base,
                    ).take(j as int + 1));
                }
                current_id = current_id + 1;
                j = j + 1;
            }
            proof {
                assert(gene_run(self.rooms@[i as int], base).take(room.amount as int) =~= gene_run(
                    self.rooms@[i as int],
                    base,
                ));
                assert(genes@ =~= compiled(self.rooms@.take(i as int + 1)));
            }
            i = i + 1;
        }
        proof {
            assert(self.rooms@.take(n as int) == self.rooms@);
            lemma_compiled_wf(self.rooms@);
        }
        genes
    }
}

/// Every gene compiled from well-formed blueprints is well-formed.
proof fn lemma_compiled_wf(rooms: Seq<RoomBlueprint>)
    requires
        wf_blueprints(rooms),
    ensures
        crate::genes::wf_genes(compiled(rooms)),
    decreases rooms.len(),
{
    if rooms.len() > 0 {
        assert(wf_blueprints(rooms.drop_last()));
        lemma_compiled_wf(rooms.drop_last());
        let run = gene_run(rooms.last(), total_amount(rooms.drop_last()));
        assert forall|k: int| 0 <= k < run.len() implies wf_gene(run[k]) by {
            assert(rooms[rooms.len() - 1] == rooms.last());
        }
    }
}

} // verus!
