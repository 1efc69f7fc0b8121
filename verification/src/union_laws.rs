//! What an admitted ordered union does: it keeps the smaller identity with its
//! proof, and moves the larger one into a union-find table with a proof that the
//! two are equal.

use vstd::prelude::*;

#[allow(unused_imports)]
use crate::authority::{entry, AuthorityRegistries, NativePrimitive};
#[allow(unused_imports)]
use crate::catalog::{Catalog, TableInfo};
#[allow(unused_imports)]
use crate::ir::{
    ColumnTy, DefaultVal, ExternalFunctionId, FunctionId, MergeAction, MergeFn, RuleSpec,
};
#[allow(unused_imports)]
use crate::marker_rekey::{marker_rekey, MarkerRekeyView};
#[allow(unused_imports)]
use crate::merge_meaning::{
    merge_columns_meaning, merge_meaning, merge_step_meaning, merge_steps_meaning, merge_value,
    merge_values, MergeProgress, MergeWorld,
};
#[allow(unused_imports)]
use crate::path_compress::{path_check, path_merge_check, path_plan};
#[allow(unused_imports)]
use crate::rebuild::{
    rebuild_selection, standard_rebuild, union_check, OrderedUnionOrientation, RebuildRoles,
    StandardRebuildView,
};
#[allow(unused_imports)]
use crate::rejection::{RejectionView, Scope};
#[allow(unused_imports)]
use crate::shape::{identity_patterns, merge_target, patterns_check, payload_patterns, MergePattern};

verus! {

// ---------------------------------------------------------------------------
// The primitives of an ordered union.

/// What the primitives of an ordered union pick: of two identities the larger or
/// the smaller one, and of two identities with their proofs the proof of the larger
/// or of the smaller one.
pub enum Pick {
    Larger,
    Smaller,
    ProofOfLarger,
    ProofOfSmaller,
}

/// The number of inputs.
pub open spec fn pick_arity(pick: Pick) -> nat {
    match pick {
        Pick::Larger | Pick::Smaller => 2,
        Pick::ProofOfLarger | Pick::ProofOfSmaller => 4,
    }
}

/// What is picked.
pub open spec fn picked_value(pick: Pick, inputs: Seq<int>) -> int {
    match pick {
        Pick::Larger => if inputs[0] > inputs[1] {
            inputs[0]
        } else {
            inputs[1]
        },
        Pick::Smaller => if inputs[0] < inputs[1] {
            inputs[0]
        } else {
            inputs[1]
        },
        Pick::ProofOfLarger => if inputs[0] > inputs[2] {
            inputs[1]
        } else {
            inputs[3]
        },
        Pick::ProofOfSmaller => if inputs[0] < inputs[2] {
            inputs[1]
        } else {
            inputs[3]
        },
    }
}

/// A primitive picks, whenever the two identities differ.
pub open spec fn performs(world: MergeWorld, id: ExternalFunctionId, pick: Pick) -> bool {
    forall|inputs: Seq<int>, calls: nat|
        inputs.len() == pick_arity(pick) && inputs[0] != inputs[pick_arity(pick) as int / 2]
            ==> #[trigger] (world.primitive)(id, inputs, calls) == picked_value(pick, inputs)
}

/// The primitives that go by these names do what the names say.
pub open spec fn names_are_meant(world: MergeWorld, node: MergeFn) -> bool {
    match node {
        MergeFn::Primitive { id, name, .. } => {
            &&& name@ == "ordering-max"@ ==> performs(world, id, Pick::Larger)
            &&& name@ == "ordering-min"@ ==> performs(world, id, Pick::Smaller)
            &&& name@ == "proof-of-max"@ ==> performs(world, id, Pick::ProofOfLarger)
            &&& name@ == "proof-of-min"@ ==> performs(world, id, Pick::ProofOfSmaller)
        },
        _ => true,
    }
}

/// The authenticated primitives do what their tags say.
pub open spec fn tags_are_meant(world: MergeWorld, registries: AuthorityRegistries) -> bool {
    forall|id: ExternalFunctionId|
        (#[trigger] entry(registries.native_primitives@, id.rep)) matches Some(tag) ==> match tag {
            NativePrimitive::OrderingMax => performs(world, id, Pick::Larger),
            NativePrimitive::OrderingMin => performs(world, id, Pick::Smaller),
            NativePrimitive::SelectMaxPayload => performs(world, id, Pick::ProofOfLarger),
            NativePrimitive::SelectMinPayload => performs(world, id, Pick::ProofOfSmaller),
            NativePrimitive::ValueNeq => true,
        }
}

/// The steps and the merged columns of a block.
pub open spec fn block_parts(merge: MergeFn) -> (Seq<MergeAction>, Seq<MergeFn>) {
    match merge {
        MergeFn::Block { actions, result } => match *result {
            MergeFn::Columns(columns) => (actions@, columns@),
            _ => (actions@, Seq::empty()),
        },
        _ => (Seq::empty(), Seq::empty()),
    }
}

/// The primitives of a block that go by the names of an ordered union do what the
/// names say.
pub open spec fn all_names_are_meant(world: MergeWorld, merge: MergeFn) -> bool {
    let (steps, columns) = block_parts(merge);
    &&& names_are_meant(world, step_value(steps[0]))
    &&& names_are_meant(world, step_value(steps[1]))
    &&& names_are_meant(world, step_row(steps[6])[0])
    &&& names_are_meant(world, step_row(steps[6])[1])
    &&& names_are_meant(world, columns[0])
}

/// The value that a step binds.
pub open spec fn step_value(action: MergeAction) -> MergeFn {
    match action {
        MergeAction::Let { value, .. } => value,
        _ => arbitrary(),
    }
}

/// The row that a step writes.
pub open spec fn step_row(action: MergeAction) -> Seq<MergeFn> {
    match action {
        MergeAction::SetRow(_, args) => args@,
        _ => Seq::empty(),
    }
}

// ---------------------------------------------------------------------------
// Evaluation.

/// An expression has the form of a pattern.
spec fn fits(node: MergeFn, pattern: MergePattern) -> bool {
    match (node, pattern) {
        (MergeFn::OldCol(actual), MergePattern::Old(expected)) => actual == expected,
        (MergeFn::NewCol(actual), MergePattern::New(expected)) => actual == expected,
        (MergeFn::LetVar(actual), MergePattern::Let(expected)) => actual == expected,
        (MergeFn::Const { .. }, MergePattern::Unit) => true,
        _ => false,
    }
}

spec fn all_fit(nodes: Seq<MergeFn>, patterns: Seq<MergePattern>) -> bool {
    &&& nodes.len() == patterns.len()
    &&& forall|i: int| 0 <= i < nodes.len() ==> fits(#[trigger] nodes[i], patterns[i])
}

/// The value of a pattern that is no constant.
spec fn pattern_value(
    pattern: MergePattern,
    old_row: Seq<int>,
    new_row: Seq<int>,
    lets: Seq<int>,
) -> int {
    match pattern {
        MergePattern::Old(column) => old_row[column as int],
        MergePattern::New(column) => new_row[column as int],
        MergePattern::Let(slot) => lets[slot as int],
        MergePattern::Unit => 0,
    }
}

proof fn lemma_fitting(
    catalog: Catalog,
    scope: Scope,
    nodes: Seq<MergeFn>,
    patterns: Seq<MergePattern>,
    count: nat,
)
    requires
        patterns_check(catalog, scope, nodes, patterns, count).fault is None,
    ensures
        forall|i: int| 0 <= i < count ==> fits(#[trigger] nodes[i], patterns[i]),
    decreases count,
{
    if count > 0 {
        lemma_fitting(catalog, scope, nodes, patterns, (count - 1) as nat);
    }
}

proof fn lemma_leaves(
    world: MergeWorld,
    nodes: Seq<MergeFn>,
    patterns: Seq<MergePattern>,
    from: int,
    column: usize,
    old_row: Seq<int>,
    new_row: Seq<int>,
    lets: Seq<int>,
    calls: nat,
)
    requires
        all_fit(nodes, patterns),
        0 <= from <= nodes.len(),
    ensures
        ({
            let (values, made) = merge_values(
                world,
                nodes,
                from,
                column,
                old_row,
                new_row,
                lets,
                calls,
            );
            &&& made == calls
            &&& values.len() == nodes.len() - from
            &&& forall|i: int|
                from <= i < nodes.len() && patterns[i] != MergePattern::Unit
                    ==> #[trigger] values[i - from] == pattern_value(
                    patterns[i],
                    old_row,
                    new_row,
                    lets,
                )
        }),
    decreases nodes.len() - from,
{
    if from < nodes.len() {
        lemma_leaves(
            world,
            nodes,
            patterns,
            from + 1,
            column,
            old_row,
            new_row,
            lets,
            calls,
        );
        assert(fits(nodes[from], patterns[from]));
        let (value, made) = merge_value(
            world,
            nodes[from],
            column,
            old_row,
            new_row,
            lets,
            calls,
        );
        assert(made == calls);
        let (rest, _) = merge_values(
            world,
            nodes,
            from + 1,
            column,
            old_row,
            new_row,
            lets,
            calls,
        );
        let (values, _) = merge_values(
            world,
            nodes,
            from,
            column,
            old_row,
            new_row,
            lets,
            calls,
        );
        assert(values == seq![value] + rest);
        assert forall|i: int|
            from <= i < nodes.len() && patterns[i] != MergePattern::Unit implies #[trigger] values[i
            - from] == pattern_value(patterns[i], old_row, new_row, lets) by {
            if i > from {
                assert(values[i - from] == rest[i - (from + 1)]);
            }
        }
    }
}

/// An expression picks from arguments of the given forms.
spec fn computes(
    world: MergeWorld,
    node: MergeFn,
    pick: Pick,
    patterns: Seq<MergePattern>,
) -> bool {
    match node {
        MergeFn::Primitive { id, args, .. } => all_fit(args@, patterns) && performs(
            world,
            id,
            pick,
        ),
        _ => false,
    }
}

/// The identities and proofs of the old and the new row.
spec fn four(old_row: Seq<int>, new_row: Seq<int>) -> Seq<int> {
    seq![old_row[0], old_row[1], new_row[0], new_row[1]]
}

/// The identities of the old and the new row.
spec fn two(old_row: Seq<int>, new_row: Seq<int>) -> Seq<int> {
    seq![old_row[0], new_row[0]]
}

proof fn lemma_computes(
    world: MergeWorld,
    node: MergeFn,
    pick: Pick,
    column: usize,
    old_row: Seq<int>,
    new_row: Seq<int>,
    lets: Seq<int>,
    calls: nat,
)
    requires
        old_row[0] != new_row[0],
        computes(
            world,
            node,
            pick,
            if pick_arity(pick) == 2 {
                identity_patterns()
            } else {
                payload_patterns()
            },
        ),
    ensures
        merge_value(world, node, column, old_row, new_row, lets, calls).0 == picked_value(
            pick,
            if pick_arity(pick) == 2 {
                two(old_row, new_row)
            } else {
                four(old_row, new_row)
            },
        ),
{
    match node {
        MergeFn::Primitive { id, args, .. } => {
            let patterns = if pick_arity(pick) == 2 {
                identity_patterns()
            } else {
                payload_patterns()
            };
            lemma_leaves(world, args@, patterns, 0, column, old_row, new_row, lets, calls);
            let values = merge_values(
                world,
                args@,
                0,
                column,
                old_row,
                new_row,
                lets,
                calls,
            ).0;
            assert(values[0 - 0] == old_row[0]);
            if pick_arity(pick) == 2 {
                assert(values[1 - 0] == new_row[0]);
                assert(values =~= two(old_row, new_row));
            } else {
                assert(values[1 - 0] == old_row[1]);
                assert(values[2 - 0] == new_row[0]);
                assert(values[3 - 0] == new_row[1]);
                assert(values =~= four(old_row, new_row));
            }
        },
        _ => {},
    }
}

/// A block has the parts of an ordered union.
spec fn is_union(
    world: MergeWorld,
    merge: MergeFn,
    sym: Seq<MergePattern>,
    trans: Seq<MergePattern>,
) -> bool {
    let (steps, columns) = block_parts(merge);
    let displaced = step_row(steps[6]);
    &&& steps.len() == 7
    &&& columns.len() == 2
    &&& steps[0] is Let && computes(
        world,
        step_value(steps[0]),
        Pick::ProofOfLarger,
        payload_patterns(),
    )
    &&& steps[1] is Let && computes(
        world,
        step_value(steps[1]),
        Pick::ProofOfSmaller,
        payload_patterns(),
    )
    &&& steps[2] is Let
    &&& steps[3] is SetRow && all_fit(step_row(steps[3]), sym)
    &&& steps[4] is Let
    &&& steps[5] is SetRow && all_fit(step_row(steps[5]), trans)
    &&& steps[6] is SetRow && displaced.len() == 3
    &&& computes(world, displaced[0], Pick::Larger, identity_patterns())
    &&& computes(world, displaced[1], Pick::Smaller, identity_patterns())
    &&& fits(displaced[2], MergePattern::Let(3))
    &&& computes(world, columns[0], Pick::Smaller, identity_patterns())
    &&& fits(columns[1], MergePattern::Let(1))
}

/// What an ordered union makes of an old and a new row: it keeps the smaller
/// identity and its proof, records two proof rows, and moves the larger identity to
/// the smaller one with the second recorded proof.
pub open spec fn union_outcome(
    world: MergeWorld,
    merge: MergeFn,
    old_row: Seq<int>,
    new_row: Seq<int>,
    orientation: OrderedUnionOrientation,
) -> bool {
    let outcome = merge_meaning(world, merge, old_row, new_row);
    let (smaller, larger) = if old_row[0] < new_row[0] {
        (old_row, new_row)
    } else {
        (new_row, old_row)
    };
    let sym = outcome.writes[0].1;
    let trans = outcome.writes[1].1;
    let steps = block_parts(merge).0;
    &&& outcome.values == seq![smaller[0], smaller[1]]
    &&& outcome.writes.len() == 3
    &&& outcome.writes[0].0 == merge_target(steps[3])
    &&& outcome.writes[1].0 == merge_target(steps[5])
    &&& sym.len() == 3
    &&& trans.len() == 4
    &&& outcome.writes[2] == (merge_target(steps[6]), seq![larger[0], smaller[0], trans[2]])
    &&& match orientation {
        OrderedUnionOrientation::KeyToParent => sym[0] == larger[1] && trans[0] == sym[1]
            && trans[1] == smaller[1],
        OrderedUnionOrientation::EclassToTerm => sym[0] == smaller[1] && trans[0] == larger[1]
            && trans[1] == sym[1],
    }
}

spec fn sym_forms(orientation: OrderedUnionOrientation) -> Seq<MergePattern> {
    match orientation {
        OrderedUnionOrientation::KeyToParent => seq![
            MergePattern::Let(0),
            MergePattern::Let(2),
            MergePattern::Unit,
        ],
        OrderedUnionOrientation::EclassToTerm => seq![
            MergePattern::Let(1),
            MergePattern::Let(2),
            MergePattern::Unit,
        ],
    }
}

spec fn trans_forms(orientation: OrderedUnionOrientation) -> Seq<MergePattern> {
    match orientation {
        OrderedUnionOrientation::KeyToParent => seq![
            MergePattern::Let(2),
            MergePattern::Let(1),
            MergePattern::Let(3),
            MergePattern::Unit,
        ],
        OrderedUnionOrientation::EclassToTerm => seq![
            MergePattern::Let(0),
            MergePattern::Let(2),
            MergePattern::Let(3),
            MergePattern::Unit,
        ],
    }
}

proof fn lemma_displaced(
    world: MergeWorld,
    nodes: Seq<MergeFn>,
    old_row: Seq<int>,
    new_row: Seq<int>,
    lets: Seq<int>,
    calls: nat,
)
    requires
        old_row[0] != new_row[0],
        nodes.len() == 3,
        computes(world, nodes[0], Pick::Larger, identity_patterns()),
        computes(world, nodes[1], Pick::Smaller, identity_patterns()),
        fits(nodes[2], MergePattern::Let(3)),
    ensures
        merge_values(world, nodes, 0, 0, old_row, new_row, lets, calls).0 == seq![
            picked_value(Pick::Larger, two(old_row, new_row)),
            picked_value(Pick::Smaller, two(old_row, new_row)),
            lets[3],
        ],
{
    reveal_with_fuel(merge_values, 4);
    let first = merge_value(world, nodes[0], 0, old_row, new_row, lets, calls);
    lemma_computes(world, nodes[0], Pick::Larger, 0, old_row, new_row, lets, calls);
    let second = merge_value(world, nodes[1], 0, old_row, new_row, lets, first.1);
    lemma_computes(world, nodes[1], Pick::Smaller, 0, old_row, new_row, lets, first.1);
    let third = merge_value(world, nodes[2], 0, old_row, new_row, lets, second.1);
    assert(third.0 == lets[3]);
    let last = merge_values(world, nodes, 2, 0, old_row, new_row, lets, second.1);
    assert(merge_values(world, nodes, 3, 0, old_row, new_row, lets, third.1).0 =~= Seq::empty());
    assert(last.0 =~= seq![third.0]);
    let rest = merge_values(world, nodes, 1, 0, old_row, new_row, lets, first.1);
    assert(rest.0 =~= seq![second.0, third.0]);
    assert(merge_values(world, nodes, 0, 0, old_row, new_row, lets, calls).0 =~= seq![
        first.0,
        second.0,
        third.0,
    ]);
}

proof fn lemma_union(
    world: MergeWorld,
    merge: MergeFn,
    old_row: Seq<int>,
    new_row: Seq<int>,
    orientation: OrderedUnionOrientation,
)
    requires
        old_row[0] != new_row[0],
        is_union(world, merge, sym_forms(orientation), trans_forms(orientation)),
    ensures
        union_outcome(world, merge, old_row, new_row, orientation),
{
    let (steps, columns) = block_parts(merge);
    let p0 = MergeProgress { lets: Seq::empty(), writes: Seq::empty(), calls: 0 };
    let p1 = merge_step_meaning(world, steps[0], old_row, new_row, p0);
    let p2 = merge_step_meaning(world, steps[1], old_row, new_row, p1);
    let p3 = merge_step_meaning(world, steps[2], old_row, new_row, p2);
    let p4 = merge_step_meaning(world, steps[3], old_row, new_row, p3);
    let p5 = merge_step_meaning(world, steps[4], old_row, new_row, p4);
    let p6 = merge_step_meaning(world, steps[5], old_row, new_row, p5);
    let p7 = merge_step_meaning(world, steps[6], old_row, new_row, p6);
    assert(merge_steps_meaning(world, steps, 0, old_row, new_row, p0) == p7) by {
        reveal_with_fuel(merge_steps_meaning, 9);
    }
    lemma_computes(
        world,
        step_value(steps[0]),
        Pick::ProofOfLarger,
        0,
        old_row,
        new_row,
        p0.lets,
        p0.calls,
    );
    lemma_computes(
        world,
        step_value(steps[1]),
        Pick::ProofOfSmaller,
        0,
        old_row,
        new_row,
        p1.lets,
        p1.calls,
    );
    lemma_leaves(
        world,
        step_row(steps[3]),
        sym_forms(orientation),
        0,
        0,
        old_row,
        new_row,
        p3.lets,
        p3.calls,
    );
    lemma_leaves(
        world,
        step_row(steps[5]),
        trans_forms(orientation),
        0,
        0,
        old_row,
        new_row,
        p5.lets,
        p5.calls,
    );
    let lets = p7.lets;
    let four_values = four(old_row, new_row);
    assert(lets.len() == 4);
    assert(lets[0] == picked_value(Pick::ProofOfLarger, four_values));
    assert(lets[1] == picked_value(Pick::ProofOfSmaller, four_values));
    assert(p3.lets =~= lets.take(3));
    assert(p5.lets =~= lets);
    let sym = merge_values(
        world,
        step_row(steps[3]),
        0,
        0,
        old_row,
        new_row,
        p3.lets,
        p3.calls,
    ).0;
    let trans = merge_values(
        world,
        step_row(steps[5]),
        0,
        0,
        old_row,
        new_row,
        p5.lets,
        p5.calls,
    ).0;
    assert(sym[0 - 0] == pattern_value(sym_forms(orientation)[0], old_row, new_row, p3.lets));
    assert(sym[1 - 0] == lets[2]);
    assert(trans[0 - 0] == pattern_value(trans_forms(orientation)[0], old_row, new_row, lets));
    assert(trans[1 - 0] == pattern_value(trans_forms(orientation)[1], old_row, new_row, lets));
    assert(trans[2 - 0] == lets[3]);
    lemma_displaced(world, step_row(steps[6]), old_row, new_row, p6.lets, p6.calls);
    assert(p7.writes.len() == 3);
    assert(p7.writes[0].1 == sym);
    assert(p7.writes[1].1 == trans);
    lemma_computes(world, columns[0], Pick::Smaller, 0, old_row, new_row, lets, p7.calls);
    let outcome = merge_meaning(world, merge, old_row, new_row);
    reveal_with_fuel(merge_columns_meaning, 3);
    let kept = merge_value(world, columns[0], 0, old_row, new_row, lets, p7.calls);
    let proof_kept = merge_value(world, columns[1], 1, old_row, new_row, lets, kept.1);
    assert(proof_kept.0 == lets[1]);
    assert(outcome.values =~= seq![kept.0, proof_kept.0]);
}

// ---------------------------------------------------------------------------
// The laws.

/// The merge of a table that admission takes for an ordered union by its names keeps
/// the smaller identity with its proof, and moves the larger one to the smaller one.
pub proof fn law_ordered_unions_keep_the_smaller_identity(
    catalog: Catalog,
    merge: MergeFn,
    expected: Option<FunctionId>,
    orientation: OrderedUnionOrientation,
    world: MergeWorld,
    old_row: Seq<int>,
    new_row: Seq<int>,
)
    requires
        union_check(catalog, merge, expected, orientation).fault is None,
        all_names_are_meant(world, merge),
        old_row[0] != new_row[0],
    ensures
        union_outcome(world, merge, old_row, new_row, orientation),
        expected matches Some(table) ==> merge_target(block_parts(merge).0[6]) == table,
{
    let scope = Scope::StandardRebuild;
    let (steps, columns) = block_parts(merge);
    let nodes = seq![
        step_value(steps[0]),
        step_value(steps[1]),
        step_row(steps[6])[0],
        step_row(steps[6])[1],
        columns[0],
    ];
    assert forall|i: int| 0 <= i < 5 implies (#[trigger] nodes[i]) is Primitive && all_fit(
        nodes[i]->Primitive_args@,
        if i < 2 {
            payload_patterns()
        } else {
            identity_patterns()
        },
    ) by {
        assert(i == 0 || i == 1 || i == 2 || i == 3 || i == 4);
        match nodes[i] {
            MergeFn::Primitive { args, .. } => {
                let patterns = if i < 2 {
                    payload_patterns()
                } else {
                    identity_patterns()
                };
                lemma_fitting(catalog, scope, args@, patterns, patterns.len());
            },
            _ => {},
        }
    }
    assert(nodes[0] == step_value(steps[0]) && nodes[1] == step_value(steps[1]));
    assert(nodes[2] == step_row(steps[6])[0] && nodes[3] == step_row(steps[6])[1]);
    assert(nodes[4] == columns[0]);
    lemma_fitting(catalog, scope, step_row(steps[3]), sym_forms(orientation), 3);
    lemma_fitting(catalog, scope, step_row(steps[5]), trans_forms(orientation), 4);
    lemma_union(world, merge, old_row, new_row, orientation);
}

/// The merge of a table that admission takes for a union-find merge by its
/// authenticated primitives keeps the smaller parent with its proof, and moves the
/// larger one to the smaller one in the same table.
pub proof fn law_union_find_merges_keep_the_smaller_parent(
    catalog: Catalog,
    registries: AuthorityRegistries,
    union_find: FunctionId,
    merge: MergeFn,
    world: MergeWorld,
    old_row: Seq<int>,
    new_row: Seq<int>,
)
    requires
        path_merge_check(catalog, registries, union_find, merge).fault is None,
        tags_are_meant(world, registries),
        old_row[0] != new_row[0],
    ensures
        union_outcome(
            world,
            merge,
            old_row,
            new_row,
            OrderedUnionOrientation::KeyToParent,
        ),
        merge_target(block_parts(merge).0[6]) == union_find,
{
    let scope = Scope::Path;
    let orientation = OrderedUnionOrientation::KeyToParent;
    let (steps, columns) = block_parts(merge);
    let nodes = seq![
        step_value(steps[0]),
        step_value(steps[1]),
        step_row(steps[6])[0],
        step_row(steps[6])[1],
        columns[0],
    ];
    assert forall|i: int| 0 <= i < 5 implies (#[trigger] nodes[i]) is Primitive && all_fit(
        nodes[i]->Primitive_args@,
        if i < 2 {
            payload_patterns()
        } else {
            identity_patterns()
        },
    ) by {
        assert(i == 0 || i == 1 || i == 2 || i == 3 || i == 4);
        match nodes[i] {
            MergeFn::Primitive { args, .. } => {
                let patterns = if i < 2 {
                    payload_patterns()
                } else {
                    identity_patterns()
                };
                lemma_fitting(catalog, scope, args@, patterns, patterns.len());
            },
            _ => {},
        }
    }
    assert(nodes[0] == step_value(steps[0]) && nodes[1] == step_value(steps[1]));
    assert(nodes[2] == step_row(steps[6])[0] && nodes[3] == step_row(steps[6])[1]);
    assert(nodes[4] == columns[0]);
    lemma_fitting(catalog, scope, step_row(steps[3]), sym_forms(orientation), 3);
    lemma_fitting(catalog, scope, step_row(steps[5]), trans_forms(orientation), 4);
    assert(is_union(world, merge, sym_forms(orientation), trans_forms(orientation))) by {
        match nodes[0] {
            MergeFn::Primitive { id, .. } => {
                assert(entry(registries.native_primitives@, id.rep) is Some);
            },
            _ => {},
        }
        match nodes[1] {
            MergeFn::Primitive { id, .. } => {
                assert(entry(registries.native_primitives@, id.rep) is Some);
            },
            _ => {},
        }
        match nodes[2] {
            MergeFn::Primitive { id, .. } => {
                assert(entry(registries.native_primitives@, id.rep) is Some);
            },
            _ => {},
        }
        match nodes[3] {
            MergeFn::Primitive { id, .. } => {
                assert(entry(registries.native_primitives@, id.rep) is Some);
            },
            _ => {},
        }
        match nodes[4] {
            MergeFn::Primitive { id, .. } => {
                assert(entry(registries.native_primitives@, id.rep) is Some);
            },
            _ => {},
        }
    }
    lemma_union(world, merge, old_row, new_row, orientation);
}

/// The two sides of an equation, the other way round.
pub open spec fn flipped(sides: (int, int)) -> (int, int) {
    (sides.1, sides.0)
}

/// An ordered union is proved: where the first recorded row proves an equation the
/// other way round and the second one chains two equations, the kept proof is about
/// the kept identity, and the moved identity carries a proof that it equals the kept
/// one.
///
/// Proofs run from the key to the parent in a union-find table, and from the
/// identity to the term in a View.
pub proof fn law_displaced_identities_are_proved_equal(
    world: MergeWorld,
    merge: MergeFn,
    old_row: Seq<int>,
    new_row: Seq<int>,
    orientation: OrderedUnionOrientation,
    proves: spec_fn(int) -> (int, int),
    subject: int,
)
    requires
        union_outcome(world, merge, old_row, new_row, orientation),
        match orientation {
            OrderedUnionOrientation::KeyToParent => proves(old_row[1]) == (subject, old_row[0])
                && proves(new_row[1]) == (subject, new_row[0]),
            OrderedUnionOrientation::EclassToTerm => proves(old_row[1]) == (old_row[0], subject)
                && proves(new_row[1]) == (new_row[0], subject),
        },
        ({
            let writes = merge_meaning(world, merge, old_row, new_row).writes;
            let sym = writes[0].1;
            let trans = writes[1].1;
            &&& proves(sym[1]) == flipped(proves(sym[0]))
            &&& proves(trans[0]).1 == proves(trans[1]).0 ==> proves(trans[2]) == (
                proves(trans[0]).0,
                proves(trans[1]).1,
            )
        }),
    ensures
        ({
            let outcome = merge_meaning(world, merge, old_row, new_row);
            let moved = outcome.writes[2].1;
            let kept = outcome.values;
            &&& kept[0] <= old_row[0] && kept[0] <= new_row[0]
            &&& moved[0] >= old_row[0] && moved[0] >= new_row[0]
            &&& moved[1] == kept[0]
            &&& proves(moved[2]) == (moved[0], moved[1])
            &&& match orientation {
                OrderedUnionOrientation::KeyToParent => proves(kept[1]) == (subject, kept[0]),
                OrderedUnionOrientation::EclassToTerm => proves(kept[1]) == (kept[0], subject),
            }
        }),
{
}

// ---------------------------------------------------------------------------
// The tables of admitted rules.

/// A table of edges: an id, the id that it is redirected to, which is its identity,
/// and a proof.
pub open spec fn holds_edges(info: TableInfo) -> bool {
    &&& info.schema@ == seq![ColumnTy::Id, ColumnTy::Id, ColumnTy::Id]
    &&& info.n_keys == 1
    &&& info.n_vals == 2
    &&& info.n_identity_vals == Some(1usize)
    &&& info.default == DefaultVal::Fail
    &&& !info.can_subsume
}

/// A table of terms: keys, the id of the term, which is its identity, and a proof.
pub open spec fn holds_terms_of(info: TableInfo) -> bool {
    &&& info.schema@.len() == info.n_keys + 2
    &&& info.schema@[info.n_keys as int] == ColumnTy::Id
    &&& info.schema@[info.n_keys + 1] == ColumnTy::Id
    &&& info.n_vals == 2
    &&& info.n_identity_vals == Some(1usize)
    &&& info.default == DefaultVal::Fail
    &&& info.can_subsume
}

/// The tables of an admitted rebuild rule: the View holds terms, and both union-find
/// tables hold edges. Each of them merges as an ordered union: the View moves the
/// larger id into the output union-find table, and each union-find table moves it
/// into itself.
pub proof fn law_rebuild_tables_are_ordered_unions(
    catalog: Catalog,
    rule: RuleSpec,
    plan: StandardRebuildView,
    world: MergeWorld,
    old_row: Seq<int>,
    new_row: Seq<int>,
)
    requires
        standard_rebuild(catalog, rule) == Ok::<Option<StandardRebuildView>, RejectionView>(
            Some(plan),
        ),
        all_names_are_meant(world, catalog.tables@[plan.view.target.rep as int].merge),
        all_names_are_meant(world, catalog.tables@[plan.union_find.target.rep as int].merge),
        all_names_are_meant(
            world,
            catalog.tables@[plan.displaced_union_find.target.rep as int].merge,
        ),
        old_row[0] != new_row[0],
    ensures
        ({
            let view = catalog.tables@[plan.view.target.rep as int];
            let edges = catalog.tables@[plan.union_find.target.rep as int];
            let displaced = catalog.tables@[plan.displaced_union_find.target.rep as int];
            &&& holds_terms_of(view) && holds_edges(edges) && holds_edges(displaced)
            &&& union_outcome(
                world,
                view.merge,
                old_row,
                new_row,
                OrderedUnionOrientation::EclassToTerm,
            )
            &&& union_outcome(
                world,
                edges.merge,
                old_row,
                new_row,
                OrderedUnionOrientation::KeyToParent,
            )
            &&& union_outcome(
                world,
                displaced.merge,
                old_row,
                new_row,
                OrderedUnionOrientation::KeyToParent,
            )
            &&& merge_meaning(world, view.merge, old_row, new_row).writes[2].0
                == plan.displaced_union_find.target
            &&& merge_meaning(world, edges.merge, old_row, new_row).writes[2].0
                == plan.union_find.target
            &&& merge_meaning(world, displaced.merge, old_row, new_row).writes[2].0
                == plan.displaced_union_find.target
        }),
{
    let roles = lemma_union_roles(catalog, rule, plan);
    let view = catalog.tables@[plan.view.target.rep as int];
    let edges = catalog.tables@[plan.union_find.target.rep as int];
    let displaced = catalog.tables@[roles.displaced.rep as int];
    law_ordered_unions_keep_the_smaller_identity(
        catalog,
        view.merge,
        None,
        OrderedUnionOrientation::EclassToTerm,
        world,
        old_row,
        new_row,
    );
    law_ordered_unions_keep_the_smaller_identity(
        catalog,
        edges.merge,
        Some(plan.union_find.target),
        OrderedUnionOrientation::KeyToParent,
        world,
        old_row,
        new_row,
    );
    law_ordered_unions_keep_the_smaller_identity(
        catalog,
        displaced.merge,
        Some(roles.displaced),
        OrderedUnionOrientation::KeyToParent,
        world,
        old_row,
        new_row,
    );
}

proof fn lemma_union_roles(catalog: Catalog, rule: RuleSpec, plan: StandardRebuildView) -> (roles:
    RebuildRoles)
    requires
        standard_rebuild(catalog, rule) == Ok::<Option<StandardRebuildView>, RejectionView>(
            Some(plan),
        ),
    ensures
        plan.view.target.rep < catalog.tables@.len(),
        plan.union_find.target.rep < catalog.tables@.len(),
        roles.displaced.rep < catalog.tables@.len(),
        plan.displaced_union_find.target == roles.displaced,
        holds_terms_of(catalog.tables@[plan.view.target.rep as int]),
        holds_edges(catalog.tables@[plan.union_find.target.rep as int]),
        holds_edges(catalog.tables@[roles.displaced.rep as int]),
        union_check(
            catalog,
            catalog.tables@[plan.view.target.rep as int].merge,
            None,
            OrderedUnionOrientation::EclassToTerm,
        ).fault is None,
        union_check(
            catalog,
            catalog.tables@[plan.union_find.target.rep as int].merge,
            Some(plan.union_find.target),
            OrderedUnionOrientation::KeyToParent,
        ).fault is None,
        union_check(
            catalog,
            catalog.tables@[roles.displaced.rep as int].merge,
            Some(roles.displaced),
            OrderedUnionOrientation::KeyToParent,
        ).fault is None,
        merge_target(
            block_parts(catalog.tables@[plan.view.target.rep as int].merge).0[6],
        ) == roles.displaced,
{
    reveal(standard_rebuild);
    match rebuild_selection(catalog, rule) {
        Ok(Some(roles)) => roles,
        _ => arbitrary(),
    }
}

/// The union-find table of an admitted marker rule holds edges, and merges as an
/// ordered union that moves the larger id into the same table.
pub proof fn law_marker_tables_are_ordered_unions(
    catalog: Catalog,
    registries: AuthorityRegistries,
    rule: RuleSpec,
    plan: MarkerRekeyView,
    world: MergeWorld,
    old_row: Seq<int>,
    new_row: Seq<int>,
)
    requires
        marker_rekey(catalog, registries, rule) == Ok::<Option<MarkerRekeyView>, RejectionView>(
            Some(plan),
        ),
        tags_are_meant(world, registries),
        old_row[0] != new_row[0],
    ensures
        ({
            let edges = catalog.tables@[plan.union_find.target.rep as int];
            &&& holds_edges(edges)
            &&& union_outcome(
                world,
                edges.merge,
                old_row,
                new_row,
                OrderedUnionOrientation::KeyToParent,
            )
            &&& merge_meaning(world, edges.merge, old_row, new_row).writes[2].0
                == plan.union_find.target
        }),
{
    reveal(marker_rekey);
    let edges = catalog.tables@[plan.union_find.target.rep as int];
    law_union_find_merges_keep_the_smaller_parent(
        catalog,
        registries,
        plan.union_find.target,
        edges.merge,
        world,
        old_row,
        new_row,
    );
}

/// The union-find table of an admitted path rule holds edges, and merges as an
/// ordered union that moves the larger id into the same table and records its proofs
/// in the tables of the plan.
pub proof fn law_path_tables_are_ordered_unions(
    catalog: Catalog,
    registries: AuthorityRegistries,
    rule: RuleSpec,
    world: MergeWorld,
    old_row: Seq<int>,
    new_row: Seq<int>,
)
    requires
        path_check(catalog, registries, rule).fault is None,
        tags_are_meant(world, registries),
        old_row[0] != new_row[0],
    ensures
        ({
            let plan = path_plan(catalog, rule);
            let edges = catalog.tables@[plan.union_find.rep as int];
            let writes = merge_meaning(world, edges.merge, old_row, new_row).writes;
            &&& holds_edges(edges)
            &&& union_outcome(
                world,
                edges.merge,
                old_row,
                new_row,
                OrderedUnionOrientation::KeyToParent,
            )
            &&& writes[0].0 == plan.sym
            &&& writes[1].0 == plan.trans
            &&& writes[2].0 == plan.union_find
        }),
{
    reveal(path_check);
    let plan = path_plan(catalog, rule);
    let edges = catalog.tables@[plan.union_find.rep as int];
    law_union_find_merges_keep_the_smaller_parent(
        catalog,
        registries,
        plan.union_find,
        edges.merge,
        world,
        old_row,
        new_row,
    );
}

} // verus!
