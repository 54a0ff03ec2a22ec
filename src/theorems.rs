//! Guarantees of the pipeline over whole runs of ticks, proved on its model.
use vstd::prelude::*;

use crate::definitions::{
    advance, all_ready, buildable, has_key, index_of, keys_distinct, merge_generation,
    process_all, region_count, reply_at, BuildState, Recipe, RecipeView, Reply,
};
use crate::layout::{grid_fits, padding_of, patches_fit};
use crate::systems::{
    covers, lemma_missing_empty, loaded_generation, missing_keys, pipeline_wf, source_changed,
    tick, DefinitionProcessState, DefinitionsType, PipelineView, ResourceStatus, TickInputView,
};

verus! {

/// The pipeline after running the ticks of `inputs` in order.
pub open spec fn run(p: PipelineView, inputs: Seq<TickInputView>) -> PipelineView
    decreases inputs.len(),
{
    if inputs.len() == 0 {
        p
    } else {
        run(tick(p, inputs[0]).0, inputs.drop_first())
    }
}

/// The notifications emitted while running the ticks of `inputs`, in order.
pub open spec fn run_events(p: PipelineView, inputs: Seq<TickInputView>) -> Seq<ResourceStatus>
    decreases inputs.len(),
{
    if inputs.len() == 0 {
        Seq::empty()
    } else {
        let step = tick(p, inputs[0]);
        let rest = run_events(step.0, inputs.drop_first());
        match step.1.event {
            Some(e) => seq![e] + rest,
            None => rest,
        }
    }
}

/// No tick of `inputs` reports the recipe source created anew or modified.
pub open spec fn source_unchanged(source: DefinitionsType, inputs: Seq<TickInputView>) -> bool {
    forall|j: int| 0 <= j < inputs.len() ==> !source_changed(source, #[trigger] inputs[j].changes)
}

/// A recipe that can be built and yields at least one region.
pub open spec fn resolvable(r: Recipe) -> bool {
    match r {
        Recipe::Grid { columns, rows, tile_size, padding, .. } => columns >= 1 && rows >= 1
            && grid_fits(columns, rows, tile_size, padding_of(padding)),
        Recipe::Patch { width, height, positions, .. } => 1 <= positions.len() <= usize::MAX
            && patches_fit(width, height, positions),
        Recipe::Folder { .. } => true,
    }
}

/// The host carried out what a recipe in state `v` asked: it started loading, finding at
/// least one image in a folder, or it created the atlas.
pub open spec fn answers(v: RecipeView, reply: Reply) -> bool {
    match v.state {
        BuildState::NotStarted => if v.recipe is Folder {
            reply matches Reply::FolderLoading(hs) && 1 <= hs.len() <= usize::MAX
        } else {
            reply is TextureLoading
        },
        BuildState::Loading(_) => reply is AtlasAdded,
        BuildState::Ready(_) => true,
    }
}

/// The host carried out every recipe's request.
pub open spec fn host_answers(defs: Seq<(Seq<char>, RecipeView)>, replies: Seq<Reply>) -> bool {
    forall|i: int| 0 <= i < defs.len() ==> answers(#[trigger] defs[i].1, reply_at(replies, i))
}

proof fn lemma_settled(p: PipelineView, inputs: Seq<TickInputView>)
    requires
        p.state == DefinitionProcessState::Done || p.state == DefinitionProcessState::Failed,
        source_unchanged(p.source, inputs),
    ensures
        run(p, inputs) == p,
        run_events(p, inputs) == Seq::<ResourceStatus>::empty(),
    decreases inputs.len(),
{
    if inputs.len() > 0 {
        assert(!source_changed(p.source, inputs[0].changes));
        let q = tick(p, inputs[0]).0;
        assert(q == p);
        let rest = inputs.drop_first();
        assert forall|j: int| 0 <= j < rest.len() implies !source_changed(
            p.source,
            #[trigger] rest[j].changes,
        ) by {
            assert(rest[j] == inputs[j + 1]);
        }
        lemma_settled(q, rest);
    }
}

/// Once the atlases are created and announced, ticks that bring no change of the recipe
/// source change nothing: no recipe is built again and no notification is sent again.
pub proof fn done_is_stable(p: PipelineView, inputs: Seq<TickInputView>)
    requires
        pipeline_wf(p),
        p.state == DefinitionProcessState::Done,
        source_unchanged(p.source, inputs),
    ensures
        run(p, inputs) == p,
        run_events(p, inputs).len() == 0,
{
    lemma_settled(p, inputs);
}

/// When a required name has no recipe, the pipeline fails on the tick that validates the
/// recipes, emits exactly one failure notification, and stays failed, never publishing a
/// table, for as long as the recipe source does not change.
pub proof fn missing_name_fails(p: PipelineView, inputs: Seq<TickInputView>)
    requires
        pipeline_wf(p),
        p.state == DefinitionProcessState::Loading,
        inputs.len() >= 1,
        loaded_generation(p, inputs[0]) matches Some(d) && !covers(p.required, d),
        source_unchanged(p.source, inputs),
    ensures
        run(p, inputs).state == DefinitionProcessState::Failed,
        run_events(p, inputs) == seq![ResourceStatus::Failed],
        tick(p, inputs[0]).1.missing == missing_keys(p.required, loaded_generation(p, inputs[0])->0),
        tick(p, inputs[0]).1.missing.len() >= 1,
{
    let d = loaded_generation(p, inputs[0])->0;
    lemma_missing_empty(p.required, d);
    let q = tick(p, inputs[0]).0;
    assert(q.state == DefinitionProcessState::Failed);
    assert(q.source == p.source);
    let rest = inputs.drop_first();
    assert forall|j: int| 0 <= j < rest.len() implies !source_changed(
        q.source,
        #[trigger] rest[j].changes,
    ) by {
        assert(rest[j] == inputs[j + 1]);
    }
    lemma_settled(q, rest);
    assert(run_events(p, inputs) =~= seq![ResourceStatus::Failed] + Seq::<ResourceStatus>::empty());
}

proof fn lemma_count_positive(r: Recipe, hs: Seq<u64>)
    requires
        resolvable(r),
        r is Folder ==> 1 <= hs.len() <= usize::MAX,
    ensures
        buildable(r),
        (region_count(r, hs) as usize) >= 1,
{
    match r {
        Recipe::Grid { columns, rows, .. } => {
            assert(columns * rows >= 1) by (nonlinear_arith)
                requires
                    columns >= 1,
                    rows >= 1,
            ;
        },
        _ => {},
    }
}


/// A recipe after the two ticks in which the host starts its loading and creates its atlas.
proof fn lemma_two_steps(v: RecipeView, r2: Reply, r3: Reply)
    requires
        v.state is NotStarted,
        resolvable(v.recipe),
        answers(v, r2),
        answers(advance(v, r2), r3),
    ensures
        advance(v, r2).state is Loading,
        advance(v, r2).recipe == v.recipe,
        advance(advance(v, r2), r3).recipe == v.recipe,
        advance(advance(v, r2), r3).state matches BuildState::Ready(c) && c.len >= 1,
{
    let w = advance(v, r2);
    let hs = w.state->Loading_0;
    lemma_count_positive(v.recipe, hs);
}

/// A pipeline over recipes handed over directly, whose required names all have a recipe and
/// whose recipes can all be built, is done after four ticks in which the host carries out
/// what the recipes ask. It announces creation exactly once and failure never, and its table
/// lists each required name, in order, with the atlas created for that name's recipe, which
/// has at least one region.
pub proof fn direct_source_completes(
    p: PipelineView,
    i1: TickInputView,
    i2: TickInputView,
    i3: TickInputView,
    i4: TickInputView,
)
    requires
        pipeline_wf(p),
        p.state == DefinitionProcessState::Loading,
        p.source == DefinitionsType::Direct,
        covers(p.required, p.definitions),
        forall|j: int|
            0 <= j < p.definitions.len() ==> (#[trigger] p.definitions[j]).1.state is NotStarted
                && resolvable(p.definitions[j].1.recipe),
        host_answers(p.definitions, i2.replies),
        host_answers(tick(tick(p, i1).0, i2).0.definitions, i3.replies),
    ensures
        ({
            let t1 = tick(p, i1);
            let t2 = tick(t1.0, i2);
            let t3 = tick(t2.0, i3);
            let t4 = tick(t3.0, i4);
            &&& t4.0.state == DefinitionProcessState::Done
            &&& t1.1.event is None
            &&& t2.1.event is None
            &&& (t3.1.event == Some(ResourceStatus::Created)) != (t4.1.event == Some(
                ResourceStatus::Created,
            ))
            &&& t3.1.event != Some(ResourceStatus::Failed)
            &&& t4.1.event != Some(ResourceStatus::Failed)
            &&& t4.0.table.len() == p.required.len()
            &&& forall|k: int|
                0 <= k < p.required.len() ==> {
                    &&& (#[trigger] t4.0.table[k]).0 == p.required[k]
                    &&& has_key(t4.0.definitions, p.required[k])
                    &&& t4.0.definitions[index_of(t4.0.definitions, p.required[k])].1.state
                        == BuildState::Ready(t4.0.table[k].1)
                    &&& t4.0.table[k].1.len >= 1
                }
        }),
{
    let d = p.definitions;
    lemma_missing_empty(p.required, d);
    let t1 = tick(p, i1);
    assert(t1.0.state == DefinitionProcessState::Processing);
    assert(t1.0.definitions == d);
    let t2 = tick(t1.0, i2);
    let d2 = process_all(d, i2.replies);
    assert(t2.0.definitions == d2);
    if d.len() == 0 {
        if p.required.len() > 0 {
            assert(has_key(d, p.required[0]));
        }
        assert(all_ready(d2));
        let t3 = tick(t2.0, i3);
        let t4 = tick(t3.0, i4);
        assert(t4.0.state == DefinitionProcessState::Done);
    } else {
        assert(answers(d[0].1, reply_at(i2.replies, 0)));
        assert(!(d2[0].1.state is Ready));
        assert(t2.0.state == DefinitionProcessState::Processing);
        let t3 = tick(t2.0, i3);
        let d3 = process_all(d2, i3.replies);
        assert forall|j: int| 0 <= j < d.len() implies {
            &&& d3[j].0 == d[j].0
            &&& #[trigger] d3[j].1.state matches BuildState::Ready(c) && c.len >= 1
        } by {
            assert(answers(d[j].1, reply_at(i2.replies, j)));
            assert(answers(d2[j].1, reply_at(i3.replies, j)));
            lemma_two_steps(d[j].1, reply_at(i2.replies, j), reply_at(i3.replies, j));
        }
        assert(all_ready(d3));
        assert(t3.0.state == DefinitionProcessState::Finalizing);
        assert(t3.0.definitions == d3);
        let t4 = tick(t3.0, i4);
        assert forall|k: int| 0 <= k < p.required.len() implies {
            &&& (#[trigger] t4.0.table[k]).0 == p.required[k]
            &&& has_key(t4.0.definitions, p.required[k])
            &&& t4.0.definitions[index_of(t4.0.definitions, p.required[k])].1.state
                == BuildState::Ready(t4.0.table[k].1)
            &&& t4.0.table[k].1.len >= 1
        } by {
            let key = p.required[k];
            assert(has_key(d, key));
            let w = choose|w: int| 0 <= w < d.len() && #[trigger] d[w].0 == key;
            assert(d3[w].0 == key);
            assert(has_key(d3, key));
            let c = index_of(d3, key);
            assert(d3[c].0 == d[c].0);
        }
    }
}

/// When the host reports the recipe source asset modified (or created anew) after the atlases
/// were created or failed, the pipeline goes back to loading without touching any recipe;
/// once the host hands over the new recipes, each one whose name and parameters are
/// unchanged keeps the build state it had, and every other one starts over.
pub proof fn invalidation_keeps_unchanged_recipes(
    p: PipelineView,
    i1: TickInputView,
    i2: TickInputView,
)
    requires
        pipeline_wf(p),
        p.state == DefinitionProcessState::Done || p.state == DefinitionProcessState::Failed,
        source_changed(p.source, i1.changes),
        i2.source is Some,
    ensures
        ({
            let t1 = tick(p, i1);
            let n = i2.source->0;
            let t2 = tick(t1.0, i2);
            &&& t1.0.state == DefinitionProcessState::Loading
            &&& t1.0.definitions == p.definitions
            &&& t1.1.event is None
            &&& t2.0.definitions.len() == n.len()
            &&& forall|j: int|
                0 <= j < n.len() ==> {
                    &&& (#[trigger] t2.0.definitions[j]).0 == n[j].0
                    &&& t2.0.definitions[j].1.recipe == n[j].1.recipe
                    &&& t2.0.definitions[j].1.state == if has_key(p.definitions, n[j].0)
                        && p.definitions[index_of(p.definitions, n[j].0)].1.recipe
                        == n[j].1.recipe {
                        p.definitions[index_of(p.definitions, n[j].0)].1.state
                    } else {
                        BuildState::NotStarted
                    }
                }
        }),
{
    let t1 = tick(p, i1);
    assert(t1.0.state == DefinitionProcessState::Loading);
    assert(t1.0.source == p.source);
}

/// When the new recipes handed over after a modification of the source asset all have the
/// name and parameters of a current recipe, and cover the required names, the pipeline
/// republishes the same table and announces creation once more, four ticks after the
/// modification was reported, without building anything.
pub proof fn invalidation_republishes(
    p: PipelineView,
    i1: TickInputView,
    i2: TickInputView,
    i3: TickInputView,
    i4: TickInputView,
)
    requires
        pipeline_wf(p),
        p.state == DefinitionProcessState::Done,
        source_changed(p.source, i1.changes),
        i2.source matches Some(n) && keys_distinct(n) && covers(p.required, n) && forall|j: int|
            0 <= j < n.len() ==> has_key(p.definitions, (#[trigger] n[j]).0)
                && p.definitions[index_of(p.definitions, n[j].0)].1.recipe == n[j].1.recipe,
    ensures
        ({
            let t1 = tick(p, i1);
            let t2 = tick(t1.0, i2);
            let t3 = tick(t2.0, i3);
            let t4 = tick(t3.0, i4);
            &&& t4.0.state == DefinitionProcessState::Done
            &&& t4.1.event == Some(ResourceStatus::Created)
            &&& t1.1.event is None
            &&& t2.1.event is None
            &&& t3.1.event is None
            &&& t4.0.table == p.table
        }),
{
    let n = i2.source->0;
    let old = p.definitions;
    let t1 = tick(p, i1);
    assert(t1.0.state == DefinitionProcessState::Loading);
    assert(t1.0.definitions == old);
    let m = merge_generation(old, n);
    assert(loaded_generation(t1.0, i2) == Some(m));
    assert forall|j: int| 0 <= j < m.len() implies #[trigger] m[j].1.state is Ready
        && m[j].1.state == old[index_of(old, m[j].0)].1.state by {
        assert(has_key(old, n[j].0));
        let c = index_of(old, n[j].0);
        assert(old[c].1.state is Ready);
    }
    assert forall|k: int| 0 <= k < p.required.len() implies has_key(m, #[trigger] p.required[k]) by {
        assert(has_key(n, p.required[k]));
        let w = choose|w: int| 0 <= w < n.len() && #[trigger] n[w].0 == p.required[k];
        assert(m[w].0 == p.required[k]);
    }
    lemma_missing_empty(p.required, m);
    let t2 = tick(t1.0, i2);
    assert(t2.0.state == DefinitionProcessState::Processing);
    assert(t2.0.definitions == m);
    let t3 = tick(t2.0, i3);
    let d3 = process_all(m, i3.replies);
    assert(d3 =~= m);
    assert(all_ready(m));
    assert(t3.0.state == DefinitionProcessState::Finalizing);
    let t4 = tick(t3.0, i4);
    assert(t4.0.table =~= p.table) by {
        assert forall|k: int| 0 <= k < p.required.len() implies #[trigger] t4.0.table[k]
            == p.table[k] by {
            let key = p.required[k];
            let c = index_of(m, key);
            assert(has_key(m, key));
            assert(m[c].0 == key);
        }
    }
}


/// How far a build has come: not started, loading, or ready.
pub open spec fn progress(s: BuildState) -> int {
    match s {
        BuildState::NotStarted => 0,
        BuildState::Loading(_) => 1,
        BuildState::Ready(_) => 2,
    }
}

/// A build only moves forward, one stage at most per step, and never changes its recipe;
/// a ready recipe stays exactly as it is whatever the host replies, so pipelines that share
/// a recipe and both advance it agree on it.
pub proof fn builds_only_move_forward(v: RecipeView, reply: Reply)
    ensures
        advance(v, reply).recipe == v.recipe,
        progress(v.state) <= progress(advance(v, reply).state) <= progress(v.state) + 1,
        v.state is Ready ==> advance(v, reply) == v,
{
}

} // verus!
