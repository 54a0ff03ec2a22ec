//! The per-consumer pipeline: validates the recipes against the required names, drives their
//! builds, publishes the result table and reports creation or failure, then watches the
//! recipe source for changes.
use vstd::prelude::*;

use crate::definitions::{
    all_ready, has_key, index_of, keys_distinct, merge_generation, process_all, replies_view,
    BuildState, CreatedAtlas, GenericAtlasDefinitions, HostReply, RecipeView, Reply,
};

verus! {

/// Outcome of building the atlases of one generation.
#[derive(Clone, Copy, Debug, PartialEq, Eq, Structural)]
pub enum ResourceStatus {
    Created,
    Failed,
}

impl ResourceStatus {
    pub fn is_created(&self) -> (r: bool)
        ensures
            r == (*self == ResourceStatus::Created),
    {
        match self {
            ResourceStatus::Created => true,
            ResourceStatus::Failed => false,
        }
    }

    pub fn is_failed(&self) -> (r: bool)
        ensures
            r == (*self == ResourceStatus::Failed),
    {
        match self {
            ResourceStatus::Created => false,
            ResourceStatus::Failed => true,
        }
    }
}

/// Notification that the atlases were (re)created, or that creating them failed.
#[derive(Clone, Copy, Debug, PartialEq, Eq, Structural)]
pub struct AtlasTexturesEvent {
    pub status: ResourceStatus,
}

impl AtlasTexturesEvent {
    pub fn status(&self) -> (r: ResourceStatus)
        ensures
            r == self.status,
    {
        self.status
    }

    pub fn state(&self) -> (r: ResourceStatus)
        ensures
            r == self.status,
    {
        self.status
    }
}

/// Where the pipeline of one consumer stands.
#[derive(Clone, Copy, Debug, PartialEq, Eq, Structural)]
pub enum DefinitionProcessState {
    Loading,
    Processing,
    Finalizing,
    Done,
    Failed,
}

impl DefinitionProcessState {
    pub fn is_done(&self) -> (r: bool)
        ensures
            r == (*self == DefinitionProcessState::Done),
    {
        match self {
            DefinitionProcessState::Done => true,
            _ => false,
        }
    }

    pub fn is_failed(&self) -> (r: bool)
        ensures
            r == (*self == DefinitionProcessState::Failed),
    {
        match self {
            DefinitionProcessState::Failed => true,
            _ => false,
        }
    }
}

/// Where the recipes come from: handed over directly, or an asset the host loads.
#[derive(Clone, Copy, Debug, PartialEq, Eq, Structural)]
pub enum DefinitionsType {
    Direct,
    Indirect(u64),
}

/// A lifecycle event of a recipe asset, by handle.
#[derive(Clone, Copy, Debug, PartialEq, Eq, Structural)]
pub enum AssetChange {
    Created(u64),
    Modified(u64),
    Removed(u64),
}

/// The views of a list of names.
pub open spec fn names(v: Seq<String>) -> Seq<Seq<char>> {
    v.map_values(|s: String| s@)
}

/// The published atlases, by name.
#[derive(Debug)]
pub struct AtlasTextures {
    entries: Vec<(String, CreatedAtlas)>,
}

impl View for AtlasTextures {
    type V = Seq<(Seq<char>, CreatedAtlas)>;

    closed spec fn view(&self) -> Seq<(Seq<char>, CreatedAtlas)> {
        self.entries@.map_values(|e: (String, CreatedAtlas)| (e.0@, e.1))
    }
}

impl AtlasTextures {
    /// Number of names in the table.
    pub fn count(&self) -> (r: usize)
        ensures
            r == self@.len(),
    {
        self.entries.len()
    }

    /// Whether the table has an atlas named `key`.
    pub fn contains_key(&self, key: &String) -> (r: bool)
        ensures
            r == has_key(self@, key@),
    {
        self.find(key).is_some()
    }

    fn find(&self, key: &String) -> (r: Option<usize>)
        ensures
            r matches Some(i) ==> i < self@.len() && self@[i as int].0 == key@,
            r is None ==> !has_key(self@, key@),
    {
        let mut i: usize = 0;
        while i < self.entries.len()
            invariant
                i <= self@.len(),
                self@.len() == self.entries@.len(),
                forall|j: int| 0 <= j < i ==> #[trigger] self@[j].0 != key@,
            decreases self@.len() - i,
        {
            if self.entries[i].0 == *key {
                return Some(i);
            }
            i = i + 1;
        }
        None
    }

    /// The atlas named `key`.
    pub fn get(&self, key: &String) -> (r: Option<CreatedAtlas>)
        requires
            keys_distinct(self@),
        ensures
            r.is_some() == has_key(self@, key@),
            r matches Some(c) ==> c == self@[index_of(self@, key@)].1,
    {
        match self.find(key) {
            Some(i) => Some(self.entries[i].1),
            None => None,
        }
    }

    /// The handle of the atlas named `key`.
    pub fn handle(&self, key: &String) -> (r: u64)
        requires
            keys_distinct(self@),
            has_key(self@, key@),
        ensures
            r == self@[index_of(self@, key@)].1.handle,
    {
        match self.get(key) {
            Some(c) => c.handle,
            None => 0,
        }
    }

    /// The number of regions of the atlas named `key`.
    pub fn len(&self, key: &String) -> (r: usize)
        requires
            keys_distinct(self@),
            has_key(self@, key@),
        ensures
            r == self@[index_of(self@, key@)].1.len,
    {
        match self.get(key) {
            Some(c) => c.len,
            None => 0,
        }
    }
}


/// Model of one consumer's pipeline.
pub struct PipelineView {
    pub definitions: Seq<(Seq<char>, RecipeView)>,
    pub source: DefinitionsType,
    pub state: DefinitionProcessState,
    pub required: Seq<Seq<char>>,
    pub table: Seq<(Seq<char>, CreatedAtlas)>,
}

/// What the host hands the pipeline on one tick.
#[derive(Debug)]
pub struct TickInput {
    /// The recipes of the source asset, once the host has loaded them.
    pub source: Option<GenericAtlasDefinitions>,
    /// The answers to this tick's requests, in the order of the requests.
    pub replies: Vec<HostReply>,
    /// Lifecycle events of recipe assets since the last tick.
    pub changes: Vec<AssetChange>,
}

/// Model of a [`TickInput`].
pub struct TickInputView {
    pub source: Option<Seq<(Seq<char>, RecipeView)>>,
    pub replies: Seq<Reply>,
    pub changes: Seq<AssetChange>,
}

impl View for TickInput {
    type V = TickInputView;

    open spec fn view(&self) -> TickInputView {
        TickInputView {
            source: match self.source {
                Some(d) => Some(d@),
                None => None,
            },
            replies: replies_view(self.replies@),
            changes: self.changes@,
        }
    }
}

impl TickInput {
    pub open spec fn wf(&self) -> bool {
        self.source matches Some(d) ==> d.wf()
    }
}

/// What the pipeline reports to the host after one tick.
#[derive(Debug)]
pub struct TickOutcome {
    /// The notification to deliver, if any.
    pub event: Option<AtlasTexturesEvent>,
    /// The required names that no recipe has, when validation failed.
    pub missing: Vec<String>,
    /// The host removed the recipe source, which it must never do.
    pub source_removed: bool,
}

/// Model of a [`TickOutcome`].
pub struct OutcomeView {
    pub event: Option<ResourceStatus>,
    pub missing: Seq<Seq<char>>,
    pub source_removed: bool,
}

impl View for TickOutcome {
    type V = OutcomeView;

    open spec fn view(&self) -> OutcomeView {
        OutcomeView {
            event: match self.event {
                Some(e) => Some(e.status),
                None => None,
            },
            missing: names(self.missing@),
            source_removed: self.source_removed,
        }
    }
}

/// A tick with nothing to report.
pub open spec fn quiet() -> OutcomeView {
    OutcomeView { event: None, missing: Seq::empty(), source_removed: false }
}

/// The required names that no recipe has, in the order they are required.
pub open spec fn missing_keys(
    required: Seq<Seq<char>>,
    defs: Seq<(Seq<char>, RecipeView)>,
) -> Seq<Seq<char>> {
    required.filter(|k: Seq<char>| !has_key(defs, k))
}

/// The atlas of a build state that has one.
pub open spec fn atlas_of(s: BuildState) -> CreatedAtlas {
    match s {
        BuildState::Ready(c) => c,
        _ => CreatedAtlas { handle: 0, len: 0 },
    }
}

/// The result table: each required name with the atlas of its recipe.
pub open spec fn assemble(
    required: Seq<Seq<char>>,
    defs: Seq<(Seq<char>, RecipeView)>,
) -> Seq<(Seq<char>, CreatedAtlas)> {
    required.map_values(|k: Seq<char>| (k, atlas_of(defs[index_of(defs, k)].1.state)))
}

/// The host reports the source asset created anew or modified.
pub open spec fn source_changed(source: DefinitionsType, changes: Seq<AssetChange>) -> bool {
    source matches DefinitionsType::Indirect(h) && exists|i: int|
        0 <= i < changes.len() && (#[trigger] changes[i] == AssetChange::Created(h) || changes[i]
            == AssetChange::Modified(h))
}

/// The host reports the source asset removed.
pub open spec fn source_removed(source: DefinitionsType, changes: Seq<AssetChange>) -> bool {
    source matches DefinitionsType::Indirect(h) && exists|i: int|
        0 <= i < changes.len() && #[trigger] changes[i] == AssetChange::Removed(h)
}

/// The recipes of the generation being validated: the direct ones, or the source asset's
/// merged into the current ones once the host has loaded it.
pub open spec fn loaded_generation(p: PipelineView, i: TickInputView) -> Option<
    Seq<(Seq<char>, RecipeView)>,
> {
    match p.source {
        DefinitionsType::Direct => Some(p.definitions),
        DefinitionsType::Indirect(_) => match i.source {
            Some(n) => Some(merge_generation(p.definitions, n)),
            None => None,
        },
    }
}

/// One tick of the pipeline.
pub open spec fn tick(p: PipelineView, i: TickInputView) -> (PipelineView, OutcomeView) {
    match p.state {
        DefinitionProcessState::Loading => match loaded_generation(p, i) {
            None => (p, quiet()),
            Some(d) => {
                let m = missing_keys(p.required, d);
                if m.len() == 0 {
                    (
                        PipelineView {
                            definitions: d,
                            state: DefinitionProcessState::Processing,
                            ..p
                        },
                        quiet(),
                    )
                } else {
                    (
                        PipelineView { definitions: d, state: DefinitionProcessState::Failed, ..p },
                        OutcomeView {
                            event: Some(ResourceStatus::Failed),
                            missing: m,
                            source_removed: false,
                        },
                    )
                }
            },
        },
        DefinitionProcessState::Processing => {
            let d = process_all(p.definitions, i.replies);
            if all_ready(d) {
                (
                    PipelineView {
                        definitions: d,
                        state: DefinitionProcessState::Finalizing,
                        table: assemble(p.required, d),
                        ..p
                    },
                    quiet(),
                )
            } else {
                (PipelineView { definitions: d, ..p }, quiet())
            }
        },
        DefinitionProcessState::Finalizing => (
            PipelineView { state: DefinitionProcessState::Done, ..p },
            OutcomeView {
                event: Some(ResourceStatus::Created),
                missing: Seq::empty(),
                source_removed: false,
            },
        ),
        DefinitionProcessState::Done | DefinitionProcessState::Failed => (
            PipelineView {
                state: if source_changed(p.source, i.changes) {
                    DefinitionProcessState::Loading
                } else {
                    p.state
                },
                ..p
            },
            OutcomeView {
                event: None,
                missing: Seq::empty(),
                source_removed: source_removed(p.source, i.changes),
            },
        ),
    }
}

/// Every required name has a recipe.
pub open spec fn covers(required: Seq<Seq<char>>, defs: Seq<(Seq<char>, RecipeView)>) -> bool {
    forall|k: int| 0 <= k < required.len() ==> has_key(defs, #[trigger] required[k])
}

/// The invariant of a pipeline: names are unique; past validation every required name has a
/// recipe; from assembly on, every recipe has its atlas and the table lists them.
pub open spec fn pipeline_wf(p: PipelineView) -> bool {
    &&& keys_distinct(p.definitions)
    &&& p.required.no_duplicates()
    &&& (p.state == DefinitionProcessState::Processing || p.state
        == DefinitionProcessState::Finalizing || p.state == DefinitionProcessState::Done)
        ==> covers(p.required, p.definitions)
    &&& (p.state == DefinitionProcessState::Finalizing || p.state == DefinitionProcessState::Done)
        ==> all_ready(p.definitions) && p.table == assemble(p.required, p.definitions)
}

/// The pipeline of one consumer, whose required names are the entries it must find among
/// the recipes.
#[derive(Debug)]
pub struct TypedAtlasDefinition {
    definitions: GenericAtlasDefinitions,
    source: DefinitionsType,
    state: DefinitionProcessState,
    required: Vec<String>,
    table: AtlasTextures,
}

impl View for TypedAtlasDefinition {
    type V = PipelineView;

    closed spec fn view(&self) -> PipelineView {
        PipelineView {
            definitions: self.definitions@,
            source: self.source,
            state: self.state,
            required: names(self.required@),
            table: self.table@,
        }
    }
}

impl TypedAtlasDefinition {
    pub open spec fn wf(&self) -> bool {
        pipeline_wf(self@)
    }

    /// A pipeline over recipes handed over directly.
    pub fn from_definitions(required: Vec<String>, definitions: GenericAtlasDefinitions) -> (r:
        Self)
        requires
            definitions.wf(),
            names(required@).no_duplicates(),
        ensures
            r.wf(),
            r@ == (PipelineView {
                definitions: definitions@,
                source: DefinitionsType::Direct,
                state: DefinitionProcessState::Loading,
                required: names(required@),
                table: Seq::empty(),
            }),
    {
        let table = AtlasTextures { entries: Vec::new() };
        proof {
            assert(table@ =~= Seq::empty());
        }
        TypedAtlasDefinition {
            definitions,
            source: DefinitionsType::Direct,
            state: DefinitionProcessState::Loading,
            required,
            table,
        }
    }

    /// A pipeline over the recipes of the asset `handle`, which the host loads.
    pub fn from_handle(required: Vec<String>, handle: u64) -> (r: Self)
        requires
            names(required@).no_duplicates(),
        ensures
            r.wf(),
            r@ == (PipelineView {
                definitions: Seq::empty(),
                source: DefinitionsType::Indirect(handle),
                state: DefinitionProcessState::Loading,
                required: names(required@),
                table: Seq::empty(),
            }),
    {
        let table = AtlasTextures { entries: Vec::new() };
        proof {
            assert(table@ =~= Seq::empty());
        }
        TypedAtlasDefinition {
            definitions: GenericAtlasDefinitions::new(),
            source: DefinitionsType::Indirect(handle),
            state: DefinitionProcessState::Loading,
            required,
            table,
        }
    }

    pub fn state(&self) -> (r: DefinitionProcessState)
        ensures
            r == self@.state,
    {
        self.state
    }

    pub fn source(&self) -> (r: DefinitionsType)
        ensures
            r == self@.source,
    {
        self.source
    }

    pub fn definitions(&self) -> (r: &GenericAtlasDefinitions)
        ensures
            r@ == self@.definitions,
    {
        &self.definitions
    }

    /// The asset whose recipes the pipeline waits for, while it waits for them.
    pub fn awaited_source(&self) -> (r: Option<u64>)
        ensures
            r == (if self@.state == DefinitionProcessState::Loading {
                match self@.source {
                    DefinitionsType::Indirect(h) => Some(h),
                    DefinitionsType::Direct => None,
                }
            } else {
                None
            }),
    {
        match (self.state, self.source) {
            (DefinitionProcessState::Loading, DefinitionsType::Indirect(h)) => Some(h),
            _ => None,
        }
    }

    /// What the recipes need from the host on this tick; nothing outside processing.
    pub fn requests(&self) -> (r: Vec<crate::definitions::AtlasRequest>)
        ensures
            self@.state == DefinitionProcessState::Processing ==> r@.len() == self@.definitions.len()
                && forall|i: int|
                0 <= i < self@.definitions.len() ==> crate::definitions::is_request_for(
                    self@.definitions[i].1,
                    #[trigger] r@[i],
                ),
            self@.state != DefinitionProcessState::Processing ==> r@.len() == 0,
    {
        match self.state {
            DefinitionProcessState::Processing => self.definitions.requests(),
            _ => Vec::new(),
        }
    }

    /// The result table; published only once the atlases are created and announced.
    pub fn atlas_textures(&self) -> (r: Option<&AtlasTextures>)
        requires
            self.wf(),
        ensures
            r.is_some() == (self@.state == DefinitionProcessState::Done),
            r matches Some(t) ==> t@ == self@.table && keys_distinct(t@),
    {
        match self.state {
            DefinitionProcessState::Done => {
                proof {
                    lemma_assemble_distinct(self@.required, self@.definitions);
                }
                Some(&self.table)
            },
            _ => None,
        }
    }
}

/// The result table has one entry per required name.
pub proof fn lemma_assemble_distinct(required: Seq<Seq<char>>, defs: Seq<(Seq<char>, RecipeView)>)
    requires
        required.no_duplicates(),
    ensures
        keys_distinct(assemble(required, defs)),
        assemble(required, defs).len() == required.len(),
        forall|k: int|
            0 <= k < required.len() ==> #[trigger] assemble(required, defs)[k].0 == required[k],
{
    let t = assemble(required, defs);
    assert forall|a: int, b: int|
        #![trigger t[a], t[b]]
        0 <= a < t.len() && 0 <= b < t.len() && a != b implies t[a].0 != t[b].0 by {
        assert(t[a].0 == required[a]);
        assert(t[b].0 == required[b]);
    }
}


/// No name is missing exactly when every required name has a recipe.
pub proof fn lemma_missing_empty(required: Seq<Seq<char>>, defs: Seq<(Seq<char>, RecipeView)>)
    ensures
        (missing_keys(required, defs).len() == 0) == covers(required, defs),
{
    let pred = |k: Seq<char>| !has_key(defs, k);
    let m = required.filter(pred);
    if m.len() == 0 {
        assert forall|k: int| 0 <= k < required.len() implies has_key(
            defs,
            #[trigger] required[k],
        ) by {
            if !has_key(defs, required[k]) {
                required.lemma_filter_contains(pred, k);
            }
        }
    } else {
        let e = m[0];
        assert(m.contains(e));
        required.lemma_filter_pred(pred, 0);
        required.lemma_filter_contains_rev(pred, e);
        let k = choose|k: int| 0 <= k < required.len() && required[k] == e;
        assert(!has_key(defs, required[k]));
    }
}

fn missing_required(required: &Vec<String>, defs: &GenericAtlasDefinitions) -> (r: Vec<String>)
    ensures
        names(r@) == missing_keys(names(required@), defs@),
{
    let ghost req = names(required@);
    let ghost pred = |k: Seq<char>| !has_key(defs@, k);
    let mut r: Vec<String> = Vec::new();
    let mut i: usize = 0;
    proof {
        reveal(Seq::filter);
        assert(req.take(0) =~= Seq::<Seq<char>>::empty());
        assert(names(r@) =~= Seq::<Seq<char>>::empty());
    }
    while i < required.len()
        invariant
            i <= required@.len(),
            req == names(required@),
            pred == (|k: Seq<char>| !has_key(defs@, k)),
            names(r@) == req.take(i as int).filter(pred),
        decreases required@.len() - i,
    {
        let ghost before = r@;
        let present = defs.contains_key(&required[i]);
        if !present {
            r.push(required[i].clone());
        }
        proof {
            reveal(Seq::filter);
            let t = req.take(i as int + 1);
            assert(t.drop_last() =~= req.take(i as int));
            assert(t.last() == required@[i as int]@);
            if !present {
                assert(names(r@) =~= names(before).push(required@[i as int]@));
            }
        }
        i = i + 1;
    }
    proof {
        assert(req.take(required@.len() as int) =~= req);
    }
    r
}

fn assemble_table(required: &Vec<String>, defs: &GenericAtlasDefinitions) -> (r: AtlasTextures)
    requires
        defs.wf(),
        covers(names(required@), defs@),
    ensures
        r@ == assemble(names(required@), defs@),
{
    let ghost req = names(required@);
    let mut entries: Vec<(String, CreatedAtlas)> = Vec::new();
    let mut i: usize = 0;
    while i < required.len()
        invariant
            i <= required@.len(),
            req == names(required@),
            defs.wf(),
            covers(req, defs@),
            entries@.len() == i,
            forall|j: int|
                0 <= j < i ==> #[trigger] entries@[j].0@ == req[j] && entries@[j].1 == atlas_of(
                    defs@[index_of(defs@, req[j])].1.state,
                ),
        decreases required@.len() - i,
    {
        proof {
            assert(has_key(defs@, req[i as int]));
        }
        let atlas = match defs.get(&required[i]) {
            Some(d) => match d.texture_atlas() {
                Some(c) => c,
                None => CreatedAtlas { handle: 0, len: 0 },
            },
            None => CreatedAtlas { handle: 0, len: 0 },
        };
        entries.push((required[i].clone(), atlas));
        i = i + 1;
    }
    let r = AtlasTextures { entries };
    proof {
        assert(r@ =~= assemble(req, defs@));
    }
    r
}

fn scan_changes(source: DefinitionsType, changes: &Vec<AssetChange>) -> (r: (bool, bool))
    ensures
        r.0 == source_changed(source, changes@),
        r.1 == source_removed(source, changes@),
{
    match source {
        DefinitionsType::Direct => (false, false),
        DefinitionsType::Indirect(h) => {
            let mut changed = false;
            let mut removed = false;
            let mut i: usize = 0;
            while i < changes.len()
                invariant
                    i <= changes@.len(),
                    changed ==> exists|j: int|
                        0 <= j < i && (#[trigger] changes@[j] == AssetChange::Created(h)
                            || changes@[j] == AssetChange::Modified(h)),
                    !changed ==> forall|j: int|
                        0 <= j < i ==> !(#[trigger] changes@[j] == AssetChange::Created(h)
                            || changes@[j] == AssetChange::Modified(h)),
                    removed ==> exists|j: int|
                        0 <= j < i && #[trigger] changes@[j] == AssetChange::Removed(h),
                    !removed ==> forall|j: int|
                        0 <= j < i ==> !(#[trigger] changes@[j] == AssetChange::Removed(h)),
                decreases changes@.len() - i,
            {
                let c = changes[i];
                if c == AssetChange::Created(h) || c == AssetChange::Modified(h) {
                    changed = true;
                }
                if c == AssetChange::Removed(h) {
                    removed = true;
                }
                i = i + 1;
            }
            (changed, removed)
        },
    }
}

/// A tick that reports nothing.
fn quiet_outcome() -> (r: TickOutcome)
    ensures
        r@ == quiet(),
{
    let r = TickOutcome { event: None, missing: Vec::new(), source_removed: false };
    proof {
        assert(r@.missing =~= Seq::<Seq<char>>::empty());
    }
    r
}

/// Runs one tick of a consumer's pipeline on what the host handed over.
pub fn process_atlas_definitions(definition: &mut TypedAtlasDefinition, input: TickInput) -> (out:
    TickOutcome)
    requires
        old(definition).wf(),
        input.wf(),
    ensures
        final(definition).wf(),
        (final(definition)@, out@) == tick(old(definition)@, input@),
{
    let ghost p = definition@;
    let ghost iv = input@;
    let TickInput { source, replies, changes } = input;
    match definition.state {
        DefinitionProcessState::Loading => {
            match definition.source {
                DefinitionsType::Direct => {},
                DefinitionsType::Indirect(_) => match source {
                    Some(next) => {
                        definition.definitions.renew(next);
                    },
                    None => {
                        return quiet_outcome();
                    },
                },
            }
            let missing = missing_required(&definition.required, &definition.definitions);
            proof {
                lemma_missing_empty(p.required, definition@.definitions);
            }
            if missing.len() == 0 {
                definition.state = DefinitionProcessState::Processing;
                quiet_outcome()
            } else {
                definition.state = DefinitionProcessState::Failed;
                TickOutcome {
                    event: Some(AtlasTexturesEvent { status: ResourceStatus::Failed }),
                    missing,
                    source_removed: false,
                }
            }
        },
        DefinitionProcessState::Processing => {
            let ready = definition.definitions.process(&replies);
            proof {
                let d = definition@.definitions;
                assert forall|k: int| 0 <= k < p.required.len() implies has_key(
                    d,
                    #[trigger] p.required[k],
                ) by {
                    let j = choose|j: int|
                        0 <= j < p.definitions.len() && #[trigger] p.definitions[j].0
                            == p.required[k];
                    assert(d[j].0 == p.required[k]);
                }
            }
            if ready {
                definition.table = assemble_table(&definition.required, &definition.definitions);
                definition.state = DefinitionProcessState::Finalizing;
            }
            quiet_outcome()
        },
        DefinitionProcessState::Finalizing => {
            definition.state = DefinitionProcessState::Done;
            let r = TickOutcome {
                event: Some(AtlasTexturesEvent { status: ResourceStatus::Created }),
                missing: Vec::new(),
                source_removed: false,
            };
            proof {
                assert(r@.missing =~= Seq::<Seq<char>>::empty());
            }
            r
        },
        DefinitionProcessState::Done | DefinitionProcessState::Failed => {
            let (changed, removed) = scan_changes(definition.source, &changes);
            if changed {
                definition.state = DefinitionProcessState::Loading;
            }
            let r = TickOutcome { event: None, missing: Vec::new(), source_removed: removed };
            proof {
                assert(r@.missing =~= Seq::<Seq<char>>::empty());
            }
            r
        },
    }
}

/// Whether the pipeline, if there is one, has failed.
pub fn atlas_textures_failed(definition: Option<&TypedAtlasDefinition>) -> (r: bool)
    ensures
        r == (definition matches Some(d) && d@.state == DefinitionProcessState::Failed),
{
    match definition {
        Some(d) => d.state().is_failed(),
        None => false,
    }
}

/// Whether the pipeline, if there is one, has created and announced its atlases.
pub fn atlas_textures_created(definition: Option<&TypedAtlasDefinition>) -> (r: bool)
    ensures
        r == (definition matches Some(d) && d@.state == DefinitionProcessState::Done),
{
    match definition {
        Some(d) => d.state().is_done(),
        None => false,
    }
}

} // verus!
