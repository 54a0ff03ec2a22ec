use bevy_atlas_loader::{
    atlas_textures_created, atlas_textures_failed, process_atlas_definitions, AssetChange,
    AtlasDefinition, AtlasRequest, DefinitionProcessState, FolderAtlasDefinition,
    GenericAtlasDefinitions, GridAtlasDefinition, HostReply, PatchAtlasDefinition,
    ResourceStatus, TickInput, TypedAtlasDefinition,
};

/// A host that loads every image at once and creates every atlas it is asked for.
struct Host {
    next: u64,
    loads: usize,
    builds: usize,
}

impl Host {
    fn new() -> Self {
        Host { next: 1, loads: 0, builds: 0 }
    }

    fn fresh(&mut self) -> u64 {
        self.next += 1;
        self.next
    }

    fn serve(&mut self, requests: Vec<AtlasRequest>) -> Vec<HostReply> {
        requests
            .into_iter()
            .map(|r| match r {
                AtlasRequest::LoadTexture(_) => {
                    self.loads += 1;
                    HostReply::TextureLoading(self.fresh())
                }
                AtlasRequest::LoadFolder(_) => {
                    self.loads += 1;
                    HostReply::FolderLoading(vec![self.fresh(), self.fresh(), self.fresh()])
                }
                AtlasRequest::CreateAtlas(_, _) | AtlasRequest::PackFolder(_) => {
                    self.builds += 1;
                    HostReply::AtlasAdded(self.fresh())
                }
                AtlasRequest::Wait => HostReply::NotYet,
            })
            .collect()
    }
}

fn pacman_grid() -> AtlasDefinition {
    AtlasDefinition::from(GridAtlasDefinition {
        texture: String::from("Pac-Man.png"),
        columns: 3,
        rows: 3,
        tile_size: (19, 19),
        padding: None,
        ..Default::default()
    })
}

fn names(list: &[&str]) -> Vec<String> {
    list.iter().map(|s| s.to_string()).collect()
}

fn one_tick(
    pipeline: &mut TypedAtlasDefinition,
    host: &mut Host,
    source: Option<GenericAtlasDefinitions>,
    changes: Vec<AssetChange>,
) -> Vec<ResourceStatus> {
    let replies = host.serve(pipeline.requests());
    let out = process_atlas_definitions(pipeline, TickInput { source, replies, changes });
    out.event.iter().map(|e| e.status()).collect()
}

fn spin(pipeline: &mut TypedAtlasDefinition, host: &mut Host, ticks: usize) -> Vec<ResourceStatus> {
    let mut events = Vec::new();
    for _ in 0..ticks {
        events.extend(one_tick(pipeline, host, None, vec![]));
    }
    events
}

#[test]
fn manual_definition_definition_can_be_specified_manually() {
    let mut defs = GenericAtlasDefinitions::new();
    defs.insert(String::from("Pacman"), pacman_grid());
    let mut pipeline = TypedAtlasDefinition::from_definitions(names(&["Pacman"]), defs);
    let mut host = Host::new();
    spin(&mut pipeline, &mut host, 100);
    let table = pipeline.atlas_textures().unwrap();
    let _texture_atlas_handle = table.handle(&String::from("Pacman"));
    assert_eq!(table.len(&String::from("Pacman")), 9);
}

#[test]
fn integration_test_definition_can_be_specified_manually() {
    let mut defs = GenericAtlasDefinitions::new();
    defs.insert(String::from("Pacman"), pacman_grid());
    let mut pipeline = TypedAtlasDefinition::from_definitions(names(&["Pacman"]), defs);
    let mut host = Host::new();
    let events = spin(&mut pipeline, &mut host, 100);
    assert_eq!(events, vec![ResourceStatus::Created]);
    let table = pipeline.atlas_textures().unwrap();
    assert!(table.contains_key(&String::from("Pacman")));
}

#[test]
fn undefined_entries_causes_failure() {
    let defs = GenericAtlasDefinitions::new();
    let mut pipeline = TypedAtlasDefinition::from_definitions(names(&["Pacman"]), defs);
    let mut host = Host::new();
    let events = spin(&mut pipeline, &mut host, 100);
    // event signalling the failure
    assert!(events.iter().any(|e| e.is_failed()));
    // no table is available
    assert!(pipeline.atlas_textures().is_none());
}

#[test]
fn empty_source_fails_once_within_bounded_ticks() {
    let defs = GenericAtlasDefinitions::new();
    let mut pipeline = TypedAtlasDefinition::from_definitions(names(&["Pacman"]), defs);
    let mut host = Host::new();
    let events = spin(&mut pipeline, &mut host, 100);
    assert_eq!(events, vec![ResourceStatus::Failed]);
    assert_eq!(pipeline.state(), DefinitionProcessState::Failed);
    assert!(pipeline.atlas_textures().is_none());
    assert!(atlas_textures_failed(Some(&pipeline)));
    assert!(!atlas_textures_created(Some(&pipeline)));
}

#[test]
fn every_missing_name_is_reported() {
    let mut defs = GenericAtlasDefinitions::new();
    defs.insert(String::from("Ghost"), pacman_grid());
    let mut pipeline =
        TypedAtlasDefinition::from_definitions(names(&["Pacman", "Ghost", "Fruit"]), defs);
    let out = process_atlas_definitions(
        &mut pipeline,
        TickInput { source: None, replies: vec![], changes: vec![] },
    );
    assert_eq!(out.missing, names(&["Pacman", "Fruit"]));
    assert_eq!(out.event.map(|e| e.state()), Some(ResourceStatus::Failed));
    assert!(!out.source_removed);
}

#[test]
fn integration_test_definition_can_be_loaded_as_asset() {
    let mut pipeline = TypedAtlasDefinition::from_handle(names(&["Pacman"]), 77);
    let mut host = Host::new();
    // the asset is not loaded yet: nothing happens
    let mut events = spin(&mut pipeline, &mut host, 5);
    assert_eq!(pipeline.state(), DefinitionProcessState::Loading);
    assert_eq!(pipeline.awaited_source(), Some(77));
    let mut defs = GenericAtlasDefinitions::new();
    defs.insert(String::from("Pacman"), pacman_grid());
    events.extend(one_tick(&mut pipeline, &mut host, Some(defs), vec![]));
    events.extend(spin(&mut pipeline, &mut host, 100));
    assert!(events.iter().any(|e| e.is_created()));
    assert!(pipeline.atlas_textures().is_some());
}

#[test]
fn definition_as_asset_definition_can_be_loaded_as_asset() {
    let mut pipeline = TypedAtlasDefinition::from_handle(names(&["Pacman"]), 3);
    let mut host = Host::new();
    let mut defs = GenericAtlasDefinitions::new();
    defs.insert(String::from("Pacman"), pacman_grid());
    let mut events = one_tick(&mut pipeline, &mut host, Some(defs), vec![]);
    events.extend(spin(&mut pipeline, &mut host, 100));
    // event signalling everything OK
    assert!(events.iter().any(|e| e.is_created()));
    // the table is now available
    assert!(pipeline.atlas_textures().is_some());
}

#[test]
fn integration_test_plugin_alone_wont_cause_panic() {
    for _ in 0..100 {
        assert!(!atlas_textures_created(None));
        assert!(!atlas_textures_failed(None));
    }
}

#[test]
fn random_plugin_alone_wont_cause_panic() {
    for _ in 0..100 {
        assert!(!atlas_textures_failed(None));
    }
}

#[test]
fn all_kinds_of_recipes_complete() {
    let mut defs = GenericAtlasDefinitions::new();
    defs.insert(String::from("Grid"), pacman_grid());
    defs.insert(
        String::from("Patch"),
        AtlasDefinition::from(PatchAtlasDefinition {
            texture: String::from("Pac-Man.png"),
            width: 19,
            height: 19,
            positions: vec![(65, 86), (86, 86), (107, 86)],
            ..Default::default()
        }),
    );
    defs.insert(
        String::from("Folder"),
        AtlasDefinition::from(FolderAtlasDefinition {
            path: String::from("texture-folder"),
            ..Default::default()
        }),
    );
    defs.insert(String::from("Unused"), pacman_grid());
    let mut pipeline =
        TypedAtlasDefinition::from_definitions(names(&["Grid", "Patch", "Folder"]), defs);
    let mut host = Host::new();
    // validation, loading, creation
    assert!(spin(&mut pipeline, &mut host, 3).is_empty());
    assert_eq!(pipeline.state(), DefinitionProcessState::Finalizing);
    assert!(pipeline.atlas_textures().is_none());
    assert_eq!(spin(&mut pipeline, &mut host, 1), vec![ResourceStatus::Created]);
    let table = pipeline.atlas_textures().unwrap();
    assert_eq!(table.count(), 3);
    assert_eq!(table.len(&String::from("Grid")), 9);
    assert_eq!(table.len(&String::from("Patch")), 3);
    assert_eq!(table.len(&String::from("Folder")), 3);
    assert!(!table.contains_key(&String::from("Unused")));
    assert_eq!(host.loads, 4);
    assert_eq!(host.builds, 4);
}

#[test]
fn done_stays_done_without_rebuilding() {
    let mut defs = GenericAtlasDefinitions::new();
    defs.insert(String::from("Pacman"), pacman_grid());
    let mut pipeline = TypedAtlasDefinition::from_definitions(names(&["Pacman"]), defs);
    let mut host = Host::new();
    assert_eq!(spin(&mut pipeline, &mut host, 4), vec![ResourceStatus::Created]);
    let handle = pipeline.atlas_textures().unwrap().handle(&String::from("Pacman"));
    let (loads, builds) = (host.loads, host.builds);
    assert!(spin(&mut pipeline, &mut host, 50).is_empty());
    assert_eq!((host.loads, host.builds), (loads, builds));
    assert_eq!(pipeline.atlas_textures().unwrap().handle(&String::from("Pacman")), handle);
    // a direct source ignores asset changes
    assert!(one_tick(&mut pipeline, &mut host, None, vec![AssetChange::Modified(0)]).is_empty());
    assert_eq!(pipeline.state(), DefinitionProcessState::Done);
}

#[test]
fn modified_source_rebuilds_only_changed_recipes() {
    let mut pipeline = TypedAtlasDefinition::from_handle(names(&["Pacman"]), 9);
    let mut host = Host::new();
    let mut first = GenericAtlasDefinitions::new();
    first.insert(String::from("Pacman"), pacman_grid());
    first.insert(String::from("Other"), pacman_grid());
    let mut events = one_tick(&mut pipeline, &mut host, Some(first), vec![]);
    events.extend(spin(&mut pipeline, &mut host, 3));
    assert_eq!(events, vec![ResourceStatus::Created]);
    let handle = pipeline.atlas_textures().unwrap().handle(&String::from("Pacman"));
    assert_eq!((host.loads, host.builds), (2, 2));

    // another asset changing does nothing
    assert!(one_tick(&mut pipeline, &mut host, None, vec![AssetChange::Modified(4)]).is_empty());
    assert_eq!(pipeline.state(), DefinitionProcessState::Done);

    // our asset changing invalidates the table
    assert!(one_tick(&mut pipeline, &mut host, None, vec![AssetChange::Modified(9)]).is_empty());
    assert_eq!(pipeline.state(), DefinitionProcessState::Loading);
    assert!(pipeline.atlas_textures().is_none());

    let mut second = GenericAtlasDefinitions::new();
    second.insert(String::from("Pacman"), pacman_grid());
    second.insert(
        String::from("Other"),
        AtlasDefinition::from(GridAtlasDefinition {
            texture: String::from("Pac-Man.png"),
            columns: 2,
            rows: 1,
            tile_size: (19, 19),
            padding: Some((1, 1)),
            ..Default::default()
        }),
    );
    let mut events = one_tick(&mut pipeline, &mut host, Some(second), vec![]);
    events.extend(spin(&mut pipeline, &mut host, 10));
    assert_eq!(events, vec![ResourceStatus::Created]);
    // only the changed recipe was loaded and built again
    assert_eq!((host.loads, host.builds), (3, 3));
    let table = pipeline.atlas_textures().unwrap();
    assert_eq!(table.handle(&String::from("Pacman")), handle);
}

#[test]
fn removed_source_is_reported() {
    let mut pipeline = TypedAtlasDefinition::from_handle(names(&[]), 5);
    let mut host = Host::new();
    let mut events = one_tick(&mut pipeline, &mut host, Some(GenericAtlasDefinitions::new()), vec![]);
    events.extend(spin(&mut pipeline, &mut host, 2));
    assert_eq!(events, vec![ResourceStatus::Created]);
    let replies = host.serve(pipeline.requests());
    let out = process_atlas_definitions(
        &mut pipeline,
        TickInput { source: None, replies, changes: vec![AssetChange::Removed(5)] },
    );
    assert!(out.source_removed);
    assert!(out.event.is_none());
    assert_eq!(pipeline.state(), DefinitionProcessState::Done);
}

#[test]
fn failed_pipeline_retries_after_modification() {
    let mut pipeline = TypedAtlasDefinition::from_handle(names(&["Pacman"]), 6);
    let mut host = Host::new();
    let events = one_tick(&mut pipeline, &mut host, Some(GenericAtlasDefinitions::new()), vec![]);
    assert_eq!(events, vec![ResourceStatus::Failed]);
    assert!(one_tick(&mut pipeline, &mut host, None, vec![AssetChange::Created(6)]).is_empty());
    assert_eq!(pipeline.state(), DefinitionProcessState::Loading);
    let mut defs = GenericAtlasDefinitions::new();
    defs.insert(String::from("Pacman"), pacman_grid());
    let mut events = one_tick(&mut pipeline, &mut host, Some(defs), vec![]);
    events.extend(spin(&mut pipeline, &mut host, 10));
    assert_eq!(events, vec![ResourceStatus::Created]);
}
