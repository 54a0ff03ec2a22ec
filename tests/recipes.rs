use bevy_atlas_loader::{
    grid_layout, patch_layout, AtlasDefinition, AtlasRequest, CreatedAtlas,
    FolderAtlasDefinition, GenericAtlasDefinitions, GridAtlasDefinition, HostReply,
    MultiTextureProcessState, PatchAtlasDefinition, Region, SingleTextureProcessState,
};

fn region(x: usize, y: usize, w: usize, h: usize) -> Region {
    Region { min_x: x, min_y: y, max_x: x + w, max_y: y + h }
}

#[test]
fn grid_of_three_by_three() {
    let l = grid_layout(3, 3, (19, 19), None).unwrap();
    assert_eq!(l.regions.len(), 9);
    assert_eq!(l.regions[0], region(0, 0, 19, 19));
    assert_eq!(l.regions[1], region(19, 0, 19, 19));
    assert_eq!(l.regions[3], region(0, 19, 19, 19));
    assert_eq!(l.regions[8], region(38, 38, 19, 19));
    assert_eq!(l.size, (57, 57));
}

#[test]
fn grid_with_padding() {
    let l = grid_layout(2, 2, (10, 10), Some((1, 2))).unwrap();
    assert_eq!(l.regions.len(), 4);
    assert_eq!(l.regions[1], region(11, 0, 10, 10));
    assert_eq!(l.regions[2], region(0, 12, 10, 10));
    assert_eq!(l.regions[3], region(11, 12, 10, 10));
    assert_eq!(l.size, (21, 22));
}

#[test]
fn empty_grid() {
    let l = grid_layout(0, 4, (10, 10), None).unwrap();
    assert!(l.regions.is_empty());
    assert_eq!(l.size, (0, 40));
}

#[test]
fn grid_past_usize_is_refused() {
    assert!(grid_layout(3, 1, (usize::MAX / 2, 1), None).is_none());
    assert!(grid_layout(1, 1, (usize::MAX, usize::MAX), None).is_some());
    assert!(grid_layout(2, 1, (1, 1), Some((usize::MAX, 0))).is_none());
}

#[test]
fn patchwork_keeps_order() {
    let l = patch_layout(19, 19, &vec![(65, 86), (86, 86), (107, 86)]).unwrap();
    assert_eq!(l.regions.len(), 3);
    assert_eq!(l.regions[0], Region { min_x: 65, min_y: 86, max_x: 84, max_y: 105 });
    assert_eq!(l.regions[1], region(86, 86, 19, 19));
    assert_eq!(l.regions[2], region(107, 86, 19, 19));
    assert_eq!(l.size, (19, 19));
}

#[test]
fn patch_past_usize_is_refused() {
    assert!(patch_layout(2, 2, &vec![(0, 0), (usize::MAX - 1, 0)]).is_none());
    assert!(patch_layout(2, 2, &vec![(0, 0), (usize::MAX - 2, 0)]).is_some());
}

#[test]
fn grid_recipe_goes_through_its_states() {
    let mut d = AtlasDefinition::from(GridAtlasDefinition {
        texture: String::from("Pac-Man.png"),
        columns: 3,
        rows: 3,
        tile_size: (19, 19),
        ..Default::default()
    });
    match d.request() {
        AtlasRequest::LoadTexture(p) => assert_eq!(p, "Pac-Man.png"),
        r => panic!("unexpected {:?}", r),
    }
    // a reply of another kind changes nothing
    assert!(!d.advance(&HostReply::AtlasAdded(3)));
    assert!(!d.advance(&HostReply::TextureLoading(5)));
    match &d {
        AtlasDefinition::Grid(g) => assert_eq!(g.state, SingleTextureProcessState::LoadingTexture(5)),
        _ => panic!("not a grid"),
    }
    match d.request() {
        AtlasRequest::CreateAtlas(h, l) => {
            assert_eq!(h, 5);
            assert_eq!(l.regions.len(), 9);
        }
        r => panic!("unexpected {:?}", r),
    }
    assert!(!d.advance(&HostReply::NotYet));
    assert!(d.advance(&HostReply::AtlasAdded(8)));
    assert_eq!(d.texture_atlas(), Some(CreatedAtlas { handle: 8, len: 9 }));
    assert!(matches!(d.request(), AtlasRequest::Wait));
    assert!(d.advance(&HostReply::AtlasAdded(9)));
    assert_eq!(d.texture_atlas(), Some(CreatedAtlas { handle: 8, len: 9 }));
}

#[test]
fn patch_recipe_counts_its_positions() {
    let mut d = AtlasDefinition::from(PatchAtlasDefinition {
        texture: String::from("Pac-Man.png"),
        width: 19,
        height: 19,
        positions: vec![(65, 86), (86, 86)],
        ..Default::default()
    });
    d.advance(&HostReply::TextureLoading(1));
    match d.request() {
        AtlasRequest::CreateAtlas(h, l) => {
            assert_eq!(h, 1);
            assert_eq!(l.regions[1], region(86, 86, 19, 19));
        }
        r => panic!("unexpected {:?}", r),
    }
    assert!(d.advance(&HostReply::AtlasAdded(2)));
    assert_eq!(d.texture_atlas(), Some(CreatedAtlas { handle: 2, len: 2 }));
}

#[test]
fn oversized_patch_never_builds() {
    let mut d = AtlasDefinition::from(PatchAtlasDefinition {
        texture: String::from("a.png"),
        width: 2,
        height: 2,
        positions: vec![(usize::MAX, 0)],
        ..Default::default()
    });
    d.advance(&HostReply::TextureLoading(1));
    assert!(matches!(d.request(), AtlasRequest::Wait));
    assert!(!d.advance(&HostReply::AtlasAdded(2)));
    assert_eq!(d.texture_atlas(), None);
}

#[test]
fn folder_recipe_counts_its_images() {
    let mut d = AtlasDefinition::from(FolderAtlasDefinition {
        path: String::from("texture-folder"),
        ..Default::default()
    });
    match d.request() {
        AtlasRequest::LoadFolder(p) => assert_eq!(p, "texture-folder"),
        r => panic!("unexpected {:?}", r),
    }
    assert!(!d.advance(&HostReply::TextureLoading(1)));
    assert!(!d.advance(&HostReply::FolderLoading(vec![4, 5, 6, 7])));
    match &d {
        AtlasDefinition::Folder(f) => match &f.state {
            MultiTextureProcessState::LoadingTextures(hs) => assert_eq!(hs, &vec![4, 5, 6, 7]),
            s => panic!("unexpected {:?}", s),
        },
        _ => panic!("not a folder"),
    }
    match d.request() {
        AtlasRequest::PackFolder(hs) => assert_eq!(hs, vec![4, 5, 6, 7]),
        r => panic!("unexpected {:?}", r),
    }
    assert!(d.advance(&HostReply::AtlasAdded(9)));
    assert_eq!(d.texture_atlas(), Some(CreatedAtlas { handle: 9, len: 4 }));
}

#[test]
fn insert_replaces_a_recipe_of_the_same_name() {
    let mut defs = GenericAtlasDefinitions::new();
    assert_eq!(defs.len(), 0);
    defs.insert(String::from("a"), AtlasDefinition::from(FolderAtlasDefinition::default()));
    defs.insert(String::from("b"), AtlasDefinition::from(FolderAtlasDefinition::default()));
    defs.insert(String::from("a"), AtlasDefinition::from(GridAtlasDefinition::default()));
    assert_eq!(defs.len(), 2);
    assert!(defs.contains_key(&String::from("a")));
    assert!(!defs.contains_key(&String::from("c")));
    assert!(matches!(defs.get(&String::from("a")), Some(AtlasDefinition::Grid(_))));
    assert!(defs.get(&String::from("c")).is_none());
}

#[test]
fn processing_advances_every_recipe() {
    let mut defs = GenericAtlasDefinitions::new();
    defs.insert(String::from("a"), AtlasDefinition::from(FolderAtlasDefinition::default()));
    defs.insert(String::from("b"), AtlasDefinition::from(PatchAtlasDefinition::default()));
    assert!(!defs.process(&vec![HostReply::FolderLoading(vec![1]), HostReply::TextureLoading(2)]));
    let requests = defs.requests();
    assert!(matches!(&requests[0], AtlasRequest::PackFolder(v) if v == &vec![1]));
    assert!(matches!(&requests[1], AtlasRequest::CreateAtlas(2, _)));
    // a recipe without a reply waits
    assert!(!defs.process(&vec![HostReply::AtlasAdded(3)]));
    assert!(defs.process(&vec![HostReply::NotYet, HostReply::AtlasAdded(4)]));
    assert_eq!(
        defs.get(&String::from("b")).unwrap().texture_atlas(),
        Some(CreatedAtlas { handle: 4, len: 0 })
    );
}

#[test]
fn renew_keeps_state_of_unchanged_recipes() {
    let mut defs = GenericAtlasDefinitions::new();
    defs.insert(String::from("same"), AtlasDefinition::from(FolderAtlasDefinition {
        path: String::from("f"),
        ..Default::default()
    }));
    defs.insert(String::from("changed"), AtlasDefinition::from(FolderAtlasDefinition {
        path: String::from("g"),
        ..Default::default()
    }));
    defs.process(&vec![HostReply::FolderLoading(vec![1, 2]), HostReply::FolderLoading(vec![3])]);
    let mut next = GenericAtlasDefinitions::new();
    next.insert(String::from("changed"), AtlasDefinition::from(FolderAtlasDefinition {
        path: String::from("h"),
        ..Default::default()
    }));
    next.insert(String::from("same"), AtlasDefinition::from(FolderAtlasDefinition {
        path: String::from("f"),
        ..Default::default()
    }));
    next.insert(String::from("new"), AtlasDefinition::from(FolderAtlasDefinition::default()));
    defs.renew(next);
    assert_eq!(defs.len(), 3);
    match defs.get(&String::from("same")).unwrap() {
        AtlasDefinition::Folder(f) => {
            assert!(matches!(&f.state, MultiTextureProcessState::LoadingTextures(v) if v == &vec![1, 2]))
        }
        _ => panic!("not a folder"),
    }
    match defs.get(&String::from("changed")).unwrap() {
        AtlasDefinition::Folder(f) => {
            assert!(matches!(f.state, MultiTextureProcessState::NotStarted));
            assert_eq!(f.path, "h");
        }
        _ => panic!("not a folder"),
    }
    assert!(matches!(defs.get(&String::from("new")), Some(AtlasDefinition::Folder(_))));
}

#[test]
fn same_recipe_ignores_state() {
    let mut a = AtlasDefinition::from(GridAtlasDefinition {
        texture: String::from("x"),
        columns: 1,
        rows: 1,
        tile_size: (1, 1),
        ..Default::default()
    });
    let b = AtlasDefinition::from(GridAtlasDefinition {
        texture: String::from("x"),
        columns: 1,
        rows: 1,
        tile_size: (1, 1),
        ..Default::default()
    });
    a.advance(&HostReply::TextureLoading(3));
    assert!(a.same_recipe(&b));
    let c = AtlasDefinition::from(GridAtlasDefinition {
        texture: String::from("x"),
        columns: 1,
        rows: 1,
        tile_size: (1, 1),
        padding: Some((0, 0)),
        ..Default::default()
    });
    assert!(!a.same_recipe(&c));
    assert!(!a.same_recipe(&AtlasDefinition::from(FolderAtlasDefinition::default())));
}
