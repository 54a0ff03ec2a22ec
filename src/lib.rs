//! Builds texture atlases from declarative recipes through a tick-driven pipeline: each tick
//! the host answers what the pipeline asked of it, and the pipeline decides what comes next.
pub mod definitions;
pub mod layout;
pub mod systems;
pub mod theorems;

pub use definitions::{
    AtlasDefinition, AtlasRequest, CreatedAtlas, FolderAtlasDefinition, GenericAtlasDefinitions,
    GridAtlasDefinition, HostReply, MultiTextureProcessState, PatchAtlasDefinition,
    SingleTextureProcessState,
};
pub use systems::{
    atlas_textures_created, atlas_textures_failed, process_atlas_definitions, AssetChange,
    AtlasTextures, AtlasTexturesEvent, DefinitionProcessState, DefinitionsType, ResourceStatus,
    TickInput, TickOutcome, TypedAtlasDefinition,
};
pub use layout::{grid_layout, patch_layout, AtlasLayout, Region};
