//! Atlas recipes, their build states, and the collection of named recipes.
use vstd::prelude::*;

use crate::layout::{
    grid_fits, grid_layout, is_grid_layout, is_patch_layout, padding_of, patch_layout,
    patches_fit, AtlasLayout,
};

verus! {

/// An atlas that the host has created: its handle and its number of regions.
#[derive(Clone, Copy, Debug, PartialEq, Eq, Structural)]
pub struct CreatedAtlas {
    pub handle: u64,
    pub len: usize,
}

/// Build state of a recipe cut from one source image.
#[derive(Clone, Copy, Debug, PartialEq, Eq, Structural)]
pub enum SingleTextureProcessState {
    NotStarted,
    LoadingTexture(u64),
    AtlasCreated(CreatedAtlas),
}

/// Build state of a recipe packed from the images of a folder.
#[derive(Debug)]
pub enum MultiTextureProcessState {
    NotStarted,
    LoadingTextures(Vec<u64>),
    AtlasCreated(CreatedAtlas),
}

/// Model of a build state: the handles of the images being loaded, or the created atlas.
pub enum BuildState {
    NotStarted,
    Loading(Seq<u64>),
    Ready(CreatedAtlas),
}

impl View for SingleTextureProcessState {
    type V = BuildState;

    open spec fn view(&self) -> BuildState {
        match *self {
            SingleTextureProcessState::NotStarted => BuildState::NotStarted,
            SingleTextureProcessState::LoadingTexture(h) => BuildState::Loading(seq![h]),
            SingleTextureProcessState::AtlasCreated(c) => BuildState::Ready(c),
        }
    }
}

impl View for MultiTextureProcessState {
    type V = BuildState;

    open spec fn view(&self) -> BuildState {
        match self {
            MultiTextureProcessState::NotStarted => BuildState::NotStarted,
            MultiTextureProcessState::LoadingTextures(hs) => BuildState::Loading(hs@),
            MultiTextureProcessState::AtlasCreated(c) => BuildState::Ready(*c),
        }
    }
}

impl Default for SingleTextureProcessState {
    fn default() -> (r: Self)
        ensures
            r == SingleTextureProcessState::NotStarted,
    {
        SingleTextureProcessState::NotStarted
    }
}

impl Default for MultiTextureProcessState {
    fn default() -> (r: Self)
        ensures
            r@ == BuildState::NotStarted,
    {
        MultiTextureProcessState::NotStarted
    }
}

impl SingleTextureProcessState {
    /// The created atlas, once there is one.
    pub fn texture_atlas(&self) -> (r: Option<CreatedAtlas>)
        ensures
            r == ready_atlas(self@),
    {
        match self {
            SingleTextureProcessState::AtlasCreated(c) => Some(*c),
            _ => None,
        }
    }
}

impl MultiTextureProcessState {
    /// The created atlas, once there is one.
    pub fn texture_atlas(&self) -> (r: Option<CreatedAtlas>)
        ensures
            r == ready_atlas(self@),
    {
        match self {
            MultiTextureProcessState::AtlasCreated(c) => Some(*c),
            _ => None,
        }
    }
}

/// The created atlas of a build state, if it has one.
pub open spec fn ready_atlas(s: BuildState) -> Option<CreatedAtlas> {
    match s {
        BuildState::Ready(c) => Some(c),
        _ => None,
    }
}

/// A grid of equal cells cut from one image.
#[derive(Debug)]
pub struct GridAtlasDefinition {
    pub texture: String,
    pub columns: usize,
    pub rows: usize,
    pub tile_size: (usize, usize),
    pub padding: Option<(usize, usize)>,
    pub state: SingleTextureProcessState,
}

/// Equally sized regions placed by hand inside one image.
#[derive(Debug)]
pub struct PatchAtlasDefinition {
    pub texture: String,
    pub width: usize,
    pub height: usize,
    pub positions: Vec<(usize, usize)>,
    pub state: SingleTextureProcessState,
}

/// All images of a folder packed into one atlas; their order is not known in advance.
#[derive(Debug)]
pub struct FolderAtlasDefinition {
    pub path: String,
    pub state: MultiTextureProcessState,
}

/// How one atlas is to be built.
#[derive(Debug)]
pub enum AtlasDefinition {
    Grid(GridAtlasDefinition),
    Manual(PatchAtlasDefinition),
    Folder(FolderAtlasDefinition),
}

/// The parameters of a recipe, without its build state.
pub enum Recipe {
    Grid {
        texture: Seq<char>,
        columns: usize,
        rows: usize,
        tile_size: (usize, usize),
        padding: Option<(usize, usize)>,
    },
    Patch { texture: Seq<char>, width: usize, height: usize, positions: Seq<(usize, usize)> },
    Folder { path: Seq<char> },
}

/// Model of a recipe together with its build state.
pub struct RecipeView {
    pub recipe: Recipe,
    pub state: BuildState,
}

impl View for GridAtlasDefinition {
    type V = RecipeView;

    open spec fn view(&self) -> RecipeView {
        RecipeView {
            recipe: Recipe::Grid {
                texture: self.texture@,
                columns: self.columns,
                rows: self.rows,
                tile_size: self.tile_size,
                padding: self.padding,
            },
            state: self.state@,
        }
    }
}

impl View for PatchAtlasDefinition {
    type V = RecipeView;

    open spec fn view(&self) -> RecipeView {
        RecipeView {
            recipe: Recipe::Patch {
                texture: self.texture@,
                width: self.width,
                height: self.height,
                positions: self.positions@,
            },
            state: self.state@,
        }
    }
}

impl View for FolderAtlasDefinition {
    type V = RecipeView;

    open spec fn view(&self) -> RecipeView {
        RecipeView { recipe: Recipe::Folder { path: self.path@ }, state: self.state@ }
    }
}

impl View for AtlasDefinition {
    type V = RecipeView;

    open spec fn view(&self) -> RecipeView {
        match self {
            AtlasDefinition::Grid(d) => d@,
            AtlasDefinition::Manual(d) => d@,
            AtlasDefinition::Folder(d) => d@,
        }
    }
}

impl Default for GridAtlasDefinition {
    fn default() -> (r: Self)
        ensures
            r.texture@ == Seq::<char>::empty(),
            r.columns == 0,
            r.rows == 0,
            r.tile_size == (0usize, 0usize),
            r.padding.is_none(),
            r.state == SingleTextureProcessState::NotStarted,
    {
        GridAtlasDefinition {
            texture: String::new(),
            columns: 0,
            rows: 0,
            tile_size: (0, 0),
            padding: None,
            state: SingleTextureProcessState::NotStarted,
        }
    }
}

impl Default for PatchAtlasDefinition {
    fn default() -> (r: Self)
        ensures
            r.texture@ == Seq::<char>::empty(),
            r.width == 0,
            r.height == 0,
            r.positions@ == Seq::<(usize, usize)>::empty(),
            r.state == SingleTextureProcessState::NotStarted,
    {
        PatchAtlasDefinition {
            texture: String::new(),
            width: 0,
            height: 0,
            positions: Vec::new(),
            state: SingleTextureProcessState::NotStarted,
        }
    }
}

impl Default for FolderAtlasDefinition {
    fn default() -> (r: Self)
        ensures
            r.path@ == Seq::<char>::empty(),
            r.state@ == BuildState::NotStarted,
    {
        FolderAtlasDefinition { path: String::new(), state: MultiTextureProcessState::NotStarted }
    }
}

impl From<GridAtlasDefinition> for AtlasDefinition {
    fn from(d: GridAtlasDefinition) -> (r: Self) {
        AtlasDefinition::Grid(d)
    }
}

impl vstd::std_specs::convert::FromSpecImpl<GridAtlasDefinition> for AtlasDefinition {
    open spec fn obeys_from_spec() -> bool {
        true
    }

    open spec fn from_spec(d: GridAtlasDefinition) -> Self {
        AtlasDefinition::Grid(d)
    }
}

impl From<PatchAtlasDefinition> for AtlasDefinition {
    fn from(d: PatchAtlasDefinition) -> (r: Self) {
        AtlasDefinition::Manual(d)
    }
}

impl vstd::std_specs::convert::FromSpecImpl<PatchAtlasDefinition> for AtlasDefinition {
    open spec fn obeys_from_spec() -> bool {
        true
    }

    open spec fn from_spec(d: PatchAtlasDefinition) -> Self {
        AtlasDefinition::Manual(d)
    }
}

impl From<FolderAtlasDefinition> for AtlasDefinition {
    fn from(d: FolderAtlasDefinition) -> (r: Self) {
        AtlasDefinition::Folder(d)
    }
}

impl vstd::std_specs::convert::FromSpecImpl<FolderAtlasDefinition> for AtlasDefinition {
    open spec fn obeys_from_spec() -> bool {
        true
    }

    open spec fn from_spec(d: FolderAtlasDefinition) -> Self {
        AtlasDefinition::Folder(d)
    }
}


/// What a recipe asks of the host on one tick.
#[derive(Debug)]
pub enum AtlasRequest {
    /// Start loading the image at this path.
    LoadTexture(String),
    /// Start loading every image of the folder at this path.
    LoadFolder(String),
    /// Once this image is loaded, create an atlas with this layout over it.
    CreateAtlas(u64, AtlasLayout),
    /// Once all these images are loaded, pack them into one atlas.
    PackFolder(Vec<u64>),
    /// Nothing to do.
    Wait,
}

/// The host's answer to an [`AtlasRequest`].
#[derive(Debug)]
pub enum HostReply {
    /// Loading of the image started under this handle.
    TextureLoading(u64),
    /// Loading of the folder's images started under these handles.
    FolderLoading(Vec<u64>),
    /// The atlas was created under this handle.
    AtlasAdded(u64),
    /// Nothing happened yet.
    NotYet,
}

/// Model of a [`HostReply`].
pub enum Reply {
    TextureLoading(u64),
    FolderLoading(Seq<u64>),
    AtlasAdded(u64),
    NotYet,
}

impl View for HostReply {
    type V = Reply;

    open spec fn view(&self) -> Reply {
        match self {
            HostReply::TextureLoading(h) => Reply::TextureLoading(*h),
            HostReply::FolderLoading(hs) => Reply::FolderLoading(hs@),
            HostReply::AtlasAdded(a) => Reply::AtlasAdded(*a),
            HostReply::NotYet => Reply::NotYet,
        }
    }
}

/// The recipe's regions can be laid out with `usize` coordinates.
pub open spec fn buildable(r: Recipe) -> bool {
    match r {
        Recipe::Grid { columns, rows, tile_size, padding, .. } => grid_fits(
            columns,
            rows,
            tile_size,
            padding_of(padding),
        ),
        Recipe::Patch { width, height, positions, .. } => patches_fit(width, height, positions),
        Recipe::Folder { .. } => true,
    }
}

/// Number of regions of the atlas built from the recipe over the loaded `images`.
pub open spec fn region_count(r: Recipe, images: Seq<u64>) -> int {
    match r {
        Recipe::Grid { columns, rows, .. } => columns * rows,
        Recipe::Patch { positions, .. } => positions.len() as int,
        Recipe::Folder { .. } => images.len() as int,
    }
}

/// One step of a recipe's build, given the host's reply: loading starts, or the atlas is
/// created; a reply that does not fit the state changes nothing.
pub open spec fn advance(v: RecipeView, reply: Reply) -> RecipeView {
    match v.state {
        BuildState::NotStarted => match reply {
            Reply::TextureLoading(h) => if v.recipe is Folder {
                v
            } else {
                RecipeView { recipe: v.recipe, state: BuildState::Loading(seq![h]) }
            },
            Reply::FolderLoading(hs) => if v.recipe is Folder {
                RecipeView { recipe: v.recipe, state: BuildState::Loading(hs) }
            } else {
                v
            },
            _ => v,
        },
        BuildState::Loading(hs) => match reply {
            Reply::AtlasAdded(a) => if buildable(v.recipe) {
                RecipeView {
                    recipe: v.recipe,
                    state: BuildState::Ready(
                        CreatedAtlas { handle: a, len: region_count(v.recipe, hs) as usize },
                    ),
                }
            } else {
                v
            },
            _ => v,
        },
        BuildState::Ready(_) => v,
    }
}

/// `req` is what a recipe in state `v` asks of the host.
pub open spec fn is_request_for(v: RecipeView, req: AtlasRequest) -> bool {
    match v.state {
        BuildState::NotStarted => match v.recipe {
            Recipe::Grid { texture, .. } => {
                req matches AtlasRequest::LoadTexture(p) && p@ == texture
            },
            Recipe::Patch { texture, .. } => {
                req matches AtlasRequest::LoadTexture(p) && p@ == texture
            },
            Recipe::Folder { path } => req matches AtlasRequest::LoadFolder(p) && p@ == path,
        },
        BuildState::Loading(hs) => match v.recipe {
            Recipe::Grid { columns, rows, tile_size, padding, .. } => if grid_fits(
                columns,
                rows,
                tile_size,
                padding_of(padding),
            ) {
                req matches AtlasRequest::CreateAtlas(h, l) && h == hs[0] && is_grid_layout(
                    l,
                    columns,
                    rows,
                    tile_size,
                    padding_of(padding),
                )
            } else {
                req is Wait
            },
            Recipe::Patch { width, height, positions, .. } => if patches_fit(
                width,
                height,
                positions,
            ) {
                req matches AtlasRequest::CreateAtlas(h, l) && h == hs[0] && is_patch_layout(
                    l,
                    width,
                    height,
                    positions,
                )
            } else {
                req is Wait
            },
            Recipe::Folder { .. } => req matches AtlasRequest::PackFolder(images) && images@ == hs,
        },
        BuildState::Ready(_) => req is Wait,
    }
}

/// A copy of a list of handles.
fn copy_handles(v: &Vec<u64>) -> (r: Vec<u64>)
    ensures
        r@ == v@,
{
    let mut r: Vec<u64> = Vec::new();
    let mut i: usize = 0;
    while i < v.len()
        invariant
            i <= v@.len(),
            r@ == v@.take(i as int),
        decreases v@.len() - i,
    {
        r.push(v[i]);
        i = i + 1;
        proof {
            assert(r@ =~= v@.take(i as int));
        }
    }
    proof {
        assert(r@ =~= v@);
    }
    r
}

fn same_positions(a: &Vec<(usize, usize)>, b: &Vec<(usize, usize)>) -> (r: bool)
    ensures
        r == (a@ == b@),
{
    if a.len() != b.len() {
        return false;
    }
    let mut i: usize = 0;
    while i < a.len()
        invariant
            i <= a@.len(),
            a@.len() == b@.len(),
            forall|j: int| 0 <= j < i ==> a@[j] == b@[j],
        decreases a@.len() - i,
    {
        if a[i].0 != b[i].0 || a[i].1 != b[i].1 {
            return false;
        }
        i = i + 1;
    }
    proof {
        assert(a@ =~= b@);
    }
    true
}

fn same_padding(a: Option<(usize, usize)>, b: Option<(usize, usize)>) -> (r: bool)
    ensures
        r == (a == b),
{
    match (a, b) {
        (Some(x), Some(y)) => x.0 == y.0 && x.1 == y.1,
        (None, None) => true,
        _ => false,
    }
}

impl AtlasDefinition {
    /// The created atlas, once there is one.
    pub fn texture_atlas(&self) -> (r: Option<CreatedAtlas>)
        ensures
            r == ready_atlas(self@.state),
    {
        match self {
            AtlasDefinition::Grid(d) => d.state.texture_atlas(),
            AtlasDefinition::Manual(d) => d.state.texture_atlas(),
            AtlasDefinition::Folder(d) => d.state.texture_atlas(),
        }
    }

    /// What this recipe needs from the host on this tick.
    pub fn request(&self) -> (r: AtlasRequest)
        ensures
            is_request_for(self@, r),
    {
        match self {
            AtlasDefinition::Grid(d) => match d.state {
                SingleTextureProcessState::NotStarted => AtlasRequest::LoadTexture(
                    d.texture.clone(),
                ),
                SingleTextureProcessState::LoadingTexture(h) => match grid_layout(
                    d.columns,
                    d.rows,
                    d.tile_size,
                    d.padding,
                ) {
                    Some(l) => AtlasRequest::CreateAtlas(h, l),
                    None => AtlasRequest::Wait,
                },
                SingleTextureProcessState::AtlasCreated(_) => AtlasRequest::Wait,
            },
            AtlasDefinition::Manual(d) => match d.state {
                SingleTextureProcessState::NotStarted => AtlasRequest::LoadTexture(
                    d.texture.clone(),
                ),
                SingleTextureProcessState::LoadingTexture(h) => match patch_layout(
                    d.width,
                    d.height,
                    &d.positions,
                ) {
                    Some(l) => AtlasRequest::CreateAtlas(h, l),
                    None => AtlasRequest::Wait,
                },
                SingleTextureProcessState::AtlasCreated(_) => AtlasRequest::Wait,
            },
            AtlasDefinition::Folder(d) => match &d.state {
                MultiTextureProcessState::NotStarted => AtlasRequest::LoadFolder(d.path.clone()),
                MultiTextureProcessState::LoadingTextures(hs) => AtlasRequest::PackFolder(
                    copy_handles(hs),
                ),
                MultiTextureProcessState::AtlasCreated(_) => AtlasRequest::Wait,
            },
        }
    }

    /// Takes the host's reply to this tick's request and moves the build one step on;
    /// returns whether the atlas now exists.
    pub fn advance(&mut self, reply: &HostReply) -> (ready: bool)
        ensures
            final(self)@ == advance(old(self)@, reply@),
            ready == (final(self)@.state is Ready),
    {
        match self {
            AtlasDefinition::Grid(d) => {
                match d.state {
                    SingleTextureProcessState::NotStarted => {
                        if let HostReply::TextureLoading(h) = reply {
                            d.state = SingleTextureProcessState::LoadingTexture(*h);
                        }
                    },
                    SingleTextureProcessState::LoadingTexture(_) => {
                        if let HostReply::AtlasAdded(a) = reply {
                            if let Some(l) = grid_layout(d.columns, d.rows, d.tile_size, d.padding) {
                                d.state = SingleTextureProcessState::AtlasCreated(
                                    CreatedAtlas { handle: *a, len: l.regions.len() },
                                );
                            }
                        }
                    },
                    SingleTextureProcessState::AtlasCreated(_) => {},
                }
                match d.state {
                    SingleTextureProcessState::AtlasCreated(_) => true,
                    _ => false,
                }
            },
            AtlasDefinition::Manual(d) => {
                match d.state {
                    SingleTextureProcessState::NotStarted => {
                        if let HostReply::TextureLoading(h) = reply {
                            d.state = SingleTextureProcessState::LoadingTexture(*h);
                        }
                    },
                    SingleTextureProcessState::LoadingTexture(_) => {
                        if let HostReply::AtlasAdded(a) = reply {
                            if let Some(l) = patch_layout(d.width, d.height, &d.positions) {
                                d.state = SingleTextureProcessState::AtlasCreated(
                                    CreatedAtlas { handle: *a, len: l.regions.len() },
                                );
                            }
                        }
                    },
                    SingleTextureProcessState::AtlasCreated(_) => {},
                }
                match d.state {
                    SingleTextureProcessState::AtlasCreated(_) => true,
                    _ => false,
                }
            },
            AtlasDefinition::Folder(d) => {
                let next = match &d.state {
                    MultiTextureProcessState::NotStarted => match reply {
                        HostReply::FolderLoading(hs) => Some(
                            MultiTextureProcessState::LoadingTextures(copy_handles(hs)),
                        ),
                        _ => None,
                    },
                    MultiTextureProcessState::LoadingTextures(hs) => match reply {
                        HostReply::AtlasAdded(a) => Some(
                            MultiTextureProcessState::AtlasCreated(
                                CreatedAtlas { handle: *a, len: hs.len() },
                            ),
                        ),
                        _ => None,
                    },
                    MultiTextureProcessState::AtlasCreated(_) => None,
                };
                if let Some(s) = next {
                    d.state = s;
                }
                match d.state {
                    MultiTextureProcessState::AtlasCreated(_) => true,
                    _ => false,
                }
            },
        }
    }

    /// Whether both recipes have the same parameters, whatever their build states.
    pub fn same_recipe(&self, other: &AtlasDefinition) -> (r: bool)
        ensures
            r == (self@.recipe == other@.recipe),
    {
        match (self, other) {
            (AtlasDefinition::Grid(a), AtlasDefinition::Grid(b)) => {
                a.texture == b.texture && a.columns == b.columns && a.rows == b.rows
                    && a.tile_size.0 == b.tile_size.0 && a.tile_size.1 == b.tile_size.1
                    && same_padding(a.padding, b.padding)
            },
            (AtlasDefinition::Manual(a), AtlasDefinition::Manual(b)) => {
                a.texture == b.texture && a.width == b.width && a.height == b.height
                    && same_positions(&a.positions, &b.positions)
            },
            (AtlasDefinition::Folder(a), AtlasDefinition::Folder(b)) => a.path == b.path,
            _ => false,
        }
    }

    /// Takes over the build state of a recipe with the same parameters.
    pub fn adopt_state(&mut self, from: &AtlasDefinition)
        requires
            old(self)@.recipe == from@.recipe,
        ensures
            final(self)@ == (RecipeView { recipe: old(self)@.recipe, state: from@.state }),
    {
        match (self, from) {
            (AtlasDefinition::Grid(a), AtlasDefinition::Grid(b)) => {
                a.state = b.state;
            },
            (AtlasDefinition::Manual(a), AtlasDefinition::Manual(b)) => {
                a.state = b.state;
            },
            (AtlasDefinition::Folder(a), AtlasDefinition::Folder(b)) => {
                a.state = match &b.state {
                    MultiTextureProcessState::NotStarted => MultiTextureProcessState::NotStarted,
                    MultiTextureProcessState::LoadingTextures(hs) => {
                        MultiTextureProcessState::LoadingTextures(copy_handles(hs))
                    },
                    MultiTextureProcessState::AtlasCreated(c) => {
                        MultiTextureProcessState::AtlasCreated(*c)
                    },
                };
            },
            _ => {},
        }
    }

    /// Starts the build over.
    pub fn reset_state(&mut self)
        ensures
            final(self)@ == (RecipeView { recipe: old(self)@.recipe, state: BuildState::NotStarted }),
    {
        match self {
            AtlasDefinition::Grid(d) => {
                d.state = SingleTextureProcessState::NotStarted;
            },
            AtlasDefinition::Manual(d) => {
                d.state = SingleTextureProcessState::NotStarted;
            },
            AtlasDefinition::Folder(d) => {
                d.state = MultiTextureProcessState::NotStarted;
            },
        }
    }
}


/// `k` is a key of `s`.
pub open spec fn has_key<V>(s: Seq<(Seq<char>, V)>, k: Seq<char>) -> bool {
    exists|i: int| 0 <= i < s.len() && #[trigger] s[i].0 == k
}

/// The position of key `k` in `s`.
pub open spec fn index_of<V>(s: Seq<(Seq<char>, V)>, k: Seq<char>) -> int {
    choose|i: int| 0 <= i < s.len() && #[trigger] s[i].0 == k
}

/// No key appears twice in `s`.
pub open spec fn keys_distinct<V>(s: Seq<(Seq<char>, V)>) -> bool {
    forall|i: int, j: int|
        #![trigger s[i], s[j]]
        0 <= i < s.len() && 0 <= j < s.len() && i != j ==> s[i].0 != s[j].0
}

/// `s` after `k` is bound to `v`: in place when `k` is there, else at the end.
pub open spec fn insert_entry<V>(s: Seq<(Seq<char>, V)>, k: Seq<char>, v: V) -> Seq<(Seq<char>, V)> {
    if has_key(s, k) {
        s.update(index_of(s, k), (k, v))
    } else {
        s.push((k, v))
    }
}

/// The reply given to the recipe at position `i`; recipes without one get none.
pub open spec fn reply_at(replies: Seq<Reply>, i: int) -> Reply {
    if 0 <= i < replies.len() {
        replies[i]
    } else {
        Reply::NotYet
    }
}

pub open spec fn replies_view(replies: Seq<HostReply>) -> Seq<Reply> {
    replies.map_values(|r: HostReply| r@)
}

/// Every recipe advanced by one step, each with its own reply.
pub open spec fn process_all(s: Seq<(Seq<char>, RecipeView)>, replies: Seq<Reply>) -> Seq<
    (Seq<char>, RecipeView),
> {
    Seq::new(s.len(), |i: int| (s[i].0, advance(s[i].1, reply_at(replies, i))))
}

/// Every recipe has its atlas.
pub open spec fn all_ready(s: Seq<(Seq<char>, RecipeView)>) -> bool {
    forall|i: int| 0 <= i < s.len() ==> #[trigger] s[i].1.state is Ready
}

/// The state that a recipe of the next generation starts from: that of the current recipe
/// under the same key when the parameters are the same, else a fresh one.
pub open spec fn carried_state(cur: Seq<(Seq<char>, RecipeView)>, k: Seq<char>, r: Recipe) -> BuildState {
    if has_key(cur, k) && cur[index_of(cur, k)].1.recipe == r {
        cur[index_of(cur, k)].1.state
    } else {
        BuildState::NotStarted
    }
}

/// The next generation's recipes, each carrying over the build state of an unchanged recipe.
pub open spec fn merge_generation(
    cur: Seq<(Seq<char>, RecipeView)>,
    next: Seq<(Seq<char>, RecipeView)>,
) -> Seq<(Seq<char>, RecipeView)> {
    Seq::new(
        next.len(),
        |j: int|
            (
                next[j].0,
                RecipeView {
                    recipe: next[j].1.recipe,
                    state: carried_state(cur, next[j].0, next[j].1.recipe),
                },
            ),
    )
}

/// Recipes by name; each name appears once.
#[derive(Debug)]
pub struct GenericAtlasDefinitions {
    entries: Vec<(String, AtlasDefinition)>,
}

impl View for GenericAtlasDefinitions {
    type V = Seq<(Seq<char>, RecipeView)>;

    closed spec fn view(&self) -> Seq<(Seq<char>, RecipeView)> {
        self.entries@.map_values(|e: (String, AtlasDefinition)| (e.0@, e.1@))
    }
}

impl GenericAtlasDefinitions {
    pub open spec fn wf(&self) -> bool {
        keys_distinct(self@)
    }

    /// No recipes.
    pub fn new() -> (r: Self)
        ensures
            r@ == Seq::<(Seq<char>, RecipeView)>::empty(),
            r.wf(),
    {
        let r = GenericAtlasDefinitions { entries: Vec::new() };
        proof {
            assert(r@ =~= Seq::<(Seq<char>, RecipeView)>::empty());
        }
        r
    }

    /// The number of recipes.
    pub fn len(&self) -> (r: usize)
        ensures
            r == self@.len(),
    {
        self.entries.len()
    }

    fn find(&self, key: &String) -> (r: Option<usize>)
        ensures
            r matches Some(i) ==> i < self@.len() && self@[i as int].0 == key@,
            r is None ==> !has_key(self@, key@),
    {
        let mut i: usize = 0;
        while i < self.entries.len()
            invariant
                i <= self@.len(),
                self@.len() == self.entries@.len(),
                forall|j: int| 0 <= j < i ==> #[trigger] self@[j].0 != key@,
            decreases self@.len() - i,
        {
            if self.entries[i].0 == *key {
                return Some(i);
            }
            i = i + 1;
        }
        None
    }

    /// The name and recipe at position `i`.
    pub fn entry(&self, i: usize) -> (r: Option<(&String, &AtlasDefinition)>)
        ensures
            r.is_some() == (i < self@.len()),
            r matches Some((k, d)) ==> (k@, d@) == self@[i as int],
    {
        if i < self.entries.len() {
            let e = &self.entries[i];
            Some((&e.0, &e.1))
        } else {
            None
        }
    }

    /// Whether a recipe is named `key`.
    pub fn contains_key(&self, key: &String) -> (r: bool)
        ensures
            r == has_key(self@, key@),
    {
        self.find(key).is_some()
    }

    /// The recipe named `key`.
    pub fn get(&self, key: &String) -> (r: Option<&AtlasDefinition>)
        requires
            self.wf(),
        ensures
            r.is_some() == has_key(self@, key@),
            r matches Some(d) ==> d@ == self@[index_of(self@, key@)].1,
    {
        match self.find(key) {
            Some(i) => Some(&self.entries[i].1),
            None => None,
        }
    }

    /// Binds `key` to `definition`, replacing the recipe of that name if there is one.
    pub fn insert(&mut self, key: String, definition: AtlasDefinition)
        requires
            old(self).wf(),
        ensures
            final(self).wf(),
            final(self)@ == insert_entry(old(self)@, key@, definition@),
    {
        let ghost kv = key@;
        let ghost dv = definition@;
        match self.find(&key) {
            Some(i) => {
                self.entries.set(i, (key, definition));
                proof {
                    assert(self@ =~= old(self)@.update(i as int, (kv, dv)));
                }
            },
            None => {
                self.entries.push((key, definition));
                proof {
                    assert(self@ =~= old(self)@.push((kv, dv)));
                }
            },
        }
    }

    /// What each recipe, in order, needs from the host on this tick.
    pub fn requests(&self) -> (r: Vec<AtlasRequest>)
        ensures
            r@.len() == self@.len(),
            forall|i: int| 0 <= i < self@.len() ==> is_request_for(self@[i].1, #[trigger] r@[i]),
    {
        let mut r: Vec<AtlasRequest> = Vec::new();
        let mut i: usize = 0;
        while i < self.entries.len()
            invariant
                i <= self@.len(),
                self@.len() == self.entries@.len(),
                r@.len() == i,
                forall|j: int| 0 <= j < i ==> is_request_for(self@[j].1, #[trigger] r@[j]),
            decreases self@.len() - i,
        {
            r.push(self.entries[i].1.request());
            i = i + 1;
        }
        r
    }

    /// Advances every recipe by one step, the recipe at position `i` with `replies[i]`;
    /// returns whether every recipe now has its atlas.
    pub fn process(&mut self, replies: &Vec<HostReply>) -> (ready: bool)
        requires
            old(self).wf(),
        ensures
            final(self).wf(),
            final(self)@ == process_all(old(self)@, replies_view(replies@)),
            ready == all_ready(final(self)@),
    {
        let ghost start = self@;
        let ghost rs = replies_view(replies@);
        let mut ready = true;
        let mut i: usize = 0;
        while i < self.entries.len()
            invariant
                i <= self@.len(),
                self@.len() == start.len(),
                self@.len() == self.entries@.len(),
                rs == replies_view(replies@),
                forall|j: int|
                    0 <= j < i ==> #[trigger] self@[j] == (
                    start[j].0,
                    advance(start[j].1, reply_at(rs, j)),
                ),
                forall|j: int| i <= j < self@.len() ==> #[trigger] self@[j] == start[j],
                ready == (forall|j: int| 0 <= j < i ==> #[trigger] self@[j].1.state is Ready),
            decreases self@.len() - i,
        {
            let ghost before = self@;
            let ghost before_entries = self.entries@;
            let not_yet = HostReply::NotYet;
            let reply = if i < replies.len() {
                &replies[i]
            } else {
                &not_yet
            };
            let done = self.entries[i].1.advance(reply);
            proof {
                assert(reply@ == reply_at(rs, i as int));
                let ii = i as int;
                assert(before[ii] == (before_entries[ii].0@, before_entries[ii].1@));
                assert(self.entries@[ii].0 == before_entries[ii].0);
                assert(forall|k: int|
                    0 <= k < self@.len() && k != ii ==> #[trigger] self.entries@[k]
                        == before_entries[k]);
                assert(self@ =~= before.update(
                    ii,
                    (start[ii].0, advance(start[ii].1, reply_at(rs, ii))),
                ));
            }
            proof {
                if ready && done {
                    assert forall|j: int| 0 <= j < i + 1 implies #[trigger] self@[j].1.state is Ready by {
                        if j < i {
                            assert(self@[j] == before[j]);
                        }
                    }
                } else if ready {
                    assert(!(self@[i as int].1.state is Ready));
                } else {
                    let w = choose|w: int| 0 <= w < i && !(#[trigger] before[w].1.state is Ready);
                    assert(self@[w] == before[w]);
                }
            }
            ready = ready && done;
            i = i + 1;
        }
        proof {
            assert(self@ =~= process_all(start, rs));
        }
        ready
    }

    /// Replaces the recipes with the next generation's; a recipe whose parameters did not
    /// change keeps its build state, every other one starts over.
    pub fn renew(&mut self, next: GenericAtlasDefinitions)
        requires
            old(self).wf(),
            next.wf(),
        ensures
            final(self).wf(),
            final(self)@ == merge_generation(old(self)@, next@),
    {
        let ghost cur = self@;
        let ghost nv = next@;
        let mut next = next;
        let mut j: usize = 0;
        while j < next.entries.len()
            invariant
                j <= next@.len(),
                self@ == cur,
                keys_distinct(cur),
                next@.len() == nv.len(),
                next@.len() == next.entries@.len(),
                forall|k: int| 0 <= k < j ==> #[trigger] next@[k] == merge_generation(cur, nv)[k],
                forall|k: int| j <= k < next@.len() ==> #[trigger] next@[k] == nv[k],
            decreases next@.len() - j,
        {
            let ghost before = next@;
            let ghost before_entries = next.entries@;
            proof {
                assert(next@[j as int] == (next.entries@[j as int].0@, next.entries@[j as int].1@));
            }
            match self.find(&next.entries[j].0) {
                Some(i) => {
                    if self.entries[i].1.same_recipe(&next.entries[j].1) {
                        next.entries[j].1.adopt_state(&self.entries[i].1);
                    } else {
                        next.entries[j].1.reset_state();
                    }
                    proof {
                        let k = nv[j as int].0;
                        assert(cur[i as int] == (self.entries@[i as int].0@, self.entries@[i as int].1@));
                        assert(cur[i as int].0 == k);
                        assert(has_key(cur, k));
                        let c = index_of(cur, k);
                        assert(cur[c].0 == k);
                        assert(c == i);
                    }
                },
                None => {
                    next.entries[j].1.reset_state();
                },
            }
            proof {
                assert(forall|k: int|
                    0 <= k < next@.len() && k != j ==> #[trigger] next.entries@[k]
                        == before_entries[k]);
                assert(next@ =~= before.update(j as int, merge_generation(cur, nv)[j as int]));
            }
            j = j + 1;
        }
        proof {
            assert(next@ =~= merge_generation(cur, nv));
            assert forall|a: int, b: int|
                #![trigger next@[a], next@[b]]
                0 <= a < next@.len() && 0 <= b < next@.len() && a != b implies next@[a].0
                != next@[b].0 by {
                assert(next@[a].0 == nv[a].0);
                assert(next@[b].0 == nv[b].0);
            }
        }
        self.entries = next.entries;
    }
}

} // verus!
