use vstd::prelude::*;

verus! {

/// The closed set of voxel kinds a chunk can hold. `Air` is the reserved
/// empty kind.
#[derive(Clone, Copy, Debug, PartialEq, Eq, Structural, Hash)]
pub enum VoxelType {
    Air,
    Stone,
    Dirt,
    Grass,
}

/// Number of voxel kinds.
pub const VOXEL_TYPE_COUNT: usize = 4;

/// A texture that a voxel face can show. `Error` stands for a missing image.
#[derive(Clone, Copy, Debug, PartialEq, Eq, Structural, Hash)]
pub enum TextureType {
    Error,
    Air,
    Stone,
    Dirt,
    GrassSide,
    GrassTop,
}

impl VoxelType {
    /// Position of this kind in a registry table.
    pub open spec fn spec_index(self) -> nat {
        match self {
            VoxelType::Air => 0,
            VoxelType::Stone => 1,
            VoxelType::Dirt => 2,
            VoxelType::Grass => 3,
        }
    }

    pub fn index(&self) -> (r: usize)
        ensures
            r == self.spec_index(),
            r < VOXEL_TYPE_COUNT,
    {
        match self {
            VoxelType::Air => 0,
            VoxelType::Stone => 1,
            VoxelType::Dirt => 2,
            VoxelType::Grass => 3,
        }
    }
}

/// The texture on each of a voxel's six faces.
#[derive(Clone, Copy, Debug, PartialEq, Eq, Structural)]
pub struct VoxelTextures {
    pub front: TextureType,
    pub back: TextureType,
    pub right: TextureType,
    pub left: TextureType,
    pub top: TextureType,
    pub bottom: TextureType,
}

impl VoxelTextures {
    /// The same texture on every face.
    pub fn uniform(texture: TextureType) -> (r: Self)
        ensures
            r == (VoxelTextures {
                front: texture,
                back: texture,
                right: texture,
                left: texture,
                top: texture,
                bottom: texture,
            }),
    {
        VoxelTextures {
            front: texture,
            back: texture,
            right: texture,
            left: texture,
            top: texture,
            bottom: texture,
        }
    }

    /// Distinct top and bottom textures, one texture on the four sides.
    pub fn top_bottom(
        top_texture: TextureType,
        bottom_texture: TextureType,
        side_texture: TextureType,
    ) -> (r: Self)
        ensures
            r == (VoxelTextures {
                front: side_texture,
                back: side_texture,
                right: side_texture,
                left: side_texture,
                top: top_texture,
                bottom: bottom_texture,
            }),
    {
        VoxelTextures {
            front: side_texture,
            back: side_texture,
            right: side_texture,
            left: side_texture,
            top: top_texture,
            bottom: bottom_texture,
        }
    }
}

/// How one voxel kind is drawn and whether it hides its neighbours' faces.
#[derive(Clone, Copy, Debug, PartialEq, Eq, Structural)]
pub struct VoxelProperties {
    pub textures: VoxelTextures,
    pub is_invisible: bool,
    pub is_occluding: bool,
}

impl Default for VoxelProperties {
    /// A visible, occluding stone block.
    fn default() -> (r: Self)
        ensures
            r == (VoxelProperties {
                textures: spec_uniform(TextureType::Stone),
                is_invisible: false,
                is_occluding: true,
            }),
    {
        VoxelProperties {
            textures: VoxelTextures::uniform(TextureType::Stone),
            is_invisible: false,
            is_occluding: true,
        }
    }
}

pub open spec fn spec_uniform(texture: TextureType) -> VoxelTextures {
    VoxelTextures {
        front: texture,
        back: texture,
        right: texture,
        left: texture,
        top: texture,
        bottom: texture,
    }
}

impl VoxelProperties {
    pub fn is_occluding(&self) -> (r: bool)
        ensures
            r == self.is_occluding,
    {
        self.is_occluding
    }

    pub fn is_invisible(&self) -> (r: bool)
        ensures
            r == self.is_invisible,
    {
        self.is_invisible
    }

    pub fn front_texture(&self) -> (r: TextureType)
        ensures
            r == self.textures.front,
    {
        self.textures.front
    }

    pub fn back_texture(&self) -> (r: TextureType)
        ensures
            r == self.textures.back,
    {
        self.textures.back
    }

    pub fn right_texture(&self) -> (r: TextureType)
        ensures
            r == self.textures.right,
    {
        self.textures.right
    }

    pub fn left_texture(&self) -> (r: TextureType)
        ensures
            r == self.textures.left,
    {
        self.textures.left
    }

    pub fn top_texture(&self) -> (r: TextureType)
        ensures
            r == self.textures.top,
    {
        self.textures.top
    }

    pub fn bottom_texture(&self) -> (r: TextureType)
        ensures
            r == self.textures.bottom,
    {
        self.textures.bottom
    }
}

/// The built-in table of voxel kinds.
pub open spec fn builtin_properties(voxel_type: VoxelType) -> VoxelProperties {
    match voxel_type {
        VoxelType::Air => VoxelProperties {
            textures: spec_uniform(TextureType::Air),
            is_invisible: true,
            is_occluding: false,
        },
        VoxelType::Stone => VoxelProperties {
            textures: spec_uniform(TextureType::Stone),
            is_invisible: false,
            is_occluding: true,
        },
        VoxelType::Dirt => VoxelProperties {
            textures: spec_uniform(TextureType::Dirt),
            is_invisible: false,
            is_occluding: true,
        },
        VoxelType::Grass => VoxelProperties {
            textures: VoxelTextures {
                front: TextureType::GrassSide,
                back: TextureType::GrassSide,
                right: TextureType::GrassSide,
                left: TextureType::GrassSide,
                top: TextureType::GrassTop,
                bottom: TextureType::Dirt,
            },
            is_invisible: false,
            is_occluding: true,
        },
    }
}

/// Maps every voxel kind to its properties. Read-only once built.
pub struct VoxelRegistry {
    properties: Vec<VoxelProperties>,
}

impl View for VoxelRegistry {
    type V = Seq<VoxelProperties>;

    closed spec fn view(&self) -> Seq<VoxelProperties> {
        self.properties@
    }
}

impl VoxelRegistry {
    /// The properties registered for `voxel_type`.
    pub open spec fn properties_of(&self, voxel_type: VoxelType) -> VoxelProperties {
        self@[voxel_type.spec_index() as int]
    }

    /// Every kind has an entry, and `Air` neither shows nor hides anything.
    pub open spec fn wf(&self) -> bool {
        &&& self@.len() == VOXEL_TYPE_COUNT
        &&& self.properties_of(VoxelType::Air).is_invisible
        &&& !self.properties_of(VoxelType::Air).is_occluding
    }

    /// The registry of the built-in voxel kinds.
    pub fn init() -> (r: Self)
        ensures
            r.wf(),
            forall|t: VoxelType| #[trigger] r.properties_of(t) == builtin_properties(t),
    {
        let mut properties: Vec<VoxelProperties> = Vec::new();
        properties.push(
            VoxelProperties {
                textures: VoxelTextures::uniform(TextureType::Air),
                is_invisible: true,
                is_occluding: false,
            },
        );
        properties.push(
            VoxelProperties {
                textures: VoxelTextures::uniform(TextureType::Stone),
                ..VoxelProperties::default()
            },
        );
        properties.push(
            VoxelProperties {
                textures: VoxelTextures::uniform(TextureType::Dirt),
                ..VoxelProperties::default()
            },
        );
        properties.push(
            VoxelProperties {
                textures: VoxelTextures::top_bottom(
                    TextureType::GrassTop,
                    TextureType::Dirt,
                    TextureType::GrassSide,
                ),
                ..VoxelProperties::default()
            },
        );
        let r = VoxelRegistry { properties };
        assert forall|t: VoxelType| #[trigger] r.properties_of(t) == builtin_properties(t) by {
            match t {
                VoxelType::Air => {},
                VoxelType::Stone => {},
                VoxelType::Dirt => {},
                VoxelType::Grass => {},
            }
        }
        r
    }

    /// The properties of `voxel_type`. Every kind is registered, so this never
    /// fails on a well-formed registry.
    pub fn get_properties(&self, voxel_type: &VoxelType) -> (r: &VoxelProperties)
        requires
            self.wf(),
        ensures
            *r == self.properties_of(*voxel_type),
    {
        &self.properties[voxel_type.index()]
    }
}

} // verus!
