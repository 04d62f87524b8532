use onon_render::render_resource::shader::{
    AddressSpace, GlobalVariable, ImageClass, ImageDimension, Module, ReflectError,
    ResourceBinding, ResourceKind, ScalarKind, Shader, ShaderBindingInfo, StorageAccess,
    StorageFormat, StorageTextureAccess, TextureFormat, TextureSampleType, TextureViewDimension,
    TypeInner,
};
use onon_render::render_resource::shader_effect::{BindGroupLayoutEntry, ShaderEffect, ShaderStages};
use std::rc::Rc;

fn address_space(space: naga::AddressSpace) -> AddressSpace {
    match space {
        naga::AddressSpace::Function => AddressSpace::Function,
        naga::AddressSpace::Private => AddressSpace::Private,
        naga::AddressSpace::WorkGroup => AddressSpace::WorkGroup,
        naga::AddressSpace::Uniform => AddressSpace::Uniform,
        naga::AddressSpace::Storage { access } => {
            AddressSpace::Storage { access: StorageAccess { bits: access.bits() } }
        }
        naga::AddressSpace::Handle => AddressSpace::Handle,
        naga::AddressSpace::Immediate => AddressSpace::Immediate,
        naga::AddressSpace::TaskPayload => AddressSpace::TaskPayload,
    }
}

fn scalar_kind(kind: naga::ScalarKind) -> ScalarKind {
    match kind {
        naga::ScalarKind::Sint => ScalarKind::Sint,
        naga::ScalarKind::Uint => ScalarKind::Uint,
        naga::ScalarKind::Float => ScalarKind::Float,
        naga::ScalarKind::Bool => ScalarKind::Bool,
        naga::ScalarKind::AbstractInt => ScalarKind::AbstractInt,
        naga::ScalarKind::AbstractFloat => ScalarKind::AbstractFloat,
    }
}

fn storage_format(format: naga::StorageFormat) -> StorageFormat {
    match format {
        naga::StorageFormat::R8Unorm => StorageFormat::R8Unorm,
        naga::StorageFormat::R8Snorm => StorageFormat::R8Snorm,
        naga::StorageFormat::R8Uint => StorageFormat::R8Uint,
        naga::StorageFormat::R8Sint => StorageFormat::R8Sint,
        naga::StorageFormat::R16Uint => StorageFormat::R16Uint,
        naga::StorageFormat::R16Sint => StorageFormat::R16Sint,
        naga::StorageFormat::R16Float => StorageFormat::R16Float,
        naga::StorageFormat::Rg8Unorm => StorageFormat::Rg8Unorm,
        naga::StorageFormat::Rg8Snorm => StorageFormat::Rg8Snorm,
        naga::StorageFormat::Rg8Uint => StorageFormat::Rg8Uint,
        naga::StorageFormat::Rg8Sint => StorageFormat::Rg8Sint,
        naga::StorageFormat::R32Uint => StorageFormat::R32Uint,
        naga::StorageFormat::R32Sint => StorageFormat::R32Sint,
        naga::StorageFormat::R32Float => StorageFormat::R32Float,
        naga::StorageFormat::Rg16Uint => StorageFormat::Rg16Uint,
        naga::StorageFormat::Rg16Sint => StorageFormat::Rg16Sint,
        naga::StorageFormat::Rg16Float => StorageFormat::Rg16Float,
        naga::StorageFormat::Rgba8Unorm => StorageFormat::Rgba8Unorm,
        naga::StorageFormat::Rgba8Snorm => StorageFormat::Rgba8Snorm,
        naga::StorageFormat::Rgba8Uint => StorageFormat::Rgba8Uint,
        naga::StorageFormat::Rgba8Sint => StorageFormat::Rgba8Sint,
        naga::StorageFormat::Bgra8Unorm => StorageFormat::Bgra8Unorm,
        naga::StorageFormat::Rgb10a2Uint => StorageFormat::Rgb10a2Uint,
        naga::StorageFormat::Rgb10a2Unorm => StorageFormat::Rgb10a2Unorm,
        naga::StorageFormat::Rg11b10Ufloat => StorageFormat::Rg11b10Ufloat,
        naga::StorageFormat::R64Uint => StorageFormat::R64Uint,
        naga::StorageFormat::Rg32Uint => StorageFormat::Rg32Uint,
        naga::StorageFormat::Rg32Sint => StorageFormat::Rg32Sint,
        naga::StorageFormat::Rg32Float => StorageFormat::Rg32Float,
        naga::StorageFormat::Rgba16Uint => StorageFormat::Rgba16Uint,
        naga::StorageFormat::Rgba16Sint => StorageFormat::Rgba16Sint,
        naga::StorageFormat::Rgba16Float => StorageFormat::Rgba16Float,
        naga::StorageFormat::Rgba32Uint => StorageFormat::Rgba32Uint,
        naga::StorageFormat::Rgba32Sint => StorageFormat::Rgba32Sint,
        naga::StorageFormat::Rgba32Float => StorageFormat::Rgba32Float,
        naga::StorageFormat::R16Unorm => StorageFormat::R16Unorm,
        naga::StorageFormat::R16Snorm => StorageFormat::R16Snorm,
        naga::StorageFormat::Rg16Unorm => StorageFormat::Rg16Unorm,
        naga::StorageFormat::Rg16Snorm => StorageFormat::Rg16Snorm,
        naga::StorageFormat::Rgba16Unorm => StorageFormat::Rgba16Unorm,
        naga::StorageFormat::Rgba16Snorm => StorageFormat::Rgba16Snorm,
    }
}

fn image_class(class: naga::ImageClass) -> ImageClass {
    match class {
        naga::ImageClass::Sampled { kind, multi } => {
            ImageClass::Sampled { kind: scalar_kind(kind), multi }
        }
        naga::ImageClass::Depth { multi } => ImageClass::Depth { multi },
        naga::ImageClass::External => ImageClass::External,
        naga::ImageClass::Storage { format, access } => ImageClass::Storage {
            format: storage_format(format),
            access: StorageAccess { bits: access.bits() },
        },
    }
}

fn type_inner(inner: &naga::TypeInner) -> TypeInner {
    match *inner {
        naga::TypeInner::Struct { .. } => TypeInner::Struct,
        naga::TypeInner::Image { dim, arrayed, class } => TypeInner::Image {
            dim: match dim {
                naga::ImageDimension::D1 => ImageDimension::D1,
                naga::ImageDimension::D2 => ImageDimension::D2,
                naga::ImageDimension::D3 => ImageDimension::D3,
                naga::ImageDimension::Cube => ImageDimension::Cube,
            },
            arrayed,
            class: image_class(class),
        },
        naga::TypeInner::Sampler { comparison } => TypeInner::Sampler { comparison },
        _ => TypeInner::Other,
    }
}

fn describe(source: &str) -> Module {
    let module = naga::front::wgsl::parse_str(source).unwrap();
    let global_variables = module
        .global_variables
        .iter()
        .map(|(_, global)| GlobalVariable {
            space: address_space(global.space),
            binding: global
                .binding
                .as_ref()
                .map(|at| ResourceBinding { group: at.group, binding: at.binding }),
            ty: type_inner(&module.types[global.ty].inner),
        })
        .collect();
    Module { global_variables }
}

fn info(group: u32, binding: u32, ty: ResourceKind) -> ShaderBindingInfo {
    ShaderBindingInfo { group, binding, ty }
}

#[test]
fn wgsl_uniform_sampler_and_texture() {
    let module = describe(
        "struct Camera { view_proj: mat4x4<f32> }
         @group(0) @binding(2) var diffuse: texture_2d<f32>;
         @group(0) @binding(0) var<uniform> camera: Camera;
         @group(0) @binding(1) var diffuse_sampler: sampler;
         var<private> counter: u32;",
    );
    assert_eq!(module.global_variables.len(), 4);
    let shader = Rc::new(Shader::new(module).unwrap());
    let texture = ResourceKind::SampledTexture {
        dimension: TextureViewDimension::D2,
        sample_kind: TextureSampleType::Float,
        multisampled: false,
    };
    assert_eq!(
        shader.bindings(),
        &vec![
            info(0, 0, ResourceKind::UniformBuffer),
            info(0, 1, ResourceKind::Sampler { filtering: true }),
            info(0, 2, texture),
        ]
    );
    let effect = ShaderEffect::new(shader);
    let layouts = effect.bind_group_layouts();
    assert_eq!(layouts.len(), 1);
    let visible = ShaderStages { vertex: true, fragment: true };
    assert_eq!(
        layouts[0].entries,
        vec![
            BindGroupLayoutEntry { binding: 0, visibility: visible, ty: ResourceKind::UniformBuffer },
            BindGroupLayoutEntry {
                binding: 1,
                visibility: visible,
                ty: ResourceKind::Sampler { filtering: true },
            },
            BindGroupLayoutEntry { binding: 2, visibility: visible, ty: texture },
        ]
    );
}

#[test]
fn wgsl_storage_buffers_follow_their_access() {
    let module = describe(
        "struct Data { values: array<f32> }
         @group(1) @binding(1) var<storage, read_write> output: Data;
         @group(1) @binding(0) var<storage, read> input: Data;",
    );
    let shader = Shader::new(module).unwrap();
    assert_eq!(
        shader.bindings(),
        &vec![
            info(1, 0, ResourceKind::StorageBuffer { read_only: true }),
            info(1, 1, ResourceKind::StorageBuffer { read_only: false }),
        ]
    );
}

#[test]
fn wgsl_images_of_every_class() {
    let module = describe(
        "@group(0) @binding(0) var shadow: texture_depth_2d;
         @group(0) @binding(1) var layers: texture_2d_array<u32>;
         @group(0) @binding(2) var sky: texture_cube<f32>;
         @group(0) @binding(3) var samples: texture_multisampled_2d<i32>;
         @group(0) @binding(4) var target_image: texture_storage_2d<rgba8unorm, write>;
         @group(0) @binding(5) var volume: texture_3d<f32>;
         @group(0) @binding(6) var compare: sampler_comparison;",
    );
    let shader = Shader::new(module).unwrap();
    assert_eq!(
        shader.bindings(),
        &vec![
            info(
                0,
                0,
                ResourceKind::Depth { dimension: TextureViewDimension::D2, multisampled: false }
            ),
            info(
                0,
                1,
                ResourceKind::SampledTexture {
                    dimension: TextureViewDimension::D2Array,
                    sample_kind: TextureSampleType::Uint,
                    multisampled: false,
                }
            ),
            info(
                0,
                2,
                ResourceKind::SampledTexture {
                    dimension: TextureViewDimension::Cube,
                    sample_kind: TextureSampleType::Float,
                    multisampled: false,
                }
            ),
            info(
                0,
                3,
                ResourceKind::SampledTexture {
                    dimension: TextureViewDimension::D2,
                    sample_kind: TextureSampleType::Sint,
                    multisampled: true,
                }
            ),
            info(
                0,
                4,
                ResourceKind::StorageTexture {
                    access: StorageTextureAccess::WriteOnly,
                    format: TextureFormat::Rgba8Unorm,
                    dimension: TextureViewDimension::D2,
                }
            ),
            info(
                0,
                5,
                ResourceKind::SampledTexture {
                    dimension: TextureViewDimension::D3,
                    sample_kind: TextureSampleType::Float,
                    multisampled: false,
                }
            ),
            info(0, 6, ResourceKind::Sampler { filtering: true }),
        ]
    );
}

#[test]
fn wgsl_plain_uniform_value_is_dropped() {
    let module = describe(
        "@group(0) @binding(0) var<uniform> tint: vec4<f32>;
         @group(0) @binding(1) var linear: sampler;",
    );
    let shader = Shader::new(module).unwrap();
    assert_eq!(shader.bindings(), &vec![info(0, 1, ResourceKind::Sampler { filtering: true })]);
}

#[test]
fn wgsl_unsupported_storage_format_fails() {
    let module = describe(
        "@group(0) @binding(0) var linear: sampler;
         @group(2) @binding(3) var target_image: texture_storage_2d<rgba16float, write>;",
    );
    assert_eq!(Shader::new(module).err(), Some(ReflectError { index: 1, group: 2, binding: 3 }));
}

#[test]
fn wgsl_groups_with_a_gap() {
    let module = describe(
        "struct Camera { view_proj: mat4x4<f32> }
         @group(2) @binding(0) var linear: sampler;
         @group(0) @binding(0) var<uniform> camera: Camera;",
    );
    let effect = ShaderEffect::new(Rc::new(Shader::new(module).unwrap()));
    let layouts = effect.bind_group_layouts();
    assert_eq!(layouts.len(), 3);
    assert_eq!(layouts[0].entries.len(), 1);
    assert!(layouts[1].entries.is_empty());
    assert_eq!(layouts[2].entries.len(), 1);
}
