use onon_render::render_resource::shader::{
    AddressSpace, GlobalVariable, ImageClass, ImageDimension, Module, ResourceBinding,
    ResourceKind, ScalarKind, Shader, ShaderBindingInfo, TextureSampleType, TextureViewDimension,
    TypeInner,
};
use onon_render::render_resource::shader_effect::{
    create_layout_from_bindings, BindGroupLayoutEntry, ShaderEffect, ShaderStages, IMMEDIATE_SIZE,
};
use onon_render::render_resource::texture_array::{
    Extent3d, TextureArray, TextureArrayInfo, UploadError,
};
use std::rc::Rc;

fn uniform(group: u32, binding: u32) -> GlobalVariable {
    GlobalVariable {
        space: AddressSpace::Uniform,
        binding: Some(ResourceBinding { group, binding }),
        ty: TypeInner::Struct,
    }
}

fn sampler(group: u32, binding: u32) -> GlobalVariable {
    GlobalVariable {
        space: AddressSpace::Handle,
        binding: Some(ResourceBinding { group, binding }),
        ty: TypeInner::Sampler { comparison: false },
    }
}

fn sampled_2d(group: u32, binding: u32) -> GlobalVariable {
    GlobalVariable {
        space: AddressSpace::Handle,
        binding: Some(ResourceBinding { group, binding }),
        ty: TypeInner::Image {
            dim: ImageDimension::D2,
            arrayed: false,
            class: ImageClass::Sampled { kind: ScalarKind::Float, multi: false },
        },
    }
}

fn effect_of(globals: Vec<GlobalVariable>) -> ShaderEffect {
    let shader = Shader::new(Module { global_variables: globals }).unwrap();
    ShaderEffect::new(Rc::new(shader))
}

fn entry(binding: u32, ty: ResourceKind) -> BindGroupLayoutEntry {
    BindGroupLayoutEntry { binding, visibility: ShaderStages { vertex: true, fragment: true }, ty }
}

const TEXTURE_2D: ResourceKind = ResourceKind::SampledTexture {
    dimension: TextureViewDimension::D2,
    sample_kind: TextureSampleType::Float,
    multisampled: false,
};

#[test]
fn immediate_size_is_twelve_bytes() {
    assert_eq!(IMMEDIATE_SIZE, 12);
}

#[test]
fn layout_entries_keep_slot_and_kind() {
    let infos = vec![
        ShaderBindingInfo { group: 4, binding: 7, ty: ResourceKind::UniformBuffer },
        ShaderBindingInfo { group: 4, binding: 2, ty: ResourceKind::Sampler { filtering: true } },
    ];
    let layout = create_layout_from_bindings(&infos);
    assert_eq!(
        layout.entries,
        vec![
            entry(7, ResourceKind::UniformBuffer),
            entry(2, ResourceKind::Sampler { filtering: true }),
        ]
    );
}

#[test]
fn layout_of_no_bindings_has_no_entries() {
    let layout = create_layout_from_bindings(&Vec::new());
    assert!(layout.entries.is_empty());
}

#[test]
fn every_entry_is_visible_to_vertex_and_fragment() {
    let effect = effect_of(vec![uniform(0, 0), sampler(1, 0), sampled_2d(1, 1)]);
    for layout in effect.bind_group_layouts() {
        for entry in &layout.entries {
            assert_eq!(entry.visibility, ShaderStages { vertex: true, fragment: true });
        }
    }
}

#[test]
fn shader_without_bindings_has_no_group_layouts() {
    let effect = effect_of(Vec::new());
    assert!(effect.bind_group_layouts().is_empty());
    assert_eq!(effect.immediate_size(), 12);
}

#[test]
fn shader_with_only_unbound_globals_has_no_group_layouts() {
    let effect = effect_of(vec![GlobalVariable {
        space: AddressSpace::Private,
        binding: None,
        ty: TypeInner::Other,
    }]);
    assert!(effect.bind_group_layouts().is_empty());
}

#[test]
fn single_group_shader_has_one_layout_with_three_entries() {
    let effect = effect_of(vec![uniform(0, 0), sampler(0, 1), sampled_2d(0, 2)]);
    let layouts = effect.bind_group_layouts();
    assert_eq!(layouts.len(), 1);
    assert_eq!(
        layouts[0].entries,
        vec![
            entry(0, ResourceKind::UniformBuffer),
            entry(1, ResourceKind::Sampler { filtering: true }),
            entry(2, TEXTURE_2D),
        ]
    );
    assert_eq!(effect.immediate_size(), 12);
}

#[test]
fn unused_middle_group_gets_an_empty_layout() {
    let effect = effect_of(vec![sampler(2, 0), uniform(0, 0)]);
    let layouts = effect.bind_group_layouts();
    assert_eq!(layouts.len(), 3);
    assert_eq!(layouts[0].entries, vec![entry(0, ResourceKind::UniformBuffer)]);
    assert!(layouts[1].entries.is_empty());
    assert_eq!(layouts[2].entries, vec![entry(0, ResourceKind::Sampler { filtering: true })]);
}

#[test]
fn group_zero_may_be_unused() {
    let effect = effect_of(vec![uniform(1, 3)]);
    let layouts = effect.bind_group_layouts();
    assert_eq!(layouts.len(), 2);
    assert!(layouts[0].entries.is_empty());
    assert_eq!(layouts[1].entries, vec![entry(3, ResourceKind::UniformBuffer)]);
}

#[test]
fn bindings_go_to_the_layout_of_their_group() {
    let effect = effect_of(vec![
        sampled_2d(1, 1),
        uniform(0, 0),
        sampler(1, 0),
        uniform(3, 5),
        sampler(0, 4),
    ]);
    let layouts = effect.bind_group_layouts();
    assert_eq!(layouts.len(), 4);
    assert_eq!(
        layouts[0].entries,
        vec![
            entry(0, ResourceKind::UniformBuffer),
            entry(4, ResourceKind::Sampler { filtering: true }),
        ]
    );
    assert_eq!(
        layouts[1].entries,
        vec![entry(0, ResourceKind::Sampler { filtering: true }), entry(1, TEXTURE_2D)]
    );
    assert!(layouts[2].entries.is_empty());
    assert_eq!(layouts[3].entries, vec![entry(5, ResourceKind::UniformBuffer)]);
}

#[test]
fn effect_keeps_its_shader() {
    let shader = Rc::new(Shader::new(Module { global_variables: vec![uniform(0, 0)] }).unwrap());
    let effect = ShaderEffect::new(shader.clone());
    assert!(Rc::ptr_eq(effect.shader(), &shader));
}

#[test]
fn reflected_shader_and_texture_array_together() {
    let effect = effect_of(vec![uniform(0, 0), sampler(0, 1), sampled_2d(0, 2)]);
    let layouts = effect.bind_group_layouts();
    assert_eq!(layouts.len(), 1);
    let slots: Vec<u32> = layouts[0].entries.iter().map(|entry| entry.binding).collect();
    assert_eq!(slots, vec![0, 1, 2]);
    assert!(layouts[0]
        .entries
        .iter()
        .all(|entry| entry.visibility == ShaderStages { vertex: true, fragment: true }));

    let mut array = TextureArray::new(&TextureArrayInfo {
        dims: Extent3d { width: 32, height: 32, depth_or_array_layers: 5 },
        sampler: 0,
        bind_group_layout: 0,
    });
    let mut taken = Vec::new();
    for _ in 0..5 {
        let upload = array.upload_texture(&vec![0; 32 * 32 * 4], 32, 32).unwrap();
        assert!(upload.write.is_some());
        taken.push(upload.slot);
    }
    assert_eq!(taken, vec![0, 1, 2, 3, 4]);
    assert_eq!(array.upload_texture(&vec![0; 32 * 32 * 4], 32, 32), Err(UploadError::CapacityExceeded));
}
