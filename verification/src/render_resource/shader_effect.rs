//! Synthesis of a pipeline layout from the bindings that a shader declares:
//! one bind group layout for every group index up to the largest one in use.

use std::rc::Rc;
use vstd::prelude::*;
use crate::render_resource::shader::{location_le, ResourceKind, Shader, ShaderBindingInfo};

verus! {

/// The number of bytes of immediate data that every pipeline layout reserves
/// for small values that change from draw to draw.
pub const IMMEDIATE_SIZE: u32 = 12;

/// The shader stages that can see a binding.
#[derive(Clone, Copy, Debug, PartialEq, Eq, Structural)]
pub struct ShaderStages {
    pub vertex: bool,
    pub fragment: bool,
}

/// One entry of a bind group layout.
#[derive(Clone, Copy, Debug, PartialEq, Eq, Structural)]
pub struct BindGroupLayoutEntry {
    /// The binding index within the group.
    pub binding: u32,
    /// The stages that can see the resource.
    pub visibility: ShaderStages,
    /// The kind of resource that has to be bound.
    pub ty: ResourceKind,
}

/// What a graphics device needs to create the layout of one bind group.
#[derive(Debug)]
pub struct BindGroupLayoutDescriptor {
    pub entries: Vec<BindGroupLayoutEntry>,
}

/// A pipeline layout: the entries of each bind group layout, by group index,
/// and the size of the immediate data.
pub struct PipelineLayout {
    pub groups: Seq<Seq<BindGroupLayoutEntry>>,
    pub immediate_size: u32,
}

/// The layout entry of a binding: the same binding index and resource kind,
/// visible to the vertex and the fragment stage.
pub open spec fn layout_entry(info: ShaderBindingInfo) -> BindGroupLayoutEntry {
    BindGroupLayoutEntry {
        binding: info.binding,
        visibility: ShaderStages { vertex: true, fragment: true },
        ty: info.ty,
    }
}

/// [`layout_entry`] as a function value.
pub open spec fn to_entry() -> spec_fn(ShaderBindingInfo) -> BindGroupLayoutEntry {
    |info: ShaderBindingInfo| layout_entry(info)
}

/// The test for membership in bind group `group`.
pub open spec fn in_group(group: int) -> spec_fn(ShaderBindingInfo) -> bool {
    |info: ShaderBindingInfo| info.group == group
}

/// The layout entries of bind group `group`: one for each of its bindings, in
/// the order in which `bindings` holds them.
pub open spec fn group_entries(bindings: Seq<ShaderBindingInfo>, group: int) -> Seq<
    BindGroupLayoutEntry,
> {
    bindings.filter(in_group(group)).map_values(to_entry())
}

/// The number of bind groups that `bindings` call for: none for no bindings,
/// else one more than the largest group index.
pub open spec fn group_count(bindings: Seq<ShaderBindingInfo>) -> nat
    decreases bindings.len(),
{
    if bindings.len() == 0 {
        0
    } else {
        let rest = group_count(bindings.drop_last());
        let here = (bindings.last().group + 1) as nat;
        if here > rest {
            here
        } else {
            rest
        }
    }
}

/// The pipeline layout that `bindings` call for.
pub open spec fn pipeline_layout_of(bindings: Seq<ShaderBindingInfo>) -> PipelineLayout {
    PipelineLayout {
        groups: Seq::new(group_count(bindings), |group: int| group_entries(bindings, group)),
        immediate_size: IMMEDIATE_SIZE,
    }
}

/// A pipeline layout has one bind group layout more than the largest group
/// index among the bindings, whichever binding holds that index. Groups below
/// it that no binding names are counted too.
pub proof fn lemma_group_count(bindings: Seq<ShaderBindingInfo>, largest: int)
    requires
        0 <= largest < bindings.len(),
        forall|i: int| 0 <= i < bindings.len() ==> bindings[i].group <= bindings[largest].group,
    ensures
        group_count(bindings) == bindings[largest].group + 1,
        pipeline_layout_of(bindings).groups.len() == bindings[largest].group + 1,
    decreases bindings.len(),
{
    let rest = bindings.drop_last();
    if largest == bindings.len() - 1 {
        lemma_group_count_bound(rest, bindings[largest].group as int);
    } else {
        lemma_group_count(rest, largest);
    }
}

/// No group index reaches the group count.
proof fn lemma_group_count_bound(bindings: Seq<ShaderBindingInfo>, bound: int)
    requires
        forall|i: int| 0 <= i < bindings.len() ==> bindings[i].group <= bound,
        0 <= bound,
    ensures
        group_count(bindings) <= bound + 1,
    decreases bindings.len(),
{
    if bindings.len() > 0 {
        lemma_group_count_bound(bindings.drop_last(), bound);
    }
}

/// A bind group that no binding names still has a layout, with no entries.
pub proof fn lemma_unused_group_is_empty(bindings: Seq<ShaderBindingInfo>, group: int)
    requires
        forall|i: int| 0 <= i < bindings.len() ==> bindings[i].group != group,
    ensures
        group_entries(bindings, group) == Seq::<BindGroupLayoutEntry>::empty(),
{
    assert(bindings.all(|info: ShaderBindingInfo| !in_group(group)(info)));
    bindings.lemma_all_neg_filter_empty(in_group(group));
    assert(group_entries(bindings, group) =~= Seq::<BindGroupLayoutEntry>::empty());
}

/// The descriptor of the layout of one bind group: an entry for each of the
/// given bindings, in their order.
pub fn create_layout_from_bindings(binding_infos: &Vec<ShaderBindingInfo>) -> (layout:
    BindGroupLayoutDescriptor)
    ensures
        layout.entries@ == binding_infos@.map_values(to_entry()),
{
    let mut entries: Vec<BindGroupLayoutEntry> = Vec::new();
    let mut i: usize = 0;
    while i < binding_infos.len()
        invariant
            i <= binding_infos.len(),
            entries@ == binding_infos@.take(i as int).map_values(to_entry()),
        decreases binding_infos.len() - i,
    {
        let info = &binding_infos[i];
        entries.push(
            BindGroupLayoutEntry {
                binding: info.binding,
                visibility: ShaderStages { vertex: true, fragment: true },
                ty: info.ty,
            },
        );
        i += 1;
        assert(entries@ =~= binding_infos@.take(i as int).map_values(to_entry()));
    }
    assert(binding_infos@.take(i as int) =~= binding_infos@);
    BindGroupLayoutDescriptor { entries }
}

/// A shader together with the pipeline layout that its bindings call for.
#[derive(Debug)]
pub struct ShaderEffect {
    shader: Rc<Shader>,
    bind_group_layouts: Vec<BindGroupLayoutDescriptor>,
    immediate_size: u32,
}

impl View for ShaderEffect {
    type V = PipelineLayout;

    closed spec fn view(&self) -> PipelineLayout {
        PipelineLayout {
            groups: Seq::new(
                self.bind_group_layouts@.len(),
                |group: int| self.bind_group_layouts@[group].entries@,
            ),
            immediate_size: self.immediate_size,
        }
    }
}

impl ShaderEffect {
    /// The shader that the layout was made for.
    pub closed spec fn source(&self) -> Rc<Shader> {
        self.shader
    }

    /// Synthesizes the pipeline layout of `shader`.
    ///
    /// A shader without bindings gets a layout without bind groups. Otherwise
    /// there is one bind group layout for every group index from 0 to the
    /// largest that a binding names, and the layout of a group holds one
    /// entry for each binding of that group.
    pub fn new(shader: Rc<Shader>) -> (effect: Self)
        ensures
            effect.source() == shader,
            effect@ == pipeline_layout_of(shader.declared()),
    {
        let bindings = shader.bindings();
        let len = bindings.len();
        if len == 0 {
            let effect = ShaderEffect {
                shader,
                bind_group_layouts: Vec::new(),
                immediate_size: IMMEDIATE_SIZE,
            };
            assert(effect@.groups =~= pipeline_layout_of(shader.declared()).groups);
            return effect;
        }
        let last_group = bindings[len - 1].group;
        proof {
            let last = bindings@[len - 1];
            assert forall|i: int| 0 <= i < bindings@.len() implies (#[trigger] bindings@[i]).group
                <= last.group by {
                if i < len - 1 {
                    assert(location_le(bindings@[i], last));
                }
            }
            lemma_group_count(bindings@, len - 1);
        }

        let mut groups: Vec<Vec<ShaderBindingInfo>> = Vec::new();
        groups.push(Vec::new());
        let mut made: u32 = 0;
        while made < last_group
            invariant
                made <= last_group,
                groups@.len() == made + 1,
                forall|g: int| 0 <= g <= made ==> (#[trigger] groups@[g])@.len() == 0,
            decreases last_group - made,
        {
            groups.push(Vec::new());
            made += 1;
        }

        let mut i: usize = 0;
        proof {
            assert forall|g: int| 0 <= g <= last_group implies (#[trigger] groups@[g])@
                == bindings@.take(0).filter(in_group(g)) by {
                reveal(Seq::filter);
                assert(groups@[g]@ =~= bindings@.take(0).filter(in_group(g)));
            }
        }
        while i < len
            invariant
                i <= len,
                len == bindings@.len(),
                groups@.len() == last_group + 1,
                forall|j: int| 0 <= j < len ==> (#[trigger] bindings@[j]).group <= last_group,
                forall|g: int|
                    0 <= g <= last_group ==> (#[trigger] groups@[g])@ == bindings@.take(
                        i as int,
                    ).filter(in_group(g)),
            decreases len - i,
        {
            let info = bindings[i];
            proof {
                assert(bindings@.take(i + 1) =~= bindings@.take(i as int).push(info));
                assert forall|g: int| 0 <= g <= last_group implies bindings@.take(i + 1).filter(
                    in_group(g),
                ) == if info.group == g {
                    bindings@.take(i as int).filter(in_group(g)).push(info)
                } else {
                    bindings@.take(i as int).filter(in_group(g))
                } by {
                    bindings@.take(i as int).lemma_filter_push(info, in_group(g));
                }
            }
            groups[info.group as usize].push(info);
            i += 1;
        }
        proof {
            assert(bindings@.take(i as int) =~= bindings@);
        }

        let mut bind_group_layouts: Vec<BindGroupLayoutDescriptor> = Vec::new();
        let mut g: usize = 0;
        while g < groups.len()
            invariant
                g <= groups@.len(),
                groups@.len() == last_group + 1,
                bind_group_layouts@.len() == g,
                forall|k: int|
                    0 <= k <= last_group ==> (#[trigger] groups@[k])@ == bindings@.filter(
                        in_group(k),
                    ),
                forall|k: int|
                    0 <= k < g ==> (#[trigger] bind_group_layouts@[k]).entries@ == group_entries(
                        bindings@,
                        k,
                    ),
            decreases groups@.len() - g,
        {
            let layout = create_layout_from_bindings(&groups[g]);
            bind_group_layouts.push(layout);
            g += 1;
        }

        let effect = ShaderEffect { shader, bind_group_layouts, immediate_size: IMMEDIATE_SIZE };
        assert(effect@.groups =~= pipeline_layout_of(shader.declared()).groups);
        effect
    }

    /// The shader that the layout was made for.
    pub fn shader(&self) -> (shader: &Rc<Shader>)
        ensures
            *shader == self.source(),
    {
        &self.shader
    }

    /// The descriptors of the bind group layouts, by group index.
    pub fn bind_group_layouts(&self) -> (layouts: &Vec<BindGroupLayoutDescriptor>)
        ensures
            layouts@.len() == self@.groups.len(),
            forall|group: int|
                0 <= group < layouts@.len() ==> (#[trigger] layouts@[group]).entries@
                    == self@.groups[group],
    {
        &self.bind_group_layouts
    }

    /// The number of bytes of immediate data that the pipeline layout
    /// reserves.
    pub fn immediate_size(&self) -> (size: u32)
        ensures
            size == self@.immediate_size,
    {
        self.immediate_size
    }
}

} // verus!
