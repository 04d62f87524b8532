//! Reflection of a compiled shader: from the global variables that a shader
//! module declares to the list of resource bindings that a pipeline layout has
//! to provide.

use std::cmp::Ordering;
use vstd::prelude::*;
use vstd::std_specs::cmp::PartialOrdSpecImpl;

verus! {

/// Bit of [`StorageAccess`]: the storage can be loaded from.
pub const STORAGE_LOAD: u32 = 0x1;

/// Bit of [`StorageAccess`]: the storage can be stored to.
pub const STORAGE_STORE: u32 = 0x2;

/// Bit of [`StorageAccess`]: the storage can be the target of atomic operations.
pub const STORAGE_ATOMIC: u32 = 0x4;

/// The set of operations that a shader declares on a storage buffer or a
/// storage image, as a set of the `STORAGE_*` bits.
#[derive(Clone, Copy, Debug, PartialEq, Eq, Structural)]
pub struct StorageAccess {
    pub bits: u32,
}

impl StorageAccess {
    /// Whether every bit of `flags` is set in `self`.
    pub open spec fn has(self, flags: u32) -> bool {
        self.bits & flags == flags
    }

    /// Whether every bit of `flags` is set in `self`.
    pub fn contains(&self, flags: u32) -> (all_set: bool)
        ensures
            all_set == self.has(flags),
    {
        self.bits & flags == flags
    }
}

/// Where a global variable lives.
#[derive(Clone, Copy, Debug, PartialEq, Eq, Structural)]
pub enum AddressSpace {
    Function,
    Private,
    WorkGroup,
    Uniform,
    Storage { access: StorageAccess },
    Handle,
    Immediate,
    TaskPayload,
}

/// The kind of the scalars that an image yields when it is sampled.
#[derive(Clone, Copy, Debug, PartialEq, Eq, Structural)]
pub enum ScalarKind {
    Sint,
    Uint,
    Float,
    Bool,
    AbstractInt,
    AbstractFloat,
}

/// The dimensionality of an image as the shader declares it.
#[derive(Clone, Copy, Debug, PartialEq, Eq, Structural)]
pub enum ImageDimension {
    D1,
    D2,
    D3,
    Cube,
}

/// The texel format that a shader declares for a storage image.
#[derive(Clone, Copy, Debug, PartialEq, Eq, Structural)]
pub enum StorageFormat {
    R8Unorm,
    R8Snorm,
    R8Uint,
    R8Sint,
    R16Uint,
    R16Sint,
    R16Float,
    Rg8Unorm,
    Rg8Snorm,
    Rg8Uint,
    Rg8Sint,
    R32Uint,
    R32Sint,
    R32Float,
    Rg16Uint,
    Rg16Sint,
    Rg16Float,
    Rgba8Unorm,
    Rgba8Snorm,
    Rgba8Uint,
    Rgba8Sint,
    Bgra8Unorm,
    Rgb10a2Uint,
    Rgb10a2Unorm,
    Rg11b10Ufloat,
    R64Uint,
    Rg32Uint,
    Rg32Sint,
    Rg32Float,
    Rgba16Uint,
    Rgba16Sint,
    Rgba16Float,
    Rgba32Uint,
    Rgba32Sint,
    Rgba32Float,
    R16Unorm,
    R16Snorm,
    Rg16Unorm,
    Rg16Snorm,
    Rgba16Unorm,
    Rgba16Snorm,
}

/// What an image is used as.
#[derive(Clone, Copy, Debug, PartialEq, Eq, Structural)]
pub enum ImageClass {
    /// An image that is sampled, yielding scalars of the given kind.
    Sampled { kind: ScalarKind, multi: bool },
    /// A depth-comparison image.
    Depth { multi: bool },
    /// An image whose contents are supplied from outside the graphics API.
    External,
    /// An image that is read or written texel by texel.
    Storage { format: StorageFormat, access: StorageAccess },
}

/// The shape of a global variable's type, as far as binding reflection tells
/// shapes apart.
#[derive(Clone, Copy, Debug, PartialEq, Eq, Structural)]
pub enum TypeInner {
    /// An aggregate with named members.
    Struct,
    /// An image.
    Image { dim: ImageDimension, arrayed: bool, class: ImageClass },
    /// A sampler.
    Sampler { comparison: bool },
    /// Any other type: scalars, vectors, matrices, arrays, pointers and so on.
    Other,
}

/// The location that a shader assigns to a resource.
#[derive(Clone, Copy, Debug, PartialEq, Eq, Structural)]
pub struct ResourceBinding {
    pub group: u32,
    pub binding: u32,
}

/// A global variable of a shader module.
#[derive(Clone, Copy, Debug, PartialEq, Eq, Structural)]
pub struct GlobalVariable {
    pub space: AddressSpace,
    pub binding: Option<ResourceBinding>,
    pub ty: TypeInner,
}

/// A compiled shader module, reduced to its global variables in the order of
/// their declaration.
#[derive(Clone, Debug)]
pub struct Module {
    pub global_variables: Vec<GlobalVariable>,
}

/// How a texture binding is viewed.
#[derive(Clone, Copy, Debug, PartialEq, Eq, Structural)]
pub enum TextureViewDimension {
    D1,
    D2,
    D2Array,
    Cube,
    CubeArray,
    D3,
}

/// The category of values that sampling a texture yields.
#[derive(Clone, Copy, Debug, PartialEq, Eq, Structural)]
pub enum TextureSampleType {
    Float,
    Sint,
    Uint,
}

/// What a shader may do with a storage texture.
#[derive(Clone, Copy, Debug, PartialEq, Eq, Structural)]
pub enum StorageTextureAccess {
    WriteOnly,
    ReadOnly,
    ReadWrite,
}

/// The texel formats that a storage texture binding can have.
#[derive(Clone, Copy, Debug, PartialEq, Eq, Structural)]
pub enum TextureFormat {
    R8Unorm,
    Rgba8Unorm,
    Rgba8Snorm,
}

/// The kind of resource that a binding expects.
#[derive(Clone, Copy, Debug, PartialEq, Eq, Structural)]
pub enum ResourceKind {
    UniformBuffer,
    StorageBuffer { read_only: bool },
    SampledTexture { dimension: TextureViewDimension, sample_kind: TextureSampleType, multisampled: bool },
    StorageTexture { access: StorageTextureAccess, format: TextureFormat, dimension: TextureViewDimension },
    Sampler { filtering: bool },
    /// A depth texture. `dimension` is the view dimension of the image that
    /// the shader declares.
    Depth { dimension: TextureViewDimension, multisampled: bool },
}

/// Why a global variable yields no binding.
#[derive(Clone, Copy, Debug, PartialEq, Eq, Structural)]
pub enum BindingError {
    /// An aggregate that lives neither in the uniform nor in the storage
    /// address space.
    NoBufferSpace,
    /// A type that is neither an aggregate, an image nor a sampler.
    UnhandledType,
    /// An external image.
    ExternalImage,
    /// A storage image of a texel format outside the supported ones.
    UnsupportedStorageFormat,
}

impl BindingError {
    /// Whether the error makes the reflection of the whole shader fail. The
    /// other errors only drop the variable that they are about.
    pub open spec fn fatal(self) -> bool {
        self == BindingError::UnsupportedStorageFormat
    }

    /// Whether the error makes the reflection of the whole shader fail.
    pub fn is_fatal(&self) -> (fatal: bool)
        ensures
            fatal == self.fatal(),
    {
        match self {
            BindingError::UnsupportedStorageFormat => true,
            _ => false,
        }
    }
}

/// The view dimension of an image of dimension `dim`. Combinations that have
/// no view dimension of their own are viewed as plain 2D.
pub open spec fn view_dimension_of(dim: ImageDimension, arrayed: bool) -> TextureViewDimension {
    match (dim, arrayed) {
        (ImageDimension::D2, false) => TextureViewDimension::D2,
        (ImageDimension::D2, true) => TextureViewDimension::D2Array,
        (ImageDimension::Cube, false) => TextureViewDimension::Cube,
        (ImageDimension::Cube, true) => TextureViewDimension::CubeArray,
        (ImageDimension::D3, false) => TextureViewDimension::D3,
        _ => TextureViewDimension::D2,
    }
}

/// The access of a storage texture: read-write where the shader both loads
/// and stores, write-only where it stores without loading, read-only
/// otherwise.
pub open spec fn storage_texture_access_of(access: StorageAccess) -> StorageTextureAccess {
    if access.has(STORAGE_STORE | STORAGE_LOAD) {
        StorageTextureAccess::ReadWrite
    } else if access.has(STORAGE_STORE) {
        StorageTextureAccess::WriteOnly
    } else {
        StorageTextureAccess::ReadOnly
    }
}

/// The supported texel formats of storage images.
pub open spec fn texture_format_of(format: StorageFormat) -> Option<TextureFormat> {
    match format {
        StorageFormat::R8Unorm => Some(TextureFormat::R8Unorm),
        StorageFormat::Rgba8Unorm => Some(TextureFormat::Rgba8Unorm),
        StorageFormat::Rgba8Snorm => Some(TextureFormat::Rgba8Snorm),
        _ => None,
    }
}

/// The sample category of a scalar kind. Kinds that are neither signed nor
/// unsigned integers are sampled as floats.
pub open spec fn sample_type_of(kind: ScalarKind) -> TextureSampleType {
    match kind {
        ScalarKind::Sint => TextureSampleType::Sint,
        ScalarKind::Uint => TextureSampleType::Uint,
        _ => TextureSampleType::Float,
    }
}

/// The resource kind of an image.
pub open spec fn image_kind(dim: ImageDimension, arrayed: bool, class: ImageClass) -> Result<
    ResourceKind,
    BindingError,
> {
    match class {
        ImageClass::Storage { format, access } => match texture_format_of(format) {
            Some(texture_format) => Ok(
                ResourceKind::StorageTexture {
                    access: storage_texture_access_of(access),
                    format: texture_format,
                    dimension: view_dimension_of(dim, arrayed),
                },
            ),
            None => Err(BindingError::UnsupportedStorageFormat),
        },
        ImageClass::Sampled { kind, multi } => Ok(
            ResourceKind::SampledTexture {
                dimension: view_dimension_of(dim, arrayed),
                sample_kind: sample_type_of(kind),
                multisampled: multi,
            },
        ),
        ImageClass::Depth { multi } => Ok(
            ResourceKind::Depth { dimension: view_dimension_of(dim, arrayed), multisampled: multi },
        ),
        ImageClass::External => Err(BindingError::ExternalImage),
    }
}

/// The resource kind of a buffer in the given address space, if buffers can
/// live there.
pub open spec fn buffer_kind(space: AddressSpace) -> Option<ResourceKind> {
    match space {
        AddressSpace::Uniform => Some(ResourceKind::UniformBuffer),
        AddressSpace::Storage { access } => Some(
            ResourceKind::StorageBuffer { read_only: !access.has(STORAGE_STORE) },
        ),
        _ => None,
    }
}

/// The resource kind of a global variable of type `ty` in address space
/// `space`.
pub open spec fn binding_kind(ty: TypeInner, space: AddressSpace) -> Result<
    ResourceKind,
    BindingError,
> {
    match ty {
        TypeInner::Struct => match buffer_kind(space) {
            Some(kind) => Ok(kind),
            None => Err(BindingError::NoBufferSpace),
        },
        TypeInner::Image { dim, arrayed, class } => image_kind(dim, arrayed, class),
        TypeInner::Sampler { comparison } => Ok(ResourceKind::Sampler { filtering: true }),
        TypeInner::Other => Err(BindingError::UnhandledType),
    }
}

/// Classifies an image by its dimension and class.
pub fn get_image_type(dim: ImageDimension, arrayed: bool, class: ImageClass) -> (kind: Result<
    ResourceKind,
    BindingError,
>)
    ensures
        kind == image_kind(dim, arrayed, class),
{
    let dimension = match (dim, arrayed) {
        (ImageDimension::D2, false) => TextureViewDimension::D2,
        (ImageDimension::D2, true) => TextureViewDimension::D2Array,
        (ImageDimension::Cube, false) => TextureViewDimension::Cube,
        (ImageDimension::Cube, true) => TextureViewDimension::CubeArray,
        (ImageDimension::D3, false) => TextureViewDimension::D3,
        _ => TextureViewDimension::D2,
    };

    match class {
        ImageClass::Storage { format, access } => {
            let format = match format {
                StorageFormat::R8Unorm => TextureFormat::R8Unorm,
                StorageFormat::Rgba8Unorm => TextureFormat::Rgba8Unorm,
                StorageFormat::Rgba8Snorm => TextureFormat::Rgba8Snorm,
                _ => {
                    return Err(BindingError::UnsupportedStorageFormat);
                },
            };
            let access = if access.contains(STORAGE_STORE | STORAGE_LOAD) {
                StorageTextureAccess::ReadWrite
            } else if access.contains(STORAGE_STORE) {
                StorageTextureAccess::WriteOnly
            } else {
                StorageTextureAccess::ReadOnly
            };
            Ok(ResourceKind::StorageTexture { access, format, dimension })
        },
        ImageClass::Sampled { kind, multi } => {
            let sample_kind = match kind {
                ScalarKind::Sint => TextureSampleType::Sint,
                ScalarKind::Uint => TextureSampleType::Uint,
                _ => TextureSampleType::Float,
            };
            Ok(ResourceKind::SampledTexture { dimension, sample_kind, multisampled: multi })
        },
        ImageClass::Depth { multi } => Ok(ResourceKind::Depth { dimension, multisampled: multi }),
        ImageClass::External => Err(BindingError::ExternalImage),
    }
}

/// Classifies a global variable by the shape `ty` of its type and by its
/// address space.
pub fn get_binding_type(ty: &TypeInner, global: &GlobalVariable) -> (kind: Result<
    ResourceKind,
    BindingError,
>)
    ensures
        kind == binding_kind(*ty, global.space),
{
    let buffer = match global.space {
        AddressSpace::Uniform => Some(ResourceKind::UniformBuffer),
        AddressSpace::Storage { access } => Some(
            ResourceKind::StorageBuffer { read_only: !access.contains(STORAGE_STORE) },
        ),
        _ => None,
    };

    match ty {
        TypeInner::Struct => match buffer {
            Some(kind) => Ok(kind),
            None => Err(BindingError::NoBufferSpace),
        },
        TypeInner::Image { dim, arrayed, class } => get_image_type(*dim, *arrayed, *class),
        TypeInner::Sampler { .. } => Ok(ResourceKind::Sampler { filtering: true }),
        TypeInner::Other => Err(BindingError::UnhandledType),
    }
}

/// A resource that a shader expects to find bound at `binding` of bind group
/// `group`.
#[derive(Clone, Copy, Debug, PartialEq, Eq, Structural)]
pub struct ShaderBindingInfo {
    pub group: u32,
    pub binding: u32,
    pub ty: ResourceKind,
}

impl ShaderBindingInfo {
    /// How `self` and `other` compare by location: by group first, by binding
    /// second. The resource kind plays no part.
    pub open spec fn location_order(self, other: Self) -> Ordering {
        if self.group < other.group || (self.group == other.group && self.binding < other.binding) {
            Ordering::Less
        } else if self.group == other.group && self.binding == other.binding {
            Ordering::Equal
        } else {
            Ordering::Greater
        }
    }

    /// Compares by group first, by binding second.
    pub fn cmp(&self, other: &Self) -> (order: Ordering)
        ensures
            order == self.location_order(*other),
    {
        if self.group < other.group {
            Ordering::Less
        } else if self.group > other.group {
            Ordering::Greater
        } else if self.binding < other.binding {
            Ordering::Less
        } else if self.binding > other.binding {
            Ordering::Greater
        } else {
            Ordering::Equal
        }
    }
}

impl PartialOrd for ShaderBindingInfo {
    fn partial_cmp(&self, other: &Self) -> (order: Option<Ordering>) {
        Some(self.cmp(other))
    }
}

impl PartialOrdSpecImpl for ShaderBindingInfo {
    open spec fn obeys_partial_cmp_spec() -> bool {
        true
    }

    open spec fn partial_cmp_spec(&self, other: &Self) -> Option<Ordering> {
        Some(self.location_order(*other))
    }
}

/// Whether `a` may stand before `b` in a list ordered by group first and by
/// binding second.
pub open spec fn location_le(a: ShaderBindingInfo, b: ShaderBindingInfo) -> bool {
    a.group < b.group || (a.group == b.group && a.binding <= b.binding)
}

/// Whether `bindings` is ordered by group first and by binding second.
pub open spec fn sorted_by_location(bindings: Seq<ShaderBindingInfo>) -> bool {
    forall|i: int, j: int| 0 <= i < j < bindings.len() ==> location_le(bindings[i], bindings[j])
}

/// The entries of `bindings` at the given location, in the order in which
/// `bindings` holds them.
pub open spec fn at_location(bindings: Seq<ShaderBindingInfo>, group: u32, binding: u32) -> Seq<
    ShaderBindingInfo,
> {
    bindings.filter(|b: ShaderBindingInfo| b.group == group && b.binding == binding)
}

/// Whether `sorted` holds the entries of `bindings` ordered by location, those
/// that share a location in the order in which `bindings` holds them.
pub open spec fn is_sorted_form_of(
    sorted: Seq<ShaderBindingInfo>,
    bindings: Seq<ShaderBindingInfo>,
) -> bool {
    &&& sorted_by_location(sorted)
    &&& sorted.to_multiset() == bindings.to_multiset()
    &&& forall|group: u32, binding: u32| #[trigger]
        at_location(sorted, group, binding) == at_location(bindings, group, binding)
}

/// Under a filter that keeps nothing from position `at` on, inserting at `at`
/// is the same as appending.
proof fn lemma_filter_insert<A>(s: Seq<A>, at: int, item: A, pred: spec_fn(A) -> bool)
    requires
        0 <= at <= s.len(),
        forall|j: int| at <= j < s.len() ==> !pred(#[trigger] s[j]),
    ensures
        s.insert(at, item).filter(pred) == s.push(item).filter(pred),
{
    let head = s.take(at);
    let tail = s.skip(at);
    let one = seq![item];
    assert(s.insert(at, item) =~= (head + one) + tail);
    assert(s.push(item) =~= (head + tail) + one);
    assert(tail.filter(pred) =~= Seq::<A>::empty()) by {
        assert(tail.all(|x: A| !pred(x)));
        tail.lemma_all_neg_filter_empty(pred);
    }
    Seq::filter_distributes_over_add(head + one, tail, pred);
    Seq::filter_distributes_over_add(head, one, pred);
    Seq::filter_distributes_over_add(head + tail, one, pred);
    Seq::filter_distributes_over_add(head, tail, pred);
    assert(s.insert(at, item).filter(pred) =~= s.push(item).filter(pred));
}

/// Whether `a` may stand before `b` in location order.
fn le_by_location(a: &ShaderBindingInfo, b: &ShaderBindingInfo) -> (le: bool)
    ensures
        le == location_le(*a, *b),
{
    a.group < b.group || (a.group == b.group && a.binding <= b.binding)
}

/// Orders `bindings` by group first and by binding second. Entries that share
/// a location keep their order.
pub fn sort_bindings(bindings: &mut Vec<ShaderBindingInfo>)
    ensures
        is_sorted_form_of(final(bindings)@, old(bindings)@),
{
    let mut sorted: Vec<ShaderBindingInfo> = Vec::new();
    let mut i: usize = 0;
    proof {
        assert(bindings@.take(0) =~= sorted@);
    }
    while i < bindings.len()
        invariant
            i <= bindings.len(),
            bindings@ == old(bindings)@,
            is_sorted_form_of(sorted@, bindings@.take(i as int)),
        decreases bindings.len() - i,
    {
        let item = bindings[i];
        let mut at: usize = sorted.len();
        while at > 0 && !le_by_location(&sorted[at - 1], &item)
            invariant
                at <= sorted.len(),
                forall|j: int| at <= j < sorted.len() ==> !location_le(#[trigger] sorted@[j], item),
            decreases at,
        {
            at -= 1;
        }
        proof {
            let before = sorted@;
            let seen = bindings@.take(i as int);
            let after = before.insert(at as int, item);
            assert(bindings@.take(i + 1) =~= seen.push(item));
            assert(sorted_by_location(after)) by {
                assert forall|a: int, b: int| 0 <= a < b < after.len() implies location_le(
                    after[a],
                    after[b],
                ) by {
                    if at > 0 {
                        assert(location_le(before[at - 1], item));
                    }
                    if a < at && b > at {
                        assert(location_le(before[a], before[b - 1]));
                    } else if a < at && b == at {
                        if a < at - 1 {
                            assert(location_le(before[a], before[at - 1]));
                        }
                    } else if a < at && b < at {
                        assert(location_le(before[a], before[b]));
                    } else if a == at {
                        assert(!location_le(before[b - 1], item));
                    } else {
                        assert(location_le(before[a - 1], before[b - 1]));
                    }
                }
            }
            assert(after.to_multiset() == seen.push(item).to_multiset()) by {
                vstd::seq_lib::to_multiset_insert(before, at as int, item);
                vstd::seq_lib::to_multiset_build(seen, item);
            }
            assert forall|group: u32, binding: u32| #[trigger]
                at_location(after, group, binding) == at_location(
                    seen.push(item),
                    group,
                    binding,
                ) by {
                let pred = |b: ShaderBindingInfo| b.group == group && b.binding == binding;
                assert(at_location(before, group, binding) == at_location(seen, group, binding));
                before.lemma_filter_push(item, pred);
                seen.lemma_filter_push(item, pred);
                if pred(item) {
                    lemma_filter_insert(before, at as int, item, pred);
                } else {
                    lemma_filter_insert_dropped(before, at as int, item, pred);
                }
            }
        }
        sorted.insert(at, item);
        i += 1;
    }
    proof {
        assert(bindings@.take(i as int) =~= bindings@);
    }
    *bindings = sorted;
}

/// Inserting an item that a filter drops does not change what the filter
/// keeps.
proof fn lemma_filter_insert_dropped<A>(s: Seq<A>, at: int, item: A, pred: spec_fn(A) -> bool)
    requires
        0 <= at <= s.len(),
        !pred(item),
    ensures
        s.insert(at, item).filter(pred) == s.filter(pred),
{
    let head = s.take(at);
    let tail = s.skip(at);
    let one = seq![item];
    assert(s.insert(at, item) =~= (head + one) + tail);
    assert(s =~= head + tail);
    assert(one.filter(pred) =~= Seq::<A>::empty()) by {
        assert(one.all(|x: A| !pred(x)));
        one.lemma_all_neg_filter_empty(pred);
    }
    Seq::filter_distributes_over_add(head + one, tail, pred);
    Seq::filter_distributes_over_add(head, one, pred);
    Seq::filter_distributes_over_add(head, tail, pred);
    assert(s.insert(at, item).filter(pred) =~= s.filter(pred));
}

/// Two lists in location order that hold the same entries, those of each
/// location in the same order, are one list.
proof fn lemma_same_order(a: Seq<ShaderBindingInfo>, b: Seq<ShaderBindingInfo>)
    requires
        sorted_by_location(a),
        sorted_by_location(b),
        a.to_multiset() == b.to_multiset(),
        forall|group: u32, binding: u32| #[trigger]
            at_location(a, group, binding) == at_location(b, group, binding),
    ensures
        a == b,
    decreases a.len(),
{
    a.to_multiset_ensures();
    b.to_multiset_ensures();
    if a.len() == 0 {
        assert(a =~= b);
    } else {
        let x = a.last();
        let y = b.last();
        let a0 = a.drop_last();
        let b0 = b.drop_last();
        assert(a =~= a0.push(x));
        assert(b =~= b0.push(y));
        // The last entries share their location: each occurs in the other list.
        assert(b.to_multiset().count(a[a.len() - 1]) > 0);
        assert(b.contains(x));
        let j = choose|j: int| 0 <= j < b.len() && b[j] == x;
        assert(location_le(x, y)) by {
            if j < b.len() - 1 {
                assert(location_le(b[j], b[b.len() - 1]));
            }
        }
        assert(a.to_multiset().count(b[b.len() - 1]) > 0);
        assert(a.contains(y));
        let i = choose|i: int| 0 <= i < a.len() && a[i] == y;
        assert(location_le(y, x)) by {
            if i < a.len() - 1 {
                assert(location_le(a[i], a[a.len() - 1]));
            }
        }
        // So they are the last entry at that location, in both lists.
        let here = |info: ShaderBindingInfo| info.group == x.group && info.binding == x.binding;
        a0.lemma_filter_push(x, here);
        b0.lemma_filter_push(y, here);
        assert(at_location(a, x.group, x.binding) == at_location(b, x.group, x.binding));
        assert(a0.filter(here).push(x).last() == b0.filter(here).push(y).last());
        assert(x == y);
        // Without them the lists still agree.
        vstd::seq_lib::to_multiset_build(a0, x);
        vstd::seq_lib::to_multiset_build(b0, y);
        assert(a0.to_multiset() =~= a.to_multiset().remove(x));
        assert(b0.to_multiset() =~= b.to_multiset().remove(x));
        assert forall|group: u32, binding: u32| #[trigger]
            at_location(a0, group, binding) == at_location(b0, group, binding) by {
            let there = |info: ShaderBindingInfo| info.group == group && info.binding == binding;
            a0.lemma_filter_push(x, there);
            b0.lemma_filter_push(x, there);
            assert(at_location(a, group, binding) == at_location(b, group, binding));
            if there(x) {
                assert(a0.filter(there) =~= a0.filter(there).push(x).drop_last());
                assert(b0.filter(there) =~= b0.filter(there).push(x).drop_last());
            }
        }
        assert(sorted_by_location(a0)) by {
            assert forall|i: int, j: int| 0 <= i < j < a0.len() implies location_le(a0[i], a0[j]) by {
                assert(location_le(a[i], a[j]));
            }
        }
        assert(sorted_by_location(b0)) by {
            assert forall|i: int, j: int| 0 <= i < j < b0.len() implies location_le(b0[i], b0[j]) by {
                assert(location_le(b[i], b[j]));
            }
        }
        lemma_same_order(a0, b0);
    }
}

/// The sorted form of a list of bindings is unique.
pub proof fn lemma_sorted_form_is_unique(
    first: Seq<ShaderBindingInfo>,
    second: Seq<ShaderBindingInfo>,
    bindings: Seq<ShaderBindingInfo>,
)
    requires
        is_sorted_form_of(first, bindings),
        is_sorted_form_of(second, bindings),
    ensures
        first == second,
{
    assert forall|group: u32, binding: u32| #[trigger]
        at_location(first, group, binding) == at_location(second, group, binding) by {
        assert(at_location(first, group, binding) == at_location(bindings, group, binding));
        assert(at_location(second, group, binding) == at_location(bindings, group, binding));
    }
    lemma_same_order(first, second);
}

/// What reflection makes of one global variable: nothing where the shader
/// gives it no location, else its binding or the reason why it has none.
pub open spec fn declared_binding(global: GlobalVariable) -> Option<
    Result<ShaderBindingInfo, BindingError>,
> {
    match global.binding {
        Some(at) => Some(
            match binding_kind(global.ty, global.space) {
                Ok(kind) => Ok(ShaderBindingInfo { group: at.group, binding: at.binding, ty: kind }),
                Err(error) => Err(error),
            },
        ),
        None => None,
    }
}

/// The binding that a global variable contributes to the reflected list, if
/// it contributes one.
pub open spec fn usable_binding(global: GlobalVariable) -> Option<ShaderBindingInfo> {
    match declared_binding(global) {
        Some(Ok(info)) => Some(info),
        _ => None,
    }
}

/// Whether a global variable makes the reflection of its shader fail.
pub open spec fn fails_reflection(global: GlobalVariable) -> bool {
    match declared_binding(global) {
        Some(Err(error)) => error.fatal(),
        _ => false,
    }
}

/// [`usable_binding`] as a function value.
pub open spec fn usable() -> spec_fn(GlobalVariable) -> Option<ShaderBindingInfo> {
    |global: GlobalVariable| usable_binding(global)
}

/// The bindings of the global variables that have a location and can be
/// classified, in the order of their declaration.
pub open spec fn declared_bindings(globals: Seq<GlobalVariable>) -> Seq<ShaderBindingInfo> {
    globals.filter_map(usable())
}

/// The global variable on which the reflection of a shader failed: the first
/// one, in the order of declaration, that is a storage image of an
/// unsupported texel format at a declared location.
#[derive(Clone, Copy, Debug, PartialEq, Eq, Structural)]
pub struct ReflectError {
    /// The position of the variable among the module's global variables.
    pub index: usize,
    /// The bind group of the variable.
    pub group: u32,
    /// The binding of the variable within its group.
    pub binding: u32,
}

/// A shader module together with the bindings that it declares, ordered by
/// group first and by binding second.
#[derive(Debug)]
pub struct Shader {
    module: Module,
    bindings: Vec<ShaderBindingInfo>,
}

impl Shader {
    #[verifier::type_invariant]
    spec fn ordered(&self) -> bool {
        sorted_by_location(self.bindings@)
    }

    /// The module that the shader was reflected from.
    pub closed spec fn source(&self) -> Module {
        self.module
    }

    /// The bindings that the shader declares.
    pub closed spec fn declared(&self) -> Seq<ShaderBindingInfo> {
        self.bindings@
    }

    /// The bindings that the shader declares, ordered by group first and by
    /// binding second.
    pub fn bindings(&self) -> (bindings: &Vec<ShaderBindingInfo>)
        ensures
            bindings@ == self.declared(),
            sorted_by_location(bindings@),
    {
        proof {
            use_type_invariant(self);
        }
        &self.bindings
    }

    /// The module that the shader was reflected from.
    pub fn module(&self) -> (module: &Module)
        ensures
            *module == self.source(),
    {
        &self.module
    }

    /// Reflects `module`.
    ///
    /// Every global variable with a location is classified. Variables that
    /// cannot be classified are left out. A storage image of an unsupported
    /// texel format makes the whole reflection fail, with the first such
    /// variable as the error. On success the bindings are ordered by
    /// location, and bindings that share a location keep the order of their
    /// declaration.
    pub fn new(module: Module) -> (reflected: Result<Shader, ReflectError>)
        ensures
            match reflected {
                Ok(shader) => {
                    &&& shader.source() == module
                    &&& forall|i: int|
                        0 <= i < module.global_variables@.len() ==> !fails_reflection(
                            #[trigger] module.global_variables@[i],
                        )
                    &&& is_sorted_form_of(
                        shader.declared(),
                        declared_bindings(module.global_variables@),
                    )
                },
                Err(error) => {
                    &&& error.index < module.global_variables@.len()
                    &&& fails_reflection(module.global_variables@[error.index as int])
                    &&& forall|i: int|
                        0 <= i < error.index ==> !fails_reflection(
                            #[trigger] module.global_variables@[i],
                        )
                    &&& module.global_variables@[error.index as int].binding == Some(
                        ResourceBinding { group: error.group, binding: error.binding },
                    )
                },
            },
    {
        let mut bindings: Vec<ShaderBindingInfo> = Vec::new();
        let mut i: usize = 0;
        while i < module.global_variables.len()
            invariant
                i <= module.global_variables@.len(),
                bindings@ == declared_bindings(module.global_variables@.take(i as int)),
                forall|j: int|
                    0 <= j < i ==> !fails_reflection(#[trigger] module.global_variables@[j]),
            decreases module.global_variables@.len() - i,
        {
            let global = &module.global_variables[i];
            proof {
                module.global_variables@.lemma_filter_map_take_succ(usable(), i as int);
            }
            if let Some(at) = global.binding {
                match get_binding_type(&global.ty, global) {
                    Ok(kind) => {
                        bindings.push(
                            ShaderBindingInfo { group: at.group, binding: at.binding, ty: kind },
                        );
                    },
                    Err(error) => {
                        if error.is_fatal() {
                            return Err(
                                ReflectError { index: i, group: at.group, binding: at.binding },
                            );
                        }
                    },
                }
            }
            i += 1;
        }
        proof {
            assert(module.global_variables@.take(i as int) =~= module.global_variables@);
        }
        sort_bindings(&mut bindings);
        Ok(Shader { module, bindings })
    }
}

} // verus!
