//! Assembly of the boot information block: the root structure the kernel
//! is handed, with every pointer in the kernel's address domain.

use vstd::prelude::*;

use crate::addr::direct_mappable;
use crate::addr::lemma_translation_round_trip;
use crate::addr::phys_to_kern_slice_ref;
use crate::addr::KernelAddress;
use crate::addr::KernelSlice;
use crate::fb::FrameBufferInfo;
use crate::mem::is_claimed;
use crate::mem::MemoryEntry;
use crate::mem::MemoryManager;

verus! {

/// A run of physical memory that holds something the kernel will read.
#[derive(Clone, Copy, Debug, PartialEq, Eq, Structural)]
pub struct Region {
    pub base: u64,
    pub length: u64,
}

/// Settings that shape how the kernel reads the rest of the block.
#[derive(Clone, Copy, Debug, PartialEq, Eq, Structural)]
pub struct SpecialisedSettings {
    pub verbose: bool,
}

/// Name and contents of a loaded module.
#[derive(Clone, Copy, Debug, PartialEq, Eq, Structural)]
pub struct ModuleInner {
    pub name: KernelSlice,
    pub data: KernelSlice,
}

/// A loaded module, by kind.
#[derive(Clone, Copy, Debug, PartialEq, Eq, Structural)]
pub enum Module {
    Audio(ModuleInner),
}

/// One record of auxiliary boot data.
#[derive(Clone, Copy, Debug, PartialEq, Eq, Structural)]
pub enum Tag {
    CommandLine(KernelSlice),
    FrameBuffer(FrameBufferInfo),
    Acpi(KernelAddress),
    MemoryMap(KernelSlice),
    SpecialisedSettings(SpecialisedSettings),
    Module(Module),
}

/// Where a module's name and contents lie in physical memory.
#[derive(Clone, Copy, Debug, PartialEq, Eq, Structural)]
pub struct ModuleSource {
    pub name: Region,
    pub data: Region,
}

/// The pointer of the block that an error speaks of.
#[derive(Clone, Copy, Debug, PartialEq, Eq, Structural)]
pub enum PointerField {
    KernelImage,
    MemoryMap,
    FrameBuffer,
    Acpi,
    ModuleName,
    ModuleData,
}

/// Why no block was assembled.
#[derive(Clone, Copy, Debug, PartialEq, Eq, Structural)]
pub enum BootInfoError {
    /// The pointer would lead outside every claimed region.
    Unclaimed(PointerField),
    /// The pointed-to memory has no image in the direct map.
    NotMappable(PointerField),
}

/// What the block is assembled from.
#[derive(Debug)]
pub struct BootSources {
    /// Where the raw bytes of the kernel image lie, if they are passed on.
    pub image: Option<Region>,
    pub settings: SpecialisedSettings,
    pub frame_buffer: Option<FrameBufferInfo>,
    pub rsdp: Option<KernelAddress>,
    /// Where the array of classified entries lies.
    pub memory_map_at: Region,
    /// The classified memory map.
    pub memory_map: Vec<MemoryEntry>,
    pub modules: Vec<ModuleSource>,
}

/// Mathematical model of `BootSources`.
pub ghost struct BootSourcesView {
    pub image: Option<Region>,
    pub settings: SpecialisedSettings,
    pub frame_buffer: Option<FrameBufferInfo>,
    pub rsdp: Option<KernelAddress>,
    pub memory_map_at: Region,
    pub memory_map: Seq<MemoryEntry>,
    pub modules: Seq<ModuleSource>,
}

impl View for BootSources {
    type V = BootSourcesView;

    open spec fn view(&self) -> BootSourcesView {
        BootSourcesView {
            image: self.image,
            settings: self.settings,
            frame_buffer: self.frame_buffer,
            rsdp: self.rsdp,
            memory_map_at: self.memory_map_at,
            memory_map: self.memory_map@,
            modules: self.modules@,
        }
    }
}

/// The boot information block.
#[derive(Debug)]
pub struct BootInfo {
    pub kernel_image: Option<KernelSlice>,
    pub settings: SpecialisedSettings,
    pub frame_buffer: Option<FrameBufferInfo>,
    pub acpi: Option<KernelAddress>,
    /// Where the kernel finds the array of classified entries, and how many
    /// there are.
    pub memory_map_at: KernelSlice,
    pub memory_map: Vec<MemoryEntry>,
    pub tags: Vec<Tag>,
    pub modules: Vec<Module>,
}

/// Mathematical model of `BootInfo`.
pub ghost struct BootInfoView {
    pub kernel_image: Option<KernelSlice>,
    pub settings: SpecialisedSettings,
    pub frame_buffer: Option<FrameBufferInfo>,
    pub acpi: Option<KernelAddress>,
    pub memory_map_at: KernelSlice,
    pub memory_map: Seq<MemoryEntry>,
    pub tags: Seq<Tag>,
    pub modules: Seq<Module>,
}

impl View for BootInfo {
    type V = BootInfoView;

    open spec fn view(&self) -> BootInfoView {
        BootInfoView {
            kernel_image: self.kernel_image,
            settings: self.settings,
            frame_buffer: self.frame_buffer,
            acpi: self.acpi,
            memory_map_at: self.memory_map_at,
            memory_map: self.memory_map@,
            tags: self.tags@,
            modules: self.modules@,
        }
    }
}

/// Why a region cannot be pointed to, if it cannot: it must lie inside a
/// claimed region, and all of it must have an image in the direct map.
pub open spec fn region_error(claims: Seq<(usize, usize)>, region: Region, field: PointerField) -> Option<
    BootInfoError,
> {
    if !is_claimed(claims, region.base as int, region.length as int) {
        Some(BootInfoError::Unclaimed(field))
    } else if region.base + region.length > 0x8000_0000_0000 || !direct_mappable(region.base) {
        Some(BootInfoError::NotMappable(field))
    } else {
        None
    }
}

/// The slice in the kernel's domain that covers `count` elements at the
/// start of a region.
pub open spec fn slice_at(region: Region, count: u64) -> KernelSlice {
    KernelSlice { base: KernelAddress::of_phys(region.base), len: count }
}

/// The module descriptor for a module source.
pub open spec fn module_of(source: ModuleSource) -> Module {
    Module::Audio(
        ModuleInner {
            name: slice_at(source.name, source.name.length),
            data: slice_at(source.data, source.data.length),
        },
    )
}

/// The first reason not to describe a module, if there is one.
pub open spec fn module_error(claims: Seq<(usize, usize)>, source: ModuleSource) -> Option<
    BootInfoError,
> {
    match region_error(claims, source.name, PointerField::ModuleName) {
        Some(e) => Some(e),
        None => region_error(claims, source.data, PointerField::ModuleData),
    }
}

/// The module descriptors, in the order of the sources, or the error of the
/// first source that has one.
pub open spec fn modules_of(claims: Seq<(usize, usize)>, sources: Seq<ModuleSource>) -> Result<
    Seq<Module>,
    BootInfoError,
>
    decreases sources.len(),
{
    if sources.len() == 0 {
        Ok(Seq::empty())
    } else {
        match modules_of(claims, sources.drop_last()) {
            Err(e) => Err(e),
            Ok(done) => match module_error(claims, sources.last()) {
                Some(e) => Err(e),
                None => Ok(done.push(module_of(sources.last()))),
            },
        }
    }
}

/// The tag list: settings first, then the memory map, the framebuffer, the
/// ACPI pointer, and the modules in their order.
pub open spec fn tags_of(
    settings: SpecialisedSettings,
    memory_map_at: KernelSlice,
    frame_buffer: Option<FrameBufferInfo>,
    acpi: Option<KernelAddress>,
    modules: Seq<Module>,
) -> Seq<Tag> {
    seq![Tag::SpecialisedSettings(settings), Tag::MemoryMap(memory_map_at)] + (match frame_buffer {
        Some(fb) => seq![Tag::FrameBuffer(fb)],
        None => Seq::<Tag>::empty(),
    }) + (match acpi {
        Some(rsdp) => seq![Tag::Acpi(rsdp)],
        None => Seq::<Tag>::empty(),
    }) + Seq::new(modules.len(), |i: int| Tag::Module(modules[i]))
}

/// The first reason not to assemble the block, up to the modules.
pub open spec fn fixed_error(claims: Seq<(usize, usize)>, sources: BootSourcesView) -> Option<
    BootInfoError,
> {
    if sources.image is Some && region_error(
        claims,
        sources.image->Some_0,
        PointerField::KernelImage,
    ) is Some {
        region_error(claims, sources.image->Some_0, PointerField::KernelImage)
    } else if region_error(claims, sources.memory_map_at, PointerField::MemoryMap) is Some {
        region_error(claims, sources.memory_map_at, PointerField::MemoryMap)
    } else if sources.frame_buffer is Some && !is_claimed(
        claims,
        sources.frame_buffer->Some_0.base.phys(),
        0,
    ) {
        Some(BootInfoError::Unclaimed(PointerField::FrameBuffer))
    } else if sources.rsdp is Some && !is_claimed(claims, sources.rsdp->Some_0.phys(), 0) {
        Some(BootInfoError::Unclaimed(PointerField::Acpi))
    } else {
        None
    }
}

/// The block that is assembled from the sources, or why there is none.
pub open spec fn assemble_spec(claims: Seq<(usize, usize)>, sources: BootSourcesView) -> Result<
    BootInfoView,
    BootInfoError,
> {
    match fixed_error(claims, sources) {
        Some(e) => Err(e),
        None => match modules_of(claims, sources.modules) {
            Err(e) => Err(e),
            Ok(modules) => {
                let memory_map_at = slice_at(sources.memory_map_at, sources.memory_map.len() as u64);
                Ok(
                    BootInfoView {
                        kernel_image: match sources.image {
                            Some(region) => Some(slice_at(region, region.length)),
                            None => None,
                        },
                        settings: sources.settings,
                        frame_buffer: sources.frame_buffer,
                        acpi: sources.rsdp,
                        memory_map_at: memory_map_at,
                        memory_map: sources.memory_map,
                        tags: tags_of(
                            sources.settings,
                            memory_map_at,
                            sources.frame_buffer,
                            sources.rsdp,
                            modules,
                        ),
                        modules: modules,
                    },
                )
            },
        },
    }
}

/// Whether a pointer, taken back to the physical domain, lies inside a
/// claimed region.
pub open spec fn pointer_claimed(claims: Seq<(usize, usize)>, pointer: KernelAddress) -> bool {
    is_claimed(claims, pointer.phys(), 0)
}

/// Whether every pointer of a module lies inside a claimed region.
pub open spec fn module_claimed(claims: Seq<(usize, usize)>, module: Module) -> bool {
    match module {
        Module::Audio(inner) => pointer_claimed(claims, inner.name.base) && pointer_claimed(
            claims,
            inner.data.base,
        ),
    }
}

/// Whether every pointer of a tag lies inside a claimed region.
pub open spec fn tag_claimed(claims: Seq<(usize, usize)>, tag: Tag) -> bool {
    match tag {
        Tag::CommandLine(line) => pointer_claimed(claims, line.base),
        Tag::FrameBuffer(fb) => pointer_claimed(claims, fb.base),
        Tag::Acpi(rsdp) => pointer_claimed(claims, rsdp),
        Tag::MemoryMap(map) => pointer_claimed(claims, map.base),
        Tag::SpecialisedSettings(_) => true,
        Tag::Module(module) => module_claimed(claims, module),
    }
}

/// Whether every pointer of the block lies inside a claimed region.
pub open spec fn pointers_claimed(claims: Seq<(usize, usize)>, info: BootInfoView) -> bool {
    &&& info.kernel_image matches Some(image) ==> pointer_claimed(claims, image.base)
    &&& info.frame_buffer matches Some(fb) ==> pointer_claimed(claims, fb.base)
    &&& info.acpi matches Some(rsdp) ==> pointer_claimed(claims, rsdp)
    &&& pointer_claimed(claims, info.memory_map_at.base)
    &&& forall|i: int| 0 <= i < info.modules.len() ==> module_claimed(claims, #[trigger] info.modules[i])
    &&& forall|i: int| 0 <= i < info.tags.len() ==> tag_claimed(claims, #[trigger] info.tags[i])
}

/// The model of an assembly result.
pub open spec fn assembled_view(r: Result<BootInfo, BootInfoError>) -> Result<
    BootInfoView,
    BootInfoError,
> {
    match r {
        Ok(info) => Ok(info@),
        Err(e) => Err(e),
    }
}

/// Every module behind a successful `modules_of` has its pointers inside
/// claimed regions, and there is one for each source.
pub proof fn lemma_modules_claimed(claims: Seq<(usize, usize)>, sources: Seq<ModuleSource>)
    requires
        modules_of(claims, sources) is Ok,
    ensures
        modules_of(claims, sources)->Ok_0.len() == sources.len(),
        forall|i: int|
            0 <= i < sources.len() ==> module_claimed(
                claims,
                #[trigger] modules_of(claims, sources)->Ok_0[i],
            ),
    decreases sources.len(),
{
    if sources.len() > 0 {
        lemma_modules_claimed(claims, sources.drop_last());
        let last = sources.last();
        lemma_region_claimed(claims, last.name, PointerField::ModuleName, last.name.length);
        lemma_region_claimed(claims, last.data, PointerField::ModuleData, last.data.length);
    }
}

/// A region without a `region_error` gives a pointer inside a claimed
/// region, whose physical address is the base of the region.
pub proof fn lemma_region_claimed(
    claims: Seq<(usize, usize)>,
    region: Region,
    field: PointerField,
    count: u64,
)
    requires
        region_error(claims, region, field) is None,
    ensures
        slice_at(region, count).base.phys() == region.base,
        pointer_claimed(claims, slice_at(region, count).base),
{
    lemma_translation_round_trip(region.base);
    let i = choose|i: int|
        0 <= i < claims.len() && crate::mem::claim_holds(
            #[trigger] claims[i],
            region.base as int,
            region.length as int,
        );
    assert(crate::mem::claim_holds(claims[i], region.base as int, 0));
}

/// Every pointer of an assembled block, taken back to the physical domain
/// by subtracting the direct-map offset, lies inside a claimed region.
pub proof fn lemma_assembled_pointers_claimed(claims: Seq<(usize, usize)>, sources: BootSourcesView)
    requires
        assemble_spec(claims, sources) is Ok,
    ensures
        pointers_claimed(claims, assemble_spec(claims, sources)->Ok_0),
{
    let info = assemble_spec(claims, sources)->Ok_0;
    let modules = modules_of(claims, sources.modules)->Ok_0;
    lemma_modules_claimed(claims, sources.modules);
    lemma_region_claimed(
        claims,
        sources.memory_map_at,
        PointerField::MemoryMap,
        sources.memory_map.len() as u64,
    );
    if let Some(region) = sources.image {
        lemma_region_claimed(claims, region, PointerField::KernelImage, region.length);
    }
    assert forall|i: int| 0 <= i < info.tags.len() implies tag_claimed(
        claims,
        #[trigger] info.tags[i],
    ) by {
        lemma_tags_shape(
            sources.settings,
            info.memory_map_at,
            sources.frame_buffer,
            sources.rsdp,
            modules,
        );
        let fixed = info.tags.len() - modules.len();
        if i >= fixed {
            assert(info.tags[i] == Tag::Module(modules[i - fixed]));
        }
    }
}

/// The shape of the tag list: the settings come first and the memory map
/// second, the framebuffer and the ACPI pointer follow where there are
/// any, and the modules come last, in their order.
pub proof fn lemma_tags_shape(
    settings: SpecialisedSettings,
    memory_map_at: KernelSlice,
    frame_buffer: Option<FrameBufferInfo>,
    acpi: Option<KernelAddress>,
    modules: Seq<Module>,
)
    ensures
        ({
            let tags = tags_of(settings, memory_map_at, frame_buffer, acpi, modules);
            let fb = if frame_buffer is Some {
                1int
            } else {
                0int
            };
            let rsdp = if acpi is Some {
                1int
            } else {
                0int
            };
            &&& tags.len() == 2 + fb + rsdp + modules.len()
            &&& tags[0] == Tag::SpecialisedSettings(settings)
            &&& tags[1] == Tag::MemoryMap(memory_map_at)
            &&& frame_buffer matches Some(f) ==> tags[2] == Tag::FrameBuffer(f)
            &&& acpi matches Some(a) ==> tags[2 + fb] == Tag::Acpi(a)
            &&& forall|i: int|
                0 <= i < modules.len() ==> tags[2 + fb + rsdp + i] == Tag::Module(
                    #[trigger] modules[i],
                )
            &&& forall|i: int| 0 <= i < tags.len() && i != 1 ==> !(#[trigger] tags[i] is MemoryMap)
        }),
{
}

/// Checks a region and moves it into the kernel's domain.
fn place(mem_mgr: &MemoryManager, region: &Region, field: PointerField, count: u64) -> (r: Result<
    KernelSlice,
    BootInfoError,
>)
    ensures
        r == match region_error(mem_mgr@, *region, field) {
            Some(e) => Err::<KernelSlice, BootInfoError>(e),
            None => Ok(slice_at(*region, count)),
        },
{
    if !mem_mgr.holds(region.base, region.length) {
        return Err(BootInfoError::Unclaimed(field));
    }
    if region.base as u128 + region.length as u128 > 0x8000_0000_0000 {
        return Err(BootInfoError::NotMappable(field));
    }
    match phys_to_kern_slice_ref(region.base, count) {
        Some(slice) => Ok(slice),
        None => Err(BootInfoError::NotMappable(field)),
    }
}

/// Describes the modules, in their order.
fn describe_modules(mem_mgr: &MemoryManager, sources: &Vec<ModuleSource>) -> (r: Result<
    Vec<Module>,
    BootInfoError,
>)
    ensures
        match r {
            Ok(modules) => modules_of(mem_mgr@, sources@) == Ok::<Seq<Module>, BootInfoError>(
                modules@,
            ),
            Err(e) => modules_of(mem_mgr@, sources@) == Err::<Seq<Module>, BootInfoError>(e),
        },
{
    let mut modules: Vec<Module> = Vec::new();
    let mut i: usize = 0;
    while i < sources.len()
        invariant
            i <= sources@.len(),
            modules_of(mem_mgr@, sources@.subrange(0, i as int)) == Ok::<
                Seq<Module>,
                BootInfoError,
            >(modules@),
        decreases sources@.len() - i,
    {
        let source = sources[i];
        proof {
            let prefix = sources@.subrange(0, i + 1);
            assert(prefix.drop_last() =~= sources@.subrange(0, i as int));
            assert(prefix.last() == source);
        }
        let name = match place(mem_mgr, &source.name, PointerField::ModuleName, source.name.length) {
            Ok(name) => name,
            Err(e) => {
                proof {
                    lemma_modules_error_stays(mem_mgr@, sources@, i + 1);
                }
                return Err(e);
            },
        };
        let data = match place(mem_mgr, &source.data, PointerField::ModuleData, source.data.length) {
            Ok(data) => data,
            Err(e) => {
                proof {
                    lemma_modules_error_stays(mem_mgr@, sources@, i + 1);
                }
                return Err(e);
            },
        };
        modules.push(Module::Audio(ModuleInner { name, data }));
        i += 1;
    }
    assert(sources@.subrange(0, i as int) =~= sources@);
    Ok(modules)
}

/// An error among the first `n` modules is the error of the whole list.
proof fn lemma_modules_error_stays(claims: Seq<(usize, usize)>, sources: Seq<ModuleSource>, n: int)
    requires
        0 <= n <= sources.len(),
        modules_of(claims, sources.subrange(0, n)) is Err,
    ensures
        modules_of(claims, sources) == modules_of(claims, sources.subrange(0, n)),
    decreases sources.len() - n,
{
    if n < sources.len() {
        let longer = sources.subrange(0, n + 1);
        assert(longer.drop_last() =~= sources.subrange(0, n));
        lemma_modules_error_stays(claims, sources, n + 1);
    } else {
        assert(sources.subrange(0, n) =~= sources);
    }
}

/// Assembles the boot information block. The regions are given by their
/// physical addresses and come out as slices in the kernel's domain; the
/// bytes stay where they are. Nothing is assembled unless every pointer of
/// the block leads into a claimed region.
pub fn assemble(mem_mgr: &MemoryManager, sources: BootSources) -> (r: Result<
    BootInfo,
    BootInfoError,
>)
    ensures
        assembled_view(r) == assemble_spec(mem_mgr@, sources@),
        r matches Ok(info) ==> pointers_claimed(mem_mgr@, info@),
{
    proof {
        if assemble_spec(mem_mgr@, sources@) is Ok {
            lemma_assembled_pointers_claimed(mem_mgr@, sources@);
        }
    }
    let kernel_image = match sources.image {
        Some(region) => match place(mem_mgr, &region, PointerField::KernelImage, region.length) {
            Ok(slice) => Some(slice),
            Err(e) => {
                return Err(e);
            },
        },
        None => None,
    };
    let count = sources.memory_map.len() as u64;
    let memory_map_at = match place(
        mem_mgr,
        &sources.memory_map_at,
        PointerField::MemoryMap,
        count,
    ) {
        Ok(slice) => slice,
        Err(e) => {
            return Err(e);
        },
    };
    if let Some(fb) = sources.frame_buffer {
        if !mem_mgr.holds(fb.base.to_phys(), 0) {
            return Err(BootInfoError::Unclaimed(PointerField::FrameBuffer));
        }
    }
    if let Some(rsdp) = sources.rsdp {
        if !mem_mgr.holds(rsdp.to_phys(), 0) {
            return Err(BootInfoError::Unclaimed(PointerField::Acpi));
        }
    }
    let modules = match describe_modules(mem_mgr, &sources.modules) {
        Ok(modules) => modules,
        Err(e) => {
            return Err(e);
        },
    };
    let mut tags: Vec<Tag> = Vec::new();
    tags.push(Tag::SpecialisedSettings(sources.settings));
    tags.push(Tag::MemoryMap(memory_map_at));
    if let Some(fb) = sources.frame_buffer {
        tags.push(Tag::FrameBuffer(fb));
    }
    if let Some(rsdp) = sources.rsdp {
        tags.push(Tag::Acpi(rsdp));
    }
    let ghost fixed = tags@;
    let mut i: usize = 0;
    while i < modules.len()
        invariant
            i <= modules@.len(),
            tags@ == fixed + Seq::new(i as nat, |k: int| Tag::Module(modules@[k])),
        decreases modules@.len() - i,
    {
        tags.push(Tag::Module(modules[i]));
        assert(tags@ =~= fixed + Seq::new((i + 1) as nat, |k: int| Tag::Module(modules@[k])));
        i += 1;
    }
    assert(tags@ =~= tags_of(
        sources.settings,
        memory_map_at,
        sources.frame_buffer,
        sources.rsdp,
        modules@,
    ));
    Ok(
        BootInfo {
            kernel_image,
            settings: sources.settings,
            frame_buffer: sources.frame_buffer,
            acpi: sources.rsdp,
            memory_map_at,
            memory_map: sources.memory_map,
            tags,
            modules,
        },
    )
}

} // verus!
