//! The last steps before the kernel runs: the kernel stack, the buffer for
//! the final memory map, and the one-way transition out of the firmware's
//! boot services.

use vstd::prelude::*;

use crate::addr::direct_mappable;
use crate::addr::phys_to_kern_ref;
use crate::addr::KernelAddress;
use crate::addr::KERNEL_VIRT_OFFSET;
use crate::mem::is_claimed;
use crate::mem::MemoryManager;

verus! {

/// Size of the kernel stack in bytes.
pub const STACK_SIZE: u64 = 0x14000;

/// Size of the kernel's window in bytes: what is mapped at the kernel's
/// virtual base.
pub const KERNEL_WINDOW_SIZE: u64 = 0x8000_0000;

/// Whether the firmware's boot services can still be called.
#[derive(Clone, Copy, Debug, PartialEq, Eq, Structural)]
pub enum HandoffState {
    ServicesActive,
    ServicesExited,
}

/// What the firmware answered.
#[derive(Clone, Copy, Debug, PartialEq, Eq, Structural)]
pub enum FirmwareReply {
    /// The memory map needs `map_size` bytes, in records of `entry_size`.
    /// This is the answer to the first query and to an exit request whose
    /// buffer was too small.
    MapSizes { map_size: usize, entry_size: usize },
    /// The boot services are gone.
    Exited,
}

/// Everything the jump into the kernel needs.
#[derive(Clone, Copy, Debug, PartialEq, Eq, Structural)]
pub struct JumpPlan {
    /// Address of the kernel's entry point.
    pub entry: u64,
    /// Value of the stack pointer at the jump.
    pub stack_pointer: u64,
    /// The kernel's one argument: where the boot information block lies.
    pub boot_info: KernelAddress,
}

/// What to do next.
#[derive(Clone, Copy, Debug, PartialEq, Eq, Structural)]
pub enum HandoffAction {
    /// Ask the firmware to exit, with a memory map buffer of this size.
    ExitBootServices { buffer_size: usize },
    /// Turn interrupts off, load the stack pointer and call the entry
    /// point. This does not return.
    Jump(JumpPlan),
    /// Nothing can be done: stop.
    Halt,
}

/// Why there is no kernel stack.
#[derive(Clone, Copy, Debug, PartialEq, Eq, Structural)]
pub enum StackError {
    /// The stack has no bytes.
    Empty,
    /// The stack does not lie inside the kernel's window, or reaches its
    /// very end, where the stack pointer would wrap to zero.
    OutsideWindow,
}

/// Size of the buffer for a memory map of `map_size` bytes: room for two
/// records more, since asking for the map can itself add to it.
pub open spec fn buffer_size_for(map_size: usize, entry_size: usize) -> int {
    map_size + 2 * entry_size
}

/// The step of the controller. Out of `ServicesExited` there is no way.
pub open spec fn step_spec(state: HandoffState, reply: FirmwareReply, plan: JumpPlan) -> (
    HandoffState,
    HandoffAction,
) {
    match state {
        HandoffState::ServicesExited => (HandoffState::ServicesExited, HandoffAction::Halt),
        HandoffState::ServicesActive => match reply {
            FirmwareReply::Exited => (HandoffState::ServicesExited, HandoffAction::Jump(plan)),
            FirmwareReply::MapSizes { map_size, entry_size } => if buffer_size_for(
                map_size,
                entry_size,
            ) <= usize::MAX {
                (
                    HandoffState::ServicesActive,
                    HandoffAction::ExitBootServices {
                        buffer_size: buffer_size_for(map_size, entry_size) as usize,
                    },
                )
            } else {
                (HandoffState::ServicesActive, HandoffAction::Halt)
            },
        },
    }
}

/// Size of the buffer to hand to the exit request, if it can be had.
pub fn memory_map_buffer_size(map_size: usize, entry_size: usize) -> (r: Option<usize>)
    ensures
        r == (if buffer_size_for(map_size, entry_size) <= usize::MAX {
            Some(buffer_size_for(map_size, entry_size) as usize)
        } else {
            None
        }),
{
    if entry_size > (usize::MAX - map_size) / 2 {
        None
    } else {
        Some(map_size + 2 * entry_size)
    }
}

/// Number of records that a buffer of `buffer_size` bytes can hold: the
/// room to set aside for the classified map before the exit request, since
/// nothing can be allocated after it.
pub fn memory_map_capacity(buffer_size: usize, entry_size: usize) -> (r: usize)
    ensures
        entry_size == 0 ==> r == 0,
        entry_size > 0 ==> r == buffer_size as int / entry_size as int,
{
    if entry_size == 0 {
        0
    } else {
        buffer_size / entry_size
    }
}

/// Takes one step of the handoff: from the state and the firmware's answer
/// to the next state and what to do.
pub fn step(state: HandoffState, reply: FirmwareReply, plan: JumpPlan) -> (r: (
    HandoffState,
    HandoffAction,
))
    ensures
        r == step_spec(state, reply, plan),
{
    match state {
        HandoffState::ServicesExited => (HandoffState::ServicesExited, HandoffAction::Halt),
        HandoffState::ServicesActive => match reply {
            FirmwareReply::Exited => (HandoffState::ServicesExited, HandoffAction::Jump(plan)),
            FirmwareReply::MapSizes { map_size, entry_size } => match memory_map_buffer_size(
                map_size,
                entry_size,
            ) {
                Some(buffer_size) => (
                    HandoffState::ServicesActive,
                    HandoffAction::ExitBootServices { buffer_size },
                ),
                None => (HandoffState::ServicesActive, HandoffAction::Halt),
            },
        },
    }
}

/// The exit is final: no answer leads from `ServicesExited` back to
/// `ServicesActive`, and nothing is asked of the firmware after it. The
/// jump is planned in the step that leaves `ServicesActive`, and in no
/// other.
pub proof fn lemma_exit_is_final(state: HandoffState, reply: FirmwareReply, plan: JumpPlan)
    ensures
        state == HandoffState::ServicesExited ==> step_spec(state, reply, plan) == (
            HandoffState::ServicesExited,
            HandoffAction::Halt,
        ),
        step_spec(state, reply, plan).1 is Jump <==> (state == HandoffState::ServicesActive
            && step_spec(state, reply, plan).0 == HandoffState::ServicesExited),
        step_spec(state, reply, plan).1 is Jump ==> step_spec(state, reply, plan).1
            == HandoffAction::Jump(plan),
{
}

/// The stack pointer for a stack of `size` bytes at physical address
/// `base`: the top of the stack, seen through the kernel's window.
pub open spec fn stack_top(base: u64, size: u64) -> Result<u64, StackError> {
    if size == 0 {
        Err(StackError::Empty)
    } else if base + size >= KERNEL_WINDOW_SIZE {
        Err(StackError::OutsideWindow)
    } else {
        Ok((base + size + KERNEL_VIRT_OFFSET) as u64)
    }
}

/// Claims the kernel stack and gives the stack pointer to enter the kernel
/// with. On an error nothing is claimed.
pub fn kernel_stack(mem_mgr: &mut MemoryManager, base: u64, size: u64) -> (r: Result<
    u64,
    StackError,
>)
    ensures
        r == stack_top(base, size),
        match r {
            Ok(_) => final(mem_mgr)@ == old(mem_mgr)@.push((base as usize, size as usize)),
            Err(_) => final(mem_mgr)@ == old(mem_mgr)@,
        },
        r matches Ok(top) ==> top - size - KERNEL_VIRT_OFFSET == base,
{
    if size == 0 {
        return Err(StackError::Empty);
    }
    if base >= KERNEL_WINDOW_SIZE || size >= KERNEL_WINDOW_SIZE - base {
        return Err(StackError::OutsideWindow);
    }
    mem_mgr.allocate((base as usize, size as usize));
    Ok(base + size + KERNEL_VIRT_OFFSET)
}

/// Why there is no plan for the jump.
#[derive(Clone, Copy, Debug, PartialEq, Eq, Structural)]
pub enum JumpError {
    /// The entry point lies below the higher-half split.
    EntryNotHigherHalf,
    /// The boot information block does not lie inside a claimed region.
    BlockUnclaimed,
    /// The boot information block has no image in the direct map.
    BlockNotMappable,
}

/// The plan for the jump, or why there is none. The kernel is handed the
/// direct-map address of the block that lies in the `size` bytes at the
/// physical address `block`.
pub open spec fn jump_plan(
    claims: Seq<(usize, usize)>,
    entry: u64,
    stack_pointer: u64,
    block: u64,
    size: u64,
) -> Result<JumpPlan, JumpError> {
    if entry < KERNEL_VIRT_OFFSET {
        Err(JumpError::EntryNotHigherHalf)
    } else if !is_claimed(claims, block as int, size as int) {
        Err(JumpError::BlockUnclaimed)
    } else if !direct_mappable(block) {
        Err(JumpError::BlockNotMappable)
    } else {
        Ok(JumpPlan { entry, stack_pointer, boot_info: KernelAddress::of_phys(block) })
    }
}

/// Plans the jump into the kernel.
pub fn plan_jump(
    mem_mgr: &MemoryManager,
    entry: u64,
    stack_pointer: u64,
    block: u64,
    size: u64,
) -> (r: Result<JumpPlan, JumpError>)
    ensures
        r == jump_plan(mem_mgr@, entry, stack_pointer, block, size),
        r matches Ok(plan) ==> plan.boot_info.phys() == block && is_claimed(
            mem_mgr@,
            plan.boot_info.phys(),
            0,
        ),
{
    if entry < KERNEL_VIRT_OFFSET {
        return Err(JumpError::EntryNotHigherHalf);
    }
    if !mem_mgr.holds(block, size) {
        return Err(JumpError::BlockUnclaimed);
    }
    proof {
        let i = choose|i: int|
            0 <= i < mem_mgr@.len() && crate::mem::claim_holds(
                #[trigger] mem_mgr@[i],
                block as int,
                size as int,
            );
        assert(crate::mem::claim_holds(mem_mgr@[i], block as int, 0));
    }
    match phys_to_kern_ref(block) {
        Some(boot_info) => Ok(JumpPlan { entry, stack_pointer, boot_info }),
        None => Err(JumpError::BlockNotMappable),
    }
}

} // verus!
