use vstd::prelude::*;

verus! {

/// First vector of the master 8259 PIC.
pub const PIC_1_OFFSET: u8 = 32;

/// First vector of the slave 8259 PIC.
pub const PIC_2_OFFSET: u8 = 40;

/// Vector of the timer line (IRQ 0).
pub const TIMER_INTERRUPT_ID: u8 = 32;

/// Vector of the keyboard line (IRQ 1).
pub const KEYBOARD_INTERRUPT_ID: u8 = 33;

/// Vector of the breakpoint exception.
pub const BREAKPOINT_VECTOR: u8 = 3;

/// Vector of the double-fault exception.
pub const DOUBLE_FAULT_VECTOR: u8 = 8;

/// Vector of the page-fault exception.
pub const PAGE_FAULT_VECTOR: u8 = 14;

/// The TSS interrupt-stack-table slot (0-based) that holds the double-fault stack;
/// the descriptor's IST field holds this plus one.
pub const DOUBLE_FAULT_IST_INDEX: u16 = 0;

/// Entries of the interrupt descriptor table.
pub const IDT_ENTRIES: usize = 256;

/// The kernel's interrupt handlers.
#[derive(Debug, Clone, Copy, PartialEq, Eq, Structural)]
pub enum Handler {
    Breakpoint,
    DoubleFault,
    PageFault,
    Timer,
    Keyboard,
}

/// A present descriptor: its handler and, if it switches stacks, the TSS IST slot it uses.
#[derive(Debug, Clone, Copy, PartialEq, Eq, Structural)]
pub struct Gate {
    pub handler: Handler,
    pub stack_index: Option<u16>,
}

/// The descriptor the kernel installs at `vector`; `None` leaves it not present.
pub open spec fn kernel_gate(vector: int) -> Option<Gate> {
    if vector == BREAKPOINT_VECTOR {
        Some(Gate { handler: Handler::Breakpoint, stack_index: None })
    } else if vector == DOUBLE_FAULT_VECTOR {
        Some(Gate { handler: Handler::DoubleFault, stack_index: Some(DOUBLE_FAULT_IST_INDEX) })
    } else if vector == PAGE_FAULT_VECTOR {
        Some(Gate { handler: Handler::PageFault, stack_index: None })
    } else if vector == TIMER_INTERRUPT_ID {
        Some(Gate { handler: Handler::Timer, stack_index: None })
    } else if vector == KEYBOARD_INTERRUPT_ID {
        Some(Gate { handler: Handler::Keyboard, stack_index: None })
    } else {
        None
    }
}

/// The descriptor the double-fault test installs at `vector`: only the double fault, on its
/// own stack.
pub open spec fn test_gate(vector: int) -> Option<Gate> {
    if vector == DOUBLE_FAULT_VECTOR {
        Some(Gate { handler: Handler::DoubleFault, stack_index: Some(DOUBLE_FAULT_IST_INDEX) })
    } else {
        None
    }
}

/// The 256 descriptors of an interrupt descriptor table, by vector.
pub struct IdtLayout {
    gates: Vec<Option<Gate>>,
}

impl View for IdtLayout {
    type V = Seq<Option<Gate>>;

    closed spec fn view(&self) -> Seq<Option<Gate>> {
        self.gates@
    }
}

impl IdtLayout {
    /// A table with no descriptor present.
    pub fn new() -> (r: IdtLayout)
        ensures
            r@ == Seq::new(IDT_ENTRIES as nat, |v: int| None::<Gate>),
    {
        let mut gates: Vec<Option<Gate>> = Vec::new();
        let mut i: usize = 0;
        while i < IDT_ENTRIES
            invariant
                i <= IDT_ENTRIES,
                gates@ == Seq::new(i as nat, |v: int| None::<Gate>),
            decreases IDT_ENTRIES - i,
        {
            gates.push(None);
            i += 1;
        }
        IdtLayout { gates }
    }

    /// Installs `entry` at `vector`.
    pub fn set(&mut self, vector: u8, gate: Gate)
        requires
            old(self)@.len() == IDT_ENTRIES,
        ensures
            final(self)@ == old(self)@.update(vector as int, Some(gate)),
    {
        self.gates.set(vector as usize, Some(gate));
    }

    /// The descriptor at `vector`.
    pub fn gate(&self, vector: u8) -> (r: Option<Gate>)
        requires
            self@.len() == IDT_ENTRIES,
        ensures
            r == self@[vector as int],
    {
        self.gates[vector as usize]
    }
}

/// The kernel's table: breakpoint, double fault on its own stack, page fault, timer and
/// keyboard; every other vector not present.
pub fn init_idt() -> (r: IdtLayout)
    ensures
        r@ == Seq::new(IDT_ENTRIES as nat, |v: int| kernel_gate(v)),
{
    let mut idt = IdtLayout::new();
    idt.set(BREAKPOINT_VECTOR, Gate { handler: Handler::Breakpoint, stack_index: None });
    idt.set(
        DOUBLE_FAULT_VECTOR,
        Gate { handler: Handler::DoubleFault, stack_index: Some(DOUBLE_FAULT_IST_INDEX) },
    );
    idt.set(TIMER_INTERRUPT_ID, Gate { handler: Handler::Timer, stack_index: None });
    idt.set(KEYBOARD_INTERRUPT_ID, Gate { handler: Handler::Keyboard, stack_index: None });
    idt.set(PAGE_FAULT_VECTOR, Gate { handler: Handler::PageFault, stack_index: None });
    assert(idt@ =~= Seq::new(IDT_ENTRIES as nat, |v: int| kernel_gate(v)));
    idt
}

/// The double-fault test's table: only the double fault, on its own stack.
pub fn init_test_idt() -> (r: IdtLayout)
    ensures
        r@ == Seq::new(IDT_ENTRIES as nat, |v: int| test_gate(v)),
{
    let mut idt = IdtLayout::new();
    idt.set(
        DOUBLE_FAULT_VECTOR,
        Gate { handler: Handler::DoubleFault, stack_index: Some(DOUBLE_FAULT_IST_INDEX) },
    );
    assert(idt@ =~= Seq::new(IDT_ENTRIES as nat, |v: int| test_gate(v)));
    idt
}

/// The vector whose end of interrupt a handler signals to the PICs, if any: the timer
/// and keyboard lines always do, the exception handlers never.
pub fn end_of_interrupt_vector(handler: Handler) -> (r: Option<u8>)
    ensures
        r == match handler {
            Handler::Timer => Some(TIMER_INTERRUPT_ID),
            Handler::Keyboard => Some(KEYBOARD_INTERRUPT_ID),
            _ => None::<u8>,
        },
{
    match handler {
        Handler::Timer => Some(TIMER_INTERRUPT_ID),
        Handler::Keyboard => Some(KEYBOARD_INTERRUPT_ID),
        _ => None,
    }
}

} // verus!
