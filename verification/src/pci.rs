//! PCI configuration-space logic: the address encoding for the legacy
//! configuration ports, the parsing of a function's header dwords, and the
//! decoding of its base-address registers — including the size probing and
//! the pairing of 64-bit registers. The port reads and writes that fetch
//! these dwords happen outside the crate; the parsing here takes them as
//! data.

use vstd::prelude::*;

verus! {

/// The legacy configuration-address word for one register of one function:
/// enable bit, bus, slot, function, and the dword-aligned offset.
pub open spec fn config_address(bus: u8, slot: u8, func: u8, offset: u8) -> u32 {
    (1u32 << 31) | ((bus as u32) << 16) | ((slot as u32) << 11) | ((func as u32) << 8) | ((
    offset as u32) & 0xFC)
}

/// Compute the configuration-address word the machine writes to the
/// address port before touching the data port.
pub fn pci_config_address(bus: u8, slot: u8, func: u8, offset: u8) -> (r: u32)
    ensures
        r == config_address(bus, slot, func, offset),
{
    (1u32 << 31) | ((bus as u32) << 16) | ((slot as u32) << 11) | ((func as u32) << 8) | ((
    offset as u32) & 0xFC)
}

/// What kind of resource one base-address register describes.
#[derive(Clone, Copy, PartialEq, Eq, Structural, Debug)]
pub enum PciBarType {
    Unused,
    Memory32,
    Memory64,
    Io,
}

/// One decoded base-address register.
#[derive(Clone, Copy, PartialEq, Eq, Structural, Debug)]
pub struct PciBar {
    pub address: u64,
    pub size: u64,
    pub bar_type: PciBarType,
    pub prefetchable: bool,
}

/// An undecoded register slot.
pub open spec fn default_bar() -> PciBar {
    PciBar { address: 0, size: 0, bar_type: PciBarType::Unused, prefetchable: false }
}

impl Default for PciBar {
    /// An undecoded register slot.
    fn default() -> (r: PciBar)
        ensures
            r == default_bar(),
    {
        PciBar { address: 0, size: 0, bar_type: PciBarType::Unused, prefetchable: false }
    }
}

/// The size a 32-bit register's probe mask encodes: two's complement of the
/// mask, or zero for an empty mask.
pub open spec fn spec_bar_size(size_mask: u32) -> u64 {
    if size_mask == 0 {
        0
    } else {
        (!size_mask).wrapping_add(1) as u64
    }
}

/// The size a 64-bit register pair's probe mask encodes.
pub open spec fn spec_bar_size_64(size_mask: u64) -> u64 {
    if size_mask == 0 {
        0
    } else {
        (!size_mask).wrapping_add(1)
    }
}

/// Decode the size a 32-bit probe mask encodes.
pub fn calculate_bar_size(size_mask: u32) -> (r: u64)
    ensures
        r == spec_bar_size(size_mask),
{
    if size_mask == 0 {
        return 0;
    }
    (!size_mask).wrapping_add(1) as u64
}

/// Decode the size a 64-bit probe mask encodes.
pub fn calculate_bar_size_64(size_mask: u64) -> (r: u64)
    ensures
        r == spec_bar_size_64(size_mask),
{
    if size_mask == 0 {
        return 0;
    }
    (!size_mask).wrapping_add(1)
}

/// An I/O-space register: the address with the low control bits masked off,
/// sized from the equally masked probe mask.
pub open spec fn io_bar(orig: u32, size_mask: u32) -> PciBar {
    PciBar {
        address: (orig & 0xFFFFFFFC) as u64,
        size: spec_bar_size(size_mask & 0xFFFFFFFC),
        bar_type: PciBarType::Io,
        prefetchable: false,
    }
}

/// A 32-bit memory register.
pub open spec fn mem32_bar(orig: u32, size_mask: u32) -> PciBar {
    PciBar {
        address: (orig & 0xFFFFFFF0) as u64,
        size: spec_bar_size(size_mask & 0xFFFFFFF0),
        bar_type: PciBarType::Memory32,
        prefetchable: (orig & 0x8) != 0,
    }
}

/// A 64-bit memory register assembled from its pair.
pub open spec fn mem64_bar(orig: u32, orig_high: u32, size_mask: u32, size_mask_high: u32) -> PciBar {
    PciBar {
        address: ((orig_high as u64) << 32) | ((orig & 0xFFFFFFF0) as u64),
        size: spec_bar_size_64(((size_mask_high as u64) << 32) | ((size_mask & 0xFFFFFFF0) as u64)),
        bar_type: PciBarType::Memory64,
        prefetchable: (orig & 0x8) != 0,
    }
}

/// What the register walk leaves in the six slots, starting at slot `i`
/// with `acc` decoded so far: zero registers and empty probe masks are
/// skipped, I/O and 32-bit memory registers decode in place, a 64-bit
/// register consumes its high half as well, and a 64-bit register with no
/// room for its pair — or a reserved type — is left undecoded.
pub open spec fn bars_from(vals: Seq<u32>, masks: Seq<u32>, i: int, acc: Seq<PciBar>) -> Seq<PciBar>
    decreases 6 - i,
{
    if i < 0 || i >= 6 {
        acc
    } else {
        let orig = vals[i];
        let size_mask = masks[i];
        if orig == 0 {
            bars_from(vals, masks, i + 1, acc)
        } else if size_mask == 0 {
            bars_from(vals, masks, i + 1, acc)
        } else if orig & 1 == 1 {
            bars_from(vals, masks, i + 1, acc.update(i, io_bar(orig, size_mask)))
        } else {
            let type_bits = (orig >> 1) & 0x3;
            if type_bits == 0 {
                bars_from(vals, masks, i + 1, acc.update(i, mem32_bar(orig, size_mask)))
            } else if type_bits == 2 {
                if i + 1 >= 6 {
                    bars_from(vals, masks, i + 1, acc)
                } else {
                    bars_from(
                        vals,
                        masks,
                        i + 2,
                        acc.update(i, mem64_bar(orig, vals[i + 1], size_mask, masks[i + 1])),
                    )
                }
            } else {
                bars_from(vals, masks, i + 1, acc)
            }
        }
    }
}

/// The six decoded slots for a function's register values and probe masks.
pub open spec fn spec_read_bars(vals: Seq<u32>, masks: Seq<u32>) -> Seq<PciBar> {
    bars_from(vals, masks, 0, Seq::new(6, |j: int| default_bar()))
}

/// Decode a function's six base-address registers from the original values
/// and the probe masks (what each register read back after a write of all
/// ones, with the original then restored).
pub fn read_bars(values: &[u32], size_masks: &[u32]) -> (r: Vec<PciBar>)
    requires
        values@.len() == 6,
        size_masks@.len() == 6,
    ensures
        r@.len() == 6,
        r@ == spec_read_bars(values@, size_masks@),
{
    let mut bars: Vec<PciBar> = Vec::new();
    let mut j: usize = 0;
    while j < 6
        invariant
            j <= 6,
            bars@.len() == j,
            forall|t: int| 0 <= t < j ==> bars@[t] == default_bar(),
        decreases 6 - j,
    {
        bars.push(PciBar::default());
        j = j + 1;
    }
    proof {
        assert(bars@ =~= Seq::new(6, |t: int| default_bar()));
    }
    let ghost target = spec_read_bars(values@, size_masks@);
    let mut i: usize = 0;
    while i < 6
        invariant
            values@.len() == 6,
            size_masks@.len() == 6,
            i <= 7,
            bars@.len() == 6,
            bars_from(values@, size_masks@, i as int, bars@) == target,
        decreases 6 - i,
    {
        let ghost before = bars@;
        let original = values[i];
        let size_mask = size_masks[i];
        if original == 0 {
            i = i + 1;
            continue ;
        }
        if size_mask == 0 {
            i = i + 1;
            continue ;
        }
        if original & 1 == 1 {
            let address = (original & 0xFFFFFFFC) as u64;
            let size = calculate_bar_size(size_mask & 0xFFFFFFFC);
            bars[i] = PciBar { address, size, bar_type: PciBarType::Io, prefetchable: false };
            proof {
                assert(bars@ =~= before.update(i as int, io_bar(original, size_mask)));
            }
            i = i + 1;
        } else {
            let type_bits = (original >> 1) & 0x3;
            let prefetchable = (original & 0x8) != 0;
            if type_bits == 0 {
                let address = (original & 0xFFFFFFF0) as u64;
                let size = calculate_bar_size(size_mask & 0xFFFFFFF0);
                bars[i] = PciBar {
                    address,
                    size,
                    bar_type: PciBarType::Memory32,
                    prefetchable,
                };
                proof {
                    assert(bars@ =~= before.update(i as int, mem32_bar(original, size_mask)));
                }
                i = i + 1;
            } else if type_bits == 2 {
                if i + 1 >= 6 {
                    i = i + 1;
                    continue ;
                }
                let original_high = values[i + 1];
                let size_mask_high = size_masks[i + 1];
                let address = ((original_high as u64) << 32) | ((original & 0xFFFFFFF0) as u64);
                let size_mask_64 = ((size_mask_high as u64) << 32) | ((size_mask
                    & 0xFFFFFFF0) as u64);
                let size = calculate_bar_size_64(size_mask_64);
                bars[i] = PciBar {
                    address,
                    size,
                    bar_type: PciBarType::Memory64,
                    prefetchable,
                };
                proof {
                    assert(bars@ =~= before.update(
                        i as int,
                        mem64_bar(original, original_high, size_mask, size_mask_high),
                    ));
                }
                i = i + 2;
            } else {
                i = i + 1;
            }
        }
    }
    bars
}

/// One PCI function's identity and resources, parsed from its
/// configuration header.
#[derive(Debug)]
pub struct PciDevice {
    pub bus: u8,
    pub slot: u8,
    pub func: u8,
    pub vendor_id: u16,
    pub device_id: u16,
    pub class_code: u8,
    pub subclass: u8,
    pub prog_if: u8,
    pub revision: u8,
    pub header_type: u8,
    pub bars: Vec<PciBar>,
    pub command: u16,
    pub status: u16,
}

impl PciDevice {
    /// Parse a function's header from the dwords the machine read at
    /// offsets 0x00, 0x04, 0x08 and 0x0C, plus its six register values and
    /// probe masks. A function whose first dword reads all ones is absent.
    pub fn from_location(
        bus: u8,
        slot: u8,
        func: u8,
        reg00: u32,
        reg04: u32,
        reg08: u32,
        reg0c: u32,
        bar_values: &[u32],
        bar_size_masks: &[u32],
    ) -> (r: Option<PciDevice>)
        requires
            bar_values@.len() == 6,
            bar_size_masks@.len() == 6,
        ensures
            r is None <==> reg00 == 0xFFFFFFFF,
            r matches Some(d) ==> {
                &&& d.bus == bus && d.slot == slot && d.func == func
                &&& d.vendor_id == reg00 & 0xFFFF
                &&& d.device_id == (reg00 >> 16) & 0xFFFF
                &&& d.revision == reg08 & 0xFF
                &&& d.prog_if == (reg08 >> 8) & 0xFF
                &&& d.subclass == (reg08 >> 16) & 0xFF
                &&& d.class_code == (reg08 >> 24) & 0xFF
                &&& d.command == reg04 & 0xFFFF
                &&& d.status == (reg04 >> 16) & 0xFFFF
                &&& d.header_type == (reg0c >> 16) & 0xFF
                &&& d.bars@ == spec_read_bars(bar_values@, bar_size_masks@)
            },
    {
        if reg00 == 0xFFFFFFFF {
            return None;
        }
        proof {
            assert(reg00 & 0xFFFF <= 0xFFFF && (reg00 >> 16) & 0xFFFF <= 0xFFFF && reg08 & 0xFF
                <= 0xFF && (reg08 >> 8) & 0xFF <= 0xFF && (reg08 >> 16) & 0xFF <= 0xFF && (reg08
                >> 24) & 0xFF <= 0xFF && reg04 & 0xFFFF <= 0xFFFF && (reg04 >> 16) & 0xFFFF
                <= 0xFFFF && (reg0c >> 16) & 0xFF <= 0xFF) by (bit_vector);
        }
        let vendor_id = (reg00 & 0xFFFF) as u16;
        let device_id = ((reg00 >> 16) & 0xFFFF) as u16;
        let revision = (reg08 & 0xFF) as u8;
        let prog_if = ((reg08 >> 8) & 0xFF) as u8;
        let subclass = ((reg08 >> 16) & 0xFF) as u8;
        let class_code = ((reg08 >> 24) & 0xFF) as u8;
        let command = (reg04 & 0xFFFF) as u16;
        let status = ((reg04 >> 16) & 0xFFFF) as u16;
        let header_type = ((reg0c >> 16) & 0xFF) as u8;
        let bars = read_bars(bar_values, bar_size_masks);
        Some(
            PciDevice {
                bus,
                slot,
                func,
                vendor_id,
                device_id,
                class_code,
                subclass,
                prog_if,
                revision,
                header_type,
                bars,
                command,
                status,
            },
        )
    }

    /// A decoded register by index, if that slot holds one.
    pub fn get_bar(&self, index: usize) -> (r: Option<&PciBar>)
        requires
            self.bars@.len() == 6,
        ensures
            r is Some <==> (index < 6 && !(self.bars@[index as int].bar_type is Unused)),
            r matches Some(b) ==> *b == self.bars@[index as int],
    {
        if index < 6 && !matches!(self.bars[index].bar_type, PciBarType::Unused) {
            Some(&self.bars[index])
        } else {
            None
        }
    }

    /// The command-register value that enables the device: I/O space,
    /// memory space and bus mastering turned on.
    pub fn enable_command_value(command: u32) -> (r: u32)
        ensures
            r == command | 7u32,
    {
        let r = command | (1 | (1u32 << 1) | (1u32 << 2));
        proof {
            assert(r == command | 7u32) by (bit_vector)
                requires
                    r == command | (1 | (1u32 << 1) | (1u32 << 2)),
            ;
        }
        r
    }
}

/// Whether a vendor/device pair is one of the VirtIO GPU identities the
/// kernel drives.
pub fn is_virtio_gpu(vendor_id: u16, device_id: u16) -> (r: bool)
    ensures
        r == (vendor_id == 0x1AF4 && (device_id == 0x1050 || device_id == 0x1010)),
{
    vendor_id == 0x1AF4 && (device_id == 0x1050 || device_id == 0x1010)
}

} // verus!
