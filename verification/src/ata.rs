//! ATA driver logic: the register-level encoding of read, write and
//! identify commands for both addressing modes, the status-byte decisions
//! the polling loops act on, the 16-bit data-port word packing, the parsing
//! of IDENTIFY data into drive information, and the simple cluster
//! filesystem the kernel lays over a disk region.
//!
//! The port accesses themselves, and the busy-wait loops around them, run
//! outside the crate: every command here is computed as the exact sequence
//! of register writes the machine must issue, and every byte that comes
//! back is handed in as data.

use vstd::prelude::*;

verus! {

pub const ATA_CMD_READ_SECTORS: u8 = 0x20;

pub const ATA_CMD_READ_SECTORS_EXT: u8 = 0x24;

pub const ATA_CMD_WRITE_SECTORS: u8 = 0x30;

pub const ATA_CMD_WRITE_SECTORS_EXT: u8 = 0x34;

pub const ATA_CMD_FLUSH_CACHE: u8 = 0xE7;

pub const ATA_CMD_IDENTIFY: u8 = 0xEC;

pub const ATA_STATUS_BSY: u8 = 0x80;

pub const ATA_STATUS_DRQ: u8 = 0x08;

pub const ATA_STATUS_ERR: u8 = 0x01;

pub const ATA_STATUS_DF: u8 = 0x20;

/// Bytes per sector, fixed by the protocol here.
pub const SECTOR_SIZE: usize = 512;

/// Master or slave device on one ATA channel.
#[derive(Clone, Copy, PartialEq, Eq, Structural, Debug)]
pub enum AtaDevice {
    Master,
    Slave,
}

impl AtaDevice {
    /// The device's index in per-channel tables: master 0, slave 1.
    pub open spec fn idx(self) -> int {
        match self {
            AtaDevice::Master => 0,
            AtaDevice::Slave => 1,
        }
    }

    /// The device's table index.
    pub fn index(self) -> (r: usize)
        ensures
            r == self.idx(),
    {
        match self {
            AtaDevice::Master => 0,
            AtaDevice::Slave => 1,
        }
    }
}

/// Everything that can go wrong on the ATA path.
#[derive(Clone, Copy, PartialEq, Eq, Structural, Debug)]
pub enum AtaError {
    Timeout,
    NotReady,
    Error(u8),
    DeviceNotFound,
    BufferTooSmall,
    InvalidSectorSize,
    UnsupportedOperation,
    InvalidLba,
    CommandFailed,
    DeviceFault,
}

/// One byte written to one I/O port.
#[derive(Clone, Copy, PartialEq, Eq, Structural, Debug)]
pub struct RegWrite {
    pub port: u16,
    pub value: u8,
}

/// One ATA channel: the port numbers derived from its base, and what the
/// IDENTIFY handshake taught us about each attached device.
#[derive(Debug)]
pub struct AtaController {
    pub data_port: u16,
    pub error_port: u16,
    pub features_port: u16,
    pub sector_count_port: u16,
    pub lba_low_port: u16,
    pub lba_mid_port: u16,
    pub lba_high_port: u16,
    pub device_port: u16,
    pub status_port: u16,
    pub command_port: u16,
    pub control_port: u16,
    pub alt_status_port: u16,
    pub supports_lba48: [bool; 2],
    pub max_sectors: [u64; 2],
}

/// What one step of a status-polling loop decides.
#[derive(Clone, Copy, PartialEq, Eq, Structural, Debug)]
pub enum WaitDecision {
    /// The condition holds; proceed.
    Done,
    /// Keep polling (until the caller's retry budget runs out).
    Retry,
    /// Give up with this error.
    Fail(AtaError),
}

/// One step of the wait-for-not-busy loop: a floating bus (0xFF) means no
/// device; the error bit carries the error register's content; a device
/// fault fails outright; otherwise the device is ready exactly when the
/// busy bit is clear.
pub fn wait_ready_step(status: u8, error_reg: u8) -> (r: WaitDecision)
    ensures
        r == (if status == 0xFF {
            WaitDecision::Fail(AtaError::DeviceNotFound)
        } else if status & ATA_STATUS_ERR != 0 {
            WaitDecision::Fail(AtaError::Error(error_reg))
        } else if status & ATA_STATUS_DF != 0 {
            WaitDecision::Fail(AtaError::DeviceFault)
        } else if status & ATA_STATUS_BSY == 0 {
            WaitDecision::Done
        } else {
            WaitDecision::Retry
        }),
{
    if status == 0xFF {
        WaitDecision::Fail(AtaError::DeviceNotFound)
    } else if status & ATA_STATUS_ERR != 0 {
        WaitDecision::Fail(AtaError::Error(error_reg))
    } else if status & ATA_STATUS_DF != 0 {
        WaitDecision::Fail(AtaError::DeviceFault)
    } else if status & ATA_STATUS_BSY == 0 {
        WaitDecision::Done
    } else {
        WaitDecision::Retry
    }
}

/// One step of the wait-for-data loop: like readiness, but the condition is
/// the data-request bit, and a floating bus is simply retried until the
/// caller times out.
pub fn wait_data_step(status: u8, error_reg: u8) -> (r: WaitDecision)
    ensures
        r == (if status & ATA_STATUS_ERR != 0 {
            WaitDecision::Fail(AtaError::Error(error_reg))
        } else if status & ATA_STATUS_DF != 0 {
            WaitDecision::Fail(AtaError::DeviceFault)
        } else if status & ATA_STATUS_DRQ != 0 {
            WaitDecision::Done
        } else {
            WaitDecision::Retry
        }),
{
    if status & ATA_STATUS_ERR != 0 {
        WaitDecision::Fail(AtaError::Error(error_reg))
    } else if status & ATA_STATUS_DF != 0 {
        WaitDecision::Fail(AtaError::DeviceFault)
    } else if status & ATA_STATUS_DRQ != 0 {
        WaitDecision::Done
    } else {
        WaitDecision::Retry
    }
}

/// One step of the device-selection wait: selection has settled once the
/// bus is not floating and the busy bit is clear.
pub fn select_step(status: u8) -> (r: bool)
    ensures
        r == (status != 0xFF && status & ATA_STATUS_BSY == 0),
{
    status != 0xFF && (status & ATA_STATUS_BSY) == 0
}

/// The device-register byte that selects a device for plain commands.
pub open spec fn select_value(device: AtaDevice) -> u8 {
    (0xA0 + device.idx() * 0x10) as u8
}

/// The 28-bit-mode device-register byte: select bits plus the address's top
/// nibble.
pub open spec fn lba28_device_value(device: AtaDevice, lba: u32) -> u8 {
    (0xE0 + device.idx() * 0x10 + ((lba >> 24) & 0x0F)) as u8
}

/// The 48-bit-mode device-register byte.
pub open spec fn lba48_device_value(device: AtaDevice) -> u8 {
    (0x40 + device.idx() * 0x10) as u8
}

/// The register writes that issue a 48-bit-mode command: high-order halves
/// of count and address, then low-order halves, then device select and the
/// command byte.
pub open spec fn lba48_writes(c: AtaController, device: AtaDevice, lba: u64, count: u16, cmd: u8) -> Seq<
    RegWrite,
> {
    seq![
        RegWrite { port: c.sector_count_port, value: (count >> 8) as u8 },
        RegWrite { port: c.lba_low_port, value: (lba >> 24) as u8 },
        RegWrite { port: c.lba_mid_port, value: (lba >> 32) as u8 },
        RegWrite { port: c.lba_high_port, value: (lba >> 40) as u8 },
        RegWrite { port: c.sector_count_port, value: count as u8 },
        RegWrite { port: c.lba_low_port, value: lba as u8 },
        RegWrite { port: c.lba_mid_port, value: (lba >> 8) as u8 },
        RegWrite { port: c.lba_high_port, value: (lba >> 16) as u8 },
        RegWrite { port: c.device_port, value: lba48_device_value(device) },
        RegWrite { port: c.command_port, value: cmd },
    ]
}

/// The register writes that issue a 28-bit-mode command.
pub open spec fn lba28_writes(c: AtaController, device: AtaDevice, lba: u32, count: u8, cmd: u8) -> Seq<
    RegWrite,
> {
    seq![
        RegWrite { port: c.sector_count_port, value: count },
        RegWrite { port: c.lba_low_port, value: lba as u8 },
        RegWrite { port: c.lba_mid_port, value: (lba >> 8) as u8 },
        RegWrite { port: c.lba_high_port, value: (lba >> 16) as u8 },
        RegWrite { port: c.device_port, value: lba28_device_value(device, lba) },
        RegWrite { port: c.command_port, value: cmd },
    ]
}

/// A sector command, ready for the machine: select the device, wait ready,
/// issue the setup writes, then move `sectors` sectors of 256 data-port
/// words each (waiting for the data-request bit before every sector).
#[derive(Debug)]
pub struct AtaCommandPlan {
    /// Written to the device register to select the target first.
    pub select: RegWrite,
    /// The command setup, ending with the command byte.
    pub setup: Vec<RegWrite>,
    /// How many sectors of data follow on the data port.
    pub sectors: u16,
    /// The data port the transfer uses.
    pub data_port: u16,
    /// Whether a cache-flush command follows the transfer (writes only).
    pub flush_after: bool,
}

/// Whether a request must use the 48-bit command form: the address or count
/// exceeds the 28-bit form, or the device was identified as 48-bit capable.
pub open spec fn needs_lba48(c: AtaController, device: AtaDevice, lba: u64, count: u16) -> bool {
    lba > 0xFFFFFFF || count > 256 || c.supports_lba48[device.idx()]
}

impl AtaController {
    /// The port map of a channel at `base`: the classic layout, with the
    /// control block at `base + 0x206`.
    pub fn new(base: u16) -> (r: AtaController)
        requires
            base + 0x206 <= u16::MAX,
        ensures
            r.data_port == base,
            r.error_port == base + 1,
            r.features_port == base + 1,
            r.sector_count_port == base + 2,
            r.lba_low_port == base + 3,
            r.lba_mid_port == base + 4,
            r.lba_high_port == base + 5,
            r.device_port == base + 6,
            r.status_port == base + 7,
            r.command_port == base + 7,
            r.control_port == base + 0x206,
            r.alt_status_port == base + 0x206,
            r.supports_lba48 == [false, false],
            r.max_sectors == [0u64, 0u64],
    {
        AtaController {
            data_port: base,
            error_port: base + 1,
            features_port: base + 1,
            sector_count_port: base + 2,
            lba_low_port: base + 3,
            lba_mid_port: base + 4,
            lba_high_port: base + 5,
            device_port: base + 6,
            status_port: base + 7,
            command_port: base + 7,
            control_port: base + 0x206,
            alt_status_port: base + 0x206,
            supports_lba48: [false, false],
            max_sectors: [0, 0],
        }
    }

    /// The device-select write that precedes any command.
    fn select_write(&self, device: AtaDevice) -> (r: RegWrite)
        ensures
            r == (RegWrite { port: self.device_port, value: select_value(device) }),
    {
        RegWrite { port: self.device_port, value: 0xA0 + device.index() as u8 * 0x10 }
    }

    /// Encode a read: `count` sectors starting at `lba` into a buffer of
    /// `buffer_len` bytes. A buffer shorter than the transfer is refused;
    /// otherwise the plan carries the exact register writes for the mode
    /// the request needs, and the sectors arrive as data-port words to be
    /// unpacked with [`words_to_bytes`].
    pub fn read_sectors(&self, device: AtaDevice, lba: u64, count: u16, buffer_len: usize) -> (r:
        Result<AtaCommandPlan, AtaError>)
        ensures
            r is Err <==> buffer_len < count * SECTOR_SIZE,
            r is Err ==> r == Err::<AtaCommandPlan, AtaError>(AtaError::BufferTooSmall),
            r matches Ok(plan) ==> {
                &&& plan.select == (RegWrite {
                    port: self.device_port,
                    value: select_value(device),
                })
                &&& plan.sectors == count
                &&& plan.data_port == self.data_port
                &&& !plan.flush_after
                &&& (needs_lba48(*self, device, lba, count) ==> plan.setup@ == lba48_writes(
                    *self,
                    device,
                    lba,
                    count,
                    ATA_CMD_READ_SECTORS_EXT,
                ))
                &&& (!needs_lba48(*self, device, lba, count) ==> plan.setup@ == lba28_writes(
                    *self,
                    device,
                    lba as u32,
                    count as u8,
                    ATA_CMD_READ_SECTORS,
                ))
            },
    {
        if buffer_len < count as usize * SECTOR_SIZE {
            return Err(AtaError::BufferTooSmall);
        }
        let select = self.select_write(device);
        let setup = if lba > 0xFFFFFFF || count > 256 || self.supports_lba48[device.index()] {
            self.lba48_setup(device, lba, count, ATA_CMD_READ_SECTORS_EXT)
        } else {
            self.lba28_setup(device, lba as u32, count as u8, ATA_CMD_READ_SECTORS)
        };
        Ok(
            AtaCommandPlan {
                select,
                setup,
                sectors: count,
                data_port: self.data_port,
                flush_after: false,
            },
        )
    }

    /// Encode a write of `buffer_len` bytes starting at `lba`. The length
    /// must be a whole number of sectors; the data itself is packed into
    /// data-port words with [`bytes_to_words`], and the plan ends with a
    /// cache flush as the write protocol requires.
    pub fn write_sectors(&self, device: AtaDevice, lba: u64, buffer_len: usize) -> (r: Result<
        AtaCommandPlan,
        AtaError,
    >)
        requires
            buffer_len / SECTOR_SIZE <= u16::MAX,
        ensures
            r is Err <==> buffer_len % SECTOR_SIZE != 0,
            r is Err ==> r == Err::<AtaCommandPlan, AtaError>(AtaError::InvalidSectorSize),
            r matches Ok(plan) ==> {
                let count = (buffer_len / SECTOR_SIZE) as u16;
                &&& plan.select == (RegWrite {
                    port: self.device_port,
                    value: select_value(device),
                })
                &&& plan.sectors == count
                &&& plan.data_port == self.data_port
                &&& plan.flush_after
                &&& (needs_lba48(*self, device, lba, count) ==> plan.setup@ == lba48_writes(
                    *self,
                    device,
                    lba,
                    count,
                    ATA_CMD_WRITE_SECTORS_EXT,
                ))
                &&& (!needs_lba48(*self, device, lba, count) ==> plan.setup@ == lba28_writes(
                    *self,
                    device,
                    lba as u32,
                    count as u8,
                    ATA_CMD_WRITE_SECTORS,
                ))
            },
    {
        if buffer_len % SECTOR_SIZE != 0 {
            return Err(AtaError::InvalidSectorSize);
        }
        let count = (buffer_len / SECTOR_SIZE) as u16;
        let select = self.select_write(device);
        let setup = if lba > 0xFFFFFFF || count > 256 || self.supports_lba48[device.index()] {
            self.lba48_setup(device, lba, count, ATA_CMD_WRITE_SECTORS_EXT)
        } else {
            self.lba28_setup(device, lba as u32, count as u8, ATA_CMD_WRITE_SECTORS)
        };
        Ok(
            AtaCommandPlan {
                select,
                setup,
                sectors: count,
                data_port: self.data_port,
                flush_after: true,
            },
        )
    }

    /// The register writes of the IDENTIFY handshake for one device.
    pub fn identify_setup(&self, device: AtaDevice) -> (r: Vec<RegWrite>)
        ensures
            r@ == seq![
                RegWrite { port: self.control_port, value: 0x02 },
                RegWrite { port: self.sector_count_port, value: 0 },
                RegWrite { port: self.lba_low_port, value: 0 },
                RegWrite { port: self.lba_mid_port, value: 0 },
                RegWrite { port: self.lba_high_port, value: 0 },
                RegWrite { port: self.device_port, value: select_value(device) },
                RegWrite { port: self.command_port, value: ATA_CMD_IDENTIFY },
            ],
    {
        let mut ops: Vec<RegWrite> = Vec::new();
        ops.push(RegWrite { port: self.control_port, value: 0x02 });
        ops.push(RegWrite { port: self.sector_count_port, value: 0 });
        ops.push(RegWrite { port: self.lba_low_port, value: 0 });
        ops.push(RegWrite { port: self.lba_mid_port, value: 0 });
        ops.push(RegWrite { port: self.lba_high_port, value: 0 });
        ops.push(RegWrite { port: self.device_port, value: 0xA0 + device.index() as u8 * 0x10 });
        ops.push(RegWrite { port: self.command_port, value: ATA_CMD_IDENTIFY });
        proof {
            assert(ops@ =~= seq![
                RegWrite { port: self.control_port, value: 0x02 },
                RegWrite { port: self.sector_count_port, value: 0 },
                RegWrite { port: self.lba_low_port, value: 0 },
                RegWrite { port: self.lba_mid_port, value: 0 },
                RegWrite { port: self.lba_high_port, value: 0 },
                RegWrite { port: self.device_port, value: select_value(device) },
                RegWrite { port: self.command_port, value: ATA_CMD_IDENTIFY },
            ]);
        }
        ops
    }

    /// Digest the 256 words an IDENTIFY command returned: parse them into
    /// drive information and record the device's 48-bit capability and size
    /// for later mode selection.
    pub fn identify(&mut self, device: AtaDevice, data: &[u16]) -> (r: DriveInfo)
        requires
            data@.len() == 256,
        ensures
            r.sectors == spec_identify_sectors(data@),
            r.supports_lba48 == spec_identify_lba48(data@),
            r.sector_size == 512,
            data@[0] == 0 ==> r.model@ == no_device_model() && r.serial@ == Seq::<u8>::empty()
                && r.firmware@ == Seq::<u8>::empty(),
            data@[0] != 0 ==> r.model@ == trimmed(kept_bytes(data@, 27, 20)) && r.serial@
                == trimmed(kept_bytes(data@, 10, 10)) && r.firmware@ == trimmed(
                kept_bytes(data@, 23, 4),
            ),
            final(self).supports_lba48[device.idx()] == r.supports_lba48,
            final(self).max_sectors[device.idx()] == r.sectors,
            final(self).supports_lba48[1 - device.idx()] == old(self).supports_lba48[1
                - device.idx()],
            final(self).max_sectors[1 - device.idx()] == old(self).max_sectors[1 - device.idx()],
            final(self).data_port == old(self).data_port,
            final(self).alt_status_port == old(self).alt_status_port,
            final(self).device_port == old(self).device_port,
    {
        let info = DriveInfo::from_identify_data(data);
        let supports = info.supports_lba48;
        let sectors = info.sectors;
        match device {
            AtaDevice::Master => {
                self.supports_lba48 = [supports, self.supports_lba48[1]];
                self.max_sectors = [sectors, self.max_sectors[1]];
            },
            AtaDevice::Slave => {
                self.supports_lba48 = [self.supports_lba48[0], supports];
                self.max_sectors = [self.max_sectors[0], sectors];
            },
        }
        info
    }

    fn lba48_setup(&self, device: AtaDevice, lba: u64, count: u16, cmd: u8) -> (r: Vec<RegWrite>)
        ensures
            r@ == lba48_writes(*self, device, lba, count, cmd),
    {
        let mut ops: Vec<RegWrite> = Vec::new();
        ops.push(RegWrite { port: self.sector_count_port, value: (count >> 8) as u8 });
        ops.push(RegWrite { port: self.lba_low_port, value: (lba >> 24) as u8 });
        ops.push(RegWrite { port: self.lba_mid_port, value: (lba >> 32) as u8 });
        ops.push(RegWrite { port: self.lba_high_port, value: (lba >> 40) as u8 });
        ops.push(RegWrite { port: self.sector_count_port, value: count as u8 });
        ops.push(RegWrite { port: self.lba_low_port, value: lba as u8 });
        ops.push(RegWrite { port: self.lba_mid_port, value: (lba >> 8) as u8 });
        ops.push(RegWrite { port: self.lba_high_port, value: (lba >> 16) as u8 });
        ops.push(RegWrite { port: self.device_port, value: 0x40 + device.index() as u8 * 0x10 });
        ops.push(RegWrite { port: self.command_port, value: cmd });
        proof {
            assert(ops@ =~= lba48_writes(*self, device, lba, count, cmd));
        }
        ops
    }

    fn lba28_setup(&self, device: AtaDevice, lba: u32, count: u8, cmd: u8) -> (r: Vec<RegWrite>)
        ensures
            r@ == lba28_writes(*self, device, lba, count, cmd),
    {
        let mut ops: Vec<RegWrite> = Vec::new();
        ops.push(RegWrite { port: self.sector_count_port, value: count });
        ops.push(RegWrite { port: self.lba_low_port, value: lba as u8 });
        ops.push(RegWrite { port: self.lba_mid_port, value: (lba >> 8) as u8 });
        ops.push(RegWrite { port: self.lba_high_port, value: (lba >> 16) as u8 });
        proof {
            assert((lba >> 24) & 0x0F <= 0x0F) by (bit_vector);
        }
        let top: u8 = ((lba >> 24) & 0x0F) as u8;
        ops.push(RegWrite { port: self.device_port, value: 0xE0 + device.index() as u8 * 0x10 + top });
        ops.push(RegWrite { port: self.command_port, value: cmd });
        proof {
            assert(ops@ =~= lba28_writes(*self, device, lba, count, cmd));
        }
        ops
    }
}

/// How a data-port word unpacks: low byte first, then high byte.
pub open spec fn word_lo(w: u16) -> u8 {
    (w & 0xFF) as u8
}

pub open spec fn word_hi(w: u16) -> u8 {
    (w >> 8) as u8
}

/// Unpack data-port words into bytes, low byte of each word first, exactly
/// as the read path stores them.
pub fn words_to_bytes(words: &[u16]) -> (r: Vec<u8>)
    requires
        words@.len() * 2 <= usize::MAX,
    ensures
        r@.len() == words@.len() * 2,
        forall|i: int|
            0 <= i < words@.len() ==> r@[2 * i] == word_lo(words@[i]) && r@[2 * i + 1] == word_hi(
                words@[i],
            ),
{
    let mut out: Vec<u8> = Vec::new();
    let mut i: usize = 0;
    while i < words.len()
        invariant
            i <= words@.len(),
            words@.len() * 2 <= usize::MAX,
            out@.len() == 2 * i,
            forall|j: int|
                0 <= j < i ==> out@[2 * j] == word_lo(words@[j]) && out@[2 * j + 1] == word_hi(
                    words@[j],
                ),
        decreases words@.len() - i,
    {
        let w = words[i];
        proof {
            assert(w & 0xFF <= 0xFF) by (bit_vector);
        }
        out.push((w & 0xFF) as u8);
        out.push((w >> 8) as u8);
        i = i + 1;
    }
    out
}

/// Pack bytes into data-port words, low byte of each pair first, exactly as
/// the write path sends them.
pub fn bytes_to_words(buffer: &[u8]) -> (r: Vec<u16>)
    requires
        buffer@.len() % 2 == 0,
    ensures
        r@.len() == buffer@.len() / 2,
        forall|i: int|
            0 <= i < r@.len() ==> word_lo(#[trigger] r@[i]) == buffer@[2 * i] && word_hi(r@[i])
                == buffer@[2 * i + 1],
{
    let mut out: Vec<u16> = Vec::new();
    let mut i: usize = 0;
    while i + 1 < buffer.len() || (i < buffer.len() && i + 1 == buffer.len())
        invariant
            buffer@.len() % 2 == 0,
            i <= buffer@.len(),
            i % 2 == 0,
            out@.len() == i / 2,
            forall|j: int|
                0 <= j < out@.len() ==> word_lo(#[trigger] out@[j]) == buffer@[2 * j] && word_hi(
                    out@[j],
                ) == buffer@[2 * j + 1],
        decreases buffer@.len() - i,
    {
        let lo = buffer[i];
        let hi = buffer[i + 1];
        let w: u16 = (hi as u16) * 256 + (lo as u16);
        proof {
            assert(word_lo(w) == lo && word_hi(w) == hi) by (bit_vector)
                requires
                    w == (hi as u16) * 256 + (lo as u16),
            ;
        }
        out.push(w);
        i = i + 2;
    }
    out
}

/// Packing bytes into data-port words and unpacking them again restores the
/// buffer byte for byte.
pub proof fn lemma_words_bytes_round_trip(bytes: Seq<u8>, words: Seq<u16>, back: Seq<u8>)
    requires
        bytes.len() % 2 == 0,
        words.len() == bytes.len() / 2,
        forall|i: int|
            0 <= i < words.len() ==> word_lo(#[trigger] words[i]) == bytes[2 * i] && word_hi(
                words[i],
            ) == bytes[2 * i + 1],
        back.len() == words.len() * 2,
        forall|i: int|
            0 <= i < words.len() ==> back[2 * i] == word_lo(#[trigger] words[i]) && back[2 * i + 1]
                == word_hi(words[i]),
    ensures
        back =~= bytes,
{
    assert forall|k: int| 0 <= k < back.len() implies back[k] == bytes[k] by {
        let i = k / 2;
        vstd::arithmetic::div_mod::lemma_fundamental_div_mod(k, 2);
        assert(k == 2 * i + k % 2);
        assert(0 <= i < words.len());
        assert(word_lo(words[i]) == bytes[2 * i] && word_hi(words[i]) == bytes[2 * i + 1]);
        assert(back[2 * i] == word_lo(words[i]) && back[2 * i + 1] == word_hi(words[i]));
        if k % 2 == 0 {
            assert(k == 2 * i);
        } else {
            assert(k == 2 * i + 1);
        }
    }
}

/// Whether a sector image ends with the classic boot signature.
pub fn has_mbr_signature(sector: &[u8]) -> (r: bool)
    requires
        sector@.len() == SECTOR_SIZE,
    ensures
        r == (sector@[510] == 0x55 && sector@[511] == 0xAA),
{
    sector[510] == 0x55 && sector[511] == 0xAA
}


/// A byte of IDENTIFY string data that survives extraction: printable
/// ASCII.
pub open spec fn printable(b: u8) -> bool {
    0x20 <= b <= 0x7E
}

/// Which bytes one IDENTIFY string word contributes: its high byte first,
/// then its low byte; a zero byte stops the word, and unprintable bytes are
/// skipped.
pub open spec fn word_kept(w: u16) -> Seq<u8> {
    if word_hi(w) == 0 {
        Seq::empty()
    } else {
        let first = if printable(word_hi(w)) {
            seq![word_hi(w)]
        } else {
            Seq::<u8>::empty()
        };
        if word_lo(w) == 0 {
            first
        } else if printable(word_lo(w)) {
            first.push(word_lo(w))
        } else {
            first
        }
    }
}

/// The bytes `count` IDENTIFY words contribute from `start` on, stopping
/// at the end of the 256-word block.
pub open spec fn kept_bytes(data: Seq<u16>, start: int, count: int) -> Seq<u8>
    decreases count,
{
    if count <= 0 || start >= 256 {
        Seq::empty()
    } else {
        word_kept(data[start]) + kept_bytes(data, start + 1, count - 1)
    }
}

/// Extending the extraction window by one word appends that word's bytes.
pub proof fn lemma_kept_bytes_snoc(data: Seq<u16>, start: int, n: int)
    requires
        n >= 0,
        start >= 0,
    ensures
        kept_bytes(data, start, n + 1) == kept_bytes(data, start, n) + (if start + n < 256 {
            word_kept(data[start + n])
        } else {
            Seq::<u8>::empty()
        }),
    decreases n,
{
    if start >= 256 {
        assert(kept_bytes(data, start, n + 1) =~= Seq::<u8>::empty());
        assert(kept_bytes(data, start, n) =~= Seq::<u8>::empty());
        assert(kept_bytes(data, start, n) + Seq::<u8>::empty() =~= Seq::<u8>::empty());
    } else if n == 0 {
        assert(kept_bytes(data, start + 1, 0) =~= Seq::<u8>::empty());
        assert(kept_bytes(data, start, 0) =~= Seq::<u8>::empty());
        assert(kept_bytes(data, start, 1) == word_kept(data[start]) + kept_bytes(
            data,
            start + 1,
            0,
        ));
        assert(word_kept(data[start]) + Seq::<u8>::empty() =~= word_kept(data[start]));
        assert(kept_bytes(data, start, 0) + word_kept(data[start]) =~= word_kept(data[start]));
    } else {
        lemma_kept_bytes_snoc(data, start + 1, n - 1);
        let x = if start + n < 256 {
            word_kept(data[start + n])
        } else {
            Seq::<u8>::empty()
        };
        assert(kept_bytes(data, start, n + 1) == word_kept(data[start]) + kept_bytes(
            data,
            start + 1,
            n,
        ));
        assert(word_kept(data[start]) + (kept_bytes(data, start + 1, n - 1) + x) =~= (word_kept(
            data[start],
        ) + kept_bytes(data, start + 1, n - 1)) + x);
        assert(kept_bytes(data, start, n) == word_kept(data[start]) + kept_bytes(
            data,
            start + 1,
            n - 1,
        ));
    }
}

/// Leading spaces removed.
pub open spec fn trim_front(s: Seq<u8>) -> Seq<u8>
    decreases s.len(),
{
    if s.len() > 0 && s[0] == 32 {
        trim_front(s.drop_first())
    } else {
        s
    }
}

/// Trailing spaces removed.
pub open spec fn trim_back(s: Seq<u8>) -> Seq<u8>
    decreases s.len(),
{
    if s.len() > 0 && s.last() == 32 {
        trim_back(s.drop_last())
    } else {
        s
    }
}

/// Leading and trailing spaces removed.
pub open spec fn trimmed(s: Seq<u8>) -> Seq<u8> {
    trim_back(trim_front(s))
}

/// Dropping a fully-spaced prefix is what `trim_front` does.
proof fn lemma_trim_front_skip(s: Seq<u8>, k: int)
    requires
        0 <= k <= s.len(),
        forall|j: int| 0 <= j < k ==> s[j] == 32,
        k == s.len() || s[k] != 32,
    ensures
        trim_front(s) == s.skip(k),
    decreases k,
{
    if k == 0 {
        assert(s.skip(0) =~= s);
    } else {
        lemma_trim_front_skip(s.drop_first(), k - 1);
        assert(s.drop_first().skip(k - 1) =~= s.skip(k));
    }
}

/// Keeping everything before a fully-spaced suffix is what `trim_back`
/// does.
proof fn lemma_trim_back_take(s: Seq<u8>, m: int)
    requires
        0 <= m <= s.len(),
        forall|j: int| m <= j < s.len() ==> s[j] == 32,
        m == 0 || s[m - 1] != 32,
    ensures
        trim_back(s) == s.take(m),
    decreases s.len() - m,
{
    if m == s.len() {
        assert(s.take(m) =~= s);
    } else {
        lemma_trim_back_take(s.drop_last(), m);
        assert(s.drop_last().take(m) =~= s.take(m));
    }
}

/// Remove leading and trailing spaces from a byte string.
pub fn trim_spaces(v: &Vec<u8>) -> (r: Vec<u8>)
    ensures
        r@ == trimmed(v@),
{
    let n = v.len();
    let mut a: usize = 0;
    while a < n && v[a] == 32
        invariant
            a <= n,
            n == v@.len(),
            forall|j: int| 0 <= j < a ==> v@[j] == 32,
        decreases n - a,
    {
        a = a + 1;
    }
    proof {
        lemma_trim_front_skip(v@, a as int);
    }
    let ghost fronted = v@.skip(a as int);
    let mut b: usize = n;
    while b > a && v[b - 1] == 32
        invariant
            a <= b <= n,
            n == v@.len(),
            forall|j: int| b <= j < n ==> v@[j] == 32,
        decreases b,
    {
        b = b - 1;
    }
    proof {
        assert forall|j: int| b - a <= j < fronted.len() implies fronted[j] == 32 by {
            assert(fronted[j] == v@[j + a]);
        }
        if b > a {
            assert(fronted[b - a - 1] == v@[b - 1]);
        }
        lemma_trim_back_take(fronted, b - a);
    }
    let mut out: Vec<u8> = Vec::new();
    let mut i: usize = a;
    while i < b
        invariant
            a <= i <= b <= n,
            n == v@.len(),
            out@.len() == i - a,
            forall|j: int| 0 <= j < out@.len() ==> out@[j] == v@[a + j],
        decreases b - i,
    {
        out.push(v[i]);
        i = i + 1;
    }
    proof {
        assert(out@ =~= fronted.take(b - a as int));
        assert(out@ =~= trimmed(v@));
    }
    out
}

/// Pull one of the space-padded ASCII strings out of an IDENTIFY block:
/// each word contributes its high byte then its low byte, zero bytes end a
/// word, unprintable bytes are skipped, and the result is trimmed of the
/// padding spaces.
pub fn extract_string(data: &[u16], start_word: usize, word_count: usize) -> (r: Vec<u8>)
    requires
        data@.len() == 256,
        start_word + word_count <= usize::MAX,
    ensures
        r@ == trimmed(kept_bytes(data@, start_word as int, word_count as int)),
{
    let mut raw: Vec<u8> = Vec::new();
    let mut i: usize = 0;
    while i < word_count && start_word + i < 256
        invariant
            data@.len() == 256,
            i <= word_count,
            start_word + word_count <= usize::MAX,
            raw@ == kept_bytes(data@, start_word as int, i as int),
        decreases word_count - i,
    {
        let word = data[start_word + i];
        let hi = (word >> 8) as u8;
        let lo = (word & 0xFF) as u8;
        proof {
            assert(word & 0xFF <= 0xFF) by (bit_vector);
            lemma_kept_bytes_snoc(data@, start_word as int, i as int);
        }
        if hi != 0 {
            if 0x20 <= hi && hi <= 0x7E {
                raw.push(hi);
            }
            if lo != 0 {
                if 0x20 <= lo && lo <= 0x7E {
                    raw.push(lo);
                }
            }
        }
        proof {
            assert(raw@ =~= kept_bytes(data@, start_word as int, i as int) + word_kept(
                data@[start_word + i],
            ));
        }
        i = i + 1;
    }
    proof {
        if i < word_count {
            // the window ran off the 256-word block: the rest contributes nothing
            lemma_kept_bytes_tail_empty(data@, start_word as int, i as int, word_count as int);
        }
    }
    trim_spaces(&raw)
}

/// Once the window has left the block, widening it adds nothing.
proof fn lemma_kept_bytes_tail_empty(data: Seq<u16>, start: int, i: int, count: int)
    requires
        0 <= i <= count,
        start + i >= 256,
    ensures
        kept_bytes(data, start, count) == kept_bytes(data, start, i),
    decreases i,
{
    if start >= 256 {
        assert(kept_bytes(data, start, count) =~= Seq::<u8>::empty());
        assert(kept_bytes(data, start, i) =~= Seq::<u8>::empty());
    } else if i == 0 {
        lemma_kept_empty_from(data, start, count);
    } else {
        lemma_kept_bytes_tail_empty(data, start + 1, i - 1, count - 1);
    }
}

/// A window that starts past the block is empty whatever its width.
proof fn lemma_kept_empty_from(data: Seq<u16>, start: int, count: int)
    requires
        start >= 256,
    ensures
        kept_bytes(data, start, count) == Seq::<u8>::empty(),
    decreases count,
{
}

/// The sector count the IDENTIFY block reports, by the mode ladder: no
/// device at all — zero; no LBA support — the CHS product, wrapped to 32
/// bits as the driver's 32-bit arithmetic wraps it; 48-bit support — the
/// four-word count; otherwise the two-word 28-bit count.
pub open spec fn spec_identify_sectors(data: Seq<u16>) -> u64 {
    if data[0] == 0 {
        0
    } else if data[49] & 0x200 == 0 {
        ((data[1] as int) * (data[3] as int) * (data[6] as int) % 0x100000000) as u64
    } else if data[83] & 0x400 != 0 {
        ((data[103] as u64) << 48) | ((data[102] as u64) << 32) | ((data[101] as u64) << 16) | (
        data[100] as u64)
    } else {
        ((data[61] as u64) << 16) | (data[60] as u64)
    }
}

/// Whether the block reports 48-bit addressing (only meaningful for an LBA
/// device that exists).
pub open spec fn spec_identify_lba48(data: Seq<u16>) -> bool {
    data[0] != 0 && data[49] & 0x200 != 0 && data[83] & 0x400 != 0
}

/// The model string reported for a missing device.
pub open spec fn no_device_model() -> Seq<u8> {
    seq![0x4Eu8, 0x6F, 0x20, 0x44, 0x65, 0x76, 0x69, 0x63, 0x65]
}

/// What a drive told us about itself. The textual fields hold the ASCII
/// bytes of the reported strings.
#[derive(Debug)]
pub struct DriveInfo {
    pub model: Vec<u8>,
    pub serial: Vec<u8>,
    pub firmware: Vec<u8>,
    pub sectors: u64,
    pub supports_lba48: bool,
    pub sector_size: u16,
}

impl DriveInfo {
    /// Parse a 256-word IDENTIFY block: the three text fields, the sector
    /// count by the mode ladder, and the 48-bit capability bit.
    pub fn from_identify_data(data: &[u16]) -> (r: DriveInfo)
        requires
            data@.len() == 256,
        ensures
            r.sectors == spec_identify_sectors(data@),
            r.supports_lba48 == spec_identify_lba48(data@),
            r.sector_size == 512,
            data@[0] == 0 ==> r.model@ == no_device_model() && r.serial@ == Seq::<u8>::empty()
                && r.firmware@ == Seq::<u8>::empty(),
            data@[0] != 0 ==> r.model@ == trimmed(kept_bytes(data@, 27, 20)) && r.serial@
                == trimmed(kept_bytes(data@, 10, 10)) && r.firmware@ == trimmed(
                kept_bytes(data@, 23, 4),
            ),
    {
        if data[0] == 0 {
            let model: Vec<u8> = vec![0x4E, 0x6F, 0x20, 0x44, 0x65, 0x76, 0x69, 0x63, 0x65];
            proof {
                assert(model@ =~= no_device_model());
            }
            return DriveInfo {
                model,
                serial: Vec::new(),
                firmware: Vec::new(),
                sectors: 0,
                supports_lba48: false,
                sector_size: 512,
            };
        }
        let model = extract_string(data, 27, 20);
        let serial = extract_string(data, 10, 10);
        let firmware = extract_string(data, 23, 4);
        let lba_supported = data[49] & 0x200 != 0;
        if !lba_supported {
            let cylinders = data[1] as u64;
            let heads = data[3] as u64;
            let sectors_per_track = data[6] as u64;
            proof {
                assert(cylinders * heads <= 0xFFFF * 0xFFFF) by (nonlinear_arith)
                    requires
                        cylinders <= 0xFFFF && heads <= 0xFFFF,
                ;
                assert(cylinders * heads * sectors_per_track <= 0xFFFF * 0xFFFF * 0xFFFF)
                    by (nonlinear_arith)
                    requires
                        cylinders <= 0xFFFF && heads <= 0xFFFF && sectors_per_track <= 0xFFFF,
                ;
            }
            let total: u64 = (cylinders * heads * sectors_per_track) % 0x100000000;
            return DriveInfo {
                model,
                serial,
                firmware,
                sectors: total,
                supports_lba48: false,
                sector_size: 512,
            };
        }
        let supports_lba48 = data[83] & 0x400 != 0;
        let sectors: u64 = if supports_lba48 {
            ((data[103] as u64) << 48) | ((data[102] as u64) << 32) | ((data[101] as u64) << 16) | (
            data[100] as u64)
        } else {
            ((data[61] as u64) << 16) | (data[60] as u64)
        };
        DriveInfo { model, serial, firmware, sectors, supports_lba48, sector_size: 512 }
    }

    /// The drive's capacity in whole mebibytes.
    pub fn capacity_mb(&self) -> (r: u64)
        requires
            self.sectors * self.sector_size <= u64::MAX,
        ensures
            r == (self.sectors * self.sector_size as int) / 0x100000,
            self.sector_size == 512 ==> r == (self.sectors * 512) / 0x100000,
    {
        (self.sectors * self.sector_size as u64) / 0x100000
    }

    /// The drive's capacity in whole gibibytes.
    pub fn capacity_gb(&self) -> (r: u64)
        requires
            self.sectors * self.sector_size <= u64::MAX,
        ensures
            r == (self.sectors * self.sector_size as int) / 0x100000 / 1024,
    {
        self.capacity_mb() / 1024
    }
}


/// The reading plan for one file: its chain's clusters and their first
/// sectors, and how many bytes of the read-back data belong to the file.
#[derive(Debug)]
pub struct FileReadPlan {
    pub clusters: Vec<u64>,
    pub lbas: Vec<u64>,
    pub sectors_per_cluster: u16,
    pub size: usize,
}

/// How many whole clusters a read of `size` bytes touches; even an empty
/// file's first cluster is read once.
pub open spec fn read_clusters_needed(size: int) -> int {
    if size <= 0 {
        1
    } else {
        (size + 4096 - 1) / 4096
    }
}

/// The concatenation of a sequence of buffers.
pub open spec fn concat_bufs(bufs: Seq<Seq<u8>>) -> Seq<u8>
    decreases bufs.len(),
{
    if bufs.len() == 0 {
        Seq::empty()
    } else {
        bufs[0] + concat_bufs(bufs.drop_first())
    }
}

/// Both ATA channels of the machine, primary and secondary.
#[derive(Debug)]
pub struct AtaControllers {
    pub primary: AtaController,
    pub secondary: AtaController,
}

impl AtaControllers {
    /// The channel a request addresses.
    pub open spec fn pick(&self, primary: bool) -> AtaController {
        if primary {
            self.primary
        } else {
            self.secondary
        }
    }
}

/// Encode a read against the chosen channel (see
/// [`AtaController::read_sectors`]).
pub fn read_sectors(
    ctls: &AtaControllers,
    primary: bool,
    device: AtaDevice,
    lba: u64,
    count: u16,
    buffer_len: usize,
) -> (r: Result<AtaCommandPlan, AtaError>)
    ensures
        r is Err <==> buffer_len < count * SECTOR_SIZE,
        r is Err ==> r == Err::<AtaCommandPlan, AtaError>(AtaError::BufferTooSmall),
        r matches Ok(plan) ==> {
            let c = ctls.pick(primary);
            &&& plan.select == (RegWrite { port: c.device_port, value: select_value(device) })
            &&& plan.sectors == count
            &&& plan.data_port == c.data_port
            &&& !plan.flush_after
            &&& (needs_lba48(c, device, lba, count) ==> plan.setup@ == lba48_writes(
                c,
                device,
                lba,
                count,
                ATA_CMD_READ_SECTORS_EXT,
            ))
            &&& (!needs_lba48(c, device, lba, count) ==> plan.setup@ == lba28_writes(
                c,
                device,
                lba as u32,
                count as u8,
                ATA_CMD_READ_SECTORS,
            ))
        },
{
    if primary {
        ctls.primary.read_sectors(device, lba, count, buffer_len)
    } else {
        ctls.secondary.read_sectors(device, lba, count, buffer_len)
    }
}

/// Encode a write against the chosen channel (see
/// [`AtaController::write_sectors`]).
pub fn write_sectors(
    ctls: &AtaControllers,
    primary: bool,
    device: AtaDevice,
    lba: u64,
    buffer_len: usize,
) -> (r: Result<AtaCommandPlan, AtaError>)
    requires
        buffer_len / SECTOR_SIZE <= u16::MAX,
    ensures
        r is Err <==> buffer_len % SECTOR_SIZE != 0,
        r is Err ==> r == Err::<AtaCommandPlan, AtaError>(AtaError::InvalidSectorSize),
        r matches Ok(plan) ==> {
            let c = ctls.pick(primary);
            let count = (buffer_len / SECTOR_SIZE) as u16;
            &&& plan.select == (RegWrite { port: c.device_port, value: select_value(device) })
            &&& plan.sectors == count
            &&& plan.data_port == c.data_port
            &&& plan.flush_after
            &&& (needs_lba48(c, device, lba, count) ==> plan.setup@ == lba48_writes(
                c,
                device,
                lba,
                count,
                ATA_CMD_WRITE_SECTORS_EXT,
            ))
            &&& (!needs_lba48(c, device, lba, count) ==> plan.setup@ == lba28_writes(
                c,
                device,
                lba as u32,
                count as u8,
                ATA_CMD_WRITE_SECTORS,
            ))
        },
{
    if primary {
        ctls.primary.write_sectors(device, lba, buffer_len)
    } else {
        ctls.secondary.write_sectors(device, lba, buffer_len)
    }
}

/// Digest an IDENTIFY result against the chosen channel (see
/// [`AtaController::identify`]).
pub fn identify_drive(
    ctls: &mut AtaControllers,
    primary: bool,
    device: AtaDevice,
    data: &[u16],
) -> (r: DriveInfo)
    requires
        data@.len() == 256,
    ensures
        r.sectors == spec_identify_sectors(data@),
        r.supports_lba48 == spec_identify_lba48(data@),
        r.sector_size == 512,
        data@[0] == 0 ==> r.model@ == no_device_model() && r.serial@ == Seq::<u8>::empty()
            && r.firmware@ == Seq::<u8>::empty(),
        data@[0] != 0 ==> r.model@ == trimmed(kept_bytes(data@, 27, 20)) && r.serial@ == trimmed(
            kept_bytes(data@, 10, 10),
        ) && r.firmware@ == trimmed(kept_bytes(data@, 23, 4)),
        final(ctls).pick(primary).supports_lba48[device.idx()] == r.supports_lba48,
        final(ctls).pick(primary).max_sectors[device.idx()] == r.sectors,
        final(ctls).pick(!primary) == old(ctls).pick(!primary),
{
    if primary {
        ctls.primary.identify(device, data)
    } else {
        ctls.secondary.identify(device, data)
    }
}

/// Strict lexicographic order on names, by character: the order an ordered
/// map of strings keeps its keys in.
pub open spec fn chars_lt(a: Seq<char>, b: Seq<char>) -> bool
    decreases a.len(),
{
    if b.len() == 0 {
        false
    } else if a.len() == 0 {
        true
    } else if a[0] != b[0] {
        (a[0] as int) < (b[0] as int)
    } else {
        chars_lt(a.drop_first(), b.drop_first())
    }
}

/// The order is irreflexive and connected: distinct names compare one way
/// or the other, and no name sorts below itself.
pub proof fn lemma_chars_lt_connected(a: Seq<char>, b: Seq<char>)
    ensures
        a == b ==> !chars_lt(a, b),
        a != b ==> (chars_lt(a, b) <==> !chars_lt(b, a)),
    decreases a.len() + b.len(),
{
    if a.len() == 0 || b.len() == 0 {
        if a.len() != 0 {
            assert(a != b);
        } else if b.len() != 0 {
            assert(a != b);
        } else {
            assert(a =~= b);
        }
    } else if a[0] != b[0] {
        assert(a != b);
    } else {
        lemma_chars_lt_connected(a.drop_first(), b.drop_first());
        if a.drop_first() == b.drop_first() {
            assert(a.len() == b.len());
            assert forall|j: int| 0 <= j < a.len() implies a[j] == b[j] by {
                if j > 0 {
                    assert(a.drop_first()[j - 1] == b.drop_first()[j - 1]);
                }
            }
            assert(a =~= b);
        } else {
            assert(a != b) by {
                if a == b {
                    assert(a.drop_first() =~= b.drop_first());
                }
            }
        }
    }
}

/// The order is transitive.
pub proof fn lemma_chars_lt_transitive(a: Seq<char>, b: Seq<char>, c: Seq<char>)
    requires
        chars_lt(a, b),
        chars_lt(b, c),
    ensures
        chars_lt(a, c),
    decreases a.len() + b.len() + c.len(),
{
    if c.len() == 0 || b.len() == 0 {
    } else if a.len() == 0 {
    } else {
        if a[0] != b[0] {
            assert((a[0] as int) < (b[0] as int));
            if b[0] != c[0] {
                assert((b[0] as int) < (c[0] as int));
            }
        } else {
            if b[0] != c[0] {
                assert((b[0] as int) < (c[0] as int));
            } else {
                lemma_chars_lt_transitive(a.drop_first(), b.drop_first(), c.drop_first());
            }
        }
    }
}

/// Once two names agree on a prefix, their order is decided past it: at the
/// first differing character, or by length when one is a prefix of the
/// other.
pub proof fn lemma_chars_lt_prefix(a: Seq<char>, b: Seq<char>, i: int)
    requires
        0 <= i <= a.len(),
        i <= b.len(),
        forall|j: int| 0 <= j < i ==> a[j] == b[j],
    ensures
        (i < a.len() && i < b.len() && a[i] != b[i]) ==> (chars_lt(a, b) == ((a[i] as int) < (
        b[i] as int))),
        (i == a.len() || i == b.len()) ==> (chars_lt(a, b) == (a.len() < b.len())),
    decreases i,
{
    if i == 0 {
        if i == a.len() || i == b.len() {
            if a.len() == 0 && b.len() == 0 {
            } else if a.len() == 0 {
                assert(chars_lt(a, b));
            } else {
                assert(b.len() == 0);
                assert(!chars_lt(a, b));
            }
        }
    } else {
        assert(a[0] == b[0]);
        lemma_chars_lt_prefix(a.drop_first(), b.drop_first(), i - 1);
        assert(chars_lt(a, b) == chars_lt(a.drop_first(), b.drop_first()));
        if i < a.len() && i < b.len() && a[i] != b[i] {
            assert(a.drop_first()[i - 1] == a[i] && b.drop_first()[i - 1] == b[i]);
        }
    }
}

/// Compare two names in the lexicographic order, character by character.
pub fn name_lt(a: &String, b: &String) -> (r: bool)
    ensures
        r == chars_lt(a@, b@),
{
    let an = a.as_str().unicode_len();
    let bn = b.as_str().unicode_len();
    let mut i: usize = 0;
    while i < an && i < bn
        invariant
            i <= an,
            i <= bn,
            an == a@.len(),
            bn == b@.len(),
            forall|j: int| 0 <= j < i ==> a@[j] == b@[j],
        decreases an - i,
    {
        let ca = a.as_str().get_char(i);
        let cb = b.as_str().get_char(i);
        if ca != cb {
            proof {
                lemma_chars_lt_prefix(a@, b@, i as int);
            }
            return (ca as u32) < (cb as u32);
        }
        i = i + 1;
    }
    proof {
        lemma_chars_lt_prefix(a@, b@, i as int);
    }
    an < bn
}

/// The filesystem's on-disk identity, fixed at creation.
#[derive(Debug)]
pub struct SuperBlock {
    pub bytes_per_sector: usize,
    pub sectors_per_cluster: usize,
    pub total_sectors: u64,
    pub fs_type: Vec<u8>,
    pub label: Vec<u8>,
    pub start_lba: u64,
}

/// The signature bytes the superblock sector starts with.
pub open spec fn fs_signature() -> Seq<u8> {
    seq![0x41u8, 0x54, 0x41, 0x5F, 0x46, 0x53]
}

impl SuperBlock {
    /// A superblock for a region of `total_sectors` sectors at `start_lba`:
    /// 512-byte sectors, eight sectors per cluster.
    pub fn new(start_lba: u64, total_sectors: u64) -> (r: SuperBlock)
        ensures
            r.bytes_per_sector == 512,
            r.sectors_per_cluster == 8,
            r.total_sectors == total_sectors,
            r.start_lba == start_lba,
            r.fs_type@ == fs_signature(),
            r.label@ == seq![0x41u8, 0x54, 0x41, 0x44, 0x49, 0x53, 0x4B],
    {
        let fs_type: Vec<u8> = vec![0x41, 0x54, 0x41, 0x5F, 0x46, 0x53];
        let label: Vec<u8> = vec![0x41, 0x54, 0x41, 0x44, 0x49, 0x53, 0x4B];
        proof {
            assert(fs_type@ =~= fs_signature());
            assert(label@ =~= seq![0x41u8, 0x54, 0x41, 0x44, 0x49, 0x53, 0x4B]);
        }
        SuperBlock {
            bytes_per_sector: 512,
            sectors_per_cluster: 8,
            total_sectors,
            fs_type,
            label,
            start_lba,
        }
    }

    /// Bytes per cluster.
    pub fn cluster_size(&self) -> (r: usize)
        requires
            self.bytes_per_sector * self.sectors_per_cluster <= usize::MAX,
        ensures
            r == self.bytes_per_sector * self.sectors_per_cluster,
    {
        self.bytes_per_sector * self.sectors_per_cluster
    }

    /// Sectors per cluster, as the transfer count type.
    pub fn sectors_per_cluster(&self) -> (r: u16)
        requires
            self.sectors_per_cluster <= u16::MAX,
        ensures
            r == self.sectors_per_cluster,
    {
        self.sectors_per_cluster as u16
    }
}

/// One directory entry of the cluster filesystem.
#[derive(Debug)]
pub struct DirEntry {
    pub name: String,
    pub start_cluster: u64,
    pub size: usize,
    pub is_directory: bool,
}

/// One slot of the cluster allocation table.
#[derive(Clone, Copy, PartialEq, Eq, Structural, Debug)]
pub enum FatEntry {
    /// Not allocated (or freed again).
    Free,
    /// Allocated, last cluster of its file.
    End,
    /// Allocated, chained to the given next cluster.
    Next(u64),
}

/// A sector-aligned write the machine is to perform.
#[derive(Debug)]
pub struct SectorWrite {
    pub lba: u64,
    pub data: Vec<u8>,
}

/// Whether some directory entry carries this name.
pub open spec fn contains_name(dir: Seq<DirEntry>, name: Seq<char>) -> bool {
    exists|i: int| 0 <= i < dir.len() && dir[i].name@ == name
}

/// Bytes per cluster of this filesystem layout.
pub const CLUSTER_SIZE: usize = 4096;

/// How many clusters a file of `len` bytes occupies.
pub open spec fn clusters_for(len: int) -> int {
    (len + CLUSTER_SIZE - 1) / (CLUSTER_SIZE as int)
}

/// The simple cluster filesystem the kernel lays over a disk region: an
/// in-memory directory and allocation table, with file data written to the
/// region cluster by cluster. Loading and storing the metadata itself is
/// the machine's part; every operation here returns the exact sector
/// writes it implies.
#[derive(Debug)]
pub struct AtaFileSystem {
    /// Which channel the backing device sits on.
    pub controller: bool,
    pub device: AtaDevice,
    pub superblock: SuperBlock,
    pub directory: Vec<DirEntry>,
    pub fat: Vec<FatEntry>,
    /// The next cluster number to hand out; clusters are never reused.
    pub next_free_cluster: u64,
}

impl AtaFileSystem {
    /// Well-formedness: the allocation counter matches the table, cluster
    /// zero is reserved, the directory is kept sorted ascending by name (as
    /// an ordered map would keep it) with names unique, every entry's first
    /// cluster is in the table, and every chain link points strictly
    /// forward inside the table — chains never cycle.
    pub open spec fn wf(&self) -> bool {
        &&& self.next_free_cluster == self.fat@.len()
        &&& self.fat@.len() >= 1
        &&& self.superblock.bytes_per_sector == 512
        &&& self.superblock.sectors_per_cluster == 8
        &&& forall|i: int, j: int|
            0 <= i < j < self.directory@.len() ==> chars_lt(
                self.directory@[i].name@,
                self.directory@[j].name@,
            )
        &&& forall|i: int, j: int|
            0 <= i < j < self.directory@.len() ==> self.directory@[i].name@
                != self.directory@[j].name@
        &&& forall|i: int|
            0 <= i < self.directory@.len() ==> (#[trigger] self.directory@[i]).start_cluster
                < self.fat@.len()
        &&& forall|i: int|
            0 <= i < self.directory@.len() ==> (#[trigger] self.directory@[i]).size + CLUSTER_SIZE
                <= usize::MAX
        &&& forall|c: int|
            0 <= c < self.fat@.len() ==> ((#[trigger] self.fat@[c]) matches FatEntry::Next(n)
                ==> c < n < self.fat@.len())
    }

    /// A fresh, empty filesystem over `size_sectors` sectors at
    /// `start_lba` of a drive with `drive_sectors` sectors; a region that
    /// runs past the drive is refused. The machine then probes the region's
    /// superblock sector and either keeps the empty state or formats.
    pub fn new(controller: bool, device: AtaDevice, start_lba: u64, size_sectors: u64,
        drive_sectors: u64) -> (r: Result<AtaFileSystem, AtaError>)
        requires
            start_lba + size_sectors <= u64::MAX,
        ensures
            r is Err <==> start_lba + size_sectors > drive_sectors,
            r is Err ==> r == Err::<AtaFileSystem, AtaError>(AtaError::InvalidLba),
            r matches Ok(fs) ==> {
                &&& fs.wf()
                &&& fs.controller == controller
                &&& fs.device == device
                &&& fs.superblock.start_lba == start_lba
                &&& fs.superblock.total_sectors == size_sectors
                &&& fs.directory@.len() == 0
                &&& fs.fat@.len() == 1
                &&& fs.next_free_cluster == 1
            },
    {
        if start_lba + size_sectors > drive_sectors {
            return Err(AtaError::InvalidLba);
        }
        let superblock = SuperBlock::new(start_lba, size_sectors);
        let mut fat: Vec<FatEntry> = Vec::new();
        fat.push(FatEntry::Free);
        Ok(
            AtaFileSystem {
                controller,
                device,
                superblock,
                directory: Vec::new(),
                fat,
                next_free_cluster: 1,
            },
        )
    }

    /// Reset the filesystem to empty and return the superblock write that
    /// stamps the region with the signature.
    pub fn format(&mut self) -> (r: SectorWrite)
        requires
            old(self).wf(),
        ensures
            final(self).wf(),
            final(self).directory@.len() == 0,
            final(self).fat@.len() == 1,
            final(self).next_free_cluster == 1,
            final(self).superblock == old(self).superblock,
            final(self).controller == old(self).controller,
            final(self).device == old(self).device,
            r.lba == old(self).superblock.start_lba,
            r.data@.len() == 512,
            r.data@.subrange(0, 6) == fs_signature(),
            forall|j: int| 6 <= j < 512 ==> r.data@[j] == 0,
    {
        self.directory = Vec::new();
        let mut fat: Vec<FatEntry> = Vec::new();
        fat.push(FatEntry::Free);
        self.fat = fat;
        self.next_free_cluster = 1;
        let mut data: Vec<u8> = vec![0u8; 512];
        data[0] = 0x41;
        data[1] = 0x54;
        data[2] = 0x41;
        data[3] = 0x5F;
        data[4] = 0x46;
        data[5] = 0x53;
        proof {
            assert(data@.subrange(0, 6) =~= fs_signature());
        }
        SectorWrite { lba: self.superblock.start_lba, data }
    }

    /// Whether a sector image carries the filesystem signature, deciding
    /// between loading an existing filesystem and formatting a new one.
    pub fn check_superblock(buffer: &[u8]) -> (r: bool)
        requires
            buffer@.len() == 512,
        ensures
            r <==> buffer@.subrange(0, 6) == fs_signature(),
    {
        let ok = buffer[0] == 0x41 && buffer[1] == 0x54 && buffer[2] == 0x41 && buffer[3] == 0x5F
            && buffer[4] == 0x46 && buffer[5] == 0x53;
        proof {
            if ok {
                assert(buffer@.subrange(0, 6) =~= fs_signature());
            } else {
                assert(buffer@.subrange(0, 6)[0] == buffer@[0]);
                assert(buffer@.subrange(0, 6)[1] == buffer@[1]);
                assert(buffer@.subrange(0, 6)[2] == buffer@[2]);
                assert(buffer@.subrange(0, 6)[3] == buffer@[3]);
                assert(buffer@.subrange(0, 6)[4] == buffer@[4]);
                assert(buffer@.subrange(0, 6)[5] == buffer@[5]);
            }
        }
        ok
    }

    /// The first sector of a cluster.
    pub fn cluster_to_lba(&self, cluster: u64) -> (r: u64)
        requires
            self.superblock.start_lba + cluster * self.superblock.sectors_per_cluster <= u64::MAX,
        ensures
            r == self.superblock.start_lba + cluster * self.superblock.sectors_per_cluster,
    {
        self.superblock.start_lba + cluster * self.superblock.sectors_per_cluster as u64
    }

    /// Hand out the next cluster, recorded as a chain end until linked.
    pub fn allocate_cluster(&mut self) -> (r: u64)
        requires
            old(self).wf(),
            old(self).fat@.len() < u64::MAX,
        ensures
            r == old(self).fat@.len(),
            final(self).fat@ == old(self).fat@.push(FatEntry::End),
            final(self).next_free_cluster == old(self).next_free_cluster + 1,
            final(self).directory == old(self).directory,
            final(self).superblock == old(self).superblock,
            final(self).controller == old(self).controller,
            final(self).device == old(self).device,
    {
        let cluster = self.next_free_cluster;
        self.next_free_cluster = self.next_free_cluster + 1;
        self.fat.push(FatEntry::End);
        cluster
    }

    /// Look up a name in the directory.
    fn find_entry(&self, name: &String) -> (r: Option<usize>)
        ensures
            r is Some <==> contains_name(self.directory@, name@),
            r matches Some(i) ==> i < self.directory@.len() && self.directory@[i as int].name@
                == name@,
    {
        let mut i: usize = 0;
        while i < self.directory.len()
            invariant
                i <= self.directory@.len(),
                forall|j: int| 0 <= j < i ==> self.directory@[j].name@ != name@,
            decreases self.directory@.len() - i,
        {
            if self.directory[i].name.eq(name) {
                return Some(i);
            }
            i = i + 1;
        }
        None
    }
}


/// One cluster-sized chunk of file data, zero-padded past the file's end.
fn build_chunk(data: &[u8], offset: usize) -> (r: Vec<u8>)
    requires
        offset <= data@.len(),
        data@.len() + CLUSTER_SIZE <= usize::MAX,
    ensures
        r@.len() == CLUSTER_SIZE,
        forall|j: int|
            0 <= j < CLUSTER_SIZE ==> r@[j] == (if offset + j < data@.len() {
                data@[offset + j]
            } else {
                0u8
            }),
{
    let mut out: Vec<u8> = vec![0u8; CLUSTER_SIZE];
    let mut j: usize = 0;
    while j < CLUSTER_SIZE && offset + j < data.len()
        invariant
            offset <= data@.len(),
            data@.len() + CLUSTER_SIZE <= usize::MAX,
            j <= CLUSTER_SIZE,
            out@.len() == CLUSTER_SIZE,
            j > 0 ==> offset + j <= data@.len(),
            forall|k: int| 0 <= k < j ==> out@[k] == data@[offset + k],
            forall|k: int| j <= k < CLUSTER_SIZE ==> out@[k] == 0u8,
        decreases CLUSTER_SIZE - j,
    {
        out[j] = data[offset + j];
        j = j + 1;
    }
    out
}

impl AtaFileSystem {
    /// Create a file: refuse a name already present; otherwise allocate one
    /// cluster per chunk of data, chain them in the table, record the
    /// directory entry, and return the cluster writes — each chunk
    /// zero-padded to a full cluster at the cluster's first sector — for
    /// the machine to perform, followed by the metadata writes its own
    /// superblock handling adds.
    pub fn create_file(&mut self, name: &String, data: &[u8]) -> (r: Result<
        Vec<SectorWrite>,
        AtaError,
    >)
        requires
            old(self).wf(),
            data@.len() + CLUSTER_SIZE <= usize::MAX,
            old(self).fat@.len() + clusters_for(data@.len() as int) <= u64::MAX,
            old(self).superblock.start_lba + (old(self).fat@.len() + clusters_for(
                data@.len() as int,
            )) * 8 <= u64::MAX,
        ensures
            final(self).wf(),
            r is Err <==> contains_name(old(self).directory@, name@),
            r is Err ==> r == Err::<Vec<SectorWrite>, AtaError>(AtaError::CommandFailed) && final(self).directory == old(self).directory && final(self).fat == old(self).fat,
            r matches Ok(writes) ==> ({
                let k = clusters_for(data@.len() as int);
                let base = old(self).fat@.len();
                &&& final(self).directory@.len() == old(self).directory@.len() + 1
                &&& forall|i: int|
                    0 <= i < old(self).directory@.len() ==> final(self).directory@.contains(
                        #[trigger] old(self).directory@[i],
                    )
                &&& contains_name(final(self).directory@, name@)
                &&& forall|n: Seq<char>|
                    n != name@ ==> (contains_name(final(self).directory@, n) <==> contains_name(
                        old(self).directory@,
                        n,
                    ))
                &&& exists|e: int|
                    0 <= e < final(self).directory@.len() && (#[trigger] final(self).directory@[e]).name@ == name@
                        && final(self).directory@[e].size == data@.len() && !final(self).directory@[e].is_directory
                        && final(self).directory@[e].start_cluster == (if k > 0 {
                        base as u64
                    } else {
                        0u64
                    })
                &&& final(self).fat@.len() == base + k
                &&& forall|c: int| 0 <= c < base ==> final(self).fat@[c] == old(self).fat@[c]
                &&& forall|i: int|
                    0 <= i < k - 1 ==> (#[trigger] final(self).fat@[base + i]) == FatEntry::Next(
                        (base + i + 1) as u64,
                    )
                &&& (k > 0 ==> final(self).fat@[base + k - 1] == FatEntry::End)
                &&& writes@.len() == k
                &&& forall|i: int|
                    0 <= i < k ==> (#[trigger] writes@[i]).lba == old(self).superblock.start_lba + (
                    base + i) * 8
                &&& forall|i: int|
                    0 <= i < k ==> (#[trigger] writes@[i]).data@.len() == CLUSTER_SIZE
                &&& forall|i: int, j: int|
                    0 <= i < k && 0 <= j < CLUSTER_SIZE ==> (#[trigger] writes@[i].data@[j]) == (
                    if i * CLUSTER_SIZE + j < data@.len() {
                        data@[i * CLUSTER_SIZE + j]
                    } else {
                        0u8
                    })
            }),
    {
        if self.find_entry(name).is_some() {
            return Err(AtaError::CommandFailed);
        }
        let ghost base = self.fat@.len() as int;
        let ghost k = clusters_for(data@.len() as int);
        let mut writes: Vec<SectorWrite> = Vec::new();
        let mut offset: usize = 0;
        let mut produced: usize = 0;
        proof {
            assert(k >= 0) by {
                assert((data@.len() + CLUSTER_SIZE - 1) as int / (CLUSTER_SIZE as int) >= 0);
            }
        }
        while offset < data.len()
            invariant
                self.wf(),
                data@.len() + CLUSTER_SIZE <= usize::MAX,
                base + k <= u64::MAX,
                self.superblock == old(self).superblock,
                self.controller == old(self).controller,
                self.device == old(self).device,
                self.directory == old(self).directory,
                old(self).superblock.start_lba + (base + k) * 8 <= u64::MAX,
                base == old(self).fat@.len(),
                k == clusters_for(data@.len() as int),
                offset <= data@.len(),
                produced <= k,
                (offset < data@.len()) ==> offset == produced * CLUSTER_SIZE && produced < k,
                (offset >= data@.len()) ==> produced == k,
                self.fat@.len() == base + produced,
                forall|c: int| 0 <= c < base ==> self.fat@[c] == old(self).fat@[c],
                forall|i: int|
                    0 <= i < produced ==> (#[trigger] self.fat@[base + i]) == FatEntry::End,
                writes@.len() == produced,
                forall|i: int|
                    0 <= i < produced ==> (#[trigger] writes@[i]).lba == old(self).superblock.start_lba + (base + i) * 8,
                forall|i: int|
                    0 <= i < produced ==> (#[trigger] writes@[i]).data@.len() == CLUSTER_SIZE,
                forall|i: int, j: int|
                    0 <= i < produced && 0 <= j < CLUSTER_SIZE ==> (#[trigger] writes@[i].data@[j])
                        == (if i * CLUSTER_SIZE + j < data@.len() {
                        data@[i * CLUSTER_SIZE + j]
                    } else {
                        0u8
                    }),
            decreases data@.len() - offset,
        {
            proof {
                assert(offset == produced * CLUSTER_SIZE && produced * CLUSTER_SIZE < data@.len());
                assert((produced + 1) * CLUSTER_SIZE == produced * CLUSTER_SIZE + CLUSTER_SIZE);
                assert(produced + 1 <= k) by (nonlinear_arith)
                    requires
                        produced * CLUSTER_SIZE < data@.len(),
                        k == (data@.len() + CLUSTER_SIZE - 1) as int / (CLUSTER_SIZE as int),
                        CLUSTER_SIZE == 4096,
                ;
            }
            let cluster = self.allocate_cluster();
            let chunk = build_chunk(data, offset);
            let lba = self.cluster_to_lba(cluster);
            writes.push(SectorWrite { lba, data: chunk });
            produced = produced + 1;
            if offset + CLUSTER_SIZE <= data.len() {
                offset = offset + CLUSTER_SIZE;
                proof {
                    if offset >= data@.len() {
                        assert(produced == k) by (nonlinear_arith)
                            requires
                                offset == produced * CLUSTER_SIZE,
                                (produced - 1) * CLUSTER_SIZE < data@.len(),
                                offset >= data@.len(),
                                produced <= k,
                                k == (data@.len() + CLUSTER_SIZE - 1) as int / (
                                CLUSTER_SIZE as int),
                                CLUSTER_SIZE == 4096,
                        ;
                    }
                }
            } else {
                offset = data.len();
                proof {
                    assert(produced == k) by (nonlinear_arith)
                        requires
                            (produced - 1) * CLUSTER_SIZE < data@.len(),
                            data@.len() < (produced - 1) * CLUSTER_SIZE + CLUSTER_SIZE,
                            produced <= k,
                            k == (data@.len() + CLUSTER_SIZE - 1) as int / (CLUSTER_SIZE as int),
                            CLUSTER_SIZE == 4096,
                    ;
                }
            }
            proof {
                if offset < data@.len() {
                    assert(produced < k) by (nonlinear_arith)
                        requires
                            offset == produced * CLUSTER_SIZE,
                            offset < data@.len(),
                            k == (data@.len() + CLUSTER_SIZE - 1) as int / (CLUSTER_SIZE as int),
                            CLUSTER_SIZE == 4096,
                    ;
                }
                assert forall|i: int, j: int|
                    0 <= i < produced && 0 <= j < CLUSTER_SIZE implies (#[trigger] writes@[i].data@[j])
                    == (if i * CLUSTER_SIZE + j < data@.len() {
                    data@[i * CLUSTER_SIZE + j]
                } else {
                    0u8
                }) by {
                    if i == produced - 1 {
                        assert(writes@[i].data@[j] == (if (produced - 1) * CLUSTER_SIZE + j
                            < data@.len() {
                            data@[(produced - 1) * CLUSTER_SIZE + j]
                        } else {
                            0u8
                        }));
                    }
                }
            }
        }
        proof {
            if data@.len() == 0 {
                assert(k == 0);
            }
        }
        let count = produced;
        if count > 1 {
            let last_link = count - 1;
            let base_cluster: u64 = self.next_free_cluster - count as u64;
            proof {
                assert(base_cluster == base);
            }
            let mut i: usize = 0;
            while i < last_link
                invariant
                    self.wf(),
                    count == produced,
                    produced == k,
                    count > 1,
                    last_link == count - 1,
                    base_cluster == base,
                    base == old(self).fat@.len(),
                    self.fat@.len() == base + k,
                    base + k <= u64::MAX,
                    i <= last_link,
                    self.directory == old(self).directory,
                    self.superblock == old(self).superblock,
                    self.controller == old(self).controller,
                    self.device == old(self).device,
                    self.next_free_cluster == base + k,
                    forall|c: int| 0 <= c < base ==> self.fat@[c] == old(self).fat@[c],
                    forall|j: int|
                        0 <= j < i ==> (#[trigger] self.fat@[base + j]) == FatEntry::Next(
                            (base + j + 1) as u64,
                        ),
                    forall|j: int|
                        i <= j < k ==> (#[trigger] self.fat@[base + j]) == FatEntry::End,
                decreases last_link - i,
            {
                let target: u64 = base_cluster + i as u64;
                let flen = self.fat.len();
                proof {
                    assert(target == base + i);
                    assert(target < flen);
                }
                let ghost fat_before = self.fat@;
                self.fat[target as usize] = FatEntry::Next(target + 1);
                proof {
                    assert(self.fat@ =~= fat_before.update(
                        base + i,
                        FatEntry::Next((base + i + 1) as u64),
                    ));
                    assert forall|c: int|
                        0 <= c < self.fat@.len() implies ((#[trigger] self.fat@[c])
                        matches FatEntry::Next(n) ==> c < n < self.fat@.len()) by {
                        if c != base + i {
                            assert(self.fat@[c] == fat_before[c]);
                        }
                    }
                }
                i = i + 1;
            }
        }
        proof {
            if k > 0 {
                let j = k - 1;
                assert(self.fat@[base + j] == FatEntry::End);
                assert(base + j == base + k - 1);
            }
        }
        let start_cluster: u64 = if count > 0 {
            self.next_free_cluster - count as u64
        } else {
            0
        };
        let entry = DirEntry {
            name: name.clone(),
            start_cluster,
            size: data.len(),
            is_directory: false,
        };
        let ghost d0 = self.directory@;
        proof {
            assert forall|j: int| 0 <= j < d0.len() implies d0[j].name@ != name@ by {
                assert(!contains_name(old(self).directory@, name@));
            }
        }
        // keep the directory sorted ascending by name, as an ordered map
        // would: file the entry before the first name above it
        let mut pos: usize = 0;
        while pos < self.directory.len() && name_lt(&self.directory[pos].name, name)
            invariant
                pos <= self.directory@.len(),
                self.directory@ == d0,
                forall|j: int| 0 <= j < pos ==> chars_lt(d0[j].name@, name@),
            decreases self.directory@.len() - pos,
        {
            pos = pos + 1;
        }
        proof {
            if pos < d0.len() {
                lemma_chars_lt_connected(name@, d0[pos as int].name@);
                assert(chars_lt(name@, d0[pos as int].name@));
            }
        }
        self.directory.insert(pos, entry);
        proof {
            let p = pos as int;
            let d1 = self.directory@;
            assert(d1[p].name@ == name@);
            assert forall|a: int, b: int| 0 <= a < b < d1.len() implies chars_lt(
                d1[a].name@,
                d1[b].name@,
            ) by {
                let a0: int = if a < p { a } else { a - 1 };
                let b0: int = if b < p { b } else { b - 1 };
                if a != p && b != p {
                    assert(d1[a] == d0[a0] && d1[b] == d0[b0]);
                } else if a == p {
                    assert(d1[b] == d0[b0] && b0 >= p);
                    if b0 > p {
                        assert(chars_lt(d0[p].name@, d0[b0].name@));
                        lemma_chars_lt_transitive(name@, d0[p].name@, d0[b0].name@);
                    }
                } else {
                    assert(d1[a] == d0[a0] && a0 < p);
                    assert(chars_lt(d0[a0].name@, name@));
                }
            }
            assert forall|a: int, b: int| 0 <= a < b < d1.len() implies d1[a].name@
                != d1[b].name@ by {
                lemma_chars_lt_connected(d1[a].name@, d1[b].name@);
            }
            assert forall|i: int|
                0 <= i < d1.len() implies (#[trigger] d1[i]).start_cluster < self.fat@.len() by {
                if i != p {
                    let i0: int = if i < p { i } else { i - 1 };
                    assert(d1[i] == d0[i0]);
                }
            }
            assert forall|i: int|
                0 <= i < d1.len() implies (#[trigger] d1[i]).size + CLUSTER_SIZE <= usize::MAX by {
                if i != p {
                    let i0: int = if i < p { i } else { i - 1 };
                    assert(d1[i] == d0[i0]);
                }
            }
            assert forall|i: int| 0 <= i < d0.len() implies d1.contains(#[trigger] d0[i]) by {
                let i1: int = if i < p { i } else { i + 1 };
                assert(d1[i1] == d0[i]);
            }
            assert(contains_name(d1, name@));
            assert forall|n: Seq<char>| n != name@ implies (contains_name(d1, n) <==> contains_name(
                d0,
                n,
            )) by {
                if contains_name(d1, n) {
                    let j = choose|j: int| 0 <= j < d1.len() && d1[j].name@ == n;
                    assert(j != p);
                    let j0: int = if j < p { j } else { j - 1 };
                    assert(d1[j] == d0[j0]);
                }
                if contains_name(d0, n) {
                    let j0 = choose|j0: int| 0 <= j0 < d0.len() && d0[j0].name@ == n;
                    let j: int = if j0 < p { j0 } else { j0 + 1 };
                    assert(d1[j] == d0[j0]);
                }
            }
        }
        Ok(writes)
    }

    /// Every file in the directory, as `(name, size, is directory)` — one
    /// triple per entry, sorted ascending by name, since the directory is
    /// kept in that order.
    pub fn list_files(&self) -> (r: Vec<(String, usize, bool)>)
        ensures
            r@.len() == self.directory@.len(),
            forall|i: int|
                0 <= i < r@.len() ==> (#[trigger] r@[i]).0@ == self.directory@[i].name@ && r@[i].1
                    == self.directory@[i].size && r@[i].2 == self.directory@[i].is_directory,
            self.wf() ==> forall|i: int, j: int|
                0 <= i < j < r@.len() ==> chars_lt(#[trigger] r@[i].0@, #[trigger] r@[j].0@),
    {
        let mut out: Vec<(String, usize, bool)> = Vec::new();
        let mut i: usize = 0;
        while i < self.directory.len()
            invariant
                i <= self.directory@.len(),
                out@.len() == i,
                forall|j: int|
                    0 <= j < i ==> (#[trigger] out@[j]).0@ == self.directory@[j].name@ && out@[j].1
                        == self.directory@[j].size && out@[j].2 == self.directory@[j].is_directory,
            decreases self.directory@.len() - i,
        {
            let e = &self.directory[i];
            out.push((e.name.clone(), e.size, e.is_directory));
            i = i + 1;
        }
        out
    }

    /// Delete a file: remove its directory entry and free exactly the
    /// clusters of its chain, leaving every other table slot as it was. A
    /// name the directory does not hold is refused. The machine then
    /// rewrites its metadata.
    pub fn delete_file(&mut self, name: &String) -> (r: Result<(), AtaError>)
        requires
            old(self).wf(),
        ensures
            final(self).wf(),
            r is Err <==> !contains_name(old(self).directory@, name@),
            r is Err ==> r == Err::<(), AtaError>(AtaError::DeviceNotFound) && final(self).directory
                == old(self).directory && final(self).fat == old(self).fat,
            r is Ok ==> ({
                &&& !contains_name(final(self).directory@, name@)
                &&& final(self).directory@.len() == old(self).directory@.len() - 1
                &&& forall|n: Seq<char>|
                    n != name@ ==> (contains_name(final(self).directory@, n) <==> contains_name(
                        old(self).directory@,
                        n,
                    ))
                &&& final(self).fat@.len() == old(self).fat@.len()
                &&& exists|e: int|
                    0 <= e < old(self).directory@.len() && (#[trigger] old(self).directory@[e]).name@ == name@
                        && (forall|c2: int|
                        0 <= c2 < final(self).fat@.len() ==> (#[trigger] final(self).fat@[c2]) == (
                        if chain_from(
                            old(self).fat@,
                            old(self).directory@[e].start_cluster as int,
                        ).contains(c2) {
                            FatEntry::Free
                        } else {
                            old(self).fat@[c2]
                        }))
            }),
            final(self).superblock == old(self).superblock,
    {
        let idx = match self.find_entry(name) {
            None => {
                return Err(AtaError::DeviceNotFound);
            },
            Some(i) => i,
        };
        let ghost dir0 = self.directory@;
        let entry_start = self.directory[idx].start_cluster;
        self.directory.remove(idx);
        proof {
            let d1 = self.directory@;
            assert forall|a: int, b: int| 0 <= a < b < d1.len() implies d1[a].name@
                != d1[b].name@ by {
                let a0: int = if a < idx { a } else { a + 1 };
                let b0: int = if b < idx { b } else { b + 1 };
                assert(d1[a] == dir0[a0] && d1[b] == dir0[b0]);
            }
            assert forall|a: int, b: int| 0 <= a < b < d1.len() implies chars_lt(
                d1[a].name@,
                d1[b].name@,
            ) by {
                let a0: int = if a < idx { a } else { a + 1 };
                let b0: int = if b < idx { b } else { b + 1 };
                assert(d1[a] == dir0[a0] && d1[b] == dir0[b0]);
            }
            assert forall|j: int| 0 <= j < d1.len() implies d1[j].name@ != name@ by {
                let j0: int = if j < idx { j } else { j + 1 };
                assert(d1[j] == dir0[j0]);
                if j0 != idx {
                    assert(dir0[j0].name@ != dir0[idx as int].name@);
                }
            }
            assert(!contains_name(d1, name@));
            assert forall|n: Seq<char>| n != name@ implies (contains_name(d1, n) <==> contains_name(
                dir0,
                n,
            )) by {
                if contains_name(dir0, n) {
                    let j0 = choose|j0: int| 0 <= j0 < dir0.len() && dir0[j0].name@ == n;
                    let j: int = if j0 < idx { j0 } else { j0 - 1 };
                    assert(j0 != idx);
                    assert(d1[j] == dir0[j0]);
                }
                if contains_name(d1, n) {
                    let j = choose|j: int| 0 <= j < d1.len() && d1[j].name@ == n;
                    let j0: int = if j < idx { j } else { j + 1 };
                    assert(d1[j] == dir0[j0]);
                }
            }
            assert forall|i: int|
                0 <= i < d1.len() implies (#[trigger] d1[i]).start_cluster < self.fat@.len() by {
                let i0: int = if i < idx { i } else { i + 1 };
                assert(d1[i] == dir0[i0]);
            }
        }
        let ghost dir1 = self.directory@;
        let ghost fat0 = self.fat@;
        let ghost ch = chain_from(fat0, entry_start as int);
        let ghost mut freed: Seq<int> = Seq::empty();
        let mut cur: u64 = entry_start;
        let limit = self.fat.len();
        proof {
            assert(ch =~= freed + chain_from(fat0, cur as int));
        }
        loop
            invariant_except_break
                ch == freed + chain_from(fat0, cur as int),
                forall|x: int| freed.contains(x) ==> 0 <= x < cur,
            invariant
                self.wf(),
                limit == self.fat@.len(),
                self.fat@.len() == fat0.len(),
                fat0 == old(self).fat@,
                self.directory@ == dir1,
                self.superblock == old(self).superblock,
                self.controller == old(self).controller,
                self.device == old(self).device,
                self.next_free_cluster == old(self).next_free_cluster,
                ch == chain_from(fat0, entry_start as int),
                cur < limit,
                forall|c2: int|
                    0 <= c2 < self.fat@.len() ==> (#[trigger] self.fat@[c2]) == (if freed.contains(
                        c2,
                    ) {
                        FatEntry::Free
                    } else {
                        fat0[c2]
                    }),
            ensures
                ch == freed,
            decreases limit - cur,
        {
            proof {
                assert(!freed.contains(cur as int));
                assert(self.fat@[cur as int] == fat0[cur as int]);
            }
            let next = self.fat[cur as usize];
            let ghost fat_before = self.fat@;
            let ghost freed_before = freed;
            self.fat[cur as usize] = FatEntry::Free;
            proof {
                freed = freed.push(cur as int);
                assert(self.fat@ =~= fat_before.update(cur as int, FatEntry::Free));
                assert forall|c2: int|
                    0 <= c2 < self.fat@.len() implies (#[trigger] self.fat@[c2]) == (if freed.contains(c2) {
                    FatEntry::Free
                } else {
                    fat0[c2]
                }) by {
                    if c2 == cur as int {
                        assert(freed.last() == cur as int);
                        assert(freed.contains(cur as int));
                    } else {
                        assert(self.fat@[c2] == fat_before[c2]);
                        if freed.contains(c2) {
                            let j = choose|j: int| 0 <= j < freed.len() && freed[j] == c2;
                            assert(j < freed.len() - 1);
                            assert(freed_before[j] == c2);
                            assert(freed_before.contains(c2));
                        }
                        if freed_before.contains(c2) {
                            let j = choose|j: int|
                                0 <= j < freed_before.len() && freed_before[j] == c2;
                            assert(freed[j] == c2);
                        }
                    }
                }
                assert forall|c2: int|
                    0 <= c2 < self.fat@.len() implies ((#[trigger] self.fat@[c2])
                    matches FatEntry::Next(n) ==> c2 < n < self.fat@.len()) by {
                    if c2 != cur as int {
                        assert(self.fat@[c2] == fat_before[c2]);
                    }
                }
            }
            match next {
                FatEntry::Next(n) => {
                    proof {
                        assert(fat0[cur as int] == FatEntry::Next(n));
                        assert((cur as int) < n < fat0.len());
                        assert(chain_from(fat0, cur as int) == seq![cur as int] + chain_from(
                            fat0,
                            n as int,
                        ));
                        assert(ch =~= freed + chain_from(fat0, n as int));
                        assert forall|x: int| freed.contains(x) implies 0 <= x < n by {
                            let j = choose|j: int| 0 <= j < freed.len() && freed[j] == x;
                            if j < freed.len() - 1 {
                                assert(freed_before[j] == x);
                                assert(freed_before.contains(x));
                            } else {
                                assert(x == cur as int);
                            }
                        }
                    }
                    cur = n;
                },
                _ => {
                    proof {
                        assert(chain_from(fat0, cur as int) =~= seq![cur as int]);
                        assert(ch =~= freed);
                    }
                    break ;
                },
            }
        }
        proof {
            assert(old(self).directory@[idx as int].name@ == name@);
            assert(old(self).directory@[idx as int].start_cluster == entry_start);
            assert forall|c2: int|
                0 <= c2 < self.fat@.len() implies (#[trigger] self.fat@[c2]) == (if chain_from(
                old(self).fat@,
                old(self).directory@[idx as int].start_cluster as int,
            ).contains(c2) {
                FatEntry::Free
            } else {
                old(self).fat@[c2]
            }) by {
                assert(freed == ch);
            }
        }
        Ok(())
    }

    /// Plan reading a file: the clusters of its chain in order, their first
    /// sectors, and the byte size to keep of the data the machine reads —
    /// one full cluster per chain link, assembled and clipped with
    /// [`assemble_file`]. A name the directory does not hold is refused.
    pub fn read_file(&self, name: &String) -> (r: Result<FileReadPlan, AtaError>)
        requires
            self.wf(),
            self.superblock.start_lba + self.fat@.len() * 8 <= u64::MAX,
        ensures
            r is Err <==> !contains_name(self.directory@, name@),
            r is Err ==> r == Err::<FileReadPlan, AtaError>(AtaError::DeviceNotFound),
            r matches Ok(plan) ==> ({
                let n = plan.clusters@.len() as int;
                &&& plan.sectors_per_cluster == 8
                &&& n >= 1
                &&& plan.lbas@.len() == n
                &&& exists|e: int|
                    0 <= e < self.directory@.len() && (#[trigger] self.directory@[e]).name@
                        == name@ && plan.size == self.directory@[e].size && plan.clusters@[0]
                        == self.directory@[e].start_cluster
                &&& forall|i: int|
                    0 <= i < n ==> (#[trigger] plan.clusters@[i]) < self.fat@.len()
                &&& forall|i: int|
                    0 <= i < n ==> (#[trigger] plan.lbas@[i]) == self.superblock.start_lba
                        + plan.clusters@[i] * 8
                &&& forall|i: int|
                    0 <= i < n - 1 ==> self.fat@[#[trigger] plan.clusters@[i] as int]
                        == FatEntry::Next(plan.clusters@[i + 1])
                &&& n <= read_clusters_needed(plan.size as int)
                &&& (n < read_clusters_needed(plan.size as int) ==> !(self.fat@[plan.clusters@[n
                    - 1] as int] matches FatEntry::Next(x)))
            }),
    {
        let idx = match self.find_entry(name) {
            None => {
                return Err(AtaError::DeviceNotFound);
            },
            Some(i) => i,
        };
        let size = self.directory[idx].size;
        let start = self.directory[idx].start_cluster;
        let size64: u64 = size as u64;
        let ghost needed = read_clusters_needed(size as int);
        let mut clusters: Vec<u64> = Vec::new();
        let mut lbas: Vec<u64> = Vec::new();
        let mut cur: u64 = start;
        let mut planned: u64 = 0;
        proof {
            assert(needed >= 1) by (nonlinear_arith)
                requires
                    needed == (if size as int <= 0 {
                        1int
                    } else {
                        (size as int + CLUSTER_SIZE - 1) / (CLUSTER_SIZE as int)
                    }),
                    CLUSTER_SIZE == 4096,
            ;
        }
        loop
            invariant_except_break
                cur < self.fat@.len(),
                clusters@.len() == 0 ==> cur == start,
                clusters@.len() > 0 ==> planned < size64,
                clusters@.len() > 0 ==> self.fat@[clusters@.last() as int] == FatEntry::Next(cur),
                clusters@.len() < needed,
            invariant
                self.wf(),
                self.superblock.start_lba + self.fat@.len() * 8 <= u64::MAX,
                needed == read_clusters_needed(size as int),
                size64 == size,
                clusters@.len() == lbas@.len(),
                planned == clusters@.len() * (CLUSTER_SIZE as int),
                planned <= size64 || clusters@.len() == needed,
                size64 + CLUSTER_SIZE <= u64::MAX,
                clusters@.len() > 0 ==> clusters@[0] == start,
                clusters@.len() <= needed,
                needed <= u64::MAX,
                forall|i: int|
                    0 <= i < clusters@.len() ==> (#[trigger] clusters@[i]) < self.fat@.len(),
                forall|i: int|
                    0 <= i < clusters@.len() ==> (#[trigger] lbas@[i])
                        == self.superblock.start_lba + clusters@[i] * 8,
                forall|i: int|
                    0 <= i < clusters@.len() - 1 ==> self.fat@[#[trigger] clusters@[i] as int]
                        == FatEntry::Next(clusters@[i + 1]),
            ensures
                clusters@.len() >= 1,
                clusters@.len() == needed || !(self.fat@[clusters@.last() as int]
                    matches FatEntry::Next(x)),
            decreases size64 + CLUSTER_SIZE - planned,
        {
            let lba = self.superblock.start_lba + cur * 8;
            let ghost prev = clusters@;
            clusters.push(cur);
            lbas.push(lba);
            planned = planned + CLUSTER_SIZE as u64;
            proof {
                assert(clusters@.len() * (CLUSTER_SIZE as int) == (clusters@.len() - 1) * (
                CLUSTER_SIZE as int) + CLUSTER_SIZE) by (nonlinear_arith);
                assert forall|i: int|
                    0 <= i < clusters@.len() - 1 implies self.fat@[#[trigger] clusters@[i] as int]
                    == FatEntry::Next(clusters@[i + 1]) by {
                    if i < prev.len() - 1 {
                        assert(clusters@[i] == prev[i] && clusters@[i + 1] == prev[i + 1]);
                    } else {
                        assert(clusters@[i] == prev.last() && clusters@[i + 1] == cur);
                    }
                }
            }
            if planned >= size64 {
                proof {
                    assert(clusters@.len() == needed) by (nonlinear_arith)
                        requires
                            planned == clusters@.len() * (CLUSTER_SIZE as int),
                            planned >= size64,
                            size64 == size,
                            clusters@.len() - 1 < needed,
                            clusters@.len() >= 1,
                            needed == (if size as int <= 0 {
                                1int
                            } else {
                                (size as int + CLUSTER_SIZE - 1) / (CLUSTER_SIZE as int)
                            }),
                            CLUSTER_SIZE == 4096,
                    ;
                }
                break ;
            }
            proof {
                assert(clusters@.len() < needed) by (nonlinear_arith)
                    requires
                        planned == clusters@.len() * (CLUSTER_SIZE as int),
                        planned < size64,
                        size64 == size,
                        needed == (if size as int <= 0 {
                            1int
                        } else {
                            (size as int + CLUSTER_SIZE - 1) / (CLUSTER_SIZE as int)
                        }),
                        CLUSTER_SIZE == 4096,
                ;
            }
            let flen = self.fat.len();
            proof {
                assert(cur < flen);
            }
            let follow = self.fat[cur as usize];
            proof {
                assert(follow == self.fat@[cur as int]);
                assert(clusters@.last() == cur);
            }
            match follow {
                FatEntry::Next(n) => {
                    proof {
                        assert(self.fat@[cur as int] matches FatEntry::Next(nx) ==> nx
                            < self.fat@.len());
                        assert(self.fat@[clusters@.last() as int] == FatEntry::Next(n));
                    }
                    cur = n;
                },
                _ => {
                    proof {
                        assert(!(self.fat@[clusters@.last() as int] matches FatEntry::Next(x)));
                    }
                    break ;
                },
            }
        }
        Ok(FileReadPlan { clusters, lbas, sectors_per_cluster: 8, size })
    }
}

/// The cluster chain reachable from `c`: `c` itself, then — along strictly
/// forward links inside the table — whatever its successor reaches.
pub open spec fn chain_from(fat: Seq<FatEntry>, c: int) -> Seq<int>
    decreases fat.len() - c,
{
    if !(0 <= c < fat.len()) {
        Seq::empty()
    } else {
        seq![c] + (match fat[c] {
            FatEntry::Next(n) => if c < n < fat.len() {
                chain_from(fat, n as int)
            } else {
                Seq::empty()
            },
            _ => Seq::empty(),
        })
    }
}

/// Where the global filesystem region is placed on a drive of
/// `drive_sectors` sectors: past the first hundred sectors on any drive
/// with room for that, five hundred sectors long on a large drive and half
/// the drive on a small one; a drive of two hundred sectors or fewer has
/// no room.
pub fn plan_global_filesystem(drive_sectors: u64) -> (r: Result<(u64, u64), AtaError>)
    ensures
        r is Err <==> drive_sectors <= 200,
        r is Err ==> r == Err::<(u64, u64), AtaError>(AtaError::InvalidLba),
        r matches Ok((start_lba, size)) ==> start_lba == 100 && size == (if drive_sectors > 1000 {
            500u64
        } else {
            drive_sectors / 2
        }),
{
    if drive_sectors > 200 {
        let size = if drive_sectors > 1000 {
            500
        } else {
            drive_sectors / 2
        };
        Ok((100, size))
    } else {
        Err(AtaError::InvalidLba)
    }
}

/// Place and create the global filesystem on the identified drive (see
/// [`plan_global_filesystem`] for the placement policy); the machine mounts
/// the result as the shared filesystem.
pub fn init_global_filesystem(controller: bool, device: AtaDevice, drive_sectors: u64) -> (r:
    Result<AtaFileSystem, AtaError>)
    ensures
        r is Err <==> drive_sectors <= 200,
        r matches Ok(fs) ==> {
            &&& fs.wf()
            &&& fs.superblock.start_lba == 100
            &&& fs.superblock.total_sectors == (if drive_sectors > 1000 {
                500u64
            } else {
                drive_sectors / 2
            })
            &&& fs.directory@.len() == 0
        },
{
    let (start_lba, size) = match plan_global_filesystem(drive_sectors) {
        Ok(p) => p,
        Err(e) => {
            return Err(e);
        },
    };
    AtaFileSystem::new(controller, device, start_lba, size, drive_sectors)
}

/// Create a file in the mounted global filesystem, if one is mounted:
/// exactly [`AtaFileSystem::create_file`] applied to it (in the machine,
/// under its lock), success, error and writes propagated unchanged.
pub fn fs_create_file(fs: &mut Option<AtaFileSystem>, name: &String, data: &[u8]) -> (r: Result<
    Vec<SectorWrite>,
    AtaError,
>)
    requires
        *old(fs) matches Some(f) ==> f.wf() && data@.len() + CLUSTER_SIZE <= usize::MAX && f.fat@.len()
            + clusters_for(data@.len() as int) <= u64::MAX && f.superblock.start_lba + (f.fat@.len()
            + clusters_for(data@.len() as int)) * 8 <= u64::MAX,
    ensures
        *old(fs) is None ==> r == Err::<Vec<SectorWrite>, AtaError>(AtaError::DeviceNotFound)
            && *final(fs) is None,
        *old(fs) matches Some(f) ==> *final(fs) is Some && ({
            let g = (*final(fs)).unwrap();
            &&& g.wf()
            &&& (r is Err <==> contains_name(f.directory@, name@))
            &&& (r is Err ==> r == Err::<Vec<SectorWrite>, AtaError>(AtaError::CommandFailed)
                && g.directory == f.directory && g.fat == f.fat)
            &&& (r matches Ok(writes) ==> ({
                let k = clusters_for(data@.len() as int);
                let base = f.fat@.len();
                &&& g.directory@.len() == f.directory@.len() + 1
                &&& forall|i: int|
                    0 <= i < f.directory@.len() ==> g.directory@.contains(
                        #[trigger] f.directory@[i],
                    )
                &&& contains_name(g.directory@, name@)
                &&& forall|n: Seq<char>|
                    n != name@ ==> (contains_name(g.directory@, n) <==> contains_name(
                        f.directory@,
                        n,
                    ))
                &&& exists|e: int|
                    0 <= e < g.directory@.len() && (#[trigger] g.directory@[e]).name@ == name@
                        && g.directory@[e].size == data@.len() && !g.directory@[e].is_directory
                        && g.directory@[e].start_cluster == (if k > 0 {
                        base as u64
                    } else {
                        0u64
                    })
                &&& g.fat@.len() == base + k
                &&& forall|c: int| 0 <= c < base ==> g.fat@[c] == f.fat@[c]
                &&& forall|i: int|
                    0 <= i < k - 1 ==> (#[trigger] g.fat@[base + i]) == FatEntry::Next(
                        (base + i + 1) as u64,
                    )
                &&& (k > 0 ==> g.fat@[base + k - 1] == FatEntry::End)
                &&& writes@.len() == k
                &&& forall|i: int|
                    0 <= i < k ==> (#[trigger] writes@[i]).lba == f.superblock.start_lba + (base
                        + i) * 8
                &&& forall|i: int|
                    0 <= i < k ==> (#[trigger] writes@[i]).data@.len() == CLUSTER_SIZE
                &&& forall|i: int, j: int|
                    0 <= i < k && 0 <= j < CLUSTER_SIZE ==> (#[trigger] writes@[i].data@[j]) == (
                    if i * CLUSTER_SIZE + j < data@.len() {
                        data@[i * CLUSTER_SIZE + j]
                    } else {
                        0u8
                    })
            }))
        }),
{
    match fs {
        None => Err(AtaError::DeviceNotFound),
        Some(f) => f.create_file(name, data),
    }
}

/// Plan reading a file from the mounted global filesystem, if one is
/// mounted: exactly [`AtaFileSystem::read_file`] applied to it.
pub fn fs_read_file(fs: &Option<AtaFileSystem>, name: &String) -> (r: Result<
    FileReadPlan,
    AtaError,
>)
    requires
        fs matches Some(f) ==> f.wf() && f.superblock.start_lba + f.fat@.len() * 8 <= u64::MAX,
    ensures
        fs is None ==> r == Err::<FileReadPlan, AtaError>(AtaError::DeviceNotFound),
        fs matches Some(f) ==> ({
            &&& (r is Err <==> !contains_name(f.directory@, name@))
            &&& (r is Err ==> r == Err::<FileReadPlan, AtaError>(AtaError::DeviceNotFound))
            &&& (r matches Ok(plan) ==> ({
                let n = plan.clusters@.len() as int;
                &&& plan.sectors_per_cluster == 8
                &&& n >= 1
                &&& plan.lbas@.len() == n
                &&& exists|e: int|
                    0 <= e < f.directory@.len() && (#[trigger] f.directory@[e]).name@ == name@
                        && plan.size == f.directory@[e].size && plan.clusters@[0]
                        == f.directory@[e].start_cluster
                &&& forall|i: int| 0 <= i < n ==> (#[trigger] plan.clusters@[i]) < f.fat@.len()
                &&& forall|i: int|
                    0 <= i < n ==> (#[trigger] plan.lbas@[i]) == f.superblock.start_lba
                        + plan.clusters@[i] * 8
                &&& forall|i: int|
                    0 <= i < n - 1 ==> f.fat@[#[trigger] plan.clusters@[i] as int]
                        == FatEntry::Next(plan.clusters@[i + 1])
                &&& n <= read_clusters_needed(plan.size as int)
                &&& (n < read_clusters_needed(plan.size as int) ==> !(f.fat@[plan.clusters@[n
                    - 1] as int] matches FatEntry::Next(x)))
            }))
        }),
{
    match fs {
        None => Err(AtaError::DeviceNotFound),
        Some(f) => f.read_file(name),
    }
}

/// Delete a file from the mounted global filesystem, if one is mounted:
/// exactly [`AtaFileSystem::delete_file`] applied to it.
pub fn fs_delete_file(fs: &mut Option<AtaFileSystem>, name: &String) -> (r: Result<(), AtaError>)
    requires
        *old(fs) matches Some(f) ==> f.wf(),
    ensures
        *old(fs) is None ==> r == Err::<(), AtaError>(AtaError::DeviceNotFound) && *final(fs) is None,
        *old(fs) matches Some(f) ==> *final(fs) is Some && ({
            let g = (*final(fs)).unwrap();
            &&& g.wf()
            &&& (r is Err <==> !contains_name(f.directory@, name@))
            &&& (r is Err ==> r == Err::<(), AtaError>(AtaError::DeviceNotFound) && g.directory
                == f.directory && g.fat == f.fat)
            &&& (r is Ok ==> ({
                &&& !contains_name(g.directory@, name@)
                &&& g.directory@.len() == f.directory@.len() - 1
                &&& forall|n: Seq<char>|
                    n != name@ ==> (contains_name(g.directory@, n) <==> contains_name(
                        f.directory@,
                        n,
                    ))
                &&& g.fat@.len() == f.fat@.len()
                &&& exists|e: int|
                    0 <= e < f.directory@.len() && (#[trigger] f.directory@[e]).name@ == name@
                        && (forall|c2: int|
                        0 <= c2 < g.fat@.len() ==> (#[trigger] g.fat@[c2]) == (if chain_from(
                            f.fat@,
                            f.directory@[e].start_cluster as int,
                        ).contains(c2) {
                            FatEntry::Free
                        } else {
                            f.fat@[c2]
                        }))
            }))
            &&& g.superblock == f.superblock
        }),
{
    match fs {
        None => Err(AtaError::DeviceNotFound),
        Some(f) => f.delete_file(name),
    }
}

/// List the mounted global filesystem, if one is mounted: one triple per
/// directory entry, sorted ascending by name.
pub fn fs_list_files(fs: &Option<AtaFileSystem>) -> (r: Result<
    Vec<(String, usize, bool)>,
    AtaError,
>)
    ensures
        fs is None ==> r == Err::<Vec<(String, usize, bool)>, AtaError>(AtaError::DeviceNotFound),
        fs matches Some(f) ==> r matches Ok(l) && ({
            &&& l@.len() == f.directory@.len()
            &&& forall|i: int|
                0 <= i < l@.len() ==> (#[trigger] l@[i]).0@ == f.directory@[i].name@ && l@[i].1
                    == f.directory@[i].size && l@[i].2 == f.directory@[i].is_directory
            &&& (f.wf() ==> forall|i: int, j: int|
                0 <= i < j < l@.len() ==> chars_lt(#[trigger] l@[i].0@, #[trigger] l@[j].0@))
        }),
{
    match fs {
        None => Err(AtaError::DeviceNotFound),
        Some(f) => Ok(f.list_files()),
    }
}

/// The views of a vector of byte buffers.
pub open spec fn views_of(bufs: Seq<Vec<u8>>) -> Seq<Seq<u8>> {
    bufs.map_values(|b: Vec<u8>| b@)
}

/// Concatenation grows buffer by buffer.
pub proof fn lemma_concat_bufs_snoc(bufs: Seq<Seq<u8>>, i: int)
    requires
        0 <= i < bufs.len(),
    ensures
        concat_bufs(bufs.take(i + 1)) == concat_bufs(bufs.take(i)) + bufs[i],
    decreases i,
{
    if i == 0 {
        assert(bufs.take(1) =~= seq![bufs[0]]);
        assert(bufs.take(1).drop_first() =~= Seq::<Seq<u8>>::empty());
        assert(concat_bufs(Seq::<Seq<u8>>::empty()) =~= Seq::<u8>::empty());
        assert(concat_bufs(bufs.take(1)) == bufs.take(1)[0] + concat_bufs(
            bufs.take(1).drop_first(),
        ));
        assert(bufs.take(1)[0] == bufs[0]);
        assert(bufs[0] + Seq::<u8>::empty() =~= bufs[0]);
        assert(bufs.take(0) =~= Seq::<Seq<u8>>::empty());
        assert(concat_bufs(bufs.take(0)) + bufs[0] =~= bufs[0]);
    } else {
        lemma_concat_bufs_snoc(bufs.drop_first(), i - 1);
        assert(bufs.take(i + 1).drop_first() =~= bufs.drop_first().take(i));
        assert(bufs.take(i).drop_first() =~= bufs.drop_first().take(i - 1));
        assert(bufs.take(i + 1)[0] == bufs[0]);
        assert(bufs.take(i)[0] == bufs[0]);
        assert(concat_bufs(bufs.take(i + 1)) == bufs[0] + concat_bufs(bufs.drop_first().take(i)));
        assert(concat_bufs(bufs.take(i)) == bufs[0] + concat_bufs(bufs.drop_first().take(i - 1)));
        assert(bufs.drop_first()[i - 1] == bufs[i]);
        assert((bufs[0] + concat_bufs(bufs.drop_first().take(i - 1))) + bufs[i] =~= bufs[0] + (
        concat_bufs(bufs.drop_first().take(i - 1)) + bufs[i]));
    }
}

/// Stitch the buffers a read plan produced into the file's bytes: their
/// concatenation, clipped to the file's size (or to whatever the buffers
/// hold, if the chain ended early).
pub fn assemble_file(size: usize, buffers: &Vec<Vec<u8>>) -> (r: Vec<u8>)
    ensures
        ({
            let full = concat_bufs(views_of(buffers@));
            r@ == full.take(if size <= full.len() {
                size as int
            } else {
                full.len() as int
            })
        }),
{
    let mut out: Vec<u8> = Vec::new();
    let mut i: usize = 0;
    let ghost views = views_of(buffers@);
    proof {
        assert(views.take(0) =~= Seq::<Seq<u8>>::empty());
    }
    while i < buffers.len()
        invariant
            i <= buffers@.len(),
            views == views_of(buffers@),
            out@.len() <= size,
            ({
                let part = concat_bufs(views.take(i as int));
                out@ == part.take(if size <= part.len() {
                    size as int
                } else {
                    part.len() as int
                })
            }),
            out@.len() < size ==> out@ == concat_bufs(views.take(i as int)),
        decreases buffers@.len() - i,
    {
        let buf = &buffers[i];
        let mut j: usize = 0;
        let ghost out0 = out@;
        while j < buf.len() && out.len() < size
            invariant
                j <= buf@.len(),
                out@.len() <= size,
                out@ == out0 + buf@.take(j as int),
                out@.len() == out0.len() + j,
                out@.len() < size ==> out@ == out0 + buf@.take(j as int),
            decreases buf@.len() - j,
        {
            let byte = buf[j];
            out.push(byte);
            proof {
                assert(out@ =~= out0 + buf@.take(j + 1));
            }
            j = j + 1;
        }
        proof {
            lemma_concat_bufs_snoc(views, i as int);
            assert(views[i as int] == buf@);
            let part0 = concat_bufs(views.take(i as int));
            let part1 = concat_bufs(views.take(i + 1));
            assert(part1 == part0 + buf@);
            if out0.len() < size {
                assert(out0 == part0);
                if j == buf@.len() {
                    assert(buf@.take(j as int) =~= buf@);
                    assert(out@ =~= part1.take(if size <= part1.len() {
                        size as int
                    } else {
                        part1.len() as int
                    }));
                } else {
                    assert(out@.len() == size);
                    assert(out@ =~= part1.take(size as int));
                }
            } else {
                assert(out0.len() == size);
                assert(j == 0);
                assert(out@ =~= out0);
                assert(out@ =~= part1.take(size as int));
            }
        }
        i = i + 1;
    }
    proof {
        assert(views.take(buffers@.len() as int) =~= views);
    }
    out
}
} // verus!
