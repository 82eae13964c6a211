//! The disk driver: what to write to the ports of the disk controller and
//! what to make of its answers. The caller moves the bytes to and from the
//! ports.

use vstd::prelude::*;

verus! {

/// Number of bytes in a sector.
pub const SECTOR_BYTES: usize = 512;

/// Number of 16-bit words in a sector.
pub const SECTOR_WORDS: usize = 256;

/// Why the disk could not be identified.
#[derive(Debug, Clone, Copy, PartialEq, Eq, Structural)]
pub enum AtaError {
    /// No drive answers.
    NotFound,
    /// The drive that answers is of another kind.
    NotAta,
    /// The drive reported an error while the driver waited for its data.
    Poll,
}

/// The bits of the status register.
#[non_exhaustive]
pub struct Status;

impl Status {
    /// The drive is busy.
    pub const BSY: u8 = 0x80;

    /// The drive has data to hand over or waits for data.
    pub const DRQ: u8 = 0x8;

    /// The drive reports an error.
    pub const ERR: u8 = 0x1;
}

/// One write to a port of the controller.
#[allow(inconsistent_fields)]
#[derive(Debug, Clone, Copy, PartialEq, Eq, Structural)]
pub enum PortOp {
    /// A byte.
    Byte { port: u16, value: u8 },
    /// A 16-bit word.
    Word { port: u16, value: u16 },
}

/// Where the identification of the drive stands: which answer of the
/// controller is awaited next.
#[derive(Debug, Clone, Copy, PartialEq, Eq, Structural)]
pub enum Stage {
    /// The status after the command: zero where there is no drive.
    Probe,
    /// The status, until the drive is no longer busy.
    Busy,
    /// The low byte of the signature, zero for a drive of this kind.
    Low,
    /// The high byte of the signature, zero for a drive of this kind.
    High,
    /// The status, until the drive offers its data or reports an error.
    Poll,
}

/// What the caller does next while the drive is identified.
#[derive(Debug, Clone, Copy, PartialEq, Eq, Structural)]
pub enum Step {
    /// Read a byte from the port and hand it to `identify` at this stage.
    Ask { stage: Stage, port: u16 },
    /// Read a sector from the data port and hand it to `identified`.
    Sector,
    /// Give up.
    Fail { error: AtaError },
}

/// The disk. `sectors` is the size that the drive reported when it was
/// identified.
#[non_exhaustive]
pub struct Ata {
    pub sectors: u32,
}

/// The byte at place `i` of the data, and zero past its end.
pub open spec fn padded(data: Seq<u8>, i: int) -> u8 {
    if 0 <= i < data.len() {
        data[i]
    } else {
        0
    }
}

/// Number of sectors that the data fills, the last one partly.
pub open spec fn sectors_of(data: Seq<u8>) -> int {
    (data.len() as int + 511) / 512
}

/// Number of sectors that the data fills wholly.
pub open spec fn whole_sectors(data: Seq<u8>) -> int {
    (data.len() as int) / 512
}

/// The word that carries the bytes at `2 * i` and `2 * i + 1` of the data
/// to the drive: the first byte on top.
pub open spec fn word_at(data: Seq<u8>, i: int) -> u16 {
    (padded(data, 2 * i) as u16) << 8 | (padded(data, 2 * i + 1) as u16)
}

/// The words that carry the data to the drive, in whole sectors: the last
/// sector is filled up with zeros.
pub open spec fn words_of(data: Seq<u8>) -> Seq<u16> {
    Seq::new((sectors_of(data) * SECTOR_WORDS) as nat, |i: int| word_at(data, i))
}

/// The writes that select a sector address and a number of sectors.
pub open spec fn setup_ops(lba: u32, sector_count: u8) -> Seq<PortOp> {
    seq![
        PortOp::Byte { port: Ata::HEAD_REGISTER, value: (0xe0 | ((lba >> 24) & 0x0f)) as u8 },
        PortOp::Byte { port: Ata::FEATURE_REGISTER, value: 0x00 },
        PortOp::Byte { port: Ata::SECTOR_COUNT_REGISTER, value: sector_count },
        PortOp::Byte { port: Ata::SECTOR_NUMBER_REGISTER, value: (lba & 0xff) as u8 },
        PortOp::Byte { port: Ata::LOW_REGISTER, value: ((lba >> 8) & 0xff) as u8 },
        PortOp::Byte { port: Ata::HIGH_REGISTER, value: ((lba >> 16) & 0xff) as u8 },
    ]
}

/// The writes that send the words to the data port.
pub open spec fn data_ops(words: Seq<u16>) -> Seq<PortOp> {
    Seq::new(words.len(), |i: int| PortOp::Word { port: Ata::DATA_REGISTER, value: words[i] })
}

/// The next step of the identification, from the stage and the byte that
/// the controller answered.
pub open spec fn identify_step(stage: Stage, reply: u8) -> Step {
    match stage {
        Stage::Probe => if reply == 0 {
            Step::Fail { error: AtaError::NotFound }
        } else {
            Step::Ask { stage: Stage::Busy, port: Ata::SC_REGISTER }
        },
        Stage::Busy => if reply & Status::BSY != 0 {
            Step::Ask { stage: Stage::Busy, port: Ata::SC_REGISTER }
        } else {
            Step::Ask { stage: Stage::Low, port: Ata::LOW_REGISTER }
        },
        Stage::Low => if reply != 0 {
            Step::Fail { error: AtaError::NotAta }
        } else {
            Step::Ask { stage: Stage::High, port: Ata::HIGH_REGISTER }
        },
        Stage::High => if reply != 0 {
            Step::Fail { error: AtaError::NotAta }
        } else {
            Step::Ask { stage: Stage::Poll, port: Ata::SC_REGISTER }
        },
        Stage::Poll => if reply & Status::DRQ == 0 && reply & Status::ERR == 0 {
            Step::Ask { stage: Stage::Poll, port: Ata::SC_REGISTER }
        } else if reply & Status::ERR != 0 {
            Step::Fail { error: AtaError::Poll }
        } else {
            Step::Sector
        },
    }
}

impl Ata {
    pub const IDENTIFY: u8 = 0xec;

    pub const READ: u8 = 0x20;

    pub const WRITE: u8 = 0x30;

    pub const FLUSH: u8 = 0xe7;

    pub const SECTOR_COUNT_REGISTER: u16 = 0x1f2;

    pub const SECTOR_NUMBER_REGISTER: u16 = 0x1f3;

    pub const FEATURE_REGISTER: u16 = 0x1f1;

    pub const DATA_REGISTER: u16 = 0x1f0;

    pub const HEAD_REGISTER: u16 = 0x1f6;

    pub const SC_REGISTER: u16 = 0x1f7;

    pub const LOW_REGISTER: u16 = 0x1f4;

    pub const HIGH_REGISTER: u16 = 0x1f5;

    /// A disk that has not been identified.
    pub fn new() -> (ata: Ata)
        ensures
            ata.sectors == 0,
    {
        Ata { sectors: 0 }
    }

    /// The writes that select the sector address `lba` and a number of
    /// sectors.
    pub fn setup(&self, lba: u32, sector_count: u8) -> (ops: Vec<PortOp>)
        ensures
            ops@ == setup_ops(lba, sector_count),
    {
        let mut ops: Vec<PortOp> = Vec::new();
        ops.push(
            PortOp::Byte {
                port: Ata::HEAD_REGISTER,
                value: #[verifier::truncate] ((0xe0 | ((lba >> 24) & 0x0f)) as u8),
            },
        );
        ops.push(PortOp::Byte { port: Ata::FEATURE_REGISTER, value: 0x00 });
        ops.push(PortOp::Byte { port: Ata::SECTOR_COUNT_REGISTER, value: sector_count });
        ops.push(
            PortOp::Byte {
                port: Ata::SECTOR_NUMBER_REGISTER,
                value: #[verifier::truncate] ((lba & 0xff) as u8),
            },
        );
        ops.push(
            PortOp::Byte {
                port: Ata::LOW_REGISTER,
                value: #[verifier::truncate] (((lba >> 8) & 0xff) as u8),
            },
        );
        ops.push(
            PortOp::Byte {
                port: Ata::HIGH_REGISTER,
                value: #[verifier::truncate] (((lba >> 16) & 0xff) as u8),
            },
        );
        assert(ops@ =~= setup_ops(lba, sector_count));
        ops
    }

    /// Whether the status says that the drive is busy.
    pub fn busy(status: u8) -> (busy: bool)
        ensures
            busy == (status & Status::BSY != 0),
    {
        status & Status::BSY != 0
    }

    /// Whether the status says that the drive has data to hand over.
    pub fn requests_data(status: u8) -> (requests: bool)
        ensures
            requests == (status & Status::DRQ != 0),
    {
        status & Status::DRQ != 0
    }

    /// The writes that store `data` from sector `lba` on: the address and
    /// the number of sectors, one more than the data has whole ones, then
    /// the command, the words of the data in whole sectors, and the command
    /// to flush. After them the caller waits while the drive is busy.
    pub fn write(&self, lba: u32, data: &[u8]) -> (ops: Vec<PortOp>)
        requires
            whole_sectors(data@) < 255,
        ensures
            ops@ == setup_ops(lba, (whole_sectors(data@) + 1) as u8) + seq![
                PortOp::Byte { port: Ata::SC_REGISTER, value: Ata::WRITE },
            ] + data_ops(words_of(data@)) + seq![
                PortOp::Byte { port: Ata::SC_REGISTER, value: Ata::FLUSH },
            ],
    {
        let count: u8 = (data.len() / SECTOR_BYTES) as u8 + 1;
        let mut ops = self.setup(lba, count);
        ops.push(PortOp::Byte { port: Ata::SC_REGISTER, value: Ata::WRITE });
        let ghost head = ops@;
        let sectors: usize = data.len() / SECTOR_BYTES + if data.len() % SECTOR_BYTES == 0 {
            0
        } else {
            1
        };
        assert(sectors == sectors_of(data@));
        let total: usize = sectors * SECTOR_WORDS;
        let mut index: usize = 0;
        while index < total
            invariant
                index <= total,
                total == sectors_of(data@) * SECTOR_WORDS,
                total <= 256 * SECTOR_WORDS,
                ops@.len() == head.len() + index,
                forall|i: int| 0 <= i < head.len() ==> ops@[i] == head[i],
                forall|i: int|
                    0 <= i < index ==> #[trigger] ops@[head.len() + i] == (PortOp::Word {
                        port: Ata::DATA_REGISTER,
                        value: word_at(data@, i),
                    }),
            decreases total - index,
        {
            let first: u8 = if 2 * index < data.len() {
                data[2 * index]
            } else {
                0
            };
            let second: u8 = if 2 * index + 1 < data.len() {
                data[2 * index + 1]
            } else {
                0
            };
            let word: u16 = (first as u16) << 8 | (second as u16);
            ops.push(PortOp::Word { port: Ata::DATA_REGISTER, value: word });
            index += 1;
        }
        ops.push(PortOp::Byte { port: Ata::SC_REGISTER, value: Ata::FLUSH });
        proof {
            let expected = setup_ops(lba, count) + seq![
                PortOp::Byte { port: Ata::SC_REGISTER, value: Ata::WRITE },
            ] + data_ops(words_of(data@)) + seq![
                PortOp::Byte { port: Ata::SC_REGISTER, value: Ata::FLUSH },
            ];
            assert(ops@.len() == expected.len());
            assert forall|i: int| 0 <= i < expected.len() implies ops@[i] == expected[i] by {
                if i < head.len() {
                    assert(ops@[i] == head[i]);
                } else if i < head.len() + total {
                    assert(ops@[head.len() + (i - head.len())] == (PortOp::Word {
                        port: Ata::DATA_REGISTER,
                        value: word_at(data@, i - head.len()),
                    }));
                }
            }
            assert(ops@ =~= expected);
        }
        ops
    }

    /// The writes that ask for `sector_count` sectors from sector `lba` on:
    /// the address and the number of sectors, then the command. After them
    /// the caller reads the sectors from the data port, one by one.
    pub fn read(&self, lba: u32, sector_count: u8) -> (ops: Vec<PortOp>)
        ensures
            ops@ == setup_ops(lba, sector_count) + seq![
                PortOp::Byte { port: Ata::SC_REGISTER, value: Ata::READ },
            ],
    {
        let mut ops = self.setup(lba, sector_count);
        ops.push(PortOp::Byte { port: Ata::SC_REGISTER, value: Ata::READ });
        assert(ops@ =~= setup_ops(lba, sector_count) + seq![
            PortOp::Byte { port: Ata::SC_REGISTER, value: Ata::READ },
        ]);
        ops
    }

    /// The bytes of a sector that was read from the data port word by word:
    /// of each word the low byte comes first.
    pub fn read_sector(words: &[u16; 256]) -> (bytes: Vec<u8>)
        ensures
            bytes@.len() == SECTOR_BYTES,
            forall|i: int|
                0 <= i < SECTOR_WORDS ==> #[trigger] bytes@[2 * i] == (words@[i] & 0xff) as u8
                    && bytes@[2 * i + 1] == (words@[i] >> 8) as u8,
    {
        let mut bytes: Vec<u8> = Vec::new();
        let mut index: usize = 0;
        while index < SECTOR_WORDS
            invariant
                index <= SECTOR_WORDS,
                bytes@.len() == 2 * index,
                forall|i: int|
                    0 <= i < index ==> #[trigger] bytes@[2 * i] == (words@[i] & 0xff) as u8
                        && bytes@[2 * i + 1] == (words@[i] >> 8) as u8,
            decreases SECTOR_WORDS - index,
        {
            let word = words[index];
            bytes.push(#[verifier::truncate] ((word & 0xff) as u8));
            bytes.push(#[verifier::truncate] ((word >> 8) as u8));
            index += 1;
        }
        bytes
    }

    /// The writes that start the identification of the drive: they select
    /// the drive, clear the four address registers and send the command.
    /// After them the caller asks for the status and hands it to `identify`
    /// at the stage `Probe`.
    pub fn identify_start(&self) -> (ops: Vec<PortOp>)
        ensures
            ops@ == seq![
                PortOp::Byte { port: Ata::HEAD_REGISTER, value: 0xa0 },
                PortOp::Byte { port: 0x1f2, value: 0 },
                PortOp::Byte { port: 0x1f3, value: 0 },
                PortOp::Byte { port: 0x1f4, value: 0 },
                PortOp::Byte { port: 0x1f5, value: 0 },
                PortOp::Byte { port: Ata::SC_REGISTER, value: Ata::IDENTIFY },
            ],
    {
        let mut ops: Vec<PortOp> = Vec::new();
        ops.push(PortOp::Byte { port: Ata::HEAD_REGISTER, value: 0xa0 });
        let mut port: u16 = 0x1f2;
        while port <= 0x1f5
            invariant
                0x1f2 <= port <= 0x1f6,
                ops@.len() == 1 + (port - 0x1f2),
                ops@[0] == (PortOp::Byte { port: Ata::HEAD_REGISTER, value: 0xa0 }),
                forall|i: int|
                    1 <= i < ops@.len() ==> ops@[i] == (PortOp::Byte {
                        port: (0x1f1 + i) as u16,
                        value: 0,
                    }),
            decreases 0x1f6 - port,
        {
            ops.push(PortOp::Byte { port, value: 0 });
            port += 1;
        }
        ops.push(PortOp::Byte { port: Ata::SC_REGISTER, value: Ata::IDENTIFY });
        assert(ops@ =~= seq![
            PortOp::Byte { port: Ata::HEAD_REGISTER, value: 0xa0 },
            PortOp::Byte { port: 0x1f2, value: 0 },
            PortOp::Byte { port: 0x1f3, value: 0 },
            PortOp::Byte { port: 0x1f4, value: 0 },
            PortOp::Byte { port: 0x1f5, value: 0 },
            PortOp::Byte { port: Ata::SC_REGISTER, value: Ata::IDENTIFY },
        ]);
        ops
    }

    /// The next step of the identification, from the stage and the byte
    /// that the controller answered: see `identify_step`.
    pub fn identify(&mut self, stage: Stage, reply: u8) -> (step: Step)
        ensures
            step == identify_step(stage, reply),
            final(self).sectors == old(self).sectors,
    {
        match stage {
            Stage::Probe => if reply == 0 {
                Step::Fail { error: AtaError::NotFound }
            } else {
                Step::Ask { stage: Stage::Busy, port: Ata::SC_REGISTER }
            },
            Stage::Busy => if reply & Status::BSY != 0 {
                Step::Ask { stage: Stage::Busy, port: Ata::SC_REGISTER }
            } else {
                Step::Ask { stage: Stage::Low, port: Ata::LOW_REGISTER }
            },
            Stage::Low => if reply != 0 {
                Step::Fail { error: AtaError::NotAta }
            } else {
                Step::Ask { stage: Stage::High, port: Ata::HIGH_REGISTER }
            },
            Stage::High => if reply != 0 {
                Step::Fail { error: AtaError::NotAta }
            } else {
                Step::Ask { stage: Stage::Poll, port: Ata::SC_REGISTER }
            },
            Stage::Poll => if reply & Status::DRQ == 0 && reply & Status::ERR == 0 {
                Step::Ask { stage: Stage::Poll, port: Ata::SC_REGISTER }
            } else if reply & Status::ERR != 0 {
                Step::Fail { error: AtaError::Poll }
            } else {
                Step::Sector
            },
        }
    }

    /// Ends the identification with the sector that the drive handed over:
    /// its words 60 and 61 give the number of sectors of the drive, the
    /// first of them the upper half.
    pub fn identified(&mut self, sector: &[u16; 256])
        ensures
            final(self).sectors == (sector@[60] as u32) << 16 | (sector@[61] as u32),
    {
        self.sectors = (sector[60] as u32) << 16 | (sector[61] as u32);
    }
}

} // verus!
