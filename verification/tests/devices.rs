use kernel::debug::{PortWrite, SerialPort, COM1, TRANSMIT_EMPTY};
use kernel::interrupt::{KEYBOARD, KEYBOARD_PORT, PRIMARY_OFFSET, SECONDARY_OFFSET, SYSCALL, TIMER};
use kernel::vfs::ata::{Ata, AtaError, PortOp, Stage, Status, Step, SECTOR_BYTES, SECTOR_WORDS};

fn byte(port: u16, value: u8) -> PortOp {
    PortOp::Byte { port, value }
}

fn ask(stage: Stage, port: u16) -> Step {
    Step::Ask { stage, port }
}

#[test]
fn interrupt_numbers() {
    assert_eq!((PRIMARY_OFFSET, SECONDARY_OFFSET), (32, 40));
    assert_eq!((TIMER, KEYBOARD, SYSCALL), (32, 33, 128));
    assert_eq!(KEYBOARD_PORT, 0x60);
}

#[test]
fn serial_port_setup() {
    let (line, writes) = SerialPort::init(COM1);
    let expected: Vec<PortWrite> = [
        (0x3f9, 0x00),
        (0x3fb, 0x80),
        (0x3f8, 0x03),
        (0x3f9, 0x00),
        (0x3fb, 0x03),
        (0x3fa, 0xc7),
        (0x3fc, 0x0b),
        (0x3fc, 0x1e),
        (0x3fc, 0x0f),
    ]
    .iter()
    .map(|pair| PortWrite { port: pair.0, value: pair.1 })
    .collect();
    assert_eq!(writes.to_vec(), expected);
    assert_eq!(line.status_port(), 0x3fd);
}

#[test]
fn serial_port_sends_the_low_byte_of_each_character() {
    let (line, _) = SerialPort::init(COM1);
    let sent: Vec<PortWrite> = "ok\n".chars().map(|character| line.write(character)).collect();
    assert_eq!(
        sent,
        vec![
            PortWrite { port: 0x3f8, value: b'o' },
            PortWrite { port: 0x3f8, value: b'k' },
            PortWrite { port: 0x3f8, value: b'\n' },
        ]
    );
    assert_eq!(line.write('\u{e4}').value, 0xe4);
    assert_eq!(line.write('\u{20ac}').value, 0xac);
    assert_eq!(line.write('\u{1f600}').value, 0x00);
    let (second, _) = SerialPort::init(0x2f8);
    assert_eq!(second.write('a'), PortWrite { port: 0x2f8, value: b'a' });
}

#[test]
fn serial_port_is_ready_when_the_transmitter_is_empty() {
    assert_eq!(TRANSMIT_EMPTY, 0x20);
    assert!(SerialPort::ready(0x20));
    assert!(SerialPort::ready(0x61));
    assert!(!SerialPort::ready(0x00));
    assert!(!SerialPort::ready(0xdf));
}

#[test]
fn ata_constants() {
    assert_eq!((Status::BSY, Status::DRQ, Status::ERR), (0x80, 0x08, 0x01));
    assert_eq!((Ata::IDENTIFY, Ata::READ, Ata::WRITE, Ata::FLUSH), (0xec, 0x20, 0x30, 0xe7));
    assert_eq!((SECTOR_BYTES, SECTOR_WORDS), (512, 256));
    assert_eq!(Ata::new().sectors, 0);
}

#[test]
fn ata_setup_splits_the_sector_address() {
    let ops = Ata::new().setup(0x0a12_3456, 3);
    assert_eq!(
        ops,
        vec![
            byte(0x1f6, 0xea),
            byte(0x1f1, 0x00),
            byte(0x1f2, 3),
            byte(0x1f3, 0x56),
            byte(0x1f4, 0x34),
            byte(0x1f5, 0x12),
        ]
    );
    assert_eq!(Ata::new().setup(0xffff_ffff, 0)[0], byte(0x1f6, 0xef));
}

#[test]
fn ata_read_asks_for_the_sectors() {
    let ops = Ata::new().read(1, 2);
    assert_eq!(ops.len(), 7);
    assert_eq!(ops[..6], Ata::new().setup(1, 2)[..]);
    assert_eq!(ops[6], byte(0x1f7, 0x20));
}

#[test]
fn ata_write_sends_whole_sectors() {
    let data: Vec<u8> = (0..600u32).map(|index| (index % 251) as u8).collect();
    let ops = Ata::new().write(7, &data);
    assert_eq!(ops.len(), 6 + 1 + 2 * 256 + 1);
    assert_eq!(ops[..6], Ata::new().setup(7, 2)[..]);
    assert_eq!(ops[6], byte(0x1f7, 0x30));
    assert_eq!(ops[7], PortOp::Word { port: 0x1f0, value: 0x0001 });
    assert_eq!(ops[8], PortOp::Word { port: 0x1f0, value: 0x0203 });
    let last = ((598 % 251) as u16) << 8 | (599 % 251) as u16;
    assert_eq!(ops[7 + 299], PortOp::Word { port: 0x1f0, value: last });
    for op in &ops[7 + 300..7 + 512] {
        assert_eq!(*op, PortOp::Word { port: 0x1f0, value: 0 });
    }
    assert_eq!(ops[7 + 512], byte(0x1f7, 0xe7));
}

#[test]
fn ata_write_pads_an_odd_byte_and_counts_one_sector_more() {
    let ops = Ata::new().write(0, &[0xab]);
    assert_eq!(ops[2], byte(0x1f2, 1));
    assert_eq!(ops[7], PortOp::Word { port: 0x1f0, value: 0xab00 });
    assert_eq!(ops.len(), 6 + 1 + 256 + 1);
    let whole = Ata::new().write(0, &[1; 512]);
    assert_eq!(whole[2], byte(0x1f2, 2));
    assert_eq!(whole.len(), 6 + 1 + 256 + 1);
    let none = Ata::new().write(0, &[]);
    assert_eq!(none[2], byte(0x1f2, 1));
    assert_eq!(none.len(), 6 + 1 + 1);
}

#[test]
fn ata_read_sector_gives_the_low_byte_first() {
    let mut words = [0u16; 256];
    words[0] = 0x1234;
    words[255] = 0xabcd;
    let bytes = Ata::read_sector(&words);
    assert_eq!(bytes.len(), 512);
    assert_eq!(bytes[..2], [0x34, 0x12]);
    assert_eq!(bytes[510..], [0xcd, 0xab]);
    assert!(bytes[2..510].iter().all(|byte| *byte == 0));
}

#[test]
fn ata_status_bits() {
    assert!(Ata::busy(0x80));
    assert!(!Ata::busy(0x7f));
    assert!(Ata::requests_data(0x08));
    assert!(!Ata::requests_data(0xf7));
}

#[test]
fn ata_identify_starts_with_the_command() {
    assert_eq!(
        Ata::new().identify_start(),
        vec![
            byte(0x1f6, 0xa0),
            byte(0x1f2, 0),
            byte(0x1f3, 0),
            byte(0x1f4, 0),
            byte(0x1f5, 0),
            byte(0x1f7, 0xec),
        ]
    );
}

#[test]
fn ata_identify_finds_a_drive() {
    let mut ata = Ata::new();
    assert_eq!(ata.identify(Stage::Probe, 0x58), ask(Stage::Busy, 0x1f7));
    assert_eq!(ata.identify(Stage::Busy, 0x80), ask(Stage::Busy, 0x1f7));
    assert_eq!(ata.identify(Stage::Busy, 0x58), ask(Stage::Low, 0x1f4));
    assert_eq!(ata.identify(Stage::Low, 0), ask(Stage::High, 0x1f5));
    assert_eq!(ata.identify(Stage::High, 0), ask(Stage::Poll, 0x1f7));
    assert_eq!(ata.identify(Stage::Poll, 0x50), ask(Stage::Poll, 0x1f7));
    assert_eq!(ata.identify(Stage::Poll, 0x58), Step::Sector);
    let mut sector = [0u16; 256];
    sector[60] = 0x0012;
    sector[61] = 0x3456;
    ata.identified(&sector);
    assert_eq!(ata.sectors, 0x0012_3456);
}

#[test]
fn ata_identify_fails() {
    let mut ata = Ata::new();
    assert_eq!(ata.identify(Stage::Probe, 0), Step::Fail { error: AtaError::NotFound });
    assert_eq!(ata.identify(Stage::Low, 0x14), Step::Fail { error: AtaError::NotAta });
    assert_eq!(ata.identify(Stage::High, 0xeb), Step::Fail { error: AtaError::NotAta });
    assert_eq!(ata.identify(Stage::Poll, 0x01), Step::Fail { error: AtaError::Poll });
    assert_eq!(ata.identify(Stage::Poll, 0x09), Step::Fail { error: AtaError::Poll });
    assert_eq!(ata.sectors, 0);
}
