use stm32f042::bus::Request;
use stm32f042::peripherals::i2c::{
    I2cReg, ReadData, WriteData, CR2_AUTOEND, CR2_RD_WRN, CR2_START, ICR_CLEAR_STOP_NACK, ISR_NACKF,
    ISR_RXNE, ISR_STOPF, ISR_TC, ISR_TXIS,
};

/// A stand-in for the I2C1 registers: CR2 keeps what is written to it, ISR
/// and RXDR give the scripted values in turn, and every access is logged.
struct Bus {
    cr2: u32,
    isr: Vec<u32>,
    rxdr: Vec<u32>,
    log: Vec<(char, I2cReg, u32)>,
}

impl Bus {
    fn new(cr2: u32, isr: &[u32], rxdr: &[u32]) -> Bus {
        Bus { cr2, isr: isr.iter().rev().cloned().collect(), rxdr: rxdr.iter().rev().cloned().collect(), log: Vec::new() }
    }

    fn read(&mut self, reg: I2cReg) -> u32 {
        let v = match reg {
            I2cReg::Cr2 => self.cr2,
            I2cReg::Isr => self.isr.pop().expect("ISR read beyond the script"),
            I2cReg::Rxdr => self.rxdr.pop().expect("RXDR read beyond the script"),
            _ => 0,
        };
        self.log.push(('r', reg, v));
        v
    }

    fn write(&mut self, reg: I2cReg, v: u32) {
        if reg == I2cReg::Cr2 {
            self.cr2 = v;
        }
        self.log.push(('w', reg, v));
    }

    fn writes(&self, reg: I2cReg) -> Vec<u32> {
        self.log.iter().filter(|(k, r, _)| *k == 'w' && *r == reg).map(|(_, _, v)| *v).collect()
    }
}

fn run_write(bus: &mut Bus, addr: u8, data: &[u8]) -> Option<()> {
    let mut m = WriteData::new(addr, data);
    for _ in 0..1000 {
        match m.request() {
            Request::Read(r) => {
                let v = bus.read(r);
                m.advance(v);
            }
            Request::Write(r, v) => {
                bus.write(r, v);
                m.advance(0);
            }
            Request::Done(res) => return res,
        }
    }
    panic!("the write did not finish");
}

fn run_read(bus: &mut Bus, addr: u8, req: u8, size: u8, data: &mut [u8]) -> Option<()> {
    let mut m = ReadData::new(addr, req, size, data.len());
    for _ in 0..1000 {
        match m.request() {
            Request::Read(r) => {
                let v = bus.read(r);
                m.advance(v);
            }
            Request::Write(r, v) => {
                bus.write(r, v);
                m.advance(0);
            }
            Request::Done(res) => {
                if res.is_some() {
                    m.copy_received(data);
                }
                return res;
            }
        }
    }
    panic!("the read did not finish");
}

#[test]
fn write_data_sends_every_byte() {
    let mut bus = Bus::new(0, &[ISR_TXIS, 0, ISR_TXIS, 0, ISR_TXIS, 0], &[]);
    assert_eq!(run_write(&mut bus, 0x41, &[0x00, 0x69, 0x27]), Some(()));
    assert_eq!(bus.writes(I2cReg::Cr2), vec![0x0203_0082, 0x0203_2082]);
    assert_eq!(bus.writes(I2cReg::Txdr), vec![0x00, 0x69, 0x27]);
    assert_eq!(bus.writes(I2cReg::Icr), vec![ICR_CLEAR_STOP_NACK]);
    assert_eq!(bus.log.last(), Some(&('w', I2cReg::Icr, 0x30)));
    assert_eq!(bus.log.len(), 4 + 3 * 3 + 1);
}

#[test]
fn write_data_waits_for_txis() {
    let mut bus = Bus::new(0, &[0, 0, ISR_TXIS, 0], &[]);
    assert_eq!(run_write(&mut bus, 0x10, &[0xab]), Some(()));
    assert_eq!(bus.writes(I2cReg::Txdr), vec![0xab]);
    let kinds: Vec<(char, I2cReg)> = bus.log.iter().map(|(k, r, _)| (*k, *r)).collect();
    assert_eq!(
        kinds,
        vec![
            ('r', I2cReg::Cr2),
            ('w', I2cReg::Cr2),
            ('r', I2cReg::Cr2),
            ('w', I2cReg::Cr2),
            ('r', I2cReg::Isr),
            ('r', I2cReg::Isr),
            ('r', I2cReg::Isr),
            ('w', I2cReg::Txdr),
            ('r', I2cReg::Isr),
            ('w', I2cReg::Icr),
        ]
    );
}

#[test]
fn write_data_stops_on_nack() {
    let mut bus = Bus::new(0, &[ISR_TXIS, 0, ISR_TXIS, ISR_NACKF], &[]);
    assert_eq!(run_write(&mut bus, 0x41, &[1, 2, 3]), None);
    assert_eq!(bus.writes(I2cReg::Txdr), vec![1, 2]);
    assert_eq!(bus.writes(I2cReg::Icr), vec![0x30]);
    let n = bus.log.len();
    assert_eq!(bus.log[n - 3], ('w', I2cReg::Txdr, 2));
    assert_eq!(bus.log[n - 2], ('r', I2cReg::Isr, ISR_NACKF));
    assert_eq!(bus.log[n - 1], ('w', I2cReg::Icr, 0x30));
}

#[test]
fn write_data_nack_on_first_byte() {
    let mut bus = Bus::new(0, &[ISR_TXIS, ISR_NACKF | ISR_STOPF], &[]);
    assert_eq!(run_write(&mut bus, 0x41, &[7]), None);
    assert_eq!(bus.writes(I2cReg::Txdr), vec![7]);
}

#[test]
fn write_data_of_nothing_sets_up_and_clears() {
    let mut bus = Bus::new(0, &[], &[]);
    assert_eq!(run_write(&mut bus, 0x41, &[]), Some(()));
    assert_eq!(bus.writes(I2cReg::Cr2), vec![0x0200_0082, 0x0200_2082]);
    assert_eq!(bus.writes(I2cReg::Txdr), Vec::<u32>::new());
    assert_eq!(bus.writes(I2cReg::Icr), vec![0x30]);
}

#[test]
fn write_data_keeps_other_cr2_bits_and_masks_address() {
    // Every bit set before: SADD1 takes the low seven bits of 0xc1 (0x41),
    // NBYTES takes 2, RD_WRN is cleared, AUTOEND set, the rest kept.
    let mut bus = Bus::new(0xffff_ffff, &[ISR_TXIS, 0, ISR_TXIS, 0], &[]);
    assert_eq!(run_write(&mut bus, 0xc1, &[5, 6]), Some(()));
    let setup = bus.writes(I2cReg::Cr2)[0];
    assert_eq!(setup, 0xff02_fb83);
    assert_eq!((setup >> 1) & 0x7f, 0x41);
    assert_eq!((setup >> 16) & 0xff, 2);
    assert_eq!(setup & CR2_RD_WRN, 0);
    assert_eq!(setup & CR2_AUTOEND, CR2_AUTOEND);
    assert_eq!(bus.writes(I2cReg::Cr2)[1], setup | CR2_START);
}

#[test]
fn write_data_count_wraps_at_256() {
    let data = vec![0u8; 256];
    let mut isr = Vec::new();
    for _ in 0..256 {
        isr.push(ISR_TXIS);
        isr.push(0);
    }
    let mut bus = Bus::new(0, &isr, &[]);
    assert_eq!(run_write(&mut bus, 0x41, &data), Some(()));
    assert_eq!((bus.writes(I2cReg::Cr2)[0] >> 16) & 0xff, 0);
    assert_eq!(bus.writes(I2cReg::Txdr).len(), 256);
}

#[test]
fn read_data_receives_bytes() {
    let isr = [0, ISR_TXIS, 0, ISR_TC, ISR_RXNE, 0, ISR_RXNE];
    let mut bus = Bus::new(0, &isr, &[0x1234, 0xff]);
    let mut data = [0u8; 2];
    assert_eq!(run_read(&mut bus, 0x41, 0x01, 2, &mut data), Some(()));
    assert_eq!(data, [0x34, 0xff]);
    assert_eq!(
        bus.writes(I2cReg::Cr2),
        vec![0x0001_0082, 0x0001_2082, 0x0002_2482, 0x0002_2482, 0x0202_2482]
    );
    assert_eq!(bus.writes(I2cReg::Txdr), vec![0x01]);
    assert_eq!(bus.writes(I2cReg::Icr), vec![0x30]);
    assert_eq!(bus.log.last(), Some(&('w', I2cReg::Icr, 0x30)));
}

#[test]
fn read_data_request_setup_clears_autoend() {
    let mut bus = Bus::new(0xffff_ffff, &[ISR_TC, ISR_TC], &[]);
    let mut data: [u8; 0] = [];
    assert_eq!(run_read(&mut bus, 0x41, 0x02, 0, &mut data), Some(()));
    let w = bus.writes(I2cReg::Cr2);
    assert_eq!(w[0], 0xfd01_fb83);
    assert_eq!(w[0] & (CR2_AUTOEND | CR2_RD_WRN), 0);
    assert_eq!(w[2], 0xfd00_ff83);
    assert_eq!(w[4] & CR2_AUTOEND, CR2_AUTOEND);
}

#[test]
fn read_data_refused_address() {
    let mut bus = Bus::new(0, &[0, ISR_NACKF | ISR_STOPF], &[]);
    let mut data = [9u8; 2];
    assert_eq!(run_read(&mut bus, 0x41, 0x01, 2, &mut data), None);
    assert_eq!(data, [9, 9]);
    assert_eq!(bus.writes(I2cReg::Txdr), Vec::<u32>::new());
    assert_eq!(bus.writes(I2cReg::Cr2).len(), 2);
    assert_eq!(bus.writes(I2cReg::Icr), vec![0x30]);
}

#[test]
fn read_data_goes_on_after_stop_without_nack() {
    let mut bus = Bus::new(0, &[ISR_STOPF, ISR_TC, ISR_RXNE], &[0x5a]);
    let mut data = [0u8; 1];
    assert_eq!(run_read(&mut bus, 0x41, 0x03, 1, &mut data), Some(()));
    assert_eq!(data, [0x5a]);
    assert_eq!(bus.writes(I2cReg::Txdr), vec![0x03]);
}

#[test]
fn read_data_waits_for_tc_and_rxne() {
    let isr = [ISR_TXIS, 0, 0, ISR_TC, 0, 0, ISR_RXNE];
    let mut bus = Bus::new(0, &isr, &[0x77]);
    let mut data = [0u8; 1];
    assert_eq!(run_read(&mut bus, 0x20, 0x05, 1, &mut data), Some(()));
    assert_eq!(data, [0x77]);
    assert!(bus.isr.is_empty());
}

#[test]
fn read_data_accesses_in_order() {
    let isr = [0, ISR_TXIS, 0, ISR_TC, 0, ISR_RXNE];
    let mut bus = Bus::new(0, &isr, &[0x42]);
    let mut data = [0u8; 1];
    assert_eq!(run_read(&mut bus, 0x41, 0x07, 1, &mut data), Some(()));
    let kinds: Vec<(char, I2cReg)> = bus.log.iter().map(|(k, r, _)| (*k, *r)).collect();
    assert_eq!(
        kinds,
        vec![
            ('r', I2cReg::Cr2),
            ('w', I2cReg::Cr2),
            ('r', I2cReg::Cr2),
            ('w', I2cReg::Cr2),
            ('r', I2cReg::Isr),
            ('r', I2cReg::Isr),
            ('w', I2cReg::Txdr),
            ('r', I2cReg::Isr),
            ('r', I2cReg::Isr),
            ('r', I2cReg::Cr2),
            ('w', I2cReg::Cr2),
            ('r', I2cReg::Cr2),
            ('w', I2cReg::Cr2),
            ('r', I2cReg::Cr2),
            ('w', I2cReg::Cr2),
            ('r', I2cReg::Isr),
            ('r', I2cReg::Isr),
            ('r', I2cReg::Rxdr),
            ('w', I2cReg::Icr),
        ]
    );
}
