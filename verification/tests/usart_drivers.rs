use stm32f042::bus::Request;
use stm32f042::peripherals::usart::{ReadChar, SendStr, UsartReg, ICR_ORECF, ISR_ORE, ISR_RXNE, ISR_TXE};

/// A stand-in for the USART1 registers: ICR and TDR keep what is written
/// to them, ISR and RDR give the scripted values in turn, and every access
/// is logged.
struct Bus {
    icr: u32,
    tdr: u32,
    isr: Vec<u32>,
    rdr: Vec<u32>,
    log: Vec<(char, UsartReg, u32)>,
}

impl Bus {
    fn new(icr: u32, isr: &[u32], rdr: &[u32]) -> Bus {
        Bus {
            icr,
            tdr: 0,
            isr: isr.iter().rev().cloned().collect(),
            rdr: rdr.iter().rev().cloned().collect(),
            log: Vec::new(),
        }
    }

    fn read(&mut self, reg: UsartReg) -> u32 {
        let v = match reg {
            UsartReg::Isr => self.isr.pop().expect("ISR read beyond the script"),
            UsartReg::Rdr => self.rdr.pop().expect("RDR read beyond the script"),
            UsartReg::Icr => self.icr,
            UsartReg::Tdr => self.tdr,
        };
        self.log.push(('r', reg, v));
        v
    }

    fn write(&mut self, reg: UsartReg, v: u32) {
        match reg {
            UsartReg::Icr => self.icr = v,
            UsartReg::Tdr => self.tdr = v,
            _ => {}
        }
        self.log.push(('w', reg, v));
    }

    fn writes(&self, reg: UsartReg) -> Vec<u32> {
        self.log.iter().filter(|(k, r, _)| *k == 'w' && *r == reg).map(|(_, _, v)| *v).collect()
    }
}

fn run_read_char(bus: &mut Bus, echo: bool) -> u8 {
    let mut m = ReadChar::new(echo);
    for _ in 0..1000 {
        match m.request() {
            Request::Read(r) => {
                let v = bus.read(r);
                m.advance(v);
            }
            Request::Write(r, v) => {
                bus.write(r, v);
                m.advance(0);
            }
            Request::Done(c) => return c,
        }
    }
    panic!("the taking did not finish");
}

fn run_send(bus: &mut Bus, s: &str) {
    let mut m = SendStr::new(s);
    for _ in 0..10000 {
        match m.request() {
            Request::Read(r) => {
                let v = bus.read(r);
                m.advance(v);
            }
            Request::Write(r, v) => {
                bus.write(r, v);
                m.advance(0);
            }
            Request::Done(()) => return,
        }
    }
    panic!("the sending did not finish");
}

#[test]
fn read_char_takes_received_character() {
    let mut bus = Bus::new(0, &[0, ISR_RXNE], &[0x41]);
    assert_eq!(run_read_char(&mut bus, false), 0x41);
    assert_eq!(bus.writes(UsartReg::Tdr), Vec::<u32>::new());
    assert_eq!(bus.writes(UsartReg::Icr), Vec::<u32>::new());
}

#[test]
fn read_char_nothing_received_gives_zero() {
    let mut bus = Bus::new(0, &[0, 0], &[]);
    assert_eq!(run_read_char(&mut bus, true), 0);
    assert_eq!(bus.log.len(), 2);
    assert_eq!(bus.writes(UsartReg::Tdr), Vec::<u32>::new());
}

#[test]
fn read_char_clears_overrun() {
    let mut bus = Bus::new(0x100, &[ISR_ORE | ISR_RXNE], &[0x62]);
    assert_eq!(run_read_char(&mut bus, false), 0x62);
    assert_eq!(bus.writes(UsartReg::Icr), vec![0x100 | ICR_ORECF]);
    let kinds: Vec<(char, UsartReg)> = bus.log.iter().map(|(k, r, _)| (*k, *r)).collect();
    assert_eq!(
        kinds,
        vec![('r', UsartReg::Isr), ('r', UsartReg::Icr), ('w', UsartReg::Icr), ('r', UsartReg::Rdr)]
    );
}

#[test]
fn read_char_echoes_after_txe() {
    let mut bus = Bus::new(0, &[0, ISR_RXNE, 0, 0, ISR_TXE], &[0x0163]);
    assert_eq!(run_read_char(&mut bus, true), 0x63);
    assert_eq!(bus.writes(UsartReg::Tdr), vec![0x0163]);
    let n = bus.log.len();
    assert_eq!(bus.log[n - 3], ('r', UsartReg::Isr, ISR_TXE));
    assert_eq!(bus.log[n - 2].1, UsartReg::Tdr);
    assert_eq!(bus.log[n - 1], ('w', UsartReg::Tdr, 0x0163));
}

#[test]
fn read_char_echoes_word_whose_low_byte_is_zero() {
    let mut bus = Bus::new(0, &[0, ISR_RXNE, ISR_TXE], &[0x100]);
    assert_eq!(run_read_char(&mut bus, true), 0);
    assert_eq!(bus.writes(UsartReg::Tdr), vec![0x100]);
}

#[test]
fn read_char_truncates_to_low_byte() {
    let mut bus = Bus::new(0, &[0, ISR_RXNE], &[0x1ff]);
    assert_eq!(run_read_char(&mut bus, false), 0xff);
}

#[test]
fn send_str_writes_each_byte_after_txe() {
    let mut bus = Bus::new(0, &[ISR_TXE, 0, ISR_TXE], &[]);
    run_send(&mut bus, "hi");
    assert_eq!(bus.writes(UsartReg::Tdr), vec![b'h' as u32, b'i' as u32]);
    let kinds: Vec<(char, UsartReg)> = bus.log.iter().map(|(k, r, _)| (*k, *r)).collect();
    assert_eq!(
        kinds,
        vec![
            ('r', UsartReg::Isr),
            ('r', UsartReg::Tdr),
            ('w', UsartReg::Tdr),
            ('r', UsartReg::Isr),
            ('r', UsartReg::Isr),
            ('r', UsartReg::Tdr),
            ('w', UsartReg::Tdr),
        ]
    );
}

#[test]
fn send_str_empty_does_nothing() {
    let mut bus = Bus::new(0, &[], &[]);
    run_send(&mut bus, "");
    assert!(bus.log.is_empty());
}

#[test]
fn send_str_sends_utf8_bytes() {
    let isr = vec![ISR_TXE; 3];
    let mut bus = Bus::new(0, &isr, &[]);
    run_send(&mut bus, "µA");
    assert_eq!(bus.writes(UsartReg::Tdr), vec![0xc2, 0xb5, 0x41]);
}

#[test]
fn read_char_echo_changes_only_the_echo() {
    let mut quiet = Bus::new(0, &[0, ISR_RXNE], &[0x35]);
    let mut loud = Bus::new(0, &[0, ISR_RXNE, ISR_TXE], &[0x35]);
    assert_eq!(run_read_char(&mut quiet, false), run_read_char(&mut loud, true));
    assert_eq!(quiet.writes(UsartReg::Tdr), Vec::<u32>::new());
    assert_eq!(loud.writes(UsartReg::Tdr), vec![0x35]);
    assert_eq!(&loud.log[..quiet.log.len()], &quiet.log[..]);
    let loud_other: Vec<(char, UsartReg, u32)> =
        loud.log.iter().filter(|(k, r, _)| *k == 'w' && *r != UsartReg::Tdr).cloned().collect();
    let quiet_writes: Vec<(char, UsartReg, u32)> = quiet.log.iter().filter(|(k, _, _)| *k == 'w').cloned().collect();
    assert_eq!(loud_other, quiet_writes);
}

#[test]
fn send_str_in_two_parts_sends_the_same_words() {
    let isr = vec![ISR_TXE; 5];
    let mut parts = Bus::new(0, &isr, &[]);
    run_send(&mut parts, "ab");
    run_send(&mut parts, "cde");
    let mut whole = Bus::new(0, &isr, &[]);
    run_send(&mut whole, "abcde");
    assert_eq!(parts.writes(UsartReg::Tdr), whole.writes(UsartReg::Tdr));
    assert_eq!(parts.log, whole.log);
}
