use std::cell::RefCell;

use ds1307::{DateTimeAccess, Ds1307, NaiveDate};
use embedded_hal::i2c::{ErrorKind, ErrorType, I2c, NoAcknowledgeSource, Operation};
use shared_i2c::{Admission, BusShareError, Manager};

const RTC_ADDRESS: u8 = 0x68;

/// A real-time clock's register file that keeps the bytes written to it and
/// hands them back on read.
struct EchoClock {
    registers: [u8; 64],
    pointer: usize,
}

impl EchoClock {
    fn new() -> EchoClock {
        EchoClock { registers: [0; 64], pointer: 0 }
    }

    fn run(&mut self, address: u8, operations: &mut [Operation<'_>]) -> Result<(), ErrorKind> {
        if address != RTC_ADDRESS {
            return Err(ErrorKind::NoAcknowledge(NoAcknowledgeSource::Address));
        }
        for op in operations.iter_mut() {
            match op {
                Operation::Write(bytes) => {
                    if let Some((first, rest)) = bytes.split_first() {
                        self.pointer = *first as usize;
                        for b in rest {
                            self.registers[self.pointer % 64] = *b;
                            self.pointer += 1;
                        }
                    }
                }
                Operation::Read(buffer) => {
                    for slot in buffer.iter_mut() {
                        *slot = self.registers[self.pointer % 64];
                        self.pointer += 1;
                    }
                }
            }
        }
        Ok(())
    }
}

/// A user of the shared bus: every transaction goes through the manager.
struct Handle<'a> {
    manager: &'a RefCell<Manager<EchoClock>>,
}

impl ErrorType for Handle<'_> {
    type Error = ErrorKind;
}

impl I2c for Handle<'_> {
    fn transaction(
        &mut self,
        address: u8,
        operations: &mut [Operation<'_>],
    ) -> Result<(), ErrorKind> {
        let admission = self.manager.borrow_mut().acquire();
        let mut lease = match admission {
            Admission::Granted(lease) => lease,
            Admission::Busy => panic!("a single-threaded test never finds the bus busy"),
            Admission::Poisoned => return Err(ErrorKind::Other),
        };
        let result = lease.bus.run(address, operations);
        match self.manager.borrow_mut().finish(lease, result) {
            Ok(()) => Ok(()),
            Err(BusShareError::Bus(e)) => Err(e),
            Err(BusShareError::LockPoisoned) => Err(ErrorKind::Other),
        }
    }
}

#[test]
fn clock_round_trip_through_shared_bus() {
    let manager = RefCell::new(Manager::new(EchoClock::new()));
    let mut rtc = Ds1307::new(Handle { manager: &manager });
    let datetime = NaiveDate::from_ymd_opt(2020, 5, 2)
        .unwrap()
        .and_hms_opt(19, 59, 58)
        .unwrap();
    rtc.set_datetime(&datetime).unwrap();
    assert_eq!(rtc.datetime().unwrap(), datetime);
    assert!(!manager.borrow().is_held());
}

#[test]
fn clock_round_trip_truncates_to_seconds() {
    let manager = RefCell::new(Manager::new(EchoClock::new()));
    let mut rtc = Ds1307::new(Handle { manager: &manager });
    let datetime = NaiveDate::from_ymd_opt(2031, 12, 31)
        .unwrap()
        .and_hms_milli_opt(23, 59, 59, 750)
        .unwrap();
    rtc.set_datetime(&datetime).unwrap();
    let expected = NaiveDate::from_ymd_opt(2031, 12, 31)
        .unwrap()
        .and_hms_opt(23, 59, 59)
        .unwrap();
    assert_eq!(rtc.datetime().unwrap(), expected);
}

#[test]
fn two_clock_handles_share_one_bus() {
    let manager = RefCell::new(Manager::new(EchoClock::new()));
    let mut writer = Ds1307::new(Handle { manager: &manager });
    let mut reader = Ds1307::new(Handle { manager: &manager });
    let datetime = NaiveDate::from_ymd_opt(2024, 2, 29)
        .unwrap()
        .and_hms_opt(8, 30, 0)
        .unwrap();
    writer.set_datetime(&datetime).unwrap();
    assert_eq!(reader.datetime().unwrap(), datetime);
}

#[test]
fn wrong_address_error_reaches_the_caller() {
    let manager = RefCell::new(Manager::new(EchoClock::new()));
    let mut handle = Handle { manager: &manager };
    assert_eq!(
        handle.write(0x50, &[0x00]),
        Err(ErrorKind::NoAcknowledge(NoAcknowledgeSource::Address))
    );
    let mut buf = [0u8; 1];
    assert_eq!(handle.write_read(RTC_ADDRESS, &[0x00], &mut buf), Ok(()));
}
