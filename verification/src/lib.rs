//! Peripheral access for the STMicro STM32F042 microcontroller.
//!
//! The drivers for the I2C and USART peripherals are written as state
//! machines: a driver tells its caller which register access to make next
//! and learns the value that the access produced.  Each driver keeps, as
//! ghost state, the trace of the accesses made so far, and the laws of
//! each module are stated over that trace.
#![allow(non_camel_case_types)]

pub mod bus;
pub mod comp;
pub mod peripherals;
