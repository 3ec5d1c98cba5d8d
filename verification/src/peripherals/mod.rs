//! Drivers for the I2C and USART peripherals.

pub mod i2c;
pub mod usart;
