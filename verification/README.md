stm32f042
=========

Peripheral access for the STMicro STM32F042 microcontroller, written in Verus.

- `src/` is the verified library. `bus` holds the requests that a driver
  makes and the traces of register accesses; `peripherals::i2c` holds the
  fields of the I2C1 registers and the drivers that write bytes to a device
  and read bytes from one; `peripherals::usart` holds the flags of the USART1
  registers and the drivers that take a received character and send a
  string; `comp` holds the comparator's register block.
- Each driver is a state machine: it names the register access to make next,
  and is told what a read gave back. Its invariant holds of every state that
  a run reaches, whatever the hardware answers, and the laws about finished
  runs (what went to which register, in which order, after which flag) are
  proof functions over the trace.
- `app/` places the register blocks at their addresses and runs the drivers
  against them with volatile reads and writes.
