use vstd::prelude::*;

pub mod aarch64;
pub mod aux;
pub mod gpio;
pub mod gpio_leds;
pub mod kernel;
pub mod loader;
pub mod uart;
pub mod uart_command;
pub mod utils;

use crate::aux::{Aux, AuxRegs};
use crate::gpio::{GPIO, GPIORegs};
use crate::uart::{setup_events, Uart, UartRegs};
use crate::utils::BusEvent;

verus! {

/// Bus address of the peripherals.
pub const PERIPH_BASE: u32 = 0x3F000000;

/// Bus address of the auxiliary peripherals' register block.
pub const AUX_BASE: u32 = PERIPH_BASE + 0x215000;

/// Bus address of the mini UART's register block.
pub const UART_BASE: u32 = PERIPH_BASE + 0x215040;

/// Bus address of the GPIO register block.
pub const GPIO_BASE: u32 = PERIPH_BASE + 0x200000;

/// The peripherals this board support drives.
pub struct Peripherial {
    pub aux: Aux,
    pub uart: Uart,
    pub gpio: GPIO,
}

impl Peripherial {
    /// Whether the drivers sit at the board's addresses, with their registers
    /// placed there, and keep one record of the bus between them: the mini
    /// UART's driver holds it, each of the others takes it for its own steps
    /// and hands it back, and every register's writes are the writes to its
    /// address in it.
    pub open spec fn wf(self) -> bool {
        &&& self.aux.base == AUX_BASE
        &&& self.uart.base == UART_BASE
        &&& self.gpio.base == GPIO_BASE
        &&& self.uart.wf()
        &&& self.aux.regs.placed(AUX_BASE)
        &&& self.gpio.regs.placed(GPIO_BASE)
        &&& self.aux.regs.recorded(self.trace())
        &&& self.gpio.regs.recorded(self.trace())
        &&& self.aux.trace() == Seq::<BusEvent>::empty()
        &&& self.gpio.trace() == Seq::<BusEvent>::empty()
    }

    /// What the drivers have done on the bus, oldest first.
    pub open spec fn trace(self) -> Seq<BusEvent> {
        self.uart.trace()
    }

    /// The peripherals over the register blocks `aux`, `uart` and `gpio`, at
    /// their bus addresses; the mini UART gets its set-up writes.
    pub fn new(aux: AuxRegs, uart: UartRegs, gpio: GPIORegs) -> (p: Peripherial)
        requires
            aux.placed(AUX_BASE),
            uart.placed(UART_BASE),
            gpio.placed(GPIO_BASE),
            aux.recorded(Seq::empty()),
            uart.recorded(Seq::empty()),
            gpio.recorded(Seq::empty()),
        ensures
            p.wf(),
            p.trace() == setup_events(UART_BASE),
            p.aux.regs == aux,
            UartRegs::setup_regs(uart, p.uart.regs),
            p.gpio.regs == gpio,
    {
        Peripherial { aux: Aux::new(AUX_BASE, aux), uart: Uart::new(UART_BASE, uart), gpio: GPIO::new(GPIO_BASE, gpio) }
    }

    /// Exchanges the records of the mini UART's driver and the GPIO driver:
    /// the GPIO driver takes the common record for its steps, and gives it back
    /// by the same exchange.
    pub(crate) fn swap_gpio_bus(&mut self)
        ensures
            *final(self) == (Peripherial {
                gpio: GPIO { bus: old(self).uart.bus, ..old(self).gpio },
                uart: Uart { bus: old(self).gpio.bus, ..old(self).uart },
                ..*old(self)
            }),
    {
        core::mem::swap(&mut self.uart.bus, &mut self.gpio.bus);
    }

    /// Exchanges the records of the mini UART's driver and the auxiliary
    /// peripherals' driver, as `swap_gpio_bus` does for the GPIO driver.
    pub(crate) fn swap_aux_bus(&mut self)
        ensures
            *final(self) == (Peripherial {
                aux: Aux { bus: old(self).uart.bus, ..old(self).aux },
                uart: Uart { bus: old(self).aux.bus, ..old(self).uart },
                ..*old(self)
            }),
    {
        core::mem::swap(&mut self.uart.bus, &mut self.aux.bus);
    }
}

} // verus!
