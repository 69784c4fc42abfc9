use rpb3_lib::gpio::{GPIOFunc, GPIOMiniUartRxPin, GPIOMiniUartTxPin, GPIOPullState, GPIORegs, GPIO};
use rpb3_lib::gpio_leds::{display_code, init_leds, show_codes, LED_PINS, MAX_CODE};
use rpb3_lib::utils::RW;
use rpb3_lib::GPIO_BASE;

fn zero_gpio() -> GPIO {
    GPIO::new(GPIO_BASE, GPIORegs::new(GPIO_BASE))
}

#[test]
fn function_codes() {
    assert_eq!(GPIOFunc::In.code(), 0b000);
    assert_eq!(GPIOFunc::Out.code(), 0b001);
    assert_eq!(GPIOFunc::Alt0.code(), 0b100);
    assert_eq!(GPIOFunc::Alt1.code(), 0b101);
    assert_eq!(GPIOFunc::Alt2.code(), 0b110);
    assert_eq!(GPIOFunc::Alt3.code(), 0b111);
    assert_eq!(GPIOFunc::Alt4.code(), 0b011);
    assert_eq!(GPIOFunc::Alt5.code(), 0b010);
    assert_eq!(GPIOPullState::Off.code(), 0);
    assert_eq!(GPIOPullState::PullDown.code(), 1);
    assert_eq!(GPIOPullState::PullUp.code(), 2);
    assert_eq!(GPIOMiniUartTxPin::GPIO14.pin(), 14);
    assert_eq!(GPIOMiniUartTxPin::GPIO32.pin(), 32);
    assert_eq!(GPIOMiniUartTxPin::GPIO40.pin(), 40);
    assert_eq!(GPIOMiniUartRxPin::GPIO15.pin(), 15);
    assert_eq!(GPIOMiniUartRxPin::GPIO33.pin(), 33);
    assert_eq!(GPIOMiniUartRxPin::GPIO41.pin(), 41);
}

#[test]
fn set_gpio_func_writes_the_pin_field() {
    let mut g = zero_gpio();
    g.set_gpio_func(14, GPIOFunc::Alt5);
    assert_eq!(g.regs.gpfsel[1].current(), 0b010 << 12);
    g.set_gpio_func(53, GPIOFunc::Alt0);
    assert_eq!(g.regs.gpfsel[5].current(), 0b100 << 9);
    g.set_gpio_func(0, GPIOFunc::Alt3);
    assert_eq!(g.regs.gpfsel[0].current(), 0b111);
    for j in [2usize, 3, 4] {
        assert_eq!(g.regs.gpfsel[j].current(), 0);
    }
}

#[test]
fn set_gpio_func_keeps_other_pins() {
    let mut regs = GPIORegs::new(GPIO_BASE);
    regs.gpfsel[1] = RW::new(GPIO_BASE as u64 + 4, 0xFFFF_FFFF);
    let mut g = GPIO::new(GPIO_BASE, regs);
    g.set_gpio_func(15, GPIOFunc::In);
    assert_eq!(g.regs.gpfsel[1].current(), 0xFFFC_7FFF);
    g.set_gpio_func(15, GPIOFunc::Alt4);
    assert_eq!(g.regs.gpfsel[1].current(), 0xFFFD_FFFF);
}

#[test]
fn mini_uart_pins_get_alt5() {
    let mut g = zero_gpio();
    g.set_mini_uart_tx(GPIOMiniUartTxPin::GPIO14);
    g.set_mini_uart_rx(GPIOMiniUartRxPin::GPIO15);
    assert_eq!(g.regs.gpfsel[1].current(), (0b010 << 12) | (0b010 << 15));
    g.set_mini_uart_tx(GPIOMiniUartTxPin::GPIO40);
    g.set_mini_uart_rx(GPIOMiniUartRxPin::GPIO41);
    assert_eq!(g.regs.gpfsel[4].current(), 0b010 | (0b010 << 3));
    g.set_mini_uart_tx(GPIOMiniUartTxPin::GPIO32);
    g.set_mini_uart_rx(GPIOMiniUartRxPin::GPIO33);
    assert_eq!(g.regs.gpfsel[3].current(), (0b010 << 6) | (0b010 << 9));
}

#[test]
fn set_pin_out_writes_bank_masks() {
    let mut g = zero_gpio();
    g.set_pin_out(&[6, 13, 40]);
    assert_eq!(g.regs.gpset[0].written(), (1 << 6) | (1 << 13));
    assert_eq!(g.regs.gpset[1].written(), 1 << 8);
    assert_eq!(g.regs.gpclr[0].written(), 0);
    g.set_pin_out(&[]);
    assert_eq!(g.regs.gpset[0].written(), 0);
    assert_eq!(g.regs.gpset[1].written(), 0);
    g.set_pin_out(&[31, 32, 53, 53]);
    assert_eq!(g.regs.gpset[0].written(), 1 << 31);
    assert_eq!(g.regs.gpset[1].written(), 1 | (1 << 21));
}

#[test]
fn clear_pin_out_writes_bank_masks() {
    let mut g = zero_gpio();
    g.clear_pin_out(&[0, 33]);
    assert_eq!(g.regs.gpclr[0].written(), 1);
    assert_eq!(g.regs.gpclr[1].written(), 2);
    assert_eq!(g.regs.gpset[0].written(), 0);
}

#[test]
fn pull_state_ends_released() {
    let mut g = zero_gpio();
    g.set_pull_state(&[14, 15], GPIOPullState::PullUp);
    assert_eq!(g.regs.gppud.current(), 0);
    assert_eq!(g.regs.gppudclk[0].current(), 0);
    assert_eq!(g.regs.gppudclk[1].current(), 0);
    assert_eq!(g.regs.gpfsel[1].current(), 0);
}

#[test]
fn leds_init_as_outputs() {
    let mut g = zero_gpio();
    init_leds(&mut g);
    assert_eq!(LED_PINS, [6, 13, 19, 26]);
    assert_eq!(g.regs.gpfsel[0].current(), 1 << 18);
    assert_eq!(g.regs.gpfsel[1].current(), (1 << 9) | (1 << 27));
    assert_eq!(g.regs.gpfsel[2].current(), 1 << 18);
    assert_eq!(g.regs.gpfsel[3].current(), 0);
}

#[test]
fn display_code_switches_each_led() {
    let mut g = zero_gpio();
    // LEDs 0 and 2 on, 1 and 3 off: the last switch-on is LED 2, the last
    // switch-off LED 3.
    display_code(&mut g, 0b0101);
    assert_eq!(g.regs.gpset[0].written(), 1 << 19);
    assert_eq!(g.regs.gpclr[0].written(), 1 << 26);
    assert_eq!(g.regs.gpset[1].written(), 0);
    assert_eq!(g.regs.gpclr[1].written(), 0);
    let mut g = zero_gpio();
    display_code(&mut g, MAX_CODE);
    assert_eq!(MAX_CODE, 15);
    assert_eq!(g.regs.gpset[0].written(), 1 << 26);
    assert_eq!(g.regs.gpclr[0].written(), 0);
    let mut g = zero_gpio();
    display_code(&mut g, 0b10000);
    assert_eq!(g.regs.gpset[0].written(), 0);
    assert_eq!(g.regs.gpclr[0].written(), 1 << 26);
}

#[test]
fn show_codes_ends_on_last_code() {
    let mut g = zero_gpio();
    show_codes(&mut g, &[0b0001, 0b1110], 1);
    assert_eq!(g.regs.gpset[0].written(), 1 << 26);
    assert_eq!(g.regs.gpclr[0].written(), 1 << 6);
}
