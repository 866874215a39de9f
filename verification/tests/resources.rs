use adc_sampler::resources::{
    split_resources, PeripheralSet, ALERT_PIN, I2C_BUS, LED_PIN, SCL_PIN, SDA_PIN,
};

#[test]
fn split_assigns_the_board_binding() {
    let p = PeripheralSet::new();
    let r = split_resources(p);
    assert_eq!(r.led.pin.id_value(), LED_PIN);
    assert_eq!(r.adc.sda.id_value(), SDA_PIN);
    assert_eq!(r.adc.scl.id_value(), SCL_PIN);
    assert_eq!(r.adc.interrupt.id_value(), ALERT_PIN);
    assert_eq!(r.adc.i2c.id_value(), I2C_BUS);
}

#[test]
fn no_pin_appears_in_both_bundles() {
    let p = PeripheralSet::new();
    let r = split_resources(p);
    let led_pins = [r.led.pin.id_value()];
    let adc_pins = [
        r.adc.sda.id_value(),
        r.adc.scl.id_value(),
        r.adc.interrupt.id_value(),
    ];
    for led in led_pins.iter() {
        assert!(!adc_pins.contains(led));
    }
    // The acquisition pins are themselves pairwise distinct pads.
    assert_ne!(adc_pins[0], adc_pins[1]);
    assert_ne!(adc_pins[0], adc_pins[2]);
    assert_ne!(adc_pins[1], adc_pins[2]);
}
