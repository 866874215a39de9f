//! The static partition of the board's peripherals.
//!
//! The full peripheral set is split exactly once, at startup, into one
//! bundle per concurrent activity: the indicator pin for the heartbeat
//! activity, and the bus pins, bus controller and ready-interrupt pin for
//! the acquisition activity.  Handles can be neither copied nor cloned, so
//! the split moves each handle into exactly one bundle and no peripheral
//! can ever serve two activities.

use vstd::prelude::*;

verus! {

/// A handle to one general-purpose pin, identified by its pad number.
pub struct PinHandle {
    id: u8,
}

impl PinHandle {
    /// The pad number this handle stands for.
    pub closed spec fn id(&self) -> u8 {
        self.id
    }

    pub fn id_value(&self) -> (r: u8)
        ensures
            r == self.id(),
    {
        self.id
    }
}

/// A handle to one bus controller, identified by its controller number.
pub struct BusHandle {
    id: u8,
}

impl BusHandle {
    /// The controller number this handle stands for.
    pub closed spec fn id(&self) -> u8 {
        self.id
    }

    pub fn id_value(&self) -> (r: u8)
        ensures
            r == self.id(),
    {
        self.id
    }
}

/// Pad number of the heartbeat indicator pin.
pub const LED_PIN: u8 = 25;

/// Pad number of the bus data pin.
pub const SDA_PIN: u8 = 16;

/// Pad number of the bus clock pin.
pub const SCL_PIN: u8 = 17;

/// Pad number of the converter's conversion-ready pin.
pub const ALERT_PIN: u8 = 18;

/// Controller number of the bus the converter hangs on.
pub const I2C_BUS: u8 = 0;

/// Every peripheral the two activities use, before the split.
pub struct PeripheralSet {
    pub led_pin: PinHandle,
    pub sda_pin: PinHandle,
    pub scl_pin: PinHandle,
    pub alert_pin: PinHandle,
    pub i2c_bus: BusHandle,
}

impl PeripheralSet {
    /// The four pins are four distinct pads.
    pub open spec fn wf(&self) -> bool {
        &&& self.led_pin.id() != self.sda_pin.id()
        &&& self.led_pin.id() != self.scl_pin.id()
        &&& self.led_pin.id() != self.alert_pin.id()
        &&& self.sda_pin.id() != self.scl_pin.id()
        &&& self.sda_pin.id() != self.alert_pin.id()
        &&& self.scl_pin.id() != self.alert_pin.id()
    }

    /// The board's one peripheral set, with the fixed pin-to-peripheral
    /// binding the hardware gives it.  This is the only way to obtain
    /// handles.
    pub fn new() -> (p: PeripheralSet)
        ensures
            p.wf(),
            p.led_pin.id() == LED_PIN,
            p.sda_pin.id() == SDA_PIN,
            p.scl_pin.id() == SCL_PIN,
            p.alert_pin.id() == ALERT_PIN,
            p.i2c_bus.id() == I2C_BUS,
    {
        PeripheralSet {
            led_pin: PinHandle { id: LED_PIN },
            sda_pin: PinHandle { id: SDA_PIN },
            scl_pin: PinHandle { id: SCL_PIN },
            alert_pin: PinHandle { id: ALERT_PIN },
            i2c_bus: BusHandle { id: I2C_BUS },
        }
    }
}

/// The heartbeat activity's bundle: its indicator pin.
pub struct LedResources {
    pub pin: PinHandle,
}

/// The acquisition activity's bundle: the bus pins, the bus controller and
/// the conversion-ready pin.
pub struct AdcResources {
    pub sda: PinHandle,
    pub scl: PinHandle,
    pub i2c: BusHandle,
    pub interrupt: PinHandle,
}

/// One bundle per concurrent activity.
pub struct Resources {
    pub led: LedResources,
    pub adc: AdcResources,
}

/// The pads the heartbeat bundle owns.
pub open spec fn led_pin_ids(b: LedResources) -> Set<u8> {
    set![b.pin.id()]
}

/// The pads the acquisition bundle owns.
pub open spec fn adc_pin_ids(b: AdcResources) -> Set<u8> {
    set![b.sda.id(), b.scl.id(), b.interrupt.id()]
}

/// No pad belongs to both bundles.  (The bus controller exists only in the
/// acquisition bundle; there is no second bus handle it could collide
/// with.)
pub open spec fn bundles_disjoint(r: Resources) -> bool {
    forall|id: u8| led_pin_ids(r.led).contains(id) ==> !adc_pin_ids(r.adc).contains(id)
}

/// Where each handle of the set goes in the split.
pub open spec fn split_spec(p: PeripheralSet) -> Resources {
    Resources {
        led: (LedResources { pin: p.led_pin }),
        adc: (AdcResources {
            sda: p.sda_pin,
            scl: p.scl_pin,
            i2c: p.i2c_bus,
            interrupt: p.alert_pin,
        }),
    }
}

/// Splits the full peripheral set into the two activities' bundles, moving
/// each handle into exactly one bundle.  Performed once at startup; the
/// bundles are then handed to their activities for the process lifetime.
pub fn split_resources(p: PeripheralSet) -> (r: Resources)
    ensures
        r == split_spec(p),
        p.wf() ==> bundles_disjoint(r),
{
    let r = Resources {
        led: LedResources { pin: p.led_pin },
        adc: AdcResources {
            sda: p.sda_pin,
            scl: p.scl_pin,
            i2c: p.i2c_bus,
            interrupt: p.alert_pin,
        },
    };
    proof {
        if p.wf() {
            lemma_split_disjoint(p);
        }
    }
    r
}

/// The static partition check: splitting a well-formed peripheral set
/// yields bundles with no peripheral handle in common.
pub proof fn lemma_split_disjoint(p: PeripheralSet)
    requires
        p.wf(),
    ensures
        bundles_disjoint(split_spec(p)),
{
}

} // verus!
