use logic_sim::Voltage::{Error, Floating, High, Low};
use logic_sim::{Voltage, VoltageInput};

const ALL: [Voltage; 4] = [Voltage::Floating, Voltage::Low, Voltage::High, Voltage::Error];

#[test]
fn pull_is_the_or_of_the_codes() {
    for a in ALL {
        for b in ALL {
            assert_eq!(a.pull(b).bits(), a.bits() | b.bits());
        }
    }
}

#[test]
fn pull_table() {
    assert_eq!(Floating.pull(Floating), Floating);
    assert_eq!(Floating.pull(Low), Low);
    assert_eq!(Floating.pull(High), High);
    assert_eq!(Low.pull(Low), Low);
    assert_eq!(High.pull(High), High);
    assert_eq!(Low.pull(High), Error);
    assert_eq!(High.pull(Low), Error);
    assert_eq!(Error.pull(Low), Error);
    assert_eq!(Error.pull(Floating), Error);
}

#[test]
fn pull_is_commutative_and_idempotent() {
    for a in ALL {
        assert_eq!(a.pull(a), a);
        for b in ALL {
            assert_eq!(a.pull(b), b.pull(a));
        }
    }
}

#[test]
fn pull_is_associative() {
    for a in ALL {
        for b in ALL {
            for c in ALL {
                assert_eq!(a.pull(b.pull(c)), a.pull(b).pull(c));
            }
        }
    }
}

#[test]
fn floating_is_the_identity_and_error_absorbs() {
    for a in ALL {
        assert_eq!(a.pull(Voltage::Floating), a);
        assert_eq!(Voltage::Floating.pull(a), a);
        assert_eq!(a.pull(Voltage::Error), Voltage::Error);
        assert_eq!(Voltage::Error.pull(a), Voltage::Error);
    }
}

#[test]
fn codes_round_trip() {
    assert_eq!(Voltage::Floating.bits(), 0);
    assert_eq!(Voltage::Low.bits(), 1);
    assert_eq!(Voltage::High.bits(), 2);
    assert_eq!(Voltage::Error.bits(), 3);
    for a in ALL {
        assert_eq!(Voltage::from_bits(a.bits()), a);
    }
}

#[test]
fn conversions() {
    assert_eq!(Voltage::from(true), Voltage::High);
    assert_eq!(Voltage::from(false), Voltage::Low);
    assert_eq!(
        VoltageInput::from(Voltage::Error),
        VoltageInput { voltage: Voltage::Error, resistor: false }
    );
    assert_eq!(
        VoltageInput::from(true),
        VoltageInput { voltage: Voltage::High, resistor: false }
    );
    assert_eq!(
        VoltageInput::from(false),
        VoltageInput { voltage: Voltage::Low, resistor: false }
    );
    assert_eq!(VoltageInput::strong(Voltage::Floating).resistor, false);
    assert_eq!(VoltageInput::logic(true).voltage, Voltage::High);
    let into: VoltageInput = Voltage::Low.into();
    assert_eq!(into, VoltageInput { voltage: Voltage::Low, resistor: false });
}
