use payments_engine::account::ClientAccountSnapshot;
use payments_engine::decimal::Amount;
use payments_engine::text::format_amount;
use payments_engine::util::to_csv_string;

fn fmt(mantissa: i128, scale: u32) -> String {
    format_amount(&Amount { mantissa, scale })
}

#[test]
fn test_snapshot_4_decimal_places() {
    let snapshot = ClientAccountSnapshot {
        client_id: 1,
        available: Amount { mantissa: 1234549, scale: 6 },
        held: Amount { mantissa: 499, scale: 7 },
        total: Amount { mantissa: 123461779, scale: 8 },
        locked: false,
    };
    assert_eq!(
        "client,available,held,total,locked
1,1.2345,0,1.2346,false",
        to_csv_string(&vec![snapshot])
    );
}

#[test]
fn rounding_half_away_from_zero() {
    assert_eq!(fmt(1234549, 6), "1.2345");
    assert_eq!(fmt(499, 7), "0");
    assert_eq!(fmt(123461779, 8), "1.2346");
    assert_eq!(fmt(12345, 5), "0.1235");
    assert_eq!(fmt(-12345, 5), "-0.1235");
    assert_eq!(fmt(12344, 5), "0.1234");
    assert_eq!(fmt(-499, 7), "0");
    assert_eq!(fmt(99999, 5), "1");
}

#[test]
fn trailing_zeros_are_dropped() {
    assert_eq!(fmt(1000000, 4), "100");
    assert_eq!(fmt(1001200, 4), "100.12");
    assert_eq!(fmt(-7789, 2), "-77.89");
    assert_eq!(fmt(120, 0), "120");
    assert_eq!(fmt(0, 0), "0");
    assert_eq!(fmt(5, 4), "0.0005");
    assert_eq!(fmt(79228162514264337593543950335, 0), "79228162514264337593543950335");
}

#[test]
fn round_dp_keeps_short_amounts() {
    let a = Amount { mantissa: 15, scale: 1 };
    assert_eq!(a.round_dp(4), a);
    assert_eq!(Amount { mantissa: 123456, scale: 5 }.round_dp(2), Amount { mantissa: 123, scale: 2 });
    assert_eq!(Amount { mantissa: -125, scale: 3 }.round_dp(2), Amount { mantissa: -13, scale: 2 });
}

#[test]
fn exact_arithmetic() {
    let a = Amount { mantissa: 12345, scale: 2 };
    let b = Amount { mantissa: 4690, scale: 2 };
    assert_eq!(a.checked_sub(&b), Some(Amount { mantissa: 7655, scale: 2 }));
    let c = Amount { mantissa: 1, scale: 3 };
    assert_eq!(a.checked_add(&c), Some(Amount { mantissa: 123451, scale: 3 }));
    assert!(a.ge(&b));
    assert!(!b.ge(&a));
    assert!(Amount { mantissa: 100, scale: 2 }.ge(&Amount { mantissa: 1, scale: 0 }));
    let max = Amount { mantissa: (1i128 << 96) - 1, scale: 0 };
    assert_eq!(max.checked_add(&Amount { mantissa: 1, scale: 0 }), None);
    assert_eq!(max.checked_add(&Amount { mantissa: 1, scale: 28 }), None);
    assert!(max.ge(&Amount { mantissa: 1, scale: 28 }));
    assert_eq!(Amount::new(1, 29), None);
}

#[test]
fn empty_output_without_accounts() {
    assert_eq!(to_csv_string(&vec![]), "");
}
