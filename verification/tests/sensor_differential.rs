use thermal_watchdog::command::{CommandOutput, Invocation};
use thermal_watchdog::ipmi::{get_ipmi_values, parse_ipmi_value, IPMIRequest, IPMIValue};

/// The same reading of a value field, written with the standard library's
/// string functions.
fn reference_value(value: &str) -> IPMIValue {
    match value.find(" ") {
        Some(first_ws) => {
            let (data, label) = value.split_at(first_ws);
            match label {
                " RPM" => match u32::from_str_radix(data, 10) {
                    Ok(v) => IPMIValue::RPM(v),
                    Err(_) => IPMIValue::Invalid,
                },
                " degrees C" => match i32::from_str_radix(data, 10) {
                    Ok(v) => IPMIValue::Temp(v),
                    Err(_) => IPMIValue::Invalid,
                },
                _ => IPMIValue::Unknown,
            }
        }
        None => IPMIValue::Unknown,
    }
}

/// The same matching of a listing, written with the standard library's
/// string functions.
fn reference_poll(values: &mut Vec<IPMIRequest>, output: &str) {
    for value in values.iter_mut() {
        value.status = IPMIValue::Unknown;
    }
    for line in output.lines() {
        let mut cols = line.split("|");
        let name = cols.next().map(|v| v.trim());
        let status = cols.next().map(|v| v.trim());
        if let (Some(name), Some(status)) = (name, status) {
            let status = reference_value(status);
            for value in values.iter_mut() {
                if let IPMIValue::Unknown = value.status {
                    if value.name == name {
                        value.status = status;
                        break;
                    }
                }
            }
        }
    }
}

struct Generator {
    state: u64,
}

impl Generator {
    fn next(&mut self, bound: usize) -> usize {
        self.state = self.state.wrapping_mul(6364136223846793005).wrapping_add(1442695040888963407);
        ((self.state >> 33) as usize) % bound
    }

    fn pick<'a>(&mut self, pieces: &[&'a str]) -> &'a str {
        pieces[self.next(pieces.len())]
    }
}

const NAMES: [&str; 6] = ["Temp", "Fan1", "Exhaust Temp", "", "Tëmp", "T"];

const PIECES: [&str; 34] = [
    "Temp", "Fan1", "Exhaust Temp", "Tëmp", "T", "|", "|", "|", " ", " ", "  ", "\t", "\n", "\n",
    "\r\n", "\r", "\u{a0}", " RPM", " degrees C", " degrees", "RPM", "4500", "45", "0", "-5",
    "+7", "-", "+", "4294967296", "2147483648", "abc", "ok", "no reading", "\u{3000}",
];

#[test]
fn value_fields_are_read_as_the_standard_functions_read_them() {
    let mut generator = Generator { state: 7 };
    let pieces = [
        " RPM", " degrees C", " ", "  ", "RPM", "degrees C", "C", "4500", "45", "0", "-", "+", "9",
        "4294967295", "4294967296", "2147483647", "2147483648", "a", "\t", "\u{a0}", "é", "",
    ];
    for _ in 0..4000 {
        let mut value = String::new();
        for _ in 0..generator.next(5) {
            value.push_str(generator.pick(&pieces));
        }
        assert_eq!(parse_ipmi_value("name", &value), reference_value(&value), "{:?}", value);
    }
}

#[test]
fn listings_are_matched_as_the_standard_functions_match_them() {
    let mut generator = Generator { state: 11 };
    for _ in 0..1500 {
        let mut values: Vec<IPMIRequest> = Vec::new();
        for _ in 0..generator.next(5) {
            values.push(IPMIRequest {
                name: generator.pick(&NAMES).to_string(),
                status: [IPMIValue::Unknown, IPMIValue::Invalid, IPMIValue::Temp(3)]
                    [generator.next(3)],
            });
        }
        let mut listing = String::new();
        for _ in 0..generator.next(40) {
            listing.push_str(generator.pick(&PIECES));
        }
        let mut expected = values.clone();
        reference_poll(&mut expected, &listing);
        let outcome = Invocation::Finished(CommandOutput {
            success: true,
            code: Some(0),
            stdout: listing.as_bytes().to_vec(),
        });
        assert_eq!(get_ipmi_values(&mut values, &outcome), Ok(()), "{:?}", listing);
        assert_eq!(values, expected, "{:?}", listing);
    }
}

#[test]
fn well_formed_listings_are_matched_as_the_standard_functions_match_them() {
    let mut generator = Generator { state: 23 };
    let values_text = ["45 degrees C", "4500 RPM", "abc degrees C", "45 foo", "no reading", ""];
    for _ in 0..1500 {
        let mut values: Vec<IPMIRequest> = Vec::new();
        for _ in 0..generator.next(6) {
            values.push(IPMIRequest {
                name: generator.pick(&NAMES).to_string(),
                status: IPMIValue::Unknown,
            });
        }
        let mut listing = String::new();
        for _ in 0..generator.next(8) {
            listing.push_str(generator.pick(&NAMES));
            listing.push_str(generator.pick(&[" | ", "|", "  |", " "]));
            listing.push_str(generator.pick(&values_text));
            listing.push_str(generator.pick(&[" | ok", "", "|", " | ok | more"]));
            listing.push_str(generator.pick(&["\n", "\r\n", "\n\n"]));
        }
        let mut expected = values.clone();
        reference_poll(&mut expected, &listing);
        let outcome = Invocation::Finished(CommandOutput {
            success: true,
            code: Some(0),
            stdout: listing.as_bytes().to_vec(),
        });
        assert_eq!(get_ipmi_values(&mut values, &outcome), Ok(()), "{:?}", listing);
        assert_eq!(values, expected, "{:?}", listing);
    }
}
