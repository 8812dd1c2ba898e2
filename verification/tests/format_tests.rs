//! The text of timestamps and of signal values.

use waveform_mcp::{
    format_binary_verilog, format_signal_value, format_time, SignalValue, Timescale,
    TimescaleUnit,
};

#[test]
fn time_is_scaled_by_the_factor_and_followed_by_the_unit() {
    let units = [
        (TimescaleUnit::ZeptoSeconds, "zs"),
        (TimescaleUnit::AttoSeconds, "as"),
        (TimescaleUnit::FemtoSeconds, "fs"),
        (TimescaleUnit::PicoSeconds, "ps"),
        (TimescaleUnit::NanoSeconds, "ns"),
        (TimescaleUnit::MicroSeconds, "us"),
        (TimescaleUnit::MilliSeconds, "ms"),
        (TimescaleUnit::Seconds, "s"),
        (TimescaleUnit::Unknown, "unknown"),
    ];
    for (unit, suffix) in units {
        let timescale = Timescale { factor: 10, unit };
        assert_eq!(format_time(7, Some(&timescale)), format!("70{}", suffix));
    }
    assert_eq!(format_time(0, None), "0 (unknown timescale)");
}

#[test]
fn time_beyond_64_bits_is_written_in_full() {
    let timescale = Timescale { factor: u32::MAX, unit: TimescaleUnit::Seconds };
    assert_eq!(format_time(u64::MAX, Some(&timescale)), "79228162495817593515539431425s");
    assert_eq!(format_time(u64::MAX, None), "18446744073709551615 (unknown timescale)");
}

#[test]
fn short_values_are_written_in_binary() {
    assert_eq!(format_binary_verilog(&[0b101], 3), "3'b101");
    assert_eq!(format_binary_verilog(&[0b0110], 4), "4'b0110");
    assert_eq!(format_binary_verilog(&[0], 1), "1'b0");
    assert_eq!(format_binary_verilog(&[0xff], 2), "2'b11");
    assert_eq!(format_binary_verilog(&[0b1000, 0xff], 4), "4'b1000");
    assert_eq!(format_binary_verilog(&[1], 0), "0'b");
    assert_eq!(format_binary_verilog(&[], 3), "3'b000");
}

#[test]
fn longer_values_are_written_in_hexadecimal() {
    assert_eq!(format_binary_verilog(&[0x1a, 0x2b], 16), "16'h1a2b");
    assert_eq!(format_binary_verilog(&[0x1f], 5), "5'h1f");
    assert_eq!(format_binary_verilog(&[0x01, 0x2b], 9), "9'h12b");
    assert_eq!(format_binary_verilog(&[0x0a, 0xbc], 12), "12'habc");
    assert_eq!(format_binary_verilog(&[0x00, 0xab, 0xcd, 0xef], 32), "32'h00abcdef");
    assert_eq!(format_binary_verilog(&[0x01, 0x00, 0x00], 17), "17'h10000");
    assert_eq!(format_binary_verilog(&[], 8), "8'h");
    assert_eq!(format_binary_verilog(&[], 9), "9'h");
}

#[test]
fn multi_state_values_are_written_as_byte_lists() {
    assert_eq!(format_signal_value(&SignalValue::FourValue(vec![], 0)), "[]");
    assert_eq!(format_signal_value(&SignalValue::FourValue(vec![1, 20, 255], 12)), "[1, 20, 255]");
    assert_eq!(format_signal_value(&SignalValue::NineValue(vec![9, 0], 4)), "[9, 0]");
}
