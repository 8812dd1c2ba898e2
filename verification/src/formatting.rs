//! Text for timestamps and signal values.

use vstd::prelude::*;
use vstd::string::*;
use crate::text::{append_decimal, decimal_text, digit_char, digit_str};
use crate::trace::{SignalValue, Timescale, TimescaleUnit};

verus! {

/// The abbreviation of a time unit.
pub open spec fn unit_text(unit: TimescaleUnit) -> Seq<char> {
    match unit {
        TimescaleUnit::ZeptoSeconds => "zs"@,
        TimescaleUnit::AttoSeconds => "as"@,
        TimescaleUnit::FemtoSeconds => "fs"@,
        TimescaleUnit::PicoSeconds => "ps"@,
        TimescaleUnit::NanoSeconds => "ns"@,
        TimescaleUnit::MicroSeconds => "us"@,
        TimescaleUnit::MilliSeconds => "ms"@,
        TimescaleUnit::Seconds => "s"@,
        TimescaleUnit::Unknown => "unknown"@,
    }
}

/// The text of a timestamp: the time value times the timescale's factor,
/// followed by the unit; without a timescale, the bare time value, marked.
pub open spec fn time_text(time_value: u64, timescale: Option<Timescale>) -> Seq<char> {
    match timescale {
        Some(ts) => decimal_text(time_value as nat * ts.factor as nat) + unit_text(ts.unit),
        None => decimal_text(time_value as nat) + " (unknown timescale)"@,
    }
}

/// Formats a time value with its timescale, as in `10ns`.
pub fn format_time(time_value: u64, timescale: Option<&Timescale>) -> (text: String)
    ensures
        text@ == time_text(
            time_value,
            match timescale {
                Some(ts) => Some(*ts),
                None => None,
            },
        ),
{
    let mut out = String::new();
    match timescale {
        Some(ts) => {
            assert(time_value as nat * ts.factor as nat <= u128::MAX) by (nonlinear_arith)
                requires
                    time_value <= u64::MAX,
                    ts.factor <= u32::MAX,
            ;
            append_decimal(&mut out, time_value as u128 * ts.factor as u128);
            let unit = match ts.unit {
                TimescaleUnit::ZeptoSeconds => "zs",
                TimescaleUnit::AttoSeconds => "as",
                TimescaleUnit::FemtoSeconds => "fs",
                TimescaleUnit::PicoSeconds => "ps",
                TimescaleUnit::NanoSeconds => "ns",
                TimescaleUnit::MicroSeconds => "us",
                TimescaleUnit::MilliSeconds => "ms",
                TimescaleUnit::Seconds => "s",
                TimescaleUnit::Unknown => "unknown",
            };
            out.append(unit);
        },
        None => {
            append_decimal(&mut out, time_value as u128);
            out.append(" (unknown timescale)");
        },
    }
    assert(out@ =~= time_text(
        time_value,
        match timescale {
            Some(ts) => Some(*ts),
            None => None,
        },
    ));
    out
}

/// Whether bit `k` of a byte is set, bit 0 being the least significant.
pub open spec fn byte_bit(byte: u8, k: u32) -> bool {
    (byte >> k) & 1 == 1
}

/// The lowest `bits` bits of a byte as binary digits, most significant first.
pub open spec fn low_bits_text(byte: u8, bits: u32) -> Seq<char> {
    Seq::new(
        bits as nat,
        |i: int|
            if byte_bit(byte, (bits - 1 - i) as u32) {
                '1'
            } else {
                '0'
            },
    )
}

/// Bytes in hexadecimal, two lower-case digits each, in storage order.
pub open spec fn bytes_hex(data: Seq<u8>) -> Seq<char>
    decreases data.len(),
{
    if data.len() == 0 {
        Seq::empty()
    } else {
        bytes_hex(data.drop_last()).push(digit_char(data.last() as nat / 16)).push(
            digit_char(data.last() as nat % 16),
        )
    }
}

/// The text of a two-state value of `bits` bits.
///
/// Up to four bits are shown in binary, as in `3'b101`, from the first
/// storage byte (taken as 0 where there is none). Longer values are shown in
/// hexadecimal, as in `16'h1a2b`: every storage byte gives two digits, and
/// the first digit is left out where the bits need an odd number of digits.
pub open spec fn binary_text(data: Seq<u8>, bits: u32) -> Seq<char> {
    if bits <= 4 {
        let first: u8 = if data.len() > 0 {
            data[0]
        } else {
            0
        };
        decimal_text(bits as nat) + "'b"@ + low_bits_text(first, bits)
    } else {
        let hex = bytes_hex(data);
        let digits = (bits as nat + 3) / 4;
        decimal_text(bits as nat) + "'h"@ + if digits % 2 == 1 && hex.len() > 0 {
            hex.drop_first()
        } else {
            hex
        }
    }
}

/// Formats a two-state value in the style of Verilog literals.
pub fn format_binary_verilog(data: &[u8], bits: u32) -> (text: String)
    ensures
        text@ == binary_text(data@, bits),
{
    let mut out = String::new();
    append_decimal(&mut out, bits as u128);
    if bits <= 4 {
        out.append("'b");
        let first: u8 = if data.len() > 0 {
            data[0]
        } else {
            0
        };
        let ghost head = out@;
        let mut done: u32 = 0;
        while done < bits
            invariant
                bits <= 4,
                done <= bits,
                out@ == head + low_bits_text(first, bits).subrange(0, done as int),
            decreases bits - done,
        {
            let k = bits - 1 - done;
            if (first >> k) & 1 == 1 {
                out.append(digit_str(1));
            } else {
                out.append(digit_str(0));
            }
            assert(out@ =~= head + low_bits_text(first, bits).subrange(0, done as int + 1));
            done += 1;
        }
        assert(low_bits_text(first, bits).subrange(0, bits as int) =~= low_bits_text(first, bits));
        assert(out@ =~= binary_text(data@, bits));
    } else {
        out.append("'h");
        let ghost head = out@;
        let odd = ((bits as u64 + 3) / 4) % 2 == 1;
        let mut i: usize = 0;
        assert(data@.subrange(0, 0) =~= Seq::<u8>::empty());
        while i < data.len()
            invariant
                i <= data.len(),
                out@ == head + if odd && bytes_hex(data@.subrange(0, i as int)).len() > 0 {
                    bytes_hex(data@.subrange(0, i as int)).drop_first()
                } else {
                    bytes_hex(data@.subrange(0, i as int))
                },
                i > 0 ==> bytes_hex(data@.subrange(0, i as int)).len() > 0,
            decreases data.len() - i,
        {
            let byte = data[i];
            let ghost before = bytes_hex(data@.subrange(0, i as int));
            let ghost after = bytes_hex(data@.subrange(0, i as int + 1));
            proof {
                assert(data@.subrange(0, i as int + 1).drop_last() =~= data@.subrange(0, i as int));
                assert(after == before.push(digit_char(byte as nat / 16)).push(
                    digit_char(byte as nat % 16),
                ));
            }
            if !(odd && i == 0) {
                out.append(digit_str(byte / 16));
            }
            out.append(digit_str(byte % 16));
            proof {
                if odd {
                    assert(after.drop_first() =~= if before.len() > 0 {
                        before.drop_first().push(digit_char(byte as nat / 16)).push(
                            digit_char(byte as nat % 16),
                        )
                    } else {
                        seq![digit_char(byte as nat % 16)]
                    });
                }
                assert(out@ =~= head + if odd && after.len() > 0 {
                    after.drop_first()
                } else {
                    after
                });
            }
            i += 1;
        }
        assert(data@.subrange(0, data.len() as int) =~= data@);
        assert(out@ =~= binary_text(data@, bits));
    }
    out
}

/// Bytes as decimal numbers with `, ` between them.
pub open spec fn byte_items(data: Seq<u8>) -> Seq<char>
    decreases data.len(),
{
    if data.len() == 0 {
        Seq::empty()
    } else if data.len() == 1 {
        decimal_text(data[0] as nat)
    } else {
        byte_items(data.drop_last()) + ", "@ + decimal_text(data.last() as nat)
    }
}

/// Bytes as a bracketed list of decimal numbers, as in `[1, 20, 3]`.
pub open spec fn byte_list_text(data: Seq<u8>) -> Seq<char> {
    "["@ + byte_items(data) + "]"@
}

fn format_byte_list(data: &Vec<u8>) -> (text: String)
    ensures
        text@ == byte_list_text(data@),
{
    let mut out = String::new();
    out.append("[");
    let ghost head = out@;
    let mut i: usize = 0;
    assert(data@.subrange(0, 0) =~= Seq::<u8>::empty());
    while i < data.len()
        invariant
            i <= data.len(),
            out@ == head + byte_items(data@.subrange(0, i as int)),
        decreases data.len() - i,
    {
        assert(data@.subrange(0, i as int + 1).drop_last() =~= data@.subrange(0, i as int));
        if i > 0 {
            out.append(", ");
        }
        append_decimal(&mut out, data[i] as u128);
        assert(out@ =~= head + byte_items(data@.subrange(0, i as int + 1)));
        i += 1;
    }
    assert(data@.subrange(0, data.len() as int) =~= data@);
    out.append("]");
    assert(out@ =~= byte_list_text(data@));
    out
}

/// The text that displays a signal value.
pub open spec fn value_text(v: SignalValue) -> Seq<char> {
    match v {
        SignalValue::Event => "Event"@,
        SignalValue::Binary(data, bits) => binary_text(data@, bits),
        SignalValue::FourValue(data, _) => byte_list_text(data@),
        SignalValue::NineValue(data, _) => byte_list_text(data@),
        SignalValue::String(s) => s@,
        SignalValue::Real(_, text) => text@,
    }
}

/// Formats a signal value for display: two-state values in the style of
/// Verilog literals, multi-state values as the list of their storage bytes,
/// strings and reals by their text.
pub fn format_signal_value(signal_value: &SignalValue) -> (text: String)
    ensures
        text@ == value_text(*signal_value),
{
    match signal_value {
        SignalValue::Event => String::from_str("Event"),
        SignalValue::Binary(data, bits) => format_binary_verilog(data.as_slice(), *bits),
        SignalValue::FourValue(data, _) => format_byte_list(data),
        SignalValue::NineValue(data, _) => format_byte_list(data),
        SignalValue::String(s) => s.clone(),
        SignalValue::Real(_, text) => text.clone(),
    }
}

} // verus!
